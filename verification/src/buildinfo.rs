//! The buildinfo document parser.
//!
//! A buildinfo document is line-oriented: top-level `Key: Value` lines carry
//! the source name, version and architecture, while indented lines under a
//! `Checksums-*:` section header each name one built artifact. The parse is
//! modelled as a fold of [`bi_step`] over the document's lines.

use vstd::prelude::*;

use crate::bytes::{
    ascii_seq, eq_bytes, ends_with_byte, find_byte, find_pair, first_idx, first_pair_idx, key_is,
    last_is, spec_lines, spec_trim_ws, split_lines, starts_with, str_bytes, subvec, trim_ws,
    has_prefix, COLON, SP,
};
use crate::errors::{Error, ParseField};

verus! {

/// A line that belongs to the section opened above it.
pub open spec fn indented(line: Seq<u8>) -> bool {
    line.len() > 0 && line[0] == SP
}

/// A top-level line that opens a named section.
pub open spec fn colon_term(line: Seq<u8>) -> bool {
    last_is(line, COLON)
}

/// The `Key: Value` split of a line at the first `": "`, if it has one.
pub open spec fn kv_split(line: Seq<u8>) -> Option<(Seq<u8>, Seq<u8>)> {
    let i = first_pair_idx(line, COLON, SP);
    if i < line.len() {
        Some((line.take(i), line.skip(i + 2)))
    } else {
        None
    }
}

/// The value up to its first space: a `Source` value may carry a trailing
/// parenthesized version, which is dropped.
pub open spec fn first_token(v: Seq<u8>) -> Seq<u8> {
    v.take(first_idx(v, SP))
}

/// The filename on a checksum line of shape `<hash> <size> <filename>`:
/// everything after the second space of the trimmed line, if the line has
/// at least three space-separated fields.
pub open spec fn checksum_artifact(line: Seq<u8>) -> Option<Seq<u8>> {
    let t = spec_trim_ws(line);
    let i = first_idx(t, SP);
    if i >= t.len() {
        None
    } else {
        let rest = t.skip(i + 1);
        let j = first_idx(rest, SP);
        if j >= rest.len() {
            None
        } else {
            Some(rest.skip(j + 1))
        }
    }
}

/// A section header that holds artifact checksums.
pub open spec fn is_checksums(sec: Seq<u8>) -> bool {
    has_prefix(sec, ascii_seq("Checksums-"@))
}

/// How one line changes the open section: an indented line keeps it, a
/// `Name:` line opens a new one, any other top-level line closes it.
pub open spec fn sec_step(sec: Option<Seq<u8>>, line: Seq<u8>) -> Option<Seq<u8>> {
    if indented(line) {
        sec
    } else if colon_term(line) {
        Some(line.take(line.len() - 1))
    } else {
        None
    }
}

/// The parser state: the open section, the last-seen value of each
/// recognized field, and the artifact filenames collected so far.
pub struct BiState {
    pub section: Option<Seq<u8>>,
    pub source: Option<Seq<u8>>,
    pub version: Option<Seq<u8>>,
    pub architecture: Option<Seq<u8>>,
    pub artifacts: Set<Seq<u8>>,
}

/// The state before any line is read.
pub open spec fn bi_init() -> BiState {
    BiState {
        section: None,
        source: None,
        version: None,
        architecture: None,
        artifacts: Set::empty(),
    }
}

/// How one line changes the parser state.
pub open spec fn bi_step(st: BiState, line: Seq<u8>) -> BiState {
    if indented(line) {
        match st.section {
            Some(sec) => if is_checksums(sec) {
                match checksum_artifact(line) {
                    Some(a) => BiState { artifacts: st.artifacts.insert(a), ..st },
                    None => st,
                }
            } else {
                st
            },
            None => st,
        }
    } else {
        let st1 = BiState { section: sec_step(st.section, line), ..st };
        match kv_split(line) {
            Some(kv) => if kv.0 == ascii_seq("Source"@) {
                BiState { source: Some(first_token(kv.1)), ..st1 }
            } else if kv.0 == ascii_seq("Version"@) {
                BiState { version: Some(kv.1), ..st1 }
            } else if kv.0 == ascii_seq("Architecture"@) {
                BiState { architecture: Some(kv.1), ..st1 }
            } else {
                st1
            },
            None => st1,
        }
    }
}

/// The fold of [`bi_step`] over a sequence of lines.
pub open spec fn bi_fold(lines: Seq<Seq<u8>>, st: BiState) -> BiState
    decreases lines.len(),
{
    if lines.len() == 0 {
        st
    } else {
        bi_fold(lines.drop_first(), bi_step(st, lines[0]))
    }
}

/// The parser state after reading a whole document.
pub open spec fn bi_result(s: Seq<u8>) -> BiState {
    bi_fold(spec_lines(s), bi_init())
}

/// No two entries of `s` are equal.
pub open spec fn all_distinct(s: Seq<Seq<u8>>) -> bool {
    forall|i: int, j: int| 0 <= i < j < s.len() ==> s[i] != s[j]
}

/// The set of entries of `s`.
pub open spec fn elem_set(s: Seq<Seq<u8>>) -> Set<Seq<u8>> {
    Set::new(|a: Seq<u8>| s.contains(a))
}

/// The fields of one parsed buildinfo document.
#[derive(Debug)]
pub struct Buildinfo {
    /// First token of the `Source` field.
    pub source: Vec<u8>,
    /// Verbatim value of the `Version` field.
    pub version: Vec<u8>,
    /// Verbatim value of the `Architecture` field, when present.
    pub architecture: Option<Vec<u8>>,
    /// The artifact filenames named under `Checksums-*:` sections, each once,
    /// in order of first occurrence.
    pub artifacts: Vec<Vec<u8>>,
}

impl Buildinfo {
    /// The artifacts as a set.
    pub open spec fn artifact_set(&self) -> Set<Seq<u8>> {
        elem_set(self.artifacts.deep_view())
    }

    /// The artifact list repeats no filename.
    pub open spec fn artifacts_distinct(&self) -> bool {
        all_distinct(self.artifacts.deep_view())
    }

    /// Parse one buildinfo document: exactly the fold of [`bi_step`] over its
    /// lines, failing if and only if `Source` or `Version` never occurred,
    /// and naming the missing field (`Source` first).
    pub fn from_str(s: &[u8]) -> (r: Result<Buildinfo, Error>)
        ensures
            ({
                let st = bi_result(s@);
                match r {
                    Ok(b) => {
                        &&& st.source is Some
                        &&& st.version is Some
                        &&& b.source@ == st.source->0
                        &&& b.version@ == st.version->0
                        &&& b.architecture.deep_view() == st.architecture
                        &&& b.artifact_set() == st.artifacts
                        &&& b.artifacts_distinct()
                    },
                    Err(e) => {
                        &&& (st.source is None || st.version is None)
                        &&& e == if st.source is None {
                            Error::ParseError(ParseField::BuildinfoSource)
                        } else {
                            Error::ParseError(ParseField::BuildinfoVersion)
                        }
                    },
                }
            }),
    {
        let lines = split_lines(s);
        let ghost lv = lines.deep_view();
        let n = lines.len();
        let mut section: Option<Vec<u8>> = None;
        let mut source: Option<Vec<u8>> = None;
        let mut version: Option<Vec<u8>> = None;
        let mut architecture: Option<Vec<u8>> = None;
        let mut artifacts: Vec<Vec<u8>> = Vec::new();
        let mut i: usize = 0;
        proof {
            assert(lv.skip(0) =~= lv);
            assert(artifacts.deep_view() =~~= Seq::<Seq<u8>>::empty());
            assert(elem_set(artifacts.deep_view()) =~= Set::<Seq<u8>>::empty());
        }
        while i < n
            invariant
                0 <= i <= n,
                n == lv.len(),
                lv == lines.deep_view(),
                n == lines@.len(),
                all_distinct(artifacts.deep_view()),
                bi_fold(lv, bi_init()) == bi_fold(
                    lv.skip(i as int),
                    BiState {
                        section: section.deep_view(),
                        source: source.deep_view(),
                        version: version.deep_view(),
                        architecture: architecture.deep_view(),
                        artifacts: elem_set(artifacts.deep_view()),
                    },
                ),
            decreases n - i,
        {
            let ghost st = BiState {
                section: section.deep_view(),
                source: source.deep_view(),
                version: version.deep_view(),
                architecture: architecture.deep_view(),
                artifacts: elem_set(artifacts.deep_view()),
            };
            proof {
                assert(lv.skip(i as int).len() > 0);
                assert(lv.skip(i as int)[0] == lv[i as int]);
                assert(lv.skip(i as int).drop_first() =~= lv.skip(i as int + 1));
            }
            let line: &Vec<u8> = &lines[i];
            let ghost lsp = lv[i as int];
            proof {
                assert(line.deep_view() == lv[i as int]);
                assert(line@ =~= line.deep_view());
            }
            let m = line.len();
            if m > 0 && line.as_slice()[0] == SP {
                assert(indented(lsp));
                let mut matched = false;
                if let Some(sec) = &section {
                    proof {
                        reveal_strlit("Checksums-");
                        assert(sec.deep_view() =~= sec@);
                        assert(st.section->0 == sec@);
                    }
                    let ck = str_bytes("Checksums-");
                    if starts_with(sec.as_slice(), ck.as_slice()) {
                        matched = true;
                    }
                    assert(matched == is_checksums(st.section->0));
                }
                if matched {
                    if let Some(a) = artifact_from_checksum_line(line.as_slice()) {
                        let ghost av = a@;
                        proof {
                            assert(a.deep_view() =~= av);
                            assert(checksum_artifact(lsp) is Some);
                            assert(av == checksum_artifact(lsp)->0);
                        }
                        push_unique(&mut artifacts, a);
                        proof {
                            assert(elem_set(artifacts.deep_view()) == st.artifacts.insert(av));
                        }
                    } else {
                        assert(checksum_artifact(lsp) is None);
                    }
                } else {
                    assert(bi_step(st, lsp) == st);
                }
            } else {
                proof {
                    assert(!indented(lsp));
                    crate::bytes::lemma_first_pair_idx(lsp, COLON, SP);
                }
                if ends_with_byte(line.as_slice(), COLON) {
                    let ns = subvec(line.as_slice(), 0, m - 1);
                    proof {
                        assert(ns.deep_view() =~= ns@);
                        assert(ns@ =~= lsp.take(lsp.len() - 1));
                    }
                    section = Some(ns);
                    assert(section.deep_view() == sec_step(st.section, lsp));
                } else {
                    section = None;
                    assert(section.deep_view() == sec_step(st.section, lsp));
                }
                let sep = find_pair(line.as_slice(), COLON, SP);
                if sep < m {
                    let k = subvec(line.as_slice(), 0, sep);
                    let v = subvec(line.as_slice(), sep + 2, m);
                    let ghost kv = kv_split(lsp)->0;
                    proof {
                        assert(kv_split(lsp) is Some);
                        assert(k@ == kv.0);
                        assert(v@ == kv.1);
                        reveal_strlit("Source");
                        reveal_strlit("Version");
                        reveal_strlit("Architecture");
                    }
                    if key_is(k.as_slice(), "Source") {
                        let t = find_byte(v.as_slice(), SP);
                        proof {
                            crate::bytes::lemma_first_idx(v@, SP);
                        }
                        let tok = subvec(v.as_slice(), 0, t);
                        proof {
                            assert(tok@ == first_token(kv.1));
                            assert(tok.deep_view() =~= tok@);
                        }
                        source = Some(tok);
                    } else if key_is(k.as_slice(), "Version") {
                        proof {
                            assert(v.deep_view() =~= v@);
                        }
                        version = Some(v);
                    } else if key_is(k.as_slice(), "Architecture") {
                        proof {
                            assert(v.deep_view() =~= v@);
                        }
                        architecture = Some(v);
                    }
                } else {
                    assert(kv_split(lsp) is None);
                }
            }
            i += 1;
            proof {
                let st2 = BiState {
                    section: section.deep_view(),
                    source: source.deep_view(),
                    version: version.deep_view(),
                    architecture: architecture.deep_view(),
                    artifacts: elem_set(artifacts.deep_view()),
                };
                assert(st2 == bi_step(st, lsp));
            }
        }
        proof {
            assert(lv.skip(n as int) =~= Seq::<Seq<u8>>::empty());
            assert(spec_lines(s@) == lv);
        }
        if source.is_none() {
            return Err(Error::ParseError(ParseField::BuildinfoSource));
        }
        if version.is_none() {
            return Err(Error::ParseError(ParseField::BuildinfoVersion));
        }
        let src = source.unwrap();
        let ver = version.unwrap();
        proof {
            assert(src.deep_view() =~= src@);
            assert(ver.deep_view() =~= ver@);
        }
        Ok(Buildinfo { source: src, version: ver, architecture, artifacts })
    }
}

/// The filename field of one indented checksum line, if the line has the
/// `<hash> <size> <filename>` shape.
pub fn artifact_from_checksum_line(line: &[u8]) -> (r: Option<Vec<u8>>)
    ensures
        r.deep_view() == checksum_artifact(line@),
{
    let t = trim_ws(line);
    let n = t.len();
    proof {
        crate::bytes::lemma_first_idx(t@, SP);
    }
    let i = find_byte(t.as_slice(), SP);
    if i >= n {
        return None;
    }
    let rest = subvec(t.as_slice(), i + 1, n);
    let m = rest.len();
    proof {
        crate::bytes::lemma_first_idx(rest@, SP);
    }
    let j = find_byte(rest.as_slice(), SP);
    if j >= m {
        proof {
            assert(rest@ =~= spec_trim_ws(line@).skip(i + 1));
        }
        return None;
    }
    let out = subvec(rest.as_slice(), j + 1, m);
    proof {
        assert(rest@ =~= spec_trim_ws(line@).skip(i + 1));
        assert(out@ =~= rest@.skip(j + 1));
        assert(out.deep_view() =~= out@);
    }
    Some(out)
}

/// Append `x` unless an equal entry is already present, keeping entries
/// distinct and first-occurrence ordered.
fn push_unique(v: &mut Vec<Vec<u8>>, x: Vec<u8>)
    requires
        all_distinct(old(v).deep_view()),
    ensures
        all_distinct(final(v).deep_view()),
        elem_set(final(v).deep_view()) == elem_set(old(v).deep_view()).insert(x@),
{
    let n = v.len();
    let mut i: usize = 0;
    while i < n
        invariant
            0 <= i <= n,
            n == v@.len(),
            v@ == old(v)@,
            all_distinct(v.deep_view()),
            forall|j: int| 0 <= j < i ==> v.deep_view()[j] != x@,
        decreases n - i,
    {
        let hit = eq_bytes(v[i].as_slice(), x.as_slice());
        proof {
            assert(v.deep_view()[i as int] =~= v@[i as int]@);
        }
        if hit {
            proof {
                assert(v.deep_view()[i as int] == x@);
                assert(v.deep_view().contains(x@));
                assert(v.deep_view() =~~= old(v).deep_view());
                assert(elem_set(v.deep_view()) =~= elem_set(old(v).deep_view()).insert(x@));
            }
            return;
        }
        i += 1;
    }
    let ghost before = v.deep_view();
    proof {
        assert(before =~~= old(v).deep_view());
    }
    v.push(x);
    proof {
        assert(v.deep_view() =~~= before.push(x@));
        assert forall|a: Seq<u8>| elem_set(v.deep_view()).contains(a) implies elem_set(
            before,
        ).insert(x@).contains(a) by {
            let k = choose|k: int| 0 <= k < v.deep_view().len() && v.deep_view()[k] == a;
            if k < before.len() {
                assert(before[k] == a);
            }
        }
        assert forall|a: Seq<u8>| elem_set(before).insert(x@).contains(a) implies elem_set(
            v.deep_view(),
        ).contains(a) by {
            if a == x@ {
                assert(v.deep_view()[before.len() as int] == a);
            } else {
                let k = choose|k: int| 0 <= k < before.len() && before[k] == a;
                assert(v.deep_view()[k] == a);
            }
        }
        assert(elem_set(v.deep_view()) =~= elem_set(before).insert(x@));
        assert(elem_set(old(v).deep_view()) =~= elem_set(before));
        assert forall|i1: int, j1: int|
            0 <= i1 < j1 < v.deep_view().len() implies v.deep_view()[i1] != v.deep_view()[j1] by {
            if j1 == before.len() {
                assert(before[i1] != x@);
            }
        }
    }
}

/// The section that is open just before line `i` is read, given the section
/// `sec0` open before line `0`.
pub open spec fn section_before(lines: Seq<Seq<u8>>, sec0: Option<Seq<u8>>, i: int) -> Option<Seq<u8>>
    decreases i,
{
    if i <= 0 {
        sec0
    } else {
        sec_step(section_before(lines, sec0, i - 1), lines[i - 1])
    }
}

/// The artifact filename that line `i` contributes: its checksum-line
/// filename when it is indented and stands under a `Checksums-*:` header.
pub open spec fn artifact_at(lines: Seq<Seq<u8>>, sec0: Option<Seq<u8>>, i: int) -> Option<Seq<u8>> {
    if indented(lines[i]) {
        match section_before(lines, sec0, i) {
            Some(sec) => if is_checksums(sec) {
                checksum_artifact(lines[i])
            } else {
                None
            },
            None => None,
        }
    } else {
        None
    }
}

/// Every artifact filename contributed by some line, deduplicated.
pub open spec fn artifacts_from(lines: Seq<Seq<u8>>, sec0: Option<Seq<u8>>) -> Set<Seq<u8>> {
    Set::new(
        |a: Seq<u8>|
            exists|i: int| 0 <= i < lines.len() && artifact_at(lines, sec0, i) == Some(a),
    )
}

/// Dropping the first line shifts the section context by one step.
proof fn lemma_section_shift(lines: Seq<Seq<u8>>, sec0: Option<Seq<u8>>, i: int)
    requires
        lines.len() > 0,
        0 <= i <= lines.len() - 1,
    ensures
        section_before(lines.drop_first(), sec_step(sec0, lines[0]), i) == section_before(
            lines,
            sec0,
            i + 1,
        ),
    decreases i,
{
    if i == 0 {
    } else {
        lemma_section_shift(lines, sec0, i - 1);
        assert(lines.drop_first()[i - 1] == lines[i]);
    }
}

/// The fold collects exactly the per-line artifact contributions, on top of
/// whatever the starting state already held.
proof fn lemma_bi_fold_artifacts(lines: Seq<Seq<u8>>, st: BiState)
    ensures
        bi_fold(lines, st).artifacts == st.artifacts.union(artifacts_from(lines, st.section)),
    decreases lines.len(),
{
    if lines.len() == 0 {
        assert(artifacts_from(lines, st.section) =~= Set::<Seq<u8>>::empty());
        assert(st.artifacts.union(artifacts_from(lines, st.section)) =~= st.artifacts);
    } else {
        let l0 = lines[0];
        let st1 = bi_step(st, l0);
        let rest = lines.drop_first();
        assert(st1.section == sec_step(st.section, l0));
        lemma_bi_fold_artifacts(rest, st1);
        assert forall|k: int| 0 <= k < rest.len() implies artifact_at(rest, st1.section, k)
            == artifact_at(lines, st.section, k + 1) by {
            lemma_section_shift(lines, st.section, k);
            assert(rest[k] == lines[k + 1]);
        }
        let lhs = st.artifacts.union(artifacts_from(lines, st.section));
        let rhs = st1.artifacts.union(artifacts_from(rest, st1.section));
        assert forall|x: Seq<u8>| lhs.contains(x) implies rhs.contains(x) by {
            if st.artifacts.contains(x) {
                assert(st1.artifacts.contains(x));
            } else {
                let i = choose|i: int|
                    0 <= i < lines.len() && artifact_at(lines, st.section, i) == Some(x);
                if i == 0 {
                    assert(st1.artifacts.contains(x));
                } else {
                    assert(artifact_at(rest, st1.section, i - 1) == Some(x));
                    assert(artifacts_from(rest, st1.section).contains(x));
                }
            }
        }
        assert forall|x: Seq<u8>| rhs.contains(x) implies lhs.contains(x) by {
            if st1.artifacts.contains(x) {
                if !st.artifacts.contains(x) {
                    assert(artifact_at(lines, st.section, 0) == Some(x));
                    assert(artifacts_from(lines, st.section).contains(x));
                }
            } else {
                let k = choose|k: int|
                    0 <= k < rest.len() && artifact_at(rest, st1.section, k) == Some(x);
                assert(artifact_at(lines, st.section, k + 1) == Some(x));
                assert(artifacts_from(lines, st.section).contains(x));
            }
        }
        assert(lhs =~= rhs);
    }
}

/// For every buildinfo document, the parsed artifact set equals the union of
/// the third-token-onward of every indented line under every `Checksums-*:`
/// section, deduplicated.
pub proof fn lemma_artifact_set_characterization(s: Seq<u8>)
    ensures
        bi_result(s).artifacts == artifacts_from(spec_lines(s), None),
{
    lemma_bi_fold_artifacts(spec_lines(s), bi_init());
    assert(bi_init().artifacts.union(artifacts_from(spec_lines(s), None)) =~= artifacts_from(
        spec_lines(s),
        None,
    ));
}

} // verus!

