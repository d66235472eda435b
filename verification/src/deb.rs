//! The package-index parser.
//!
//! A package index is a sequence of records separated by blank lines; within
//! a record, unindented `Key: Value` lines fill a draft that a blank line
//! finalizes into a [`DebianBinaryPkg`]. The parse is modelled as the fold
//! [`deb_fold`] over the index's lines.

use vstd::prelude::*;

use crate::buildinfo::kv_split;
use crate::bytes::{
    ascii_seq, copy_bytes, find_byte, first_idx, key_is, last_idx, opt_bytes, rfind_byte,
    spec_read_lines, spec_trim_parens, read_lines, subvec, trim_parens, SLASH, SP,
};
use crate::errors::{Error, ParseField};

verus! {

/// The source package a binary package was built from.
#[derive(Debug)]
pub struct DebianSource {
    /// Source package name.
    pub name: Vec<u8>,
    /// Source version, when the `Source` field carried a parenthesized one.
    pub version: Option<Vec<u8>>,
}

/// The mathematical model of a [`DebianSource`].
pub struct SourceModel {
    pub name: Seq<u8>,
    pub version: Option<Seq<u8>>,
}

impl View for DebianSource {
    type V = SourceModel;

    open spec fn view(&self) -> SourceModel {
        SourceModel { name: self.name@, version: opt_bytes(self.version) }
    }
}

impl DeepView for DebianSource {
    type V = SourceModel;

    open spec fn deep_view(&self) -> SourceModel {
        self.view()
    }
}

/// One binary package record of the index.
#[derive(Debug)]
pub struct DebianBinaryPkg {
    /// Binary package name (`Package` field).
    pub name: Vec<u8>,
    /// Owning source package; defaults to the binary name when the record
    /// carries no `Source` field.
    pub source: DebianSource,
    /// Binary version (`Version` field).
    pub version: Vec<u8>,
    /// Architecture, when the record carries one.
    pub architecture: Option<Vec<u8>>,
    /// Final path segment of the `Filename` field.
    pub file_name: Vec<u8>,
    /// The two pool path segments above the file, `<letter>/<source-name>`.
    pub deb_folder: Vec<u8>,
}

/// The mathematical model of a [`DebianBinaryPkg`].
pub struct PkgModel {
    pub name: Seq<u8>,
    pub source: SourceModel,
    pub version: Seq<u8>,
    pub architecture: Option<Seq<u8>>,
    pub file_name: Seq<u8>,
    pub deb_folder: Seq<u8>,
}

impl View for DebianBinaryPkg {
    type V = PkgModel;

    open spec fn view(&self) -> PkgModel {
        PkgModel {
            name: self.name@,
            source: self.source@,
            version: self.version@,
            architecture: opt_bytes(self.architecture),
            file_name: self.file_name@,
            deb_folder: self.deb_folder@,
        }
    }
}

impl DeepView for DebianBinaryPkg {
    type V = PkgModel;

    open spec fn deep_view(&self) -> PkgModel {
        self.view()
    }
}

impl DebianBinaryPkg {
    /// A fresh record with the same fields.
    pub fn duplicate(&self) -> (r: Self)
        ensures
            r@ == self@,
    {
        DebianBinaryPkg {
            name: copy_bytes(self.name.as_slice()),
            source: DebianSource {
                name: copy_bytes(self.source.name.as_slice()),
                version: match &self.source.version {
                    Some(v) => Some(copy_bytes(v.as_slice())),
                    None => None,
                },
            },
            version: copy_bytes(self.version.as_slice()),
            architecture: match &self.architecture {
                Some(a) => Some(copy_bytes(a.as_slice())),
                None => None,
            },
            file_name: copy_bytes(self.file_name.as_slice()),
            deb_folder: copy_bytes(self.deb_folder.as_slice()),
        }
    }
}

/// A record under construction: every field still optional.
#[derive(Debug)]
pub struct DraftBinaryPkg {
    pub name: Option<Vec<u8>>,
    pub source: Option<DebianSource>,
    pub version: Option<Vec<u8>>,
    pub architecture: Option<Vec<u8>>,
    pub file_name: Option<Vec<u8>>,
    pub deb_folder: Option<Vec<u8>>,
}

/// The mathematical model of a [`DraftBinaryPkg`].
pub struct DraftModel {
    pub name: Option<Seq<u8>>,
    pub source: Option<SourceModel>,
    pub version: Option<Seq<u8>>,
    pub architecture: Option<Seq<u8>>,
    pub file_name: Option<Seq<u8>>,
    pub deb_folder: Option<Seq<u8>>,
}

impl View for DraftBinaryPkg {
    type V = DraftModel;

    open spec fn view(&self) -> DraftModel {
        DraftModel {
            name: opt_bytes(self.name),
            source: match self.source {
                Some(s) => Some(s@),
                None => None,
            },
            version: opt_bytes(self.version),
            architecture: opt_bytes(self.architecture),
            file_name: opt_bytes(self.file_name),
            deb_folder: opt_bytes(self.deb_folder),
        }
    }
}

/// The draft before any line of a record is read.
pub open spec fn deb_init() -> DraftModel {
    DraftModel {
        name: None,
        source: None,
        version: None,
        architecture: None,
        file_name: None,
        deb_folder: None,
    }
}

impl Default for DraftBinaryPkg {
    /// An empty draft.
    fn default() -> (r: Self)
        ensures
            r@ == deb_init(),
    {
        DraftBinaryPkg {
            name: None,
            source: None,
            version: None,
            architecture: None,
            file_name: None,
            deb_folder: None,
        }
    }
}

/// A `Source` value split at its last space: `name (version)` yields the
/// name and the version with parentheses trimmed; a bare name yields no
/// version.
pub open spec fn parse_source(v: Seq<u8>) -> SourceModel {
    let i = last_idx(v, SP);
    if i >= 0 {
        SourceModel { name: v.take(i), version: Some(spec_trim_parens(v.skip(i + 1))) }
    } else {
        SourceModel { name: v, version: None }
    }
}

/// Everything after the first slash of `s`, or the whole original `Filename`
/// value when `s` has no slash.
pub open spec fn split_after_slash(s: Seq<u8>, whole: Seq<u8>) -> Seq<u8> {
    let i = first_idx(s, SLASH);
    if i < s.len() {
        s.skip(i + 1)
    } else {
        whole
    }
}

/// The file part of a `Filename` value: everything after the last slash.
pub open spec fn filename_file(v: Seq<u8>) -> Seq<u8> {
    let k = last_idx(v, SLASH);
    if k >= 0 {
        v.skip(k + 1)
    } else {
        v
    }
}

/// The pool folder of a `Filename` value: the directory part with its first
/// two path segments stripped, so `pool/main/r/rust-foo/f.deb` yields
/// `r/rust-foo`.
pub open spec fn filename_folder(v: Seq<u8>) -> Seq<u8> {
    let k = last_idx(v, SLASH);
    let f0 = if k >= 0 {
        v.take(k)
    } else {
        Seq::<u8>::empty()
    };
    split_after_slash(split_after_slash(f0, v), v)
}

/// How one unindented, non-empty line changes the draft.
pub open spec fn deb_step(st: DraftModel, line: Seq<u8>) -> DraftModel {
    match kv_split(line) {
        Some(kv) => if kv.0 == ascii_seq("Package"@) {
            DraftModel { name: Some(kv.1), ..st }
        } else if kv.0 == ascii_seq("Source"@) {
            DraftModel { source: Some(parse_source(kv.1)), ..st }
        } else if kv.0 == ascii_seq("Version"@) {
            DraftModel { version: Some(kv.1), ..st }
        } else if kv.0 == ascii_seq("Architecture"@) {
            DraftModel { architecture: Some(kv.1), ..st }
        } else if kv.0 == ascii_seq("Filename"@) {
            DraftModel {
                file_name: Some(filename_file(kv.1)),
                deb_folder: Some(filename_folder(kv.1)),
                ..st
            }
        } else {
            st
        },
        None => st,
    }
}

/// A draft turned into a finished record: `Package`, `Version` and
/// `Filename` are required, in that order of complaint; a missing `Source`
/// defaults to the package's own name with no version.
pub open spec fn spec_finalize(st: DraftModel) -> Result<PkgModel, ParseField> {
    if st.name is None {
        Err(ParseField::Package)
    } else if st.version is None {
        Err(ParseField::PackageVersion)
    } else if st.file_name is None || st.deb_folder is None {
        Err(ParseField::Filename)
    } else {
        Ok(
            PkgModel {
                name: st.name->0,
                source: match st.source {
                    Some(s) => s,
                    None => SourceModel { name: st.name->0, version: None },
                },
                version: st.version->0,
                architecture: st.architecture,
                file_name: st.file_name->0,
                deb_folder: st.deb_folder->0,
            },
        )
    }
}

/// The fold over the index's lines: blank lines finalize the draft, indented
/// lines are ignored, other lines update the draft. A draft left open at the
/// end of input is dropped.
pub open spec fn deb_fold(lines: Seq<Seq<u8>>, st: DraftModel, acc: Seq<PkgModel>) -> Result<
    Seq<PkgModel>,
    ParseField,
>
    decreases lines.len(),
{
    if lines.len() == 0 {
        Ok(acc)
    } else {
        let line = lines[0];
        if line.len() == 0 {
            match spec_finalize(st) {
                Ok(p) => deb_fold(lines.drop_first(), deb_init(), acc.push(p)),
                Err(f) => Err(f),
            }
        } else if line[0] == SP {
            deb_fold(lines.drop_first(), st, acc)
        } else {
            deb_fold(lines.drop_first(), deb_step(st, line), acc)
        }
    }
}

/// The parse of a whole index.
pub open spec fn deb_result(s: Seq<u8>) -> Result<Seq<PkgModel>, ParseField> {
    deb_fold(spec_read_lines(s), deb_init(), Seq::empty())
}

/// Whether the executable outcome `r` matches the modelled parse of `s`.
pub open spec fn parse_outcome_matches(r: Result<Vec<DebianBinaryPkg>, Error>, s: Seq<u8>) -> bool {
    match deb_result(s) {
        Ok(ps) => r is Ok && r->Ok_0.deep_view() == ps,
        Err(f) => r is Err && r->Err_0 == Error::ParseError(f),
    }
}

impl DraftBinaryPkg {
    /// Validating constructor of the finished record.
    fn finalize(self) -> (r: Result<DebianBinaryPkg, Error>)
        ensures
            match spec_finalize(self@) {
                Ok(p) => r is Ok && r->Ok_0@ == p,
                Err(f) => r is Err && r->Err_0 == Error::ParseError(f),
            },
    {
        let name = match self.name {
            Some(name) => name,
            None => {
                return Err(Error::ParseError(ParseField::Package));
            },
        };
        let version = match self.version {
            Some(version) => version,
            None => {
                return Err(Error::ParseError(ParseField::PackageVersion));
            },
        };
        let file_name = match self.file_name {
            Some(file_name) => file_name,
            None => {
                return Err(Error::ParseError(ParseField::Filename));
            },
        };
        let deb_folder = match self.deb_folder {
            Some(deb_folder) => deb_folder,
            None => {
                return Err(Error::ParseError(ParseField::Filename));
            },
        };
        let source = match self.source {
            Some(source) => source,
            None => DebianSource { name: copy_bytes(name.as_slice()), version: None },
        };
        Ok(
            DebianBinaryPkg {
                name,
                source,
                version,
                architecture: self.architecture,
                file_name,
                deb_folder,
            },
        )
    }
}

/// The `Source` field of an index record.
fn parse_source_field(v: &[u8]) -> (r: DebianSource)
    ensures
        r@ == parse_source(v@),
{
    proof {
        crate::bytes::lemma_last_idx(v@, SP);
    }
    let n = v.len();
    match rfind_byte(v, SP) {
        Some(i) => {
            assert(i < n);
            let name = subvec(v, 0, i);
            let tail = subvec(v, i + 1, n);
            let ver = trim_parens(tail.as_slice());
            proof {
                assert(tail@ =~= v@.skip(i + 1));
            }
            DebianSource { name, version: Some(ver) }
        },
        None => DebianSource { name: copy_bytes(v), version: None },
    }
}

/// The file and folder parts of a `Filename` field.
fn filename_fields(v: &[u8]) -> (r: (Vec<u8>, Vec<u8>))
    ensures
        r.0@ == filename_file(v@),
        r.1@ == filename_folder(v@),
{
    proof {
        crate::bytes::lemma_last_idx(v@, SLASH);
    }
    let n = v.len();
    let (folder0, fname): (Vec<u8>, Vec<u8>) = match rfind_byte(v, SLASH) {
        Some(k) => (subvec(v, 0, k), subvec(v, k + 1, n)),
        None => {
            let e: Vec<u8> = Vec::new();
            assert(e@ =~= Seq::<u8>::empty());
            (e, copy_bytes(v))
        },
    };
    let f1 = split_after(folder0.as_slice(), v);
    let f2 = split_after(f1.as_slice(), v);
    (fname, f2)
}

/// Everything after the first slash of `s`, or a copy of `whole`.
fn split_after(s: &[u8], whole: &[u8]) -> (r: Vec<u8>)
    ensures
        r@ == split_after_slash(s@, whole@),
{
    proof {
        crate::bytes::lemma_first_idx(s@, SLASH);
    }
    let i = find_byte(s, SLASH);
    if i < s.len() {
        subvec(s, i + 1, s.len())
    } else {
        copy_bytes(whole)
    }
}

/// Parse a package index from plain text: exactly the fold [`deb_fold`] over
/// its lines, with the first incomplete record's missing field as the error.
pub fn parse_packages_db(packages_db: &[u8]) -> (r: Result<Vec<DebianBinaryPkg>, Error>)
    ensures
        parse_outcome_matches(r, packages_db@),
{
    let lines = read_lines(packages_db);
    let ghost lv = lines.deep_view();
    let n = lines.len();
    let mut out: Vec<DebianBinaryPkg> = Vec::new();
    let mut draft = DraftBinaryPkg::default();
    let mut i: usize = 0;
    proof {
        assert(lv.skip(0) =~= lv);
        assert(out.deep_view() =~= Seq::<PkgModel>::empty());
    }
    while i < n
        invariant
            0 <= i <= n,
            n == lv.len(),
            lv == lines.deep_view(),
            lv == spec_read_lines(packages_db@),
            n == lines@.len(),
            deb_fold(lv, deb_init(), Seq::empty()) == deb_fold(
                lv.skip(i as int),
                draft@,
                out.deep_view(),
            ),
        decreases n - i,
    {
        let ghost st = draft@;
        let ghost acc = out.deep_view();
        proof {
            assert(lv.skip(i as int).len() > 0);
            assert(lv.skip(i as int)[0] == lv[i as int]);
            assert(lv.skip(i as int).drop_first() =~= lv.skip(i as int + 1));
        }
        let line: &Vec<u8> = &lines[i];
        let ghost lsp = lv[i as int];
        proof {
            assert(line.deep_view() == lv[i as int]);
            assert(line@ =~= line.deep_view());
        }
        let m = line.len();
        if m == 0 {
            let d = draft;
            draft = DraftBinaryPkg::default();
            match d.finalize() {
                Ok(bin) => {
                    out.push(bin);
                    proof {
                        assert(out.deep_view() =~~= acc.push(bin@));
                    }
                },
                Err(e) => {
                    proof {
                        let f = spec_finalize(st)->Err_0;
                        assert(deb_fold(lv.skip(i as int), st, acc) == Err::<
                            Seq<PkgModel>,
                            ParseField,
                        >(f));
                        assert(spec_read_lines(packages_db@) == lv);
                        assert(deb_result(packages_db@) == Err::<Seq<PkgModel>, ParseField>(f));
                    }
                    return Err(e);
                },
            }
        } else if line.as_slice()[0] == SP {
            assert(lsp[0] == SP);
        } else {
            proof {
                crate::bytes::lemma_first_pair_idx(lsp, crate::bytes::COLON, SP);
            }
            let sep = crate::bytes::find_pair(line.as_slice(), crate::bytes::COLON, SP);
            if sep < m {
                let k = subvec(line.as_slice(), 0, sep);
                let v = subvec(line.as_slice(), sep + 2, m);
                let ghost kv = kv_split(lsp)->0;
                proof {
                    assert(kv_split(lsp) is Some);
                    assert(k@ == kv.0);
                    assert(v@ == kv.1);
                    reveal_strlit("Package");
                    reveal_strlit("Source");
                    reveal_strlit("Version");
                    reveal_strlit("Architecture");
                    reveal_strlit("Filename");
                }
                if key_is(k.as_slice(), "Package") {
                    draft.name = Some(v);
                } else if key_is(k.as_slice(), "Source") {
                    let s = parse_source_field(v.as_slice());
                    draft.source = Some(s);
                } else if key_is(k.as_slice(), "Version") {
                    draft.version = Some(v);
                } else if key_is(k.as_slice(), "Architecture") {
                    draft.architecture = Some(v);
                } else if key_is(k.as_slice(), "Filename") {
                    let (fname, folder) = filename_fields(v.as_slice());
                    draft.file_name = Some(fname);
                    draft.deb_folder = Some(folder);
                }
                assert(draft@ == deb_step(st, lsp));
            } else {
                assert(kv_split(lsp) is None);
                assert(draft@ == deb_step(st, lsp));
            }
        }
        i += 1;
    }
    proof {
        assert(lv.skip(n as int) =~= Seq::<Seq<u8>>::empty());
        assert(spec_read_lines(packages_db@) == lv);
    }
    Ok(out)
}

/// What xz decompression yields on a given compressed stream: `None` for
/// streams that liblzma rejects. Decoding is a function of the bytes alone.
pub uninterp spec fn xz_decoded(data: Seq<u8>) -> Option<Seq<u8>>;

/// Relies on xz2's `XzDecoder` (liblzma bindings): reading it to the end
/// yields the decompressed bytes of the stream, or an error for input that
/// is not a valid xz stream.
#[verifier::external_body]
fn xz_decompress(data: &[u8]) -> (r: Option<Vec<u8>>)
    ensures
        r is Some <==> xz_decoded(data@) is Some,
        r is Some ==> r->0@ == xz_decoded(data@)->0,
{
    let mut dec = xz2::read::XzDecoder::new(data);
    let mut out = Vec::new();
    match std::io::Read::read_to_end(&mut dec, &mut out) {
        Ok(_) => Some(out),
        Err(_) => None,
    }
}

/// Parse an xz-compressed package index: decompress, then parse as
/// [`parse_packages_db`] does; a stream that does not decode is itself a
/// parse error naming the compressed index.
pub fn parse_compressed_packages_db(packages_db: &[u8]) -> (r: Result<Vec<DebianBinaryPkg>, Error>)
    ensures
        match xz_decoded(packages_db@) {
            Some(plain) => parse_outcome_matches(r, plain),
            None => r is Err && r->Err_0 == Error::ParseError(ParseField::CompressedIndex),
        },
{
    match xz_decompress(packages_db) {
        Some(plain) => parse_packages_db(plain.as_slice()),
        None => Err(Error::ParseError(ParseField::CompressedIndex)),
    }
}

} // verus!

