//! The output assembler.
//!
//! Resolved groups and orphaned packages become one flat list of output
//! entries: resolved groups keyed by their buildinfo, orphans grouped by
//! declared source name and version, every member package contributing one
//! artifact with its pool URL. The final list is sorted by name, then
//! version, both in plain lexicographic byte order.

use vstd::prelude::*;

use crate::buildinfo::bi_result;
use crate::bytes::{
    append_bytes, ascii_seq, copy_bytes, eq_bytes, lemma_lex_le_antisym, lemma_lex_le_total,
    lemma_lex_le_trans, lex_le, lex_le_bytes, str_bytes,
};
use crate::db::parseable;
use crate::deb::{DebianBinaryPkg, PkgModel};
use crate::engine::{Group, GroupModel};
use crate::errors::Error;

verus! {

/// One artifact of an output entry.
#[derive(Debug)]
pub struct PkgArtifact {
    pub name: Vec<u8>,
    pub version: Vec<u8>,
    pub url: Vec<u8>,
}

/// The mathematical model of a [`PkgArtifact`].
pub struct ArtModel {
    pub name: Seq<u8>,
    pub version: Seq<u8>,
    pub url: Seq<u8>,
}

impl View for PkgArtifact {
    type V = ArtModel;

    open spec fn view(&self) -> ArtModel {
        ArtModel { name: self.name@, version: self.version@, url: self.url@ }
    }
}

impl DeepView for PkgArtifact {
    type V = ArtModel;

    open spec fn deep_view(&self) -> ArtModel {
        self.view()
    }
}

/// One entry of the final manifest.
#[derive(Debug)]
pub struct PkgGroup {
    pub name: Vec<u8>,
    pub version: Vec<u8>,
    pub distro: Vec<u8>,
    pub suite: Vec<u8>,
    pub architecture: Vec<u8>,
    pub input_url: Vec<u8>,
    pub artifacts: Vec<PkgArtifact>,
}

/// The mathematical model of a [`PkgGroup`].
pub struct EntryModel {
    pub name: Seq<u8>,
    pub version: Seq<u8>,
    pub distro: Seq<u8>,
    pub suite: Seq<u8>,
    pub architecture: Seq<u8>,
    pub input_url: Seq<u8>,
    pub artifacts: Seq<ArtModel>,
}

impl View for PkgGroup {
    type V = EntryModel;

    open spec fn view(&self) -> EntryModel {
        EntryModel {
            name: self.name@,
            version: self.version@,
            distro: self.distro@,
            suite: self.suite@,
            architecture: self.architecture@,
            input_url: self.input_url@,
            artifacts: self.artifacts.deep_view(),
        }
    }
}

impl DeepView for PkgGroup {
    type V = EntryModel;

    open spec fn deep_view(&self) -> EntryModel {
        self.view()
    }
}

/// The pool URL of one member package's artifact.
pub open spec fn artifact_url(deb_folder: Seq<u8>, file_name: Seq<u8>) -> Seq<u8> {
    ascii_seq("https://deb.debian.org/debian/pool/main/"@) + deb_folder + ascii_seq("/"@)
        + file_name
}

/// The artifact one member package contributes.
pub open spec fn artifact_entry(p: PkgModel) -> ArtModel {
    ArtModel {
        name: p.name,
        version: p.version,
        url: artifact_url(p.deb_folder, p.file_name),
    }
}

/// The artifacts of a member list, in order.
pub open spec fn artifacts_of(ps: Seq<PkgModel>) -> Seq<ArtModel> {
    Seq::new(ps.len(), |i: int| artifact_entry(ps[i]))
}

/// The entry of one resolved group: named for its buildinfo's source and
/// version, carrying the buildinfo's URL and architecture (the orphan
/// sentinel stands in when the document declared none).
pub open spec fn entry_of_group(g: GroupModel, distro: Seq<u8>, suite: Seq<u8>) -> EntryModel {
    let st = bi_result(g.buildinfo.content);
    EntryModel {
        name: st.source->0,
        version: st.version->0,
        distro: distro,
        suite: suite,
        architecture: match st.architecture {
            Some(a) => a,
            None => ascii_seq("???"@),
        },
        input_url: g.buildinfo.url,
        artifacts: artifacts_of(g.pkgs),
    }
}

/// An orphaned package's source version, with `0` standing in for a missing
/// one.
pub open spec fn orphan_ver(p: PkgModel) -> Seq<u8> {
    match p.source.version {
        Some(v) => v,
        None => ascii_seq("0"@),
    }
}

/// One fallback group: packages sharing a source name and version.
#[derive(Debug)]
pub struct OrphanGroup {
    pub src: Vec<u8>,
    pub ver: Vec<u8>,
    pub pkgs: Vec<DebianBinaryPkg>,
}

/// The mathematical model of an [`OrphanGroup`].
pub struct OrphanModel {
    pub src: Seq<u8>,
    pub ver: Seq<u8>,
    pub pkgs: Seq<PkgModel>,
}

impl View for OrphanGroup {
    type V = OrphanModel;

    open spec fn view(&self) -> OrphanModel {
        OrphanModel { src: self.src@, ver: self.ver@, pkgs: self.pkgs.deep_view() }
    }
}

impl DeepView for OrphanGroup {
    type V = OrphanModel;

    open spec fn deep_view(&self) -> OrphanModel {
        self.view()
    }
}

/// Index of the first fallback group with this source name and version, or
/// the group count.
pub open spec fn okey_idx(gs: Seq<OrphanModel>, src: Seq<u8>, ver: Seq<u8>) -> int
    decreases gs.len(),
{
    if gs.len() == 0 {
        0
    } else if gs[0].src == src && gs[0].ver == ver {
        0
    } else {
        1 + okey_idx(gs.drop_first(), src, ver)
    }
}

pub proof fn lemma_okey_idx(gs: Seq<OrphanModel>, src: Seq<u8>, ver: Seq<u8>)
    ensures
        0 <= okey_idx(gs, src, ver) <= gs.len(),
        okey_idx(gs, src, ver) < gs.len() ==> gs[okey_idx(gs, src, ver)].src == src && gs[okey_idx(
            gs,
            src,
            ver,
        )].ver == ver,
        forall|j: int|
            0 <= j < okey_idx(gs, src, ver) ==> !(gs[j].src == src && gs[j].ver == ver),
    decreases gs.len(),
{
    if gs.len() == 0 {
    } else if gs[0].src == src && gs[0].ver == ver {
    } else {
        lemma_okey_idx(gs.drop_first(), src, ver);
        assert forall|j: int| 0 <= j < okey_idx(gs, src, ver) implies !(gs[j].src == src
            && gs[j].ver == ver) by {
            if j > 0 {
                assert(gs.drop_first()[j - 1] == gs[j]);
            }
        }
    }
}

/// One orphan joining the fallback groups: appended to the group with its
/// key, or opening a new group at the end.
pub open spec fn orphan_add(gs: Seq<OrphanModel>, p: PkgModel) -> Seq<OrphanModel> {
    let src = p.source.name;
    let ver = orphan_ver(p);
    let i = okey_idx(gs, src, ver);
    if i < gs.len() {
        gs.update(i, OrphanModel { src: gs[i].src, ver: gs[i].ver, pkgs: gs[i].pkgs.push(p) })
    } else {
        gs.push(OrphanModel { src: src, ver: ver, pkgs: seq![p] })
    }
}

/// The fold of [`orphan_add`] over the orphan list.
pub open spec fn orphan_fold(ps: Seq<PkgModel>, acc: Seq<OrphanModel>) -> Seq<OrphanModel>
    decreases ps.len(),
{
    if ps.len() == 0 {
        acc
    } else {
        orphan_fold(ps.drop_first(), orphan_add(acc, ps[0]))
    }
}

/// The fallback groups of an orphan list, in first-seen-key order.
pub open spec fn orphan_groups(ps: Seq<PkgModel>) -> Seq<OrphanModel> {
    orphan_fold(ps, Seq::empty())
}

/// The entry of one fallback group: the architecture sentinel, and a
/// synthesized missing-buildinfo URL.
pub open spec fn entry_of_orphan(g: OrphanModel, distro: Seq<u8>, suite: Seq<u8>) -> EntryModel {
    EntryModel {
        name: g.src,
        version: g.ver,
        distro: distro,
        suite: suite,
        architecture: ascii_seq("???"@),
        input_url: ascii_seq("https://buildinfos.debian.net/missing-buildinfo/"@) + g.src
            + ascii_seq("/"@) + g.ver,
        artifacts: artifacts_of(g.pkgs),
    }
}

/// Everything the manifest holds, before sorting: the resolved groups'
/// entries in group order, then the fallback groups' entries in
/// first-seen-key order.
pub open spec fn assembled(
    gs: Seq<GroupModel>,
    orphans: Seq<PkgModel>,
    distro: Seq<u8>,
    suite: Seq<u8>,
) -> Seq<EntryModel> {
    let og = orphan_groups(orphans);
    Seq::new(gs.len(), |i: int| entry_of_group(gs[i], distro, suite)) + Seq::new(
        og.len(),
        |i: int| entry_of_orphan(og[i], distro, suite),
    )
}

/// The manifest order: by name, ties broken by version, both lexicographic
/// on bytes.
pub open spec fn entry_le(a: EntryModel, b: EntryModel) -> bool {
    if a.name == b.name {
        lex_le(a.version, b.version)
    } else {
        lex_le(a.name, b.name)
    }
}

pub proof fn lemma_entry_le_total(a: EntryModel, b: EntryModel)
    ensures
        entry_le(a, b) || entry_le(b, a),
{
    if a.name == b.name {
        lemma_lex_le_total(a.version, b.version);
    } else {
        lemma_lex_le_total(a.name, b.name);
    }
}

pub proof fn lemma_entry_le_trans(a: EntryModel, b: EntryModel, c: EntryModel)
    requires
        entry_le(a, b),
        entry_le(b, c),
    ensures
        entry_le(a, c),
{
    if a.name == b.name && b.name == c.name {
        lemma_lex_le_trans(a.version, b.version, c.version);
    } else if a.name == b.name {
    } else if b.name == c.name {
    } else {
        lemma_lex_le_trans(a.name, b.name, c.name);
        if a.name == c.name {
            lemma_lex_le_antisym(a.name, b.name);
        }
    }
}

/// Sorted in the manifest order.
pub open spec fn entries_sorted(s: Seq<EntryModel>) -> bool {
    forall|i: int, j: int| 0 <= i < j < s.len() ==> entry_le(s[i], s[j])
}

/// Inserting anywhere adds exactly one occurrence.
proof fn lemma_insert_to_multiset(s: Seq<EntryModel>, i: int, x: EntryModel)
    requires
        0 <= i <= s.len(),
    ensures
        s.insert(i, x).to_multiset() == s.to_multiset().insert(x),
{
    broadcast use vstd::seq_lib::group_to_multiset_ensures;

    let t = s.insert(i, x);
    assert(t.remove(i) =~= s);
    assert(t[i] == x);
    assert(t.remove(i).to_multiset() =~= t.to_multiset().remove(x));
    assert(t.contains(x));
    assert(t.to_multiset().count(x) > 0);
    assert(t.to_multiset() =~= s.to_multiset().insert(x)) by {
        assert(s.to_multiset() =~= t.to_multiset().remove(x));
    }
}

/// The manifest comparison on entries.
fn entry_le_exec(a: &PkgGroup, b: &PkgGroup) -> (r: bool)
    ensures
        r == entry_le(a@, b@),
{
    if eq_bytes(a.name.as_slice(), b.name.as_slice()) {
        lex_le_bytes(a.version.as_slice(), b.version.as_slice())
    } else {
        lex_le_bytes(a.name.as_slice(), b.name.as_slice())
    }
}

/// Sort the entries in the manifest order, keeping exactly the same
/// entries.
fn sort_entries(v: &mut Vec<PkgGroup>)
    ensures
        entries_sorted(final(v).deep_view()),
        final(v).deep_view().to_multiset() == old(v).deep_view().to_multiset(),
        final(v)@.len() == old(v)@.len(),
{
    let n = v.len();
    if n == 0 {
        return;
    }
    let mut i: usize = 1;
    while i < n
        invariant
            1 <= i <= n,
            n == v@.len(),
            v@.len() == old(v)@.len(),
            forall|a: int, b: int|
                0 <= a < b < i ==> entry_le(v.deep_view()[a], v.deep_view()[b]),
            v.deep_view().to_multiset() == old(v).deep_view().to_multiset(),
        decreases n - i,
    {
        let ghost dv_pre = v.deep_view();
        let x = v.remove(i);
        let ghost xd = x.deep_view();
        let ghost mid = v.deep_view();
        proof {
            broadcast use vstd::seq_lib::group_to_multiset_ensures;

            assert(mid =~~= dv_pre.remove(i as int));
            assert(xd == dv_pre[i as int]);
            assert(dv_pre.remove(i as int).to_multiset() =~= dv_pre.to_multiset().remove(
                dv_pre[i as int],
            ));
            assert forall|a: int, b: int| 0 <= a < b < i implies entry_le(mid[a], mid[b]) by {
                assert(mid[a] == dv_pre[a]);
                assert(mid[b] == dv_pre[b]);
            }
        }
        let mut j: usize = 0;
        while j < i && entry_le_exec(&v[j], &x)
            invariant
                0 <= j <= i,
                i < n,
                n == v@.len() + 1,
                mid == v.deep_view(),
                xd == x.deep_view(),
                forall|k: int| 0 <= k < j ==> entry_le(mid[k], xd),
            decreases i - j,
        {
            j += 1;
        }
        proof {
            if j < i {
                lemma_entry_le_total(mid[j as int], xd);
                assert(entry_le(xd, mid[j as int]));
            }
        }
        v.insert(j, x);
        proof {
            let now = v.deep_view();
            assert(now =~~= mid.insert(j as int, xd));
            lemma_insert_to_multiset(mid, j as int, xd);
            assert(now.to_multiset() =~= dv_pre.to_multiset()) by {
                broadcast use vstd::seq_lib::group_to_multiset_ensures;

                assert(dv_pre.contains(dv_pre[i as int]));
                assert(dv_pre.to_multiset().count(dv_pre[i as int]) > 0);
                assert(mid.to_multiset() =~= dv_pre.to_multiset().remove(xd));
                assert(now.to_multiset() =~= mid.to_multiset().insert(xd));
            }
            assert forall|a: int, b: int|
                0 <= a < b < i + 1 implies entry_le(now[a], now[b]) by {
                if b < j {
                    assert(now[a] == mid[a] && now[b] == mid[b]);
                } else if b == j {
                    assert(now[a] == mid[a] && now[b] == xd);
                } else if a == j {
                    assert(now[a] == xd && now[b] == mid[b - 1]);
                    assert(j < i);
                    assert(entry_le(xd, mid[j as int]));
                    if b - 1 > j {
                        assert(entry_le(mid[j as int], mid[b - 1]));
                        lemma_entry_le_trans(xd, mid[j as int], mid[b - 1]);
                    }
                } else if a < j {
                    assert(now[a] == mid[a] && now[b] == mid[b - 1]);
                    if a < b - 1 {
                        assert(entry_le(mid[a], mid[b - 1]));
                    } else {
                        assert(entry_le(mid[a], xd));
                        assert(entry_le(xd, mid[j as int]));
                    }
                } else {
                    assert(now[a] == mid[a - 1] && now[b] == mid[b - 1]);
                    assert(entry_le(mid[a - 1], mid[b - 1]));
                }
            }
        }
        i += 1;
    }
}

/// The artifacts that a member list contributes, in member order.
fn artifacts_vec(pkgs: &Vec<DebianBinaryPkg>) -> (r: Vec<PkgArtifact>)
    ensures
        r.deep_view() == artifacts_of(pkgs.deep_view()),
{
    proof {
        reveal_strlit("https://deb.debian.org/debian/pool/main/");
        reveal_strlit("/");
    }
    let ghost pv = pkgs.deep_view();
    let n = pkgs.len();
    let mut out: Vec<PkgArtifact> = Vec::new();
    let mut i: usize = 0;
    proof {
        assert(out.deep_view() =~~= artifacts_of(pv).take(0));
    }
    while i < n
        invariant
            0 <= i <= n,
            n == pkgs@.len(),
            pv == pkgs.deep_view(),
            out.deep_view() == artifacts_of(pv).take(i as int),
        decreases n - i,
    {
        proof {
            reveal_strlit("https://deb.debian.org/debian/pool/main/");
            reveal_strlit("/");
        }
        let p: &DebianBinaryPkg = &pkgs[i];
        proof {
            assert(p.deep_view() == pv[i as int]);
        }
        let mut url = str_bytes("https://deb.debian.org/debian/pool/main/");
        append_bytes(&mut url, p.deb_folder.as_slice());
        let sl = str_bytes("/");
        append_bytes(&mut url, sl.as_slice());
        append_bytes(&mut url, p.file_name.as_slice());
        let art = PkgArtifact {
            name: copy_bytes(p.name.as_slice()),
            version: copy_bytes(p.version.as_slice()),
            url,
        };
        proof {
            assert(art@ == artifact_entry(pv[i as int]));
        }
        let ghost before = out.deep_view();
        out.push(art);
        proof {
            assert(out.deep_view() =~~= before.push(artifact_entry(pv[i as int])));
            assert(out.deep_view() =~~= artifacts_of(pv).take(i as int + 1));
        }
        i += 1;
    }
    proof {
        assert(out.deep_view() =~~= artifacts_of(pv));
    }
    out
}

/// The entry of one resolved group.
fn group_entry(g: &Group, distro: &[u8], suite: &[u8]) -> (r: PkgGroup)
    requires
        parseable(g@.buildinfo.content),
    ensures
        r@ == entry_of_group(g@, distro@, suite@),
{
    let parsed = match crate::buildinfo::Buildinfo::from_str(g.buildinfo.content.as_slice()) {
        Ok(parsed) => parsed,
        Err(_) => {
            proof {
                assert(false);
            }
            crate::buildinfo::Buildinfo {
                source: Vec::new(),
                version: Vec::new(),
                architecture: None,
                artifacts: Vec::new(),
            }
        },
    };
    let ghost st = bi_result(g@.buildinfo.content);
    let architecture = match parsed.architecture {
        Some(a) => {
            proof {
                assert(st.architecture is Some);
                assert(a.deep_view() =~= a@);
                assert(a@ == st.architecture->0);
            }
            a
        },
        None => {
            proof {
                assert(st.architecture is None);
                reveal_strlit("???");
            }
            str_bytes("???")
        },
    };
    let artifacts = artifacts_vec(&g.pkgs);
    PkgGroup {
        name: parsed.source,
        version: parsed.version,
        distro: copy_bytes(distro),
        suite: copy_bytes(suite),
        architecture,
        input_url: copy_bytes(g.buildinfo.url.as_slice()),
        artifacts,
    }
}

/// The version key an orphan groups under.
fn orphan_version(p: &DebianBinaryPkg) -> (r: Vec<u8>)
    ensures
        r@ == orphan_ver(p@),
{
    match &p.source.version {
        Some(v) => copy_bytes(v.as_slice()),
        None => {
            proof {
                reveal_strlit("0");
            }
            str_bytes("0")
        },
    }
}

/// Group the orphans by source name and version, first-seen-key ordered.
fn group_orphans(orphans: &Vec<DebianBinaryPkg>) -> (r: Vec<OrphanGroup>)
    ensures
        r.deep_view() == orphan_groups(orphans.deep_view()),
{
    let ghost ov = orphans.deep_view();
    let n = orphans.len();
    let mut out: Vec<OrphanGroup> = Vec::new();
    let mut i: usize = 0;
    proof {
        assert(ov.skip(0) =~= ov);
        assert(out.deep_view() =~~= Seq::<OrphanModel>::empty());
    }
    while i < n
        invariant
            0 <= i <= n,
            n == orphans@.len(),
            ov == orphans.deep_view(),
            orphan_fold(ov, Seq::empty()) == orphan_fold(ov.skip(i as int), out.deep_view()),
        decreases n - i,
    {
        proof {
            assert(ov.skip(i as int).len() > 0);
            assert(ov.skip(i as int)[0] == ov[i as int]);
            assert(ov.skip(i as int).drop_first() =~= ov.skip(i as int + 1));
        }
        let p = orphans[i].duplicate();
        proof {
            assert(p@ == ov[i as int]);
        }
        let ver = orphan_version(&p);
        orphan_insert(&mut out, p, ver);
        i += 1;
    }
    proof {
        assert(ov.skip(n as int) =~= Seq::<PkgModel>::empty());
    }
    out
}

/// Put one orphan into its fallback group.
fn orphan_insert(out: &mut Vec<OrphanGroup>, p: DebianBinaryPkg, ver: Vec<u8>)
    requires
        ver@ == orphan_ver(p@),
    ensures
        final(out).deep_view() == orphan_add(old(out).deep_view(), p@),
{
    let ghost gs0 = out.deep_view();
    proof {
        lemma_okey_idx(gs0, p@.source.name, ver@);
    }
    let n = out.len();
    let mut i: usize = 0;
    while i < n
        invariant
            0 <= i <= n,
            n == out@.len(),
            out == old(out),
            ver@ == orphan_ver(p@),
            gs0 == out.deep_view(),
            forall|j: int| 0 <= j < i ==> !(gs0[j].src == p@.source.name && gs0[j].ver == ver@),
            0 <= okey_idx(gs0, p@.source.name, ver@) <= n,
            okey_idx(gs0, p@.source.name, ver@) < n ==> gs0[okey_idx(
                gs0,
                p@.source.name,
                ver@,
            )].src == p@.source.name && gs0[okey_idx(gs0, p@.source.name, ver@)].ver == ver@,
            forall|j: int|
                0 <= j < okey_idx(gs0, p@.source.name, ver@) ==> !(gs0[j].src == p@.source.name
                    && gs0[j].ver == ver@),
        decreases n - i,
    {
        let hit = eq_bytes(out[i].src.as_slice(), p.source.name.as_slice()) && eq_bytes(
            out[i].ver.as_slice(),
            ver.as_slice(),
        );
        proof {
            assert(out[i as int].deep_view() == gs0[i as int]);
        }
        if hit {
            assert(i == okey_idx(gs0, p@.source.name, ver@));
            let mut g = out.remove(i);
            let ghost gp0 = g.pkgs.deep_view();
            g.pkgs.push(p);
            proof {
                assert(g.pkgs.deep_view() =~~= gp0.push(p@));
            }
            out.insert(i, g);
            proof {
                assert(out.deep_view() =~~= orphan_add(gs0, p@));
            }
            return;
        }
        i += 1;
    }
    let src = copy_bytes(p.source.name.as_slice());
    let mut pkgs: Vec<DebianBinaryPkg> = Vec::new();
    pkgs.push(p);
    let g = OrphanGroup { src, ver, pkgs };
    proof {
        assert(g.pkgs.deep_view() =~~= seq![p@]);
    }
    out.push(g);
    proof {
        assert(out.deep_view() =~~= orphan_add(gs0, p@));
    }
}

/// The entry of one fallback group.
fn orphan_entry(g: &OrphanGroup, distro: &[u8], suite: &[u8]) -> (r: PkgGroup)
    ensures
        r@ == entry_of_orphan(g@, distro@, suite@),
{
    proof {
        reveal_strlit("https://buildinfos.debian.net/missing-buildinfo/");
        reveal_strlit("/");
        reveal_strlit("???");
    }
    let mut input_url = str_bytes("https://buildinfos.debian.net/missing-buildinfo/");
    append_bytes(&mut input_url, g.src.as_slice());
    let sl = str_bytes("/");
    append_bytes(&mut input_url, sl.as_slice());
    append_bytes(&mut input_url, g.ver.as_slice());
    let artifacts = artifacts_vec(&g.pkgs);
    PkgGroup {
        name: copy_bytes(g.src.as_slice()),
        version: copy_bytes(g.ver.as_slice()),
        distro: copy_bytes(distro),
        suite: copy_bytes(suite),
        architecture: str_bytes("???"),
        input_url,
        artifacts,
    }
}

/// Assemble the final manifest: one entry per resolved group, one per
/// fallback group of the orphans, sorted by name then version. The entries
/// are exactly those of [`assembled`], in sorted order.
pub fn assemble(
    groups: &Vec<Group>,
    orphans: &Vec<DebianBinaryPkg>,
    distro: &[u8],
    suite: &[u8],
) -> (r: Vec<PkgGroup>)
    requires
        forall|i: int|
            0 <= i < groups.deep_view().len() ==> parseable(
                (#[trigger] groups.deep_view()[i]).buildinfo.content,
            ),
    ensures
        entries_sorted(r.deep_view()),
        r.deep_view().to_multiset() == assembled(
            groups.deep_view(),
            orphans.deep_view(),
            distro@,
            suite@,
        ).to_multiset(),
{
    let ghost gv = groups.deep_view();
    let ghost total = assembled(groups.deep_view(), orphans.deep_view(), distro@, suite@);
    let mut out: Vec<PkgGroup> = Vec::new();
    let n = groups.len();
    let mut i: usize = 0;
    proof {
        assert(out.deep_view() =~~= Seq::<EntryModel>::empty());
    }
    while i < n
        invariant
            0 <= i <= n,
            n == groups@.len(),
            gv == groups.deep_view(),
            forall|k: int|
                0 <= k < gv.len() ==> parseable((#[trigger] gv[k]).buildinfo.content),
            out.deep_view() == Seq::new(gv.len(), |k: int| entry_of_group(gv[k], distro@, suite@))
                .take(i as int),
        decreases n - i,
    {
        let g: &Group = &groups[i];
        proof {
            assert(g.deep_view() == gv[i as int]);
        }
        let e = group_entry(g, distro, suite);
        let ghost before = out.deep_view();
        out.push(e);
        proof {
            assert(out.deep_view() =~~= before.push(entry_of_group(gv[i as int], distro@, suite@)));
            assert(out.deep_view() =~~= Seq::new(
                gv.len(),
                |k: int| entry_of_group(gv[k], distro@, suite@),
            ).take(i as int + 1));
        }
        i += 1;
    }
    let og = group_orphans(orphans);
    let ghost ogv = og.deep_view();
    let m = og.len();
    let mut j: usize = 0;
    proof {
        assert(out.deep_view() =~~= Seq::new(
            gv.len(),
            |k: int| entry_of_group(gv[k], distro@, suite@),
        ));
    }
    while j < m
        invariant
            0 <= j <= m,
            m == og@.len(),
            gv == groups.deep_view(),
            ogv == og.deep_view(),
            out.deep_view() == Seq::new(gv.len(), |k: int| entry_of_group(gv[k], distro@, suite@))
                + Seq::new(ogv.len(), |k: int| entry_of_orphan(ogv[k], distro@, suite@)).take(
                j as int,
            ),
        decreases m - j,
    {
        let g: &OrphanGroup = &og[j];
        proof {
            assert(g.deep_view() == ogv[j as int]);
        }
        let e = orphan_entry(g, distro, suite);
        let ghost before = out.deep_view();
        out.push(e);
        proof {
            assert(out.deep_view() =~~= before.push(entry_of_orphan(ogv[j as int], distro@, suite@)));
            assert(out.deep_view() =~~= Seq::new(
                gv.len(),
                |k: int| entry_of_group(gv[k], distro@, suite@),
            ) + Seq::new(ogv.len(), |k: int| entry_of_orphan(ogv[k], distro@, suite@)).take(
                j as int + 1,
            ));
        }
        j += 1;
    }
    proof {
        assert(out.deep_view() =~~= total);
    }
    let mut out = out;
    sort_entries(&mut out);
    out
}

/// Feeding the assembler a single resolved group with one member yields
/// exactly one entry, whose artifact list holds exactly one artifact, whose
/// URL is the pool base, the member's folder, a slash and its file name,
/// and whose input URL is the group's buildinfo URL.
pub proof fn lemma_assemble_singleton(g: GroupModel, distro: Seq<u8>, suite: Seq<u8>)
    requires
        g.pkgs.len() == 1,
    ensures
        assembled(seq![g], Seq::empty(), distro, suite).len() == 1,
        assembled(seq![g], Seq::empty(), distro, suite)[0].artifacts.len() == 1,
        assembled(seq![g], Seq::empty(), distro, suite)[0].artifacts[0].url == artifact_url(
            g.pkgs[0].deb_folder,
            g.pkgs[0].file_name,
        ),
        assembled(seq![g], Seq::empty(), distro, suite)[0].input_url == g.buildinfo.url,
{
    let es = assembled(seq![g], Seq::empty(), distro, suite);
    assert(orphan_groups(Seq::empty()) =~= Seq::<OrphanModel>::empty());
    assert(es.len() == 1);
    assert(es[0] == entry_of_group(g, distro, suite));
    assert(es[0].artifacts == artifacts_of(g.pkgs));
    assert(es[0].artifacts[0] == artifact_entry(g.pkgs[0]));
}

} // verus!
