//! The reconciliation engine.
//!
//! Each binary package is resolved to the buildinfo record that produced it:
//! first by a cache lookup, then — when the cache misses and crawling is
//! enabled — by walking the candidate buildinfo files of the package's pool
//! directory, newest first, caching each downloaded document and stopping
//! at the first whose artifact list names the package's file. A package no
//! candidate accounts for is orphaned.
//!
//! The engine holds only decisions and cache state; the fetches themselves
//! happen outside. A caller runs one package by calling [`Reconciler::begin`]
//! and, when told to, fetching the directory listing and candidate bodies
//! and handing them back through [`Reconciler::on_listing`] and
//! [`Reconciler::on_body`].

use vstd::prelude::*;

use crate::buildinfo::bi_result;
use crate::bytes::{
    append_bytes, ascii_seq, contains_bytes, copy_bytes, eq_bytes, str_bytes,
};
use crate::db::{parseable, Database};
use crate::deb::{DebianBinaryPkg, PkgModel};
use crate::errors::Error;
use crate::models::buildinfo::{BiRowModel, Buildinfo};

verus! {

/// A resolved group: the buildinfo row it is keyed by, and the member
/// packages in resolution order.
#[derive(Debug)]
pub struct Group {
    pub buildinfo: Buildinfo,
    pub pkgs: Vec<DebianBinaryPkg>,
}

/// The mathematical model of a [`Group`].
pub struct GroupModel {
    pub buildinfo: BiRowModel,
    pub pkgs: Seq<PkgModel>,
}

impl View for Group {
    type V = GroupModel;

    open spec fn view(&self) -> GroupModel {
        GroupModel { buildinfo: self.buildinfo@, pkgs: self.pkgs.deep_view() }
    }
}

impl DeepView for Group {
    type V = GroupModel;

    open spec fn deep_view(&self) -> GroupModel {
        self.view()
    }
}

/// Index of the first group keyed by this URL, or the group count.
pub open spec fn grp_idx(gs: Seq<GroupModel>, url: Seq<u8>) -> int
    decreases gs.len(),
{
    if gs.len() == 0 {
        0
    } else if gs[0].buildinfo.url == url {
        0
    } else {
        1 + grp_idx(gs.drop_first(), url)
    }
}

pub proof fn lemma_grp_idx(gs: Seq<GroupModel>, url: Seq<u8>)
    ensures
        0 <= grp_idx(gs, url) <= gs.len(),
        grp_idx(gs, url) < gs.len() ==> gs[grp_idx(gs, url)].buildinfo.url == url,
        forall|j: int| 0 <= j < grp_idx(gs, url) ==> gs[j].buildinfo.url != url,
    decreases gs.len(),
{
    if gs.len() == 0 {
    } else if gs[0].buildinfo.url == url {
    } else {
        lemma_grp_idx(gs.drop_first(), url);
        assert forall|j: int| 0 <= j < grp_idx(gs, url) implies gs[j].buildinfo.url != url by {
            if j > 0 {
                assert(gs.drop_first()[j - 1] == gs[j]);
            }
        }
    }
}

/// A package joining the groups: appended to the group keyed by the row's
/// URL, or opening a new group at the end.
pub open spec fn add_to_groups(gs: Seq<GroupModel>, row: BiRowModel, p: PkgModel) -> Seq<
    GroupModel,
> {
    let i = grp_idx(gs, row.url);
    if i < gs.len() {
        gs.update(i, GroupModel { buildinfo: gs[i].buildinfo, pkgs: gs[i].pkgs.push(p) })
    } else {
        gs.push(GroupModel { buildinfo: row, pkgs: seq![p] })
    }
}

/// The pool directory that holds a source package's buildinfo files.
pub open spec fn pool_dir_url(deb_folder: Seq<u8>) -> Seq<u8> {
    ascii_seq("https://buildinfos.debian.net/buildinfo-pool/"@) + deb_folder + ascii_seq("/"@)
}

/// Build the pool directory URL for a package's folder.
pub fn make_pool_dir_url(deb_folder: &[u8]) -> (r: Vec<u8>)
    ensures
        r@ == pool_dir_url(deb_folder@),
{
    proof {
        reveal_strlit("https://buildinfos.debian.net/buildinfo-pool/");
        reveal_strlit("/");
    }
    let mut r = str_bytes("https://buildinfos.debian.net/buildinfo-pool/");
    append_bytes(&mut r, deb_folder);
    let sl = str_bytes("/");
    append_bytes(&mut r, sl.as_slice());
    r
}

/// The candidate URLs tried for a crawl: the listing's buildinfo hrefs
/// reversed (newest-first heuristic), each appended to the directory URL.
pub open spec fn candidate_urls(dir_url: Seq<u8>, hrefs: Seq<Seq<u8>>) -> Seq<Seq<u8>> {
    Seq::new(hrefs.len(), |i: int| dir_url + hrefs[hrefs.len() - 1 - i])
}

/// The first candidate index at or after `from` whose URL the cache does not
/// hold yet, or the candidate count when every remaining one is cached.
pub open spec fn next_uncached(db: Database, cands: Seq<Seq<u8>>, from: int) -> int
    decreases cands.len() - from,
{
    if from < 0 || from >= cands.len() {
        cands.len() as int
    } else if db.lookup_url_spec(cands[from]) is None {
        from
    } else {
        next_uncached(db, cands, from + 1)
    }
}

pub proof fn lemma_next_uncached(db: Database, cands: Seq<Seq<u8>>, from: int)
    requires
        0 <= from <= cands.len(),
    ensures
        from <= next_uncached(db, cands, from) <= cands.len(),
        next_uncached(db, cands, from) < cands.len() ==> db.lookup_url_spec(
            cands[next_uncached(db, cands, from)],
        ) is None,
        forall|j: int|
            from <= j < next_uncached(db, cands, from) ==> db.lookup_url_spec(cands[j]) is Some,
    decreases cands.len() - from,
{
    if from >= cands.len() {
    } else if db.lookup_url_spec(cands[from]) is None {
    } else {
        lemma_next_uncached(db, cands, from + 1);
    }
}

/// An in-flight crawl for one package: the package, its pool directory URL,
/// and the candidate URLs with the index of the one to try next.
#[derive(Debug)]
pub struct Crawl {
    pub pkg: DebianBinaryPkg,
    pub dir_url: Vec<u8>,
    pub candidates: Vec<Vec<u8>>,
    pub next: usize,
}

/// What [`Reconciler::begin`] asks of its caller.
#[derive(Debug)]
pub enum StepResult {
    /// The package was resolved from the cache and grouped.
    Grouped,
    /// The package joined the orphans.
    Orphaned,
    /// Fetch the crawl's directory listing and report through
    /// [`Reconciler::on_listing`].
    NeedListing(Crawl),
}

/// What a crawl step asks of its caller.
#[derive(Debug)]
pub enum CrawlStep {
    /// The package was resolved and grouped.
    Grouped,
    /// The package joined the orphans.
    Orphaned,
    /// Fetch the body of the crawl's next candidate URL and report through
    /// [`Reconciler::on_body`].
    NeedBody(Crawl),
}

/// The engine state threaded through one reconciliation pass: the cache,
/// the resolved groups in creation order, and the orphaned packages in
/// processing order.
#[derive(Debug)]
pub struct Reconciler {
    pub db: Database,
    pub groups: Vec<Group>,
    pub without_buildinfo: Vec<DebianBinaryPkg>,
}

impl Reconciler {
    /// The engine invariant: a well-formed cache, one group per URL, and
    /// every group's document parseable.
    pub open spec fn wf(self) -> bool {
        let gs = self.groups.deep_view();
        &&& self.db.wf()
        &&& forall|a: int, b: int|
            0 <= a < b < gs.len() ==> gs[a].buildinfo.url != gs[b].buildinfo.url
        &&& forall|i: int| 0 <= i < gs.len() ==> parseable((#[trigger] gs[i]).buildinfo.content)
    }

    /// A fresh engine around a cache.
    pub fn new(db: Database) -> (r: Reconciler)
        requires
            db.wf(),
        ensures
            r.wf(),
            r.db == db,
            r.groups.deep_view() =~= Seq::<GroupModel>::empty(),
            r.without_buildinfo.deep_view() =~= Seq::<PkgModel>::empty(),
    {
        let r = Reconciler { db, groups: Vec::new(), without_buildinfo: Vec::new() };
        proof {
            assert(r.groups.deep_view() =~~= Seq::<GroupModel>::empty());
            assert(r.without_buildinfo.deep_view() =~~= Seq::<PkgModel>::empty());
        }
        r
    }

    /// Append `pkg` to the group keyed by `row`'s URL, creating the group
    /// with `row` as its fixed payload if the key is new.
    fn add_to_group(&mut self, row: Buildinfo, pkg: DebianBinaryPkg)
        requires
            old(self).wf(),
            parseable(row@.content),
        ensures
            final(self).wf(),
            final(self).db == old(self).db,
            final(self).without_buildinfo@ == old(self).without_buildinfo@,
            final(self).groups.deep_view() == add_to_groups(
                old(self).groups.deep_view(),
                row@,
                pkg@,
            ),
    {
        let ghost gs0 = self.groups.deep_view();
        proof {
            lemma_grp_idx(gs0, row@.url);
        }
        let n = self.groups.len();
        let mut i: usize = 0;
        while i < n
            invariant
                0 <= i <= n,
                n == self.groups@.len(),
                self.db == old(self).db,
                self.groups == old(self).groups,
                self.without_buildinfo == old(self).without_buildinfo,
                old(self).wf(),
                parseable(row@.content),
                gs0 == self.groups.deep_view(),
                forall|j: int| 0 <= j < i ==> gs0[j].buildinfo.url != row@.url,
                0 <= grp_idx(gs0, row@.url) <= n,
                grp_idx(gs0, row@.url) < n ==> gs0[grp_idx(gs0, row@.url)].buildinfo.url
                    == row@.url,
                forall|j: int| 0 <= j < grp_idx(gs0, row@.url) ==> gs0[j].buildinfo.url != row@.url,
            decreases n - i,
        {
            let hit = eq_bytes(self.groups[i].buildinfo.url.as_slice(), row.url.as_slice());
            proof {
                assert(self.groups[i as int].deep_view() == gs0[i as int]);
            }
            if hit {
                assert(i == grp_idx(gs0, row@.url));
                let mut g = self.groups.remove(i);
                let ghost gp0 = g.pkgs.deep_view();
                g.pkgs.push(pkg);
                proof {
                    assert(g.pkgs.deep_view() =~~= gp0.push(pkg@));
                }
                self.groups.insert(i, g);
                proof {
                    let gs1 = self.groups.deep_view();
                    assert(gs1 =~~= add_to_groups(gs0, row@, pkg@));
                    assert forall|a: int, b: int|
                        0 <= a < b < gs1.len() implies gs1[a].buildinfo.url
                        != gs1[b].buildinfo.url by {
                        assert(gs1[a].buildinfo.url == gs0[a].buildinfo.url);
                        assert(gs1[b].buildinfo.url == gs0[b].buildinfo.url);
                    }
                    assert forall|x: int| 0 <= x < gs1.len() implies parseable(
                        (#[trigger] gs1[x]).buildinfo.content,
                    ) by {
                        assert(gs1[x].buildinfo.content == gs0[x].buildinfo.content);
                    }
                }
                return;
            }
            i += 1;
        }
        let mut pkgs: Vec<DebianBinaryPkg> = Vec::new();
        pkgs.push(pkg);
        let g = Group { buildinfo: row, pkgs };
        proof {
            assert(g.pkgs.deep_view() =~~= seq![pkg@]);
        }
        self.groups.push(g);
        proof {
            let gs1 = self.groups.deep_view();
            assert(gs1 =~~= add_to_groups(gs0, row@, pkg@));
            assert forall|a: int, b: int|
                0 <= a < b < gs1.len() implies gs1[a].buildinfo.url != gs1[b].buildinfo.url by {
                if b == gs0.len() {
                    assert(gs1[a].buildinfo.url == gs0[a].buildinfo.url);
                    assert(gs1[b].buildinfo.url == row@.url);
                } else {
                    assert(gs1[a].buildinfo.url == gs0[a].buildinfo.url);
                    assert(gs1[b].buildinfo.url == gs0[b].buildinfo.url);
                }
            }
            assert forall|x: int| 0 <= x < gs1.len() implies parseable(
                (#[trigger] gs1[x]).buildinfo.content,
            ) by {
                if x < gs0.len() {
                    assert(gs1[x].buildinfo.content == gs0[x].buildinfo.content);
                }
            }
        }
    }

    /// Process one package from the cache: group it on a hit; on a miss,
    /// orphan it when crawling is disabled, else open a crawl for the
    /// package's pool directory.
    pub fn begin(&mut self, pkg: DebianBinaryPkg, skip_crawl: bool) -> (r: StepResult)
        requires
            old(self).wf(),
        ensures
            final(self).wf(),
            final(self).db@ == old(self).db@,
            ({
                let hit = old(self).db.lookup_artifact_spec(pkg@.file_name);
                match hit {
                    Some(row) => {
                        &&& r is Grouped
                        &&& final(self).groups.deep_view() == add_to_groups(
                            old(self).groups.deep_view(),
                            row,
                            pkg@,
                        )
                        &&& final(self).without_buildinfo@ == old(self).without_buildinfo@
                    },
                    None => if skip_crawl {
                        &&& r is Orphaned
                        &&& final(self).without_buildinfo.deep_view() == old(
                            self,
                        ).without_buildinfo.deep_view().push(pkg@)
                        &&& final(self).groups@ == old(self).groups@
                    } else {
                        &&& r matches StepResult::NeedListing(c) && c.pkg@ == pkg@ && c.dir_url@
                            == pool_dir_url(pkg@.deb_folder) && c.candidates@.len() == 0 && c.next
                            == 0
                        &&& final(self).groups@ == old(self).groups@
                        &&& final(self).without_buildinfo@ == old(self).without_buildinfo@
                    },
                }
            }),
    {
        match self.db.buildinfo_for_artifact_filename(pkg.file_name.as_slice()) {
            Some(row) => {
                proof {
                    crate::db::lemma_art_idx(self.db@.artifacts, pkg@.file_name);
                    crate::db::lemma_id_idx(
                        self.db@.buildinfos,
                        self.db@.artifacts[crate::db::art_idx(
                            self.db@.artifacts,
                            pkg@.file_name,
                        )].buildinfo_id,
                    );
                }
                self.add_to_group(row, pkg);
                StepResult::Grouped
            },
            None => {
                if skip_crawl {
                    let ghost w0 = self.without_buildinfo.deep_view();
                    self.without_buildinfo.push(pkg);
                    proof {
                        assert(self.without_buildinfo.deep_view() =~~= w0.push(pkg@));
                    }
                    StepResult::Orphaned
                } else {
                    let dir_url = make_pool_dir_url(pkg.deb_folder.as_slice());
                    StepResult::NeedListing(
                        Crawl { pkg, dir_url, candidates: Vec::new(), next: 0 },
                    )
                }
            },
        }
    }

    /// Walk the crawl's candidates from `c.next` on, skipping every URL the
    /// cache already holds; stop at the first uncached candidate, or orphan
    /// the package when none is left.
    fn advance_crawl(&mut self, c: Crawl) -> (r: CrawlStep)
        requires
            old(self).wf(),
            c.next <= c.candidates@.len(),
        ensures
            final(self).wf(),
            final(self).db == old(self).db,
            final(self).groups@ == old(self).groups@,
            ({
                let cands = c.candidates.deep_view();
                let k = next_uncached(old(self).db, cands, c.next as int);
                if k < cands.len() {
                    &&& r matches CrawlStep::NeedBody(c2) && c2.pkg@ == c.pkg@ && c2.dir_url@
                        == c.dir_url@ && c2.candidates.deep_view() == cands && c2.next == k
                    &&& final(self).without_buildinfo@ == old(self).without_buildinfo@
                } else {
                    &&& r is Orphaned
                    &&& final(self).without_buildinfo.deep_view() == old(
                        self,
                    ).without_buildinfo.deep_view().push(c.pkg@)
                }
            }),
    {
        let ghost cands = c.candidates.deep_view();
        proof {
            lemma_next_uncached(self.db, cands, c.next as int);
        }
        let len = c.candidates.len();
        let mut j: usize = c.next;
        while j < len
            invariant
                c.next <= j <= len,
                len == c.candidates@.len(),
                cands == c.candidates.deep_view(),
                old(self).wf(),
                self.db == old(self).db,
                self.groups == old(self).groups,
                self.without_buildinfo == old(self).without_buildinfo,
                forall|x: int| c.next <= x < j ==> self.db.lookup_url_spec(cands[x]) is Some,
                c.next <= next_uncached(self.db, cands, c.next as int) <= cands.len(),
                next_uncached(self.db, cands, c.next as int) < cands.len()
                    ==> self.db.lookup_url_spec(
                    cands[next_uncached(self.db, cands, c.next as int)],
                ) is None,
                forall|x: int|
                    c.next <= x < next_uncached(self.db, cands, c.next as int)
                        ==> self.db.lookup_url_spec(cands[x]) is Some,
            decreases len - j,
        {
            let cand: &Vec<u8> = &c.candidates[j];
            proof {
                assert(cand.deep_view() == cands[j as int]);
                assert(cand@ =~= cand.deep_view());
            }
            let cached = self.db.buildinfo_url_cache(cand.as_slice());
            if cached.is_none() {
                proof {
                    assert(self.db.lookup_url_spec(cands[j as int]) is None);
                    assert(j == next_uncached(self.db, cands, c.next as int));
                }
                return CrawlStep::NeedBody(
                    Crawl { pkg: c.pkg, dir_url: c.dir_url, candidates: c.candidates, next: j },
                );
            }
            j += 1;
        }
        let ghost w0 = self.without_buildinfo.deep_view();
        self.without_buildinfo.push(c.pkg);
        proof {
            assert(self.without_buildinfo.deep_view() =~~= w0.push(c.pkg@));
        }
        CrawlStep::Orphaned
    }

    /// Take the fetched directory listing: a fetch failure orphans the
    /// package; otherwise the buildinfo hrefs, reversed and resolved against
    /// the directory URL, become the crawl's candidates, and the crawl
    /// advances to the first uncached one.
    pub fn on_listing(&mut self, c: Crawl, hrefs: Option<Vec<Vec<u8>>>) -> (r: CrawlStep)
        requires
            old(self).wf(),
        ensures
            final(self).wf(),
            final(self).db@ == old(self).db@,
            final(self).groups@ == old(self).groups@,
            ({
                match hrefs {
                    None => {
                        &&& r is Orphaned
                        &&& final(self).without_buildinfo.deep_view() == old(
                            self,
                        ).without_buildinfo.deep_view().push(c.pkg@)
                    },
                    Some(h) => {
                        let cands = candidate_urls(c.dir_url@, h.deep_view());
                        let k = next_uncached(old(self).db, cands, 0);
                        if k < cands.len() {
                            &&& r matches CrawlStep::NeedBody(c2) && c2.pkg@ == c.pkg@
                                && c2.candidates.deep_view() == cands && c2.next == k
                            &&& final(self).without_buildinfo@ == old(self).without_buildinfo@
                        } else {
                            &&& r is Orphaned
                            &&& final(self).without_buildinfo.deep_view() == old(
                                self,
                            ).without_buildinfo.deep_view().push(c.pkg@)
                        }
                    },
                }
            }),
    {
        let h = match hrefs {
            Some(h) => h,
            None => {
                let ghost w0 = self.without_buildinfo.deep_view();
                self.without_buildinfo.push(c.pkg);
                proof {
                    assert(self.without_buildinfo.deep_view() =~~= w0.push(c.pkg@));
                }
                return CrawlStep::Orphaned;
            },
        };
        let ghost hv = h.deep_view();
        let ghost cands = candidate_urls(c.dir_url@, hv);
        let m = h.len();
        let mut candidates: Vec<Vec<u8>> = Vec::new();
        let mut i: usize = 0;
        proof {
            assert(candidates.deep_view() =~~= cands.take(0));
        }
        while i < m
            invariant
                0 <= i <= m,
                m == h@.len(),
                hv == h.deep_view(),
                cands == candidate_urls(c.dir_url@, hv),
                candidates.deep_view() == cands.take(i as int),
            decreases m - i,
        {
            let href: &Vec<u8> = &h[m - 1 - i];
            proof {
                assert(href.deep_view() == hv[m - 1 - i as int]);
                assert(href@ =~= href.deep_view());
            }
            let mut cand = copy_bytes(c.dir_url.as_slice());
            append_bytes(&mut cand, href.as_slice());
            let ghost before = candidates.deep_view();
            candidates.push(cand);
            proof {
                assert(candidates.deep_view() =~~= before.push(c.dir_url@ + hv[m - 1 - i as int]));
                assert(cands[i as int] == c.dir_url@ + hv[hv.len() - 1 - i as int]);
                assert(candidates.deep_view() =~~= cands.take(i as int + 1));
            }
            i += 1;
        }
        proof {
            assert(candidates.deep_view() =~~= cands);
        }
        self.advance_crawl(Crawl { pkg: c.pkg, dir_url: c.dir_url, candidates, next: 0 })
    }

    /// Take the fetched body of the crawl's current candidate: cache it, and
    /// either group the package (the document names its file), move on to
    /// the next uncached candidate, or orphan the package. Content that is
    /// not UTF-8, a document that does not parse, and a URL cached since the
    /// crawl checked are fatal and change nothing.
    pub fn on_body(&mut self, c: Crawl, body: Vec<u8>) -> (r: Result<CrawlStep, Error>)
        requires
            old(self).wf(),
            c.next < c.candidates@.len(),
        ensures
            final(self).wf(),
            ({
                let cands = c.candidates.deep_view();
                let url = cands[c.next as int];
                let st = bi_result(body@);
                if !vstd::utf8::valid_utf8(body@) {
                    &&& r is Err && r->Err_0 == Error::EncodingError
                    &&& final(self).db@ == old(self).db@
                    &&& final(self).groups@ == old(self).groups@
                    &&& final(self).without_buildinfo@ == old(self).without_buildinfo@
                } else if !parseable(body@) {
                    &&& r is Err && r->Err_0 == if st.source is None {
                        Error::ParseError(crate::errors::ParseField::BuildinfoSource)
                    } else {
                        Error::ParseError(crate::errors::ParseField::BuildinfoVersion)
                    }
                    &&& final(self).db@ == old(self).db@
                    &&& final(self).groups@ == old(self).groups@
                    &&& final(self).without_buildinfo@ == old(self).without_buildinfo@
                } else if old(self).db.lookup_url_spec(url) is Some {
                    &&& r is Err && r->Err_0 == Error::StorageError
                    &&& final(self).db@ == old(self).db@
                    &&& final(self).groups@ == old(self).groups@
                    &&& final(self).without_buildinfo@ == old(self).without_buildinfo@
                } else {
                    &&& final(self).db@.buildinfos == old(self).db@.buildinfos.push(
                        BiRowModel {
                            id: old(self).db@.buildinfos.len() as int,
                            url: url,
                            content: body@,
                        },
                    )
                    &&& if st.artifacts.contains(c.pkg@.file_name) {
                        &&& r is Ok && r->Ok_0 is Grouped
                        &&& final(self).groups.deep_view() == add_to_groups(
                            old(self).groups.deep_view(),
                            final(self).db.lookup_artifact_spec(c.pkg@.file_name)->0,
                            c.pkg@,
                        )
                        &&& final(self).without_buildinfo@ == old(self).without_buildinfo@
                    } else {
                        let k = next_uncached(final(self).db, cands, c.next + 1);
                        &&& final(self).groups@ == old(self).groups@
                        &&& r is Ok
                        &&& if k < cands.len() {
                            &&& r->Ok_0 matches CrawlStep::NeedBody(c2) && c2.pkg@ == c.pkg@
                                && c2.candidates.deep_view() == cands && c2.next == k
                            &&& final(self).without_buildinfo@ == old(self).without_buildinfo@
                        } else {
                            &&& r->Ok_0 is Orphaned
                            &&& final(self).without_buildinfo.deep_view() == old(
                                self,
                            ).without_buildinfo.deep_view().push(c.pkg@)
                        }
                    }
                }
            }),
    {
        if !utf8_valid(body.as_slice()) {
            return Err(Error::EncodingError);
        }
        let ghost cands = c.candidates.deep_view();
        let cand: &Vec<u8> = &c.candidates[c.next];
        proof {
            assert(cand.deep_view() == cands[c.next as int]);
            assert(cand@ =~= cand.deep_view());
        }
        let url = copy_bytes(cand.as_slice());
        let ghost bodyv = body@;
        let names = match self.db.add_buildinfo(url, body) {
            Ok(names) => names,
            Err(e) => {
                proof {
                    crate::db::lemma_url_idx(old(self).db@.buildinfos, cands[c.next as int]);
                }
                return Err(e);
            },
        };
        if contains_bytes(&names, c.pkg.file_name.as_slice()) {
            proof {
                let m1 = self.db@;
                let base = old(self).db@.artifacts.len() as int;
                let kn = choose|kn: int|
                    0 <= kn < names.deep_view().len() && names.deep_view()[kn] == c.pkg@.file_name;
                assert(m1.artifacts[base + kn].file_name == c.pkg@.file_name);
                crate::db::lemma_lookup_artifact_complete(self.db, c.pkg@.file_name);
                crate::db::lemma_art_idx(m1.artifacts, c.pkg@.file_name);
                crate::db::lemma_id_idx(
                    m1.buildinfos,
                    m1.artifacts[crate::db::art_idx(m1.artifacts, c.pkg@.file_name)].buildinfo_id,
                );
            }
            let row = self.db.buildinfo_for_artifact_filename(c.pkg.file_name.as_slice());
            let row = row.unwrap();
            self.add_to_group(row, c.pkg);
            Ok(CrawlStep::Grouped)
        } else {
            proof {
                assert(!bi_result(bodyv).artifacts.contains(c.pkg@.file_name)) by {
                    if bi_result(bodyv).artifacts.contains(c.pkg@.file_name) {
                        assert(crate::buildinfo::elem_set(names.deep_view()).contains(
                            c.pkg@.file_name,
                        ));
                    }
                }
            }
            let len = c.candidates.len();
            let next2 = c.next + 1;
            let c2 = Crawl { pkg: c.pkg, dir_url: c.dir_url, candidates: c.candidates, next: next2 };
            Ok(self.advance_crawl(c2))
        }
    }
}

/// Relies on std's `str::from_utf8`: it accepts exactly the byte sequences
/// that are valid UTF-8.
#[verifier::external_body]
fn utf8_valid(b: &[u8]) -> (r: bool)
    ensures
        r == vstd::utf8::valid_utf8(b@),
{
    std::str::from_utf8(b).is_ok()
}

} // verus!
