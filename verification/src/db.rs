//! The resolution cache: lookup by artifact filename, lookup by fetch URL,
//! and insertion of a fetched buildinfo document with its artifact rows.
//!
//! The cache keeps at most one buildinfo row per distinct URL, assigns row
//! ids densely (each row's id is its position), and ties every artifact row
//! to an existing buildinfo row — all stated in [`Database::wf`]. Insertion
//! is all-or-nothing: a document that does not parse leaves no rows behind.

use vstd::prelude::*;

use crate::buildinfo::{all_distinct, bi_result, elem_set};
use crate::bytes::{copy_bytes, eq_bytes};
use crate::errors::{Error, ParseField};
use crate::models::artifact::{Artifact, ArtifactModel, NewArtifact};
use crate::models::buildinfo::{BiRowModel, Buildinfo, NewBuildinfo};

verus! {

/// A buildinfo document whose `Source` and `Version` fields both parse.
pub open spec fn parseable(content: Seq<u8>) -> bool {
    &&& bi_result(content).source is Some
    &&& bi_result(content).version is Some
}

/// The in-memory store behind the reconciliation engine: buildinfo rows and
/// the artifact rows that join artifact filenames to them.
#[derive(Debug)]
pub struct Database {
    buildinfos: Vec<Buildinfo>,
    artifacts: Vec<Artifact>,
}

/// The mathematical model of the store: both tables as row sequences.
pub struct DbModel {
    pub buildinfos: Seq<BiRowModel>,
    pub artifacts: Seq<ArtifactModel>,
}

impl View for Database {
    type V = DbModel;

    closed spec fn view(&self) -> DbModel {
        DbModel { buildinfos: self.buildinfos.deep_view(), artifacts: self.artifacts.deep_view() }
    }
}

/// Index of the first buildinfo row with this URL, or the row count.
pub open spec fn url_idx(rows: Seq<BiRowModel>, url: Seq<u8>) -> int
    decreases rows.len(),
{
    if rows.len() == 0 {
        0
    } else if rows[0].url == url {
        0
    } else {
        1 + url_idx(rows.drop_first(), url)
    }
}

pub proof fn lemma_url_idx(rows: Seq<BiRowModel>, url: Seq<u8>)
    ensures
        0 <= url_idx(rows, url) <= rows.len(),
        url_idx(rows, url) < rows.len() ==> rows[url_idx(rows, url)].url == url,
        forall|j: int| 0 <= j < url_idx(rows, url) ==> rows[j].url != url,
    decreases rows.len(),
{
    if rows.len() == 0 {
    } else if rows[0].url == url {
    } else {
        lemma_url_idx(rows.drop_first(), url);
        assert forall|j: int| 0 <= j < url_idx(rows, url) implies rows[j].url != url by {
            if j > 0 {
                assert(rows.drop_first()[j - 1] == rows[j]);
            }
        }
    }
}

/// Index of the first artifact row with this filename, or the row count.
pub open spec fn art_idx(rows: Seq<ArtifactModel>, name: Seq<u8>) -> int
    decreases rows.len(),
{
    if rows.len() == 0 {
        0
    } else if rows[0].file_name == name {
        0
    } else {
        1 + art_idx(rows.drop_first(), name)
    }
}

pub proof fn lemma_art_idx(rows: Seq<ArtifactModel>, name: Seq<u8>)
    ensures
        0 <= art_idx(rows, name) <= rows.len(),
        art_idx(rows, name) < rows.len() ==> rows[art_idx(rows, name)].file_name == name,
        forall|j: int| 0 <= j < art_idx(rows, name) ==> rows[j].file_name != name,
    decreases rows.len(),
{
    if rows.len() == 0 {
    } else if rows[0].file_name == name {
    } else {
        lemma_art_idx(rows.drop_first(), name);
        assert forall|j: int| 0 <= j < art_idx(rows, name) implies rows[j].file_name != name by {
            if j > 0 {
                assert(rows.drop_first()[j - 1] == rows[j]);
            }
        }
    }
}

/// Index of the first buildinfo row with this id, or the row count.
pub open spec fn id_idx(rows: Seq<BiRowModel>, id: int) -> int
    decreases rows.len(),
{
    if rows.len() == 0 {
        0
    } else if rows[0].id == id {
        0
    } else {
        1 + id_idx(rows.drop_first(), id)
    }
}

pub proof fn lemma_id_idx(rows: Seq<BiRowModel>, id: int)
    ensures
        0 <= id_idx(rows, id) <= rows.len(),
        id_idx(rows, id) < rows.len() ==> rows[id_idx(rows, id)].id == id,
        forall|j: int| 0 <= j < id_idx(rows, id) ==> rows[j].id != id,
    decreases rows.len(),
{
    if rows.len() == 0 {
    } else if rows[0].id == id {
    } else {
        lemma_id_idx(rows.drop_first(), id);
        assert forall|j: int| 0 <= j < id_idx(rows, id) implies rows[j].id != id by {
            if j > 0 {
                assert(rows.drop_first()[j - 1] == rows[j]);
            }
        }
    }
}

/// The view of an optional row.
pub open spec fn opt_row(o: Option<Buildinfo>) -> Option<BiRowModel> {
    match o {
        Some(b) => Some(b@),
        None => None,
    }
}

impl Database {
    /// The store's invariant: dense ids on both tables, every artifact row's
    /// foreign key resolving to a buildinfo row, at most one buildinfo row
    /// per URL, and every stored document parseable.
    pub open spec fn wf(self) -> bool {
        let m = self@;
        &&& forall|i: int|
            0 <= i < m.buildinfos.len() ==> (#[trigger] m.buildinfos[i]).id == i
        &&& forall|i: int| 0 <= i < m.artifacts.len() ==> (#[trigger] m.artifacts[i]).id == i
        &&& forall|i: int|
            0 <= i < m.artifacts.len() ==> 0 <= (#[trigger] m.artifacts[i]).buildinfo_id
                < m.buildinfos.len()
        &&& forall|i: int, j: int|
            0 <= i < j < m.buildinfos.len() ==> m.buildinfos[i].url != m.buildinfos[j].url
        &&& forall|i: int|
            0 <= i < m.buildinfos.len() ==> parseable((#[trigger] m.buildinfos[i]).content)
    }

    /// What lookup-by-URL returns: the first row with this URL.
    pub open spec fn lookup_url_spec(self, url: Seq<u8>) -> Option<BiRowModel> {
        let m = self@;
        let i = url_idx(m.buildinfos, url);
        if i < m.buildinfos.len() {
            Some(m.buildinfos[i])
        } else {
            None
        }
    }

    /// What lookup-by-artifact-filename returns: the buildinfo row that the
    /// first artifact row with this filename points to.
    pub open spec fn lookup_artifact_spec(self, name: Seq<u8>) -> Option<BiRowModel> {
        let m = self@;
        let i = art_idx(m.artifacts, name);
        if i < m.artifacts.len() {
            let b = id_idx(m.buildinfos, m.artifacts[i].buildinfo_id);
            if b < m.buildinfos.len() {
                Some(m.buildinfos[b])
            } else {
                None
            }
        } else {
            None
        }
    }

    /// An empty store.
    pub fn new() -> (r: Database)
        ensures
            r.wf(),
            r@.buildinfos.len() == 0,
            r@.artifacts.len() == 0,
    {
        let r = Database { buildinfos: Vec::new(), artifacts: Vec::new() };
        proof {
            assert(r@.buildinfos.len() == 0);
            assert(r@.artifacts.len() == 0);
        }
        r
    }

    /// Resolve a fetch URL to its cached buildinfo row, if one exists. The
    /// result is a function of the store and the URL alone.
    pub fn buildinfo_url_cache(&self, my_url: &[u8]) -> (r: Option<Buildinfo>)
        ensures
            opt_row(r) == self.lookup_url_spec(my_url@),
    {
        proof {
            lemma_url_idx(self@.buildinfos, my_url@);
        }
        let n = self.buildinfos.len();
        let mut i: usize = 0;
        while i < n
            invariant
                0 <= i <= n,
                n == self@.buildinfos.len(),
                n == self.buildinfos@.len(),
                forall|j: int| 0 <= j < i ==> self@.buildinfos[j].url != my_url@,
                0 <= url_idx(self@.buildinfos, my_url@) <= n,
                url_idx(self@.buildinfos, my_url@) < n ==> self@.buildinfos[url_idx(
                    self@.buildinfos,
                    my_url@,
                )].url == my_url@,
                forall|j: int|
                    0 <= j < url_idx(self@.buildinfos, my_url@) ==> self@.buildinfos[j].url
                        != my_url@,
            decreases n - i,
        {
            let row = &self.buildinfos[i];
            proof {
                assert(row@ == self@.buildinfos[i as int]);
            }
            if eq_bytes(row.url.as_slice(), my_url) {
                return Some(row.duplicate());
            }
            i += 1;
        }
        None
    }

    /// Resolve an artifact filename to its owning buildinfo row via the
    /// artifact table's foreign key, if one exists. The result is a function
    /// of the store and the filename alone.
    pub fn buildinfo_for_artifact_filename(&self, my_filename: &[u8]) -> (r: Option<Buildinfo>)
        ensures
            opt_row(r) == self.lookup_artifact_spec(my_filename@),
    {
        proof {
            lemma_art_idx(self@.artifacts, my_filename@);
        }
        let n = self.artifacts.len();
        let mut i: usize = 0;
        while i < n
            invariant
                0 <= i <= n,
                n == self@.artifacts.len(),
                n == self.artifacts@.len(),
                forall|j: int| 0 <= j < i ==> self@.artifacts[j].file_name != my_filename@,
                0 <= art_idx(self@.artifacts, my_filename@) <= n,
                art_idx(self@.artifacts, my_filename@) < n ==> self@.artifacts[art_idx(
                    self@.artifacts,
                    my_filename@,
                )].file_name == my_filename@,
                forall|j: int|
                    0 <= j < art_idx(self@.artifacts, my_filename@) ==> self@.artifacts[j].file_name
                        != my_filename@,
            decreases n - i,
        {
            let row = &self.artifacts[i];
            proof {
                assert(row@ == self@.artifacts[i as int]);
            }
            if eq_bytes(row.file_name.as_slice(), my_filename) {
                assert(i == art_idx(self@.artifacts, my_filename@));
                return self.buildinfo_by_id(row.buildinfo_id);
            }
            i += 1;
        }
        None
    }

    /// The first buildinfo row with this id, if any.
    fn buildinfo_by_id(&self, id: usize) -> (r: Option<Buildinfo>)
        ensures
            ({
                let b = id_idx(self@.buildinfos, id as int);
                opt_row(r) == if b < self@.buildinfos.len() {
                    Some(self@.buildinfos[b])
                } else {
                    None::<BiRowModel>
                }
            }),
    {
        proof {
            lemma_id_idx(self@.buildinfos, id as int);
        }
        let n = self.buildinfos.len();
        let mut i: usize = 0;
        while i < n
            invariant
                0 <= i <= n,
                n == self@.buildinfos.len(),
                n == self.buildinfos@.len(),
                forall|j: int| 0 <= j < i ==> self@.buildinfos[j].id != id as int,
                0 <= id_idx(self@.buildinfos, id as int) <= n,
                id_idx(self@.buildinfos, id as int) < n ==> self@.buildinfos[id_idx(
                    self@.buildinfos,
                    id as int,
                )].id == id as int,
                forall|j: int|
                    0 <= j < id_idx(self@.buildinfos, id as int) ==> self@.buildinfos[j].id
                        != id as int,
            decreases n - i,
        {
            let row = &self.buildinfos[i];
            proof {
                assert(row@ == self@.buildinfos[i as int]);
            }
            if row.id == id {
                return Some(row.duplicate());
            }
            i += 1;
        }
        None
    }

    /// Parse `content`, persist one buildinfo row for it and one artifact
    /// row per declared artifact filename, and return those filenames in
    /// first-occurrence order. All-or-nothing: a document that does not
    /// parse, or a URL already cached, changes nothing. Callers that respect
    /// the check-before-insert protocol (lookup by URL first) never see the
    /// `StorageError` case.
    pub fn add_buildinfo(&mut self, url: Vec<u8>, content: Vec<u8>) -> (r: Result<
        Vec<Vec<u8>>,
        Error,
    >)
        requires
            old(self).wf(),
        ensures
            final(self).wf(),
            ({
                let st = bi_result(content@);
                let m0 = old(self)@;
                let m1 = final(self)@;
                match r {
                    Ok(names) => {
                        &&& parseable(content@)
                        &&& url_idx(m0.buildinfos, url@) == m0.buildinfos.len()
                        &&& all_distinct(names.deep_view())
                        &&& elem_set(names.deep_view()) == st.artifacts
                        &&& m1.buildinfos == m0.buildinfos.push(
                            BiRowModel {
                                id: m0.buildinfos.len() as int,
                                url: url@,
                                content: content@,
                            },
                        )
                        &&& m1.artifacts.len() == m0.artifacts.len() + names.deep_view().len()
                        &&& forall|k: int|
                            0 <= k < m0.artifacts.len() ==> m1.artifacts[k] == m0.artifacts[k]
                        &&& forall|k: int|
                            0 <= k < names.deep_view().len() ==> m1.artifacts[m0.artifacts.len()
                                + k] == (ArtifactModel {
                                id: m0.artifacts.len() + k,
                                file_name: names.deep_view()[k],
                                buildinfo_id: m0.buildinfos.len() as int,
                            })
                    },
                    Err(e) => {
                        &&& m1 == m0
                        &&& if !parseable(content@) {
                            e == if st.source is None {
                                Error::ParseError(ParseField::BuildinfoSource)
                            } else {
                                Error::ParseError(ParseField::BuildinfoVersion)
                            }
                        } else {
                            &&& e == Error::StorageError
                            &&& url_idx(m0.buildinfos, url@) < m0.buildinfos.len()
                        }
                    },
                }
            }),
    {
        let parsed = match crate::buildinfo::Buildinfo::from_str(content.as_slice()) {
            Ok(parsed) => parsed,
            Err(e) => {
                return Err(e);
            },
        };
        proof {
            lemma_url_idx(self@.buildinfos, url@);
        }
        if self.buildinfo_url_cache(url.as_slice()).is_some() {
            return Err(Error::StorageError);
        }
        let row = NewBuildinfo { url, content };
        let bi_id = self.insert_buildinfo(row);
        let ghost mid = self@;
        let ghost base = self@.artifacts.len();
        let names = parsed.artifacts;
        let ghost namesv = names.deep_view();
        let n = names.len();
        let mut out: Vec<Vec<u8>> = Vec::new();
        let mut i: usize = 0;
        while i < n
            invariant
                0 <= i <= n,
                n == names@.len(),
                namesv == names.deep_view(),
                out.deep_view() =~~= namesv.take(i as int),
                self@.buildinfos == mid.buildinfos,
                bi_id < self@.buildinfos.len(),
                base == mid.artifacts.len(),
                self@.artifacts.len() == base + i,
                forall|k: int| 0 <= k < base ==> self@.artifacts[k] == mid.artifacts[k],
                forall|k: int|
                    0 <= k < i ==> self@.artifacts[base + k] == (ArtifactModel {
                        id: base + k,
                        file_name: namesv[k],
                        buildinfo_id: bi_id as int,
                    }),
            decreases n - i,
        {
            let name_for_row = copy_bytes(names[i].as_slice());
            let name_for_out = copy_bytes(names[i].as_slice());
            proof {
                assert(names[i as int].deep_view() =~= names[i as int]@);
                assert(namesv[i as int] == names[i as int].deep_view());
            }
            let art = NewArtifact { file_name: name_for_row, buildinfo_id: bi_id };
            self.insert_artifact(art);
            let ghost before_out = out.deep_view();
            out.push(name_for_out);
            proof {
                assert(out.deep_view() =~~= before_out.push(namesv[i as int]));
                assert(out.deep_view() =~~= namesv.take(i as int + 1));
            }
            i += 1;
        }
        proof {
            assert(out.deep_view() =~~= namesv);
            let m0 = old(self)@;
            let m1 = self@;
            assert forall|a: int, b: int|
                0 <= a < b < m1.buildinfos.len() implies m1.buildinfos[a].url
                != m1.buildinfos[b].url by {
                if b < m0.buildinfos.len() {
                } else {
                    assert(m1.buildinfos[b].url == url@);
                    assert(m0.buildinfos[a].url != url@);
                }
            }
            assert forall|x: int| 0 <= x < m1.buildinfos.len() implies (#[trigger] m1.buildinfos[x]).id
                == x by {
                if x < m0.buildinfos.len() {
                    assert(m1.buildinfos[x] == m0.buildinfos[x]);
                }
            }
            assert forall|x: int| 0 <= x < m1.artifacts.len() implies (#[trigger] m1.artifacts[x]).id
                == x by {
                if x < base {
                    assert(m1.artifacts[x] == m0.artifacts[x]);
                } else {
                    let k = x - base;
                    assert(m1.artifacts[base + k] == (ArtifactModel {
                        id: base + k,
                        file_name: namesv[k],
                        buildinfo_id: bi_id as int,
                    }));
                }
            }
            assert forall|x: int| 0 <= x < m1.artifacts.len() implies 0 <= (
            #[trigger] m1.artifacts[x]).buildinfo_id < m1.buildinfos.len() by {
                if x < base {
                    assert(m1.artifacts[x] == m0.artifacts[x]);
                } else {
                    let k = x - base;
                    assert(m1.artifacts[base + k] == (ArtifactModel {
                        id: base + k,
                        file_name: namesv[k],
                        buildinfo_id: bi_id as int,
                    }));
                }
            }
            assert forall|x: int| 0 <= x < m1.buildinfos.len() implies parseable(
                (#[trigger] m1.buildinfos[x]).content,
            ) by {
                if x < m0.buildinfos.len() {
                    assert(m1.buildinfos[x] == m0.buildinfos[x]);
                } else {
                    assert(m1.buildinfos[x].content == content@);
                }
            }
        }
        Ok(out)
    }

    /// Append one buildinfo row, assigning it the next dense id.
    fn insert_buildinfo(&mut self, row: NewBuildinfo) -> (id: usize)
        ensures
            id == old(self)@.buildinfos.len(),
            final(self)@.buildinfos == old(self)@.buildinfos.push(
                BiRowModel { id: id as int, url: row.url@, content: row.content@ },
            ),
            final(self)@.artifacts == old(self)@.artifacts,
    {
        let id = self.buildinfos.len();
        self.buildinfos.push(Buildinfo { id, url: row.url, content: row.content });
        proof {
            assert(self@.buildinfos =~= old(self)@.buildinfos.push(
                BiRowModel {
                    id: id as int,
                    url: self.buildinfos@[id as int].url@,
                    content: self.buildinfos@[id as int].content@,
                },
            ));
            assert(self@.artifacts =~= old(self)@.artifacts);
        }
        id
    }

    /// Append one artifact row, assigning it the next dense id.
    fn insert_artifact(&mut self, row: NewArtifact)
        ensures
            final(self)@.artifacts == old(self)@.artifacts.push(
                ArtifactModel {
                    id: old(self)@.artifacts.len() as int,
                    file_name: row.file_name@,
                    buildinfo_id: row.buildinfo_id as int,
                },
            ),
            final(self)@.buildinfos == old(self)@.buildinfos,
    {
        let id = self.artifacts.len();
        self.artifacts.push(Artifact { id, file_name: row.file_name, buildinfo_id: row.buildinfo_id });
        proof {
            assert(self@.artifacts =~= old(self)@.artifacts.push(
                ArtifactModel {
                    id: id as int,
                    file_name: self.artifacts@[id as int].file_name@,
                    buildinfo_id: row.buildinfo_id as int,
                },
            ));
            assert(self@.buildinfos =~= old(self)@.buildinfos);
        }
    }
}

/// Looking an artifact filename up twice, with no write in between, returns
/// identical results: each lookup is pinned to the same function of the
/// store's state and the filename.
pub proof fn lemma_lookup_idempotent(
    db: Database,
    name: Seq<u8>,
    r1: Option<BiRowModel>,
    r2: Option<BiRowModel>,
)
    requires
        r1 == db.lookup_artifact_spec(name),
        r2 == db.lookup_artifact_spec(name),
    ensures
        r1 == r2,
{
}

/// In a well-formed store the artifact join cannot dangle: the filename
/// lookup succeeds exactly when some artifact row carries the filename.
pub proof fn lemma_lookup_artifact_complete(db: Database, name: Seq<u8>)
    requires
        db.wf(),
    ensures
        db.lookup_artifact_spec(name) is Some <==> exists|i: int|
            0 <= i < db@.artifacts.len() && (#[trigger] db@.artifacts[i]).file_name == name,
{
    let m = db@;
    lemma_art_idx(m.artifacts, name);
    let i = art_idx(m.artifacts, name);
    if i < m.artifacts.len() {
        lemma_id_idx(m.buildinfos, m.artifacts[i].buildinfo_id);
        let bid = m.artifacts[i].buildinfo_id;
        let b = id_idx(m.buildinfos, bid);
        assert(0 <= bid < m.buildinfos.len());
        assert(m.buildinfos[bid].id == bid);
        if b >= m.buildinfos.len() {
            assert(m.buildinfos[bid].id != bid);
            assert(false);
        }
    }
}

} // verus!
