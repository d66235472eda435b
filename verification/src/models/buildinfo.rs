//! Buildinfo rows: the cached documents, keyed by fetch URL.

use vstd::prelude::*;

use crate::bytes::subvec;

verus! {

/// A stored buildinfo row: the document's canonical fetch URL and its raw
/// content.
#[derive(Debug)]
pub struct Buildinfo {
    pub id: usize,
    pub url: Vec<u8>,
    pub content: Vec<u8>,
}

/// A buildinfo row before insertion, without its id.
#[derive(Debug)]
pub struct NewBuildinfo {
    pub url: Vec<u8>,
    pub content: Vec<u8>,
}

/// The mathematical model of a [`Buildinfo`] row.
pub struct BiRowModel {
    pub id: int,
    pub url: Seq<u8>,
    pub content: Seq<u8>,
}

impl View for Buildinfo {
    type V = BiRowModel;

    open spec fn view(&self) -> BiRowModel {
        BiRowModel { id: self.id as int, url: self.url@, content: self.content@ }
    }
}

impl DeepView for Buildinfo {
    type V = BiRowModel;

    open spec fn deep_view(&self) -> BiRowModel {
        self.view()
    }
}

impl Buildinfo {
    /// A fresh row with the same fields.
    pub fn duplicate(&self) -> (r: Self)
        ensures
            r@ == self@,
    {
        let url = subvec(self.url.as_slice(), 0, self.url.len());
        let content = subvec(self.content.as_slice(), 0, self.content.len());
        proof {
            assert(url@ =~= self.url@);
            assert(content@ =~= self.content@);
        }
        Buildinfo { id: self.id, url, content }
    }
}

} // verus!
