//! Artifact rows: one per artifact filename a cached buildinfo declares.

use vstd::prelude::*;

verus! {

/// A stored artifact row, keyed by `id` and owned by the buildinfo row whose
/// id is `buildinfo_id`.
#[derive(Debug)]
pub struct Artifact {
    pub id: usize,
    pub file_name: Vec<u8>,
    pub buildinfo_id: usize,
}

/// An artifact row before insertion, without its id.
#[derive(Debug)]
pub struct NewArtifact {
    pub file_name: Vec<u8>,
    pub buildinfo_id: usize,
}

/// The mathematical model of an [`Artifact`] row.
pub struct ArtifactModel {
    pub id: int,
    pub file_name: Seq<u8>,
    pub buildinfo_id: int,
}

impl View for Artifact {
    type V = ArtifactModel;

    open spec fn view(&self) -> ArtifactModel {
        ArtifactModel {
            id: self.id as int,
            file_name: self.file_name@,
            buildinfo_id: self.buildinfo_id as int,
        }
    }
}

impl DeepView for Artifact {
    type V = ArtifactModel;

    open spec fn deep_view(&self) -> ArtifactModel {
        self.view()
    }
}

} // verus!
