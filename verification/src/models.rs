//! Row types of the resolution cache.

pub mod artifact;
pub mod buildinfo;
