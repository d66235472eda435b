//! The run configuration handed to the pipeline.

use vstd::prelude::*;

verus! {

/// Everything a run is configured with: where the cache lives, where the
/// package index comes from, the distribution labels stamped onto every
/// output entry, and whether the crawl phase is skipped. The filter lists
/// are carried for completeness and do not affect the core pipeline.
#[derive(Debug)]
pub struct Args {
    /// Path of the resolution cache.
    pub database: String,
    /// File path or URL of the package index.
    pub packages_db: String,
    /// Logging verbosity.
    pub verbose: u8,
    /// Label of the package source.
    pub source: String,
    /// Distribution label copied into every output entry.
    pub distro: String,
    /// Suite label copied into every output entry.
    pub suite: String,
    /// Skip the crawl phase: unresolved packages are orphaned directly.
    pub skip_crawl: bool,
    /// Release filters.
    pub releases: Vec<String>,
    /// Architecture filters.
    pub architectures: Vec<String>,
}

} // verus!
