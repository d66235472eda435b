//! Reconciles a Debian binary-package index against a corpus of buildinfo
//! documents: parses both formats, resolves each binary artifact to the
//! buildinfo record that produced it through a cache-or-crawl strategy, and
//! assembles a deterministic, sorted manifest of source-to-binary groups.

pub mod args;
pub mod buildinfo;
pub mod bytes;
pub mod db;
pub mod deb;
pub mod engine;
pub mod errors;
pub mod html;
pub mod models;
pub mod output;
