//! Installed-state reconciliation and catalog search for a plugin catalog.
//!
//! The crate decides, from directory listings, file stats and content
//! hashes, which catalog items are installed and at which version, and
//! offers a normalized, filterable, sortable search index over the same
//! catalog metadata. All filesystem access stays with the caller: the
//! functions here work on plain values.
#![verifier::loop_isolation(false)]
pub mod cache;
pub mod candidacy;
pub mod catalog;
pub mod chars;
pub mod hashing;
pub mod index;
pub mod paths;
pub mod resolver;
pub mod text;
