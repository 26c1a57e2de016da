//! Feed ingestion and merge engine for a small feed-reading application.
//!
//! The crate normalizes RSS 2.0 and Atom documents into one canonical
//! model, resolves publication dates through a deterministic fallback
//! chain, computes a stable identity for every article, and merges a
//! freshly parsed feed into the persisted application state without
//! losing user preferences or previously seen articles.

pub mod codec;
pub mod date;
pub mod parser;
pub mod reducer;
pub mod state;
pub mod table;

use vstd::prelude::*;

verus! {

/// The moment the merge engine is handed by its caller, in milliseconds
/// since the Unix epoch; purely advisory (it only feeds `Feed::updated`).
pub type Millis = i64;

} // verus!
