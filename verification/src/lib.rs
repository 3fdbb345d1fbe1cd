//! Shreddr: a document management engine.
//!
//! The library holds the ingestion and indexing pipeline together with the
//! document repository that fronts it: content-addressed import with
//! SHA-256 deduplication, monotonic id allocation, a text-extraction state
//! machine with OCR fallback, a rule-based tagger with inferred metadata,
//! an in-memory model of the search index contents, a metadata store with
//! filtered, sorted queries, and forward-only schema migrations.
//!
//! File and network I/O, subprocess invocation and the full-text scoring
//! engine live outside the library; callers hand the library plain values
//! (bytes, strings, timestamps, scores) and apply the decisions it returns.

use vstd::prelude::*;

pub mod config;
pub mod content;
pub mod document;
pub mod file_extractor;
pub mod file_repository;
pub mod id_allocator;
pub mod index;
pub mod job;
pub mod metadata_store;
pub mod migrations;
pub mod query;
pub mod search_index;
pub mod tagger;
pub mod text;
pub mod watcher;

verus! {

/// Identification type of documents.
pub type DocId = u64;

/// Identification type of tags.
pub type TagId = u64;

/// The banner the interactive shell prints at startup.
pub fn header() -> (r: String)
    ensures
        r@.len() > 0,
{
    let mut v: Vec<char> = Vec::new();
    v.push('S');
    v.push('h');
    v.push('r');
    v.push('e');
    v.push('d');
    v.push('d');
    v.push('r');
    v.push('\n');
    let r = crate::text::chars_to_string(&v);
    proof {
        assert(r@.len() == 8);
    }
    r
}

} // verus!
