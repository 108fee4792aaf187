//! Editor-tooling backend for a policy document language: an incrementally
//! updated text buffer per document, a structural tree kept in sync through
//! tree-sitter's incremental reparse, query-based extraction of small facts
//! (a document's identifier, its base-policy reference), and a workspace
//! index that cross-references those facts to produce diagnostics.
//!
//! All text is handled as raw bytes (`Vec<u8>`); positions use byte columns.
#![verifier::loop_isolation(false)]

pub mod types;

pub mod sync;

pub mod queries;

pub mod workspace;

