//! Single-cell Jaccard scoring of genomic intervals.
//!
//! The crate computes, per cell of a single-cell chromatin-accessibility
//! experiment, a similarity score between the intervals observed for that
//! cell and a reference population of intervals held in a tabix-indexed
//! store.  The interval arithmetic, the per-cell accumulation, the overlap
//! engine and the scoring are verified; the tabix store is reached through
//! a small set of trusted wrappers.

pub mod bed;
pub mod cell;
pub mod engine;
pub mod errors;
pub mod ingest;
pub mod opt;
pub mod region;
pub mod store;
pub mod table;
