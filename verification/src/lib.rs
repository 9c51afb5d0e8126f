//! A record-oriented streaming analyzer for PostgreSQL server logs.
//!
//! The library identifies record boundaries in raw log bytes, partitions a
//! byte range for parallel scanning while preserving record integrity,
//! applies a chain of predicates, and feeds surviving records into a set of
//! mergeable aggregators.

use vstd::prelude::*;

pub mod aggregators;
pub mod bytes_util;
pub mod countmap;
pub mod duration;
pub mod engine;
pub mod error;
pub mod errors;
pub mod filters;
pub mod format;
pub mod histmap;
pub mod logparser;
pub mod numbers;
pub mod parsers;
pub mod postgres;
pub mod records;
pub mod render;
pub mod search;
pub mod severity;
pub mod timeparse;
pub mod util;

pub use severity::Severity;

verus! {

/// The two on-disk layouts the analyzer understands: PostgreSQL's plain
/// `log_line_prefix` text and its CSV log format.
#[derive(Clone, Copy, Debug, PartialEq, Eq, Structural)]
pub enum Format {
    Plain,
    Csv,
}

} // verus!
