//! Filtered retrieval over a partitioned columnar data lake.
//!
//! A collection's records are spread over many files, each stored under a
//! relative path of the shape `<partitionKey>=<partitionValue>/<fileName>`.
//! The crate decides which files a set of field predicates can touch, which
//! rows of a scanned file the predicates keep, and how the per-file and
//! per-row outcomes fold into one ordered result.

pub mod engine;
pub mod error;
pub mod model;
pub mod partition;
pub mod predicate;
pub mod report;
pub mod scanner;
pub mod sequences;
pub mod text;
