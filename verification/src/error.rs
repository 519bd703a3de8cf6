//! The failures that end a retrieval.

use vstd::prelude::*;

verus! {

/// Why the index could not answer a lookup.
#[derive(Clone, Copy, Debug, PartialEq, Eq)]
pub enum IndexError {
    /// No connection to the index could be established.
    IndexUnavailable,
    /// The lookup of the key failed.
    IndexLookupFailed,
}

/// Why a retrieval is abandoned before any file is scanned.
#[derive(Clone, Copy, Debug, PartialEq, Eq)]
pub enum RetrievalError {
    /// No connection to the index could be established.
    IndexUnavailable,
    /// The lookup of a key failed.
    IndexLookupFailed,
    /// The index names no partition column for the collection.
    NoPartitionColumn,
    /// No predicate is on the collection's partition column.
    MissingPartitionPredicate,
    /// The path at `index` of the file list lacks the `/` after its partition
    /// segment, or the `=` inside that segment.
    MalformedPartitionPath { index: usize },
}

impl RetrievalError {
    /// The retrieval failure that an index failure causes.
    pub fn from_index(error: IndexError) -> (failure: RetrievalError)
        ensures
            failure == index_failure(error),
    {
        match error {
            IndexError::IndexUnavailable => RetrievalError::IndexUnavailable,
            IndexError::IndexLookupFailed => RetrievalError::IndexLookupFailed,
        }
    }
}

/// The retrieval failure that an index failure causes.
pub open spec fn index_failure(error: IndexError) -> RetrievalError {
    match error {
        IndexError::IndexUnavailable => RetrievalError::IndexUnavailable,
        IndexError::IndexLookupFailed => RetrievalError::IndexLookupFailed,
    }
}

} // verus!
