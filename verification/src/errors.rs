//! Error taxonomy for store operations.
//!
//! `NotFound` is the routine "absent topic / absent key / empty queue" result;
//! `PersistenceFailure` reports that a write-through call into the durable
//! store failed after the in-memory mutation had already committed.
use vstd::prelude::*;

verus! {

/// Outcome classification handed back to the request layer.
#[derive(Clone, Copy, PartialEq, Eq, Debug)]
pub enum StoreError {
    /// The topic or key was absent (or the queue was empty on consume).
    NotFound,
    /// A durable-store write or delete failed; memory was already mutated.
    PersistenceFailure,
}

impl StoreError {
    /// Short label for the service edge to render; the library itself never
    /// formats errors.
    pub fn label(&self) -> (r: &'static str)
        ensures
            *self is NotFound ==> r@ == "not found"@,
            *self is PersistenceFailure ==> r@ == "failed to persist"@,
    {
        match self {
            StoreError::NotFound => "not found",
            StoreError::PersistenceFailure => "failed to persist",
        }
    }
}

} // verus!
