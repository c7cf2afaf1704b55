//! The domain error taxonomy.
//!
//! Validation errors are produced before any row of the system of record is
//! touched; `ConflictError` and `NotFound` report the two storage-level
//! outcomes that callers must be able to tell apart.

use vstd::prelude::*;

verus! {

/// Every failure a domain operation can report.
#[derive(Clone, Copy, Debug, PartialEq, Eq, Structural)]
pub enum ReservationError {
    /// An id-addressed operation was given the nil id.
    InvalidReservationId,
    /// A time window whose start does not precede its end, or a window
    /// missing a required bound.
    InvalidTimespan,
    /// A status code outside the defined variants.
    InvalidStatus,
    /// A required user identifier was empty or malformed.
    InvalidUserId,
    /// A required resource identifier was empty or malformed.
    InvalidResourceId,
    /// An overlapping active reservation holds the same resource.
    ConflictError,
    /// An id-addressed operation matched no row.
    NotFound,
    /// The system of record could not complete the operation.
    StorageError,
    /// An unclassified failure.
    Unknown,
}

} // verus!
