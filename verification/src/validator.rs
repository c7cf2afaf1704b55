//! Structural validation, performed before any mutation reaches the system
//! of record.

use crate::error::ReservationError;
use vstd::prelude::*;

verus! {

/// A value with a structural validity condition and a fixed error reported
/// when the condition fails.
pub trait Validator {
    /// When the value is structurally valid.
    spec fn valid(&self) -> bool;

    /// The error reported for an invalid value.
    spec fn validation_error(&self) -> ReservationError;

    /// Check validity: `Ok(())` exactly on valid values, else the value's
    /// validation error.
    fn validate(&self) -> (r: Result<(), ReservationError>)
        ensures
            self.valid() ==> r == Ok::<(), ReservationError>(()),
            !self.valid() ==> r == Err::<(), ReservationError>(self.validation_error()),
    ;
}

} // verus!
