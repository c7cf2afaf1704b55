//! A reservation domain engine: exclusive-use bookings of a named resource
//! over a half-open time window, with validation, conflict exclusion,
//! guarded status transitions, and filtered, ordered, paginated queries.

pub mod error;
pub mod manager;
pub mod reservation;
pub mod reservation_query;
pub mod reservation_status;
pub mod timestamp;
pub mod validator;
pub mod window;

pub use error::ReservationError;
pub use manager::{ReservationManager, Rsvp};
pub use reservation::Reservation;
pub use reservation_query::{ReservationQuery, ReservationQueryBuilder};
pub use reservation_status::{ReservationStatus, RsvpStatus};
pub use timestamp::Timestamp;
pub use validator::Validator;
pub use window::Window;

use crate::timestamp::ts_lt;
use vstd::prelude::*;

verus! {

/// Identifier of a persisted reservation; `0` is the nil id, never assigned.
pub type ReservationId = u64;

impl Validator for ReservationId {
    /// The nil id addresses no reservation.
    open spec fn valid(&self) -> bool {
        *self != 0
    }

    open spec fn validation_error(&self) -> ReservationError {
        ReservationError::InvalidReservationId
    }

    fn validate(&self) -> (r: Result<(), ReservationError>) {
        if *self == 0 {
            Err(ReservationError::InvalidReservationId)
        } else {
            Ok(())
        }
    }
}

impl Validator for Reservation {
    /// A persisted reservation has both window bounds, an ordered window,
    /// and a non-nil id.
    open spec fn valid(&self) -> bool {
        &&& self.start is Some
        &&& self.end is Some
        &&& ts_lt(self.start.unwrap(), self.end.unwrap())
        &&& self.id != 0
    }

    open spec fn validation_error(&self) -> ReservationError {
        if !(self.start is Some && self.end is Some && ts_lt(
            self.start.unwrap(),
            self.end.unwrap(),
        )) {
            ReservationError::InvalidTimespan
        } else {
            ReservationError::InvalidReservationId
        }
    }

    fn validate(&self) -> (r: Result<(), ReservationError>) {
        let (start, end) = match (self.start, self.end) {
            (Some(start), Some(end)) => (start, end),
            _ => {
                return Err(ReservationError::InvalidTimespan);
            },
        };
        Window::new(start, end).validate()?;
        self.id.validate()?;
        Ok(())
    }
}

} // verus!
