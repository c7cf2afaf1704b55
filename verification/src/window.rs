//! The time window a reservation claims: a half-open interval `[start, end)`
//! with explicit ordering validation.
//!
//! Construction performs no validation, so that a partially assembled window
//! can be passed around; every consumer validates explicitly before use.

use crate::error::ReservationError;
use crate::reservation::Reservation;
use crate::reservation_query::ReservationQuery;
use crate::timestamp::{ts_lt, Timestamp};
use crate::validator::Validator;
use vstd::prelude::*;

verus! {

/// The half-open interval `[start, end)`.
#[derive(Clone, Copy, Debug, PartialEq, Eq, Structural)]
pub struct Window {
    pub start: Timestamp,
    pub end: Timestamp,
}

impl Window {
    /// Pure value construction; validation is a separate, explicit step.
    pub fn new(start: Timestamp, end: Timestamp) -> (w: Window)
        ensures
            w == (Window { start, end }),
    {
        Window { start, end }
    }

    /// The window a reservation claims. A reservation's bounds are always
    /// present by the time a window is derived from it.
    pub fn from_reservation(reservation: &Reservation) -> (w: Window)
        requires
            reservation.start is Some,
            reservation.end is Some,
        ensures
            w == (Window {
                start: reservation.start.unwrap(),
                end: reservation.end.unwrap(),
            }),
    {
        Window { start: reservation.start.unwrap(), end: reservation.end.unwrap() }
    }

    /// The window a fully bounded query filter constrains to. A filter with
    /// absent bounds applies no time constraint and derives no window.
    pub fn from_query(query: &ReservationQuery) -> (w: Window)
        requires
            query.start is Some,
            query.end is Some,
        ensures
            w == (Window { start: query.start.unwrap(), end: query.end.unwrap() }),
    {
        Window { start: query.start.unwrap(), end: query.end.unwrap() }
    }
}

impl Validator for Window {
    /// A window is valid exactly when its start strictly precedes its end.
    open spec fn valid(&self) -> bool {
        ts_lt(self.start, self.end)
    }

    open spec fn validation_error(&self) -> ReservationError {
        ReservationError::InvalidTimespan
    }

    fn validate(&self) -> (r: Result<(), ReservationError>) {
        if self.start.lt(&self.end) {
            Ok(())
        } else {
            Err(ReservationError::InvalidTimespan)
        }
    }
}

} // verus!
