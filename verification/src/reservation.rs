//! The reservation entity: identity, owner, resource, status, time window,
//! free-text note.

use crate::reservation_status::{status_display, status_of_code, ReservationStatus};
use crate::timestamp::Timestamp;
use vstd::prelude::*;

verus! {

/// One booking record.
///
/// `id` is `0` before creation; the system of record assigns a non-zero id on
/// `reserve` and the id is never mutated afterwards. `status` carries the
/// wire code of a [`ReservationStatus`]. The window is the half-open interval
/// `[start, end)`; both bounds are present on every persisted row.
#[derive(Debug, PartialEq, Eq)]
pub struct Reservation {
    pub id: u64,
    pub user_id: String,
    pub status: i32,
    pub resource_id: String,
    pub start: Option<Timestamp>,
    pub end: Option<Timestamp>,
    pub note: String,
}

impl Clone for Reservation {
    /// A field-for-field copy.
    fn clone(&self) -> (r: Self)
        ensures
            r == *self,
    {
        Reservation {
            id: self.id,
            user_id: self.user_id.clone(),
            status: self.status,
            resource_id: self.resource_id.clone(),
            start: self.start,
            end: self.end,
            note: self.note.clone(),
        }
    }
}

impl Reservation {
    /// The display string of this row's status, as the system of record
    /// spells it in its filter predicates.
    pub fn get_status(&self) -> (r: String)
        requires
            status_of_code(self.status) is Some,
        ensures
            r@ == status_display(status_of_code(self.status).unwrap()),
    {
        ReservationStatus::from_i32(self.status).unwrap().to_display_string()
    }
}

} // verus!
