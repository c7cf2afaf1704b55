//! The status state machine: the four variants, their wire codes, their
//! display strings, and the conversion from the storage-level enum.
//!
//! The only transition this engine defines is pending to confirmed; it is
//! enforced by the manager, because it needs a guarded, atomic update of the
//! system of record, not a pure function.

use crate::error::ReservationError;
use vstd::prelude::*;

verus! {

/// The lifecycle state of a reservation.
///
/// `Unknown` is never a valid persisted state; in a query filter it means
/// "no status constraint".
#[derive(Clone, Copy, Debug, PartialEq, Eq, Structural)]
pub enum ReservationStatus {
    Unknown,
    Pending,
    Confirmed,
    Blocked,
}

/// Storage-level counterpart of [`ReservationStatus`], as the system of
/// record names the variants.
#[derive(Clone, Copy, Debug, PartialEq, Eq, Structural)]
pub enum RsvpStatus {
    Unknown,
    Pending,
    Confirmed,
    Blocked,
}

/// The wire code of each status variant.
pub open spec fn status_code(s: ReservationStatus) -> i32 {
    match s {
        ReservationStatus::Unknown => 0,
        ReservationStatus::Pending => 1,
        ReservationStatus::Confirmed => 2,
        ReservationStatus::Blocked => 3,
    }
}

/// The status variant of a wire code, if the code is defined.
pub open spec fn status_of_code(code: i32) -> Option<ReservationStatus> {
    if code == 0 {
        Some(ReservationStatus::Unknown)
    } else if code == 1 {
        Some(ReservationStatus::Pending)
    } else if code == 2 {
        Some(ReservationStatus::Confirmed)
    } else if code == 3 {
        Some(ReservationStatus::Blocked)
    } else {
        None
    }
}

/// A code that names one of the four defined variants.
pub open spec fn valid_status_code(code: i32) -> bool {
    0 <= code <= 3
}

/// The display string of each status variant.
pub open spec fn status_display(s: ReservationStatus) -> Seq<char> {
    match s {
        ReservationStatus::Unknown => "unknown"@,
        ReservationStatus::Pending => "pending"@,
        ReservationStatus::Confirmed => "confirmed"@,
        ReservationStatus::Blocked => "blocked"@,
    }
}

/// The status variant a display string names, if any.
pub open spec fn status_of_display(s: Seq<char>) -> Option<ReservationStatus> {
    if s == status_display(ReservationStatus::Pending) {
        Some(ReservationStatus::Pending)
    } else if s == status_display(ReservationStatus::Confirmed) {
        Some(ReservationStatus::Confirmed)
    } else if s == status_display(ReservationStatus::Blocked) {
        Some(ReservationStatus::Blocked)
    } else if s == status_display(ReservationStatus::Unknown) {
        Some(ReservationStatus::Unknown)
    } else {
        None
    }
}

impl ReservationStatus {
    /// The wire code of this variant.
    pub fn as_code(self) -> (code: i32)
        ensures
            code == status_code(self),
    {
        match self {
            ReservationStatus::Unknown => 0,
            ReservationStatus::Pending => 1,
            ReservationStatus::Confirmed => 2,
            ReservationStatus::Blocked => 3,
        }
    }

    /// The variant a wire code names, or `None` for an undefined code.
    pub fn from_i32(code: i32) -> (r: Option<ReservationStatus>)
        ensures
            r == status_of_code(code),
    {
        if code == 0 {
            Some(ReservationStatus::Unknown)
        } else if code == 1 {
            Some(ReservationStatus::Pending)
        } else if code == 2 {
            Some(ReservationStatus::Confirmed)
        } else if code == 3 {
            Some(ReservationStatus::Blocked)
        } else {
            None
        }
    }

    /// Checked construction from a raw wire code: an undefined code is
    /// rejected with `InvalidStatus`.
    pub fn from_raw(code: i32) -> (r: Result<ReservationStatus, ReservationError>)
        ensures
            valid_status_code(code) ==> r == Ok::<ReservationStatus, ReservationError>(
                status_of_code(code).unwrap(),
            ),
            !valid_status_code(code) ==> r == Err::<ReservationStatus, ReservationError>(
                ReservationError::InvalidStatus,
            ),
    {
        match Self::from_i32(code) {
            Some(s) => Ok(s),
            None => Err(ReservationError::InvalidStatus),
        }
    }

    /// The variant a display string names, or `None` for any other string:
    /// the inverse of `to_display_string`.
    pub fn from_display(s: &str) -> (r: Option<ReservationStatus>)
        ensures
            r == status_of_display(s@),
    {
        let s = s.to_owned();
        if s == "pending".to_owned() {
            Some(ReservationStatus::Pending)
        } else if s == "confirmed".to_owned() {
            Some(ReservationStatus::Confirmed)
        } else if s == "blocked".to_owned() {
            Some(ReservationStatus::Blocked)
        } else if s == "unknown".to_owned() {
            Some(ReservationStatus::Unknown)
        } else {
            None
        }
    }

    /// The display string of this variant, as the system of record and the
    /// transport layer spell it.
    pub fn to_display_string(self) -> (r: String)
        ensures
            r@ == status_display(self),
    {
        match self {
            ReservationStatus::Unknown => "unknown".to_owned(),
            ReservationStatus::Pending => "pending".to_owned(),
            ReservationStatus::Confirmed => "confirmed".to_owned(),
            ReservationStatus::Blocked => "blocked".to_owned(),
        }
    }
}

impl From<RsvpStatus> for ReservationStatus {
    /// The domain variant matching each storage-level variant.
    fn from(status: RsvpStatus) -> (r: ReservationStatus) {
        match status {
            RsvpStatus::Unknown => ReservationStatus::Unknown,
            RsvpStatus::Pending => ReservationStatus::Pending,
            RsvpStatus::Confirmed => ReservationStatus::Confirmed,
            RsvpStatus::Blocked => ReservationStatus::Blocked,
        }
    }
}

impl vstd::std_specs::convert::FromSpecImpl<RsvpStatus> for ReservationStatus {
    open spec fn obeys_from_spec() -> bool {
        true
    }

    open spec fn from_spec(status: RsvpStatus) -> ReservationStatus {
        match status {
            RsvpStatus::Unknown => ReservationStatus::Unknown,
            RsvpStatus::Pending => ReservationStatus::Pending,
            RsvpStatus::Confirmed => ReservationStatus::Confirmed,
            RsvpStatus::Blocked => ReservationStatus::Blocked,
        }
    }
}

} // verus!
