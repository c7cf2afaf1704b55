//! A point in time as plain values: seconds since the Unix epoch plus a
//! nanosecond offset. Ordering is lexicographic on `(seconds, nanos)`, which
//! matches time order whenever `nanos` is kept in `0..1_000_000_000`.

use vstd::prelude::*;

verus! {

/// An instant, `seconds` since the Unix epoch plus `nanos` nanoseconds.
#[derive(Clone, Copy, Debug, PartialEq, Eq, Structural)]
pub struct Timestamp {
    pub seconds: i64,
    pub nanos: i32,
}

/// `a` is strictly earlier than `b`.
pub open spec fn ts_lt(a: Timestamp, b: Timestamp) -> bool {
    a.seconds < b.seconds || (a.seconds == b.seconds && a.nanos < b.nanos)
}

impl Timestamp {
    /// Build an instant from its two components.
    pub fn new(seconds: i64, nanos: i32) -> (t: Timestamp)
        ensures
            t == (Timestamp { seconds, nanos }),
    {
        Timestamp { seconds, nanos }
    }

    /// Strictly-earlier-than comparison.
    pub fn lt(&self, other: &Timestamp) -> (r: bool)
        ensures
            r == ts_lt(*self, *other),
    {
        self.seconds < other.seconds
            || (self.seconds == other.seconds && self.nanos < other.nanos)
    }
}

} // verus!
