//! Points in time, and the wall clock that sources read them from.
use vstd::prelude::*;

verus! {

/// A point in time: whole seconds since 1970-01-01 00:00:00 UTC, and the
/// nanoseconds since that second began.
#[derive(Clone, Copy, Debug, PartialEq, Eq, Structural)]
pub struct Timestamp {
    pub secs: i64,
    pub nanos: u32,
}

impl Timestamp {
    /// Whether `self` is the same point in time as `other` or a later one:
    /// seconds decide, and nanoseconds decide within one second.
    pub open spec fn at_or_after(self, other: Timestamp) -> bool {
        self.secs > other.secs || (self.secs == other.secs && self.nanos >= other.nanos)
    }

    /// The later of two points in time.
    pub open spec fn later(self, other: Timestamp) -> Timestamp {
        if other.at_or_after(self) {
            other
        } else {
            self
        }
    }

    /// Computes `at_or_after`.
    pub fn is_at_or_after(&self, other: &Timestamp) -> (r: bool)
        ensures
            r == self.at_or_after(*other),
    {
        self.secs > other.secs || (self.secs == other.secs && self.nanos >= other.nanos)
    }

    /// Computes `later`.
    pub fn later_of(self, other: Timestamp) -> (t: Timestamp)
        ensures
            t == self.later(other),
    {
        if other.is_at_or_after(&self) {
            other
        } else {
            self
        }
    }
}

/// Reads the wall clock with `chrono::Utc::now` and takes the result apart
/// with `DateTime::timestamp` and `DateTime::timestamp_subsec_nanos`.
///
/// Nothing is claimed of the time that comes back: the clock may stand
/// still or step backwards between two calls. `Utc::now` panics where the
/// system clock shows a time before 1970, or one too far off for `chrono`
/// to hold.
#[verifier::external_body]
pub(crate) fn wall_clock() -> (now: Timestamp) {
    let now = chrono::Utc::now();
    Timestamp { secs: now.timestamp(), nanos: now.timestamp_subsec_nanos() }
}

} // verus!
