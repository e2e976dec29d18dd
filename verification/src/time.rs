//! Spans of time and instants, in whole nanoseconds.

use vstd::prelude::*;

verus! {

/// Nanoseconds in a second.
pub const NANOS_PER_SEC: u128 = 1_000_000_000;

/// Nanoseconds in a millisecond.
pub const NANOS_PER_MILLI: u128 = 1_000_000;

/// The longest span that a `Duration` of the standard library holds.
pub const MAX_NANOS: u128 = 18_446_744_073_709_551_615_999_999_999;

/// A span of time.
#[derive(Debug, Clone, Copy, PartialEq, Eq, PartialOrd, Ord)]
pub struct Duration {
    /// Length in nanoseconds.
    pub nanos: u128,
}

/// An instant on the wall clock.
#[derive(Debug, Clone, Copy, PartialEq, Eq, PartialOrd, Ord)]
pub struct Timestamp {
    /// Nanoseconds since the start of 1970.
    pub nanos: u128,
}

impl Duration {
    /// A span of whole seconds.
    pub fn from_secs(secs: u64) -> (r: Self)
        ensures
            r.nanos == secs * NANOS_PER_SEC,
    {
        Duration { nanos: secs as u128 * NANOS_PER_SEC }
    }

    /// A span of whole milliseconds.
    pub fn from_millis(millis: u64) -> (r: Self)
        ensures
            r.nanos == millis * NANOS_PER_MILLI,
    {
        Duration { nanos: millis as u128 * NANOS_PER_MILLI }
    }

    /// What is left of the span after `other`, at least nothing.
    pub fn saturating_sub(&self, other: Duration) -> (r: Self)
        ensures
            r.nanos == (if self.nanos >= other.nanos { self.nanos - other.nanos } else { 0 }),
    {
        if self.nanos >= other.nanos {
            Duration { nanos: self.nanos - other.nanos }
        } else {
            Duration { nanos: 0 }
        }
    }
}

/// Nanoseconds from `earlier` to `now`, none where `earlier` is later.
pub open spec fn nanos_since(now: Timestamp, earlier: Timestamp) -> int {
    if now.nanos >= earlier.nanos {
        now.nanos - earlier.nanos
    } else {
        0
    }
}

/// The wall clock, as `std::time::SystemTime::now` reads it. What it says depends on when
/// it is called.
#[verifier::external_body]
pub(crate) fn wall_clock() -> (r: Timestamp) {
    match std::time::SystemTime::now().duration_since(std::time::UNIX_EPOCH) {
        Ok(d) => Timestamp { nanos: d.as_nanos() },
        Err(_) => Timestamp { nanos: 0 },
    }
}

/// Spans of whole seconds and milliseconds, and what is left of one after another.
pub proof fn spans_in_full(secs: u64, millis: u64, d: Duration, e: Duration, a: Duration, b: Duration, c: Duration)
    requires
        call_ensures(Duration::from_secs, (secs,), a),
        call_ensures(Duration::from_millis, (millis,), b),
        call_ensures(Duration::saturating_sub, (&d, e), c),
    ensures
        a.nanos == secs * 1_000_000_000,
        b.nanos == millis * 1_000_000,
        d.nanos >= e.nanos ==> c.nanos + e.nanos == d.nanos,
        d.nanos < e.nanos ==> c.nanos == 0,
{
}

/// The time since an instant is what has to be added to it to come to now, and nothing where
/// it lies ahead.
pub proof fn time_since_an_instant(now: Timestamp, earlier: Timestamp)
    ensures
        now.nanos >= earlier.nanos ==> earlier.nanos + nanos_since(now, earlier) == now.nanos,
        now.nanos < earlier.nanos ==> nanos_since(now, earlier) == 0,
{
}

} // verus!
