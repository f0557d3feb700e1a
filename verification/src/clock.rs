//! Points in time and spans of time, in whole nanoseconds.

use vstd::prelude::*;

verus! {

/// Nanoseconds in a second.
pub const NANOS_PER_SEC: u128 = 1_000_000_000;

/// A span of time.
#[derive(Debug, Clone, Copy, PartialEq, Eq, PartialOrd, Ord, Structural)]
pub struct Duration {
    /// Its length in nanoseconds.
    pub nanos: u128,
}

/// A point on a clock that never runs backwards.
#[derive(Debug, Clone, Copy, PartialEq, Eq, PartialOrd, Ord, Structural)]
pub struct Instant {
    /// Nanoseconds since the start of the clock.
    pub nanos: u128,
}

impl Duration {
    /// A span of `secs` seconds.
    pub fn from_secs(secs: u64) -> (r: Self)
        ensures
            r.nanos == secs * NANOS_PER_SEC,
    {
        assert(secs * NANOS_PER_SEC <= u64::MAX * NANOS_PER_SEC) by (nonlinear_arith)
            requires
                secs <= u64::MAX,
        ;
        Duration { nanos: (secs as u128) * NANOS_PER_SEC }
    }

    /// A span of `millis` thousandths of a second.
    pub fn from_millis(millis: u64) -> (r: Self)
        ensures
            r.nanos == millis * 1_000_000,
    {
        Duration { nanos: (millis as u128) * 1_000_000 }
    }

    /// No time at all.
    pub fn zero() -> (r: Self)
        ensures
            r.nanos == 0,
    {
        Duration { nanos: 0 }
    }

    /// Whether the span is no time at all.
    pub fn is_zero(&self) -> (r: bool)
        ensures
            r == (self.nanos == 0),
    {
        self.nanos == 0
    }
}

impl Instant {
    /// The point `nanos` nanoseconds behind the start of the clock.
    pub fn from_nanos(nanos: u128) -> (r: Self)
        ensures
            r.nanos == nanos,
    {
        Instant { nanos }
    }

    /// The point `span` later.
    pub fn plus(&self, span: Duration) -> (r: Self)
        requires
            self.nanos + span.nanos <= u128::MAX,
        ensures
            r.nanos == self.nanos + span.nanos,
    {
        Instant { nanos: self.nanos + span.nanos }
    }

    /// The point `span` earlier, unless that is before the start of the clock.
    pub fn checked_sub(&self, span: Duration) -> (r: Option<Self>)
        ensures
            match r {
                Some(t) => t.nanos == self.nanos - span.nanos,
                None => self.nanos < span.nanos,
            },
    {
        if self.nanos < span.nanos {
            None
        } else {
            Some(Instant { nanos: self.nanos - span.nanos })
        }
    }
}

} // verus!
