//! Lengths of time and points in it, in nanoseconds.

use vstd::prelude::*;

verus! {

/// The longest length of time there is: the nanoseconds in 2^64 seconds, less one.
pub const LONGEST: u128 = 18_446_744_073_709_551_615_999_999_999;

/// The last point in time a deadline may be worked out from.
pub const LATEST: u128 = 0x1_0000_0000_0000_0000_0000_0000;

/// A length of time.
#[derive(Clone, Copy, Debug, PartialEq, Eq, PartialOrd, Ord, Hash, Structural)]
pub struct Duration {
    pub nanos: u128,
}

/// A point on a clock that only moves forward.
#[derive(Clone, Copy, Debug, PartialEq, Eq, PartialOrd, Ord, Hash, Structural)]
pub struct Instant {
    pub nanos: u128,
}

impl Duration {
    pub open spec fn wf(self) -> bool {
        self.nanos <= LONGEST
    }

    pub fn from_secs(secs: u64) -> (d: Duration)
        ensures
            d.nanos == secs * 1_000_000_000,
            d.wf(),
    {
        Duration { nanos: secs as u128 * 1_000_000_000 }
    }

    pub fn from_millis(millis: u64) -> (d: Duration)
        ensures
            d.nanos == millis * 1_000_000,
            d.wf(),
    {
        Duration { nanos: millis as u128 * 1_000_000 }
    }

    pub fn from_micros(micros: u64) -> (d: Duration)
        ensures
            d.nanos == micros * 1_000,
            d.wf(),
    {
        Duration { nanos: micros as u128 * 1_000 }
    }

    pub fn from_nanos(nanos: u64) -> (d: Duration)
        ensures
            d.nanos == nanos,
            d.wf(),
    {
        Duration { nanos: nanos as u128 }
    }

    /// The shorter of two lengths of time.
    pub fn shorter(self, other: Duration) -> (d: Duration)
        ensures
            d.nanos == if self.nanos <= other.nanos {
                self.nanos
            } else {
                other.nanos
            },
    {
        if self.nanos <= other.nanos {
            self
        } else {
            other
        }
    }
}

impl Instant {
    /// Whether a deadline can be worked out from this point.
    pub open spec fn wf(self) -> bool {
        self.nanos <= LATEST
    }

    /// The point a length of time after this one.
    pub fn after(self, wait: Duration) -> (at: Instant)
        requires
            self.wf(),
            wait.wf(),
        ensures
            at.nanos == self.nanos + wait.nanos,
    {
        Instant { nanos: self.nanos + wait.nanos }
    }
}

} // verus!
