//! Spans of time, counted in whole nanoseconds.
use vstd::prelude::*;

verus! {

/// Nanoseconds in one second.
pub const NANOS_PER_SEC: u128 = 1_000_000_000;

/// Nanoseconds in one millisecond.
pub const NANOS_PER_MILLI: u128 = 1_000_000;

/// More nanoseconds than any duration holds: those of `u64::MAX` seconds and one more second.
pub const NANOS_LIMIT: u128 = 18_446_744_073_709_551_616_000_000_000;

/// A length of time of at most `u64::MAX` seconds and 999 999 999 nanoseconds.
#[derive(Clone, Copy, Debug, PartialEq, Eq, Structural)]
pub struct Duration {
    nanos: u128,
}

impl Duration {
    #[verifier::type_invariant]
    spec fn in_range(self) -> bool {
        self.nanos < NANOS_LIMIT
    }

    /// The length of the duration in nanoseconds.
    pub closed spec fn nanos(self) -> nat {
        self.nanos as nat
    }

    /// No time at all.
    pub fn zero() -> (d: Duration)
        ensures
            d.nanos() == 0,
    {
        Duration { nanos: 0 }
    }

    /// A duration of whole seconds.
    pub fn from_secs(secs: u64) -> (d: Duration)
        ensures
            d.nanos() == secs * NANOS_PER_SEC,
            d.nanos() == secs * 1_000_000_000,
    {
        Duration { nanos: secs as u128 * NANOS_PER_SEC }
    }

    /// A duration of whole milliseconds.
    pub fn from_millis(millis: u64) -> (d: Duration)
        ensures
            d.nanos() == millis * NANOS_PER_MILLI,
            d.nanos() == millis * 1_000_000,
    {
        Duration { nanos: millis as u128 * NANOS_PER_MILLI }
    }

    /// A duration of whole nanoseconds.
    pub fn from_nanos(nanos: u64) -> (d: Duration)
        ensures
            d.nanos() == nanos,
    {
        Duration { nanos: nanos as u128 }
    }

    /// The length of the duration in nanoseconds.
    pub fn as_nanos(&self) -> (nanos: u128)
        ensures
            nanos == self.nanos(),
            nanos < NANOS_LIMIT,
    {
        proof {
            use_type_invariant(self);
        }
        self.nanos
    }

    /// The sum of two durations, or the longest duration where the sum is longer than that.
    pub fn saturating_add(&self, other: &Duration) -> (sum: Duration)
        ensures
            sum.nanos() == longer_by(self.nanos(), other.nanos()),
            self.nanos() + other.nanos() < 18_446_744_073_709_551_616_000_000_000 ==> sum.nanos()
                == self.nanos() + other.nanos(),
            self.nanos() + other.nanos() >= 18_446_744_073_709_551_616_000_000_000 ==> sum.nanos()
                == 18_446_744_073_709_551_615_999_999_999,
    {
        proof {
            use_type_invariant(self);
            use_type_invariant(other);
        }
        let nanos: u128 = self.nanos + other.nanos;
        if nanos < NANOS_LIMIT {
            Duration { nanos }
        } else {
            Duration { nanos: NANOS_LIMIT - 1 }
        }
    }

    /// Whether this duration is at least as long as the other.
    pub fn at_least(&self, other: &Duration) -> (longer: bool)
        ensures
            longer == (self.nanos() >= other.nanos()),
    {
        self.nanos >= other.nanos
    }
}

/// The length of two durations one after the other, capped at the longest duration there is.
pub open spec fn longer_by(a: nat, b: nat) -> nat {
    if a + b < NANOS_LIMIT {
        a + b
    } else {
        (NANOS_LIMIT - 1) as nat
    }
}

} // verus!
