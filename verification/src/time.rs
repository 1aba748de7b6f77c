//! Spans of time with nanosecond precision, as `std::time::Duration` has them.

use vstd::prelude::*;

verus! {

pub const NANOS_PER_SEC: u32 = 1_000_000_000;

/// A span of time: whole seconds and the nanoseconds below one second.
#[derive(Clone, Copy, PartialEq, Eq, Structural, Debug)]
pub struct Duration {
    secs: u64,
    nanos: u32,
}

/// The longest representable span, in nanoseconds.
pub open spec fn max_nanos() -> nat {
    (u64::MAX as nat) * 1_000_000_000 + 999_999_999
}

impl Duration {
    #[verifier::type_invariant]
    spec fn nanos_below_one_second(self) -> bool {
        self.nanos < NANOS_PER_SEC
    }

    /// The span in nanoseconds.
    pub closed spec fn view(self) -> nat {
        (self.secs as nat) * 1_000_000_000 + self.nanos as nat
    }

    pub fn from_secs(secs: u64) -> (d: Duration)
        ensures
            d@ == secs * 1_000_000_000,
    {
        Duration { secs, nanos: 0 }
    }

    pub fn from_millis(millis: u64) -> (d: Duration)
        ensures
            d@ == millis * 1_000_000,
    {
        let secs = millis / 1000;
        let rem = (millis % 1000) as u32;
        assert(millis == secs * 1000 + rem);
        Duration { secs, nanos: rem * 1_000_000 }
    }

    /// Whole seconds.
    pub fn as_secs(&self) -> (s: u64)
        ensures
            s == self@ / 1_000_000_000,
    {
        proof {
            use_type_invariant(self);
        }
        self.secs
    }

    /// Nanoseconds below one second.
    pub fn subsec_nanos(&self) -> (n: u32)
        ensures
            n == self@ % 1_000_000_000,
    {
        proof {
            use_type_invariant(self);
        }
        self.nanos
    }

    /// Build from whole seconds and nanoseconds below one second.
    pub fn from_parts(secs: u64, nanos: u32) -> (d: Duration)
        requires
            nanos < NANOS_PER_SEC,
        ensures
            d@ == secs * 1_000_000_000 + nanos,
            d.as_secs_spec() == secs,
    {
        Duration { secs, nanos }
    }

    pub closed spec fn as_secs_spec(self) -> u64 {
        self.secs
    }

    /// The longest span.
    pub fn max_value() -> (d: Duration)
        ensures
            d@ == max_nanos(),
    {
        Duration { secs: u64::MAX, nanos: NANOS_PER_SEC - 1 }
    }

    /// The sum, or the longest span where the sum does not fit.
    pub fn saturating_add(self, rhs: Duration) -> (d: Duration)
        ensures
            d@ == if self@ + rhs@ <= max_nanos() {
                self@ + rhs@
            } else {
                max_nanos()
            },
    {
        proof {
            use_type_invariant(&self);
            use_type_invariant(&rhs);
        }
        let nanos = self.nanos + rhs.nanos;
        if self.secs > u64::MAX - rhs.secs {
            return Duration::max_value();
        }
        let secs = self.secs + rhs.secs;
        if nanos >= NANOS_PER_SEC {
            if secs == u64::MAX {
                return Duration::max_value();
            }
            Duration { secs: secs + 1, nanos: nanos - NANOS_PER_SEC }
        } else {
            Duration { secs, nanos }
        }
    }
}

} // verus!
