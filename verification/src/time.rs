//! Durations and readings of a monotonic clock, in whole nanoseconds.

use vstd::prelude::*;

use crate::binary64::rounding::half_even;
use crate::bounded::saturated;
use crate::binary64::{quotient, sum, unit_steps, whole_number, Binary64};

verus! {

/// Nanoseconds in one second.
pub const NANOS_PER_SEC: u128 = 1_000_000_000;

/// Nanoseconds in one millisecond.
pub const NANOS_PER_MILLI: u128 = 1_000_000;

/// Nanoseconds in one microsecond.
pub const NANOS_PER_MICRO: u128 = 1_000;

/// Earliest clock reading: -2^63 seconds.
pub const EARLIEST: i128 = -9_223_372_036_854_775_808_000_000_000;

/// Latest clock reading, one nanosecond before 2^63 seconds.
pub const LATEST: i128 = 9_223_372_036_854_775_807_999_999_999;

/// Longest span of 64-bit seconds, one nanosecond short of 2^64 seconds. No two clock
/// readings are further apart.
pub const MAX_NANOS: u128 = 18_446_744_073_709_551_615_999_999_999;

/// Encoding of 2^98, the longest span in seconds that converts to a [`Duration`].
pub const LONGEST_SECONDS_BITS: u64 = 0x4610_0000_0000_0000;

/// A span of time.
#[derive(Debug, Clone, Copy, PartialEq, Eq, Structural, PartialOrd, Ord)]
pub struct Duration {
    /// Length in nanoseconds.
    pub nanos: u128,
}

/// The span as a number of seconds: whole seconds plus the rest, each rounded.
pub open spec fn seconds(d: Duration) -> Binary64 {
    sum(whole_number((d.nanos / NANOS_PER_SEC) as nat), fraction_seconds(d))
}

/// The part of a span below one second, as a number of seconds.
pub open spec fn fraction_seconds(d: Duration) -> Binary64 {
    quotient(
        whole_number((d.nanos % NANOS_PER_SEC) as nat),
        whole_number(NANOS_PER_SEC as nat),
    )
}

/// Whether a number of seconds converts to a span.
pub open spec fn convertible(secs: Binary64) -> bool {
    secs.code() <= LONGEST_SECONDS_BITS && (secs.negative() ==> secs.code() == 0)
}

/// Whole nanoseconds nearest to a number of seconds, ties to even.
pub open spec fn nanos_nearest(secs: Binary64) -> nat {
    half_even(secs.size() * NANOS_PER_SEC as nat, unit_steps())
}

impl Duration {
    /// The empty span.
    pub fn zero() -> (d: Self)
        ensures
            d.nanos == 0,
    {
        Duration { nanos: 0 }
    }

    /// The longest span of 64-bit seconds.
    pub fn max_value() -> (d: Self)
        ensures
            d.nanos == MAX_NANOS,
    {
        Duration { nanos: MAX_NANOS }
    }

    /// A span of whole seconds.
    pub fn from_secs(secs: u64) -> (d: Self)
        ensures
            d.nanos == secs * NANOS_PER_SEC,
    {
        Duration { nanos: secs as u128 * NANOS_PER_SEC }
    }

    /// A span of whole milliseconds.
    pub fn from_millis(millis: u64) -> (d: Self)
        ensures
            d.nanos == millis * NANOS_PER_MILLI,
    {
        Duration { nanos: millis as u128 * NANOS_PER_MILLI }
    }

    /// A span of whole microseconds.
    pub fn from_micros(micros: u64) -> (d: Self)
        ensures
            d.nanos == micros * NANOS_PER_MICRO,
    {
        Duration { nanos: micros as u128 * NANOS_PER_MICRO }
    }

    /// A span of nanoseconds.
    pub fn from_nanos(nanos: u64) -> (d: Self)
        ensures
            d.nanos == nanos,
    {
        Duration { nanos: nanos as u128 }
    }

    /// Whether the span is empty.
    pub fn is_zero(&self) -> (r: bool)
        ensures
            r == (self.nanos == 0),
    {
        self.nanos == 0
    }

    /// Whole microseconds in the span, held to the range of `u64`.
    pub fn micros_saturated(&self) -> (r: u64)
        ensures
            r == saturated_micros(*self),
    {
        let us: u128 = self.nanos / NANOS_PER_MICRO;
        if us <= u64::MAX as u128 {
            us as u64
        } else {
            u64::MAX
        }
    }

    /// Half of the span, rounded down to a nanosecond.
    pub fn half(&self) -> (d: Self)
        ensures
            d.nanos == self.nanos / 2,
    {
        Duration { nanos: self.nanos / 2 }
    }

    /// The longer of two spans.
    pub fn longer(self, other: Self) -> (d: Self)
        ensures
            d.nanos == (if self.nanos >= other.nanos {
                self.nanos
            } else {
                other.nanos
            }),
    {
        if self.nanos >= other.nanos {
            self
        } else {
            other
        }
    }

    /// What is left of the span after taking `other` away, at least nothing.
    pub fn saturating_sub(self, other: Self) -> (d: Self)
        ensures
            d.nanos == (if self.nanos >= other.nanos {
                self.nanos - other.nanos
            } else {
                0
            }),
    {
        if self.nanos >= other.nanos {
            Duration { nanos: self.nanos - other.nanos }
        } else {
            Duration { nanos: 0 }
        }
    }

    /// The distance between two spans.
    pub fn abs_diff(self, other: Self) -> (d: Self)
        ensures
            d.nanos == (if self.nanos >= other.nanos {
                self.nanos - other.nanos
            } else {
                other.nanos - self.nanos
            }),
    {
        if self.nanos >= other.nanos {
            Duration { nanos: self.nanos - other.nanos }
        } else {
            Duration { nanos: other.nanos - self.nanos }
        }
    }

    /// The span as a number of seconds.
    pub fn as_secs(&self) -> (r: Binary64)
        ensures
            r == seconds(*self),
    {
        let whole: Binary64 = Binary64::from_u128(self.nanos / NANOS_PER_SEC);
        whole.plus(self.fraction())
    }

    /// The part of the span below one second, as a number of seconds.
    pub fn fraction(&self) -> (r: Binary64)
        ensures
            r == fraction_seconds(*self),
    {
        let rest: Binary64 = Binary64::from_u128(self.nanos % NANOS_PER_SEC);
        rest.over(Binary64::from_u128(NANOS_PER_SEC))
    }

    /// The span nearest to a number of seconds.
    pub fn from_secs_nearest(secs: Binary64) -> (d: Self)
        requires
            convertible(secs),
        ensures
            d.nanos == nanos_nearest(secs),
    {
        Duration { nanos: secs.scaled_half_even(NANOS_PER_SEC as u64) }
    }
}

/// Whole microseconds of a span, held to the range of `u64`.
pub open spec fn saturated_micros(d: Duration) -> u64 {
    saturated((d.nanos / NANOS_PER_MICRO) as nat)
}

/// A reading of a monotonic clock, in nanoseconds from the clock's own origin.
#[derive(Debug, Clone, Copy, PartialEq, Eq, Structural, PartialOrd, Ord)]
pub struct Instant {
    nanos: i128,
}

impl View for Instant {
    type V = int;

    /// Nanoseconds from the clock's origin.
    closed spec fn view(&self) -> int {
        self.nanos as int
    }
}

/// Nanoseconds from `earlier` to `later`, 0 where `later` is not later.
pub open spec fn elapsed(later: Instant, earlier: Instant) -> nat {
    if later@ >= earlier@ {
        (later@ - earlier@) as nat
    } else {
        0
    }
}

impl Instant {
    #[verifier::type_invariant]
    spec fn in_range(self) -> bool {
        EARLIEST <= self.nanos <= LATEST
    }

    /// The reading `nanos` nanoseconds after the clock's origin.
    pub fn from_nanos(nanos: i64) -> (t: Self)
        ensures
            t@ == nanos,
    {
        Instant { nanos: nanos as i128 }
    }

    /// Nanoseconds from the clock's origin.
    pub fn as_nanos(&self) -> (n: i128)
        ensures
            n == self@,
            EARLIEST <= n <= LATEST,
    {
        proof {
            use_type_invariant(self);
        }
        self.nanos
    }

    /// Readings at the same time are equal.
    pub proof fn law_equal_readings(a: Instant, b: Instant)
        requires
            a@ == b@,
        ensures
            a == b,
    {
    }

    /// The reading `d` later.
    pub fn after(self, d: Duration) -> (t: Self)
        requires
            self@ + d.nanos <= LATEST,
        ensures
            t@ == self@ + d.nanos,
    {
        proof {
            use_type_invariant(&self);
        }
        let step: i128 = d.nanos as i128;
        Instant { nanos: self.nanos + step }
    }

    /// The reading `d` earlier, where the clock reaches back that far.
    pub fn checked_sub(self, d: Duration) -> (t: Option<Self>)
        ensures
            t is Some <==> self@ - d.nanos >= EARLIEST,
            t matches Some(c) ==> c@ == self@ - d.nanos,
    {
        proof {
            use_type_invariant(&self);
        }
        if d.nanos > MAX_NANOS {
            return None;
        }
        let step: i128 = d.nanos as i128;
        if self.nanos < EARLIEST + step {
            None
        } else {
            Some(Instant { nanos: self.nanos - step })
        }
    }

    /// The span since `earlier`, empty where `earlier` is later.
    pub fn saturating_duration_since(&self, earlier: Self) -> (d: Duration)
        ensures
            d.nanos == elapsed(*self, earlier),
            d.nanos <= MAX_NANOS,
    {
        proof {
            use_type_invariant(self);
            use_type_invariant(&earlier);
        }
        if self.nanos >= earlier.nanos {
            Duration { nanos: (self.nanos - earlier.nanos) as u128 }
        } else {
            Duration { nanos: 0 }
        }
    }

    /// Whether this reading is before `other`.
    pub fn is_before(&self, other: Self) -> (r: bool)
        ensures
            r == (self@ < other@),
    {
        self.nanos < other.nanos
    }

    /// The later of two readings.
    pub fn later(self, other: Self) -> (t: Self)
        ensures
            t == (if self@ > other@ {
                self
            } else {
                other
            }),
    {
        if self.nanos > other.nanos {
            self
        } else {
            other
        }
    }
}

/// The time from one reading to another is their difference, and none where the other is not
/// later.
pub proof fn law_elapsed(later: Instant, earlier: Instant)
    ensures
        later@ >= earlier@ ==> elapsed(later, earlier) == later@ - earlier@,
        later@ < earlier@ ==> elapsed(later, earlier) == 0,
{
}

/// A span is its whole seconds plus the rest over a billion, each rounded.
pub proof fn law_seconds_formula(d: Duration)
    ensures
        seconds(d) == sum(
            whole_number((d.nanos / 1_000_000_000) as nat),
            quotient(
                whole_number((d.nanos % 1_000_000_000) as nat),
                whole_number(1_000_000_000),
            ),
        ),
{
}

/// A number of seconds converts to the nearest nanosecond: it is off by at most half of one.
pub proof fn law_nearest_nanosecond(secs: Binary64)
    ensures
        2 * nanos_nearest(secs) * unit_steps() <= 2 * secs.size() * 1_000_000_000 + unit_steps(),
        2 * secs.size() * 1_000_000_000 <= 2 * nanos_nearest(secs) * unit_steps() + unit_steps(),
{
    let u: nat = unit_steps();
    let v: nat = secs.size() * NANOS_PER_SEC as nat;
    vstd::arithmetic::power2::lemma_pow2_pos(1074);
    vstd::arithmetic::div_mod::lemma_fundamental_div_mod(v as int, u as int);
    let q: nat = v / u;
    let r: nat = v % u;
    let n: nat = nanos_nearest(secs);
    assert(2 * n * u <= 2 * v + u && 2 * v <= 2 * n * u + u) by (nonlinear_arith)
        requires
            v == u * q + r,
            0 <= r < u,
            n == q && 2 * r <= u || n == q + 1 && 2 * r >= u,
    ;
    assert(2 * secs.size() * 1_000_000_000 == 2 * v) by (nonlinear_arith)
        requires
            v == secs.size() * 1_000_000_000,
    ;
}

} // verus!
