//! Round-trip time filters: a windowed minimum and a smoothed estimate.

use std::collections::VecDeque;

use vstd::arithmetic::power2::*;
use vstd::prelude::*;

use crate::binary64::laws::{
    law_nearest_exact, law_nearest_monotone, law_one, law_small_integers_exact,
    lemma_half_even_monotone,
};
use crate::binary64::rounding::{
    half_even, lemma_bit_len_unique, lemma_half_even_exact, lemma_half_even_shift, nearest,
    BINADE, INFINITY_BITS, ONE_BITS,
};
use crate::binary64::{
    lemma_steps_increase, product, signed, steps, unit_steps, whole_number, Binary64,
};
use crate::bounded::minus_floored;
use crate::time::{
    convertible, fraction_seconds, nanos_nearest, saturated_micros, seconds, Duration,
    NANOS_PER_SEC,
};

verus! {

/// Minimum of the samples of a sliding window.
#[derive(Debug, Clone)]
pub struct MinMax {
    /// Length of the window in microseconds.
    pub window_us: u64,
    /// Time and value of each sample, oldest first.
    pub samples: VecDeque<(u64, u64)>,
    /// Minimum at the last update, 0 before any.
    pub min: u64,
}

/// What a [`MinMax`] holds.
#[verifier::ext_equal]
pub struct MinMaxState {
    /// Length of the window.
    pub window_us: u64,
    /// Time and value of each sample.
    pub samples: Seq<(u64, u64)>,
    /// Minimum.
    pub min: u64,
}

impl View for MinMax {
    type V = MinMaxState;

    open spec fn view(&self) -> MinMaxState {
        MinMaxState { window_us: self.window_us, samples: self.samples@, min: self.min }
    }
}

/// The samples from the first one not before `cutoff` on.
pub open spec fn since(samples: Seq<(u64, u64)>, cutoff: u64) -> Seq<(u64, u64)>
    decreases samples.len(),
{
    if samples.len() > 0 && samples[0].0 < cutoff {
        since(samples.drop_first(), cutoff)
    } else {
        samples
    }
}

/// The least value among the samples.
pub open spec fn least(samples: Seq<(u64, u64)>) -> u64
    decreases samples.len(),
{
    if samples.len() <= 1 {
        samples[0].1
    } else {
        let rest = least(samples.drop_last());
        if samples.last().1 < rest {
            samples.last().1
        } else {
            rest
        }
    }
}

impl MinMaxState {
    /// The filter after a sample: those outside the window are gone.
    pub open spec fn updated(self, now_us: u64, sample_us: u64) -> MinMaxState {
        let kept = since(
            self.samples.push((now_us, sample_us)),
            minus_floored(now_us, self.window_us as nat),
        );
        MinMaxState { samples: kept, min: least(kept), ..self }
    }
}

/// The newest sample is never outside the window.
proof fn lemma_since_keeps_last(samples: Seq<(u64, u64)>, cutoff: u64)
    requires
        samples.len() > 0,
        samples.last().0 >= cutoff,
    ensures
        since(samples, cutoff).len() > 0,
        since(samples, cutoff).last() == samples.last(),
    decreases samples.len(),
{
    if samples[0].0 < cutoff {
        lemma_since_keeps_last(samples.drop_first(), cutoff);
    }
}

impl MinMax {
    /// Creates an empty filter.
    pub fn new(window: Duration) -> (m: Self)
        ensures
            m@ == (MinMaxState {
                window_us: saturated_micros(window),
                samples: Seq::empty(),
                min: 0,
            }),
    {
        let m: MinMax = MinMax {
            window_us: window.micros_saturated(),
            samples: VecDeque::new(),
            min: 0,
        };
        assert(m.samples@ =~= Seq::empty());
        m
    }

    /// Changes the length of the window.
    pub fn set_window(&mut self, window: Duration)
        ensures
            final(self)@ == (MinMaxState { window_us: saturated_micros(window), ..old(self)@ }),
    {
        self.window_us = window.micros_saturated();
    }

    /// Takes a sample in and drops those outside the window.
    pub fn update_min(&mut self, now_us: u64, sample_us: u64)
        ensures
            final(self)@ == old(self)@.updated(now_us, sample_us),
    {
        let ghost pushed: Seq<(u64, u64)> = self.samples@.push((now_us, sample_us));
        self.samples.push_back((now_us, sample_us));
        let cutoff: u64 = now_us.saturating_sub(self.window_us);
        proof {
            lemma_since_keeps_last(pushed, cutoff);
        }
        while self.samples.len() > 0 && self.samples[0].0 < cutoff
            invariant
                since(self.samples@, cutoff) == since(pushed, cutoff),
                self.window_us == old(self).window_us,
                self.min == old(self).min,
            decreases self.samples.len(),
        {
            let ghost before: Seq<(u64, u64)> = self.samples@;
            let _ = self.samples.pop_front();
            assert(self.samples@ =~= before.drop_first());
        }
        let ghost kept: Seq<(u64, u64)> = self.samples@;
        assert(kept == since(pushed, cutoff));
        let mut min: u64 = self.samples[0].1;
        let mut i: usize = 1;
        assert(kept.take(1).len() == 1);
        while i < self.samples.len()
            invariant
                1 <= i <= self.samples.len(),
                self.samples@ == kept,
                min == least(kept.take(i as int)),
                self.window_us == old(self).window_us,
            decreases self.samples.len() - i,
        {
            proof {
                assert(kept.take(i + 1).drop_last() =~= kept.take(i as int));
                assert(kept.take(i + 1).last() == kept[i as int]);
            }
            let v: u64 = self.samples[i].1;
            if v < min {
                min = v;
            }
            i += 1;
        }
        assert(kept.take(i as int) =~= kept);
        self.min = min;
    }

    /// The minimum at the last update, 0 before any.
    pub fn get(&self) -> (min: u64)
        ensures
            min == self@.min,
    {
        self.min
    }
}

/// Longest round-trip time: 2^64 seconds, in nanoseconds.
pub const RTT_BOUND: u128 = 18_446_744_073_709_551_616_000_000_000;

/// Encoding of 0.75.
pub const THREE_QUARTERS_BITS: u64 = 0x3FE8_0000_0000_0000;

/// Encoding of 0.25.
pub const QUARTER_BITS: u64 = 0x3FD0_0000_0000_0000;

/// Encoding of 0.875.
pub const SEVEN_EIGHTHS_BITS: u64 = 0x3FEC_0000_0000_0000;

/// Encoding of 0.125.
pub const EIGHTH_BITS: u64 = 0x3FC0_0000_0000_0000;

/// Smoothed round-trip time and its variation.
#[derive(Debug, Clone, Copy)]
pub struct RttEstimator {
    /// Latest sample.
    pub latest_rtt: Duration,
    /// Smoothed estimate.
    pub smoothed_rtt: Duration,
    /// Mean deviation.
    pub rttvar: Duration,
}

/// A span times a factor, to the nearest nanosecond.
pub open spec fn scaled(d: Duration, factor_bits: u64) -> nat {
    nanos_nearest(product(seconds(d), signed(false, factor_bits as nat)))
}

/// Distance between two spans, in nanoseconds.
pub open spec fn apart(a: Duration, b: Duration) -> Duration {
    Duration {
        nanos: if a.nanos >= b.nanos {
            (a.nanos - b.nanos) as u128
        } else {
            (b.nanos - a.nanos) as u128
        },
    }
}

impl RttEstimator {
    /// No span exceeds the longest round-trip time.
    pub open spec fn bounded(self) -> bool {
        &&& self.latest_rtt.nanos <= RTT_BOUND
        &&& self.smoothed_rtt.nanos <= RTT_BOUND
        &&& self.rttvar.nanos <= RTT_BOUND
    }

    /// The estimate after a sample.
    pub open spec fn after_sample(self, sample: Duration) -> RttEstimator {
        if self.smoothed_rtt.nanos == 0 {
            RttEstimator {
                latest_rtt: sample,
                smoothed_rtt: sample,
                rttvar: Duration { nanos: sample.nanos / 2 },
            }
        } else {
            RttEstimator {
                latest_rtt: sample,
                smoothed_rtt: Duration {
                    nanos: (scaled(self.smoothed_rtt, SEVEN_EIGHTHS_BITS) + scaled(
                        sample,
                        EIGHTH_BITS,
                    )) as u128,
                },
                rttvar: Duration {
                    nanos: (scaled(self.rttvar, THREE_QUARTERS_BITS) + scaled(
                        apart(sample, self.smoothed_rtt),
                        QUARTER_BITS,
                    )) as u128,
                },
            }
        }
    }

    /// Creates an estimate from a first guess.
    pub fn new(initial: Duration) -> (e: Self)
        ensures
            e == (RttEstimator {
                latest_rtt: initial,
                smoothed_rtt: initial,
                rttvar: Duration { nanos: initial.nanos / 2 },
            }),
    {
        RttEstimator { latest_rtt: initial, smoothed_rtt: initial, rttvar: initial.half() }
    }

    /// Takes a sample in.
    pub fn on_sample(&mut self, sample: Duration)
        requires
            old(self).bounded(),
            sample.nanos <= RTT_BOUND,
        ensures
            *final(self) == old(self).after_sample(sample),
            final(self).bounded(),
    {
        if self.smoothed_rtt.is_zero() {
            self.latest_rtt = sample;
            self.smoothed_rtt = sample;
            self.rttvar = sample.half();
            return;
        }
        let diff: Duration = sample.abs_diff(self.smoothed_rtt);
        assert(diff == apart(sample, self.smoothed_rtt));
        proof {
            lemma_factors();
            lemma_scaled_bound(self.rttvar, THREE_QUARTERS_BITS, 0x43E8_0000_0000_0000, 6);
            lemma_scaled_bound(diff, QUARTER_BITS, 0x43D0_0000_0000_0000, 2);
            lemma_scaled_bound(self.smoothed_rtt, SEVEN_EIGHTHS_BITS, 0x43EC_0000_0000_0000, 7);
            lemma_scaled_bound(sample, EIGHTH_BITS, 0x43C0_0000_0000_0000, 1);
        }
        self.latest_rtt = sample;
        let kept_var: Duration = duration_mul(self.rttvar, THREE_QUARTERS_BITS);
        let new_var: Duration = duration_mul(diff, QUARTER_BITS);
        self.rttvar = Duration { nanos: kept_var.nanos + new_var.nanos };
        let kept: Duration = duration_mul(self.smoothed_rtt, SEVEN_EIGHTHS_BITS);
        let added: Duration = duration_mul(sample, EIGHTH_BITS);
        self.smoothed_rtt = Duration { nanos: kept.nanos + added.nanos };
    }

    /// The smoothed estimate.
    pub fn smoothed_rtt(&self) -> (d: Duration)
        ensures
            d == self.smoothed_rtt,
    {
        self.smoothed_rtt
    }
}

/// A span times a factor, to the nearest nanosecond.
pub fn duration_mul(d: Duration, factor_bits: u64) -> (r: Duration)
    requires
        factor_bits < 0x8000_0000_0000_0000,
        convertible(product(seconds(d), signed(false, factor_bits as nat))),
    ensures
        r.nanos == scaled(d, factor_bits),
{
    let factor: Binary64 = Binary64::from_bits(factor_bits);
    assert(factor == signed(false, factor_bits as nat));
    Duration::from_secs_nearest(d.as_secs().times(factor))
}

/// Encoding of 2^64.
pub const TWO_64_BITS: u64 = 0x43F0_0000_0000_0000;

/// 2^64 and one more round to 2^64.
proof fn lemma_two_64()
    ensures
        steps(TWO_64_BITS as nat) == 0x1_0000_0000_0000_0000 * unit_steps(),
        nearest(0x1_0000_0000_0000_0001 * unit_steps(), 1) == TWO_64_BITS,
{
    lemma2_to64();
    lemma2_to64_rest();
    lemma_pow2_adds(52, 1086);
    lemma_pow2_adds(64, 1074);
    lemma_pow2_adds(1, 1138);
    assert(TWO_64_BITS as nat / (BINADE as nat) == 1087);
    assert(TWO_64_BITS as nat % (BINADE as nat) == 0);
    let n: nat = 0x1_0000_0000_0000_0001;
    let v: nat = n * unit_steps();
    lemma_pow2_pos(1074);
    assert(pow2(1138) <= v && v < pow2(1139)) by (nonlinear_arith)
        requires
            v == n * unit_steps(),
            n == 0x1_0000_0000_0000_0001,
            pow2(1138) == 0x1_0000_0000_0000_0000 * unit_steps(),
            pow2(1139) == 2 * pow2(1138),
            unit_steps() > 0,
    ;
    lemma_bit_len_unique(v, 1139);
    assert(v / 1 == v);
    lemma_half_even_shift(n, 1, 1074, 1086);
    assert(1 * pow2(1086) == pow2(1086));
    assert(1 * pow2(12) == 4096);
    assert(half_even(n, 4096) == 0x10_0000_0000_0000);
}

/// A span up to the bound is at most 2^64 seconds.
proof fn lemma_seconds_bound(d: Duration)
    requires
        d.nanos <= RTT_BOUND,
    ensures
        seconds(d).code() <= TWO_64_BITS,
        !seconds(d).negative(),
{
    let u: nat = unit_steps();
    let q: nat = (d.nanos / NANOS_PER_SEC) as nat;
    let r: nat = (d.nanos % NANOS_PER_SEC) as nat;
    lemma_pow2_pos(1074);
    lemma_two_64();
    let whole = whole_number(q);
    assert((q * u) * 1 <= (0x1_0000_0000_0000_0000 * u) * 1) by (nonlinear_arith)
        requires
            q <= 0x1_0000_0000_0000_0000,
    ;
    law_nearest_monotone(q * u, 1, 0x1_0000_0000_0000_0000 * u, 1);
    law_nearest_exact(TWO_64_BITS as nat);
    let part = whole_number(r);
    let billion = whole_number(NANOS_PER_SEC as nat);
    law_small_integers_exact(r);
    law_small_integers_exact(NANOS_PER_SEC as nat);
    law_one();
    let one: nat = ONE_BITS as nat;
    law_nearest_exact(one);
    assert(billion.code() > 0) by {
        assert(billion.size() > 0) by (nonlinear_arith)
            requires
                billion.size() == 1_000_000_000 * u,
                u > 0,
        ;
    }
    assert(((r * u) * u) * 1 <= u * (1_000_000_000 * u)) by (nonlinear_arith)
        requires
            r <= 1_000_000_000,
    ;
    assert(1_000_000_000 * u > 0) by (nonlinear_arith)
        requires
            u > 0,
    ;
    law_nearest_monotone((r * u) * u, 1_000_000_000 * u, u, 1);
    let frac = fraction_seconds(d);
    assert(frac.code() <= one);
    if whole.code() < TWO_64_BITS {
        lemma_steps_increase(whole.code(), TWO_64_BITS as nat);
    }
    if frac.code() < one {
        lemma_steps_increase(frac.code(), one);
    }
    assert(whole.size() + frac.size() <= 0x1_0000_0000_0000_0001 * u);
    law_nearest_monotone(whole.size() + frac.size(), 1, 0x1_0000_0000_0000_0001 * u, 1);
}

/// The smoothing factors and their products with 2^64, in eighths.
proof fn lemma_factors()
    ensures
        steps(EIGHTH_BITS as nat) == 1 * pow2(1071),
        steps(QUARTER_BITS as nat) == 2 * pow2(1071),
        steps(THREE_QUARTERS_BITS as nat) == 6 * pow2(1071),
        steps(SEVEN_EIGHTHS_BITS as nat) == 7 * pow2(1071),
        steps(0x43C0_0000_0000_0000) == 1 * pow2(1135),
        steps(0x43D0_0000_0000_0000) == 2 * pow2(1135),
        steps(0x43E8_0000_0000_0000) == 6 * pow2(1135),
        steps(0x43EC_0000_0000_0000) == 7 * pow2(1135),
{
    lemma2_to64();
    lemma2_to64_rest();
    let w: nat = BINADE as nat;
    lemma_pow2_adds(52, 1019);
    lemma_pow2_unfold(1020);
    lemma_pow2_unfold(1021);
    lemma_pow2_adds(52, 1083);
    lemma_pow2_unfold(1084);
    lemma_pow2_unfold(1085);
    assert(EIGHTH_BITS as nat / w == 1020 && EIGHTH_BITS as nat % w == 0);
    assert(QUARTER_BITS as nat / w == 1021 && QUARTER_BITS as nat % w == 0);
    assert(THREE_QUARTERS_BITS as nat / w == 1022 && THREE_QUARTERS_BITS as nat % w
        == 0x8_0000_0000_0000);
    assert(SEVEN_EIGHTHS_BITS as nat / w == 1022 && SEVEN_EIGHTHS_BITS as nat % w
        == 0xC_0000_0000_0000);
    assert(0x43C0_0000_0000_0000nat / w == 1084 && 0x43C0_0000_0000_0000nat % w == 0);
    assert(0x43D0_0000_0000_0000nat / w == 1085 && 0x43D0_0000_0000_0000nat % w == 0);
    assert(0x43E8_0000_0000_0000nat / w == 1086 && 0x43E8_0000_0000_0000nat % w
        == 0x8_0000_0000_0000);
    assert(0x43EC_0000_0000_0000nat / w == 1086 && 0x43EC_0000_0000_0000nat % w
        == 0xC_0000_0000_0000);
    let x: nat = pow2(1019);
    let y: nat = pow2(1083);
    assert(0x18_0000_0000_0000 * (4 * x) == 6 * (0x10_0000_0000_0000 * x)) by (nonlinear_arith);
    assert(0x1C_0000_0000_0000 * (4 * x) == 7 * (0x10_0000_0000_0000 * x)) by (nonlinear_arith);
    assert(0x18_0000_0000_0000 * (4 * y) == 6 * (0x10_0000_0000_0000 * y)) by (nonlinear_arith);
    assert(0x1C_0000_0000_0000 * (4 * y) == 7 * (0x10_0000_0000_0000 * y)) by (nonlinear_arith);
}

/// A span up to the bound times `j` eighths is at most `j` eighths of the bound.
proof fn lemma_scaled_bound(d: Duration, factor: u64, top: u64, j: nat)
    requires
        d.nanos <= RTT_BOUND,
        factor < INFINITY_BITS,
        top <= TWO_64_BITS,
        steps(factor as nat) == j * pow2(1071),
        steps(top as nat) == j * pow2(1135),
    ensures
        convertible(product(seconds(d), signed(false, factor as nat))),
        scaled(d, factor) <= j * 0x2000_0000_0000_0000 * NANOS_PER_SEC,
{
    let u: nat = unit_steps();
    let x = seconds(d);
    let f = signed(false, factor as nat);
    let p = product(x, f);
    lemma_pow2_pos(1074);
    lemma_seconds_bound(d);
    lemma_two_64();
    if x.code() < TWO_64_BITS {
        lemma_steps_increase(x.code(), TWO_64_BITS as nat);
    }
    lemma2_to64_rest();
    lemma_pow2_adds(64, 1071);
    lemma_pow2_adds(61, 1074);
    let sx: nat = x.size();
    let sf: nat = f.size();
    let t: nat = steps(top as nat);
    assert((sx * sf) * 1 <= t * u) by (nonlinear_arith)
        requires
            sx <= 0x1_0000_0000_0000_0000 * u,
            sf == j * pow2(1071),
            t == j * pow2(1135),
            pow2(1135) == 0x1_0000_0000_0000_0000 * pow2(1071),
    ;
    law_nearest_monotone(sx * sf, u, t, 1);
    law_nearest_exact(top as nat);
    assert(p.code() <= top);
    if p.code() < top {
        lemma_steps_increase(p.code(), top as nat);
    }
    let k: nat = j * 0x2000_0000_0000_0000 * NANOS_PER_SEC as nat;
    assert(p.size() * NANOS_PER_SEC as nat <= k * u) by (nonlinear_arith)
        requires
            p.size() <= t,
            t == j * pow2(1135),
            pow2(1135) == 0x2000_0000_0000_0000 * u,
            k == j * 0x2000_0000_0000_0000 * NANOS_PER_SEC as nat,
    ;
    lemma_half_even_monotone(p.size() * NANOS_PER_SEC as nat, k * u, u);
    lemma_half_even_exact(k, 1074, 1074);
    lemma2_to64();
    assert(k * pow2(0) == k);
}

} // verus!
