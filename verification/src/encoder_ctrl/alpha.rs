//! Percentile-based α optimizer.

use vstd::prelude::*;
use vstd::relations::{sorted_by, total_ordering};

use crate::binary64::rounding::ONE_BITS;
use crate::binary64::{
    clamped, difference, larger, product, quotient, rounded, signed, sum, whole_number, Binary64,
};
use crate::config::VidaptiveConfig;
use crate::metrics::percentile::{percentile, percentile_linear, MAX_SAMPLES};
use crate::metrics::video_bitrate::EPSILON_BITS;
use crate::metrics::FrameTimingBuffer;
use crate::time::{seconds, Duration};
use crate::types::FrameServiceSample;

verus! {

/// Encoding of 0.05, the least unsmoothed α.
pub const MIN_ALPHA_BITS: u64 = 0x3FA9_9999_9999_999A;

/// Computes smoothed α and target bitrate from recent service-time samples.
#[derive(Debug, Clone, Copy)]
pub struct AlphaController {
    /// Target frame service time P.
    pub target_service_time: Duration,
    /// Latency percentile λ.
    pub latency_percentile: Binary64,
    /// EWMA smoothing factor.
    pub alpha_ewma: Binary64,
    /// Current smoothed α.
    pub alpha: Binary64,
}

/// Service time of a frame, normalized by how its target relates to the CC-Rate.
pub open spec fn normalized(sample: FrameServiceSample) -> Option<Binary64> {
    if sample.target_bitrate_bps == 0 {
        None
    } else {
        Some(
            product(
                seconds(sample.service_time),
                quotient(
                    whole_number(sample.cc_rate_bytes_per_sec as nat),
                    quotient(whole_number(sample.target_bitrate_bps as nat), whole_number(8)),
                ),
            ),
        )
    }
}

/// The normalized service times of the frames that had a target, in order.
pub open spec fn normalized_times(samples: Seq<FrameServiceSample>) -> Seq<Binary64>
    decreases samples.len(),
{
    if samples.len() == 0 {
        Seq::empty()
    } else {
        let rest = normalized_times(samples.drop_last());
        match normalized(samples.last()) {
            Some(v) => rest.push(v),
            None => rest,
        }
    }
}

/// The order of numbers without a sign, by their encodings.
pub open spec fn in_order(a: Binary64, b: Binary64) -> bool {
    a.bits <= b.bits
}

/// The values in increasing order.
pub open spec fn in_increasing_order(values: Seq<Binary64>) -> Seq<Binary64> {
    values.sort_by(|a: Binary64, b: Binary64| in_order(a, b))
}

/// The measured service time: the percentile of the normalized times, at least the spacing of
/// numbers at 1.
pub open spec fn measured_time(
    samples: Seq<FrameServiceSample>,
    latency_percentile: Binary64,
) -> Binary64 {
    larger(
        percentile(in_increasing_order(normalized_times(samples)), latency_percentile),
        signed(false, EPSILON_BITS as nat),
    )
}

/// α before smoothing: target over measured service time, held to [0.05, 1]. Without samples
/// it is 1.
pub open spec fn raw_alpha(
    samples: Seq<FrameServiceSample>,
    target_service_time: Duration,
    latency_percentile: Binary64,
) -> Binary64 {
    if normalized_times(samples).len() == 0 {
        signed(false, ONE_BITS as nat)
    } else {
        clamped(
            quotient(
                seconds(target_service_time),
                measured_time(samples, latency_percentile),
            ),
            signed(false, MIN_ALPHA_BITS as nat),
            signed(false, ONE_BITS as nat),
        )
    }
}

/// Exponentially weighted moving average.
pub open spec fn smoothed(prev: Binary64, next: Binary64, factor: Binary64) -> Binary64 {
    sum(
        product(prev, difference(signed(false, ONE_BITS as nat), factor)),
        product(next, factor),
    )
}

/// The encoder target `α · rate · 8`, rounded to a whole number of bits per second.
pub open spec fn target_bitrate(alpha: Binary64, rate: u64) -> u64 {
    rounded(product(product(alpha, whole_number(rate as nat)), whole_number(8)))
}

impl AlphaController {
    /// α after an update that takes the samples into account.
    pub open spec fn next_alpha(self, samples: Seq<FrameServiceSample>) -> Binary64 {
        smoothed(
            self.alpha,
            raw_alpha(samples, self.target_service_time, self.latency_percentile),
            self.alpha_ewma,
        )
    }

    /// The controller after an update.
    pub open spec fn updated(
        self,
        samples: Seq<FrameServiceSample>,
        pacing_rate: u64,
        paused: bool,
    ) -> AlphaController {
        if paused || pacing_rate == 0 {
            self
        } else {
            AlphaController { alpha: self.next_alpha(samples), ..self }
        }
    }

    /// The target bitrate that an update gives.
    pub open spec fn updated_target(
        self,
        samples: Seq<FrameServiceSample>,
        pacing_rate: u64,
        paused: bool,
    ) -> u64 {
        if paused || pacing_rate == 0 {
            0
        } else {
            target_bitrate(self.next_alpha(samples), pacing_rate)
        }
    }

    /// Creates an optimizer from configuration.
    #[must_use]
    pub fn new(config: &VidaptiveConfig) -> (c: Self)
        ensures
            c == (AlphaController {
                target_service_time: config.target_service_time,
                latency_percentile: config.latency_percentile,
                alpha_ewma: config.alpha_ewma,
                alpha: signed(false, ONE_BITS as nat),
            }),
    {
        AlphaController {
            target_service_time: config.target_service_time(),
            latency_percentile: config.latency_percentile(),
            alpha_ewma: config.alpha_ewma(),
            alpha: Binary64::from_bits(ONE_BITS),
        }
    }

    /// Current smoothed α.
    #[must_use]
    pub fn alpha(&self) -> (a: Binary64)
        ensures
            a == self.alpha,
    {
        self.alpha
    }

    /// Recomputes α from samples and returns `(alpha, target_bitrate_bps)`.
    pub fn update(&mut self, samples: &FrameTimingBuffer, pacing_rate: u64, paused: bool) -> (r: (
        Binary64,
        u64,
    ))
        requires
            samples.samples@.len() <= MAX_SAMPLES,
        ensures
            *final(self) == old(self).updated(samples.samples@, pacing_rate, paused),
            r.0 == final(self).alpha,
            r.1 == old(self).updated_target(samples.samples@, pacing_rate, paused),
    {
        if paused || pacing_rate == 0 {
            return (self.alpha, 0);
        }
        let raw: Binary64 = compute_alpha(
            samples,
            self.target_service_time,
            self.latency_percentile,
        );
        self.alpha = ewma(self.alpha, raw, self.alpha_ewma);
        let bits: Binary64 = self.alpha.times(Binary64::from_u64(pacing_rate)).times(
            Binary64::from_u64(8),
        );
        (self.alpha, bits.round_to_u64())
    }
}

/// α before smoothing.
pub fn compute_alpha(
    samples: &FrameTimingBuffer,
    target_service_time: Duration,
    latency_percentile: Binary64,
) -> (a: Binary64)
    requires
        samples.samples@.len() <= MAX_SAMPLES,
    ensures
        a == raw_alpha(samples.samples@, target_service_time, latency_percentile),
{
    let all: &[FrameServiceSample] = samples.iter();
    let mut values: Vec<Binary64> = Vec::new();
    let mut i: usize = 0;
    while i < all.len()
        invariant
            i <= all.len(),
            values@ == normalized_times(all@.take(i as int)),
            values.len() <= i,
        decreases all.len() - i,
    {
        proof {
            assert(all@.take(i + 1).drop_last() =~= all@.take(i as int));
            assert(all@.take(i + 1).last() == all@[i as int]);
        }
        if let Some(v) = normalized_service_time(&all[i]) {
            values.push(v);
        }
        i += 1;
    }
    assert(all@.take(i as int) =~= all@);
    if values.len() == 0 {
        return Binary64::from_bits(ONE_BITS);
    }
    let sorted: Vec<Binary64> = sort_values(&values);
    let p_secs: Binary64 = duration_secs(target_service_time);
    let x: Binary64 = percentile_linear(sorted.as_slice(), latency_percentile).max(
        Binary64::from_bits(EPSILON_BITS),
    );
    p_secs.over(x).clamp(Binary64::from_bits(MIN_ALPHA_BITS), Binary64::from_bits(ONE_BITS))
}

/// The encodings are totally ordered.
proof fn lemma_total_order()
    ensures
        total_ordering(|a: Binary64, b: Binary64| in_order(a, b)),
{
}

/// Sorts numbers without a sign in increasing order.
fn sort_values(values: &Vec<Binary64>) -> (sorted: Vec<Binary64>)
    ensures
        sorted@ == in_increasing_order(values@),
        sorted.len() == values.len(),
{
    let ghost order = |a: Binary64, b: Binary64| in_order(a, b);
    let mut sorted: Vec<Binary64> = Vec::new();
    let mut i: usize = 0;
    assert(values@.take(0) =~= sorted@);
    while i < values.len()
        invariant
            i <= values.len(),
            order == (|a: Binary64, b: Binary64| in_order(a, b)),
            sorted.len() == i,
            sorted_by(sorted@, order),
            sorted@.to_multiset() == values@.take(i as int).to_multiset(),
        decreases values.len() - i,
    {
        let v: Binary64 = values[i];
        let mut j: usize = sorted.len();
        while j > 0 && sorted[j - 1].bits > v.bits
            invariant
                j <= sorted.len(),
                forall|k: int| j <= k < sorted.len() ==> (#[trigger] sorted@[k]).bits > v.bits,
            decreases j,
        {
            j -= 1;
        }
        proof {
            let before = sorted@;
            let after = before.insert(j as int, v);
            assert forall|a: int, b: int| 0 <= a < b < after.len() implies #[trigger] order(
                after[a],
                after[b],
            ) by {
                if a < j && j > 0 {
                    assert(a == j - 1 || order(before[a], before[j - 1]));
                }
                let x: int = if a < j {
                    a
                } else {
                    a - 1
                };
                let y: int = if b < j {
                    b
                } else {
                    b - 1
                };
                if a != j && b != j {
                    assert(order(before[x], before[y]));
                }
            }
            broadcast use vstd::seq_lib::group_to_multiset_ensures;

            assert(values@.take(i + 1) =~= values@.take(i as int).push(v));
            assert(after.to_multiset() =~= before.to_multiset().insert(v));
        }
        sorted.insert(j, v);
        i += 1;
    }
    proof {
        assert(values@.take(i as int) =~= values@);
        lemma_total_order();
        values@.lemma_sort_by_ensures(order);
        vstd::seq_lib::lemma_sorted_unique(sorted@, values@.sort_by(order), order);
    }
    sorted
}

fn normalized_service_time(sample: &FrameServiceSample) -> (r: Option<Binary64>)
    ensures
        r == normalized(*sample),
{
    if sample.target_bitrate_bps == 0 {
        return None;
    }
    let di: Binary64 = duration_secs(sample.service_time);
    let tri: Binary64 = Binary64::from_u64(sample.target_bitrate_bps).over(Binary64::from_u64(8));
    let ratio: Binary64 = Binary64::from_u64(sample.cc_rate_bytes_per_sec).over(tri);
    Some(di.times(ratio))
}

fn duration_secs(d: Duration) -> (r: Binary64)
    ensures
        r == seconds(d),
{
    d.as_secs()
}

fn ewma(prev: Binary64, next: Binary64, factor: Binary64) -> (r: Binary64)
    ensures
        r == smoothed(prev, next, factor),
{
    let rest: Binary64 = Binary64::from_bits(ONE_BITS).minus(factor);
    prev.times(rest).plus(next.times(factor))
}

} // verus!
