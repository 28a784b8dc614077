//! Laws of the metrics: a percentile lies between its neighbours and grows with the rank, and
//! the video bitrate grows with the bytes.

use vstd::arithmetic::div_mod::*;
use vstd::arithmetic::mul::*;
use vstd::arithmetic::power2::*;
use vstd::prelude::*;

use super::frame_timing::recent_samples;
use super::percentile::{law_virtual_index_in_range, percentile, virtual_index, MAX_SAMPLES};
use super::video_bitrate::{bitrate, in_window, window_bytes, ByteSample};
use crate::binary64::laws::{
    law_nearest_exact, law_nearest_monotone, law_one, law_representable, law_scaled_down,
    law_small_integers_exact, lemma_at_most_power, lemma_pred, lemma_steps_of, lemma_steps_ordered,
};
use crate::binary64::rounding::{
    lemma_div_scale, lemma_nearest_cross, nearest, BINADE, INFINITY_BITS, ONE_BITS,
};
use crate::binary64::{
    at_most, clamped, difference, lemma_steps_increase, less, product, quotient, signed, steps, sum,
    truncated, truncated_up, unit_steps, whole_number, Binary64,
};
use crate::time::{seconds, Duration, Instant};
use crate::types::FrameServiceSample;

verus! {

/// Whether a value is a finite number without a sign.
pub open spec fn measured(v: Binary64) -> bool {
    !v.negative() && v.finite()
}

/// Whether the values are finite numbers without a sign, in increasing order.
pub open spec fn ranked(values: Seq<Binary64>) -> bool {
    &&& forall|i: int| 0 <= i < values.len() ==> measured(#[trigger] values[i])
    &&& forall|i: int, j: int|
        0 <= i <= j < values.len() ==> (#[trigger] values[i]).code() <= (
        #[trigger] values[j]).code()
}

/// Differences of up to 53 digits are exact.
proof fn lemma_small_difference(v: nat)
    requires
        v < 2 * BINADE,
    ensures
        nearest(v, 1) == v,
        steps(v) == v,
{
    lemma2_to64();
    law_representable(v, 0);
    assert(v * pow2(0) == v);
    lemma_steps_of(0, v);
    law_nearest_exact(v);
}

/// A share of less than the whole of a rounded difference is within the difference.
proof fn lemma_share(gap: nat, share: nat)
    requires
        nearest(gap, 1) < INFINITY_BITS,
        share < ONE_BITS,
    ensures
        nearest(steps(share) * steps(nearest(gap, 1)), unit_steps()) < INFINITY_BITS,
        steps(nearest(steps(share) * steps(nearest(gap, 1)), unit_steps())) <= gap,
{
    let u: nat = unit_steps();
    let d: nat = nearest(gap, 1);
    let sd: nat = steps(d);
    let ss: nat = steps(share);
    lemma_pow2_pos(1074);
    law_scaled_down(signed(false, d), signed(false, share));
    lemma_mul_is_commutative(ss as int, sd as int);
    let t: nat = nearest(ss * sd, u);
    assert(t <= d);
    lemma_steps_ordered(t, d);
    if sd > gap {
        // The difference was rounded up, so it has more than 53 digits.
        if gap < 2 * BINADE {
            lemma_small_difference(gap);
        }
        lemma_small_difference((2 * BINADE - 1) as nat);
        law_nearest_monotone((2 * BINADE - 1) as nat, 1, gap, 1);
        if d < 2 * BINADE {
            lemma_small_difference(d);
        }
        // The number below it is within the difference.
        let below: nat = (d - 1) as nat;
        if steps(below) > gap {
            law_nearest_monotone(gap, 1, steps(below), 1);
            law_nearest_exact(below);
        }
        // The share is at most 1 - 2^-53.
        let top: nat = 0x1F_FFFF_FFFF_FFFF;
        let den: nat = 0x20_0000_0000_0000;
        lemma2_to64();
        lemma2_to64_rest();
        lemma_steps_ordered(share, (ONE_BITS - 1) as nat);
        assert((ONE_BITS - 1) as nat == 1021 * BINADE as nat + top);
        lemma_steps_of(1021, top);
        lemma_pow2_adds(53, 1021);
        let p: nat = pow2(1021);
        assert((ss * sd) * den <= (sd * top) * u) by (nonlinear_arith)
            requires
                ss <= top * p,
                u == den * p,
        ;
        law_nearest_monotone(ss * sd, u, sd * top, den);
        lemma_pred(d);
        lemma_steps_ordered(t, below);
    }
}

/// Linear interpolation with a share in [0, 1) stays between its two ends, however the steps
/// are rounded.
pub proof fn law_interpolation_between(low: Binary64, high: Binary64, share: Binary64)
    requires
        measured(low),
        measured(high),
        low.code() <= high.code(),
        !share.negative(),
        share.code() < ONE_BITS,
    ensures
        measured(sum(low, product(share, difference(high, low)))),
        low.code() <= sum(low, product(share, difference(high, low))).code() <= high.code(),
{
    let u: nat = unit_steps();
    lemma_pow2_pos(1074);
    let gap = difference(high, low);
    lemma_steps_ordered(low.code(), high.code());
    law_nearest_exact(low.code());
    law_nearest_exact(high.code());
    let g: nat = (high.size() - low.size()) as nat;
    if g > 0 {
        law_nearest_monotone(g, 1, high.size(), 1);
        assert(gap == signed(false, nearest(g, 1)));
        lemma_share(g, share.code());
    } else {
        law_nearest_exact(0);
        assert(gap == signed(false, 0));
        assert(share.size() * 0 == 0);
        lemma_nearest_cross(0, u, 0, 1);
    }
    let part = product(share, gap);
    assert(measured(part));
    assert(part.size() <= g);
    let v: nat = low.size() + part.size();
    law_nearest_monotone(low.size(), 1, v, 1);
    law_nearest_monotone(v, 1, high.size(), 1);
}

/// What is left of a number after whole units is a number.
proof fn lemma_remainder(code: nat)
    requires
        code < INFINITY_BITS,
    ensures
        nearest(steps(code) % unit_steps(), 1) < INFINITY_BITS,
        steps(nearest(steps(code) % unit_steps(), 1)) == steps(code) % unit_steps(),
{
    let u: nat = unit_steps();
    let w: nat = BINADE as nat;
    lemma_pow2_pos(1074);
    lemma2_to64();
    lemma2_to64_rest();
    let r: nat = steps(code) % u;
    if code < w {
        lemma_pow2_strictly_increases(52, 1074);
        lemma_small_mod(code, u);
        law_representable(code, 0);
        assert(code * pow2(0) == code);
    } else {
        let k: nat = (code / w - 1) as nat;
        let m: nat = w + code % w;
        let s: nat = steps(code);
        lemma_pow2_pos(k);
        if k >= 1074 {
            let t: nat = (k - 1074) as nat;
            lemma_pow2_adds(t, 1074);
            let q: nat = m * pow2(t);
            assert(s == q * u + 0) by (nonlinear_arith)
                requires
                    s == m * pow2(k),
                    pow2(k) == pow2(t) * u,
                    q == m * pow2(t),
            ;
            lemma_fundamental_div_mod_converse(s as int, u as int, q as int, 0);
            law_representable(0, 0);
            assert(0 * pow2(0) == 0);
        } else {
            let t: nat = (1074 - k) as nat;
            lemma_pow2_adds(t, k);
            lemma_pow2_pos(t);
            lemma_div_scale(m, pow2(t), pow2(k));
            let left: nat = m % pow2(t);
            lemma_mod_decreases(m, pow2(t));
            law_representable(left, k);
        }
    }
}

/// Where a virtual index lies: its neighbours, and its distance from the lower one.
proof fn lemma_position(n: nat, p: Binary64)
    requires
        1 <= n <= MAX_SAMPLES,
        !p.nan(),
    ensures
        ({
            let index = virtual_index(n, p);
            let lower: nat = truncated(index) as nat;
            let share = difference(index, whole_number(lower));
            &&& index.finite()
            &&& index.negative() ==> index.code() == 0
            &&& lower == index.size() / unit_steps()
            &&& truncated_up(index) == lower + (if index.size() % unit_steps() == 0 {
                0int
            } else {
                1int
            })
            &&& truncated_up(index) <= n - 1
            &&& index.size() % unit_steps() > 0 ==> {
                &&& measured(share)
                &&& share.size() == index.size() % unit_steps()
                &&& share.code() < ONE_BITS
            }
        }),
{
    let u: nat = unit_steps();
    let index = virtual_index(n, p);
    let top = whole_number((n - 1) as nat);
    let q = clamped(p, signed(false, 0), signed(false, ONE_BITS as nat));
    lemma_pow2_pos(1074);
    law_small_integers_exact((n - 1) as nat);
    law_virtual_index_in_range(n, p);
    law_scaled_down(top, q);
    let s: nat = index.size();
    if index.negative() {
        assert(q.code() == 0);
        assert(top.size() * 0 == 0);
        lemma_nearest_cross(0, u, 0, 1);
        law_nearest_exact(0);
        lemma_small_mod(0, u);
        lemma_fundamental_div_mod_converse(0, u as int, 0, 0);
    } else {
        lemma_fundamental_div_mod(s as int, u as int);
        let lower: nat = s / u;
        let r: nat = s % u;
        assert(lower <= n - 1) by (nonlinear_arith)
            requires
                s == u * lower + r,
                s <= (n - 1) * u,
                u > 0,
                r >= 0,
        ;
        law_small_integers_exact(lower);
        lemma_mul_is_commutative(lower as int, u as int);
        lemma_remainder(index.code());
        law_one();
        let share = difference(index, whole_number(lower));
        if r > 0 {
            assert(share == signed(false, nearest(r, 1)));
            if share.code() >= ONE_BITS {
                lemma_steps_ordered(ONE_BITS as nat, share.code());
            }
        }
    }
}

/// A percentile lies between the samples next to its virtual index.
pub proof fn law_percentile_between(values: Seq<Binary64>, p: Binary64)
    requires
        1 <= values.len() <= MAX_SAMPLES,
        ranked(values),
        !p.nan(),
    ensures
        measured(percentile(values, p)),
        ({
            let index = virtual_index(values.len(), p);
            values[truncated(index) as int].code() <= percentile(values, p).code()
                <= values[truncated_up(index) as int].code()
        }),
{
    let n: nat = values.len();
    let index = virtual_index(n, p);
    lemma_position(n, p);
    let lower: int = truncated(index) as int;
    let upper: int = truncated_up(index) as int;
    if lower != upper {
        lemma_pow2_pos(1074);
        lemma_mod_bound(index.size() as int, unit_steps() as int);
        law_interpolation_between(
            values[lower],
            values[upper],
            difference(index, whole_number(lower as nat)),
        );
    }
}

/// The percentile at rank `p` of `n` samples is the one at position `(n - 1) · p`, with `p` held
/// to [0, 1]; between two positions it is interpolated linearly.
pub proof fn law_percentile_formula(values: Seq<Binary64>, p: Binary64)
    requires
        2 <= values.len() <= MAX_SAMPLES,
        !p.nan(),
    ensures
        ({
            let zero = Binary64 { bits: 0 };
            let one = Binary64 { bits: 0x3FF0_0000_0000_0000 };
            let rank = if less(p, zero) {
                zero
            } else if less(one, p) {
                one
            } else {
                p
            };
            let position = product(whole_number((values.len() - 1) as nat), rank);
            let below: int = position.size() as int / unit_steps() as int;
            let whole = position.size() as int % unit_steps() as int == 0;
            let low = values[below];
            let high = values[below + 1];
            &&& whole ==> percentile(values, p) == low
            &&& !whole ==> percentile(values, p) == sum(
                low,
                product(
                    difference(position, whole_number(below as nat)),
                    difference(high, low),
                ),
            )
        }),
{
    lemma_pow2_pos(1074);
    lemma_position(values.len(), p);
}

/// The percentile of equal samples is that sample.
pub proof fn law_percentile_of_equal_samples(values: Seq<Binary64>, p: Binary64)
    requires
        1 <= values.len() <= MAX_SAMPLES,
        measured(values[0]),
        forall|i: int| 0 <= i < values.len() ==> #[trigger] values[i] == values[0],
        !p.nan(),
    ensures
        percentile(values, p) == values[0],
{
    law_percentile_between(values, p);
    law_virtual_index_in_range(values.len(), p);
}

/// A higher percentile is not a smaller value.
pub proof fn law_percentile_grows(values: Seq<Binary64>, p1: Binary64, p2: Binary64)
    requires
        1 <= values.len() <= MAX_SAMPLES,
        ranked(values),
        at_most(p1, p2),
    ensures
        at_most(percentile(values, p1), percentile(values, p2)),
{
    let u: nat = unit_steps();
    let n: nat = values.len();
    let zero = signed(false, 0);
    let one = signed(false, ONE_BITS as nat);
    let top = whole_number((n - 1) as nat);
    let q1 = clamped(p1, zero, one);
    let q2 = clamped(p2, zero, one);
    let i1 = virtual_index(n, p1);
    let i2 = virtual_index(n, p2);
    lemma_pow2_pos(1074);
    lemma_position(n, p1);
    lemma_position(n, p2);
    law_percentile_between(values, p1);
    law_percentile_between(values, p2);
    law_small_integers_exact((n - 1) as nat);
    assert(q1.code() <= q2.code());
    lemma_steps_ordered(q1.code(), q2.code());
    assert((top.size() * q1.size()) * u <= (top.size() * q2.size()) * u) by (nonlinear_arith)
        requires
            q1.size() <= q2.size(),
    ;
    law_nearest_monotone(top.size() * q1.size(), u, top.size() * q2.size(), u);
    assert(i1.code() <= i2.code());
    lemma_steps_ordered(i1.code(), i2.code());
    lemma_div_is_ordered(i1.size() as int, i2.size() as int, u as int);
    lemma_fundamental_div_mod(i1.size() as int, u as int);
    lemma_fundamental_div_mod(i2.size() as int, u as int);
    let lower1: int = truncated(i1) as int;
    let lower2: int = truncated(i2) as int;
    let upper1: int = truncated_up(i1) as int;
    let upper2: int = truncated_up(i2) as int;
    if lower1 < lower2 {
        assert(values[upper1].code() <= values[lower2].code());
    } else if lower1 != upper1 {
        // Both lie between the same two samples.
        let s1 = difference(i1, whole_number(lower1 as nat));
        let s2 = difference(i2, whole_number(lower2 as nat));
        let low = values[lower1];
        let high = values[upper1];
        let gap = difference(high, low);
        assert(upper2 == upper1);
        if s1.code() > s2.code() {
            lemma_steps_increase(s2.code(), s1.code());
        }
        lemma_steps_ordered(s1.code(), s2.code());
        lemma_steps_ordered(low.code(), high.code());
        law_nearest_exact(high.code());
        let g: nat = (high.size() - low.size()) as nat;
        law_nearest_monotone(g, 1, high.size(), 1);
        law_nearest_exact(0);
        assert(measured(gap));
        law_scaled_down(gap, s1);
        law_scaled_down(gap, s2);
        lemma_mul_is_commutative(gap.size() as int, s1.size() as int);
        lemma_mul_is_commutative(gap.size() as int, s2.size() as int);
        assert((s1.size() * gap.size()) * u <= (s2.size() * gap.size()) * u) by (nonlinear_arith)
            requires
                s1.size() <= s2.size(),
        ;
        law_nearest_monotone(s1.size() * gap.size(), u, s2.size() * gap.size(), u);
        let t1 = product(s1, gap);
        let t2 = product(s2, gap);
        lemma_steps_ordered(t1.code(), t2.code());
        law_nearest_monotone(low.size() + t1.size(), 1, low.size() + t2.size(), 1);
    } else {
        assert(values[lower1].code() <= percentile(values, p2).code());
    }
}

/// No bytes are no bitrate.
pub proof fn law_no_bytes_no_bitrate(window: Duration)
    ensures
        bitrate(0, window) == 0,
{
    let u: nat = unit_steps();
    let secs = seconds(window);
    lemma_pow2_pos(1074);
    law_small_integers_exact(0);
    law_small_integers_exact(8);
    assert(0 * u == 0 && 0 * (8 * u) == 0);
    law_nearest_exact(0);
    lemma_nearest_cross(0, u, 0, 1);
    let zero = whole_number(0);
    assert(zero.code() == 0) by {
        if zero.code() > 0 {
            lemma_steps_increase(0, zero.code());
        }
    }
    let bits = product(zero, whole_number(8));
    assert(bits.code() == 0);
    if secs.finite() && secs.code() > 0 {
        lemma_steps_increase(0, secs.code());
        lemma_nearest_cross(0, secs.size(), 0, 1);
    }
    lemma_fundamental_div_mod_converse(0, u as int, 0, 0);
}

/// More bytes in the same window are no smaller bitrate.
pub proof fn law_bitrate_grows(b1: nat, b2: nat, window: Duration)
    requires
        b1 <= b2 <= u64::MAX,
    ensures
        bitrate(b1, window) <= bitrate(b2, window),
{
    let u: nat = unit_steps();
    let secs = seconds(window);
    let w1 = whole_number(b1);
    let w2 = whole_number(b2);
    let eight = whole_number(8);
    lemma_pow2_pos(1074);
    lemma2_to64();
    lemma2_to64_rest();
    law_small_integers_exact(8);
    lemma_pow2_adds(64, 1074);
    lemma_pow2_adds(3, 1138);
    assert(b1 * u <= b2 * u && b2 * u <= pow2(1138)) by (nonlinear_arith)
        requires
            b1 <= b2,
            b2 <= u64::MAX,
            pow2(1138) == 0x1_0000_0000_0000_0000 * u,
    ;
    law_nearest_monotone(b1 * u, 1, b2 * u, 1);
    lemma_at_most_power(b1 * u, 1, 1087);
    lemma_at_most_power(b2 * u, 1, 1087);
    lemma_steps_ordered(w1.code(), w2.code());
    let n1: nat = w1.size() * (8 * u);
    let n2: nat = w2.size() * (8 * u);
    assert(n1 * u <= n2 * u && n1 <= pow2(1141) * u && n2 <= pow2(1141) * u) by (nonlinear_arith)
        requires
            n1 == w1.size() * (8 * u),
            n2 == w2.size() * (8 * u),
            w1.size() <= w2.size(),
            w2.size() <= pow2(1138),
            pow2(1141) == 8 * pow2(1138),
    ;
    law_nearest_monotone(n1, u, n2, u);
    lemma_at_most_power(n1, u, 1090);
    lemma_at_most_power(n2, u, 1090);
    let t1 = product(w1, eight);
    let t2 = product(w2, eight);
    lemma_steps_ordered(t1.code(), t2.code());
    if secs.finite() && secs.code() > 0 {
        lemma_steps_increase(0, secs.code());
        assert((t1.size() * u) * secs.size() <= (t2.size() * u) * secs.size())
            by (nonlinear_arith)
            requires
                t1.size() <= t2.size(),
        ;
        law_nearest_monotone(t1.size() * u, secs.size(), t2.size() * u, secs.size());
        let q1 = quotient(t1, secs);
        let q2 = quotient(t2, secs);
        lemma_steps_ordered(q1.code(), q2.code());
        lemma_div_is_ordered(q1.size() as int, q2.size() as int, u as int);
    }
}

/// The bytes in a window are those of the samples that are not older than it, each counted
/// once, whatever their order.
pub proof fn law_window_counts_each_sample(
    samples: Seq<ByteSample>,
    added: ByteSample,
    now: Instant,
    window: Duration,
)
    ensures
        window_bytes(Seq::empty(), now, window) == 0,
        added.at@ >= now@ - window.nanos ==> window_bytes(samples.push(added), now, window)
            == window_bytes(samples, now, window) + added.bytes,
        added.at@ < now@ - window.nanos ==> window_bytes(samples.push(added), now, window)
            == window_bytes(samples, now, window),
{
    assert(samples.push(added).drop_last() =~= samples);
    assert(samples.push(added).last() == added);
}

/// The bitrate is eight bits per byte over the length of the window in seconds, rounded down; a
/// window of no length has none.
pub proof fn law_bitrate_is_bits_per_second(bytes: nat, window: Duration)
    ensures
        at_most(seconds(window), Binary64 { bits: 0x3CB0_0000_0000_0000 }) ==> bitrate(
            bytes,
            window,
        ) == 0,
        !at_most(seconds(window), Binary64 { bits: 0x3CB0_0000_0000_0000 }) ==> bitrate(
            bytes,
            window,
        ) == truncated(
            quotient(product(whole_number(bytes), whole_number(8)), seconds(window)),
        ),
{
}

/// What is kept of the service-time samples is exactly those not older than the window, in
/// their order.
pub proof fn law_recent_samples(
    samples: Seq<FrameServiceSample>,
    added: FrameServiceSample,
    now: Instant,
    window: Duration,
)
    ensures
        recent_samples(Seq::empty(), now, window) == Seq::<FrameServiceSample>::empty(),
        added.at@ >= now@ - window.nanos ==> recent_samples(samples.push(added), now, window)
            == recent_samples(samples, now, window).push(added),
        added.at@ < now@ - window.nanos ==> recent_samples(samples.push(added), now, window)
            == recent_samples(samples, now, window),
{
    reveal(Seq::filter);
    assert(samples.push(added).drop_last() =~= samples);
    assert(samples.push(added).last() == added);
    assert(recent_samples(Seq::empty(), now, window) =~= Seq::<FrameServiceSample>::empty());
}

/// Eviction never changes a measurement at or after its own time: what it drops would not
/// have counted.
pub proof fn law_eviction_keeps_later_bitrates(
    samples: Seq<ByteSample>,
    now: Instant,
    later: Instant,
    window: Duration,
)
    requires
        later@ >= now@,
    ensures
        ({
            let kept = samples.filter(|s: ByteSample| in_window(s, now, window));
            &&& window_bytes(kept, later, window) == window_bytes(samples, later, window)
            &&& bitrate(window_bytes(kept, later, window), window) == bitrate(
                window_bytes(samples, later, window),
                window,
            )
        }),
    decreases samples.len(),
{
    reveal(Seq::filter);
    if samples.len() > 0 {
        let recent = |s: ByteSample| in_window(s, now, window);
        law_eviction_keeps_later_bitrates(samples.drop_last(), now, later, window);
        let rest = samples.drop_last().filter(recent);
        if recent(samples.last()) {
            assert(rest.push(samples.last()).drop_last() =~= rest);
        }
    }
}

} // verus!
