//! Laws of the α optimizer: the range of α, the size of the target, and the direction in
//! which the tunables move it.

use vstd::arithmetic::div_mod::*;
use vstd::arithmetic::mul::*;
use vstd::arithmetic::power2::*;
use vstd::prelude::*;

use super::alpha::{
    in_increasing_order, in_order, measured_time, normalized, normalized_times, raw_alpha, smoothed,
    target_bitrate, AlphaController, MIN_ALPHA_BITS,
};
use crate::binary64::laws::{
    law_nearest_exact, law_nearest_monotone, law_one, law_powers, law_representable,
    law_rounding_error, law_scaled_down, law_small_integers_exact, lemma_at_most_power,
    lemma_exact_form, lemma_kept, lemma_steps_of, lemma_steps_ordered,
};
use crate::binary64::rounding::{
    bit_len, half_even, lemma_bit_len_bounds, lemma_bit_len_unique, lemma_half_even_scale,
    lemma_nearest_cross, lemma_pow2_monotone, lemma_wide, nearest, BINADE, INFINITY_BITS, ONE_BITS,
};
use crate::binary64::{
    at_most, difference, larger, lemma_steps_increase, less, product, quotient, rounded, signed,
    steps, sum, truncated_up, unit_steps, whole_number, Binary64,
};
use crate::config::{ewma_ok, VidaptiveConfig};
use crate::metrics::laws::{law_percentile_between, law_percentile_grows, measured, ranked};
use crate::metrics::percentile::{
    law_virtual_index_in_range, percentile, virtual_index, MAX_SAMPLES,
};
use crate::metrics::video_bitrate::EPSILON_BITS;
use crate::time::{fraction_seconds, seconds, Duration, NANOS_PER_SEC};
use crate::types::FrameServiceSample;

verus! {

/// Encoding of 1/32, below which α never falls.
pub const ALPHA_FLOOR_BITS: u64 = 0x3FA0_0000_0000_0000;

/// Whether α is a number in [1/32, 1].
pub open spec fn alpha_ok(a: Binary64) -> bool {
    !a.negative() && ALPHA_FLOOR_BITS <= a.code() <= ONE_BITS
}

/// A 32nd of a number above the finest scale is a number.
proof fn lemma_thirty_second(code: nat)
    requires
        6 * BINADE <= code < INFINITY_BITS,
    ensures
        nearest(steps(code), 32) == code - 5 * BINADE,
        32 * steps((code - 5 * BINADE) as nat) == steps(code),
{
    let w: nat = BINADE as nat;
    let k: nat = (code / w - 1) as nat;
    let m: nat = w + code % w;
    let t: nat = (k - 5) as nat;
    lemma2_to64();
    lemma_fundamental_div_mod(code as int, w as int);
    lemma_pow2_adds(5, t);
    assert(code == k * w + m && code - 5 * w == t * w + m) by (nonlinear_arith)
        requires
            code == w * (k + 1) + code % w,
            m == w + code % w,
            t == k - 5,
    ;
    lemma_steps_of(k, m);
    lemma_steps_of(t, m);
    lemma_exact_form(m, t);
    assert(steps(code) * 1 == (m * pow2(t)) * 32 && steps(code) == 32 * (m * pow2(t)))
        by (nonlinear_arith)
        requires
            steps(code) == m * pow2(k),
            pow2(k) == 32 * pow2(t),
    ;
    lemma_nearest_cross(steps(code), 32, m * pow2(t), 1);
}

/// The complement of a factor in (0, 1), rounded.
proof fn lemma_complement(f: nat)
    requires
        0 < f <= ONE_BITS,
    ensures
        steps(f) <= unit_steps(),
        f == ONE_BITS <==> steps(f) == unit_steps(),
        f < ONE_BITS ==> {
            let g: nat = nearest((unit_steps() - steps(f)) as nat, 1);
            &&& 6 * BINADE <= g < INFINITY_BITS
            &&& steps(g) + steps(f) <= unit_steps() + pow2(1020)
            &&& unit_steps() <= steps(g) + steps(f) + pow2(1020)
        },
        f < 6 * BINADE ==> nearest((unit_steps() - steps(f)) as nat, 1) == ONE_BITS,
{
    let u: nat = unit_steps();
    law_one();
    lemma_steps_ordered(f, ONE_BITS as nat);
    if f < ONE_BITS {
        lemma_steps_increase(f, ONE_BITS as nat);
        let v: nat = (u - steps(f)) as nat;
        // The largest number below one is 2^1021 steps away from it.
        let below: nat = (ONE_BITS - 1) as nat;
        lemma_steps_ordered(f, below);
        lemma2_to64();
        lemma2_to64_rest();
        lemma_pow2_adds(53, 1021);
        assert(below == 1021 * BINADE as nat + 0x1F_FFFF_FFFF_FFFF);
        lemma_steps_of(1021, 0x1F_FFFF_FFFF_FFFF);
        let p: nat = pow2(1021);
        assert(0x1F_FFFF_FFFF_FFFF * p == u - p) by (nonlinear_arith)
            requires
                u == 0x20_0000_0000_0000 * p,
        ;
        assert(v >= p);
        law_powers(970);
        law_nearest_monotone(p, 1, v, 1);
        lemma_steps_increase(0, f);
        law_rounding_error(v, 1021);
        if f < 6 * BINADE {
            let w: nat = BINADE as nat;
            lemma_steps_increase(f, 6 * w);
            law_powers(6);
            lemma_half_spacing();
            // One less a trifle rounds to one.
            let least: nat = (u - pow2(57)) as nat;
            lemma_just_below(least);
            law_nearest_monotone(least, 1, v, 1);
            law_nearest_monotone(v, 1, u, 1);
            law_nearest_exact(ONE_BITS as nat);
        }
    }
}

/// Half the spacing below one is far more than 2^57 steps.
proof fn lemma_half_spacing()
    ensures
        pow2(57) <= pow2(1020),
        pow2(1020) < pow2(1074),
{
    lemma_pow2_strictly_increases(57, 1020);
    lemma_pow2_strictly_increases(1020, 1074);
}

/// What is short of one by at most half the spacing below it rounds to one.
proof fn lemma_just_below(v: nat)
    requires
        v <= unit_steps() <= v + pow2(1020),
    ensures
        nearest(v, 1) >= ONE_BITS,
{
    let u: nat = unit_steps();
    let h: nat = pow2(1020);
    let top: nat = 0x3F_FFFF_FFFF_FFFF;
    lemma2_to64();
    lemma2_to64_rest();
    lemma_pow2_adds(54, 1020);
    lemma_pow2_adds(53, 1020);
    lemma_pow2_unfold(1021);
    let least: nat = (u - h) as nat;
    assert(least == top * h) by (nonlinear_arith)
        requires
            least == u - h,
            u == 0x40_0000_0000_0000 * h,
            top == 0x3F_FFFF_FFFF_FFFF,
    ;
    lemma_pow2_pos(1020);
    assert(pow2(1073) <= least && least < pow2(1074)) by (nonlinear_arith)
        requires
            least == top * h,
            top == 0x3F_FFFF_FFFF_FFFF,
            pow2(1073) == 0x20_0000_0000_0000 * h,
            pow2(1074) == 0x40_0000_0000_0000 * h,
            h > 0,
    ;
    lemma_bit_len_unique(least, 1074);
    assert(least / 1 == least);
    let d: nat = pow2(1021);
    assert(1 * d == d);
    assert(least == 0x1F_FFFF_FFFF_FFFF * d + h) by (nonlinear_arith)
        requires
            least == top * h,
            top == 0x3F_FFFF_FFFF_FFFF,
            d == 2 * h,
    ;
    lemma_fundamental_div_mod_converse(least as int, d as int, 0x1F_FFFF_FFFF_FFFF, h as int);
    assert(half_even(least, d) == 0x20_0000_0000_0000);
    assert(1021 * BINADE as nat + 0x20_0000_0000_0000 == ONE_BITS);
    law_nearest_monotone(least, 1, v, 1);
}

/// What is beyond one by at most half the spacing below it rounds to one.
proof fn lemma_just_above(v: nat)
    requires
        v <= unit_steps() + pow2(1020),
    ensures
        nearest(v, 1) <= ONE_BITS,
{
    let u: nat = unit_steps();
    let h: nat = pow2(1020);
    lemma2_to64();
    lemma2_to64_rest();
    lemma_pow2_adds(54, 1020);
    lemma_pow2_unfold(1021);
    lemma_pow2_unfold(1022);
    lemma_pow2_unfold(1075);
    lemma_pow2_pos(1020);
    let most: nat = u + h;
    assert(pow2(1074) <= most && most < pow2(1075));
    lemma_bit_len_unique(most, 1075);
    assert(most / 1 == most);
    let d: nat = pow2(1022);
    assert(1 * d == d);
    assert(most == 0x10_0000_0000_0000 * d + h) by (nonlinear_arith)
        requires
            most == u + h,
            u == 0x40_0000_0000_0000 * h,
            d == 4 * h,
    ;
    lemma_fundamental_div_mod_converse(most as int, d as int, 0x10_0000_0000_0000, h as int);
    assert(half_even(most, d) == 0x10_0000_0000_0000);
    assert(1022 * BINADE as nat + 0x10_0000_0000_0000 == ONE_BITS);
    law_nearest_monotone(v, 1, most, 1);
}

/// A large number and 32 times it round alike.
proof fn lemma_thirty_two_fold(v: nat)
    requires
        pow2(53) <= v <= pow2(1074),
    ensures
        nearest(32 * v, 1) == nearest(v, 1) + 5 * BINADE,
{
    lemma2_to64();
    lemma2_to64_rest();
    lemma_bit_len_bounds(v);
    let l: nat = bit_len(v);
    if l < 54 {
        lemma_pow2_monotone(l, 53);
    }
    lemma_pow2_adds(5, (l - 1) as nat);
    lemma_pow2_adds(5, l);
    lemma_bit_len_unique(32 * v, l + 5);
    assert(v / 1 == v && (32 * v) / 1 == 32 * v);
    let e: nat = (l - 53) as nat;
    lemma_pow2_adds(5, e);
    lemma_pow2_pos(e);
    lemma_half_even_scale(v, pow2(e), 32);
    assert(1 * pow2(e) == pow2(e) && 1 * pow2(e + 5) == pow2(e + 5));
    assert(v * 32 == 32 * v && pow2(e) * 32 == pow2(e + 5));
    lemma_kept(v, 1);
    if l > 1075 {
        lemma_pow2_monotone(1075, (l - 1) as nat);
        lemma_pow2_unfold(1075);
        lemma_pow2_pos(1074);
    }
    let w: nat = BINADE as nat;
    let h: nat = half_even(v, pow2(e));
    assert((e + 5) * w == e * w + 5 * w) by (nonlinear_arith);
    assert(e * w + h + 5 * w < INFINITY_BITS) by (nonlinear_arith)
        requires
            e <= 1022,
            h <= 2 * w,
            w == 0x10_0000_0000_0000,
            INFINITY_BITS == 0x7FF0_0000_0000_0000u64,
    ;
}

/// A factor of at least 1/32 leaves at least a 32nd.
proof fn lemma_at_least_thirty_second(a: Binary64, b: Binary64)
    requires
        alpha_ok(a),
        !b.negative(),
        b.code() == 0 || 6 * BINADE <= b.code() < INFINITY_BITS,
    ensures
        product(a, b).finite(),
        !product(a, b).negative(),
        32 * product(a, b).size() >= b.size(),
        product(a, b).size() <= b.size(),
{
    let u: nat = unit_steps();
    lemma_pow2_pos(1074);
    lemma_mul_is_commutative(a.size() as int, b.size() as int);
    law_scaled_down(b, a);
    if b.code() > 0 {
        let low: nat = ALPHA_FLOOR_BITS as nat;
        law_powers(1018);
        assert(low == 1018 * BINADE as nat);
        lemma_steps_ordered(low, a.code());
        lemma2_to64();
        lemma_pow2_adds(5, 1069);
        let p: nat = pow2(1069);
        assert(b.size() * u <= (a.size() * b.size()) * 32) by (nonlinear_arith)
            requires
                a.size() >= p,
                u == 32 * p,
        ;
        law_nearest_monotone(b.size(), 32, a.size() * b.size(), u);
        lemma_thirty_second(b.code());
        lemma_steps_ordered((b.code() - 5 * BINADE) as nat, product(a, b).code());
    }
}

/// The moving average of two values in [1/32, 1] stays there, whatever is rounded.
pub proof fn law_smoothing_stays_in_range(prev: Binary64, next: Binary64, factor: Binary64)
    requires
        alpha_ok(prev),
        alpha_ok(next),
        ewma_ok(factor),
    ensures
        alpha_ok(smoothed(prev, next, factor)),
{
    let u: nat = unit_steps();
    let one = signed(false, ONE_BITS as nat);
    let rest = difference(one, factor);
    lemma_pow2_pos(1074);
    law_one();
    law_nearest_exact(ONE_BITS as nat);
    law_nearest_exact(prev.code());
    lemma2_to64();
    if factor.code() == 0 {
        law_nearest_exact(0);
        assert(rest == one);
        lemma_nearest_cross(prev.size() * u, u, prev.size(), 1);
        assert(product(prev, rest).code() == prev.code());
        assert(next.size() * 0 == 0);
        lemma_nearest_cross(0, u, 0, 1);
        assert(product(next, factor).code() == 0);
        lemma_steps_increase(0, prev.code());
    } else {
        let sf: nat = factor.size();
        lemma_complement(factor.code());
        let a = product(prev, rest);
        let b = product(next, factor);
        let v: nat = a.size() + b.size();
        lemma_at_least_thirty_second(prev, rest);
        law_scaled_down(factor, next);
        lemma_mul_is_commutative(next.size() as int, sf as int);
        lemma_just_above(v);
        lemma_half_spacing();
        let bound: nat = pow2(1020);
        if factor.code() >= 6 * BINADE {
            lemma_at_least_thirty_second(next, factor);
        }
        assert(32 * v + bound >= u);
        lemma_pow2_adds(5, 1069);
        lemma_pow2_strictly_increases(54, 1020);
        lemma_pow2_strictly_increases(53, 54);
        lemma_pow2_strictly_increases(1069, 1074);
        lemma_pow2_adds(54, 1020);
        lemma2_to64_rest();
        assert(v <= 2 * u);
        let low: nat = ALPHA_FLOOR_BITS as nat;
        if 32 * v >= u {
            law_powers(1018);
            assert(low == 1018 * BINADE as nat);
            law_nearest_monotone(pow2(1069), 1, v, 1);
        } else {
            lemma_just_below(32 * v);
            assert(v >= pow2(53)) by (nonlinear_arith)
                requires
                    32 * v + bound >= u,
                    u == 0x40_0000_0000_0000 * bound,
                    bound >= pow2(54),
                    pow2(54) == 2 * pow2(53),
            ;
            lemma_thirty_two_fold(v);
        }
    }
}

/// A whole number of up to 128 digits is below 2^128.
proof fn lemma_whole_number_bound(n: nat, j: nat)
    requires
        n <= pow2(j),
        j <= 128,
    ensures
        !whole_number(n).negative(),
        whole_number(n).finite(),
        whole_number(n).size() <= pow2(1074 + j),
{
    let u: nat = unit_steps();
    lemma_pow2_adds(j, 1074);
    assert(n * u <= pow2(51 + (1023 + j)) * 1) by (nonlinear_arith)
        requires
            n <= pow2(j),
            pow2(51 + (1023 + j)) == pow2(j) * u,
    ;
    lemma_at_most_power(n * u, 1, 1023 + j);
}

/// The part of a span below one second is in [0, 1).
proof fn lemma_fraction_range(d: Duration)
    ensures
        !fraction_seconds(d).negative(),
        fraction_seconds(d).finite(),
        fraction_seconds(d).size() < unit_steps(),
{
    let u: nat = unit_steps();
    let r: nat = (d.nanos % NANOS_PER_SEC) as nat;
    let rest = whole_number(r);
    let billion = whole_number(NANOS_PER_SEC as nat);
    let top: nat = 0x1F_FFFF_FFFF_FFFF;
    let h: nat = pow2(1021);
    lemma_pow2_pos(1074);
    lemma2_to64();
    lemma2_to64_rest();
    lemma_pow2_adds(53, 1021);
    law_small_integers_exact(r);
    law_small_integers_exact(NANOS_PER_SEC as nat);
    assert(billion.size() > 0) by (nonlinear_arith)
        requires
            billion.size() == 1_000_000_000 * u,
            u > 0,
    ;
    // The largest number below one is 1 - 2^-53.
    assert(((r * u) * u) * 1 <= (top * h) * (1_000_000_000 * u)) by (nonlinear_arith)
        requires
            r <= 999_999_999,
            u == 0x20_0000_0000_0000 * h,
            top == 0x1F_FFFF_FFFF_FFFF,
    ;
    law_nearest_monotone(rest.size() * u, billion.size(), top * h, 1);
    lemma_exact_form(top, 1021);
    assert(1021 * BINADE as nat + top == ONE_BITS - 1);
    law_one();
    lemma_steps_increase(fraction_seconds(d).code(), ONE_BITS as nat);
}

/// Every span is a finite number of seconds without a sign.
pub proof fn law_seconds_are_a_number(d: Duration)
    ensures
        !seconds(d).negative(),
        seconds(d).finite(),
        seconds(d).size() <= pow2(1203),
{
    let q: nat = (d.nanos / NANOS_PER_SEC) as nat;
    let whole = whole_number(q);
    let part = fraction_seconds(d);
    lemma_wide();
    lemma_pow2_unfold(128);
    lemma_whole_number_bound(q, 128);
    lemma_fraction_range(d);
    lemma_pow2_unfold(1203);
    lemma_pow2_strictly_increases(1074, 1202);
    lemma_at_most_power(whole.size() + part.size(), 1, 1152);
}

/// A normalized service time is a finite number without a sign. Among such numbers the order
/// of the encodings is the numeric order.
pub proof fn law_normalized_is_a_number(sample: FrameServiceSample)
    ensures
        normalized(sample) is Some <==> sample.target_bitrate_bps > 0,
        normalized(sample) matches Some(v) ==> !v.negative() && v.finite(),
{
    let u: nat = unit_steps();
    let d = seconds(sample.service_time);
    law_seconds_are_a_number(sample.service_time);
    if sample.target_bitrate_bps > 0 {
        let t: nat = sample.target_bitrate_bps as nat;
        let c: nat = sample.cc_rate_bytes_per_sec as nat;
        let target = whole_number(t);
        let eight = whole_number(8);
        let rate = whole_number(c);
        lemma_pow2_pos(1074);
        lemma2_to64();
        lemma2_to64_rest();
        lemma_whole_number_bound(t, 64);
        lemma_whole_number_bound(c, 64);
        law_small_integers_exact(8);
        // The target is at least one, so an eighth of it is at least an eighth.
        law_one();
        law_nearest_exact(ONE_BITS as nat);
        assert(1 * u <= t * u) by (nonlinear_arith)
            requires
                t >= 1,
        ;
        law_nearest_monotone(u, 1, t * u, 1);
        lemma_steps_ordered(ONE_BITS as nat, target.code());
        let bytes = quotient(target, eight);
        let eighth: nat = pow2(1071);
        lemma_pow2_adds(3, 1071);
        lemma_pow2_pos(1071);
        assert(8 * u > 0 && eighth * (8 * u) <= target.size() * u) by (nonlinear_arith)
            requires
                u == 8 * eighth,
                target.size() >= u,
                u > 0,
        ;
        law_nearest_monotone(eighth, 1, target.size() * u, 8 * u);
        law_powers(1020);
        assert(target.size() * u <= pow2(1138) * (8 * u)) by (nonlinear_arith)
            requires
                target.size() <= pow2(1138),
        ;
        lemma_at_most_power(target.size() * u, 8 * u, 1087);
        assert(1020 * BINADE as nat <= bytes.code());
        lemma_steps_ordered(1020 * BINADE as nat, bytes.code());
        lemma_steps_increase(0, bytes.code());
        // The ratio is at most 2^67.
        let ratio = quotient(rate, bytes);
        lemma_pow2_adds(3, 1138);
        assert(rate.size() * u <= pow2(1141) * bytes.size()) by (nonlinear_arith)
            requires
                rate.size() <= pow2(1138),
                pow2(1141) == 8 * pow2(1138),
                u == 8 * eighth,
                bytes.size() >= eighth,
        ;
        lemma_at_most_power(rate.size() * u, bytes.size(), 1090);
        lemma_pow2_adds(129, 1074);
        lemma_pow2_adds(129, 1141);
        assert(d.size() * ratio.size() <= pow2(1270) * u) by (nonlinear_arith)
            requires
                d.size() <= pow2(129) * u,
                ratio.size() <= pow2(1141),
                pow2(1270) == pow2(129) * pow2(1141),
        ;
        lemma_at_most_power(d.size() * ratio.size(), u, 1219);
    }
}

/// α before smoothing is a number in [0.05, 1], whatever was measured.
pub proof fn law_raw_alpha_in_range(
    samples: Seq<FrameServiceSample>,
    target_service_time: Duration,
    latency_percentile: Binary64,
)
    ensures
        !raw_alpha(samples, target_service_time, latency_percentile).negative(),
        MIN_ALPHA_BITS <= raw_alpha(samples, target_service_time, latency_percentile).code()
            <= ONE_BITS,
{
    law_seconds_are_a_number(target_service_time);
}

impl AlphaController {
    /// α is in its range and the smoothing factor is valid.
    pub open spec fn sound(self) -> bool {
        alpha_ok(self.alpha) && ewma_ok(self.alpha_ewma)
    }
}

/// α starts in [1/32, 1].
pub proof fn law_alpha_starts_in_range(config: VidaptiveConfig)
    requires
        config.valid(),
    ensures
        (AlphaController {
            target_service_time: config.target_service_time,
            latency_percentile: config.latency_percentile,
            alpha_ewma: config.alpha_ewma,
            alpha: signed(false, ONE_BITS as nat),
        }).sound(),
{
}

/// α stays in [1/32, 1] through every update.
pub proof fn law_alpha_stays_in_range(
    c: AlphaController,
    samples: Seq<FrameServiceSample>,
    pacing_rate: u64,
    paused: bool,
)
    requires
        c.sound(),
    ensures
        c.updated(samples, pacing_rate, paused).sound(),
{
    let raw = raw_alpha(samples, c.target_service_time, c.latency_percentile);
    law_raw_alpha_in_range(samples, c.target_service_time, c.latency_percentile);
    law_smoothing_stays_in_range(c.alpha, raw, c.alpha_ewma);
}

/// A larger number is not rounded to a smaller integer.
proof fn lemma_rounded_ordered(a: Binary64, b: Binary64)
    requires
        a.finite(),
        b.finite(),
        !b.negative(),
        a.size() <= b.size(),
    ensures
        rounded(a) <= rounded(b),
{
    let u: nat = unit_steps();
    lemma_pow2_pos(1074);
    lemma_fundamental_div_mod(a.size() as int, u as int);
    lemma_fundamental_div_mod(b.size() as int, u as int);
    lemma_div_is_ordered(a.size() as int, b.size() as int, u as int);
}

/// A larger α gives no smaller target.
pub proof fn law_target_grows_with_alpha(a1: Binary64, a2: Binary64, rate: u64)
    requires
        alpha_ok(a1),
        alpha_ok(a2),
        at_most(a1, a2),
    ensures
        target_bitrate(a1, rate) <= target_bitrate(a2, rate),
{
    let u: nat = unit_steps();
    let n: nat = rate as nat;
    let w = whole_number(n);
    let eight = whole_number(8);
    lemma_pow2_pos(1074);
    lemma2_to64();
    lemma2_to64_rest();
    lemma_whole_number_bound(n, 64);
    law_small_integers_exact(8);
    lemma_mul_is_commutative(a1.size() as int, w.size() as int);
    lemma_mul_is_commutative(a2.size() as int, w.size() as int);
    law_scaled_down(w, a1);
    law_scaled_down(w, a2);
    lemma_steps_ordered(a1.code(), a2.code());
    assert((a1.size() * w.size()) * u <= (a2.size() * w.size()) * u) by (nonlinear_arith)
        requires
            a1.size() <= a2.size(),
    ;
    law_nearest_monotone(a1.size() * w.size(), u, a2.size() * w.size(), u);
    let p1 = product(a1, w);
    let p2 = product(a2, w);
    lemma_steps_ordered(p1.code(), p2.code());
    lemma_pow2_adds(3, 1138);
    let t1: nat = p1.size() * (8 * u);
    let t2: nat = p2.size() * (8 * u);
    assert(t1 * u <= t2 * u && t1 <= pow2(1141) * u && t2 <= pow2(1141) * u)
        by (nonlinear_arith)
        requires
            t1 == p1.size() * (8 * u),
            t2 == p2.size() * (8 * u),
            p1.size() <= p2.size(),
            p2.size() <= w.size(),
            w.size() <= pow2(1138),
            pow2(1141) == 8 * pow2(1138),
    ;
    lemma_at_most_power(t1, u, 1090);
    lemma_at_most_power(t2, u, 1090);
    law_nearest_monotone(t1, u, t2, u);
    let b1 = product(p1, eight);
    let b2 = product(p2, eight);
    lemma_steps_ordered(b1.code(), b2.code());
    lemma_rounded_ordered(b1, b2);
}

/// The target never exceeds what α = 1 gives. That is `8 · CC-Rate` bits per second for every
/// rate up to 2^53; a larger one is rounded to a binary64 number first.
pub proof fn law_target_within_capacity(alpha: Binary64, rate: u64)
    requires
        alpha_ok(alpha),
    ensures
        target_bitrate(alpha, rate) <= target_bitrate(signed(false, ONE_BITS as nat), rate),
        rate <= 0x20_0000_0000_0000 ==> target_bitrate(signed(false, ONE_BITS as nat), rate) == 8
            * rate,
{
    let u: nat = unit_steps();
    let n: nat = rate as nat;
    let one = signed(false, ONE_BITS as nat);
    law_target_grows_with_alpha(alpha, one, rate);
    if rate <= 0x20_0000_0000_0000 {
        let w = whole_number(n);
        lemma_pow2_pos(1074);
        law_one();
        law_small_integers_exact(n);
        law_small_integers_exact(8);
        lemma_mul_is_commutative(one.size() as int, w.size() as int);
        lemma_nearest_cross(w.size() * u, u, w.size(), 1);
        law_nearest_exact(w.code());
        assert(product(one, w) == w);
        lemma2_to64();
        lemma_pow2_adds(3, 1074);
        lemma_pow2_unfold(1078);
        let most: nat = w.size() * (8 * u);
        let v: nat = (8 * n) * u;
        if n < 0x20_0000_0000_0000 {
            law_representable(n, 1077);
            assert(n * pow2(1077) == v) by (nonlinear_arith)
                requires
                    v == (8 * n) * u,
                    pow2(1077) == 8 * u,
            ;
        } else {
            law_representable(BINADE as nat, 1078);
            assert(BINADE as nat * pow2(1078) == v) by (nonlinear_arith)
                requires
                    v == (8 * n) * u,
                    n == 0x20_0000_0000_0000,
                    BINADE == 0x10_0000_0000_0000u64,
                    pow2(1078) == 2 * pow2(1077),
                    pow2(1077) == 8 * u,
            ;
        }
        assert(most * 1 == v * u && v == u * (8 * n)) by (nonlinear_arith)
            requires
                most == (n * u) * (8 * u),
                v == (8 * n) * u,
        ;
        lemma_nearest_cross(most, u, v, 1);
        assert(product(w, whole_number(8)).size() == v);
        lemma_fundamental_div_mod_converse(v as int, u as int, (8 * n) as int, 0);
    }
}

/// Normalized times are finite numbers without a sign, no more than there are samples.
proof fn lemma_times_measured(samples: Seq<FrameServiceSample>)
    ensures
        normalized_times(samples).len() <= samples.len(),
        forall|i: int|
            0 <= i < normalized_times(samples).len() ==> measured(
                #[trigger] normalized_times(samples)[i],
            ),
    decreases samples.len(),
{
    if samples.len() > 0 {
        lemma_times_measured(samples.drop_last());
        law_normalized_is_a_number(samples.last());
    }
}

/// The sorted times are in increasing numeric order.
pub proof fn law_sorted_times_are_ranked(samples: Seq<FrameServiceSample>)
    ensures
        ranked(in_increasing_order(normalized_times(samples))),
        in_increasing_order(normalized_times(samples)).to_multiset() == normalized_times(
            samples,
        ).to_multiset(),
{
    let times = normalized_times(samples);
    let order = |a: Binary64, b: Binary64| in_order(a, b);
    let sorted = in_increasing_order(times);
    lemma_times_measured(samples);
    times.lemma_sort_by_ensures(order);
    broadcast use vstd::seq_lib::group_to_multiset_ensures;

    assert forall|i: int| 0 <= i < sorted.len() implies measured(#[trigger] sorted[i]) by {
        assert(sorted.contains(sorted[i]));
        assert(times.to_multiset().count(sorted[i]) > 0);
        assert(times.contains(sorted[i]));
    }
    assert forall|i: int, j: int| 0 <= i <= j < sorted.len() implies (
    #[trigger] sorted[i]).code() <= (#[trigger] sorted[j]).code() by {
        if i < j {
            assert(order(sorted[i], sorted[j]));
        }
    }
}

/// The measured service time is a positive finite number.
pub proof fn law_measured_time_is_positive(
    samples: Seq<FrameServiceSample>,
    latency_percentile: Binary64,
)
    requires
        1 <= normalized_times(samples).len(),
        samples.len() <= MAX_SAMPLES,
    ensures
        measured(measured_time(samples, latency_percentile)),
        measured_time(samples, latency_percentile).code() >= EPSILON_BITS,
{
    let times = normalized_times(samples);
    let sorted = in_increasing_order(times);
    lemma_times_measured(samples);
    law_sorted_times_are_ranked(samples);
    lemma_sorted_len(times);
    if latency_percentile.nan() {
        assert(virtual_index(sorted.len(), latency_percentile).nan());
        assert(percentile(sorted, latency_percentile) == sorted[0]);
    } else {
        law_percentile_between(sorted, latency_percentile);
    }
}

/// Sorting keeps the number of values.
proof fn lemma_sorted_len(values: Seq<Binary64>)
    ensures
        in_increasing_order(values).len() == values.len(),
{
    broadcast use vstd::seq_lib::group_to_multiset_ensures;

    values.lemma_sort_by_ensures(|a: Binary64, b: Binary64| in_order(a, b));
    assert(in_increasing_order(values).to_multiset().len() == values.to_multiset().len());
}

/// A longer measured time gives no larger ratio, a longer target no smaller one.
proof fn lemma_ratio_ordered(p1: Binary64, x1: Binary64, p2: Binary64, x2: Binary64)
    requires
        measured(p1),
        measured(p2),
        measured(x1),
        measured(x2),
        0 < x2.code() <= x1.code(),
        p1.code() <= p2.code(),
    ensures
        !quotient(p1, x1).negative(),
        !quotient(p2, x2).negative(),
        quotient(p1, x1).code() <= quotient(p2, x2).code() <= INFINITY_BITS,
{
    let u: nat = unit_steps();
    lemma_steps_ordered(p1.code(), p2.code());
    lemma_steps_ordered(x2.code(), x1.code());
    lemma_steps_increase(0, x2.code());
    assert((p1.size() * u) * x2.size() <= (p2.size() * u) * x1.size()) by (nonlinear_arith)
        requires
            p1.size() <= p2.size(),
            x2.size() <= x1.size(),
    ;
    law_nearest_monotone(p1.size() * u, x1.size(), p2.size() * u, x2.size());
}

/// The moving average grows with the new value.
proof fn lemma_smoothing_ordered(prev: Binary64, n1: Binary64, n2: Binary64, factor: Binary64)
    requires
        alpha_ok(prev),
        alpha_ok(n1),
        alpha_ok(n2),
        at_most(n1, n2),
        ewma_ok(factor),
    ensures
        at_most(smoothed(prev, n1, factor), smoothed(prev, n2, factor)),
{
    let u: nat = unit_steps();
    let one = signed(false, ONE_BITS as nat);
    let rest = difference(one, factor);
    lemma_pow2_pos(1074);
    law_one();
    law_nearest_exact(ONE_BITS as nat);
    law_smoothing_stays_in_range(prev, n1, factor);
    law_smoothing_stays_in_range(prev, n2, factor);
    if factor.code() == 0 {
        assert(n1.size() * 0 == 0 && n2.size() * 0 == 0);
    } else {
        lemma_complement(factor.code());
        law_scaled_down(factor, n1);
        law_scaled_down(factor, n2);
        lemma_mul_is_commutative(n1.size() as int, factor.size() as int);
        lemma_mul_is_commutative(n2.size() as int, factor.size() as int);
        lemma_at_least_thirty_second(prev, rest);
        lemma_steps_ordered(n1.code(), n2.code());
        assert((n1.size() * factor.size()) * u <= (n2.size() * factor.size()) * u)
            by (nonlinear_arith)
            requires
                n1.size() <= n2.size(),
        ;
        law_nearest_monotone(n1.size() * factor.size(), u, n2.size() * factor.size(), u);
        let a = product(prev, rest);
        let b1 = product(n1, factor);
        let b2 = product(n2, factor);
        lemma_steps_ordered(b1.code(), b2.code());
        law_nearest_monotone(a.size() + b1.size(), 1, a.size() + b2.size(), 1);
    }
}

/// A higher latency percentile makes α, and with it the target, no larger.
pub proof fn law_higher_percentile_is_more_conservative(
    c: AlphaController,
    higher: Binary64,
    samples: Seq<FrameServiceSample>,
    rate: u64,
)
    requires
        c.sound(),
        at_most(c.latency_percentile, higher),
        samples.len() <= MAX_SAMPLES,
    ensures
        ({
            let d = AlphaController { latency_percentile: higher, ..c };
            &&& at_most(d.next_alpha(samples), c.next_alpha(samples))
            &&& d.updated_target(samples, rate, false) <= c.updated_target(samples, rate, false)
        }),
{
    let d = AlphaController { latency_percentile: higher, ..c };
    let p = seconds(c.target_service_time);
    let r1 = raw_alpha(samples, c.target_service_time, higher);
    let r2 = raw_alpha(samples, c.target_service_time, c.latency_percentile);
    law_raw_alpha_in_range(samples, c.target_service_time, higher);
    law_raw_alpha_in_range(samples, c.target_service_time, c.latency_percentile);
    if normalized_times(samples).len() > 0 {
        lemma_times_measured(samples);
        lemma_sorted_len(normalized_times(samples));
        law_sorted_times_are_ranked(samples);
        law_percentile_grows(
            in_increasing_order(normalized_times(samples)),
            c.latency_percentile,
            higher,
        );
        law_percentile_between(in_increasing_order(normalized_times(samples)), higher);
        law_percentile_between(
            in_increasing_order(normalized_times(samples)),
            c.latency_percentile,
        );
        law_measured_time_is_positive(samples, higher);
        law_measured_time_is_positive(samples, c.latency_percentile);
        law_seconds_are_a_number(c.target_service_time);
        lemma_ratio_ordered(
            p,
            measured_time(samples, higher),
            p,
            measured_time(samples, c.latency_percentile),
        );
    }
    assert(at_most(r1, r2));
    lemma_smoothing_ordered(c.alpha, r1, r2, c.alpha_ewma);
    law_smoothing_stays_in_range(c.alpha, r1, c.alpha_ewma);
    law_smoothing_stays_in_range(c.alpha, r2, c.alpha_ewma);
    law_target_grows_with_alpha(d.next_alpha(samples), c.next_alpha(samples), rate);
}

/// A lower target service time makes α before smoothing no larger.
pub proof fn law_lower_target_time_lowers_raw_alpha(
    samples: Seq<FrameServiceSample>,
    lower: Duration,
    higher: Duration,
    latency_percentile: Binary64,
)
    requires
        lower.nanos <= higher.nanos,
        samples.len() <= MAX_SAMPLES,
    ensures
        at_most(
            raw_alpha(samples, lower, latency_percentile),
            raw_alpha(samples, higher, latency_percentile),
        ),
{
    law_raw_alpha_in_range(samples, lower, latency_percentile);
    law_raw_alpha_in_range(samples, higher, latency_percentile);
    if normalized_times(samples).len() > 0 {
        let x = measured_time(samples, latency_percentile);
        law_measured_time_is_positive(samples, latency_percentile);
        law_seconds_are_a_number(lower);
        law_seconds_are_a_number(higher);
        law_seconds_grow(lower, higher);
        lemma_ratio_ordered(seconds(lower), x, seconds(higher), x);
    }
}

/// A lower target service time makes α, and with it the target bitrate, no larger.
pub proof fn law_lower_target_time_is_more_conservative(
    c: AlphaController,
    lower: Duration,
    samples: Seq<FrameServiceSample>,
    rate: u64,
)
    requires
        c.sound(),
        lower.nanos <= c.target_service_time.nanos,
        samples.len() <= MAX_SAMPLES,
    ensures
        ({
            let d = AlphaController { target_service_time: lower, ..c };
            &&& at_most(d.next_alpha(samples), c.next_alpha(samples))
            &&& d.updated_target(samples, rate, false) <= c.updated_target(samples, rate, false)
        }),
{
    let d = AlphaController { target_service_time: lower, ..c };
    let r1 = raw_alpha(samples, lower, c.latency_percentile);
    let r2 = raw_alpha(samples, c.target_service_time, c.latency_percentile);
    law_raw_alpha_in_range(samples, lower, c.latency_percentile);
    law_raw_alpha_in_range(samples, c.target_service_time, c.latency_percentile);
    law_lower_target_time_lowers_raw_alpha(
        samples,
        lower,
        c.target_service_time,
        c.latency_percentile,
    );
    lemma_smoothing_ordered(c.alpha, r1, r2, c.alpha_ewma);
    law_smoothing_stays_in_range(c.alpha, r1, c.alpha_ewma);
    law_smoothing_stays_in_range(c.alpha, r2, c.alpha_ewma);
    law_target_grows_with_alpha(d.next_alpha(samples), c.next_alpha(samples), rate);
}

/// Less than half the spacing above a number of 2^53 or more is rounded away.
proof fn lemma_absorbed(code: nat, part: nat)
    requires
        1076 * BINADE <= code < INFINITY_BITS,
        part < unit_steps(),
    ensures
        nearest(steps(code) + part, 1) == code,
{
    let w: nat = BINADE as nat;
    let k: nat = (code / w - 1) as nat;
    let m: nat = w + code % w;
    let p: nat = pow2(k);
    let v: nat = m * p + part;
    lemma_fundamental_div_mod(code as int, w as int);
    assert(code == k * w + m && k >= 1075) by (nonlinear_arith)
        requires
            code == w * (k + 1) + code % w,
            0 <= code % w < w,
            m == w + code % w,
            code >= 1076 * w,
            w > 0,
    ;
    lemma_pow2_unfold(k);
    lemma_pow2_monotone(1074, (k - 1) as nat);
    assert(2 * part < p);
    lemma2_to64();
    lemma2_to64_rest();
    lemma_pow2_adds(52, k);
    lemma_pow2_adds(53, k);
    assert(pow2(52 + k) <= v && v < pow2(53 + k)) by (nonlinear_arith)
        requires
            pow2(52 + k) == 0x10_0000_0000_0000 * p,
            pow2(53 + k) == 0x20_0000_0000_0000 * p,
            v == m * p + part,
            0x10_0000_0000_0000 <= m < 0x20_0000_0000_0000,
            2 * part < p,
    ;
    lemma_bit_len_unique(v, 53 + k);
    assert(v / 1 == v);
    assert(1 * p == p);
    lemma_fundamental_div_mod_converse(v as int, p as int, m as int, part as int);
    assert(half_even(v, p) == m);
}

/// A longer span is no smaller number of seconds.
pub proof fn law_seconds_grow(d1: Duration, d2: Duration)
    requires
        d1.nanos <= d2.nanos,
    ensures
        at_most(seconds(d1), seconds(d2)),
{
    let u: nat = unit_steps();
    let q1: nat = (d1.nanos / NANOS_PER_SEC) as nat;
    let q2: nat = (d2.nanos / NANOS_PER_SEC) as nat;
    let r1: nat = (d1.nanos % NANOS_PER_SEC) as nat;
    let r2: nat = (d2.nanos % NANOS_PER_SEC) as nat;
    let w1 = whole_number(q1);
    let w2 = whole_number(q2);
    let f1 = fraction_seconds(d1);
    let f2 = fraction_seconds(d2);
    law_seconds_are_a_number(d1);
    law_seconds_are_a_number(d2);
    lemma_fraction_range(d1);
    lemma_fraction_range(d2);
    lemma_pow2_pos(1074);
    lemma_wide();
    lemma_pow2_unfold(128);
    lemma_whole_number_bound(q1, 128);
    lemma_whole_number_bound(q2, 128);
    assert(q1 <= q2);
    assert(q1 * u <= q2 * u) by (nonlinear_arith)
        requires
            q1 <= q2,
    ;
    law_nearest_monotone(q1 * u, 1, q2 * u, 1);
    lemma_steps_ordered(w1.code(), w2.code());
    law_nearest_exact(w2.code());
    // With the rest added, the later span is at least its whole seconds.
    law_nearest_monotone(w2.size(), 1, w2.size() + f2.size(), 1);
    if q1 == q2 {
        law_small_integers_exact(r1);
        law_small_integers_exact(r2);
        law_small_integers_exact(NANOS_PER_SEC as nat);
        let den: nat = 1_000_000_000 * u;
        assert(den > 0 && ((r1 * u) * u) * den <= ((r2 * u) * u) * den) by (nonlinear_arith)
            requires
                r1 <= r2,
                den == 1_000_000_000 * u,
                u > 0,
        ;
        law_nearest_monotone((r1 * u) * u, den, (r2 * u) * u, den);
        lemma_steps_increase(0, whole_number(NANOS_PER_SEC as nat).code());
        assert(f1.code() <= f2.code());
        lemma_steps_ordered(f1.code(), f2.code());
        law_nearest_monotone(w1.size() + f1.size(), 1, w2.size() + f2.size(), 1);
    } else if q1 < 0x20_0000_0000_0000 {
        // Whole seconds are exact, and the rest does not reach the next one.
        law_small_integers_exact(q1);
        assert(q1 * u + u <= q2 * u) by (nonlinear_arith)
            requires
                q1 + 1 <= q2,
        ;
        law_nearest_monotone(w1.size() + f1.size(), 1, q2 * u, 1);
    } else {
        // Whole seconds are at least two apart, and the rest is rounded away.
        lemma2_to64_rest();
        lemma_pow2_adds(53, 1074);
        assert(pow2(1127) <= q1 * u) by (nonlinear_arith)
            requires
                pow2(1127) == 0x20_0000_0000_0000 * u,
                q1 >= 0x20_0000_0000_0000,
        ;
        law_powers(1076);
        law_nearest_monotone(pow2(1127), 1, q1 * u, 1);
        lemma_absorbed(w1.code(), f1.size());
    }
}

/// The number below a number is smaller by a factor of at most 1 - 2^-53.
proof fn lemma_step_ratio(c: nat)
    requires
        1 <= c < INFINITY_BITS,
    ensures
        steps((c - 1) as nat) * 0x20_0000_0000_0000 <= steps(c) * 0x1F_FFFF_FFFF_FFFF,
{
    let w: nat = BINADE as nat;
    lemma2_to64();
    if c > w {
        let k: nat = (c / w - 1) as nat;
        let m: nat = w + c % w;
        lemma_fundamental_div_mod(c as int, w as int);
        assert(c == k * w + m) by (nonlinear_arith)
            requires
                c == w * (k + 1) + c % w,
                m == w + c % w,
        ;
        let p: nat = pow2(k);
        lemma_steps_of(k, m);
        if m > w {
            lemma_steps_of(k, (m - 1) as nat);
            assert(((m - 1) * p) * 0x20_0000_0000_0000 <= (m * p) * 0x1F_FFFF_FFFF_FFFF)
                by (nonlinear_arith)
                requires
                    1 <= m <= 0x20_0000_0000_0000,
            ;
        } else {
            assert(k > 0) by (nonlinear_arith)
                requires
                    c == k * w + m,
                    m == w,
                    c > w,
            ;
            let t: nat = (k - 1) as nat;
            lemma_pow2_unfold(k);
            lemma_steps_of(t, (2 * w - 1) as nat);
            assert(c - 1 == t * w + (2 * w - 1)) by (nonlinear_arith)
                requires
                    c == k * w + m,
                    m == w,
                    t == k - 1,
            ;
            let h: nat = pow2(t);
            assert((0x1F_FFFF_FFFF_FFFF * h) * 0x20_0000_0000_0000 <= (m * p)
                * 0x1F_FFFF_FFFF_FFFF) by (nonlinear_arith)
                requires
                    m == 0x10_0000_0000_0000,
                    p == 2 * h,
            ;
        }
    } else if c == w {
        lemma_steps_of(0, w);
    }
}

/// α aims below 1 exactly while the measured service time exceeds the target.
pub proof fn law_alpha_falls_only_beyond_target(
    samples: Seq<FrameServiceSample>,
    target_service_time: Duration,
    latency_percentile: Binary64,
)
    requires
        samples.len() <= MAX_SAMPLES,
    ensures
        raw_alpha(samples, target_service_time, latency_percentile) == signed(
            false,
            ONE_BITS as nat,
        ) <==> normalized_times(samples).len() == 0 || at_most(
            measured_time(samples, latency_percentile),
            seconds(target_service_time),
        ),
{
    let u: nat = unit_steps();
    let p = seconds(target_service_time);
    let x = measured_time(samples, latency_percentile);
    lemma_pow2_pos(1074);
    law_seconds_are_a_number(target_service_time);
    if normalized_times(samples).len() > 0 {
        law_measured_time_is_positive(samples, latency_percentile);
        lemma_steps_increase(0, x.code());
        law_one();
        law_nearest_exact(ONE_BITS as nat);
        let sp: nat = p.size();
        let sx: nat = x.size();
        if x.code() <= p.code() {
            lemma_steps_ordered(x.code(), p.code());
            assert(u * sx <= (sp * u) * 1) by (nonlinear_arith)
                requires
                    sx <= sp,
            ;
            law_nearest_monotone(u, 1, sp * u, sx);
        } else {
            let below: nat = (x.code() - 1) as nat;
            let top: nat = 0x1F_FFFF_FFFF_FFFF;
            let den: nat = 0x20_0000_0000_0000;
            lemma_steps_ordered(p.code(), below);
            lemma_step_ratio(x.code());
            lemma2_to64();
            lemma2_to64_rest();
            lemma_pow2_adds(53, 1021);
            let h: nat = pow2(1021);
            assert((sp * u) * 1 <= (top * h) * sx) by (nonlinear_arith)
                requires
                    sp <= steps(below),
                    steps(below) * den <= sx * top,
                    u == den * h,
            ;
            law_nearest_monotone(sp * u, sx, top * h, 1);
            lemma_exact_form(top, 1021);
            assert(1021 * BINADE as nat + top == ONE_BITS - 1);
        }
    }
}

/// Eight times a whole number is rounded as the number is.
proof fn lemma_eight_fold(n: nat)
    requires
        1 <= n <= 0x1FFF_FFFF_FFFF_FFFF,
    ensures
        whole_number(8 * n).code() == whole_number(n).code() + 3 * BINADE,
        whole_number(8 * n).size() == 8 * whole_number(n).size(),
        whole_number(n).code() >= ONE_BITS,
        whole_number(8 * n).finite(),
        !whole_number(8 * n).negative(),
        whole_number(n).finite(),
        !whole_number(n).negative(),
{
    let u: nat = unit_steps();
    let w: nat = BINADE as nat;
    let v: nat = n * u;
    lemma2_to64();
    lemma2_to64_rest();
    lemma_pow2_pos(1074);
    lemma_whole_number_bound(n, 64);
    lemma_whole_number_bound(8 * n, 64);
    law_one();
    law_nearest_exact(ONE_BITS as nat);
    assert(u <= v) by (nonlinear_arith)
        requires
            v == n * u,
            n >= 1,
    ;
    law_nearest_monotone(u, 1, v, 1);
    assert(whole_number(n).code() >= ONE_BITS);
    // Three more digits, all dropped.
    assert((8 * n) * u == 8 * v) by (nonlinear_arith)
        requires
            v == n * u,
    ;
    lemma_bit_len_bounds(v);
    let l: nat = bit_len(v);
    if l < 1075 {
        lemma_pow2_monotone(l, 1074);
    }
    lemma_pow2_adds(3, (l - 1) as nat);
    lemma_pow2_adds(3, l);
    lemma_bit_len_unique(8 * v, l + 3);
    assert(v / 1 == v && (8 * v) / 1 == 8 * v);
    let e: nat = (l - 53) as nat;
    lemma_pow2_adds(3, e);
    lemma_pow2_pos(e);
    lemma_half_even_scale(v, pow2(e), 8);
    assert(1 * pow2(e) == pow2(e) && 1 * pow2(e + 3) == pow2(e + 3));
    assert(v * 8 == 8 * v && pow2(e) * 8 == pow2(e + 3));
    lemma_kept(v, 1);
    let h: nat = half_even(v, pow2(e));
    assert((e + 3) * w == e * w + 3 * w) by (nonlinear_arith);
    lemma_steps_of(e, h);
    lemma_steps_of(e + 3, h);
    assert(h * pow2(e + 3) == 8 * (h * pow2(e))) by (nonlinear_arith)
        requires
            pow2(e + 3) == 8 * pow2(e),
    ;
}

/// A frame encoded at the whole rate has its own seconds as normalized time.
proof fn lemma_full_rate_time(sample: FrameServiceSample)
    requires
        1 <= sample.cc_rate_bytes_per_sec <= 0x1FFF_FFFF_FFFF_FFFF,
        sample.target_bitrate_bps == 8 * sample.cc_rate_bytes_per_sec,
    ensures
        normalized(sample) == Some(seconds(sample.service_time)),
{
    let u: nat = unit_steps();
    let c: nat = sample.cc_rate_bytes_per_sec as nat;
    let rate = whole_number(c);
    let target = whole_number(8 * c);
    let eight = whole_number(8);
    let d = seconds(sample.service_time);
    lemma_pow2_pos(1074);
    lemma_eight_fold(c);
    law_small_integers_exact(8);
    law_seconds_are_a_number(sample.service_time);
    law_one();
    law_nearest_exact(ONE_BITS as nat);
    law_nearest_exact(rate.code());
    law_nearest_exact(d.code());
    lemma_steps_increase(0, rate.code());
    lemma_steps_increase(0, eight.code());
    assert((target.size() * u) * 1 == rate.size() * (8 * u)) by (nonlinear_arith)
        requires
            target.size() == 8 * rate.size(),
    ;
    assert(8 * u > 0);
    lemma_nearest_cross(target.size() * u, 8 * u, rate.size(), 1);
    let bytes = quotient(target, eight);
    assert(bytes == rate);
    assert((rate.size() * u) * 1 == u * rate.size()) by (nonlinear_arith);
    lemma_nearest_cross(rate.size() * u, rate.size(), u, 1);
    let ratio = quotient(rate, bytes);
    assert(ratio == signed(false, ONE_BITS as nat));
    lemma_nearest_cross(d.size() * u, u, d.size(), 1);
    assert(product(d, ratio) == d);
}

/// The normalized times of frames encoded at the whole rate and served within a span are within
/// the span.
proof fn lemma_times_within(samples: Seq<FrameServiceSample>, span: Duration)
    requires
        forall|i: int|
            0 <= i < samples.len() ==> {
                &&& 1 <= (#[trigger] samples[i]).cc_rate_bytes_per_sec <= 0x1FFF_FFFF_FFFF_FFFF
                &&& samples[i].target_bitrate_bps == 8 * samples[i].cc_rate_bytes_per_sec
                &&& samples[i].service_time.nanos <= span.nanos
            },
    ensures
        forall|i: int|
            0 <= i < normalized_times(samples).len() ==> (#[trigger] normalized_times(
                samples,
            )[i]).code() <= seconds(span).code(),
    decreases samples.len(),
{
    if samples.len() > 0 {
        let before = samples.drop_last();
        let last = samples.last();
        assert forall|i: int| 0 <= i < before.len() implies {
            &&& 1 <= (#[trigger] before[i]).cc_rate_bytes_per_sec <= 0x1FFF_FFFF_FFFF_FFFF
            &&& before[i].target_bitrate_bps == 8 * before[i].cc_rate_bytes_per_sec
            &&& before[i].service_time.nanos <= span.nanos
        } by {
            assert(samples[i] == before[i]);
        }
        lemma_times_within(before, span);
        assert(samples[samples.len() - 1] == last);
        lemma_full_rate_time(last);
        law_seconds_grow(last.service_time, span);
        law_seconds_are_a_number(last.service_time);
        law_seconds_are_a_number(span);
        let times = normalized_times(samples);
        let old_times = normalized_times(before);
        assert(times == old_times.push(seconds(last.service_time)));
        assert forall|i: int| 0 <= i < times.len() implies (#[trigger] times[i]).code()
            <= seconds(span).code() by {
            if i < old_times.len() {
                assert(times[i] == old_times[i]);
            }
        }
    }
}

/// Frames encoded at the whole CC-Rate and served within the target service time keep α at 1.
pub proof fn law_frames_in_time_keep_the_rate(
    samples: Seq<FrameServiceSample>,
    target_service_time: Duration,
    latency_percentile: Binary64,
)
    requires
        samples.len() <= MAX_SAMPLES,
        target_service_time.nanos > 0,
        !latency_percentile.nan(),
        forall|i: int|
            0 <= i < samples.len() ==> {
                &&& 1 <= (#[trigger] samples[i]).cc_rate_bytes_per_sec <= 0x1FFF_FFFF_FFFF_FFFF
                &&& samples[i].target_bitrate_bps == 8 * samples[i].cc_rate_bytes_per_sec
                &&& samples[i].service_time.nanos <= target_service_time.nanos
            },
    ensures
        raw_alpha(samples, target_service_time, latency_percentile) == signed(
            false,
            ONE_BITS as nat,
        ),
{
    law_alpha_falls_only_beyond_target(samples, target_service_time, latency_percentile);
    let times = normalized_times(samples);
    if times.len() > 0 {
        let sorted = in_increasing_order(times);
        let p = seconds(target_service_time);
        lemma_times_measured(samples);
        lemma_times_within(samples, target_service_time);
        law_sorted_times_are_ranked(samples);
        lemma_sorted_len(times);
        law_percentile_between(sorted, latency_percentile);
        law_virtual_index_in_range(sorted.len(), latency_percentile);
        let top: int = truncated_up(virtual_index(sorted.len(), latency_percentile)) as int;
        broadcast use vstd::seq_lib::group_to_multiset_ensures;

        assert(sorted.contains(sorted[top]));
        assert(times.to_multiset().count(sorted[top]) > 0);
        assert(times.contains(sorted[top]));
        // A nanosecond is far more than the least measured time.
        law_seconds_are_a_number(target_service_time);
        law_seconds_grow(Duration { nanos: 1 }, target_service_time);
        lemma_nanosecond();
    }
}

/// A nanosecond is more than the spacing of numbers at 1.
proof fn lemma_nanosecond()
    ensures
        seconds(Duration { nanos: 1 }).code() >= EPSILON_BITS,
        !seconds(Duration { nanos: 1 }).negative(),
{
    let u: nat = unit_steps();
    let d = Duration { nanos: 1 };
    let part = fraction_seconds(d);
    lemma_pow2_pos(1074);
    law_small_integers_exact(0);
    law_small_integers_exact(1);
    law_small_integers_exact(NANOS_PER_SEC as nat);
    law_seconds_are_a_number(d);
    lemma_fraction_range(d);
    assert(whole_number(NANOS_PER_SEC as nat).size() > 0) by (nonlinear_arith)
        requires
            whole_number(NANOS_PER_SEC as nat).size() == 1_000_000_000 * u,
            u > 0,
    ;
    lemma2_to64();
    lemma2_to64_rest();
    let e: nat = pow2(1022);
    lemma_pow2_adds(52, 1022);
    law_powers(971);
    assert(971 * BINADE as nat == EPSILON_BITS);
    assert(e * (1_000_000_000 * u) <= ((1 * u) * u) * 1) by (nonlinear_arith)
        requires
            u == 0x10_0000_0000_0000 * e,
    ;
    law_nearest_monotone(e, 1, (1 * u) * u, 1_000_000_000 * u);
    assert(part.code() >= EPSILON_BITS);
    law_nearest_exact(part.code());
    assert(whole_number(0).size() == 0);
    assert(0 + part.size() == part.size());
}

/// The target is α times the rate in bits, rounded to the nearest bit per second. An update
/// without a pause and with a rate moves α by the smoothing factor towards the new value; any
/// other leaves it and gives no target.
pub proof fn law_update_formula(
    c: AlphaController,
    samples: Seq<FrameServiceSample>,
    rate: u64,
    paused: bool,
)
    ensures
        ({
            let after = c.updated(samples, rate, paused);
            let target = c.updated_target(samples, rate, paused);
            let one = Binary64 { bits: 0x3FF0_0000_0000_0000 };
            let raw = raw_alpha(samples, c.target_service_time, c.latency_percentile);
            &&& after.target_service_time == c.target_service_time
            &&& after.latency_percentile == c.latency_percentile
            &&& after.alpha_ewma == c.alpha_ewma
            &&& paused || rate == 0 ==> after.alpha == c.alpha && target == 0
            &&& !paused && rate > 0 ==> {
                &&& after.alpha == sum(
                    product(c.alpha, difference(one, c.alpha_ewma)),
                    product(raw, c.alpha_ewma),
                )
                &&& target == rounded(
                    product(
                        product(after.alpha, whole_number(rate as nat)),
                        whole_number(8),
                    ),
                )
            }
        }),
{
}

/// α before smoothing is the target service time over the measured one, within [0.05, 1]; it is
/// 1 without a measurement.
pub proof fn law_raw_alpha_formula(
    samples: Seq<FrameServiceSample>,
    target_service_time: Duration,
    latency_percentile: Binary64,
)
    ensures
        ({
            let times = normalized_times(samples);
            let raw = raw_alpha(samples, target_service_time, latency_percentile);
            let ratio = quotient(
                seconds(target_service_time),
                larger(
                    percentile(in_increasing_order(times), latency_percentile),
                    Binary64 { bits: 0x3CB0_0000_0000_0000 },
                ),
            );
            let low = Binary64 { bits: 0x3FA9_9999_9999_999A };
            let one = Binary64 { bits: 0x3FF0_0000_0000_0000 };
            &&& times.len() == 0 ==> raw == one
            &&& times.len() > 0 && less(ratio, low) ==> raw == low
            &&& times.len() > 0 && less(one, ratio) ==> raw == one
            &&& times.len() > 0 && !less(ratio, low) && !less(one, ratio) ==> raw == ratio
        }),
{
}

/// A service time counts as its seconds times CC-Rate over target bytes per second. Frames
/// without a target do not count, the others each once.
pub proof fn law_normalized_formula(samples: Seq<FrameServiceSample>, added: FrameServiceSample)
    ensures
        normalized_times(Seq::empty()) == Seq::<Binary64>::empty(),
        added.target_bitrate_bps == 0 ==> normalized_times(samples.push(added))
            == normalized_times(samples),
        added.target_bitrate_bps > 0 ==> normalized_times(samples.push(added))
            == normalized_times(samples).push(
            product(
                seconds(added.service_time),
                quotient(
                    whole_number(added.cc_rate_bytes_per_sec as nat),
                    quotient(whole_number(added.target_bitrate_bps as nat), whole_number(8)),
                ),
            ),
        ),
{
    assert(samples.push(added).drop_last() =~= samples);
    assert(samples.push(added).last() == added);
}

} // verus!
