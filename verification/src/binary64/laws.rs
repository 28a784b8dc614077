//! Laws of rounding: order, exactness, and the range of a scaled number.

use vstd::arithmetic::div_mod::*;
use vstd::arithmetic::mul::*;
use vstd::arithmetic::power2::*;
use vstd::prelude::*;

use super::rounding::{
    bit_len, excess_bits, half_even, lemma_bit_len_bounds, lemma_bit_len_unique, lemma_div_scale,
    lemma_half_even_exact, lemma_half_even_scale, lemma_nearest_cross, lemma_pow2_monotone,
    lemma_quotient_len, nearest, BINADE, INFINITY_BITS, ONE_BITS,
};
use super::{lemma_steps_increase, product, steps, unit_steps, whole_number, Binary64};

verus! {

/// Rounding a larger numerator over the same denominator gives no smaller integer.
pub proof fn lemma_half_even_monotone(n1: nat, n2: nat, d: nat)
    requires
        d > 0,
        n1 <= n2,
    ensures
        half_even(n1, d) <= half_even(n2, d),
{
    lemma_fundamental_div_mod(n1 as int, d as int);
    lemma_fundamental_div_mod(n2 as int, d as int);
    lemma_div_is_ordered(n1 as int, n2 as int, d as int);
}

/// The significand kept by rounding: at most 2^53, and at least 2^52 after a drop.
pub proof fn lemma_kept(num: nat, den: nat)
    requires
        den > 0,
    ensures
        ({
            let k: nat = excess_bits(num / den);
            &&& half_even(num, den * pow2(k)) <= 2 * BINADE
            &&& k > 0 ==> half_even(num, den * pow2(k)) >= BINADE
        }),
{
    let q: nat = num / den;
    let r: nat = num % den;
    let k: nat = excess_bits(q);
    let p: nat = pow2(k);
    lemma_pow2_pos(k);
    lemma_fundamental_div_mod(num as int, den as int);
    lemma2_to64();
    lemma2_to64_rest();
    lemma_pow2_adds(k, 53);
    if q > 0 {
        lemma_bit_len_bounds(q);
        lemma_pow2_monotone(bit_len(q), k + 53);
    } else {
        lemma_pow2_pos(k + 53);
    }
    let dp: nat = den * p;
    assert(dp > 0) by (nonlinear_arith)
        requires
            den > 0,
            p > 0,
            dp == den * p,
    ;
    let m: nat = num / dp;
    lemma_fundamental_div_mod(num as int, dp as int);
    let s: nat = num % dp;
    assert(m < 0x20_0000_0000_0000) by (nonlinear_arith)
        requires
            num == den * q + r,
            r < den,
            q < p * 0x20_0000_0000_0000,
            num == dp * m + s,
            dp == den * p,
            den > 0,
            p > 0,
            s >= 0,
    ;
    if k > 0 {
        lemma_pow2_adds(k, 52);
        assert(m >= 0x10_0000_0000_0000) by (nonlinear_arith)
            requires
                num == den * q + r,
                r >= 0,
                q >= p * 0x10_0000_0000_0000,
                num == dp * m + s,
                s < dp,
                dp == den * p,
                den > 0,
                p > 0,
        ;
    }
}

/// A larger ratio is not rounded to a smaller number.
pub proof fn law_nearest_monotone(n1: nat, d1: nat, n2: nat, d2: nat)
    requires
        d1 > 0,
        d2 > 0,
        n1 * d2 <= n2 * d1,
    ensures
        nearest(n1, d1) <= nearest(n2, d2),
{
    let q1: nat = n1 / d1;
    let q2: nat = n2 / d2;
    lemma_div_scale(n1, d1, d2);
    lemma_div_scale(n2, d2, d1);
    lemma_mul_is_commutative(d1 as int, d2 as int);
    let d: nat = d1 * d2;
    lemma_div_is_ordered((n1 * d2) as int, (n2 * d1) as int, d as int);
    assert(q1 <= q2);
    lemma_bit_len_monotone(q1, q2);
    let k1: nat = excess_bits(q1);
    let k2: nat = excess_bits(q2);
    lemma_kept(n1, d1);
    lemma_kept(n2, d2);
    if k1 == k2 {
        let p: nat = pow2(k1);
        lemma_pow2_pos(k1);
        assert(d1 * p > 0 && d2 * p > 0) by (nonlinear_arith)
            requires
                d1 > 0,
                d2 > 0,
                p > 0,
        ;
        lemma_half_even_scale(n1, d1 * p, d2);
        lemma_half_even_scale(n2, d2 * p, d1);
        assert((d1 * p) * d2 == (d2 * p) * d1) by (nonlinear_arith);
        assert((d1 * p) * d2 > 0) by (nonlinear_arith)
            requires
                d1 * p > 0,
                d2 > 0,
        ;
        lemma_half_even_monotone(n1 * d2, n2 * d1, (d1 * p) * d2);
    } else {
        assert(k1 + 1 <= k2);
        assert(k1 * BINADE + 2 * BINADE <= k2 * BINADE + BINADE) by (nonlinear_arith)
            requires
                k1 + 1 <= k2,
                BINADE >= 0,
        ;
    }
}

/// More is written with no fewer digits.
pub proof fn lemma_bit_len_monotone(a: nat, b: nat)
    requires
        a <= b,
    ensures
        bit_len(a) <= bit_len(b),
    decreases b,
{
    if a > 0 {
        lemma_bit_len_monotone(a / 2, b / 2);
    }
}

/// The value of an encoding, from the significand and the digits dropped.
pub proof fn lemma_steps_of(k: nat, m: nat)
    requires
        m <= 2 * BINADE,
        k == 0 || m >= BINADE,
    ensures
        steps(k * BINADE as nat + m) == m * pow2(k),
{
    let w: nat = BINADE as nat;
    let code: nat = k * w + m;
    lemma2_to64();
    lemma_pow2_unfold(k + 1);
    if m < w {
        assert(code == m) by (nonlinear_arith)
            requires
                code == k * w + m,
                k == 0,
        ;
    } else if m < 2 * w {
        let f: nat = (m - w) as nat;
        assert(code == (k + 1) * w + f) by (nonlinear_arith)
            requires
                code == k * w + m,
                m == w + f,
        ;
        lemma_fundamental_div_mod_converse(code as int, w as int, (k + 1) as int, f as int);
        assert(code >= w) by (nonlinear_arith)
            requires
                code == (k + 1) * w + f,
        ;
    } else {
        assert(code == (k + 2) * w + 0) by (nonlinear_arith)
            requires
                code == k * w + m,
                m == 2 * w,
        ;
        lemma_fundamental_div_mod_converse(code as int, w as int, (k + 2) as int, 0);
        assert(code >= w) by (nonlinear_arith)
            requires
                code == (k + 2) * w + 0,
        ;
        assert(w * (2 * pow2(k)) == (2 * w) * pow2(k)) by (nonlinear_arith);
    }
}

/// A number that is already a binary64 number is not changed by rounding.
pub proof fn law_nearest_exact(code: nat)
    requires
        code < INFINITY_BITS,
    ensures
        nearest(steps(code), 1) == code,
{
    let w: nat = BINADE as nat;
    lemma2_to64();
    lemma2_to64_rest();
    if code < w {
        if code > 0 {
            lemma_bit_len_bounds(code);
            if bit_len(code) > 53 {
                lemma_pow2_monotone(53, (bit_len(code) - 1) as nat);
            }
        }
        assert(1 * pow2(0) == 1);
    } else {
        let k: nat = (code / w - 1) as nat;
        let m: nat = w + code % w;
        lemma_exact_form(m, k);
    }
}

/// Rounding of `m * 2^f` steps with a significand of exactly 53 digits.
pub proof fn lemma_exact_form(m: nat, k: nat)
    requires
        BINADE <= m < 2 * BINADE,
        k <= 2045,
    ensures
        nearest(m * pow2(k), 1) == k * BINADE as nat + m,
{
    lemma2_to64();
    lemma2_to64_rest();
    let v: nat = m * pow2(k);
    lemma_pow2_adds(52, k);
    lemma_pow2_adds(53, k);
    lemma_pow2_pos(k);
    assert(pow2(52) * pow2(k) <= v && v < pow2(53) * pow2(k)) by (nonlinear_arith)
        requires
            v == m * pow2(k),
            pow2(52) <= m < pow2(53),
            pow2(k) > 0,
    ;
    lemma_bit_len_unique(v, 53 + k);
    assert(v / 1 == v);
    lemma_half_even_exact(m, k, k);
    assert(m * pow2(0) == m);
    assert(1 * pow2(k) == pow2(k));
    assert(k * BINADE as nat + m < INFINITY_BITS) by (nonlinear_arith)
        requires
            k <= 2045,
            m < 2 * BINADE,
            BINADE == 0x10_0000_0000_0000u64,
            INFINITY_BITS == 0x7FF0_0000_0000_0000u64,
    ;
}

/// A significand of up to 53 digits at any scale is a binary64 number.
pub proof fn law_representable(m: nat, k: nat)
    requires
        m < 2 * BINADE,
        k <= 2045,
    ensures
        nearest(m * pow2(k), 1) < INFINITY_BITS,
        steps(nearest(m * pow2(k), 1)) == m * pow2(k),
{
    lemma2_to64();
    lemma2_to64_rest();
    if m == 0 {
        law_nearest_exact(0);
        assert(m * pow2(k) == 0) by (nonlinear_arith)
            requires
                m == 0,
        ;
    } else {
        let l: nat = bit_len(m);
        lemma_bit_len_bounds(m);
        if l > 53 {
            lemma_pow2_monotone(53, (l - 1) as nat);
        }
        let s: nat = (53 - l) as nat;
        if s <= k {
            // Write m * 2^k with a significand of 53 digits.
            let t: nat = (k - s) as nat;
            let n: nat = m * pow2(s);
            lemma_pow2_adds(l, s);
            lemma_pow2_adds((l - 1) as nat, s);
            lemma_pow2_pos(s);
            lemma_pow2_adds(s, t);
            assert(BINADE <= n && n < 2 * BINADE) by (nonlinear_arith)
                requires
                    n == m * pow2(s),
                    pow2((l - 1) as nat) <= m < pow2(l),
                    pow2((l - 1) as nat) * pow2(s) == 0x10_0000_0000_0000,
                    pow2(l) * pow2(s) == 0x20_0000_0000_0000,
                    pow2(s) > 0,
                    BINADE == 0x10_0000_0000_0000u64,
            ;
            assert(n * pow2(t) == m * pow2(k)) by (nonlinear_arith)
                requires
                    n == m * pow2(s),
                    pow2(k) == pow2(s) * pow2(t),
            ;
            lemma_exact_form(n, t);
            lemma_steps_of(t, n);
            assert(t * BINADE as nat + n < INFINITY_BITS) by (nonlinear_arith)
                requires
                    t <= 2045,
                    n < 2 * BINADE,
                    BINADE == 0x10_0000_0000_0000u64,
                    INFINITY_BITS == 0x7FF0_0000_0000_0000u64,
            ;
        } else {
            lemma_pow2_adds(l, k);
            lemma_pow2_monotone(l + k, 52);
            lemma_pow2_pos(k);
            let v: nat = m * pow2(k);
            assert(v < BINADE) by (nonlinear_arith)
                requires
                    v == m * pow2(k),
                    m < pow2(l),
                    pow2(k) > 0,
                    pow2(l) * pow2(k) <= BINADE,
            ;
            law_nearest_exact(v);
        }
    }
}

/// Integers up to 2^53 are binary64 numbers.
pub proof fn law_small_integers_exact(n: nat)
    requires
        n <= 0x20_0000_0000_0000,
    ensures
        whole_number(n).finite(),
        !whole_number(n).negative(),
        whole_number(n).size() == n * unit_steps(),
{
    if n < 0x20_0000_0000_0000 {
        law_representable(n, 1074);
    } else {
        law_representable(BINADE as nat, 1075);
        lemma_pow2_unfold(1075);
        assert(n * unit_steps() == BINADE as nat * pow2(1075)) by (nonlinear_arith)
            requires
                n == 0x20_0000_0000_0000,
                BINADE == 0x10_0000_0000_0000u64,
                pow2(1075) == 2 * unit_steps(),
        ;
    }
}

/// Powers of two and their encodings.
pub proof fn law_powers(j: nat)
    requires
        1 <= j <= 2046,
    ensures
        steps(j * BINADE as nat) == pow2(51 + j),
        nearest(pow2(51 + j), 1) == j * BINADE as nat,
{
    lemma2_to64();
    lemma2_to64_rest();
    let k: nat = (j - 1) as nat;
    lemma_pow2_adds(52, k);
    lemma_exact_form(BINADE as nat, k);
    lemma_steps_of(k, BINADE as nat);
    assert(k * BINADE as nat + BINADE as nat == j * BINADE as nat) by (nonlinear_arith)
        requires
            j == k + 1,
    ;
}

/// What is at most a power of two is rounded to at most that power.
pub proof fn lemma_at_most_power(num: nat, den: nat, j: nat)
    requires
        den > 0,
        1 <= j <= 2046,
        num <= pow2(51 + j) * den,
    ensures
        nearest(num, den) <= j * BINADE as nat,
        steps(nearest(num, den)) <= pow2(51 + j),
        nearest(num, den) < INFINITY_BITS,
{
    law_powers(j);
    law_nearest_monotone(num, den, pow2(51 + j), 1);
    if nearest(num, den) < j * BINADE as nat {
        lemma_steps_increase(nearest(num, den), j * BINADE as nat);
    }
    assert(j * BINADE as nat <= 0x7FE0_0000_0000_0000) by (nonlinear_arith)
        requires
            j <= 2046,
            BINADE == 0x10_0000_0000_0000u64,
    ;
}

/// Rounding moves a number by at most half the spacing of the numbers around it.
pub proof fn law_rounding_error(v: nat, k: nat)
    requires
        1 <= k <= 2044,
        v < pow2(53 + k),
    ensures
        nearest(v, 1) < INFINITY_BITS,
        steps(nearest(v, 1)) <= v + pow2((k - 1) as nat),
        v <= steps(nearest(v, 1)) + pow2((k - 1) as nat),
{
    let e: nat = excess_bits(v);
    let w: nat = BINADE as nat;
    assert(v / 1 == v);
    if v > 0 && bit_len(v) > 53 + k {
        lemma_bit_len_bounds(v);
        lemma_pow2_monotone(53 + k, (bit_len(v) - 1) as nat);
    }
    let p: nat = pow2(e);
    let h: nat = half_even(v, 1 * p);
    lemma_kept(v, 1);
    lemma_steps_of(e, h);
    lemma_pow2_pos(e);
    assert(1 * p == p);
    assert(e * w + h < INFINITY_BITS) by (nonlinear_arith)
        requires
            e <= 2044,
            h <= 2 * w,
            w == 0x10_0000_0000_0000,
            INFINITY_BITS == 0x7FF0_0000_0000_0000u64,
    ;
    lemma_fundamental_div_mod(v as int, p as int);
    let q: nat = v / p;
    let r: nat = v % p;
    if e == 0 {
        lemma2_to64();
        lemma_pow2_pos((k - 1) as nat);
        assert(h * 1 == h);
    } else {
        lemma_pow2_unfold(e);
        lemma_pow2_monotone((e - 1) as nat, (k - 1) as nat);
        let half: nat = pow2((e - 1) as nat);
        assert(h * p <= v + half && v <= h * p + half) by (nonlinear_arith)
            requires
                v == p * q + r,
                p == 2 * half,
                h == q && 2 * r <= p || h == q + 1 && 2 * r >= p && r < p,
        ;
    }
}

/// The largest factor below one takes a number above the finest scale below itself.
pub proof fn lemma_pred(d: nat)
    requires
        2 * BINADE <= d < INFINITY_BITS,
    ensures
        nearest(steps(d) * 0x1F_FFFF_FFFF_FFFF, 0x20_0000_0000_0000) == d - 1,
{
    let w: nat = BINADE as nat;
    let k: nat = (d / w - 1) as nat;
    let m: nat = w + d % w;
    let top: nat = 0x1F_FFFF_FFFF_FFFF;
    let den: nat = 0x20_0000_0000_0000;
    let pk: nat = pow2(k);
    let num: nat = (m * pk) * top;
    lemma2_to64();
    lemma2_to64_rest();
    lemma_pow2_pos(k);
    lemma_fundamental_div_mod(d as int, w as int);
    assert(d == k * w + m) by (nonlinear_arith)
        requires
            d == w * (k + 1) + d % w,
            m == w + d % w,
    ;
    if m > w {
        lemma_pow2_adds(52, k);
        lemma_pow2_adds(53, k);
        assert(den * pow2(52 + k) <= num && num < den * pow2(53 + k)) by (nonlinear_arith)
            requires
                pow2(52 + k) == 0x10_0000_0000_0000 * pk,
                pow2(53 + k) == 0x20_0000_0000_0000 * pk,
                num == (m * pk) * top,
                0x10_0000_0000_0001 <= m < 0x20_0000_0000_0000,
                pk > 0,
                top == 0x1F_FFFF_FFFF_FFFF,
                den == 0x20_0000_0000_0000,
        ;
        lemma_quotient_len(num, den, 53 + k);
        let r: nat = pk * (den - m) as nat;
        let dp: nat = den * pk;
        assert(num == (m - 1) * dp + r && 2 * r < dp) by (nonlinear_arith)
            requires
                num == (m * pk) * top,
                dp == den * pk,
                r == pk * (den - m),
                0x10_0000_0000_0000 < m < den,
                top == 0x1F_FFFF_FFFF_FFFF,
                den == 0x20_0000_0000_0000,
                pk > 0,
        ;
        lemma_fundamental_div_mod_converse(num as int, dp as int, m - 1, r as int);
    } else {
        let t: nat = (k - 1) as nat;
        lemma_pow2_unfold(k);
        lemma_exact_form(top, t);
        assert(num * 1 == (top * pow2(t)) * den) by (nonlinear_arith)
            requires
                num == (m * pk) * top,
                m == 0x10_0000_0000_0000,
                den == 0x20_0000_0000_0000,
                pk == 2 * pow2(t),
        ;
        lemma_nearest_cross(num, den, top * pow2(t), 1);
        assert(t * w + top == d - 1) by (nonlinear_arith)
            requires
                d == k * w + m,
                m == w,
                t == k - 1,
                top == 2 * w - 1,
        ;
    }
}

/// Magnitudes are ordered as their encodings.
pub proof fn lemma_steps_ordered(a: nat, b: nat)
    requires
        a <= b,
    ensures
        steps(a) <= steps(b),
{
    if a < b {
        lemma_steps_increase(a, b);
    }
}

/// One is one unit.
pub proof fn law_one()
    ensures
        steps(ONE_BITS as nat) == unit_steps(),
{
    assert(ONE_BITS as nat / (BINADE as nat) == 1023);
    assert(ONE_BITS as nat % (BINADE as nat) == 0);
    lemma2_to64();
    lemma2_to64_rest();
    lemma_pow2_adds(52, 1022);
}

/// Scaling by a factor of at most one does not make a number larger.
pub proof fn law_scaled_down(a: Binary64, b: Binary64)
    requires
        a.finite(),
        b.code() <= ONE_BITS,
    ensures
        product(a, b).finite(),
        product(a, b).code() <= a.code(),
        product(a, b).size() <= a.size(),
        product(a, b).negative() == (a.negative() != b.negative()),
{
    let u: nat = unit_steps();
    lemma_pow2_pos(1074);
    law_one();
    if b.code() < ONE_BITS {
        lemma_steps_increase(b.code(), ONE_BITS as nat);
    }
    let sa: nat = a.size();
    let sb: nat = b.size();
    assert((sa * sb) * 1 <= sa * u) by (nonlinear_arith)
        requires
            sb <= u,
    ;
    law_nearest_monotone(sa * sb, u, sa, 1);
    law_nearest_exact(a.code());
    if product(a, b).code() < a.code() {
        lemma_steps_increase(product(a, b).code(), a.code());
    }
}

} // verus!
