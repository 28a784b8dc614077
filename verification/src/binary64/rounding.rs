//! Rounding of an exact ratio to the nearest binary64 magnitude.

use vstd::arithmetic::div_mod::*;
use vstd::arithmetic::mul::*;
use vstd::arithmetic::power2::*;
use vstd::prelude::*;

verus! {

/// Number of encodings in one binade (2^52).
pub const BINADE: u64 = 0x10_0000_0000_0000;

/// Encoding of positive infinity; every finite magnitude is below it.
pub const INFINITY_BITS: u64 = 0x7FF0_0000_0000_0000;

/// Encoding of the number 1.
pub const ONE_BITS: u64 = 0x3FF0_0000_0000_0000;

/// Exponent of the common scale on which the integer algorithms work.
pub const SCALE: u32 = 4096;

/// Number of binary digits of `n`.
pub open spec fn bit_len(n: nat) -> nat
    decreases n,
{
    if n == 0 {
        0
    } else {
        1 + bit_len(n / 2)
    }
}

/// The integer nearest to `num / den`; the even one of two equally near.
pub open spec fn half_even(num: nat, den: nat) -> nat {
    let q: nat = num / den;
    let r: nat = num % den;
    if 2 * r > den || (2 * r == den && q % 2 == 1) {
        q + 1
    } else {
        q
    }
}

/// How many low binary digits of the integer `q` exceed a 53-digit significand.
pub open spec fn excess_bits(q: nat) -> nat {
    if bit_len(q) > 53 {
        (bit_len(q) - 53) as nat
    } else {
        0
    }
}

/// Encoding of the binary64 magnitude nearest to `num / den`, ties to even.
///
/// The ratio counts steps of 2^-1074, the spacing of the smallest magnitudes.
/// Encodings count magnitudes in increasing order, so a significand `m` kept after
/// dropping `k` low digits has the encoding `k * 2^52 + m`.
pub open spec fn nearest(num: nat, den: nat) -> nat {
    let k: nat = excess_bits(num / den);
    let code: nat = k * (BINADE as nat) + half_even(num, den * pow2(k));
    if code < INFINITY_BITS {
        code
    } else {
        INFINITY_BITS as nat
    }
}

pub proof fn lemma_bit_len_bounds(n: nat)
    requires
        n > 0,
    ensures
        bit_len(n) >= 1,
        pow2((bit_len(n) - 1) as nat) <= n < pow2(bit_len(n)),
    decreases n,
{
    reveal_with_fuel(bit_len, 2);
    if n == 1 {
        lemma2_to64();
    } else {
        lemma_bit_len_bounds(n / 2);
        let l: nat = bit_len(n / 2);
        lemma_pow2_unfold(l);
        lemma_pow2_unfold((l + 1) as nat);
    }
}

pub proof fn lemma_bit_len_unique(n: nat, l: nat)
    requires
        l >= 1,
        pow2((l - 1) as nat) <= n < pow2(l),
    ensures
        bit_len(n) == l,
{
    lemma_pow2_pos((l - 1) as nat);
    lemma_bit_len_bounds(n);
    let b: nat = bit_len(n);
    if b < l {
        if b < l - 1 {
            lemma_pow2_strictly_increases(b, (l - 1) as nat);
        }
    } else if b > l {
        if l < b - 1 {
            lemma_pow2_strictly_increases(l, (b - 1) as nat);
        }
    }
}

pub proof fn lemma_pow2_monotone(a: nat, b: nat)
    requires
        a <= b,
    ensures
        pow2(a) <= pow2(b),
{
    if a < b {
        lemma_pow2_strictly_increases(a, b);
    }
}

/// Scaling numerator and denominator alike keeps quotient and scales the remainder.
pub proof fn lemma_div_scale(n: nat, d: nat, c: nat)
    requires
        d > 0,
        c > 0,
    ensures
        d * c > 0,
        (n * c) / (d * c) == n / d,
        (n * c) % (d * c) == (n % d) * c,
{
    let q: int = (n / d) as int;
    let r: int = (n % d) as int;
    lemma_fundamental_div_mod(n as int, d as int);
    assert(n * c == q * (d * c) + r * c) by (nonlinear_arith)
        requires
            n == d * q + r,
    ;
    assert(0 <= r * c < d * c) by (nonlinear_arith)
        requires
            0 <= r < d,
            c > 0,
    ;
    lemma_fundamental_div_mod_converse((n * c) as int, (d * c) as int, q, r * c);
}

pub proof fn lemma_half_even_scale(n: nat, d: nat, c: nat)
    requires
        d > 0,
        c > 0,
    ensures
        half_even(n * c, d * c) == half_even(n, d),
{
    lemma_div_scale(n, d, c);
    let r: nat = n % d;
    assert(2 * r > d <==> 2 * (r * c) > d * c) by (nonlinear_arith)
        requires
            c > 0,
    ;
    assert(2 * r == d <==> 2 * (r * c) == d * c) by (nonlinear_arith)
        requires
            c > 0,
    ;
}

pub proof fn lemma_nearest_scale(n: nat, d: nat, c: nat)
    requires
        d > 0,
        c > 0,
    ensures
        nearest(n * c, d * c) == nearest(n, d),
{
    lemma_div_scale(n, d, c);
    let k: nat = excess_bits(n / d);
    lemma_pow2_pos(k);
    assert((d * c) * pow2(k) == (d * pow2(k)) * c) by (nonlinear_arith);
    assert(d * pow2(k) > 0) by (nonlinear_arith)
        requires
            d > 0,
            pow2(k) > 0,
    ;
    lemma_half_even_scale(n, d * pow2(k), c);
}

/// Equal ratios have equal encodings.
pub proof fn lemma_nearest_cross(n1: nat, d1: nat, n2: nat, d2: nat)
    requires
        d1 > 0,
        d2 > 0,
        n1 * d2 == n2 * d1,
    ensures
        nearest(n1, d1) == nearest(n2, d2),
{
    lemma_nearest_scale(n1, d1, d2);
    lemma_nearest_scale(n2, d2, d1);
    lemma_mul_is_commutative(d1 as int, d2 as int);
}

/// The digit count of a quotient, from bounds on the ratio.
pub proof fn lemma_quotient_len(num: nat, den: nat, l: nat)
    requires
        den > 0,
        l >= 1,
        den * pow2((l - 1) as nat) <= num < den * pow2(l),
    ensures
        bit_len(num / den) == l,
{
    let lo: nat = pow2((l - 1) as nat);
    let hi: nat = pow2(l);
    let q: nat = num / den;
    lemma_fundamental_div_mod(num as int, den as int);
    let r: nat = num % den;
    assert(lo <= q && q < hi) by (nonlinear_arith)
        requires
            num == den * q + r,
            0 <= r < den,
            den * lo <= num < den * hi,
    ;
    lemma_bit_len_unique(q, l);
}

/// What rounding `num * 2^f / (den * 2^SCALE)` drops, given the digits of `num / den`.
pub proof fn lemma_excess(num: nat, den: nat, n: nat, f: nat)
    requires
        den > 0,
        n >= 1,
        den * pow2((n - 1) as nat) <= num < den * pow2(n),
    ensures
        excess_bits((num * pow2(f)) / (den * pow2(SCALE as nat))) == (if n + f > SCALE + 53 {
            (n + f - SCALE - 53) as nat
        } else {
            0
        }),
{
    let big: nat = pow2(SCALE as nat);
    let pf: nat = pow2(f);
    lemma_pow2_pos(SCALE as nat);
    lemma_pow2_pos(f);
    let nn: nat = num * pf;
    let dd: nat = den * big;
    assert(dd > 0) by (nonlinear_arith)
        requires
            den > 0,
            big > 0,
            dd == den * big,
    ;
    lemma_pow2_adds(n, f);
    lemma_pow2_adds((n - 1) as nat, f);
    let hi: nat = pow2(n);
    let lo: nat = pow2((n - 1) as nat);
    assert(den * (lo * pf) <= nn && nn < den * (hi * pf)) by (nonlinear_arith)
        requires
            den * lo <= num < den * hi,
            pf > 0,
            nn == num * pf,
    ;
    if n + f > SCALE {
        let l: nat = (n + f - SCALE) as nat;
        lemma_pow2_adds(SCALE as nat, l);
        lemma_pow2_adds(SCALE as nat, (l - 1) as nat);
        let pl: nat = pow2(l);
        let pm: nat = pow2((l - 1) as nat);
        assert(dd * pm <= nn && nn < dd * pl) by (nonlinear_arith)
            requires
                den * (lo * pf) <= nn < den * (hi * pf),
                lo * pf == big * pm,
                hi * pf == big * pl,
                dd == den * big,
        ;
        lemma_quotient_len(nn, dd, l);
    } else {
        lemma_pow2_monotone((n + f) as nat, SCALE as nat);
        assert(nn < dd) by (nonlinear_arith)
            requires
                nn < den * (hi * pf),
                hi * pf <= big,
                dd == den * big,
        ;
        lemma_basic_div(nn as int, dd as int);
    }
}

/// Rounding at scale 2^t of `num * 2^f / den`, where the scale is the coarser one.
pub proof fn lemma_half_even_shift(num: nat, den: nat, f: nat, t: nat)
    requires
        den > 0,
        f <= t,
    ensures
        half_even(num * pow2(f), den * pow2(t)) == half_even(num, den * pow2((t - f) as nat)),
{
    let s: nat = (t - f) as nat;
    lemma_pow2_adds(s, f);
    lemma_pow2_pos(s);
    lemma_pow2_pos(f);
    assert(den * pow2(t) == (den * pow2(s)) * pow2(f)) by (nonlinear_arith)
        requires
            pow2(t) == pow2(s) * pow2(f),
    ;
    assert(den * pow2(s) > 0) by (nonlinear_arith)
        requires
            den > 0,
            pow2(s) > 0,
    ;
    lemma_half_even_scale(num, den * pow2(s), pow2(f));
}

/// A whole multiple of the scale needs no rounding.
pub proof fn lemma_half_even_exact(m: nat, f: nat, t: nat)
    requires
        t <= f,
    ensures
        half_even(m * pow2(f), pow2(t)) == m * pow2((f - t) as nat),
{
    let s: nat = (f - t) as nat;
    lemma_pow2_adds(s, t);
    lemma_pow2_pos(t);
    assert(m * pow2(f) == (m * pow2(s)) * pow2(t)) by (nonlinear_arith)
        requires
            pow2(f) == pow2(s) * pow2(t),
    ;
    lemma_fundamental_div_mod_converse(
        (m * pow2(f)) as int,
        pow2(t) as int,
        (m * pow2(s)) as int,
        0,
    );
}

/// A remainder of the division by `den` may be replaced by one extra binary digit,
/// as long as at least one further digit is rounded away.
pub proof fn lemma_half_even_jam(num: nat, den: nat, s: nat)
    requires
        den > 0,
        s >= 1,
    ensures
        half_even(num, den * pow2(s)) == half_even(jammed(num, den), pow2(s + 1)),
{
    let m: nat = num / den;
    let r: nat = num % den;
    lemma_fundamental_div_mod(num as int, den as int);
    let p: nat = pow2(s);
    lemma_pow2_pos(s);
    lemma_pow2_unfold(s + 1);
    lemma_pow2_unfold(s);
    let half: nat = pow2((s - 1) as nat);
    let q: nat = m / p;
    let low: nat = m % p;
    lemma_fundamental_div_mod(m as int, p as int);
    let rest: nat = low * den + r;
    assert(num == q * (den * p) + rest) by (nonlinear_arith)
        requires
            num == den * m + r,
            m == p * q + low,
            rest == low * den + r,
    ;
    assert(rest < den * p) by (nonlinear_arith)
        requires
            low < p,
            r < den,
            rest == low * den + r,
    ;
    lemma_fundamental_div_mod_converse(num as int, (den * p) as int, q as int, rest as int);
    let bit: nat = if r == 0 { 0 } else { 1 };
    let j: nat = jammed(num, den);
    assert(j == 2 * m + bit);
    assert(j == q * (2 * p) + (2 * low + bit)) by (nonlinear_arith)
        requires
            j == 2 * m + bit,
            m == p * q + low,
    ;
    assert(2 * low + bit < 2 * p);
    lemma_fundamental_div_mod_converse(j as int, (2 * p) as int, q as int, (2 * low + bit) as int);
    // Which side of the halfway point the two remainders fall on.
    if low >= half + 1 {
        assert(2 * rest > den * p) by (nonlinear_arith)
            requires
                low >= half + 1,
                p == 2 * half,
                rest == low * den + r,
                den > 0,
        ;
    } else if low == half {
        assert(2 * rest == den * p + 2 * r) by (nonlinear_arith)
            requires
                low == half,
                p == 2 * half,
                rest == low * den + r,
        ;
    } else {
        assert(2 * rest < den * p) by (nonlinear_arith)
            requires
                low + 1 <= half,
                p == 2 * half,
                rest == low * den + r,
                r < den,
        ;
    }
}

/// The quotient `num / den` with one more binary digit that records a remainder.
pub open spec fn jammed(num: nat, den: nat) -> nat {
    2 * (num / den) + if num % den == 0 {
        0nat
    } else {
        1nat
    }
}

/// Rounding a quotient of at least 55 digits from its jammed form.
pub proof fn lemma_nearest_jam(num: nat, den: nat, f: nat)
    requires
        den > 0,
        f >= 1,
        bit_len(num / den) >= 55,
    ensures
        nearest(num * pow2(f), den * pow2(SCALE as nat)) == nearest(
            jammed(num, den) * pow2((f - 1) as nat),
            pow2(SCALE as nat),
        ),
{
    let m: nat = num / den;
    let n: nat = bit_len(m);
    let j: nat = jammed(num, den);
    reveal_with_fuel(bit_len, 1);
    lemma_bit_len_bounds(m);
    lemma_fundamental_div_mod(num as int, den as int);
    let r: nat = num % den;
    let lo: nat = pow2((n - 1) as nat);
    let hi: nat = pow2(n);
    assert(den * lo <= num && num < den * hi) by (nonlinear_arith)
        requires
            num == den * m + r,
            r < den,
            lo <= m,
            m + 1 <= hi,
    ;
    lemma_excess(num, den, n, f);
    lemma_pow2_unfold(n + 1);
    lemma_pow2_unfold(n);
    lemma_excess(j, 1, n + 1, (f - 1) as nat);
    let k: nat = excess_bits((num * pow2(f)) / (den * pow2(SCALE as nat)));
    let t: nat = SCALE as nat + k;
    lemma_pow2_adds(SCALE as nat, k);
    assert((den * pow2(SCALE as nat)) * pow2(k) == den * pow2(t)) by (nonlinear_arith)
        requires
            pow2(t) == pow2(SCALE as nat) * pow2(k),
    ;
    lemma_half_even_shift(num, den, f, t);
    lemma_half_even_shift(j, 1, (f - 1) as nat, t);
    lemma_half_even_jam(num, den, (t - f) as nat);
    assert(1 * pow2(SCALE as nat) == pow2(SCALE as nat));
    assert(1 * pow2(t) == pow2(t));
}

/// `2^s` as a machine integer.
pub fn power_of_two(s: u32) -> (p: u128)
    requires
        s < 128,
    ensures
        p == pow2(s as nat),
{
    let mut p: u128 = 1;
    let mut i: u32 = 0;
    proof {
        lemma2_to64();
    }
    while i < s
        invariant
            i <= s < 128,
            p == pow2(i as nat),
        decreases s - i,
    {
        proof {
            lemma_pow2_unfold((i + 1) as nat);
            lemma_pow2_monotone((i + 1) as nat, 127);
            lemma_pow2_127();
        }
        p = p * 2;
        i = i + 1;
    }
    p
}

proof fn lemma_pow2_127()
    ensures
        pow2(127) == 0x8000_0000_0000_0000_0000_0000_0000_0000,
{
    lemma2_to64_rest();
    lemma2_to64();
    lemma_pow2_adds(64, 63);
}

/// Powers of two beyond the width of a machine word.
pub proof fn lemma_wide()
    ensures
        pow2(107) == pow2(53) * pow2(54),
        pow2(107) == 0x800_0000_0000_0000_0000_0000_0000,
        pow2(108) == 0x1000_0000_0000_0000_0000_0000_0000,
        pow2(127) == 0x8000_0000_0000_0000_0000_0000_0000_0000,
{
    lemma2_to64_rest();
    lemma2_to64();
    lemma_pow2_adds(53, 54);
    lemma_pow2_adds(54, 54);
    lemma_pow2_127();
}

/// The widest alignment that keeps a sum exact.
pub proof fn lemma_seventy()
    ensures
        pow2(70) == 0x40_0000_0000_0000_0000,
{
    lemma2_to64_rest();
    lemma2_to64();
    lemma_pow2_adds(64, 6);
}

/// Number of binary digits of `m`.
pub fn bit_length(m: u128) -> (n: u32)
    ensures
        n == bit_len(m as nat),
        n <= 128,
{
    let mut x: u128 = m;
    let mut n: u32 = 0;
    proof {
        lemma_pow2_127();
        lemma_pow2_unfold(128);
    }
    while x > 0
        invariant
            n + bit_len(x as nat) == bit_len(m as nat),
            n <= 128,
            pow2(128) == 0x1_0000_0000_0000_0000_0000_0000_0000_0000,
        decreases x,
    {
        proof {
            reveal_with_fuel(bit_len, 2);
            lemma_bit_len_bounds(m as nat);
            if bit_len(m as nat) > 128 {
                lemma_pow2_monotone(128, (bit_len(m as nat) - 1) as nat);
            }
        }
        x = x / 2;
        n = n + 1;
    }
    n
}

/// Rounds `m / 2^s` to the nearest integer, ties to even.
pub fn shift_half_even(m: u128, s: u32) -> (q: u128)
    requires
        m < 0x8000_0000_0000_0000_0000_0000_0000_0000,
    ensures
        q == half_even(m as nat, pow2(s as nat)),
        q <= m,
{
    proof {
        lemma_pow2_127();
        lemma_pow2_pos(s as nat);
    }
    if s >= 128 {
        proof {
            lemma_pow2_unfold(128);
            lemma_pow2_monotone(128, s as nat);
            lemma_basic_div(m as int, pow2(s as nat) as int);
            lemma_small_mod(m as nat, pow2(s as nat));
        }
        return 0;
    }
    let p: u128 = power_of_two(s);
    let q: u128 = m / p;
    let r: u128 = m % p;
    proof {
        lemma_pow2_monotone(s as nat, 127);
        lemma_fundamental_div_mod(m as int, p as int);
        assert(q <= m) by (nonlinear_arith)
            requires
                m == p * q + r,
                r >= 0,
                p >= 1,
        ;
        assert(r >= 1 ==> q + 1 <= m) by (nonlinear_arith)
            requires
                m == p * q + r,
                p >= 1,
        ;
    }
    if r > p - r || (r == p - r && q % 2 == 1) {
        q + 1
    } else {
        q
    }
}

/// A significand rounded to 53 digits may reach 2^53, never more.
proof fn lemma_kept_bounds(m: nat, n: nat, s: nat)
    requires
        n >= 1,
        n <= s + 53,
        pow2((n - 1) as nat) <= m < pow2(n),
    ensures
        half_even(m, pow2(s)) <= 0x20_0000_0000_0000,
        n == s + 53 ==> half_even(m, pow2(s)) >= 0x10_0000_0000_0000,
{
    lemma2_to64();
    lemma2_to64_rest();
    let p: nat = pow2(s);
    let q: nat = m / p;
    let r: nat = m % p;
    lemma_pow2_pos(s);
    lemma_pow2_monotone(n, s + 53);
    lemma_pow2_adds(s, 53);
    lemma_fundamental_div_mod(m as int, p as int);
    assert(q < pow2(53)) by (nonlinear_arith)
        requires
            m == p * q + r,
            r >= 0,
            m < p * pow2(53),
            p > 0,
    ;
    if n == s + 53 {
        lemma_pow2_adds(s, 52);
        assert(q >= pow2(52)) by (nonlinear_arith)
            requires
                m == p * q + r,
                r < p,
                m >= p * pow2(52),
        ;
    }
}

/// Encoding of the magnitude nearest to `m * 2^(f - SCALE)` steps.
pub fn pack(m: u128, f: u32) -> (code: u64)
    requires
        m < 0x8000_0000_0000_0000_0000_0000_0000_0000,
        f <= 8192,
    ensures
        code == nearest((m * pow2(f as nat)) as nat, pow2(SCALE as nat)),
{
    let ghost pf: nat = pow2(f as nat);
    let ghost big: nat = pow2(SCALE as nat);
    proof {
        lemma_pow2_pos(SCALE as nat);
        lemma_pow2_pos(0);
        lemma2_to64();
        lemma2_to64_rest();
        lemma_pow2_127();
    }
    if m == 0 {
        proof {
            assert(0 * pf == 0);
            assert(0nat / big == 0 && 0nat % big == 0) by {
                lemma_div_basics(big as int);
                lemma_small_mod(0, big);
            }
            reveal_with_fuel(bit_len, 1);
            assert(big * pow2(0) == big);
        }
        return 0;
    }
    let n: u32 = bit_length(m);
    let k: u32 = if n + f > SCALE + 53 {
        n + f - SCALE - 53
    } else {
        0
    };
    let ghost t: nat = (SCALE + k) as nat;
    proof {
        lemma_bit_len_bounds(m as nat);
        lemma_excess(m as nat, 1, n as nat, f as nat);
        assert(1 * big == big);
        lemma_pow2_adds(SCALE as nat, k as nat);
    }
    assert(excess_bits((m * pf) as nat / big) == k);
    assert(big * pow2(k as nat) == pow2(t));
    let kept: u128;
    if f >= SCALE + k {
        let s: u32 = f - SCALE - k;
        proof {
            lemma_half_even_exact(m as nat, f as nat, t);
            // The kept significand has at most 53 digits, and exactly 53 after a drop.
            lemma_pow2_adds(n as nat, s as nat);
            lemma_pow2_adds((n - 1) as nat, s as nat);
            lemma_pow2_monotone((n + s) as nat, 53);
            assert(m * pow2(s as nat) >= pow2((n - 1) as nat) * pow2(s as nat)) by (nonlinear_arith)
                requires
                    m >= pow2((n - 1) as nat),
            ;
            lemma_pow2_pos(s as nat);
            assert(m * pow2(s as nat) < pow2(n as nat) * pow2(s as nat)) by (nonlinear_arith)
                requires
                    m < pow2(n as nat),
                    pow2(s as nat) > 0,
            ;
        }
        let p: u128 = power_of_two(s);
        kept = m * p;
    } else {
        let s: u32 = SCALE + k - f;
        kept = shift_half_even(m, s);
        proof {
            assert(1 * pow2(t) == pow2(t));
            assert(1 * pow2(s as nat) == pow2(s as nat));
            lemma_half_even_shift(m as nat, 1, f as nat, t);
            lemma_kept_bounds(m as nat, n as nat, s as nat);
        }
    }
    assert(kept == half_even((m * pf) as nat, big * pow2(k as nat)));
    if k >= 2046 {
        assert(k * BINADE + kept >= INFINITY_BITS) by (nonlinear_arith)
            requires
                k >= 2046,
                kept >= BINADE,
        ;
        return INFINITY_BITS;
    }
    assert(kept <= 0x20_0000_0000_0000);
    let code: u64 = (k as u64) * BINADE + kept as u64;
    if code < INFINITY_BITS {
        code
    } else {
        INFINITY_BITS
    }
}

} // verus!
