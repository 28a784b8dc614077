//! Binary floating-point numbers, computed on their integer encodings.
//!
//! A [`Binary64`] is the 64-bit interchange encoding of an IEEE 754 binary64 number. Every
//! operation is carried out on integers and rounds once, to nearest with ties to even, so
//! each result is an exact function of the operands that the contracts state in full.

use vstd::arithmetic::div_mod::*;
use vstd::arithmetic::power2::*;
use vstd::prelude::*;

use crate::bounded::saturated;

pub mod laws;
pub mod rounding;

use rounding::{
    bit_length, half_even, nearest, pack, power_of_two, shift_half_even, BINADE, INFINITY_BITS,
    SCALE,
};

verus! {

/// The sign bit of an encoding.
pub const SIGN_BIT: u64 = 0x8000_0000_0000_0000;

/// The encoding that stands for every not-a-number result.
pub const NAN_BITS: u64 = 0x7FF8_0000_0000_0000;

/// A binary64 number by its encoding.
#[derive(Debug, Clone, Copy)]
pub struct Binary64 {
    /// Sign, biased exponent and fraction, from the high bit down.
    pub bits: u64,
}

/// One, in steps of 2^-1074.
pub open spec fn unit_steps() -> nat {
    pow2(1074)
}

/// Value of a finite magnitude, in steps of 2^-1074.
pub open spec fn steps(code: nat) -> nat {
    if code < BINADE {
        code
    } else {
        (BINADE as nat + code % (BINADE as nat)) * pow2((code / (BINADE as nat) - 1) as nat)
    }
}

/// The number with the given sign and magnitude encoding.
pub open spec fn signed(negative: bool, code: nat) -> Binary64 {
    Binary64 {
        bits: if negative {
            (SIGN_BIT + code) as u64
        } else {
            code as u64
        },
    }
}

/// The not-a-number result.
pub open spec fn not_a_number() -> Binary64 {
    Binary64 { bits: NAN_BITS }
}

impl Binary64 {
    /// Whether the sign bit is set.
    pub open spec fn negative(self) -> bool {
        self.bits >= SIGN_BIT
    }

    /// The encoding without its sign; magnitudes are ordered as their encodings.
    pub open spec fn code(self) -> nat {
        if self.bits >= SIGN_BIT {
            (self.bits - SIGN_BIT) as nat
        } else {
            self.bits as nat
        }
    }

    /// Whether this is not a number.
    pub open spec fn nan(self) -> bool {
        self.code() > INFINITY_BITS
    }

    /// Whether this is an infinity of either sign.
    pub open spec fn infinite(self) -> bool {
        self.code() == INFINITY_BITS
    }

    /// Whether this is a finite number.
    pub open spec fn finite(self) -> bool {
        self.code() < INFINITY_BITS
    }

    /// Absolute value of a finite number, in steps of 2^-1074.
    pub open spec fn size(self) -> nat {
        steps(self.code())
    }

    /// Position among the numbers; the two zeros share one.
    pub open spec fn rank(self) -> int {
        if self.negative() {
            -(self.code() as int)
        } else {
            self.code() as int
        }
    }
}

/// `a < b`, false where either is not a number.
pub open spec fn less(a: Binary64, b: Binary64) -> bool {
    !a.nan() && !b.nan() && a.rank() < b.rank()
}

/// `a <= b`, false where either is not a number.
pub open spec fn at_most(a: Binary64, b: Binary64) -> bool {
    !a.nan() && !b.nan() && a.rank() <= b.rank()
}

/// The whole number `n` rounded to binary64.
pub open spec fn whole_number(n: nat) -> Binary64 {
    signed(false, nearest(n * unit_steps(), 1))
}

/// The rounded sum.
pub open spec fn sum(a: Binary64, b: Binary64) -> Binary64 {
    if a.nan() || b.nan() {
        not_a_number()
    } else if a.infinite() {
        if b.infinite() && a.negative() != b.negative() {
            not_a_number()
        } else {
            a
        }
    } else if b.infinite() {
        b
    } else if a.negative() == b.negative() {
        signed(a.negative(), nearest(a.size() + b.size(), 1))
    } else if a.size() > b.size() {
        signed(a.negative(), nearest((a.size() - b.size()) as nat, 1))
    } else if a.size() < b.size() {
        signed(b.negative(), nearest((b.size() - a.size()) as nat, 1))
    } else {
        signed(false, 0)
    }
}

/// The same magnitude with the opposite sign.
pub open spec fn opposite(a: Binary64) -> Binary64 {
    signed(!a.negative(), a.code())
}

/// The rounded difference.
pub open spec fn difference(a: Binary64, b: Binary64) -> Binary64 {
    sum(a, opposite(b))
}

/// The rounded product.
pub open spec fn product(a: Binary64, b: Binary64) -> Binary64 {
    let negative = a.negative() != b.negative();
    if a.nan() || b.nan() {
        not_a_number()
    } else if a.infinite() || b.infinite() {
        if a.code() == 0 || b.code() == 0 {
            not_a_number()
        } else {
            signed(negative, INFINITY_BITS as nat)
        }
    } else {
        signed(negative, nearest(a.size() * b.size(), unit_steps()))
    }
}

/// The rounded quotient.
pub open spec fn quotient(a: Binary64, b: Binary64) -> Binary64 {
    let negative = a.negative() != b.negative();
    if a.nan() || b.nan() {
        not_a_number()
    } else if a.infinite() {
        if b.infinite() {
            not_a_number()
        } else {
            signed(negative, INFINITY_BITS as nat)
        }
    } else if b.infinite() {
        signed(negative, 0)
    } else if b.code() == 0 {
        if a.code() == 0 {
            not_a_number()
        } else {
            signed(negative, INFINITY_BITS as nat)
        }
    } else {
        signed(negative, nearest(a.size() * unit_steps(), b.size()))
    }
}

/// The larger of two numbers; the other one where one is not a number.
pub open spec fn larger(a: Binary64, b: Binary64) -> Binary64 {
    if a.nan() || less(a, b) {
        b
    } else {
        a
    }
}

/// The smaller of two numbers; the other one where one is not a number.
pub open spec fn smaller(a: Binary64, b: Binary64) -> Binary64 {
    if a.nan() || less(b, a) {
        b
    } else {
        a
    }
}

/// `a` restricted to `[low, high]`; not a number stays so.
pub open spec fn clamped(a: Binary64, low: Binary64, high: Binary64) -> Binary64 {
    if less(a, low) {
        low
    } else if less(high, a) {
        high
    } else {
        a
    }
}

/// The integer below or at `a`, held to the range of `u64`; 0 for a negative or no number.
pub open spec fn truncated(a: Binary64) -> u64 {
    if a.nan() || a.negative() {
        0
    } else if a.infinite() {
        u64::MAX
    } else {
        saturated(a.size() / unit_steps())
    }
}

/// The integer above or at `a`, held to the range of `u64`; 0 for a negative or no number.
pub open spec fn truncated_up(a: Binary64) -> u64 {
    if a.nan() || a.negative() {
        0
    } else if a.infinite() {
        u64::MAX
    } else if a.size() % unit_steps() == 0 {
        saturated(a.size() / unit_steps())
    } else {
        saturated(a.size() / unit_steps() + 1)
    }
}

/// The integer nearest to `a`, halves away from zero, held to the range of `u64`;
/// 0 for a negative or no number.
pub open spec fn rounded(a: Binary64) -> u64 {
    if a.nan() || a.negative() {
        0
    } else if a.infinite() {
        u64::MAX
    } else if 2 * (a.size() % unit_steps()) < unit_steps() {
        saturated(a.size() / unit_steps())
    } else {
        saturated(a.size() / unit_steps() + 1)
    }
}

/// Significand and exponent of a finite magnitude.
fn significand(code: u64) -> (r: (u64, u32))
    requires
        code < INFINITY_BITS,
    ensures
        steps(code as nat) == r.0 * pow2(r.1 as nat),
        r.0 < 0x20_0000_0000_0000,
        r.1 == (if code < BINADE {
            0
        } else {
            code / BINADE - 1
        }),
        r.1 <= 2045,
        r.1 > 0 ==> r.0 >= BINADE,
        r.0 == 0 <==> code == 0,
{
    if code < BINADE {
        proof {
            lemma2_to64();
        }
        (code, 0)
    } else {
        (BINADE + code % BINADE, (code / BINADE - 1) as u32)
    }
}

/// `a * 2^x == b * 2^y` from equal exponents.
proof fn lemma_pow2_split(x: nat, y: nat, u: nat, v: nat)
    requires
        x + y == u + v,
    ensures
        pow2(x) * pow2(y) == pow2(u) * pow2(v),
{
    lemma_pow2_adds(x, y);
    lemma_pow2_adds(u, v);
}

fn product_code(a: u64, b: u64) -> (code: u64)
    requires
        a < INFINITY_BITS,
        b < INFINITY_BITS,
    ensures
        code == nearest(steps(a as nat) * steps(b as nat), unit_steps()),
{
    let (ma, ea) = significand(a);
    let (mb, eb) = significand(b);
    assert(ma * mb < 0x20_0000_0000_0000 * 0x20_0000_0000_0000) by (nonlinear_arith)
        requires
            ma < 0x20_0000_0000_0000,
            mb < 0x20_0000_0000_0000,
    ;
    let m: u128 = (ma as u128) * (mb as u128);
    let f: u32 = ea + eb + SCALE - 1074;
    proof {
        let x: nat = pow2(ea as nat);
        let y: nat = pow2(eb as nat);
        let big: nat = pow2(SCALE as nat);
        lemma_pow2_adds(ea as nat, eb as nat);
        lemma_pow2_split((ea + eb) as nat, SCALE as nat, f as nat, 1074);
        lemma_pow2_pos(SCALE as nat);
        lemma_pow2_pos(1074);
        assert(((ma * x) * (mb * y)) * big == (m * pow2(f as nat)) * unit_steps())
            by (nonlinear_arith)
            requires
                m == ma * mb,
                (x * y) * big == pow2(f as nat) * unit_steps(),
        ;
        rounding::lemma_nearest_cross(
            ((ma * x) * (mb * y)) as nat,
            unit_steps(),
            (m * pow2(f as nat)) as nat,
            big,
        );
    }
    pack(m, f)
}

fn quotient_code(a: u64, b: u64) -> (code: u64)
    requires
        a < INFINITY_BITS,
        0 < b < INFINITY_BITS,
    ensures
        code == nearest(steps(a as nat) * unit_steps(), steps(b as nat)),
{
    let (ma, ea) = significand(a);
    let (mb, eb) = significand(b);
    let ghost big: nat = pow2(SCALE as nat);
    proof {
        lemma_pow2_pos(SCALE as nat);
        lemma_pow2_pos(1074);
        lemma_pow2_pos(eb as nat);
        assert(mb * pow2(eb as nat) > 0) by (nonlinear_arith)
            requires
                mb > 0,
                pow2(eb as nat) > 0,
        ;
    }
    if ma == 0 {
        let ghost d: nat = steps(b as nat);
        proof {
            assert(steps(a as nat) * unit_steps() == 0) by (nonlinear_arith)
                requires
                    steps(a as nat) == 0,
            ;
            rounding::lemma_nearest_cross(0, d, 0, big);
            assert(0 * pow2(0) == 0);
        }
        return pack(0, 0);
    }
    let n: u32 = bit_length(ma as u128);
    proof {
        lemma2_to64();
        lemma2_to64_rest();
        rounding::lemma_bit_len_bounds(ma as nat);
        if n > 53 {
            rounding::lemma_pow2_monotone(53, (n - 1) as nat);
        }
    }
    let h: u32 = 108 - n;
    let p: u128 = power_of_two(h);
    proof {
        rounding::lemma_wide();
        lemma_pow2_adds(n as nat, h as nat);
        lemma_pow2_adds((n - 1) as nat, h as nat);
        lemma_pow2_pos(h as nat);
        assert(ma * p < pow2(n as nat) * p) by (nonlinear_arith)
            requires
                ma < pow2(n as nat),
                p > 0,
        ;
        assert(ma * p >= pow2((n - 1) as nat) * p) by (nonlinear_arith)
            requires
                ma >= pow2((n - 1) as nat),
        ;
    }
    let num: u128 = (ma as u128) * p;
    let den: u128 = mb as u128;
    let q: u128 = num / den;
    let r: u128 = num % den;
    let f: u32 = ea + 1074 + SCALE - h - eb;
    proof {
        lemma_fundamental_div_mod(num as int, den as int);
        // The quotient has at least 55 digits.
        assert(q >= pow2(54)) by (nonlinear_arith)
            requires
                num == den * q + r,
                r < den,
                den < pow2(53),
                num >= pow2(53) * pow2(54),
        ;
        assert(q <= num) by (nonlinear_arith)
            requires
                num == den * q + r,
                den >= 1,
                r >= 0,
        ;
        rounding::lemma_bit_len_bounds(q as nat);
        if rounding::bit_len(q as nat) < 55 {
            rounding::lemma_pow2_monotone(rounding::bit_len(q as nat), 54);
        }
        rounding::lemma_nearest_jam(num as nat, den as nat, f as nat);
        let x: nat = pow2(ea as nat);
        let y: nat = pow2(eb as nat);
        let pf: nat = pow2(f as nat);
        lemma_pow2_adds(ea as nat, 1074);
        lemma_pow2_adds(h as nat, f as nat);
        lemma_pow2_adds((h + f) as nat, eb as nat);
        lemma_pow2_adds((ea + 1074) as nat, SCALE as nat);
        assert(((ma * x) * unit_steps()) * (den * big) == (num * pf) * (mb * y))
            by (nonlinear_arith)
            requires
                num == ma * p,
                den == mb,
                (x * unit_steps()) * big == (p * pf) * y,
        ;
        assert(den * big > 0) by (nonlinear_arith)
            requires
                den > 0,
                big > 0,
        ;
        rounding::lemma_nearest_cross(
            ((ma * x) * unit_steps()) as nat,
            (mb * y) as nat,
            (num * pf) as nat,
            (den * big) as nat,
        );
    }
    let m: u128 = if r == 0 {
        2 * q
    } else {
        2 * q + 1
    };
    pack(m, f - 1)
}

/// Magnitudes are ordered as their encodings.
pub proof fn lemma_steps_increase(a: nat, b: nat)
    requires
        a < b,
    ensures
        steps(a) < steps(b),
{
    let w: nat = BINADE as nat;
    lemma_pow2_pos(0);
    lemma2_to64();
    if b >= w {
        let kb: nat = b / w;
        let rb: nat = b % w;
        lemma_pow2_pos((kb - 1) as nat);
        let pb: nat = pow2((kb - 1) as nat);
        if a < w {
            assert((w + rb) * pb >= w) by (nonlinear_arith)
                requires
                    pb >= 1,
                    rb >= 0,
            ;
        } else {
            let ka: nat = a / w;
            let ra: nat = a % w;
            let pa: nat = pow2((ka - 1) as nat);
            lemma_pow2_pos((ka - 1) as nat);
            if ka == kb {
                assert((w + ra) * pa < (w + rb) * pb) by (nonlinear_arith)
                    requires
                        ra < rb,
                        pa == pb,
                        pa > 0,
                ;
            } else {
                rounding::lemma_pow2_monotone(ka, (kb - 1) as nat);
                lemma_pow2_unfold(ka);
                assert((w + ra) * pa < (w + rb) * pb) by (nonlinear_arith)
                    requires
                        ra < w,
                        rb >= 0,
                        2 * pa <= pb,
                        pa > 0,
                        w > 0,
                ;
            }
        }
    }
}

/// An encoding up to that of 2^98 stands for at most 2^98.
proof fn lemma_steps_bound(code: nat)
    requires
        code <= 0x4610_0000_0000_0000,
    ensures
        steps(code) <= 0x4_0000_0000_0000_0000_0000_0000 * unit_steps(),
{
    if code < 0x4610_0000_0000_0000 {
        lemma_steps_increase(code, 0x4610_0000_0000_0000);
    }
    assert(0x4610_0000_0000_0000nat / (BINADE as nat) == 1121);
    assert(0x4610_0000_0000_0000nat % (BINADE as nat) == 0);
    lemma_pow2_adds(46, 1074);
    lemma2_to64();
    lemma2_to64_rest();
    assert((BINADE as nat) * (pow2(46) * unit_steps()) == 0x4_0000_0000_0000_0000_0000_0000
        * unit_steps()) by (nonlinear_arith)
        requires
            pow2(46) == 0x4000_0000_0000,
    ;
}

/// Encoding of the sum or the difference of two magnitudes, the larger one first.
fn combined_code(hi: u64, lo: u64, subtract: bool) -> (code: u64)
    requires
        lo <= hi < INFINITY_BITS,
    ensures
        subtract ==> steps(lo as nat) <= steps(hi as nat) && code == nearest(
            (steps(hi as nat) - steps(lo as nat)) as nat,
            1,
        ),
        !subtract ==> code == nearest(steps(hi as nat) + steps(lo as nat), 1),
{
    let (mh, eh) = significand(hi);
    let (ml, el) = significand(lo);
    let ghost big: nat = pow2(SCALE as nat);
    let ghost x: nat = pow2(eh as nat);
    let ghost y: nat = pow2(el as nat);
    let ghost value: int = if subtract {
        mh * x - ml * y
    } else {
        mh * x + ml * y
    };
    proof {
        lemma_pow2_pos(SCALE as nat);
        lemma_pow2_pos(eh as nat);
        lemma_pow2_pos(el as nat);
        rounding::lemma_wide();
        if lo < hi {
            lemma_steps_increase(lo as nat, hi as nat);
        }
        assert(value >= 0);
        if eh < el {
            rounding::lemma_pow2_monotone((eh + 1) as nat, el as nat);
            lemma_pow2_unfold((eh + 1) as nat);
            assert(mh * x < ml * y) by (nonlinear_arith)
                requires
                    mh < 2 * BINADE,
                    ml >= BINADE,
                    2 * x <= y,
                    x > 0,
            ;
        }
    }
    let d: u32 = eh - el;
    if d <= 70 {
        let p: u128 = power_of_two(d);
        let f: u32 = el + SCALE;
        proof {
            lemma_pow2_adds(d as nat, el as nat);
            lemma_pow2_adds(el as nat, SCALE as nat);
            rounding::lemma_pow2_monotone(d as nat, 70);
            rounding::lemma_seventy();
            assert(mh * p < 0x20_0000_0000_0000 * 0x40_0000_0000_0000_0000) by (nonlinear_arith)
                requires
                    mh < 0x20_0000_0000_0000,
                    p <= 0x40_0000_0000_0000_0000,
            ;
            assert(mh * x == (mh * p) * y) by (nonlinear_arith)
                requires
                    x == p * y,
            ;
            if subtract {
                assert(mh * p >= ml) by (nonlinear_arith)
                    requires
                        (mh * p) * y >= ml * y,
                        y > 0,
                ;
            }
        }
        let top: u128 = (mh as u128) * p;
        let m: u128 = if subtract {
            top - ml as u128
        } else {
            top + ml as u128
        };
        proof {
            let pf: nat = pow2(f as nat);
            assert(value == m * y) by (nonlinear_arith)
                requires
                    top == mh * p,
                    m == (if subtract { top - ml } else { top + ml }),
                    value == (if subtract { (mh * p) * y - ml * y } else { (mh * p) * y + ml * y }),
            ;
            assert(value * big == (m * pf) * 1) by (nonlinear_arith)
                requires
                    value == m * y,
                    pf == y * big,
            ;
            rounding::lemma_nearest_cross(value as nat, 1, (m * pf) as nat, big);
        }
        return pack(m, f);
    }
    // The smaller magnitude only decides on which side of the larger one the result lies.
    let f: u32 = eh - 10 + SCALE;
    let top: u128 = (mh as u128) * 1024;
    let ghost g: nat = (d - 10) as nat;
    let ghost den: nat = pow2(g);
    let ghost num: int = if subtract {
        top * den - ml
    } else {
        top * den + ml
    };
    proof {
        lemma2_to64();
        lemma2_to64_rest();
        rounding::lemma_pow2_monotone(61, g);
        lemma_pow2_adds(10, g);
        lemma_pow2_adds(d as nat, el as nat);
        lemma_pow2_adds(g, SCALE as nat);
        lemma_pow2_split(el as nat, (g + SCALE) as nat, f as nat, 0);
        let pf: nat = pow2(f as nat);
        assert(mh * x == (top * den) * y) by (nonlinear_arith)
            requires
                top == mh * 1024,
                x == (1024 * den) * y,
        ;
        assert(value == num * y) by (nonlinear_arith)
            requires
                num == (if subtract { top * den - ml } else { top * den + ml }),
                value == (if subtract { (top * den) * y - ml * y } else { (top * den) * y + ml * y }),
        ;
        assert(top * den >= den) by (nonlinear_arith)
            requires
                top >= 1,
                den >= 0,
        ;
        assert(value * (den * big) == (num * pf) * 1) by (nonlinear_arith)
            requires
                value == num * y,
                y * (den * big) == pf,
        ;
        assert(den * big > 0) by (nonlinear_arith)
            requires
                den > 0,
                big > 0,
        ;
        rounding::lemma_nearest_cross(value as nat, 1, (num * pf) as nat, den * big);
        if subtract && ml > 0 {
            assert(num == (top - 1) * den + (den - ml)) by (nonlinear_arith)
                requires
                    num == top * den - ml,
            ;
            lemma_fundamental_div_mod_converse(num, den as int, top - 1, den - ml);
        } else {
            assert(num == top * den + ml) by (nonlinear_arith)
                requires
                    num == (if subtract { top * den - ml } else { top * den + ml }),
                    subtract ==> ml == 0,
            ;
            lemma_fundamental_div_mod_converse(num, den as int, top as int, ml as int);
        }
        let q: nat = num as nat / den;
        rounding::lemma_bit_len_bounds(q);
        if rounding::bit_len(q) < 55 {
            rounding::lemma_pow2_monotone(rounding::bit_len(q), 54);
        }
        rounding::lemma_nearest_jam(num as nat, den, f as nat);
    }
    let m: u128 = if ml == 0 {
        2 * top
    } else if subtract {
        2 * (top - 1) + 1
    } else {
        2 * top + 1
    };
    pack(m, f - 1)
}

/// Integer part of a finite magnitude, held to 2^64, and what is left of it:
/// whether anything, and whether at least one half.
fn integer_part(code: u64) -> (r: (u128, bool, bool))
    requires
        code < INFINITY_BITS,
    ensures
        r.0 == (if steps(code as nat) / unit_steps() <= u64::MAX {
            steps(code as nat) / unit_steps()
        } else {
            0x1_0000_0000_0000_0000nat
        }),
        r.1 == (steps(code as nat) % unit_steps() != 0),
        r.2 == (2 * (steps(code as nat) % unit_steps()) >= unit_steps()),
{
    let (m, e) = significand(code);
    proof {
        lemma_pow2_pos(1074);
        lemma_pow2_pos(e as nat);
        lemma2_to64();
        lemma2_to64_rest();
    }
    if e >= 1074 {
        let s: u32 = e - 1074;
        let ghost q: int = m * pow2(s as nat);
        proof {
            lemma_pow2_adds(s as nat, 1074);
            assert(m * pow2(e as nat) == q * unit_steps() + 0) by (nonlinear_arith)
                requires
                    q == m * pow2(s as nat),
                    pow2(e as nat) == pow2(s as nat) * unit_steps(),
            ;
            assert(q >= 0) by (nonlinear_arith)
                requires
                    q == m * pow2(s as nat),
            ;
            lemma_fundamental_div_mod_converse(m * pow2(e as nat), unit_steps() as int, q, 0);
        }
        if s >= 12 {
            proof {
                rounding::lemma_pow2_monotone(12, s as nat);
                assert(q >= 0x1_0000_0000_0000_0000) by (nonlinear_arith)
                    requires
                        q == m * pow2(s as nat),
                        m >= BINADE,
                        pow2(s as nat) >= 4096,
                ;
            }
            (0x1_0000_0000_0000_0000, false, false)
        } else {
            let p: u128 = power_of_two(s);
            proof {
                rounding::lemma_pow2_monotone(s as nat, 11);
                assert(q <= u64::MAX) by (nonlinear_arith)
                    requires
                        q == m * p,
                        m < 0x20_0000_0000_0000,
                        p <= 2048,
                ;
            }
            ((m as u128) * p, false, false)
        }
    } else {
        let s: u32 = 1074 - e;
        proof {
            lemma_pow2_adds(s as nat, e as nat);
            lemma_pow2_pos(s as nat);
            rounding::lemma_div_scale(m as nat, pow2(s as nat), pow2(e as nat));
            let r: nat = m as nat % pow2(s as nat);
            let pe: nat = pow2(e as nat);
            assert(r * pe == 0 <==> r == 0) by (nonlinear_arith)
                requires
                    pe > 0,
            ;
            assert(2 * (r * pe) >= pow2(s as nat) * pe <==> 2 * r >= pow2(s as nat))
                by (nonlinear_arith)
                requires
                    pe > 0,
            ;
        }
        if s >= 64 {
            proof {
                rounding::lemma_pow2_monotone(64, s as nat);
                lemma_basic_div(m as int, pow2(s as nat) as int);
                lemma_small_mod(m as nat, pow2(s as nat));
            }
            (0, m != 0, false)
        } else {
            let p: u128 = power_of_two(s);
            let r: u128 = (m as u128) % p;
            proof {
                rounding::lemma_pow2_monotone(s as nat, 63);
                lemma_div_is_ordered_by_denominator(m as int, 1, p as int);
            }
            ((m as u128) / p, r != 0, 2 * r >= p)
        }
    }
}

impl Binary64 {
    /// The number with this encoding.
    pub fn from_bits(bits: u64) -> (r: Self)
        ensures
            r.bits == bits,
    {
        Binary64 { bits }
    }

    /// The encoding of this number.
    pub fn to_bits(self) -> (bits: u64)
        ensures
            bits == self.bits,
    {
        self.bits
    }

    /// The whole number `n`, rounded.
    pub fn from_u128(n: u128) -> (r: Self)
        requires
            n < 0x8000_0000_0000_0000_0000_0000_0000_0000,
        ensures
            r == whole_number(n as nat),
    {
        let f: u32 = 1074 + SCALE;
        proof {
            let big: nat = pow2(SCALE as nat);
            lemma_pow2_adds(1074, SCALE as nat);
            lemma_pow2_pos(SCALE as nat);
            assert((n * unit_steps()) * big == (n * pow2(f as nat)) * 1) by (nonlinear_arith)
                requires
                    pow2(f as nat) == unit_steps() * big,
            ;
            rounding::lemma_nearest_cross(
                (n * unit_steps()) as nat,
                1,
                (n * pow2(f as nat)) as nat,
                big,
            );
        }
        Binary64 { bits: pack(n, f) }
    }

    /// The whole number `n`, rounded.
    pub fn from_u64(n: u64) -> (r: Self)
        ensures
            r == whole_number(n as nat),
    {
        Self::from_u128(n as u128)
    }

    /// Whether the sign bit is set.
    pub fn is_sign_negative(self) -> (r: bool)
        ensures
            r == self.negative(),
    {
        self.bits >= SIGN_BIT
    }

    fn magnitude(self) -> (code: u64)
        ensures
            code == self.code(),
    {
        if self.bits >= SIGN_BIT {
            self.bits - SIGN_BIT
        } else {
            self.bits
        }
    }

    fn with_sign(negative: bool, code: u64) -> (r: Self)
        requires
            code < SIGN_BIT,
        ensures
            r == signed(negative, code as nat),
    {
        if negative {
            Binary64 { bits: SIGN_BIT + code }
        } else {
            Binary64 { bits: code }
        }
    }

    /// Whether this is not a number.
    pub fn is_nan(self) -> (r: bool)
        ensures
            r == self.nan(),
    {
        self.magnitude() > INFINITY_BITS
    }

    /// Whether `self < other`.
    pub fn lt(self, other: Self) -> (r: bool)
        ensures
            r == less(self, other),
    {
        let a: u64 = self.magnitude();
        let b: u64 = other.magnitude();
        if a > INFINITY_BITS || b > INFINITY_BITS {
            false
        } else if self.is_sign_negative() {
            if other.is_sign_negative() {
                b < a
            } else {
                a > 0 || b > 0
            }
        } else {
            !other.is_sign_negative() && a < b
        }
    }

    /// Whether `self <= other`.
    pub fn le(self, other: Self) -> (r: bool)
        ensures
            r == at_most(self, other),
    {
        !self.is_nan() && !other.is_nan() && !other.lt(self)
    }

    /// `self + other`, rounded.
    pub fn plus(self, other: Self) -> (r: Self)
        ensures
            r == sum(self, other),
    {
        let a: u64 = self.magnitude();
        let b: u64 = other.magnitude();
        let negative: bool = self.is_sign_negative();
        if a > INFINITY_BITS || b > INFINITY_BITS {
            return Binary64 { bits: NAN_BITS };
        }
        if a == INFINITY_BITS {
            return if b == INFINITY_BITS && negative != other.is_sign_negative() {
                Binary64 { bits: NAN_BITS }
            } else {
                self
            };
        }
        if b == INFINITY_BITS {
            return other;
        }
        proof {
            if a < b {
                lemma_steps_increase(a as nat, b as nat);
            }
            if b < a {
                lemma_steps_increase(b as nat, a as nat);
            }
        }
        if negative == other.is_sign_negative() {
            let code: u64 = if a >= b {
                combined_code(a, b, false)
            } else {
                combined_code(b, a, false)
            };
            Self::with_sign(negative, code)
        } else if a > b {
            Self::with_sign(negative, combined_code(a, b, true))
        } else if a < b {
            Self::with_sign(!negative, combined_code(b, a, true))
        } else {
            Binary64 { bits: 0 }
        }
    }

    /// `self - other`, rounded.
    pub fn minus(self, other: Self) -> (r: Self)
        ensures
            r == difference(self, other),
    {
        let opposed: Self = Self::with_sign(!other.is_sign_negative(), other.magnitude());
        self.plus(opposed)
    }

    /// `self * other`, rounded.
    pub fn times(self, other: Self) -> (r: Self)
        ensures
            r == product(self, other),
    {
        let a: u64 = self.magnitude();
        let b: u64 = other.magnitude();
        let negative: bool = self.is_sign_negative() != other.is_sign_negative();
        if a > INFINITY_BITS || b > INFINITY_BITS {
            Binary64 { bits: NAN_BITS }
        } else if a == INFINITY_BITS || b == INFINITY_BITS {
            if a == 0 || b == 0 {
                Binary64 { bits: NAN_BITS }
            } else {
                Self::with_sign(negative, INFINITY_BITS)
            }
        } else {
            Self::with_sign(negative, product_code(a, b))
        }
    }

    /// `self / other`, rounded.
    pub fn over(self, other: Self) -> (r: Self)
        ensures
            r == quotient(self, other),
    {
        let a: u64 = self.magnitude();
        let b: u64 = other.magnitude();
        let negative: bool = self.is_sign_negative() != other.is_sign_negative();
        if a > INFINITY_BITS || b > INFINITY_BITS {
            Binary64 { bits: NAN_BITS }
        } else if a == INFINITY_BITS {
            if b == INFINITY_BITS {
                Binary64 { bits: NAN_BITS }
            } else {
                Self::with_sign(negative, INFINITY_BITS)
            }
        } else if b == INFINITY_BITS {
            Self::with_sign(negative, 0)
        } else if b == 0 {
            if a == 0 {
                Binary64 { bits: NAN_BITS }
            } else {
                Self::with_sign(negative, INFINITY_BITS)
            }
        } else {
            Self::with_sign(negative, quotient_code(a, b))
        }
    }

    /// The larger of two numbers; the other one where one is not a number.
    pub fn max(self, other: Self) -> (r: Self)
        ensures
            r == larger(self, other),
    {
        if self.is_nan() || self.lt(other) {
            other
        } else {
            self
        }
    }

    /// The smaller of two numbers; the other one where one is not a number.
    pub fn min(self, other: Self) -> (r: Self)
        ensures
            r == smaller(self, other),
    {
        if self.is_nan() || other.lt(self) {
            other
        } else {
            self
        }
    }

    /// Restricts the number to `[low, high]`.
    pub fn clamp(self, low: Self, high: Self) -> (r: Self)
        ensures
            r == clamped(self, low, high),
    {
        if self.lt(low) {
            low
        } else if high.lt(self) {
            high
        } else {
            self
        }
    }

    /// Conversion to an integer: truncates, saturates, and maps not-a-number to 0.
    pub fn to_u64(self) -> (r: u64)
        ensures
            r == truncated(self),
    {
        let code: u64 = self.magnitude();
        if code > INFINITY_BITS || self.is_sign_negative() {
            0
        } else if code == INFINITY_BITS {
            u64::MAX
        } else {
            let (q, _, _) = integer_part(code);
            if q <= u64::MAX as u128 {
                q as u64
            } else {
                u64::MAX
            }
        }
    }

    /// The integer nearest to `k` times the magnitude, ties to even.
    pub fn scaled_half_even(self, k: u64) -> (r: u128)
        requires
            self.code() <= 0x4610_0000_0000_0000,
            k <= 1_000_000_000,
        ensures
            r == half_even(self.size() * k as nat, unit_steps()),
    {
        let (m, e) = significand(self.magnitude());
        proof {
            lemma_pow2_pos(1074);
            rounding::lemma_wide();
            lemma2_to64();
            lemma2_to64_rest();
            assert(m * k <= 0x20_0000_0000_0000 * 1_000_000_000) by (nonlinear_arith)
                requires
                    m <= 0x20_0000_0000_0000,
                    k <= 1_000_000_000,
            ;
        }
        let mk: u128 = (m as u128) * (k as u128);
        proof {
            let x: nat = pow2(e as nat);
            assert(self.size() * k == mk * x) by (nonlinear_arith)
                requires
                    self.size() == m * x,
                    mk == m * k,
            ;
        }
        if e >= 1074 {
            let s: u32 = e - 1074;
            let p: u128 = power_of_two(s);
            proof {
                lemma_steps_bound(self.code());
                lemma_pow2_adds(s as nat, 1074);
                assert(m * p <= 0x4_0000_0000_0000_0000_0000_0000) by (nonlinear_arith)
                    requires
                        m * pow2(e as nat) <= 0x4_0000_0000_0000_0000_0000_0000 * unit_steps(),
                        pow2(e as nat) == p * unit_steps(),
                        unit_steps() > 0,
                ;
                assert(mk * p == (m * p) * k) by (nonlinear_arith)
                    requires
                        mk == m * k,
                ;
                assert((m * p) * k <= 0x4_0000_0000_0000_0000_0000_0000 * 1_000_000_000)
                    by (nonlinear_arith)
                    requires
                        m * p <= 0x4_0000_0000_0000_0000_0000_0000,
                        k <= 1_000_000_000,
                ;
                rounding::lemma_half_even_exact(mk as nat, e as nat, 1074);
            }
            mk * p
        } else {
            let s: u32 = 1074 - e;
            proof {
                rounding::lemma_half_even_shift(mk as nat, 1, e as nat, 1074);
                assert(1 * pow2(s as nat) == pow2(s as nat));
                assert(1 * pow2(1074) == pow2(1074));
            }
            shift_half_even(mk, s)
        }
    }

    /// Conversion of the next integer upwards.
    pub fn ceil_to_u64(self) -> (r: u64)
        ensures
            r == truncated_up(self),
    {
        let code: u64 = self.magnitude();
        if code > INFINITY_BITS || self.is_sign_negative() {
            0
        } else if code == INFINITY_BITS {
            u64::MAX
        } else {
            let (q, rest, _) = integer_part(code);
            if q < u64::MAX as u128 {
                if rest {
                    q as u64 + 1
                } else {
                    q as u64
                }
            } else {
                u64::MAX
            }
        }
    }

    /// Conversion of the nearest integer, halves away from zero.
    pub fn round_to_u64(self) -> (r: u64)
        ensures
            r == rounded(self),
    {
        let code: u64 = self.magnitude();
        if code > INFINITY_BITS || self.is_sign_negative() {
            0
        } else if code == INFINITY_BITS {
            u64::MAX
        } else {
            let (q, _, half) = integer_part(code);
            if q < u64::MAX as u128 {
                if half {
                    q as u64 + 1
                } else {
                    q as u64
                }
            } else {
                u64::MAX
            }
        }
    }
}

impl PartialEq for Binary64 {
    fn eq(&self, other: &Self) -> (r: bool) {
        self.le(*other) && other.le(*self)
    }
}

impl vstd::std_specs::cmp::PartialEqSpecImpl for Binary64 {
    open spec fn obeys_eq_spec() -> bool {
        true
    }

    open spec fn eq_spec(&self, other: &Self) -> bool {
        at_most(*self, *other) && at_most(*other, *self)
    }
}

} // verus!
