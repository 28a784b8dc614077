//! Binary64 arithmetic against the machine's own.

use vidaptive::binary64::rounding::{bit_length, power_of_two, shift_half_even};
use vidaptive::Binary64;

fn number(x: f64) -> Binary64 {
    Binary64::from_bits(x.to_bits())
}

/// Equal encodings, or both not a number.
fn same(got: Binary64, want: f64) -> bool {
    if want.is_nan() {
        got.is_nan()
    } else {
        got.to_bits() == want.to_bits()
    }
}

/// Equal as numbers, or both not a number.
fn equal(got: Binary64, want: f64) -> bool {
    let x = f64::from_bits(got.to_bits());
    x == want || (x.is_nan() && want.is_nan())
}

struct Random {
    state: u64,
}

impl Random {
    fn next(&mut self) -> u64 {
        self.state ^= self.state << 13;
        self.state ^= self.state >> 7;
        self.state ^= self.state << 17;
        self.state
    }

    /// Encodings of every kind: any bits, moderate magnitudes, and neighbours of powers of two.
    fn float(&mut self) -> f64 {
        let bits = self.next();
        match self.next() % 5 {
            0 => f64::from_bits(bits),
            1 => f64::from_bits((bits & 0x800F_FFFF_FFFF_FFFF) | (0x3F0 + bits % 0x20) << 52),
            2 => f64::from_bits(bits & 0x801F_FFFF_FFFF_FFFF),
            3 => f64::from_bits(((0x3F0 + bits % 0x40) << 52).wrapping_sub(bits % 3)),
            _ => (bits >> (bits % 60)) as f64,
        }
    }
}

fn edges() -> Vec<f64> {
    vec![
        0.0,
        -0.0,
        1.0,
        -1.0,
        0.1,
        0.5,
        2.0,
        1.0 + f64::EPSILON,
        1.0 - f64::EPSILON / 2.0,
        f64::MAX,
        f64::MIN,
        f64::MIN_POSITIVE,
        f64::from_bits(1),
        f64::from_bits(0x000F_FFFF_FFFF_FFFF),
        f64::INFINITY,
        f64::NEG_INFINITY,
        f64::NAN,
        9007199254740991.0,
        9007199254740992.0,
        18446744073709551615.0,
        18446744073709549568.0,
        1e-9,
        1e300,
        -1e-300,
    ]
}

fn check_pair(x: f64, y: f64) {
    let a = number(x);
    let b = number(y);
    assert!(same(a.plus(b), x + y), "{} + {}", x, y);
    assert!(same(a.minus(b), x - y), "{} - {}", x, y);
    assert!(same(a.times(b), x * y), "{} * {}", x, y);
    assert!(same(a.over(b), x / y), "{} / {}", x, y);
    assert!(equal(a.max(b), x.max(y)), "max {} {}", x, y);
    assert!(equal(a.min(b), x.min(y)), "min {} {}", x, y);
    assert_eq!(a.lt(b), x < y);
    assert_eq!(a.le(b), x <= y);
    assert_eq!(a == b, x == y);
}

fn check_one(x: f64) {
    let a = number(x);
    assert_eq!(a.is_nan(), x.is_nan());
    assert_eq!(a.is_sign_negative(), x.is_sign_negative());
    assert_eq!(a.to_u64(), x as u64, "{} as u64", x);
    assert_eq!(a.ceil_to_u64(), x.ceil() as u64, "ceil {}", x);
    assert_eq!(a.round_to_u64(), x.round() as u64, "round {}", x);
    assert!(equal(
        a.clamp(number(0.05), number(1.0)),
        x.clamp(0.05, 1.0)
    ));
}

#[test]
fn arithmetic_agrees_on_edge_values() {
    for x in edges() {
        check_one(x);
        for y in edges() {
            check_pair(x, y);
        }
    }
}

#[test]
fn arithmetic_agrees_on_random_values() {
    let mut random = Random {
        state: 0x9E37_79B9_7F4A_7C15,
    };
    for _ in 0..200_000 {
        let x = random.float();
        let y = random.float();
        check_one(x);
        check_pair(x, y);
        // Close magnitudes cancel.
        check_pair(x, f64::from_bits(x.to_bits().wrapping_add(random.next() % 5)));
    }
}

#[test]
fn halves_round_as_the_machine_does() {
    for k in 0..2_000u64 {
        let x = k as f64 / 4.0;
        check_one(x);
        check_one(-x);
        check_one((k as f64 + 0.5) * 4503599627370496.0);
    }
}

#[test]
fn integers_convert_as_the_machine_does() {
    let mut random = Random { state: 77 };
    for _ in 0..100_000 {
        let n = random.next() >> (random.next() % 64);
        assert_eq!(Binary64::from_u64(n).to_bits(), (n as f64).to_bits());
        let wide = ((random.next() as u128) << 63 | random.next() as u128) >> (random.next() % 127);
        assert_eq!(Binary64::from_u128(wide).to_bits(), (wide as f64).to_bits());
    }
    for n in [0u64, 1, 2, (1 << 53) - 1, 1 << 53, (1 << 53) + 1, u64::MAX, u64::MAX - 1024] {
        assert_eq!(Binary64::from_u64(n).to_bits(), (n as f64).to_bits());
    }
}

#[test]
fn scaling_rounds_half_to_even() {
    // 2.5 and 3.5 at scale 1.
    assert_eq!(number(2.5).scaled_half_even(1), 2);
    assert_eq!(number(3.5).scaled_half_even(1), 4);
    assert_eq!(number(0.1).scaled_half_even(1_000_000_000), 100_000_000);
    // The number nearest to 1.5e-9 is below it.
    assert_eq!(number(1.5e-9).scaled_half_even(1_000_000_000), 1);
    assert_eq!(number(0.0009765625).scaled_half_even(1_536), 2);
    assert_eq!(number(0.0009765625).scaled_half_even(2_560), 2);
    assert_eq!(number(0.0).scaled_half_even(1_000_000_000), 0);
}

#[test]
fn whole_shifts_round_half_to_even() {
    assert_eq!(bit_length(0), 0);
    assert_eq!(bit_length(1), 1);
    assert_eq!(bit_length(255), 8);
    assert_eq!(bit_length(u128::MAX), 128);
    assert_eq!(power_of_two(0), 1);
    assert_eq!(power_of_two(100), 1u128 << 100);
    assert_eq!(shift_half_even(6, 2), 2);
    assert_eq!(shift_half_even(10, 2), 2);
    assert_eq!(shift_half_even(11, 2), 3);
}
