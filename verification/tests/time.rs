//! Durations and clock readings.

use vidaptive::{Binary64, Duration, Instant};

fn float(x: Binary64) -> f64 {
    f64::from_bits(x.to_bits())
}

#[test]
fn constructors_count_nanoseconds() {
    assert_eq!(Duration::from_secs(3).nanos, 3_000_000_000);
    assert_eq!(Duration::from_millis(3), Duration::from_micros(3_000));
    assert_eq!(Duration::from_micros(3), Duration::from_nanos(3_000));
    assert_eq!(
        Duration::from_secs(u64::MAX).nanos,
        std::time::Duration::from_secs(u64::MAX).as_nanos()
    );
    assert!(Duration::zero().is_zero());
    assert!(!Duration::from_nanos(1).is_zero());
    assert_eq!(
        Duration::max_value().nanos,
        std::time::Duration::MAX.as_nanos()
    );
}

#[test]
fn seconds_agree_with_the_standard_library() {
    let mut n: u64 = 1;
    for k in 0..400u64 {
        n = n.wrapping_mul(6364136223846793005).wrapping_add(k);
        let nanos = n >> (k % 64);
        let std = std::time::Duration::from_nanos(nanos);
        let own = Duration::from_nanos(nanos);
        assert_eq!(own.as_secs().to_bits(), std.as_secs_f64().to_bits());
        assert_eq!(
            own.fraction().to_bits(),
            (f64::from(std.subsec_nanos()) / 1_000_000_000.0).to_bits()
        );
        for factor in [0.125, 0.25, 0.75, 0.875, 1.0 / 3.0] {
            let secs = std.as_secs_f64() * factor;
            let want = std::time::Duration::from_secs_f64(secs).as_nanos();
            let got = Duration::from_secs_nearest(Binary64::from_bits(secs.to_bits()));
            assert_eq!(got.nanos, want, "{} s", secs);
        }
    }
    assert_eq!(float(Duration::from_millis(1_500).as_secs()), 1.5);
    assert_eq!(float(Duration::from_millis(1_500).fraction()), 0.5);
}

#[test]
fn spans_compare_and_subtract() {
    let a = Duration::from_millis(5);
    let b = Duration::from_millis(8);
    assert_eq!(a.longer(b), b);
    assert_eq!(b.longer(a), b);
    assert_eq!(b.saturating_sub(a), Duration::from_millis(3));
    assert_eq!(a.saturating_sub(b), Duration::zero());
    assert_eq!(a.abs_diff(b), b.abs_diff(a));
    assert_eq!(a.abs_diff(b), Duration::from_millis(3));
    assert_eq!(Duration::from_nanos(7).half(), Duration::from_nanos(3));
    assert_eq!(Duration::from_nanos(2_999).micros_saturated(), 2);
    assert_eq!(Duration::from_secs(u64::MAX).micros_saturated(), u64::MAX);
}

#[test]
fn clock_readings_are_ordered() {
    let t0 = Instant::from_nanos(100);
    let t1 = t0.after(Duration::from_nanos(50));
    assert_eq!(t1.as_nanos(), 150);
    assert!(t0.is_before(t1) && !t1.is_before(t0) && !t0.is_before(t0));
    assert_eq!(t0.later(t1), t1);
    assert_eq!(t1.later(t0), t1);
    assert_eq!(t1.saturating_duration_since(t0), Duration::from_nanos(50));
    assert_eq!(t0.saturating_duration_since(t1), Duration::zero());
    assert_eq!(t1.checked_sub(Duration::from_nanos(50)), Some(t0));
    assert_eq!(
        t0.checked_sub(Duration::from_secs(1)),
        Some(Instant::from_nanos(100 - 1_000_000_000))
    );
    assert_eq!(t0.checked_sub(Duration::max_value()), None);
}
