//! The α optimizer.

use vidaptive::encoder_ctrl::AlphaController;
use vidaptive::metrics::FrameTimingBuffer;
use vidaptive::types::FrameServiceSample;
use vidaptive::{Binary64, Duration, Instant, VidaptiveConfig};

fn number(x: f64) -> Binary64 {
    Binary64::from_bits(x.to_bits())
}

fn float(x: Binary64) -> f64 {
    f64::from_bits(x.to_bits())
}

fn samples(config: &VidaptiveConfig, times: &[(u64, u64, u64)]) -> FrameTimingBuffer {
    let mut buffer = FrameTimingBuffer::new(config.optimizer_window());
    for (millis, target, rate) in times {
        buffer.push(FrameServiceSample {
            service_time: Duration::from_millis(*millis),
            target_bitrate_bps: *target,
            cc_rate_bytes_per_sec: *rate,
            at: Instant::from_nanos(0),
        });
    }
    buffer
}

#[test]
fn high_service_times_reduce_alpha() {
    let config = VidaptiveConfig::default();
    let mut controller = AlphaController::new(&config);
    let mut samples = FrameTimingBuffer::new(config.optimizer_window());
    let now = Instant::from_nanos(0);

    for _ in 0..10 {
        samples.push(FrameServiceSample {
            service_time: Duration::from_millis(80),
            target_bitrate_bps: 8_000_000,
            cc_rate_bytes_per_sec: 1_000_000,
            at: now,
        });
    }

    let (alpha, _) = controller.update(&samples, 1_000_000, false);
    assert!(float(alpha) < 1.0);
}

/// A span in seconds, on native floats.
fn secs(millis: u64) -> f64 {
    std::time::Duration::from_millis(millis).as_secs_f64()
}

/// The unsmoothed α on native floats.
fn reference_alpha(times: &[(u64, u64, u64)], target_millis: u64, p: f64) -> f64 {
    let mut values: Vec<f64> = Vec::new();
    for (millis, target, rate) in times {
        if *target != 0 {
            values.push(secs(*millis) * (*rate as f64 / (*target as f64 / 8.0)));
        }
    }
    if values.is_empty() {
        return 1.0;
    }
    values.sort_by(|a, b| a.partial_cmp(b).unwrap());
    let n = values.len();
    let index = (n - 1) as f64 * p;
    let (lower, upper) = (index.floor() as usize, index.ceil() as usize);
    let x = if n == 1 || lower == upper {
        values[lower]
    } else {
        values[lower] + (index - lower as f64) * (values[upper] - values[lower])
    };
    (secs(target_millis) / x.max(f64::EPSILON)).clamp(0.05, 1.0)
}

#[test]
fn alpha_and_target_agree_with_native_floats() {
    let times = [
        (80, 8_000_000, 1_000_000),
        (12, 7_500_000, 1_100_000),
        (33, 1_234_567, 987_654),
        (1_500, 0, 5),
        (47, 3, 2),
        (999, 90_000_000, 1_000_001),
        (2_001, 12_000_000, 777_777),
    ];
    for take in 0..=times.len() {
        for p in [0.1, 0.5, 0.9, 1.0] {
            for factor in [0.0, 0.25, 0.7, 1.0] {
                let config = VidaptiveConfig::builder()
                    .latency_percentile(number(p))
                    .alpha_ewma(number(factor))
                    .optimizer_window(Duration::from_secs(10))
                    .build()
                    .unwrap();
                let mut controller = AlphaController::new(&config);
                let buffer = samples(&config, &times[..take]);
                let mut expected = 1.0;
                for rate in [1_000_000u64, 3, 123_456_789] {
                    let (alpha, target) = controller.update(&buffer, rate, false);
                    let raw = reference_alpha(&times[..take], 33, p);
                    expected = expected * (1.0 - factor) + raw * factor;
                    assert_eq!(alpha.to_bits(), f64::to_bits(expected));
                    assert_eq!(target, (expected * rate as f64 * 8.0).round() as u64);
                    assert_eq!(controller.alpha().to_bits(), alpha.to_bits());
                }
            }
        }
    }
}

#[test]
fn nothing_is_updated_while_paused_or_without_a_rate() {
    let config = VidaptiveConfig::default();
    let mut controller = AlphaController::new(&config);
    let buffer = samples(&config, &[(500, 8_000_000, 1_000_000)]);
    for (rate, paused) in [(1_000_000, true), (0, false), (0, true)] {
        let (alpha, target) = controller.update(&buffer, rate, paused);
        assert_eq!(float(alpha), 1.0);
        assert_eq!(target, 0);
    }
}

#[test]
fn alpha_stays_between_a_thirty_second_and_one() {
    let config = VidaptiveConfig::default();
    let mut controller = AlphaController::new(&config);
    let slow = samples(&config, &[(60_000, 1, u64::MAX)]);
    for _ in 0..500 {
        let (alpha, target) = controller.update(&slow, 1_000, false);
        assert!(float(alpha) >= 1.0 / 32.0 && float(alpha) <= 1.0);
        assert!(target <= 8_000);
    }
    assert!(float(controller.alpha()) < 0.051);
    let fast = samples(&config, &[(1, 8_000, 1_000)]);
    for _ in 0..500 {
        let (alpha, _) = controller.update(&fast, 1_000, false);
        assert!(float(alpha) >= 1.0 / 32.0 && float(alpha) <= 1.0);
    }
    assert!(float(controller.alpha()) > 0.999);
}

#[test]
fn a_higher_percentile_or_a_lower_target_is_more_conservative() {
    let times = [
        (20, 8_000_000, 1_000_000),
        (50, 8_000_000, 1_000_000),
        (90, 8_000_000, 1_000_000),
    ];
    let alpha = |percentile: f64, target: u64| {
        let config = VidaptiveConfig::builder()
            .latency_percentile(number(percentile))
            .target_service_time(Duration::from_millis(target))
            .build()
            .unwrap();
        let buffer = samples(&config, &times);
        float(AlphaController::new(&config).update(&buffer, 1_000_000, false).0)
    };
    assert!(alpha(0.9, 33) < alpha(0.5, 33));
    assert!(alpha(0.5, 33) < alpha(0.2, 33));
    assert!(alpha(0.9, 20) < alpha(0.9, 33));
}

#[test]
fn alpha_is_one_while_frames_are_served_in_time() {
    let config = VidaptiveConfig::default();
    let buffer = samples(&config, &[(33, 8_000_000, 1_000_000), (5, 8_000_000, 1_000_000)]);
    let (alpha, target) = AlphaController::new(&config).update(&buffer, 1_000_000, false);
    assert_eq!(float(alpha), 1.0);
    assert_eq!(target, 8_000_000);
}

#[test]
fn a_target_of_a_whole_second_is_less_conservative_than_a_shorter_one() {
    let alpha = |target: u64, frame: u64| {
        let config = VidaptiveConfig::builder()
            .target_service_time(Duration::from_millis(target))
            .alpha_ewma(number(1.0))
            .build()
            .unwrap();
        // A target of 8 bits per second over a rate of one byte per second.
        let buffer = samples(&config, &[(frame, 8, 1)]);
        float(AlphaController::new(&config).update(&buffer, 1_000_000, false).0)
    };
    assert_eq!(alpha(750, 2_000), 0.375);
    assert_eq!(alpha(1_000, 2_000), 0.5);
    assert!(alpha(999, 2_000) < 0.5);
    // A frame over its target by a tenth of a second.
    assert_eq!(alpha(900, 1_000), 0.9);
    // A slower frame never raises α.
    assert!(alpha(33, 1_000) <= alpha(33, 900));
    assert_eq!(alpha(100, 900), 0.1 / 0.9);
    assert_eq!(alpha(100, 1_000), 0.1);
}
