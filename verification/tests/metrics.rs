//! Percentiles, sample windows, and the video bitrate.

use vidaptive::metrics::percentile::percentile_linear;
use vidaptive::metrics::{FrameTimingBuffer, VideoBitrateWindow};
use vidaptive::types::FrameServiceSample;
use vidaptive::{Binary64, Duration, Instant};

fn number(x: f64) -> Binary64 {
    Binary64::from_bits(x.to_bits())
}

fn float(x: Binary64) -> f64 {
    f64::from_bits(x.to_bits())
}

fn numbers(xs: &[f64]) -> Vec<Binary64> {
    xs.iter().map(|x| number(*x)).collect()
}

#[test]
fn linear_percentile_matches_numpy_style() {
    let values = numbers(&[1.0, 2.0, 3.0, 4.0, 5.0, 6.0, 7.0, 8.0, 9.0, 10.0]);

    // virtual index (n-1)*0.9 = 8.1 → 9 + 0.1*(10-9) = 9.1
    let p90 = float(percentile_linear(&values, number(0.9)));
    assert!((p90 - 9.1).abs() < 1e-9);

    // virtual index 4.5 → 5.5
    let p50 = float(percentile_linear(&values, number(0.5)));
    assert!((p50 - 5.5).abs() < 1e-9);
}

#[test]
fn single_element_percentile() {
    assert_eq!(float(percentile_linear(&numbers(&[42.0]), number(0.9))), 42.0);
}

/// The same formula on native floats.
fn reference_percentile(values: &[f64], p: f64) -> f64 {
    let n = values.len();
    if n == 1 {
        return values[0];
    }
    let index = (n - 1) as f64 * p.clamp(0.0, 1.0);
    let lower = index.floor() as usize;
    let upper = index.ceil() as usize;
    if lower == upper {
        return values[lower];
    }
    values[lower] + (index - lower as f64) * (values[upper] - values[lower])
}

#[test]
fn percentile_agrees_with_native_floats() {
    let values: Vec<f64> = (0..37).map(|i| (i as f64 * 0.37).exp()).collect();
    let encoded = numbers(&values);
    for k in 0..=200 {
        let p = k as f64 / 200.0;
        let got = percentile_linear(&encoded, number(p)).to_bits();
        assert_eq!(got, reference_percentile(&values, p).to_bits());
    }
    for p in [-1.0, 2.0, f64::INFINITY] {
        let got = percentile_linear(&encoded, number(p)).to_bits();
        assert_eq!(got, reference_percentile(&values, p).to_bits());
    }
}

#[test]
fn percentile_grows_and_stays_between_neighbours() {
    let values = numbers(&[0.0, 1e-300, 0.1, 0.1, 0.30000000000000004, 7.0, 1e200]);
    let mut last = 0.0;
    for k in 0..=1000 {
        let p = float(percentile_linear(&values, number(k as f64 / 1000.0)));
        assert!(p >= last);
        last = p;
    }
    assert_eq!(last, 1e200);
}

#[test]
fn percentile_of_equal_samples_is_the_sample() {
    let values = numbers(&[0.1; 9]);
    for k in 0..=50 {
        let p = percentile_linear(&values, number(k as f64 / 50.0));
        assert_eq!(p.to_bits(), 0.1f64.to_bits());
    }
}

#[test]
fn early_burst_does_not_spike_bitrate() {
    let window = Duration::from_secs(1);
    let mut tracker = VideoBitrateWindow::new(window);
    let t0 = Instant::from_nanos(0);

    // 1.5 MB in 1 ms would be ~12 Gbps if divided by elapsed; window caps at 12 Mbps scale.
    tracker.record(1_500_000, t0);

    let bps = tracker.bitrate_bps(t0.after(Duration::from_millis(1)));
    assert_eq!(bps, 12_000_000);
}

#[test]
fn evicts_samples_outside_window() {
    let window = Duration::from_millis(100);
    let mut tracker = VideoBitrateWindow::new(window);
    let t0 = Instant::from_nanos(0);

    tracker.record(10_000, t0);
    let mid = t0.after(Duration::from_millis(150));
    tracker.evict(mid);
    assert_eq!(tracker.bitrate_bps(mid), 0);
}

#[test]
fn a_sample_at_the_edge_of_the_window_counts() {
    let mut tracker = VideoBitrateWindow::new(Duration::from_millis(100));
    let t0 = Instant::from_nanos(5);
    tracker.record(1_000, t0);
    assert_eq!(tracker.bitrate_bps(t0.after(Duration::from_millis(100))), 80_000);
    let beyond = t0.after(Duration::from_nanos(100_000_001));
    assert_eq!(tracker.bitrate_bps(beyond), 0);
    tracker.evict(t0.after(Duration::from_millis(100)));
    assert_eq!(tracker.samples.len(), 1);
    tracker.evict(beyond);
    assert_eq!(tracker.samples.len(), 0);
}

#[test]
fn an_empty_window_has_no_bitrate() {
    let mut tracker = VideoBitrateWindow::new(Duration::zero());
    let t0 = Instant::from_nanos(0);
    tracker.record(1_000_000, t0);
    assert_eq!(tracker.bitrate_bps(t0), 0);
}

#[test]
fn service_samples_leave_with_the_window() {
    let t0 = Instant::from_nanos(0);
    let sample = |at: Instant| FrameServiceSample {
        service_time: Duration::from_millis(1),
        target_bitrate_bps: 1,
        cc_rate_bytes_per_sec: 1,
        at,
    };
    let mut buffer = FrameTimingBuffer::new(Duration::from_secs(1));
    buffer.push(sample(t0));
    buffer.push(sample(t0.after(Duration::from_millis(500))));
    assert_eq!(buffer.iter().len(), 2);
    buffer.push(sample(t0.after(Duration::from_millis(1_200))));
    assert_eq!(buffer.iter().len(), 2);
    assert_eq!(buffer.iter()[0].at, t0.after(Duration::from_millis(500)));
    buffer.evict(t0.after(Duration::from_secs(9)));
    assert_eq!(buffer.iter().len(), 0);
}

#[test]
fn eviction_changes_no_later_measurement() {
    let t0 = Instant::from_nanos(0);
    let mut tracker = VideoBitrateWindow::new(Duration::from_millis(100));
    for k in 0..10u64 {
        let at = t0.after(Duration::from_millis(k * 15));
        tracker.samples.push(vidaptive::metrics::video_bitrate::ByteSample { at, bytes: 100 + k });
    }
    let now = t0.after(Duration::from_millis(115));
    let mut evicted = tracker.clone();
    evicted.evict(now);
    assert_eq!(evicted.samples.len(), 9);
    for k in 0..200u64 {
        let later = now.after(Duration::from_millis(k));
        assert_eq!(evicted.bitrate_bps(later), tracker.bitrate_bps(later));
    }
}
