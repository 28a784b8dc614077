//! Configuration: defaults, validation, and builder helpers.

use vidaptive::config::DurationField;
use vidaptive::{Binary64, ConfigError, Duration, VidaptiveConfig};

fn number(x: f64) -> Binary64 {
    Binary64::from_bits(x.to_bits())
}

#[test]
fn default_builder_succeeds() {
    assert!(VidaptiveConfig::builder().build().is_ok());
}

#[test]
fn rejects_zero_tau_pause() {
    let err = VidaptiveConfig::builder()
        .tau_pause(Duration::zero())
        .build()
        .unwrap_err();
    assert_eq!(
        err,
        ConfigError::ZeroDuration {
            field: DurationField::TauPause
        }
    );
}

#[test]
fn rejects_invalid_percentile() {
    let err = VidaptiveConfig::builder()
        .latency_percentile(number(1.5))
        .build()
        .unwrap_err();
    assert_eq!(err, ConfigError::InvalidPercentile { value: number(1.5) });
}

#[test]
fn rejects_withhold_longer_than_frame_interval() {
    let err = VidaptiveConfig::builder()
        .frame_interval(Duration::from_millis(33))
        .filler_withhold_before_frame(Duration::from_millis(40))
        .build()
        .unwrap_err();
    assert!(matches!(
        err,
        ConfigError::FillerWithholdExceedsFrameInterval { .. }
    ));
}

#[test]
fn frame_rate_hz_sets_interval() {
    let config = VidaptiveConfig::builder().frame_rate_hz(30).build().unwrap();
    assert_eq!(config.frame_interval(), Duration::from_nanos(33_333_333));
}

#[test]
fn frame_rate_beyond_a_gigahertz_keeps_one_nanosecond() {
    let config = VidaptiveConfig::builder()
        .filler_withhold_before_frame(Duration::zero())
        .frame_rate_hz(u64::MAX)
        .build()
        .unwrap();
    assert_eq!(config.frame_interval(), Duration::from_nanos(1));
}

#[test]
fn defaults_are_those_of_thirty_frames_per_second() {
    let config = VidaptiveConfig::default();
    assert_eq!(config.tau_pause(), Duration::from_millis(33));
    assert_eq!(config.target_service_time(), Duration::from_millis(33));
    assert_eq!(config.latency_percentile().to_bits(), 0.9f64.to_bits());
    assert_eq!(config.optimizer_window(), Duration::from_secs(1));
    assert_eq!(config.alpha_ewma().to_bits(), 0.25f64.to_bits());
    assert_eq!(config.max_video_bitrate(), 12_000_000);
    assert_eq!(
        config.filler_withhold_before_frame(),
        Duration::from_micros(8_250)
    );
    assert_eq!(config.frame_interval(), Duration::from_millis(33));
    assert!(VidaptiveConfig::builder().build().unwrap() == config);
}

#[test]
fn each_zero_duration_names_its_field() {
    let zero = Duration::zero();
    let b = VidaptiveConfig::builder();
    let cases = [
        (b.tau_pause(zero), DurationField::TauPause),
        (b.target_service_time(zero), DurationField::TargetServiceTime),
        (b.optimizer_window(zero), DurationField::OptimizerWindow),
        (b.frame_interval(zero), DurationField::FrameInterval),
    ];
    for (builder, field) in cases {
        assert_eq!(
            builder.build().unwrap_err(),
            ConfigError::ZeroDuration { field }
        );
    }
}

#[test]
fn percentile_must_be_in_the_half_open_unit_interval() {
    for x in [0.0, -0.0, -0.5, 1.0 + f64::EPSILON, f64::INFINITY, f64::NEG_INFINITY] {
        let err = VidaptiveConfig::builder()
            .latency_percentile(number(x))
            .build()
            .unwrap_err();
        assert_eq!(err, ConfigError::InvalidPercentile { value: number(x) });
    }
    let nan = VidaptiveConfig::builder()
        .latency_percentile(number(f64::NAN))
        .build();
    assert!(matches!(nan, Err(ConfigError::InvalidPercentile { .. })));
    for x in [f64::MIN_POSITIVE, 0.5, 1.0] {
        let config = VidaptiveConfig::builder()
            .latency_percentile(number(x))
            .build()
            .unwrap();
        assert_eq!(config.latency_percentile().to_bits(), x.to_bits());
    }
}

#[test]
fn smoothing_factor_must_be_in_the_unit_interval() {
    for x in [-0.1, 1.1, f64::INFINITY] {
        let err = VidaptiveConfig::builder()
            .alpha_ewma(number(x))
            .build()
            .unwrap_err();
        assert_eq!(err, ConfigError::InvalidEwma { value: number(x) });
    }
    for x in [0.0, -0.0, 0.25, 1.0] {
        assert!(VidaptiveConfig::builder().alpha_ewma(number(x)).build().is_ok());
    }
}

#[test]
fn zero_bitrate_cap_is_rejected() {
    let err = VidaptiveConfig::builder()
        .max_video_bitrate(0)
        .build()
        .unwrap_err();
    assert_eq!(err, ConfigError::InvalidMaxBitrate);
    let config = VidaptiveConfig::builder()
        .max_video_bitrate_nonzero(7)
        .build()
        .unwrap();
    assert_eq!(config.max_video_bitrate(), 7);
}

#[test]
fn withhold_of_a_whole_interval_is_accepted() {
    let config = VidaptiveConfig::builder()
        .frame_interval(Duration::from_millis(40))
        .filler_withhold_before_frame(Duration::from_millis(40))
        .build()
        .unwrap();
    assert_eq!(
        config.filler_withhold_before_frame(),
        Duration::from_millis(40)
    );
}

#[test]
fn the_first_fault_is_reported() {
    let err = VidaptiveConfig::builder()
        .tau_pause(Duration::zero())
        .max_video_bitrate(0)
        .build()
        .unwrap_err();
    assert_eq!(
        err,
        ConfigError::ZeroDuration {
            field: DurationField::TauPause
        }
    );
}
