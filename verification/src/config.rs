//! Session configuration.

use vstd::prelude::*;

use crate::binary64::rounding::ONE_BITS;
use crate::binary64::{at_most, less, signed, Binary64};
use crate::time::Duration;

verus! {

/// Encoding of 0.9, the default latency percentile.
pub const DEFAULT_PERCENTILE_BITS: u64 = 0x3FEC_CCCC_CCCC_CCCD;

/// Encoding of 0.25, the default EWMA factor.
pub const DEFAULT_EWMA_BITS: u64 = 0x3FD0_0000_0000_0000;

/// Tunables for a rate-control session.
///
/// Build with [`VidaptiveConfig::builder`].
#[derive(Debug, Clone, Copy, PartialEq)]
pub struct VidaptiveConfig {
    /// Pacer queue pause threshold τ.
    pub tau_pause: Duration,
    /// Target frame service time P.
    pub target_service_time: Duration,
    /// Latency percentile λ.
    pub latency_percentile: Binary64,
    /// Sliding window D.
    pub optimizer_window: Duration,
    /// EWMA smoothing factor for α.
    pub alpha_ewma: Binary64,
    /// Filler cap in bits per second.
    pub max_video_bitrate: u64,
    /// Span before the next expected frame without filler.
    pub filler_withhold_before_frame: Duration,
    /// Camera frame interval Δ.
    pub frame_interval: Duration,
}

/// Whether a percentile is in (0, 1].
pub open spec fn percentile_ok(p: Binary64) -> bool {
    less(signed(false, 0), p) && at_most(p, signed(false, ONE_BITS as nat))
}

/// Whether a smoothing factor is in [0, 1].
pub open spec fn ewma_ok(f: Binary64) -> bool {
    at_most(signed(false, 0), f) && at_most(f, signed(false, ONE_BITS as nat))
}

impl VidaptiveConfig {
    /// Whether every field is in its range.
    pub open spec fn valid(self) -> bool {
        &&& self.tau_pause.nanos > 0
        &&& self.target_service_time.nanos > 0
        &&& self.optimizer_window.nanos > 0
        &&& self.frame_interval.nanos > 0
        &&& percentile_ok(self.latency_percentile)
        &&& ewma_ok(self.alpha_ewma)
        &&& self.max_video_bitrate > 0
        &&& self.filler_withhold_before_frame.nanos <= self.frame_interval.nanos
    }

    /// Start building a validated configuration.
    pub fn builder() -> (b: VidaptiveConfigBuilder)
        ensures
            b == default_builder(),
    {
        VidaptiveConfigBuilder::default()
    }

    /// Pacer queue pause threshold τ.
    pub fn tau_pause(&self) -> (r: Duration)
        ensures
            r == self.tau_pause,
    {
        self.tau_pause
    }

    /// Target frame service time **P** for the α optimizer.
    pub fn target_service_time(&self) -> (r: Duration)
        ensures
            r == self.target_service_time,
    {
        self.target_service_time
    }

    /// Latency percentile **λ** for service-time control.
    pub fn latency_percentile(&self) -> (r: Binary64)
        ensures
            r == self.latency_percentile,
    {
        self.latency_percentile
    }

    /// Sliding window **D** for α updates.
    pub fn optimizer_window(&self) -> (r: Duration)
        ensures
            r == self.optimizer_window,
    {
        self.optimizer_window
    }

    /// EWMA smoothing factor for α.
    pub fn alpha_ewma(&self) -> (r: Binary64)
        ensures
            r == self.alpha_ewma,
    {
        self.alpha_ewma
    }

    /// Stop sending filler above this video bitrate (bits per second).
    pub fn max_video_bitrate(&self) -> (r: u64)
        ensures
            r == self.max_video_bitrate,
    {
        self.max_video_bitrate
    }

    /// Do not send filler within this interval before the next expected frame.
    pub fn filler_withhold_before_frame(&self) -> (r: Duration)
        ensures
            r == self.filler_withhold_before_frame,
    {
        self.filler_withhold_before_frame
    }

    /// Camera frame interval **Δ** = 1 / f_max.
    pub fn frame_interval(&self) -> (r: Duration)
        ensures
            r == self.frame_interval,
    {
        self.frame_interval
    }
}

/// The configuration that a builder holds.
pub open spec fn configured(b: VidaptiveConfigBuilder) -> VidaptiveConfig {
    VidaptiveConfig {
        tau_pause: b.tau_pause,
        target_service_time: b.target_service_time,
        latency_percentile: b.latency_percentile,
        optimizer_window: b.optimizer_window,
        alpha_ewma: b.alpha_ewma,
        max_video_bitrate: b.max_video_bitrate,
        filler_withhold_before_frame: b.filler_withhold_before_frame,
        frame_interval: b.frame_interval,
    }
}

/// The builder with every default.
pub open spec fn default_builder() -> VidaptiveConfigBuilder {
    VidaptiveConfigBuilder {
        tau_pause: Duration { nanos: 33_000_000 },
        target_service_time: Duration { nanos: 33_000_000 },
        latency_percentile: Binary64 { bits: DEFAULT_PERCENTILE_BITS },
        optimizer_window: Duration { nanos: 1_000_000_000 },
        alpha_ewma: Binary64 { bits: DEFAULT_EWMA_BITS },
        max_video_bitrate: 12_000_000,
        filler_withhold_before_frame: Duration { nanos: 8_250_000 },
        frame_interval: Duration { nanos: 33_000_000 },
    }
}

impl Default for VidaptiveConfig {
    fn default() -> (c: Self)
        ensures
            c == configured(default_builder()),
            c.valid(),
    {
        let b: VidaptiveConfigBuilder = VidaptiveConfigBuilder::default();
        match b.build() {
            Ok(c) => c,
            Err(_) => {
                assert(false);
                b.unchecked()
            },
        }
    }
}

/// Fluent builder for [`VidaptiveConfig`].
#[derive(Debug, Clone, Copy)]
pub struct VidaptiveConfigBuilder {
    /// See [`VidaptiveConfig::tau_pause`].
    pub tau_pause: Duration,
    /// See [`VidaptiveConfig::target_service_time`].
    pub target_service_time: Duration,
    /// See [`VidaptiveConfig::latency_percentile`].
    pub latency_percentile: Binary64,
    /// See [`VidaptiveConfig::optimizer_window`].
    pub optimizer_window: Duration,
    /// See [`VidaptiveConfig::alpha_ewma`].
    pub alpha_ewma: Binary64,
    /// See [`VidaptiveConfig::max_video_bitrate`].
    pub max_video_bitrate: u64,
    /// See [`VidaptiveConfig::filler_withhold_before_frame`].
    pub filler_withhold_before_frame: Duration,
    /// See [`VidaptiveConfig::frame_interval`].
    pub frame_interval: Duration,
}

impl Default for VidaptiveConfigBuilder {
    fn default() -> (b: Self)
        ensures
            b == default_builder(),
    {
        VidaptiveConfigBuilder {
            tau_pause: Duration::from_millis(33),
            target_service_time: Duration::from_millis(33),
            latency_percentile: Binary64::from_bits(DEFAULT_PERCENTILE_BITS),
            optimizer_window: Duration::from_secs(1),
            alpha_ewma: Binary64::from_bits(DEFAULT_EWMA_BITS),
            max_video_bitrate: 12_000_000,
            filler_withhold_before_frame: Duration::from_nanos(8_250_000),
            frame_interval: Duration::from_millis(33),
        }
    }
}

/// The first fault that validation reports, if any.
pub open spec fn first_fault(b: VidaptiveConfigBuilder) -> Option<ConfigError> {
    if b.tau_pause.nanos == 0 {
        Some(ConfigError::ZeroDuration { field: DurationField::TauPause })
    } else if b.target_service_time.nanos == 0 {
        Some(ConfigError::ZeroDuration { field: DurationField::TargetServiceTime })
    } else if b.optimizer_window.nanos == 0 {
        Some(ConfigError::ZeroDuration { field: DurationField::OptimizerWindow })
    } else if b.frame_interval.nanos == 0 {
        Some(ConfigError::ZeroDuration { field: DurationField::FrameInterval })
    } else if !percentile_ok(b.latency_percentile) {
        Some(ConfigError::InvalidPercentile { value: b.latency_percentile })
    } else if !ewma_ok(b.alpha_ewma) {
        Some(ConfigError::InvalidEwma { value: b.alpha_ewma })
    } else if b.max_video_bitrate == 0 {
        Some(ConfigError::InvalidMaxBitrate)
    } else if b.filler_withhold_before_frame.nanos > b.frame_interval.nanos {
        Some(
            ConfigError::FillerWithholdExceedsFrameInterval {
                withhold: b.filler_withhold_before_frame,
                frame_interval: b.frame_interval,
            },
        )
    } else {
        None
    }
}

impl VidaptiveConfigBuilder {
    /// See [`VidaptiveConfig::tau_pause`].
    pub fn tau_pause(self, value: Duration) -> (b: Self)
        ensures
            b == (VidaptiveConfigBuilder { tau_pause: value, ..self }),
    {
        VidaptiveConfigBuilder { tau_pause: value, ..self }
    }

    /// See [`VidaptiveConfig::target_service_time`].
    pub fn target_service_time(self, value: Duration) -> (b: Self)
        ensures
            b == (VidaptiveConfigBuilder { target_service_time: value, ..self }),
    {
        VidaptiveConfigBuilder { target_service_time: value, ..self }
    }

    /// See [`VidaptiveConfig::latency_percentile`].
    pub fn latency_percentile(self, value: Binary64) -> (b: Self)
        ensures
            b == (VidaptiveConfigBuilder { latency_percentile: value, ..self }),
    {
        VidaptiveConfigBuilder { latency_percentile: value, ..self }
    }

    /// See [`VidaptiveConfig::optimizer_window`].
    pub fn optimizer_window(self, value: Duration) -> (b: Self)
        ensures
            b == (VidaptiveConfigBuilder { optimizer_window: value, ..self }),
    {
        VidaptiveConfigBuilder { optimizer_window: value, ..self }
    }

    /// See [`VidaptiveConfig::alpha_ewma`].
    pub fn alpha_ewma(self, value: Binary64) -> (b: Self)
        ensures
            b == (VidaptiveConfigBuilder { alpha_ewma: value, ..self }),
    {
        VidaptiveConfigBuilder { alpha_ewma: value, ..self }
    }

    /// See [`VidaptiveConfig::max_video_bitrate`].
    pub fn max_video_bitrate(self, bps: u64) -> (b: Self)
        ensures
            b == (VidaptiveConfigBuilder { max_video_bitrate: bps, ..self }),
    {
        VidaptiveConfigBuilder { max_video_bitrate: bps, ..self }
    }

    /// See [`VidaptiveConfig::max_video_bitrate`].
    pub fn max_video_bitrate_nonzero(self, bps: u64) -> (b: Self)
        requires
            bps > 0,
        ensures
            b == (VidaptiveConfigBuilder { max_video_bitrate: bps, ..self }),
    {
        VidaptiveConfigBuilder { max_video_bitrate: bps, ..self }
    }

    /// See [`VidaptiveConfig::filler_withhold_before_frame`].
    pub fn filler_withhold_before_frame(self, value: Duration) -> (b: Self)
        ensures
            b == (VidaptiveConfigBuilder { filler_withhold_before_frame: value, ..self }),
    {
        VidaptiveConfigBuilder { filler_withhold_before_frame: value, ..self }
    }

    /// See [`VidaptiveConfig::frame_interval`].
    pub fn frame_interval(self, value: Duration) -> (b: Self)
        ensures
            b == (VidaptiveConfigBuilder { frame_interval: value, ..self }),
    {
        VidaptiveConfigBuilder { frame_interval: value, ..self }
    }

    /// Frame rate helper: sets `frame_interval` to `1 / fps`, at least one nanosecond.
    pub fn frame_rate_hz(self, fps: u64) -> (b: Self)
        requires
            fps > 0,
        ensures
            b == (VidaptiveConfigBuilder {
                frame_interval: Duration {
                    nanos: if fps <= 1_000_000_000 {
                        (1_000_000_000u64 / fps) as u128
                    } else {
                        1
                    },
                },
                ..self
            }),
    {
        let nanos: u64 = 1_000_000_000u64 / fps;
        proof {
            if fps <= 1_000_000_000 {
                assert(1_000_000_000u64 / fps >= 1) by (nonlinear_arith)
                    requires
                        0 < fps <= 1_000_000_000,
                ;
            } else {
                assert(1_000_000_000u64 / fps == 0) by (nonlinear_arith)
                    requires
                        fps > 1_000_000_000,
                ;
            }
        }
        self.frame_interval(
            Duration::from_nanos(
                if nanos >= 1 {
                    nanos
                } else {
                    1
                },
            ),
        )
    }

    /// Produce a validated [`VidaptiveConfig`].
    pub fn build(self) -> (r: Result<VidaptiveConfig, ConfigError>)
        ensures
            match first_fault(self) {
                Some(fault) => r == Err::<VidaptiveConfig, ConfigError>(fault),
                None => r == Ok::<VidaptiveConfig, ConfigError>(configured(self)),
            },
            r is Ok <==> configured(self).valid(),
    {
        if let Err(e) = validate_duration(self.tau_pause, DurationField::TauPause) {
            return Err(e);
        }
        if let Err(e) = validate_duration(
            self.target_service_time,
            DurationField::TargetServiceTime,
        ) {
            return Err(e);
        }
        if let Err(e) = validate_duration(self.optimizer_window, DurationField::OptimizerWindow) {
            return Err(e);
        }
        if let Err(e) = validate_duration(self.frame_interval, DurationField::FrameInterval) {
            return Err(e);
        }
        let zero: Binary64 = Binary64::from_bits(0);
        let one: Binary64 = Binary64::from_bits(ONE_BITS);
        if !(zero.lt(self.latency_percentile) && self.latency_percentile.le(one)) {
            return Err(ConfigError::InvalidPercentile { value: self.latency_percentile });
        }
        if !(zero.le(self.alpha_ewma) && self.alpha_ewma.le(one)) {
            return Err(ConfigError::InvalidEwma { value: self.alpha_ewma });
        }
        if self.max_video_bitrate == 0 {
            return Err(ConfigError::InvalidMaxBitrate);
        }
        if self.filler_withhold_before_frame.nanos > self.frame_interval.nanos {
            return Err(
                ConfigError::FillerWithholdExceedsFrameInterval {
                    withhold: self.filler_withhold_before_frame,
                    frame_interval: self.frame_interval,
                },
            );
        }
        Ok(self.unchecked())
    }

    fn unchecked(self) -> (c: VidaptiveConfig)
        ensures
            c == configured(self),
    {
        VidaptiveConfig {
            tau_pause: self.tau_pause,
            target_service_time: self.target_service_time,
            latency_percentile: self.latency_percentile,
            optimizer_window: self.optimizer_window,
            alpha_ewma: self.alpha_ewma,
            max_video_bitrate: self.max_video_bitrate,
            filler_withhold_before_frame: self.filler_withhold_before_frame,
            frame_interval: self.frame_interval,
        }
    }
}

/// A configuration is valid exactly while its durations are not empty, the percentile is in
/// (0, 1], the smoothing factor in [0, 1], the cap positive, and the withheld span no longer than
/// the frame interval.
pub proof fn law_valid_configuration(c: VidaptiveConfig)
    ensures
        c.valid() <==> {
            &&& c.tau_pause.nanos > 0
            &&& c.target_service_time.nanos > 0
            &&& c.optimizer_window.nanos > 0
            &&& c.frame_interval.nanos > 0
            &&& 0 < c.latency_percentile.bits <= 0x3FF0_0000_0000_0000
            &&& c.alpha_ewma.bits <= 0x3FF0_0000_0000_0000 || c.alpha_ewma.bits
                == 0x8000_0000_0000_0000
            &&& c.max_video_bitrate > 0
            &&& c.filler_withhold_before_frame.nanos <= c.frame_interval.nanos
        },
{
}

/// Building keeps every field, and a fault is reported exactly where the configuration is not
/// valid: an empty duration by its name, a number by its value.
pub proof fn law_faults_name_their_field(b: VidaptiveConfigBuilder)
    ensures
        first_fault(b) is None <==> configured(b).valid(),
        configured(b).tau_pause == b.tau_pause,
        configured(b).target_service_time == b.target_service_time,
        configured(b).latency_percentile == b.latency_percentile,
        configured(b).optimizer_window == b.optimizer_window,
        configured(b).alpha_ewma == b.alpha_ewma,
        configured(b).max_video_bitrate == b.max_video_bitrate,
        configured(b).filler_withhold_before_frame == b.filler_withhold_before_frame,
        configured(b).frame_interval == b.frame_interval,
        first_fault(b) matches Some(ConfigError::ZeroDuration { field }) ==> (match field {
            DurationField::TauPause => b.tau_pause.nanos == 0,
            DurationField::TargetServiceTime => b.target_service_time.nanos == 0,
            DurationField::OptimizerWindow => b.optimizer_window.nanos == 0,
            DurationField::FrameInterval => b.frame_interval.nanos == 0,
        }),
        first_fault(b) matches Some(ConfigError::InvalidPercentile { value }) ==> value
            == b.latency_percentile && !(0 < value.bits <= 0x3FF0_0000_0000_0000),
        first_fault(b) matches Some(ConfigError::InvalidEwma { value }) ==> value == b.alpha_ewma
            && value.bits > 0x3FF0_0000_0000_0000,
        first_fault(b) is Some && first_fault(b)->0 is InvalidMaxBitrate ==> b.max_video_bitrate
            == 0,
        first_fault(b) matches Some(
            ConfigError::FillerWithholdExceedsFrameInterval { withhold, frame_interval },
        ) ==> withhold == b.filler_withhold_before_frame && frame_interval == b.frame_interval
            && withhold.nanos > frame_interval.nanos,
{
}

fn validate_duration(value: Duration, field: DurationField) -> (r: Result<(), ConfigError>)
    ensures
        value.nanos == 0 ==> r == Err::<(), ConfigError>(ConfigError::ZeroDuration { field }),
        value.nanos > 0 ==> r == Ok::<(), ConfigError>(()),
{
    if value.is_zero() {
        return Err(ConfigError::ZeroDuration { field });
    }
    Ok(())
}

/// Which duration field failed validation.
#[derive(Debug, Clone, Copy, PartialEq, Eq, Structural)]
pub enum DurationField {
    /// [`VidaptiveConfig::tau_pause`].
    TauPause,
    /// [`VidaptiveConfig::target_service_time`].
    TargetServiceTime,
    /// [`VidaptiveConfig::optimizer_window`].
    OptimizerWindow,
    /// [`VidaptiveConfig::frame_interval`].
    FrameInterval,
}

/// Invalid [`VidaptiveConfig`] field.
#[derive(Debug, Clone, Copy, PartialEq)]
pub enum ConfigError {
    /// `latency_percentile` must be in (0, 1].
    InvalidPercentile {
        /// Rejected value.
        value: Binary64,
    },
    /// `alpha_ewma` must be in [0, 1].
    InvalidEwma {
        /// Rejected value.
        value: Binary64,
    },
    /// `max_video_bitrate` must be non-zero.
    InvalidMaxBitrate,
    /// A required duration was zero.
    ZeroDuration {
        /// Which field.
        field: DurationField,
    },
    /// `filler_withhold_before_frame` must not exceed `frame_interval`.
    FillerWithholdExceedsFrameInterval {
        /// Configured withhold interval.
        withhold: Duration,
        /// Configured frame interval.
        frame_interval: Duration,
    },
}

} // verus!
