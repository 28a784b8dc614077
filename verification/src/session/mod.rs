//! Rate-control session: CC, pacer, filler, safeguards, and α control.

use std::collections::BTreeMap;

use bytes::Bytes;
use vstd::prelude::*;

use crate::binary64::rounding::ONE_BITS;
use crate::binary64::{signed, Binary64};
use crate::bounded::{minus_floored, saturated, saturating_product};
use crate::cc::CongestionController;
use crate::config::VidaptiveConfig;
use crate::encoder_ctrl::safeguards::pauses;
use crate::encoder_ctrl::{AlphaController, Safeguards};
use crate::metrics::frame_timing::recent_samples;
use crate::metrics::percentile::MAX_SAMPLES;
use crate::metrics::video_bitrate::{bitrate, in_window, window_bytes, ByteSample};
use crate::metrics::{FrameTimingBuffer, VideoBitrateWindow};
use crate::time::{elapsed, Duration, Instant, EARLIEST, LATEST};
use crate::transport::filler::BacklogFiller;
use crate::transport::pacer::{all_enqueued, filler_meta, head_marked, meta_of, next_send};
use crate::transport::laws::{head_timed, law_idle_pacer_is_accounted};
use crate::transport::Pacer;
use crate::types::{
    content, AckInfo, CaptureAdvice, EncodedFrame, EncoderAdvice, FrameServiceSample, LostPacket,
    PacketMeta, SentPacket, TransmitAction, VidaptiveInput, VidaptiveOutput,
};

pub mod effects;
pub mod history;
pub mod laws;
pub mod replay;

verus! {

/// Main session wiring CC, pacer, filler, safeguards, and α control.
pub struct Vidaptive<CC, F> where CC: CongestionController, F: BacklogFiller {
    /// Congestion controller.
    pub cc: CC,
    /// Backlog filler.
    pub filler: F,
    /// Tunables.
    pub config: VidaptiveConfig,
    /// Media queue and pacing state.
    pub pacer: Pacer,
    /// Encoder pause.
    pub safeguards: Safeguards,
    /// α optimizer.
    pub alpha: AlphaController,
    /// Recent frame service times.
    pub samples: FrameTimingBuffer,
    /// Current encoder advice.
    pub encoder: EncoderAdvice,
    /// Target bitrate while not paused.
    pub cached_target_bitrate_bps: u64,
    /// Next expected camera frame.
    pub next_capture_at: Option<Instant>,
    /// What each frame was encoded with, until it is done.
    pub frame_targets: BTreeMap<u64, FrameEncodeContext>,
    /// Frames of which a packet was sent and that are not done.
    pub frames_in_flight: BTreeMap<u64, FrameInFlight>,
    /// Capture held back while paused.
    pub held_capture_at: Option<Instant>,
    /// Last run of the optimizer.
    pub last_optimizer_tick: Instant,
    /// Video bytes sent recently.
    pub video_bitrate: VideoBitrateWindow,
}

/// What a frame was encoded with.
#[derive(Debug, Clone, Copy)]
pub struct FrameEncodeContext {
    /// Target bitrate in bits per second.
    pub target_bitrate_bps: u64,
    /// `CC-Rate` in bytes per second.
    pub cc_rate_bytes_per_sec: u64,
}

/// A frame of which a packet was sent.
#[derive(Debug, Clone, Copy)]
pub struct FrameInFlight {
    /// Time its first packet became head-of-line.
    pub head_at: Instant,
    /// Target bitrate in bits per second.
    pub target_bitrate_bps: u64,
    /// `CC-Rate` in bytes per second.
    pub cc_rate_bytes_per_sec: u64,
}

/// The service-time sample of a frame whose last packet is sent at `now`.
pub open spec fn service_sample(frame: FrameInFlight, now: Instant) -> FrameServiceSample {
    FrameServiceSample {
        service_time: Duration { nanos: elapsed(now, frame.head_at) as u128 },
        target_bitrate_bps: frame.target_bitrate_bps,
        cc_rate_bytes_per_sec: frame.cc_rate_bytes_per_sec,
        at: now,
    }
}

/// Packets in flight after the acknowledgements.
pub open spec fn flights_after(flights: Map<u64, PacketMeta>, acks: Seq<AckInfo>) -> Map<
    u64,
    PacketMeta,
>
    decreases acks.len(),
{
    if acks.len() == 0 {
        flights
    } else {
        flights_after(flights, acks.drop_last()).remove(acks.last().seq)
    }
}

/// Bytes in flight after the acknowledgements.
pub open spec fn bytes_after(bytes: u64, flights: Map<u64, PacketMeta>, acks: Seq<AckInfo>) -> u64
    decreases acks.len(),
{
    if acks.len() == 0 {
        bytes
    } else {
        let left = flights_after(flights, acks.drop_last());
        let before = bytes_after(bytes, flights, acks.drop_last());
        if left.contains_key(acks.last().seq) {
            minus_floored(before, left[acks.last().seq].len as nat)
        } else {
            before
        }
    }
}

/// The frames left once a packet has left the network: its frame is done with its last
/// media packet.
pub open spec fn frames_without<V>(frames: Map<u64, V>, packet: Option<PacketMeta>) -> Map<
    u64,
    V,
> {
    match packet {
        Some(meta) if !meta.is_filler && meta.fin => frames.remove(meta.frame_id),
        _ => frames,
    }
}

/// The frames left after the acknowledgements.
pub open spec fn frames_after<V>(
    frames: Map<u64, V>,
    flights: Map<u64, PacketMeta>,
    acks: Seq<AckInfo>,
) -> Map<u64, V>
    decreases acks.len(),
{
    if acks.len() == 0 {
        frames
    } else {
        frames_without(
            frames_after(frames, flights, acks.drop_last()),
            flights_after(flights, acks.drop_last()).get(acks.last().seq),
        )
    }
}

impl<CC, F> Vidaptive<CC, F> where CC: CongestionController, F: BacklogFiller {
    /// Everything but the transport side is as in `other`.
    pub open spec fn same_control(self, other: Self) -> bool {
        &&& self.config == other.config
        &&& self.safeguards == other.safeguards
        &&& self.alpha == other.alpha
        &&& self.encoder == other.encoder
        &&& self.cached_target_bitrate_bps == other.cached_target_bitrate_bps
        &&& self.next_capture_at == other.next_capture_at
        &&& self.held_capture_at == other.held_capture_at
        &&& self.last_optimizer_tick == other.last_optimizer_tick
    }

    /// Whether the queue's age at `now` calls for a pause.
    pub open spec fn backlogged(self, now: Instant) -> bool {
        pauses(
            self.pacer.oldest_age(now),
            self.pacer.queue@.len() == 0,
            self.safeguards.tau_pause,
        )
    }

    /// The session after one run of the optimizer at `now`.
    pub open spec fn optimized(self, now: Instant) -> Self {
        let paused = self.safeguards.paused;
        let rate = self.cc.throughput();
        let alpha = self.alpha.updated(self.samples.samples@, rate, paused);
        Vidaptive {
            alpha,
            encoder: EncoderAdvice { alpha: alpha.alpha, ..self.encoder },
            cached_target_bitrate_bps: self.alpha.updated_target(
                self.samples.samples@,
                rate,
                paused,
            ),
            last_optimizer_tick: now,
            ..self
        }
    }

    /// The session after its encoder state was brought up to date at `now`: paused exactly
    /// while backlogged, with target 0 while paused. On entering a pause the cached target is
    /// dropped, on leaving it the optimizer runs at once.
    pub open spec fn refreshed(self, now: Instant) -> Self {
        let paused = self.backlogged(now);
        let guarded = Vidaptive {
            safeguards: Safeguards { paused, ..self.safeguards },
            ..self
        };
        let switched = if paused && !self.encoder.pause {
            Vidaptive { cached_target_bitrate_bps: 0, ..guarded }
        } else if !paused && self.encoder.pause {
            guarded.optimized(now)
        } else {
            guarded
        };
        Vidaptive {
            encoder: EncoderAdvice {
                target_bitrate_bps: if paused {
                    0
                } else {
                    switched.cached_target_bitrate_bps
                },
                pause: paused,
                alpha: switched.alpha.alpha,
            },
            ..switched
        }
    }

    /// This session was just created at `now`: nothing queued, in flight or measured, and the
    /// encoder offered the whole CC-Rate.
    pub open spec fn created_from(
        self,
        cc: CC,
        filler: F,
        config: VidaptiveConfig,
        now: Instant,
    ) -> bool {
        let full = saturated((cc.throughput() * 8) as nat);
        let one = signed(false, ONE_BITS as nat);
        &&& self.cc == cc
        &&& self.filler == filler
        &&& self.config == config
        &&& self.pacer.queue@.len() == 0
        &&& self.pacer.in_flight@ == Map::<u64, PacketMeta>::empty()
        &&& self.pacer.next_seq == 1
        &&& self.pacer.next_send_at is None
        &&& self.pacer.bytes_in_flight == 0
        &&& self.safeguards == (Safeguards { tau_pause: config.tau_pause, paused: false })
        &&& self.alpha == (AlphaController {
            target_service_time: config.target_service_time,
            latency_percentile: config.latency_percentile,
            alpha_ewma: config.alpha_ewma,
            alpha: one,
        })
        &&& self.samples.window == config.optimizer_window
        &&& self.samples.samples@.len() == 0
        &&& self.video_bitrate.window == config.optimizer_window
        &&& self.video_bitrate.samples@.len() == 0
        &&& self.cached_target_bitrate_bps == full
        &&& self.encoder == (EncoderAdvice { target_bitrate_bps: full, pause: false, alpha: one })
        &&& self.frame_targets@ == Map::<u64, FrameEncodeContext>::empty()
        &&& self.frames_in_flight@ == Map::<u64, FrameInFlight>::empty()
        &&& self.next_capture_at is None
        &&& self.held_capture_at is None
        &&& self.last_optimizer_tick == now
    }

    /// Creates a session from a congestion controller, filler, and configuration, at `now`.
    #[must_use]
    pub fn new(cc: CC, filler: F, config: VidaptiveConfig, now: Instant) -> (s: Self)
        ensures
            s.cc == cc,
            s.filler == filler,
            s.config == config,
            s.pacer.queue@.len() == 0,
            s.pacer.in_flight@ == Map::<u64, PacketMeta>::empty(),
            s.pacer.next_seq == 1,
            s.pacer.next_send_at is None,
            s.pacer.bytes_in_flight == 0,
            s.safeguards == (Safeguards { tau_pause: config.tau_pause, paused: false }),
            s.alpha == (AlphaController {
                target_service_time: config.target_service_time,
                latency_percentile: config.latency_percentile,
                alpha_ewma: config.alpha_ewma,
                alpha: signed(false, ONE_BITS as nat),
            }),
            s.samples.window == config.optimizer_window,
            s.samples.samples@.len() == 0,
            s.cached_target_bitrate_bps == saturated((cc.throughput() * 8) as nat),
            s.encoder == (EncoderAdvice {
                target_bitrate_bps: s.cached_target_bitrate_bps,
                pause: false,
                alpha: signed(false, ONE_BITS as nat),
            }),
            s.next_capture_at is None,
            s.frame_targets@ == Map::<u64, FrameEncodeContext>::empty(),
            s.frames_in_flight@ == Map::<u64, FrameInFlight>::empty(),
            s.held_capture_at is None,
            s.last_optimizer_tick == now,
            s.video_bitrate.window == config.optimizer_window,
            s.video_bitrate.samples@.len() == 0,
            s.pacer.accounted(),
            head_timed(s.pacer.queue@),
            config.valid() ==> s.coherent(),
            s.created_from(cc, filler, config, now),
    {
        let samples: FrameTimingBuffer = FrameTimingBuffer::new(config.optimizer_window());
        let video_bitrate: VideoBitrateWindow = VideoBitrateWindow::new(config.optimizer_window());
        let cached_target_bitrate_bps: u64 = saturating_product(cc.cc_rate(), 8);
        let encoder: EncoderAdvice = EncoderAdvice {
            target_bitrate_bps: cached_target_bitrate_bps,
            pause: false,
            alpha: Binary64::from_bits(ONE_BITS),
        };
        let pacer: Pacer = Pacer::new();
        proof {
            law_idle_pacer_is_accounted(pacer);
        }
        Vidaptive {
            cc,
            filler,
            pacer,
            safeguards: Safeguards::new(&config),
            alpha: AlphaController::new(&config),
            samples,
            encoder,
            cached_target_bitrate_bps,
            config,
            next_capture_at: None,
            frame_targets: BTreeMap::new(),
            frames_in_flight: BTreeMap::new(),
            held_capture_at: None,
            last_optimizer_tick: now,
            video_bitrate,
        }
    }

    /// Returns a reference to the congestion controller.
    #[must_use]
    pub fn congestion_controller(&self) -> (cc: &CC)
        ensures
            *cc == self.cc,
    {
        &self.cc
    }

    /// Returns a mutable reference to the congestion controller.
    pub fn congestion_controller_mut(&mut self) -> (cc: &mut CC)
        ensures
            *cc == old(self).cc,
            *final(self) == (Vidaptive { cc: *final(cc), ..*old(self) }),
    {
        &mut self.cc
    }

    /// Returns a reference to the backlog filler.
    #[must_use]
    pub fn filler(&self) -> (f: &F)
        ensures
            *f == self.filler,
    {
        &self.filler
    }

    /// Returns a mutable reference to the backlog filler.
    pub fn filler_mut(&mut self) -> (f: &mut F)
        ensures
            *f == old(self).filler,
            *final(self) == (Vidaptive { filler: *final(f), ..*old(self) }),
    {
        &mut self.filler
    }

    /// Runs the α optimizer.
    fn run_optimizer(&mut self, now: Instant)
        requires
            old(self).samples.samples@.len() <= MAX_SAMPLES,
        ensures
            *final(self) == old(self).optimized(now),
    {
        let paused: bool = self.safeguards.is_paused();
        let rate: u64 = self.cc.cc_rate();
        let (alpha, target_bitrate_bps) = self.alpha.update(&self.samples, rate, paused);
        self.encoder.alpha = alpha;
        self.cached_target_bitrate_bps = if paused {
            0
        } else {
            target_bitrate_bps
        };
        self.last_optimizer_tick = now;
    }

    /// Brings pause, target bitrate, and α of the encoder advice up to date.
    pub fn refresh_encoder_state(&mut self, now: Instant)
        requires
            old(self).samples.samples@.len() <= MAX_SAMPLES,
        ensures
            *final(self) == old(self).refreshed(now),
    {
        let oldest: Option<Duration> = self.pacer.oldest_queued_age(now);
        let empty: bool = !self.pacer.has_media();
        self.safeguards.update(oldest, empty);
        let was_paused: bool = self.encoder.pause;
        let now_paused: bool = self.safeguards.is_paused();
        if now_paused && !was_paused {
            // Entering pause: drop the target so that leaving it cannot restore a stale one.
            self.cached_target_bitrate_bps = 0;
        } else if !now_paused && was_paused {
            // Leaving pause: recompute at once instead of waiting for the next window.
            self.run_optimizer(now);
        }
        self.encoder.pause = now_paused;
        self.encoder.target_bitrate_bps = if now_paused {
            0
        } else {
            self.cached_target_bitrate_bps
        };
        self.encoder.alpha = self.alpha.alpha();
    }

    /// Enqueues pre-formed wire packets for one logical frame.
    pub fn enqueue_packets(&mut self, frame: EncodedFrame, now: Instant)
        requires
            old(self).samples.samples@.len() <= MAX_SAMPLES,
        ensures
            final(self).enqueued_from(*old(self), frame, now),
    {
        let rate: u64 = self.cc.cc_rate();
        self.frame_targets.insert(
            frame.id,
            FrameEncodeContext {
                target_bitrate_bps: frame.target_bitrate,
                cc_rate_bytes_per_sec: rate,
            },
        );
        self.pacer.enqueue_packets(frame.id, frame.packets, now);
        self.refresh_encoder_state(now);
    }

    /// This session is `pre` after the packets of `frame` were enqueued at `now`.
    pub open spec fn enqueued_from(self, pre: Self, frame: EncodedFrame, now: Instant) -> bool {
        &&& self.frame_targets@ == pre.frame_targets@.insert(
            frame.id,
            FrameEncodeContext {
                target_bitrate_bps: frame.target_bitrate,
                cc_rate_bytes_per_sec: pre.cc.throughput(),
            },
        )
        &&& self.pacer.queue@ == head_marked(
            pre.pacer.queue@ + all_enqueued(frame.id, frame.packets@, now),
            now,
        )
        &&& self.pacer.same_but_queue(pre.pacer)
        &&& self == (Vidaptive {
            frame_targets: self.frame_targets,
            pacer: self.pacer,
            ..pre
        }).refreshed(now)
    }

    /// The advice on a new capture at `now`.
    pub open spec fn capture_advice(self, now: Instant) -> CaptureAdvice {
        if self.encoder.pause {
            CaptureAdvice::Hold
        } else {
            match self.held_capture_at {
                Some(held) => if elapsed(now, held) <= self.config.frame_interval.nanos / 2 {
                    CaptureAdvice::EncodeHeld { captured_at: held }
                } else {
                    CaptureAdvice::SkipHeld { captured_at: held }
                },
                None => CaptureAdvice::Encode,
            }
        }
    }

    /// This session is `pre` after it gave `advice` on a frame captured at `captured_at`: the
    /// next one is expected one interval later, and the capture is held while paused.
    pub open spec fn advised_from(
        self,
        pre: Self,
        captured_at: Instant,
        now: Instant,
        advice: CaptureAdvice,
    ) -> bool {
        &&& advice == pre.capture_advice(now)
        &&& self.next_capture_at matches Some(t) && t@ == captured_at@
            + pre.config.frame_interval.nanos
        &&& self == (Vidaptive {
            next_capture_at: self.next_capture_at,
            held_capture_at: if pre.encoder.pause {
                Some(captured_at)
            } else {
                None
            },
            ..pre
        })
    }

    /// Guidance for whether to encode a newly captured camera frame.
    pub fn advise_capture(&mut self, captured_at: Instant, now: Instant) -> (advice: CaptureAdvice)
        requires
            captured_at@ + old(self).config.frame_interval.nanos <= LATEST,
        ensures
            final(self).advised_from(*old(self), captured_at, now, advice),
    {
        self.advance_capture_schedule(captured_at);
        if self.encoder.pause {
            self.held_capture_at = Some(captured_at);
            return CaptureAdvice::Hold;
        }
        if let Some(held) = self.held_capture_at {
            self.held_capture_at = None;
            let age: Duration = now.saturating_duration_since(held);
            if age.nanos <= self.config.frame_interval().half().nanos {
                return CaptureAdvice::EncodeHeld { captured_at: held };
            }
            return CaptureAdvice::SkipHeld { captured_at: held };
        }
        CaptureAdvice::Encode
    }

    fn advance_capture_schedule(&mut self, captured_at: Instant)
        requires
            captured_at@ + old(self).config.frame_interval.nanos <= LATEST,
        ensures
            final(self).next_capture_at matches Some(t) && t@ == captured_at@
                + old(self).config.frame_interval.nanos,
            *final(self) == (Vidaptive {
                next_capture_at: final(self).next_capture_at,
                ..*old(self)
            }),
    {
        self.next_capture_at = Some(captured_at.after(self.config.frame_interval()));
    }

    /// Whether `now` lies in the span before the next expected frame that is kept free of
    /// filler. The span is empty where the clock does not reach back to its start.
    pub open spec fn withheld(self, now: Instant) -> bool {
        &&& self.next_capture_at matches Some(next)
        &&& next@ - self.config.filler_withhold_before_frame.nanos >= EARLIEST
        &&& next@ - self.config.filler_withhold_before_frame.nanos <= now@ < next@
    }

    /// Video bytes sent in the window that ends at `now`.
    pub open spec fn recent_video_bytes(self, now: Instant) -> nat {
        window_bytes(self.video_bitrate.samples@, now, self.video_bitrate.window)
    }

    /// Whether an empty queue calls for filler at `now`.
    pub open spec fn wants_filler(self, now: Instant) -> bool {
        &&& !self.encoder.pause
        &&& self.cc.send_rate() != 0
        &&& bitrate(self.recent_video_bytes(now), self.video_bitrate.window)
            < self.config.max_video_bitrate
        &&& !self.withheld(now)
    }

    /// Whether dummy padding may be sent at `now`.
    pub fn should_send_filler(&self, now: Instant) -> (r: bool)
        requires
            self.recent_video_bytes(now) <= u64::MAX,
        ensures
            r == self.wants_filler(now),
    {
        if self.encoder.pause {
            return false;
        }
        if self.cc.pacing_rate() == 0 {
            return false;
        }
        if self.video_bitrate.bitrate_bps(now) >= self.config.max_video_bitrate() {
            return false;
        }
        if let Some(next_capture) = self.next_capture_at {
            let until: Instant = match next_capture.checked_sub(
                self.config.filler_withhold_before_frame(),
            ) {
                Some(t) => t,
                None => next_capture,
            };
            if !now.is_before(until) && now.is_before(next_capture) {
                return false;
            }
        }
        true
    }

    /// The metadata of the head-of-line packet, sent next.
    pub open spec fn head_meta(self) -> PacketMeta {
        meta_of(self.pacer.queue@[0], self.pacer.next_seq)
    }

    /// What the congestion controller is told of the head-of-line packet sent at `now`. The
    /// send is application-limited when it empties the queue and leaves room in the window.
    pub open spec fn media_notice(self, now: Instant) -> SentPacket {
        SentPacket {
            seq: self.pacer.next_seq,
            len: self.head_meta().len,
            sent_at: now,
            app_limited: self.pacer.queue@.len() == 1 && self.cc.admits(
                saturated(self.pacer.bytes_in_flight as nat + self.head_meta().len as nat),
            ),
        }
    }

    /// What the congestion controller is told of a filler packet sent at `now`: fillers probe
    /// spare capacity and are never application-limited.
    pub open spec fn filler_notice(self, len: usize, now: Instant) -> SentPacket {
        SentPacket { seq: self.pacer.next_seq, len, sent_at: now, app_limited: false }
    }

    /// The frame of the head-of-line packet: the one in flight, or the one that starts with
    /// this packet.
    pub open spec fn head_frame(self) -> FrameInFlight {
        let meta = self.head_meta();
        if self.frames_in_flight@.contains_key(meta.frame_id) {
            self.frames_in_flight@[meta.frame_id]
        } else if self.frame_targets@.contains_key(meta.frame_id) {
            FrameInFlight {
                head_at: meta.at_head_at,
                target_bitrate_bps: self.frame_targets@[meta.frame_id].target_bitrate_bps,
                cc_rate_bytes_per_sec: self.frame_targets@[meta.frame_id].cc_rate_bytes_per_sec,
            }
        } else {
            FrameInFlight {
                head_at: meta.at_head_at,
                target_bitrate_bps: self.cached_target_bitrate_bps,
                cc_rate_bytes_per_sec: self.cc.throughput(),
            }
        }
    }

    /// This session is `pre` after its head-of-line packet was sent at `now`.
    pub open spec fn media_sent_from(self, pre: Self, now: Instant) -> bool {
        let meta = pre.head_meta();
        let frame = pre.head_frame();
        &&& meta.len == content(pre.pacer.queue@[0].payload).len()
        &&& self.same_control(pre)
        &&& self.filler == pre.filler
        &&& self.cc.after_send(&pre.cc, pre.media_notice(now))
        &&& self.pacer.popped_from(pre.pacer, now)
        &&& self.pacer.next_send_at matches Some(t) && t@ == next_send(
            now,
            meta.len as nat,
            self.cc.send_rate(),
        )
        &&& self.video_bitrate.window == pre.video_bitrate.window
        &&& self.video_bitrate.samples@ == (if meta.counts_as_video {
            pre.video_bitrate.samples@.filter(
                |s: ByteSample| in_window(s, now, pre.video_bitrate.window),
            ).push(ByteSample { at: now, bytes: meta.len as u64 })
        } else {
            pre.video_bitrate.samples@
        })
        &&& self.samples.window == pre.samples.window
        &&& if meta.fin {
            &&& self.frames_in_flight@ == pre.frames_in_flight@.remove(meta.frame_id)
            &&& self.frame_targets@ == pre.frame_targets@.remove(meta.frame_id)
            &&& self.samples.samples@ == recent_samples(
                pre.samples.samples@,
                now,
                pre.samples.window,
            ).push(service_sample(frame, now))
        } else {
            &&& self.frames_in_flight@ == pre.frames_in_flight@.insert(meta.frame_id, frame)
            &&& self.frame_targets@ == pre.frame_targets@
            &&& self.samples.samples@ == pre.samples.samples@
        }
    }

    /// This session is `pre` after the filler packet `payload` was sent at `now`.
    pub open spec fn filler_sent_from(self, pre: Self, now: Instant, payload: Bytes) -> bool {
        let seq = pre.pacer.next_seq;
        let len = content(payload).len() as usize;
        &&& self.same_control(pre)
        &&& self.cc.after_send(&pre.cc, pre.filler_notice(len, now))
        &&& exists|asked: F| #[trigger]
            asked.after_next(&pre.filler, now, Some(payload)) && self.filler.after_send(
                &asked,
                seq,
                len,
                now,
            )
        &&& self.pacer.queue == pre.pacer.queue
        &&& self.pacer.in_flight@ == pre.pacer.in_flight@.insert(seq, filler_meta(seq, len, now))
        &&& self.pacer.next_seq == seq + 1
        &&& self.pacer.bytes_in_flight == saturated(pre.pacer.bytes_in_flight as nat + len as nat)
        &&& self.pacer.next_send_at matches Some(t) && t@ == next_send(
            now,
            len as nat,
            self.cc.send_rate(),
        )
        &&& self.video_bitrate == pre.video_bitrate
        &&& self.samples == pre.samples
        &&& self.frame_targets == pre.frame_targets
        &&& self.frames_in_flight == pre.frames_in_flight
    }

    /// Whether a send at `now` is neither paced off nor over the congestion window.
    pub open spec fn may_send(self, now: Instant) -> bool {
        self.pacer.ready(now) && self.cc.admits(self.pacer.bytes_in_flight)
    }

    /// Whether the next send at `now`, if any, stays within machine integers and the clock.
    pub open spec fn transmit_ok(self, now: Instant) -> bool {
        self.may_send(now) ==> {
            &&& self.pacer.next_seq < u64::MAX
            &&& if self.pacer.queue@.len() > 0 {
                self.notice_ok(self.media_notice(now))
            } else {
                &&& self.recent_video_bytes(now) <= u64::MAX
                &&& self.wants_filler(now) ==> {
                    &&& self.filler.usable()
                    &&& forall|len: usize|
                        len <= self.filler.size_limit() ==> #[trigger] self.notice_ok(
                            self.filler_notice(len, now),
                        )
                }
            }
        }
    }

    /// Whether the congestion controller can account for this packet, and the clock reaches
    /// the pacing deadline that follows.
    pub open spec fn notice_ok(self, sent: SentPacket) -> bool {
        &&& self.cc.send_ok(sent)
        &&& forall|cc: CC| #[trigger]
            cc.after_send(&self.cc, sent) ==> next_send(
                sent.sent_at,
                sent.len as nat,
                cc.send_rate(),
            ) <= LATEST
    }

    /// This session is `pre` after it gave `action` at `now`.
    pub open spec fn transmitted_from(
        self,
        pre: Self,
        now: Instant,
        action: Option<TransmitAction>,
    ) -> bool {
        if !pre.pacer.ready(now) {
            // Pacing gate.
            &&& self == pre
            &&& action == Some(TransmitAction::WaitUntil(pre.pacer.next_send_at->0))
        } else if !pre.cc.admits(pre.pacer.bytes_in_flight) {
            // The congestion window is full.
            &&& self == pre
            &&& action == Some(TransmitAction::Idle)
        } else if pre.pacer.queue@.len() > 0 {
            &&& self.media_sent_from(pre, now)
            &&& action == Some(
                TransmitAction::SendPacket { payload: pre.pacer.queue@[0].payload },
            )
        } else if pre.wants_filler(now) {
            match action {
                Some(TransmitAction::SendFiller { payload }) => {
                    &&& content(payload).len() <= pre.filler.size_limit()
                    &&& self.filler_sent_from(pre, now, payload)
                },
                // The filler has none: only the filler itself may have changed.
                None => {
                    &&& self.filler.after_next(&pre.filler, now, None)
                    &&& self == (Vidaptive { filler: self.filler, ..pre })
                },
                _ => false,
            }
        } else {
            &&& self == pre
            &&& action == Some(TransmitAction::Idle)
        }
    }

    /// Returns the next wire action, if any.
    #[must_use]
    pub fn poll_transmit(&mut self, now: Instant) -> (action: Option<TransmitAction>)
        requires
            old(self).transmit_ok(now),
        ensures
            final(self).transmitted_from(*old(self), now, action),
            final(self).samples.samples@.len() <= old(self).samples.samples@.len() + 1,
    {
        proof {
            lemma_recent_len(self.samples.samples@, now, self.samples.window);
        }
        self.poll_transmit_inner(now)
    }

    fn poll_transmit_inner(&mut self, now: Instant) -> (action: Option<TransmitAction>)
        requires
            old(self).transmit_ok(now),
        ensures
            final(self).transmitted_from(*old(self), now, action),
    {
        if !self.pacer.pacing_ready(now) {
            let until: Instant = match self.pacer.pacing_wait_until() {
                Some(t) => t,
                None => now,
            };
            return Some(TransmitAction::WaitUntil(until));
        }
        let bytes_in_flight: u64 = self.pacer.bytes_in_flight();
        if !self.cc.can_send(bytes_in_flight) {
            return Some(TransmitAction::Idle);
        }
        if self.pacer.has_media() {
            return self.send_packet(now);
        }
        if self.should_send_filler(now) {
            return self.send_filler(now);
        }
        Some(TransmitAction::Idle)
    }

    fn send_packet(&mut self, now: Instant) -> (action: Option<TransmitAction>)
        requires
            old(self).pacer.queue@.len() > 0,
            old(self).may_send(now),
            old(self).transmit_ok(now),
        ensures
            final(self).media_sent_from(*old(self), now),
            action == Some(
                TransmitAction::SendPacket { payload: old(self).pacer.queue@[0].payload },
            ),
    {
        let (meta, payload) = match self.pacer.pop_packet(now) {
            Some(popped) => popped,
            None => return None,
        };
        if !self.frames_in_flight.contains_key(&meta.frame_id) {
            let context: FrameEncodeContext = match self.frame_targets.get(&meta.frame_id) {
                Some(context) => *context,
                None => FrameEncodeContext {
                    target_bitrate_bps: self.cached_target_bitrate_bps,
                    cc_rate_bytes_per_sec: self.cc.cc_rate(),
                },
            };
            self.frames_in_flight.insert(
                meta.frame_id,
                FrameInFlight {
                    head_at: meta.at_head_at,
                    target_bitrate_bps: context.target_bitrate_bps,
                    cc_rate_bytes_per_sec: context.cc_rate_bytes_per_sec,
                },
            );
        }
        assert(self.frames_in_flight@ =~= old(self).frames_in_flight@.insert(
            meta.frame_id,
            old(self).head_frame(),
        ));
        // The packet is in flight already. With room left in the window and nothing more to
        // send, this send was application-limited.
        let app_limited: bool = !self.pacer.has_media() && self.cc.can_send(
            self.pacer.bytes_in_flight(),
        );
        let sent: SentPacket = SentPacket {
            seq: meta.seq,
            len: meta.len,
            sent_at: now,
            app_limited,
        };
        self.cc.on_packet_sent(&sent);
        let rate: u64 = self.cc.pacing_rate();
        self.pacer.record_send(meta.len, rate, now);
        if meta.counts_as_video {
            self.video_bitrate.record(meta.len as u64, now);
        }
        if meta.fin {
            self.complete_frame_service(meta.frame_id, now);
            assert(self.frames_in_flight@ =~= old(self).frames_in_flight@.remove(meta.frame_id));
        }
        Some(TransmitAction::SendPacket { payload })
    }

    fn send_filler(&mut self, now: Instant) -> (action: Option<TransmitAction>)
        requires
            old(self).pacer.queue@.len() == 0,
            old(self).may_send(now),
            old(self).wants_filler(now),
            old(self).transmit_ok(now),
        ensures
            final(self).transmitted_from(*old(self), now, action),
    {
        let payload: Bytes = match self.filler.next_packet(now) {
            Some(payload) => payload,
            None => return None,
        };
        let ghost asked: F = self.filler;
        let len: usize = payload.len();
        assert(old(self).notice_ok(old(self).filler_notice(len, now)));
        let seq: u64 = self.pacer.next_seq();
        let _meta: PacketMeta = self.pacer.register_filler(seq, len, now);
        let sent: SentPacket = SentPacket { seq, len, sent_at: now, app_limited: false };
        self.cc.on_packet_sent(&sent);
        let rate: u64 = self.cc.pacing_rate();
        self.pacer.record_send(len, rate, now);
        self.filler.on_packet_sent(seq, len, now);
        assert(asked.after_next(&old(self).filler, now, Some(payload)));
        Some(TransmitAction::SendFiller { payload })
    }

    fn complete_frame_service(&mut self, frame_id: u64, now: Instant)
        ensures
            final(self).same_control(*old(self)),
            final(self).cc == old(self).cc,
            final(self).filler == old(self).filler,
            final(self).pacer == old(self).pacer,
            final(self).video_bitrate == old(self).video_bitrate,
            final(self).samples.window == old(self).samples.window,
            final(self).frames_in_flight@ == old(self).frames_in_flight@.remove(frame_id),
            old(self).frames_in_flight@.contains_key(frame_id) ==> {
                &&& final(self).frame_targets@ == old(self).frame_targets@.remove(frame_id)
                &&& final(self).samples.samples@ == recent_samples(
                    old(self).samples.samples@,
                    now,
                    old(self).samples.window,
                ).push(service_sample(old(self).frames_in_flight@[frame_id], now))
            },
            !old(self).frames_in_flight@.contains_key(frame_id) ==> *final(self) == *old(self),
    {
        if !self.frames_in_flight.contains_key(&frame_id) {
            assert(self.frames_in_flight@.remove(frame_id) =~= self.frames_in_flight@);
            return;
        }
        if let Some(inflight) = self.frames_in_flight.remove(&frame_id) {
            self.frame_targets.remove(&frame_id);
            let service_time: Duration = now.saturating_duration_since(inflight.head_at);
            self.samples.push(
                FrameServiceSample {
                    service_time,
                    target_bitrate_bps: inflight.target_bitrate_bps,
                    cc_rate_bytes_per_sec: inflight.cc_rate_bytes_per_sec,
                    at: now,
                },
            );
        }
    }

    /// Whether the pacer has queued media packets waiting to be sent.
    ///
    /// Callers can use this to avoid polling for fillers when they intend to
    /// skip them anyway: `poll_transmit` registers a filler in the pacer
    /// (incrementing `bytes_in_flight` and the pacer's seq) before returning
    /// `SendFiller`, so skipping the send would leak a phantom packet that
    /// inflates `bytes_in_flight` forever and diverges the seq counters.
    #[must_use]
    pub fn has_media(&self) -> (r: bool)
        ensures
            r == (self.pacer.queue@.len() > 0),
    {
        self.pacer.has_media()
    }

    /// Number of packets currently waiting in the pacer queue.
    #[must_use]
    pub fn pacer_queue_len(&self) -> (n: usize)
        ensures
            n == self.pacer.queue@.len(),
    {
        self.pacer.queue_len()
    }

    /// Age of the oldest packet still waiting in the pacer queue, if any.
    #[must_use]
    pub fn pacer_oldest_queued_age(&self, now: Instant) -> (age: Option<Duration>)
        ensures
            age == self.pacer.oldest_age(now),
    {
        self.pacer.oldest_queued_age(now)
    }

    /// Bytes currently in flight on the network (pacer accounting).
    #[must_use]
    pub fn bytes_in_flight(&self) -> (n: u64)
        ensures
            n == self.pacer.bytes_in_flight,
    {
        self.pacer.bytes_in_flight()
    }

    /// Whether the safeguards have paused the encoder (head-of-line queue too old).
    #[must_use]
    pub fn encoder_paused(&self) -> (r: bool)
        ensures
            r == self.encoder.pause,
    {
        self.encoder.pause
    }

    /// Returns current encoder advice (bitrate, pause, α).
    #[must_use]
    pub fn poll_encoder(&mut self, _now: Instant) -> (advice: EncoderAdvice)
        ensures
            advice == old(self).encoder,
            *final(self) == *old(self),
    {
        self.encoder
    }

    /// This session is `pre` after the acknowledgements arrived at `now`.
    pub open spec fn acked_from(self, pre: Self, acks: Seq<AckInfo>, now: Instant) -> bool {
        let flights = pre.pacer.in_flight@;
        &&& self.cc.after_acks(&pre.cc, acks)
        &&& self.pacer.queue == pre.pacer.queue
        &&& self.pacer.next_seq == pre.pacer.next_seq
        &&& self.pacer.next_send_at == pre.pacer.next_send_at
        &&& self.pacer.in_flight@ == flights_after(flights, acks)
        &&& self.pacer.bytes_in_flight == bytes_after(pre.pacer.bytes_in_flight, flights, acks)
        &&& self.frames_in_flight@ == frames_after(pre.frames_in_flight@, flights, acks)
        &&& self.frame_targets@ == frames_after(pre.frame_targets@, flights, acks)
        &&& self == (Vidaptive {
            cc: self.cc,
            pacer: self.pacer,
            frames_in_flight: self.frames_in_flight,
            frame_targets: self.frame_targets,
            ..pre
        }).refreshed(now)
    }

    /// Handles one or more network ACKs in a single feedback event.
    pub fn on_network_acks(&mut self, acks: &[AckInfo], now: Instant)
        requires
            old(self).cc.acks_ok(acks@),
            old(self).samples.samples@.len() <= MAX_SAMPLES,
        ensures
            final(self).acked_from(*old(self), acks@, now),
    {
        self.cc.on_packets_acked(acks);
        let ghost flights: Map<u64, PacketMeta> = old(self).pacer.in_flight@;
        let mut i: usize = 0;
        while i < acks.len()
            invariant
                i <= acks.len(),
                flights == old(self).pacer.in_flight@,
                self.cc.after_acks(&old(self).cc, acks@),
                self.pacer.queue == old(self).pacer.queue,
                self.pacer.next_seq == old(self).pacer.next_seq,
                self.pacer.next_send_at == old(self).pacer.next_send_at,
                self.pacer.in_flight@ == flights_after(flights, acks@.take(i as int)),
                self.pacer.bytes_in_flight == bytes_after(
                    old(self).pacer.bytes_in_flight,
                    flights,
                    acks@.take(i as int),
                ),
                self.frames_in_flight@ == frames_after(
                    old(self).frames_in_flight@,
                    flights,
                    acks@.take(i as int),
                ),
                self.frame_targets@ == frames_after(
                    old(self).frame_targets@,
                    flights,
                    acks@.take(i as int),
                ),
                self.same_control(*old(self)),
                self.filler == old(self).filler,
                self.samples == old(self).samples,
                self.video_bitrate == old(self).video_bitrate,
            decreases acks.len() - i,
        {
            proof {
                assert(acks@.take(i + 1).drop_last() =~= acks@.take(i as int));
                assert(acks@.take(i + 1).last() == acks@[i as int]);
            }
            if let Some(meta) = self.pacer.complete_packet(acks[i].seq) {
                self.on_packet_completed(meta);
            }
            i += 1;
        }
        assert(acks@.take(i as int) =~= acks@);
        self.refresh_encoder_state(now);
    }

    fn on_packet_completed(&mut self, meta: PacketMeta)
        ensures
            final(self).same_control(*old(self)),
            final(self).cc == old(self).cc,
            final(self).filler == old(self).filler,
            final(self).pacer == old(self).pacer,
            final(self).samples == old(self).samples,
            final(self).video_bitrate == old(self).video_bitrate,
            final(self).frames_in_flight@ == frames_without(
                old(self).frames_in_flight@,
                Some(meta),
            ),
            final(self).frame_targets@ == frames_without(old(self).frame_targets@, Some(meta)),
    {
        if meta.is_filler {
            return;
        }
        if meta.fin {
            self.frames_in_flight.remove(&meta.frame_id);
            self.frame_targets.remove(&meta.frame_id);
        }
    }

    /// Handles a network ACK.
    pub fn on_network_ack(&mut self, ack: AckInfo, now: Instant)
        requires
            old(self).cc.acks_ok(seq![ack]),
            old(self).samples.samples@.len() <= MAX_SAMPLES,
        ensures
            final(self).acked_from(*old(self), seq![ack], now),
    {
        let mut acks: Vec<AckInfo> = Vec::new();
        acks.push(ack);
        assert(acks@ =~= seq![ack]);
        self.on_network_acks(acks.as_slice(), now);
    }

    /// This session is `pre` after `loss` was reported at `now`.
    pub open spec fn lost_from(self, pre: Self, loss: LostPacket, now: Instant) -> bool {
        let packet = pre.pacer.in_flight@.get(loss.seq);
        &&& self.cc.after_loss(&pre.cc, loss)
        &&& self.pacer.settled_from(pre.pacer, loss.seq)
        &&& self.frames_in_flight@ == frames_without(pre.frames_in_flight@, packet)
        &&& self.frame_targets@ == frames_without(pre.frame_targets@, packet)
        &&& self == (Vidaptive {
            cc: self.cc,
            pacer: self.pacer,
            frames_in_flight: self.frames_in_flight,
            frame_targets: self.frame_targets,
            ..pre
        }).refreshed(now)
    }

    /// Handles a network loss notification.
    pub fn on_network_loss(&mut self, loss: LostPacket, now: Instant)
        requires
            old(self).cc.loss_ok(loss),
            old(self).samples.samples@.len() <= MAX_SAMPLES,
        ensures
            final(self).lost_from(*old(self), loss, now),
    {
        self.cc.on_packet_lost(&loss);
        if let Some(meta) = self.pacer.drop_packet(loss.seq) {
            self.on_packet_completed(meta);
        }
        self.refresh_encoder_state(now);
    }

    /// Whether a tick at `now` completes an optimizer window.
    pub open spec fn optimizer_due(self, now: Instant) -> bool {
        elapsed(now, self.last_optimizer_tick) >= self.config.optimizer_window.nanos
    }

    /// This session is `pre` after a tick at `now`: old samples are gone, the optimizer has run
    /// if its window is over, and the encoder state is up to date.
    pub open spec fn ticked_from(self, pre: Self, now: Instant) -> bool {
        let evicted = Vidaptive {
            samples: self.samples,
            video_bitrate: self.video_bitrate,
            ..pre
        };
        &&& self.samples.window == pre.samples.window
        &&& self.samples.samples@ == recent_samples(pre.samples.samples@, now, pre.samples.window)
        &&& self.video_bitrate.window == pre.video_bitrate.window
        &&& self.video_bitrate.samples@ == pre.video_bitrate.samples@.filter(
            |s: ByteSample| in_window(s, now, pre.video_bitrate.window),
        )
        &&& self == (if pre.optimizer_due(now) {
            evicted.optimized(now).refreshed(now)
        } else {
            evicted.refreshed(now)
        })
    }

    /// Periodic tick: optimizer, eviction, safeguards.
    pub fn tick(&mut self, now: Instant)
        requires
            old(self).samples.samples@.len() <= MAX_SAMPLES,
        ensures
            final(self).ticked_from(*old(self), now),
            final(self).samples.samples@.len() <= old(self).samples.samples@.len(),
    {
        self.samples.evict(now);
        self.video_bitrate.evict(now);
        proof {
            lemma_recent_len(old(self).samples.samples@, now, old(self).samples.window);
        }
        let due: bool = now.saturating_duration_since(self.last_optimizer_tick).nanos
            >= self.config.optimizer_window().nanos;
        if due {
            self.run_optimizer(now);
        }
        self.refresh_encoder_state(now);
    }

    /// Whether handling `input` is within machine integers.
    pub open spec fn input_ok(self, input: VidaptiveInput) -> bool {
        match input {
            VidaptiveInput::Ack(ack) => self.cc.acks_ok(seq![ack]),
            VidaptiveInput::Loss(loss) => self.cc.loss_ok(loss),
            _ => true,
        }
    }

    /// This session is `pre` after it took `input` in at `now`.
    pub open spec fn input_taken_from(self, pre: Self, input: VidaptiveInput, now: Instant)
        -> bool {
        match input {
            VidaptiveInput::PacketsEnqueued(frame) => self.enqueued_from(pre, frame, now),
            VidaptiveInput::Ack(ack) => self.acked_from(pre, seq![ack], now),
            VidaptiveInput::Loss(loss) => self.lost_from(pre, loss, now),
            VidaptiveInput::Tick => self.ticked_from(pre, now),
        }
    }

    /// This session is `pre` after it handled `input` at `now`: it took the input in, gave the
    /// next wire action, and then the encoder advice.
    pub open spec fn handled_from(
        self,
        pre: Self,
        input: VidaptiveInput,
        now: Instant,
        output: VidaptiveOutput,
    ) -> bool {
        &&& exists|taken: Self| #[trigger]
            taken.input_taken_from(pre, input, now) && self.transmitted_from(
                taken,
                now,
                output.transmit,
            )
        &&& output.encoder == self.encoder
    }

    /// Consolidated event handler.
    #[must_use]
    pub fn handle(&mut self, input: VidaptiveInput, now: Instant) -> (output: VidaptiveOutput)
        requires
            old(self).samples.samples@.len() <= MAX_SAMPLES,
            old(self).input_ok(input),
            forall|taken: Self| #[trigger]
                taken.input_taken_from(*old(self), input, now) ==> taken.transmit_ok(now),
        ensures
            final(self).handled_from(*old(self), input, now, output),
    {
        match input {
            VidaptiveInput::PacketsEnqueued(frame) => self.enqueue_packets(frame, now),
            VidaptiveInput::Ack(ack) => self.on_network_ack(ack, now),
            VidaptiveInput::Loss(loss) => self.on_network_loss(loss, now),
            VidaptiveInput::Tick => self.tick(now),
        }
        assert(self.input_taken_from(*old(self), input, now));
        let transmit: Option<TransmitAction> = self.poll_transmit(now);
        VidaptiveOutput { transmit, encoder: self.poll_encoder(now) }
    }
}

/// Eviction never adds samples.
pub proof fn lemma_recent_len(samples: Seq<FrameServiceSample>, now: Instant, window: Duration)
    ensures
        recent_samples(samples, now, window).len() <= samples.len(),
    decreases samples.len(),
{
    reveal(Seq::filter);
    if samples.len() > 0 {
        lemma_recent_len(samples.drop_last(), now, window);
    }
}

} // verus!
