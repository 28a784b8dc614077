//! Copa delay-based congestion control.
//!
//! See <https://web.mit.edu/copa/>.

use std::collections::BTreeMap;

use vstd::prelude::*;

use crate::binary64::{
    at_most, larger, product, quotient, signed, smaller, truncated, whole_number, Binary64,
};
use crate::bounded::{minus_floored, saturated, saturating_product};
use crate::cc::rtt::{MinMax, MinMaxState, RttEstimator, RTT_BOUND};
use crate::cc::CongestionController;
use crate::time::{elapsed, saturated_micros, seconds, Duration, Instant, NANOS_PER_MICRO};
use crate::types::{AckInfo, LostPacket, SentPacket};

verus! {

/// Encoding of 0.9, the default δ.
pub const DEFAULT_DELTA_BITS: u64 = 0x3FEC_CCCC_CCCC_CCCD;

/// Rounds in one direction after which the velocity doubles.
pub const SPEED_UP_THRESHOLD: u64 = 3;

/// Pacing rate over the rate of the window.
pub const PACING_GAIN: u64 = 2;

/// Encoding of 0.1, the loss rate from which the link counts as contended.
pub const LOSS_RATE_THRESHOLD_BITS: u64 = 0x3FB9_9999_9999_999A;

/// Reference packet size in bytes.
pub const DEFAULT_PACKET_SIZE: u64 = 1_200;

/// Encoding of 1e-9, the shortest round-trip time in seconds.
pub const MIN_SECS_BITS: u64 = 0x3E11_2E0B_E826_D695;

/// Encoding of 0.5, the largest δ under contention.
pub const HALF_BITS: u64 = 0x3FE0_0000_0000_0000;

/// Copa configuration.
#[derive(Debug, Clone, Copy)]
pub struct CopaConfig {
    /// Minimum cwnd in bytes.
    pub min_cwnd: u64,
    /// Initial cwnd in bytes.
    pub initial_cwnd: u64,
    /// Initial RTT guess.
    pub initial_rtt: Duration,
    /// Reference packet size for target-rate calculation.
    pub packet_size: u64,
    /// δ in slow start.
    pub slow_start_delta: Binary64,
    /// δ in steady state.
    pub steady_delta: Binary64,
    /// Use standing RTT window = srtt (true) or srtt/2 (false).
    pub use_standing_rtt: bool,
}

impl Default for CopaConfig {
    fn default() -> (c: Self)
        ensures
            c == (CopaConfig {
                min_cwnd: 4_800,
                initial_cwnd: 96_000,
                initial_rtt: Duration { nanos: 50_000_000 },
                packet_size: 1_200,
                slow_start_delta: Binary64 { bits: DEFAULT_DELTA_BITS },
                steady_delta: Binary64 { bits: DEFAULT_DELTA_BITS },
                use_standing_rtt: true,
            }),
    {
        CopaConfig {
            min_cwnd: 4 * DEFAULT_PACKET_SIZE,
            initial_cwnd: 80 * DEFAULT_PACKET_SIZE,
            initial_rtt: Duration::from_millis(50),
            packet_size: DEFAULT_PACKET_SIZE,
            slow_start_delta: Binary64::from_bits(DEFAULT_DELTA_BITS),
            steady_delta: Binary64::from_bits(DEFAULT_DELTA_BITS),
            use_standing_rtt: true,
        }
    }
}

/// Direction in which the window moves.
#[derive(Debug, Clone, Copy, PartialEq, Eq, Structural)]
pub enum Direction {
    /// Growing.
    Up,
    /// Shrinking.
    Down,
}

/// Whether other flows fill the queue.
#[derive(Debug, Clone, Copy, PartialEq, Eq, Structural)]
pub enum CompetingMode {
    /// The configured δ applies.
    Default,
    /// Losses are high.
    Competitive,
}

/// A packet in flight.
#[derive(Debug, Clone, Copy)]
pub struct SentRecord {
    /// Send time.
    pub sent_at: Instant,
}

/// How fast the window moves.
#[derive(Debug, Clone, Copy)]
pub struct Velocity {
    /// Direction over the last round.
    pub direction: Direction,
    /// Multiple of the base step.
    pub velocity: u64,
    /// Window at the last round, 0 before any.
    pub last_cwnd: u64,
    /// Rounds in the same direction.
    pub same_direction_cnt: u64,
}

/// What one feedback event brought.
#[derive(Debug, Clone, Copy)]
pub struct AckState {
    /// Time of the event.
    pub now: Instant,
    /// Bytes lost since.
    pub newly_lost_bytes: u64,
    /// Bytes acknowledged.
    pub newly_acked_bytes: u64,
    /// Largest sequence number acknowledged.
    pub largest_acked_seq: u64,
    /// Least round-trip time of the event, empty before any.
    pub min_rtt: Duration,
    /// Smoothed round-trip time after the event, empty before any.
    pub last_srtt: Duration,
}

/// Accounting per round trip.
#[derive(Debug, Clone, Copy)]
pub struct Round {
    /// Rounds so far.
    pub count: u64,
    /// Whether the last event started a round.
    pub is_start: bool,
    /// The round ends with this sequence number.
    pub end_seq: u64,
    /// Bytes acknowledged up to the start of the round.
    pub last_acked_bytes: u64,
    /// Bytes lost up to the start of the round.
    pub last_lost_bytes: u64,
    /// Share of bytes lost in the last round.
    pub loss_rate: Binary64,
}

/// Copa congestion controller.
#[derive(Debug)]
pub struct Copa {
    /// Tunables.
    pub config: CopaConfig,
    /// Start of the controller's clock.
    pub init_time: Instant,
    /// Window in bytes, before the minimum applies.
    pub cwnd: u64,
    /// Whether the window has never shrunk.
    pub slow_start: bool,
    /// Whether other flows fill the queue.
    pub mode: CompetingMode,
    /// Current δ.
    pub delta: Binary64,
    /// How fast the window moves.
    pub velocity: Velocity,
    /// Minimum over about one round trip.
    pub standing_rtt: MinMax,
    /// Minimum over ten seconds.
    pub min_rtt: MinMax,
    /// Smoothed round-trip time.
    pub rtt: RttEstimator,
    /// Last feedback event.
    pub ack: AckState,
    /// Whether the window should grow.
    pub increase_cwnd: bool,
    /// Target throughput in bytes per second.
    pub target_rate: u64,
    /// Accounting per round trip.
    pub round: Round,
    /// Last sequence number sent.
    pub last_sent_seq: u64,
    /// Bytes in flight.
    pub bytes_in_flight: u64,
    /// Bytes acknowledged in all.
    pub bytes_acked_total: u64,
    /// Bytes lost in all.
    pub bytes_lost_total: u64,
    /// Packets in flight.
    pub sent: BTreeMap<u64, SentRecord>,
}

/// What a [`Copa`] holds.
#[verifier::ext_equal]
pub struct CopaState {
    /// Tunables.
    pub config: CopaConfig,
    /// Start of the clock.
    pub init_time: Instant,
    /// Window before the minimum applies.
    pub cwnd: u64,
    /// Whether the window has never shrunk.
    pub slow_start: bool,
    /// Whether other flows fill the queue.
    pub mode: CompetingMode,
    /// Current δ.
    pub delta: Binary64,
    /// How fast the window moves.
    pub velocity: Velocity,
    /// Minimum over about one round trip.
    pub standing: MinMaxState,
    /// Minimum over ten seconds.
    pub lowest: MinMaxState,
    /// Smoothed round-trip time.
    pub rtt: RttEstimator,
    /// Last feedback event.
    pub ack: AckState,
    /// Whether the window should grow.
    pub grow: bool,
    /// Target throughput.
    pub target_rate: u64,
    /// Accounting per round trip.
    pub round: Round,
    /// Last sequence number sent.
    pub last_sent_seq: u64,
    /// Bytes in flight.
    pub in_flight: u64,
    /// Bytes acknowledged in all.
    pub acked_total: u64,
    /// Bytes lost in all.
    pub lost_total: u64,
    /// Packets in flight.
    pub sent: Map<u64, SentRecord>,
}

impl View for Copa {
    type V = CopaState;

    open spec fn view(&self) -> CopaState {
        CopaState {
            config: self.config,
            init_time: self.init_time,
            cwnd: self.cwnd,
            slow_start: self.slow_start,
            mode: self.mode,
            delta: self.delta,
            velocity: self.velocity,
            standing: self.standing_rtt@,
            lowest: self.min_rtt@,
            rtt: self.rtt,
            ack: self.ack,
            grow: self.increase_cwnd,
            target_rate: self.target_rate,
            round: self.round,
            last_sent_seq: self.last_sent_seq,
            in_flight: self.bytes_in_flight,
            acked_total: self.bytes_acked_total,
            lost_total: self.bytes_lost_total,
            sent: self.sent@,
        }
    }
}

/// The longer of two spans.
pub open spec fn longer(a: Duration, b: Duration) -> Duration {
    if a.nanos >= b.nanos {
        a
    } else {
        b
    }
}

/// One microsecond.
pub open spec fn one_micro() -> Duration {
    Duration { nanos: 1_000 }
}

/// Bytes per second of a window per round trip of at least one nanosecond.
pub open spec fn window_rate(cwnd: u64, rtt: Duration) -> u64 {
    truncated(
        quotient(
            whole_number(cwnd as nat),
            larger(seconds(rtt), signed(false, MIN_SECS_BITS as nat)),
        ),
    )
}

impl CopaState {
    /// No round-trip time exceeds the longest one.
    pub open spec fn wf(self) -> bool {
        self.rtt.bounded()
    }

    /// The state before any packet is sent.
    pub open spec fn initial(config: CopaConfig, now: Instant) -> CopaState {
        CopaState {
            config,
            init_time: now,
            cwnd: config.initial_cwnd,
            slow_start: true,
            mode: CompetingMode::Default,
            delta: config.slow_start_delta,
            velocity: Velocity {
                direction: Direction::Up,
                velocity: 1,
                last_cwnd: 0,
                same_direction_cnt: 0,
            },
            standing: MinMaxState { window_us: 100_000, samples: Seq::empty(), min: 0 },
            lowest: MinMaxState { window_us: 10_000_000, samples: Seq::empty(), min: 0 },
            rtt: RttEstimator {
                latest_rtt: config.initial_rtt,
                smoothed_rtt: config.initial_rtt,
                rttvar: Duration { nanos: config.initial_rtt.nanos / 2 },
            },
            ack: AckState {
                now,
                newly_lost_bytes: 0,
                newly_acked_bytes: 0,
                largest_acked_seq: 0,
                min_rtt: Duration { nanos: 0 },
                last_srtt: Duration { nanos: 0 },
            },
            grow: true,
            target_rate: 0,
            round: Round {
                count: 0,
                is_start: false,
                end_seq: 0,
                last_acked_bytes: 0,
                last_lost_bytes: 0,
                loss_rate: signed(false, 0),
            },
            last_sent_seq: 0,
            in_flight: 0,
            acked_total: 0,
            lost_total: 0,
            sent: Map::empty(),
        }
    }

    /// The window in effect.
    pub open spec fn window(self) -> u64 {
        if self.cwnd >= self.config.min_cwnd {
            self.cwnd
        } else {
            self.config.min_cwnd
        }
    }

    /// The standing round-trip time: the recent minimum, or the configured guess before any.
    pub open spec fn standing_time(self) -> Duration {
        if self.standing.min == 0 {
            longer(self.config.initial_rtt, one_micro())
        } else {
            Duration { nanos: (self.standing.min * NANOS_PER_MICRO) as u128 }
        }
    }

    /// A feedback event begins.
    pub open spec fn begun(self, now: Instant) -> CopaState {
        CopaState {
            ack: AckState {
                now,
                newly_lost_bytes: 0,
                newly_acked_bytes: 0,
                largest_acked_seq: 0,
                min_rtt: Duration { nanos: 0 },
                last_srtt: Duration { nanos: 0 },
            },
            ..self
        }
    }

    /// The event after one acknowledgement.
    pub open spec fn sampled_ack(self, seq: u64, acked_bytes: u64, sample: Duration) -> AckState {
        AckState {
            newly_acked_bytes: saturated(self.ack.newly_acked_bytes as nat + acked_bytes as nat),
            largest_acked_seq: if self.ack.largest_acked_seq >= seq {
                self.ack.largest_acked_seq
            } else {
                seq
            },
            last_srtt: self.rtt.smoothed_rtt,
            min_rtt: if self.ack.min_rtt.nanos == 0 || self.ack.min_rtt.nanos >= sample.nanos {
                sample
            } else {
                self.ack.min_rtt
            },
            ..self.ack
        }
    }

    /// One acknowledgement is taken in; that of an unknown packet does not count.
    pub open spec fn took(self, ack: AckInfo) -> CopaState {
        if self.sent.contains_key(ack.seq) {
            let sample = Duration {
                nanos: elapsed(ack.acked_at, self.sent[ack.seq].sent_at) as u128,
            };
            let rtt = self.rtt.after_sample(sample);
            CopaState {
                sent: self.sent.remove(ack.seq),
                in_flight: minus_floored(self.in_flight, ack.len as nat),
                acked_total: saturated(self.acked_total as nat + ack.len as nat),
                rtt,
                ack: (CopaState { rtt, ..self }).sampled_ack(ack.seq, ack.len as u64, sample),
                ..self
            }
        } else {
            self
        }
    }

    /// The acknowledgements are taken in one by one.
    pub open spec fn took_all(self, acks: Seq<AckInfo>) -> CopaState
        decreases acks.len(),
    {
        if acks.len() == 0 {
            self
        } else {
            self.took_all(acks.drop_last()).took(acks.last())
        }
    }

    /// Share of bytes lost since the round began.
    pub open spec fn loss_share(self) -> Binary64 {
        let lost = minus_floored(self.lost_total, self.round.last_lost_bytes as nat);
        let acked = minus_floored(self.acked_total, self.round.last_acked_bytes as nat);
        let all = saturated(lost as nat + acked as nat);
        if all == 0 {
            signed(false, 0)
        } else {
            quotient(whole_number(lost as nat), whole_number(all as nat))
        }
    }

    /// A round ends once everything sent before it is acknowledged, and the next one begins.
    pub open spec fn round_checked(self) -> CopaState {
        if self.ack.largest_acked_seq >= self.round.end_seq {
            CopaState {
                round: Round {
                    count: saturated(self.round.count as nat + 1),
                    is_start: true,
                    end_seq: self.last_sent_seq,
                    last_acked_bytes: self.acked_total,
                    last_lost_bytes: self.lost_total,
                    loss_rate: self.loss_share(),
                },
                ..self
            }
        } else {
            CopaState { round: Round { is_start: false, ..self.round }, ..self }
        }
    }

    /// The round-trip times of the event enter the filters.
    pub open spec fn timed(self) -> CopaState {
        let window = longer(
            if self.config.use_standing_rtt {
                self.ack.last_srtt
            } else {
                Duration { nanos: self.ack.last_srtt.nanos / 2 }
            },
            one_micro(),
        );
        let sample = if self.ack.min_rtt.nanos != 0 {
            self.ack.min_rtt
        } else if self.ack.last_srtt.nanos != 0 {
            self.ack.last_srtt
        } else {
            self.config.initial_rtt
        };
        let at = saturated_micros(
            Duration { nanos: elapsed(self.ack.now, self.init_time) as u128 },
        );
        let sample_us = saturated_micros(sample);
        CopaState {
            ack: AckState { min_rtt: sample, ..self.ack },
            lowest: self.lowest.updated(at, sample_us),
            standing: (MinMaxState {
                window_us: saturated_micros(window),
                ..self.standing
            }).updated(at, sample_us),
            ..self
        }
    }

    /// δ follows the loss rate: the configured one, or twice the last one up to one half
    /// while losses are high.
    pub open spec fn mode_checked(self) -> CopaState {
        if at_most(signed(false, LOSS_RATE_THRESHOLD_BITS as nat), self.round.loss_rate) {
            CopaState {
                mode: CompetingMode::Competitive,
                delta: smaller(
                    product(self.delta, whole_number(2)),
                    signed(false, HALF_BITS as nat),
                ),
                ..self
            }
        } else {
            CopaState {
                mode: CompetingMode::Default,
                delta: if self.slow_start {
                    self.config.slow_start_delta
                } else {
                    self.config.steady_delta
                },
                ..self
            }
        }
    }

    /// The target rate follows the queueing delay: the current rate without any, otherwise
    /// one packet per δ queueing delays.
    pub open spec fn aimed(self) -> CopaState {
        let standing = self.standing_time();
        let lowest: nat = (self.lowest.min * NANOS_PER_MICRO) as nat;
        let current = window_rate(self.cwnd, standing);
        if standing.nanos <= lowest {
            CopaState { grow: true, target_rate: current, ..self }
        } else {
            let queueing = Duration { nanos: (standing.nanos - lowest) as u128 };
            let target = truncated(
                quotient(
                    quotient(whole_number(self.config.packet_size as nat), self.delta),
                    seconds(longer(queueing, one_micro())),
                ),
            );
            CopaState { grow: target >= current, target_rate: target, ..self }
        }
    }

    /// The velocity doubles after three rounds in one direction and starts over when the
    /// window turns or was headed against the target.
    pub open spec fn sped(self) -> CopaState {
        let v = self.velocity;
        if self.slow_start && self.grow {
            self
        } else if v.last_cwnd == 0 {
            CopaState {
                velocity: Velocity {
                    last_cwnd: self.window(),
                    velocity: 1,
                    same_direction_cnt: 0,
                    ..v
                },
                ..self
            }
        } else if !self.round.is_start {
            self
        } else {
            let direction = if self.cwnd > v.last_cwnd {
                Direction::Up
            } else {
                Direction::Down
            };
            let wanted = if self.grow {
                Direction::Up
            } else {
                Direction::Down
            };
            let count = if direction != v.direction {
                0
            } else {
                saturated(v.same_direction_cnt as nat + 1)
            };
            let speed = if direction != v.direction {
                1
            } else if count >= SPEED_UP_THRESHOLD {
                saturated(v.velocity as nat * 2)
            } else {
                v.velocity
            };
            CopaState {
                velocity: Velocity {
                    direction,
                    velocity: if v.direction != wanted && speed > 1 {
                        1
                    } else {
                        speed
                    },
                    last_cwnd: self.cwnd,
                    same_direction_cnt: count,
                },
                ..self
            }
        }
    }

    /// Bytes by which the window moves outside slow start.
    pub open spec fn cwnd_step(self) -> u64 {
        truncated(
            quotient(
                whole_number(
                    (self.velocity.velocity * self.ack.newly_acked_bytes
                        * self.config.packet_size) as nat,
                ),
                product(self.delta, whole_number(self.cwnd as nat)),
            ),
        )
    }

    /// The window moves: by the acknowledged bytes in slow start, otherwise by the step; a
    /// window of nothing starts over from the minimum. Slow start ends with the first
    /// decrease.
    pub open spec fn moved(self) -> CopaState {
        if self.slow_start && self.grow {
            CopaState {
                cwnd: saturated(self.cwnd as nat + self.ack.newly_acked_bytes as nat),
                ..self
            }
        } else {
            let cwnd = if self.grow {
                saturated(self.cwnd as nat + self.cwnd_step() as nat)
            } else {
                minus_floored(self.cwnd, self.cwnd_step() as nat)
            };
            if cwnd == 0 {
                CopaState {
                    slow_start: false,
                    cwnd: self.config.min_cwnd,
                    velocity: Velocity { velocity: 1, ..self.velocity },
                    ..self
                }
            } else {
                CopaState { slow_start: false, cwnd, ..self }
            }
        }
    }

    /// The state just before the window moves.
    pub open spec fn modelled(self) -> CopaState {
        self.timed().mode_checked().aimed().sped()
    }

    /// The state before the model is updated for one feedback event.
    pub open spec fn fed(self, acks: Seq<AckInfo>) -> CopaState {
        self.begun(acks[0].acked_at).took_all(acks).round_checked()
    }

    /// The state after one feedback event.
    pub open spec fn acknowledged(self, acks: Seq<AckInfo>) -> CopaState {
        if acks.len() == 0 {
            self
        } else {
            self.fed(acks).modelled().moved()
        }
    }

    /// Whether the step of the window stays within machine integers.
    pub open spec fn step_ok(self) -> bool {
        !(self.slow_start && self.grow) ==> {
            let moved_bytes = self.velocity.velocity * self.ack.newly_acked_bytes;
            &&& moved_bytes <= u64::MAX
            &&& moved_bytes * self.config.packet_size <= u64::MAX
        }
    }

    /// The state after a loss.
    pub open spec fn lost(self, packet: LostPacket) -> CopaState {
        let len: nat = packet.len as nat;
        CopaState {
            sent: self.sent.remove(packet.seq),
            in_flight: if self.sent.contains_key(packet.seq) {
                minus_floored(self.in_flight, len)
            } else {
                self.in_flight
            },
            lost_total: saturated(self.lost_total as nat + len),
            ack: AckState {
                newly_lost_bytes: saturated(self.ack.newly_lost_bytes as nat + len),
                ..self.ack
            },
            ..self
        }
    }

    /// The state after a send.
    pub open spec fn sending(self, packet: SentPacket) -> CopaState {
        CopaState {
            in_flight: saturated(self.in_flight as nat + packet.len as nat),
            last_sent_seq: packet.seq,
            sent: self.sent.insert(packet.seq, SentRecord { sent_at: packet.sent_at }),
            ..self
        }
    }
}

impl Copa {
    /// Creates a Copa instance.
    #[must_use]
    pub fn new(config: CopaConfig, now: Instant) -> (cc: Self)
        requires
            config.initial_rtt.nanos <= RTT_BOUND,
        ensures
            cc@ == CopaState::initial(config, now),
            cc@.wf(),
    {
        let cc: Copa = Copa {
            config,
            init_time: now,
            cwnd: config.initial_cwnd,
            slow_start: true,
            mode: CompetingMode::Default,
            delta: config.slow_start_delta,
            velocity: Velocity {
                direction: Direction::Up,
                velocity: 1,
                last_cwnd: 0,
                same_direction_cnt: 0,
            },
            standing_rtt: MinMax::new(Duration::from_millis(100)),
            min_rtt: MinMax::new(Duration::from_secs(10)),
            rtt: RttEstimator::new(config.initial_rtt),
            ack: AckState {
                now,
                newly_lost_bytes: 0,
                newly_acked_bytes: 0,
                largest_acked_seq: 0,
                min_rtt: Duration::zero(),
                last_srtt: Duration::zero(),
            },
            increase_cwnd: true,
            target_rate: 0,
            round: Round {
                count: 0,
                is_start: false,
                end_seq: 0,
                last_acked_bytes: 0,
                last_lost_bytes: 0,
                loss_rate: Binary64::from_bits(0),
            },
            last_sent_seq: 0,
            bytes_in_flight: 0,
            bytes_acked_total: 0,
            bytes_lost_total: 0,
            sent: BTreeMap::new(),
        };
        assert(cc@ =~= CopaState::initial(config, now));
        cc
    }

    /// Current target throughput from the Copa model (bytes/sec).
    #[must_use]
    pub fn target_rate(&self) -> (r: u64)
        ensures
            r == self@.target_rate,
    {
        self.target_rate
    }

    /// Whether Copa is still in slow start.
    #[must_use]
    pub fn in_slow_start(&self) -> (r: bool)
        ensures
            r == self@.slow_start,
    {
        self.slow_start
    }

    fn standing_rtt(&self) -> (d: Duration)
        ensures
            d == self@.standing_time(),
    {
        let rtt: Duration = Duration::from_micros(self.standing_rtt.get());
        if rtt.is_zero() {
            self.config.initial_rtt.longer(Duration::from_micros(1))
        } else {
            rtt
        }
    }

    fn begin_ack(&mut self, now: Instant)
        ensures
            final(self)@ == old(self)@.begun(now),
    {
        self.ack.now = now;
        self.ack.newly_lost_bytes = 0;
        self.ack.newly_acked_bytes = 0;
        self.ack.largest_acked_seq = 0;
        self.ack.min_rtt = Duration::zero();
        self.ack.last_srtt = Duration::zero();
    }

    fn on_ack_sample(&mut self, seq: u64, acked_bytes: u64, rtt_sample: Duration)
        ensures
            final(self)@ == (CopaState {
                ack: old(self)@.sampled_ack(seq, acked_bytes, rtt_sample),
                ..old(self)@
            }),
    {
        self.ack.newly_acked_bytes = self.ack.newly_acked_bytes.saturating_add(acked_bytes);
        if seq > self.ack.largest_acked_seq {
            self.ack.largest_acked_seq = seq;
        }
        self.ack.last_srtt = self.rtt.smoothed_rtt();
        if self.ack.min_rtt.is_zero() || self.ack.min_rtt.nanos >= rtt_sample.nanos {
            self.ack.min_rtt = rtt_sample;
        }
    }

    fn end_ack(&mut self)
        requires
            old(self)@.round_checked().modelled().step_ok(),
        ensures
            final(self)@ == old(self)@.round_checked().modelled().moved(),
    {
        self.update_round();
        self.update_model();
    }

    fn update_round(&mut self)
        ensures
            final(self)@ == old(self)@.round_checked(),
    {
        if self.ack.largest_acked_seq >= self.round.end_seq {
            let lost: u64 = self.bytes_lost_total.saturating_sub(self.round.last_lost_bytes);
            let acked: u64 = self.bytes_acked_total.saturating_sub(self.round.last_acked_bytes);
            let denom: u64 = lost.saturating_add(acked);
            self.round.loss_rate = if denom == 0 {
                Binary64::from_bits(0)
            } else {
                Binary64::from_u64(lost).over(Binary64::from_u64(denom))
            };
            self.round.last_acked_bytes = self.bytes_acked_total;
            self.round.last_lost_bytes = self.bytes_lost_total;
            self.round.count = self.round.count.saturating_add(1);
            self.round.end_seq = self.last_sent_seq;
            self.round.is_start = true;
        } else {
            self.round.is_start = false;
        }
    }

    fn update_mode(&mut self)
        ensures
            final(self)@ == old(self)@.mode_checked(),
    {
        self.mode = if Binary64::from_bits(LOSS_RATE_THRESHOLD_BITS).le(self.round.loss_rate) {
            CompetingMode::Competitive
        } else {
            CompetingMode::Default
        };
        self.delta = match self.mode {
            CompetingMode::Default => {
                if self.slow_start {
                    self.config.slow_start_delta
                } else {
                    self.config.steady_delta
                }
            },
            CompetingMode::Competitive => {
                self.delta.times(Binary64::from_u64(2)).min(Binary64::from_bits(HALF_BITS))
            },
        };
    }

    fn update_velocity(&mut self)
        ensures
            final(self)@ == old(self)@.sped(),
    {
        if self.slow_start && self.increase_cwnd {
            return;
        }
        if self.velocity.last_cwnd == 0 {
            self.velocity.last_cwnd = if self.cwnd >= self.config.min_cwnd {
                self.cwnd
            } else {
                self.config.min_cwnd
            };
            self.velocity.velocity = 1;
            self.velocity.same_direction_cnt = 0;
            return;
        }
        if !self.round.is_start {
            return;
        }
        let new_dir: Direction = if self.cwnd > self.velocity.last_cwnd {
            Direction::Up
        } else {
            Direction::Down
        };
        if new_dir != self.velocity.direction {
            self.velocity.velocity = 1;
            self.velocity.same_direction_cnt = 0;
        } else {
            self.velocity.same_direction_cnt = self.velocity.same_direction_cnt.saturating_add(1);
            if self.velocity.same_direction_cnt >= SPEED_UP_THRESHOLD {
                self.velocity.velocity = saturating_product(self.velocity.velocity, 2);
            }
        }
        let wanted: Direction = if self.increase_cwnd {
            Direction::Up
        } else {
            Direction::Down
        };
        if self.velocity.direction != wanted && self.velocity.velocity > 1 {
            self.velocity.velocity = 1;
        }
        self.velocity.direction = new_dir;
        self.velocity.last_cwnd = self.cwnd;
    }

    fn update_cwnd(&mut self)
        requires
            old(self)@.step_ok(),
        ensures
            final(self)@ == old(self)@.moved(),
    {
        if self.slow_start && !self.increase_cwnd {
            self.slow_start = false;
        }
        if self.slow_start {
            self.cwnd = self.cwnd.saturating_add(self.ack.newly_acked_bytes);
        } else {
            let moved_bytes: u64 = self.velocity.velocity * self.ack.newly_acked_bytes;
            let product: u64 = moved_bytes * self.config.packet_size;
            let cwnd_delta: u64 = Binary64::from_u64(product).over(
                self.delta.times(Binary64::from_u64(self.cwnd)),
            ).to_u64();
            self.cwnd = if self.increase_cwnd {
                self.cwnd.saturating_add(cwnd_delta)
            } else {
                self.cwnd.saturating_sub(cwnd_delta)
            };
            if self.cwnd == 0 {
                self.cwnd = self.config.min_cwnd;
                self.velocity.velocity = 1;
            }
        }
    }

    fn update_model(&mut self)
        requires
            old(self)@.modelled().step_ok(),
        ensures
            final(self)@ == old(self)@.modelled().moved(),
    {
        let ghost pre: CopaState = self@;
        let srtt: Duration = if self.config.use_standing_rtt {
            self.ack.last_srtt
        } else {
            self.ack.last_srtt.half()
        };
        self.standing_rtt.set_window(srtt.longer(Duration::from_micros(1)));
        if self.ack.min_rtt.is_zero() {
            self.ack.min_rtt = if self.ack.last_srtt.is_zero() {
                self.config.initial_rtt
            } else {
                self.ack.last_srtt
            };
        }
        let elapsed_us: u64 = self.ack.now.saturating_duration_since(
            self.init_time,
        ).micros_saturated();
        let min_sample: u64 = self.ack.min_rtt.micros_saturated();
        self.min_rtt.update_min(elapsed_us, min_sample);
        self.standing_rtt.update_min(elapsed_us, min_sample);
        assert(self@ =~= pre.timed());
        self.update_mode();
        let min_rtt: Duration = Duration::from_micros(self.min_rtt.get());
        let standing_rtt: Duration = self.standing_rtt();
        let standing_secs: Binary64 = standing_rtt.as_secs().max(
            Binary64::from_bits(MIN_SECS_BITS),
        );
        let current_rate: u64 = Binary64::from_u64(self.cwnd).over(standing_secs).to_u64();
        let queueing_delay: Duration = standing_rtt.saturating_sub(min_rtt);
        if queueing_delay.is_zero() {
            self.increase_cwnd = true;
            self.target_rate = current_rate;
        } else {
            self.target_rate = Binary64::from_u64(self.config.packet_size).over(self.delta).over(
                queueing_delay.longer(Duration::from_micros(1)).as_secs(),
            ).to_u64();
            self.increase_cwnd = self.target_rate >= current_rate;
        }
        assert(self@ =~= pre.timed().mode_checked().aimed());
        self.update_velocity();
        self.update_cwnd();
    }
}

impl CongestionController for Copa {
    open spec fn send_ok(&self, packet: SentPacket) -> bool {
        true
    }

    open spec fn acks_ok(&self, acks: Seq<AckInfo>) -> bool {
        &&& self@.wf()
        &&& acks.len() > 0 ==> self@.fed(acks).modelled().step_ok()
    }

    open spec fn loss_ok(&self, packet: LostPacket) -> bool {
        true
    }

    open spec fn after_send(&self, pre: &Self, packet: SentPacket) -> bool {
        self@ == pre@.sending(packet)
    }

    open spec fn after_acks(&self, pre: &Self, acks: Seq<AckInfo>) -> bool {
        &&& self@ == pre@.acknowledged(acks)
        &&& self@.wf()
    }

    open spec fn after_loss(&self, pre: &Self, packet: LostPacket) -> bool {
        self@ == pre@.lost(packet)
    }

    open spec fn send_rate(&self) -> u64 {
        saturated(PACING_GAIN as nat * window_rate(self@.window(), self@.standing_time()) as nat)
    }

    open spec fn throughput(&self) -> u64 {
        window_rate(self@.window(), self@.rtt.smoothed_rtt)
    }

    open spec fn window(&self) -> u64 {
        self@.window()
    }

    open spec fn round_trip(&self) -> Duration {
        self@.rtt.smoothed_rtt
    }

    open spec fn admits(&self, bytes_in_flight: u64) -> bool {
        bytes_in_flight < self@.window()
    }

    fn on_packet_sent(&mut self, packet: &SentPacket) {
        self.bytes_in_flight = self.bytes_in_flight.saturating_add(packet.len as u64);
        self.last_sent_seq = packet.seq;
        self.sent.insert(packet.seq, SentRecord { sent_at: packet.sent_at });
    }

    fn on_packets_acked(&mut self, acks: &[AckInfo]) {
        if acks.len() == 0 {
            return;
        }
        self.begin_ack(acks[0].acked_at);
        let ghost begun: CopaState = self@;
        let mut i: usize = 0;
        while i < acks.len()
            invariant
                i <= acks.len(),
                self@ == begun.took_all(acks@.take(i as int)),
                self@.wf(),
            decreases acks.len() - i,
        {
            let ack: AckInfo = acks[i];
            let ghost before: CopaState = self@;
            proof {
                assert(acks@.take(i + 1).drop_last() =~= acks@.take(i as int));
                assert(acks@.take(i + 1).last() == ack);
            }
            if let Some(record) = self.sent.remove(&ack.seq) {
                self.bytes_in_flight = self.bytes_in_flight.saturating_sub(ack.len as u64);
                self.bytes_acked_total = self.bytes_acked_total.saturating_add(ack.len as u64);
                let rtt_sample: Duration = ack.acked_at.saturating_duration_since(record.sent_at);
                self.rtt.on_sample(rtt_sample);
                self.on_ack_sample(ack.seq, ack.len as u64, rtt_sample);
                assert(self@ =~= before.took(ack));
            } else {
                assert(self@ =~= before);
            }
            i += 1;
        }
        assert(acks@.take(i as int) =~= acks@);
        self.end_ack();
    }

    fn on_packet_lost(&mut self, packet: &LostPacket) {
        let ghost pre: CopaState = self@;
        if self.sent.remove(&packet.seq).is_some() {
            self.bytes_in_flight = self.bytes_in_flight.saturating_sub(packet.len as u64);
        }
        self.bytes_lost_total = self.bytes_lost_total.saturating_add(packet.len as u64);
        self.ack.newly_lost_bytes = self.ack.newly_lost_bytes.saturating_add(packet.len as u64);
        assert(self@ =~= pre.lost(*packet));
    }

    fn pacing_rate(&self) -> (r: u64) {
        let standing: Duration = self.standing_rtt();
        let secs: Binary64 = standing.as_secs().max(Binary64::from_bits(MIN_SECS_BITS));
        saturating_product(PACING_GAIN, Binary64::from_u64(self.cwnd()).over(secs).to_u64())
    }

    fn cc_rate(&self) -> (r: u64) {
        // Throughput estimate without the burst gain of the pacer.
        let secs: Binary64 = self.rtt().as_secs().max(Binary64::from_bits(MIN_SECS_BITS));
        Binary64::from_u64(self.cwnd()).over(secs).to_u64()
    }

    fn cwnd(&self) -> (r: u64) {
        if self.cwnd >= self.config.min_cwnd {
            self.cwnd
        } else {
            self.config.min_cwnd
        }
    }

    fn rtt(&self) -> (r: Duration) {
        self.rtt.smoothed_rtt()
    }

    fn can_send(&self, bytes_in_flight: u64) -> (r: bool) {
        bytes_in_flight < self.cwnd()
    }
}

} // verus!
