//! Congestion control from the bytes acknowledged over a short history.
//!
//! The window follows what was acknowledged in the last two minimum round-trip times, plus a
//! small probe. Losses slow the sender down only when the round-trip time has grown too.

use std::collections::BTreeMap;

use vstd::prelude::*;

use crate::binary64::{
    larger, product, quotient, signed, sum, truncated, whole_number, Binary64,
};
use crate::bounded::minus_floored;
use crate::cc::CongestionController;
use crate::time::{elapsed, seconds, Duration, Instant, LATEST, MAX_NANOS, NANOS_PER_MICRO};
use crate::types::{AckInfo, LostPacket, SentPacket};

verus! {

/// Number of history intervals.
pub const ROCC_NUM_INTERVALS: usize = 16;

/// Encoding of 0.05.
pub const INITIAL_RTT_SECS_BITS: u64 = 0x3FA9_9999_9999_999A;

/// Encoding of 1e-6.
pub const MIN_RTT_SECS_BITS: u64 = 0x3EB0_C6F7_A0B5_ED8D;

/// Tunables.
#[derive(Debug, Clone, Copy)]
pub struct RoccConfig {
    /// Packet size in bytes.
    pub mss: u64,
    /// Initial window in packets.
    pub initial_cwnd_packets: u64,
    /// Minimum window in packets.
    pub min_cwnd_packets: u64,
    /// Probe beyond the acknowledged bytes, in packets (usually 2).
    pub alpha_packets: u64,
    /// Tolerated loss (fraction of 1024, e.g. 64 = ~6.25%).
    pub loss_thresh: u64,
}

impl Default for RoccConfig {
    fn default() -> (c: Self)
        ensures
            c == (RoccConfig {
                mss: 1400,
                initial_cwnd_packets: 10,
                min_cwnd_packets: 2,
                alpha_packets: 2,
                loss_thresh: 64,
            }),
    {
        RoccConfig {
            mss: 1400,
            initial_cwnd_packets: 10,
            min_cwnd_packets: 2,
            alpha_packets: 2,
            loss_thresh: 64,
        }
    }
}

/// One interval of the history.
#[derive(Debug, Clone, Copy)]
pub struct RoccInterval {
    /// Start of the interval, once it was used.
    pub start_time: Option<Instant>,
    /// Bytes acknowledged in it.
    pub bytes_acked: u64,
    /// Bytes lost in it.
    pub bytes_lost: u64,
    /// Whether the window was not full at some sample in it.
    pub app_limited: bool,
}

/// History-based congestion controller.
pub struct Rocc {
    /// Tunables.
    pub config: RoccConfig,
    /// History ring; the newest interval is at the head, older ones follow.
    pub intervals: Vec<RoccInterval>,
    /// Position of the newest interval.
    pub intervals_head: usize,
    /// Least round-trip time seen, or the longest span before any.
    pub min_rtt: Duration,
    /// Latest round-trip time.
    pub current_rtt: Duration,
    /// Window in bytes.
    pub cwnd_bytes: u64,
    /// Sending rate in bytes per second.
    pub pacing_rate_bps: u64,
    /// Send times of the packets in flight, by sequence number.
    pub sent_packets: BTreeMap<u64, Instant>,
    /// Bytes in flight.
    pub bytes_in_flight: u64,
}

/// What a [`Rocc`] holds.
#[verifier::ext_equal]
pub struct RoccState {
    /// Tunables.
    pub config: RoccConfig,
    /// History ring.
    pub intervals: Seq<RoccInterval>,
    /// Position of the newest interval.
    pub head: nat,
    /// Least round-trip time.
    pub min_rtt: Duration,
    /// Latest round-trip time.
    pub current_rtt: Duration,
    /// Window in bytes.
    pub cwnd: u64,
    /// Sending rate.
    pub rate: u64,
    /// Send times of the packets in flight.
    pub sent: Map<u64, Instant>,
    /// Bytes in flight.
    pub in_flight: u64,
}

impl View for Rocc {
    type V = RoccState;

    open spec fn view(&self) -> RoccState {
        RoccState {
            config: self.config,
            intervals: self.intervals@,
            head: self.intervals_head as nat,
            min_rtt: self.min_rtt,
            current_rtt: self.current_rtt,
            cwnd: self.cwnd_bytes,
            rate: self.pacing_rate_bps,
            sent: self.sent_packets@,
            in_flight: self.bytes_in_flight,
        }
    }
}

/// What the recent history adds up to.
pub struct Tally {
    /// Bytes acknowledged.
    pub acked: nat,
    /// Bytes lost.
    pub lost: nat,
    /// Whether any interval was application-limited.
    pub limited: bool,
}

/// Whole microseconds of a round-trip time, at least one, reduced to 64 bits.
pub open spec fn rtt_micros(d: Duration) -> u64 {
    let us: u128 = (d.nanos / NANOS_PER_MICRO) as u128;
    if us == 0 {
        1
    } else {
        (us % 0x1_0000_0000_0000_0000) as u64
    }
}

/// The interval at distance `i` from the newest one.
pub open spec fn interval_at(intervals: Seq<RoccInterval>, head: nat, i: nat) -> RoccInterval {
    intervals[((head + i) % ROCC_NUM_INTERVALS as nat) as int]
}

/// The history from distance `i` on, back to the first interval that started more than
/// `span` nanoseconds before `now`, which still counts.
pub open spec fn tally(
    intervals: Seq<RoccInterval>,
    head: nat,
    i: nat,
    span: nat,
    now: Instant,
) -> Tally
    decreases ROCC_NUM_INTERVALS - i,
{
    if i >= ROCC_NUM_INTERVALS {
        Tally { acked: 0, lost: 0, limited: false }
    } else {
        let it = interval_at(intervals, head, i);
        match it.start_time {
            None => Tally { acked: 0, lost: 0, limited: false },
            Some(start) => {
                let older = if start@ + span < now@ {
                    Tally { acked: 0, lost: 0, limited: false }
                } else {
                    tally(intervals, head, i + 1, span, now)
                };
                Tally {
                    acked: it.bytes_acked as nat + older.acked,
                    lost: it.bytes_lost as nat + older.lost,
                    limited: it.app_limited || older.limited,
                }
            },
        }
    }
}

/// Whether the clock reaches the end of the span from every start that the tally from
/// distance `i` on looks at.
pub open spec fn within_clock(
    intervals: Seq<RoccInterval>,
    head: nat,
    i: nat,
    span: nat,
    now: Instant,
) -> bool
    decreases ROCC_NUM_INTERVALS - i,
{
    i < ROCC_NUM_INTERVALS ==> match interval_at(intervals, head, i).start_time {
        None => true,
        Some(start) => {
            &&& start@ + span <= LATEST
            &&& start@ + span >= now@ ==> within_clock(intervals, head, i + 1, span, now)
        },
    }
}

impl RoccState {
    /// The history ring has its fixed size and the head is in it.
    pub open spec fn wf(self) -> bool {
        self.intervals.len() == ROCC_NUM_INTERVALS && self.head < ROCC_NUM_INTERVALS
    }

    /// Minimum round-trip time in microseconds; 50 ms before any was seen.
    pub open spec fn min_us(self) -> u64 {
        if self.min_rtt.nanos == MAX_NANOS {
            50_000
        } else {
            rtt_micros(self.min_rtt)
        }
    }

    /// Length of the history, in nanoseconds: two minimum round-trip times.
    pub open spec fn span(self) -> nat {
        (self.min_us() * 2 * NANOS_PER_MICRO) as nat
    }

    /// Length of one interval, in nanoseconds.
    pub open spec fn interval_span(self) -> nat {
        ((2 * (self.min_us() * 2) / 16 + 1) * NANOS_PER_MICRO) as nat
    }

    /// Whether a sample at `now` starts a new interval.
    pub open spec fn interval_over(self, now: Instant) -> bool {
        match self.intervals[self.head as int].start_time {
            None => true,
            Some(start) => start@ + self.interval_span() < now@,
        }
    }

    /// Whether the window is not full.
    pub open spec fn limited(self) -> bool {
        self.in_flight < self.cwnd
    }

    /// The state with a sample entered in the history.
    pub open spec fn recorded(self, acked: u64, lost: u64, now: Instant) -> RoccState {
        if self.interval_over(now) {
            let head: nat = (self.head + 15) as nat % 16;
            RoccState {
                head,
                intervals: self.intervals.update(
                    head as int,
                    RoccInterval {
                        start_time: Some(now),
                        bytes_acked: acked,
                        bytes_lost: lost,
                        app_limited: self.limited(),
                    },
                ),
                ..self
            }
        } else {
            let newest = self.intervals[self.head as int];
            RoccState {
                intervals: self.intervals.update(
                    self.head as int,
                    RoccInterval {
                        bytes_acked: (newest.bytes_acked + acked) as u64,
                        bytes_lost: (newest.bytes_lost + lost) as u64,
                        app_limited: newest.app_limited || self.limited(),
                        ..newest
                    },
                ),
                ..self
            }
        }
    }

    /// What the history adds up to at `now`.
    pub open spec fn total(self, now: Instant) -> Tally {
        tally(self.intervals, self.head, 0, self.span(), now)
    }

    /// Whether losses exceed the threshold while the round-trip time has grown by half.
    pub open spec fn congested(self, t: Tally) -> bool {
        &&& t.acked + t.lost > 0
        &&& t.lost * 1024 > (t.acked + t.lost) * self.config.loss_thresh
        &&& self.min_rtt.nanos != MAX_NANOS
        &&& rtt_micros(self.current_rtt) > self.min_us() * 3 / 2
    }

    /// The window for a history: what was acknowledged plus the probe, not less than before
    /// while application-limited without congestion, and not below the minimum.
    pub open spec fn next_cwnd(self, t: Tally) -> nat {
        let probe: nat = t.acked + (self.config.alpha_packets * self.config.mss) as nat;
        let target: nat = if t.limited && !self.congested(t) && probe < self.cwnd {
            self.cwnd as nat
        } else {
            probe
        };
        let least: nat = (self.config.min_cwnd_packets * self.config.mss) as nat;
        if target >= least {
            target
        } else {
            least
        }
    }

    /// The sending rate for a history and window.
    pub open spec fn next_rate(self, t: Tally, cwnd: nat) -> u64 {
        let million = whole_number(1_000_000);
        if self.congested(t) {
            truncated(
                product(
                    whole_number(cwnd),
                    quotient(
                        sum(
                            whole_number(1024),
                            product(
                                whole_number(2),
                                whole_number(self.config.loss_thresh as nat),
                            ),
                        ),
                        product(
                            product(
                                quotient(
                                    whole_number(rtt_micros(self.current_rtt) as nat),
                                    million,
                                ),
                                whole_number(2),
                            ),
                            whole_number(1024),
                        ),
                    ),
                ),
            )
        } else {
            truncated(
                quotient(
                    whole_number(cwnd),
                    quotient(whole_number(self.min_us() as nat), million),
                ),
            )
        }
    }

    /// The state after a sample.
    pub open spec fn sampled(self, acked: u64, lost: u64, now: Instant) -> RoccState {
        let entered = self.recorded(acked, lost, now);
        let t = entered.total(now);
        let cwnd = entered.next_cwnd(t);
        RoccState { cwnd: cwnd as u64, rate: entered.next_rate(t, cwnd), ..entered }
    }

    /// Whether a sample stays within machine integers and the clock.
    pub open spec fn sample_ok(self, acked: u64, lost: u64, now: Instant) -> bool {
        let entered = self.recorded(acked, lost, now);
        let newest = self.intervals[self.head as int];
        let t = entered.total(now);
        &&& self.min_us() * 4 <= u64::MAX
        &&& newest.start_time matches Some(start) ==> start@ + self.interval_span() <= LATEST
        &&& !self.interval_over(now) ==> newest.bytes_acked + acked <= u64::MAX
            && newest.bytes_lost + lost <= u64::MAX
        &&& within_clock(entered.intervals, entered.head, 0, self.span(), now)
        &&& t.acked + t.lost <= u64::MAX
        &&& t.lost * 1024 <= u64::MAX
        &&& (t.acked + t.lost) * self.config.loss_thresh <= u64::MAX
        &&& t.acked + self.config.alpha_packets * self.config.mss <= u64::MAX
        &&& self.config.min_cwnd_packets * self.config.mss <= u64::MAX
    }
}

/// Acknowledgements taken in one by one, before the sample they make together.
pub struct AckProgress {
    /// State so far.
    pub state: RoccState,
    /// Bytes acknowledged so far.
    pub total: nat,
    /// Latest acknowledgement time so far.
    pub last: Instant,
}

/// The state after one known packet was acknowledged with this round-trip time.
pub open spec fn rtt_taken(s: RoccState, rtt: Duration) -> RoccState {
    if rtt.nanos > 0 {
        RoccState {
            current_rtt: rtt,
            min_rtt: if s.min_rtt.nanos == MAX_NANOS || rtt.nanos < s.min_rtt.nanos {
                rtt
            } else {
                s.min_rtt
            },
            ..s
        }
    } else {
        s
    }
}

/// What the acknowledgements add up to; those of unknown packets do not count.
pub open spec fn taken(s: RoccState, acks: Seq<AckInfo>, first: Instant) -> AckProgress
    decreases acks.len(),
{
    if acks.len() == 0 {
        AckProgress { state: s, total: 0, last: first }
    } else {
        let before = taken(s, acks.drop_last(), first);
        let ack = acks.last();
        if before.state.sent.contains_key(ack.seq) {
            let rtt = Duration {
                nanos: elapsed(ack.acked_at, before.state.sent[ack.seq]) as u128,
            };
            let timed = rtt_taken(before.state, rtt);
            AckProgress {
                state: RoccState {
                    sent: timed.sent.remove(ack.seq),
                    in_flight: minus_floored(timed.in_flight, ack.len as nat),
                    ..timed
                },
                total: before.total + ack.len as nat,
                last: if before.last@ > ack.acked_at@ {
                    before.last
                } else {
                    ack.acked_at
                },
            }
        } else {
            before
        }
    }
}

impl RoccState {
    /// The state after one feedback event.
    pub open spec fn acknowledged(self, acks: Seq<AckInfo>) -> RoccState {
        if acks.len() == 0 {
            self
        } else {
            let p = taken(self, acks, acks[0].acked_at);
            if p.total > 0 {
                p.state.sampled(p.total as u64, 0, p.last)
            } else {
                p.state
            }
        }
    }

    /// The state after a loss; one of an unknown packet does not count.
    pub open spec fn lost(self, packet: LostPacket) -> RoccState {
        if self.sent.contains_key(packet.seq) {
            self.without(packet).sampled(0, packet.len as u64, packet.lost_at)
        } else {
            self
        }
    }

    /// The state with a lost packet taken out of flight.
    pub open spec fn without(self, packet: LostPacket) -> RoccState {
        RoccState {
            sent: self.sent.remove(packet.seq),
            in_flight: minus_floored(self.in_flight, packet.len as nat),
            ..self
        }
    }
}

fn rtt_in_micros(d: Duration) -> (us: u64)
    ensures
        us == rtt_micros(d),
{
    let us: u128 = d.nanos / NANOS_PER_MICRO;
    if us == 0 {
        1
    } else {
        (us % 0x1_0000_0000_0000_0000) as u64
    }
}

impl Rocc {
    /// Creates a controller that starts with the configured window.
    pub fn new(config: RoccConfig) -> (cc: Self)
        requires
            config.initial_cwnd_packets * config.mss <= u64::MAX,
        ensures
            cc@.wf(),
            cc@.config == config,
            forall|i: int|
                0 <= i < ROCC_NUM_INTERVALS ==> (#[trigger] cc@.intervals[i]) == (RoccInterval {
                    start_time: None,
                    bytes_acked: 0,
                    bytes_lost: 0,
                    app_limited: false,
                }),
            cc@.head == 0,
            cc@.min_rtt.nanos == MAX_NANOS,
            cc@.current_rtt.nanos == 50_000_000,
            cc@.cwnd == config.initial_cwnd_packets * config.mss,
            cc@.rate == truncated(
                quotient(
                    whole_number((config.initial_cwnd_packets * config.mss) as nat),
                    signed(false, INITIAL_RTT_SECS_BITS as nat),
                ),
            ),
            cc@.sent == Map::<u64, Instant>::empty(),
            cc@.in_flight == 0,
    {
        let fresh: RoccInterval = RoccInterval {
            start_time: None,
            bytes_acked: 0,
            bytes_lost: 0,
            app_limited: false,
        };
        let mut intervals: Vec<RoccInterval> = Vec::new();
        while intervals.len() < ROCC_NUM_INTERVALS
            invariant
                intervals.len() <= ROCC_NUM_INTERVALS,
                forall|i: int| 0 <= i < intervals.len() ==> (#[trigger] intervals@[i]) == fresh,
            decreases ROCC_NUM_INTERVALS - intervals.len(),
        {
            intervals.push(fresh);
        }
        let initial_cwnd_bytes: u64 = config.initial_cwnd_packets * config.mss;
        let rate: Binary64 = Binary64::from_u64(initial_cwnd_bytes).over(
            Binary64::from_bits(INITIAL_RTT_SECS_BITS),
        );
        Rocc {
            config,
            intervals,
            intervals_head: 0,
            min_rtt: Duration::max_value(),
            current_rtt: Duration::from_millis(50),
            cwnd_bytes: initial_cwnd_bytes,
            pacing_rate_bps: rate.to_u64(),
            sent_packets: BTreeMap::new(),
            bytes_in_flight: 0,
        }
    }

    fn process_sample(&mut self, acked_bytes: u64, lost_bytes: u64, now: Instant)
        requires
            old(self)@.wf(),
            old(self)@.sample_ok(acked_bytes, lost_bytes, now),
        ensures
            final(self)@ == old(self)@.sampled(acked_bytes, lost_bytes, now),
            final(self)@.wf(),
    {
        let ghost pre: RoccState = self@;
        let ghost entered: RoccState = pre.recorded(acked_bytes, lost_bytes, now);
        let ghost t: Tally = entered.total(now);
        let is_app_limited: bool = self.bytes_in_flight < self.cwnd_bytes;
        let min_rtt_us: u64 = if self.min_rtt.nanos == MAX_NANOS {
            50_000
        } else {
            rtt_in_micros(self.min_rtt)
        };
        let rtt_us: u64 = rtt_in_micros(self.current_rtt);
        let hist_us: u64 = min_rtt_us * 2;
        let interval_length_us: u64 = (2 * hist_us / 16) + 1;
        let interval_duration: Duration = Duration::from_micros(interval_length_us);

        let newest: RoccInterval = self.intervals[self.intervals_head];
        let over: bool = match newest.start_time {
            None => true,
            Some(start) => start.after(interval_duration).is_before(now),
        };
        if over {
            self.intervals_head = (self.intervals_head + 15) % 16;
            self.intervals[self.intervals_head] = RoccInterval {
                start_time: Some(now),
                bytes_acked: acked_bytes,
                bytes_lost: lost_bytes,
                app_limited: is_app_limited,
            };
        } else {
            self.intervals[self.intervals_head] = RoccInterval {
                start_time: newest.start_time,
                bytes_acked: newest.bytes_acked + acked_bytes,
                bytes_lost: newest.bytes_lost + lost_bytes,
                app_limited: newest.app_limited || is_app_limited,
            };
        }
        assert(self@ =~= entered);

        let mut total_bytes_acked: u64 = 0;
        let mut total_bytes_lost: u64 = 0;
        let mut app_limited: bool = false;
        let hist_duration: Duration = Duration::from_micros(hist_us);
        let mut i: usize = 0;
        let mut more: bool = true;
        while i < ROCC_NUM_INTERVALS && more
            invariant
                i <= ROCC_NUM_INTERVALS,
                self@ == entered,
                entered.wf(),
                hist_duration.nanos == entered.span(),
                t == entered.total(now),
                t.acked + t.lost <= u64::MAX,
                more ==> within_clock(
                    entered.intervals,
                    entered.head,
                    i as nat,
                    entered.span(),
                    now,
                ),
                ({
                    let rest = if more {
                        tally(entered.intervals, entered.head, i as nat, entered.span(), now)
                    } else {
                        Tally { acked: 0, lost: 0, limited: false }
                    };
                    &&& total_bytes_acked + rest.acked == t.acked
                    &&& total_bytes_lost + rest.lost == t.lost
                    &&& (app_limited || rest.limited) == t.limited
                }),
            decreases ROCC_NUM_INTERVALS - i, more as int,
        {
            let id: usize = (self.intervals_head + i) % 16;
            let interval: RoccInterval = self.intervals[id];
            assert(interval == interval_at(entered.intervals, entered.head, i as nat));
            assert(entered.intervals[id as int] == interval);
            match interval.start_time {
                Some(start) => {
                    total_bytes_acked = total_bytes_acked + interval.bytes_acked;
                    total_bytes_lost = total_bytes_lost + interval.bytes_lost;
                    app_limited = app_limited || interval.app_limited;
                    if start.after(hist_duration).is_before(now) {
                        more = false;
                    }
                },
                None => {
                    more = false;
                },
            }
            i += 1;
        }

        let total_bytes: u64 = total_bytes_acked + total_bytes_lost;
        let raw_loss_mode: bool = total_bytes > 0 && total_bytes_lost * 1024 > total_bytes
            * self.config.loss_thresh;
        // Random loss with a stable round-trip time must not reduce the rate.
        let rtt_increased: bool = self.min_rtt.nanos != MAX_NANOS && rtt_us > min_rtt_us * 3 / 2;
        let loss_mode: bool = raw_loss_mode && rtt_increased;

        let mut target_cwnd: u64 = total_bytes_acked + self.config.alpha_packets * self.config.mss;
        if app_limited && !loss_mode && target_cwnd < self.cwnd_bytes {
            target_cwnd = self.cwnd_bytes;
        }
        let min_cwnd_bytes: u64 = self.config.min_cwnd_packets * self.config.mss;
        self.cwnd_bytes = if target_cwnd >= min_cwnd_bytes {
            target_cwnd
        } else {
            min_cwnd_bytes
        };

        let million: Binary64 = Binary64::from_u64(1_000_000);
        let cwnd: Binary64 = Binary64::from_u64(self.cwnd_bytes);
        if loss_mode {
            let two: Binary64 = Binary64::from_u64(2);
            let per_mille: Binary64 = Binary64::from_u64(1024);
            let current_rtt_secs: Binary64 = Binary64::from_u64(rtt_us).over(million);
            let factor: Binary64 = per_mille.plus(
                two.times(Binary64::from_u64(self.config.loss_thresh)),
            ).over(current_rtt_secs.times(two).times(per_mille));
            self.pacing_rate_bps = cwnd.times(factor).to_u64();
        } else {
            let min_rtt_secs: Binary64 = Binary64::from_u64(min_rtt_us).over(million);
            self.pacing_rate_bps = cwnd.over(min_rtt_secs).to_u64();
        }
    }
}

impl CongestionController for Rocc {
    open spec fn send_ok(&self, packet: SentPacket) -> bool {
        self.bytes_in_flight + packet.len <= u64::MAX
    }

    open spec fn acks_ok(&self, acks: Seq<AckInfo>) -> bool {
        let p = taken(self@, acks, acks[0].acked_at);
        &&& self@.wf()
        &&& acks.len() > 0 ==> p.total <= u64::MAX
        &&& acks.len() > 0 && p.total > 0 ==> p.state.sample_ok(p.total as u64, 0, p.last)
    }

    open spec fn loss_ok(&self, packet: LostPacket) -> bool {
        &&& self@.wf()
        &&& self@.sent.contains_key(packet.seq) ==> self@.without(packet).sample_ok(
            0,
            packet.len as u64,
            packet.lost_at,
        )
    }

    open spec fn after_send(&self, pre: &Self, packet: SentPacket) -> bool {
        self@ == (RoccState {
            sent: pre@.sent.insert(packet.seq, packet.sent_at),
            in_flight: (pre@.in_flight + packet.len) as u64,
            ..pre@
        })
    }

    open spec fn after_acks(&self, pre: &Self, acks: Seq<AckInfo>) -> bool {
        &&& self@ == pre@.acknowledged(acks)
        &&& self@.wf()
    }

    open spec fn after_loss(&self, pre: &Self, packet: LostPacket) -> bool {
        &&& self@ == pre@.lost(packet)
        &&& self@.wf()
    }

    open spec fn send_rate(&self) -> u64 {
        self.pacing_rate_bps
    }

    open spec fn throughput(&self) -> u64 {
        truncated(
            quotient(
                whole_number(self.cwnd_bytes as nat),
                larger(seconds(self.current_rtt), signed(false, MIN_RTT_SECS_BITS as nat)),
            ),
        )
    }

    open spec fn window(&self) -> u64 {
        self.cwnd_bytes
    }

    open spec fn round_trip(&self) -> Duration {
        self.current_rtt
    }

    open spec fn admits(&self, bytes_in_flight: u64) -> bool {
        bytes_in_flight < self.cwnd_bytes
    }

    fn on_packet_sent(&mut self, packet: &SentPacket) {
        self.sent_packets.insert(packet.seq, packet.sent_at);
        self.bytes_in_flight = self.bytes_in_flight + packet.len as u64;
    }

    fn on_packets_acked(&mut self, acks: &[AckInfo]) {
        if acks.len() == 0 {
            return;
        }
        let ghost pre: RoccState = self@;
        let first: Instant = acks[0].acked_at;
        let ghost all: AckProgress = taken(pre, acks@, first);
        let mut total_acked_bytes: u64 = 0;
        let mut last_acked_at: Instant = first;
        let mut i: usize = 0;
        while i < acks.len()
            invariant
                i <= acks.len(),
                pre.wf(),
                all == taken(pre, acks@, first),
                all.total <= u64::MAX,
                ({
                    let p = taken(pre, acks@.take(i as int), first);
                    &&& self@ == p.state
                    &&& self@.wf()
                    &&& total_acked_bytes == p.total
                    &&& last_acked_at == p.last
                }),
            decreases acks.len() - i,
        {
            let ack: AckInfo = acks[i];
            let ghost before: RoccState = self@;
            proof {
                assert(acks@.take(i + 1).drop_last() =~= acks@.take(i as int));
                assert(acks@.take(i + 1).last() == ack);
                lemma_taken_prefix(pre, acks@, first, i + 1);
            }
            if let Some(sent_at) = self.sent_packets.remove(&ack.seq) {
                let rtt: Duration = ack.acked_at.saturating_duration_since(sent_at);
                if rtt.nanos > 0 {
                    self.current_rtt = rtt;
                    if self.min_rtt.nanos == MAX_NANOS || rtt.nanos < self.min_rtt.nanos {
                        self.min_rtt = rtt;
                    }
                }
                self.bytes_in_flight = self.bytes_in_flight.saturating_sub(ack.len as u64);
                total_acked_bytes = total_acked_bytes + ack.len as u64;
                last_acked_at = last_acked_at.later(ack.acked_at);
            } else {
                assert(self@ =~= before);
            }
            i += 1;
        }
        assert(acks@.take(i as int) =~= acks@);
        if total_acked_bytes > 0 {
            self.process_sample(total_acked_bytes, 0, last_acked_at);
        }
    }

    fn on_packet_lost(&mut self, packet: &LostPacket) {
        let ghost pre: RoccState = self@;
        if self.sent_packets.remove(&packet.seq).is_some() {
            self.bytes_in_flight = self.bytes_in_flight.saturating_sub(packet.len as u64);
            assert(self@ =~= pre.without(*packet));
            self.process_sample(0, packet.len as u64, packet.lost_at);
        } else {
            assert(self@ =~= pre);
        }
    }

    fn pacing_rate(&self) -> (r: u64) {
        self.pacing_rate_bps
    }

    fn cc_rate(&self) -> (r: u64) {
        // The current round-trip time, not the minimum: under a standing queue the minimum
        // would overestimate the throughput and drive the encoder into the congestion.
        let rtt_secs: Binary64 = self.current_rtt.as_secs().max(
            Binary64::from_bits(MIN_RTT_SECS_BITS),
        );
        Binary64::from_u64(self.cwnd_bytes).over(rtt_secs).to_u64()
    }

    fn cwnd(&self) -> (r: u64) {
        self.cwnd_bytes
    }

    fn rtt(&self) -> (r: Duration) {
        self.current_rtt
    }

    fn can_send(&self, bytes_in_flight: u64) -> (r: bool) {
        bytes_in_flight < self.cwnd_bytes
    }
}

/// The first acknowledgements cover no more bytes than all of them.
proof fn lemma_taken_prefix(s: RoccState, acks: Seq<AckInfo>, first: Instant, i: int)
    requires
        0 <= i <= acks.len(),
    ensures
        taken(s, acks.take(i), first).total <= taken(s, acks, first).total,
    decreases acks.len(),
{
    if i < acks.len() {
        lemma_taken_prefix(s, acks.drop_last(), first, i);
        assert(acks.drop_last().take(i) =~= acks.take(i));
    } else {
        assert(acks.take(i) =~= acks);
    }
}

} // verus!
