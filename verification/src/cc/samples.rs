//! Laws of one event for the history-based controller, over what it holds before and after.

use vstd::prelude::*;

use super::events::{credited, lemma_covers_last};
use super::laws::{covers, law_rocc_window_after_a_sample};
use super::rocc::{rtt_micros, taken, tally, Rocc, RoccInterval, RoccState};
use super::CongestionController;
use crate::binary64::{
    larger, product, quotient, sum, truncated, whole_number, Binary64,
};
use crate::time::{elapsed, seconds, Duration, Instant, MAX_NANOS};
use crate::types::{AckInfo, LostPacket, SentPacket};

verus! {

/// What the controller reports: its window, its rate, the latest round-trip time, and as CC-Rate
/// the window over that round-trip time. It admits a packet while less than the window is in
/// flight.
pub proof fn law_rocc_reports(cc: Rocc, bytes_in_flight: u64)
    ensures
        cc.window() == cc.cwnd_bytes,
        cc.send_rate() == cc.pacing_rate_bps,
        cc.round_trip() == cc.current_rtt,
        cc.throughput() == truncated(
            quotient(
                whole_number(cc.window() as nat),
                larger(seconds(cc.round_trip()), Binary64 { bits: 0x3EB0_C6F7_A0B5_ED8D }),
            ),
        ),
        cc.admits(bytes_in_flight) <==> bytes_in_flight < cc.window(),
{
}

/// A send puts the packet in flight with its time and bytes; nothing else changes.
pub proof fn law_rocc_send(pre: Rocc, post: Rocc, packet: SentPacket)
    requires
        pre.send_ok(packet),
        post.after_send(&pre, packet),
    ensures
        post.bytes_in_flight == pre.bytes_in_flight + packet.len,
        post.sent_packets@ == pre.sent_packets@.insert(packet.seq, packet.sent_at),
        post.cwnd_bytes == pre.cwnd_bytes,
        post.pacing_rate_bps == pre.pacing_rate_bps,
        post.min_rtt == pre.min_rtt,
        post.current_rtt == pre.current_rtt,
        post.config == pre.config,
        post.intervals@ == pre.intervals@,
        post.intervals_head == pre.intervals_head,
{
}

/// One acknowledgement of a packet in flight takes it out of flight and measures the time since
/// its send: that is the latest round-trip time, and the least one where it is less. The bytes
/// then enter the history. One of another packet changes nothing.
pub proof fn law_rocc_ack(pre: Rocc, post: Rocc, ack: AckInfo)
    requires
        post.after_acks(&pre, seq![ack]),
    ensures
        !pre.sent_packets@.contains_key(ack.seq) ==> post@ == pre@,
        pre.sent_packets@.contains_key(ack.seq) ==> {
            let rtt = elapsed(ack.acked_at, pre.sent_packets@[ack.seq]) as u128;
            &&& post.sent_packets@ == pre.sent_packets@.remove(ack.seq)
            &&& pre.bytes_in_flight >= ack.len ==> post.bytes_in_flight == pre.bytes_in_flight
                - ack.len
            &&& pre.bytes_in_flight < ack.len ==> post.bytes_in_flight == 0
            &&& rtt == 0 ==> post.current_rtt == pre.current_rtt && post.min_rtt == pre.min_rtt
            &&& rtt > 0 ==> {
                &&& post.current_rtt.nanos == rtt
                &&& pre.min_rtt.nanos == MAX_NANOS || rtt < pre.min_rtt.nanos
                    ==> post.min_rtt.nanos == rtt
                &&& pre.min_rtt.nanos != MAX_NANOS && rtt >= pre.min_rtt.nanos ==> post.min_rtt
                    == pre.min_rtt
            }
            &&& ack.len == 0 ==> post.cwnd_bytes == pre.cwnd_bytes && post.pacing_rate_bps
                == pre.pacing_rate_bps
            &&& ack.len > 0 ==> exists|entered: RoccState|
                {
                    &&& #[trigger] entered.sampled(ack.len as u64, 0, ack.acked_at) == post@
                    &&& entered.min_rtt == post.min_rtt
                    &&& entered.current_rtt == post.current_rtt
                    &&& entered.in_flight == post.bytes_in_flight
                    &&& entered.cwnd == pre.cwnd_bytes
                    &&& entered.intervals == pre.intervals@
                    &&& entered.head == pre.intervals_head
                    &&& entered.config == pre.config
                }
        },
{
    assert(seq![ack].drop_last() =~= Seq::<AckInfo>::empty());
    assert(seq![ack].last() == ack);
    reveal_with_fuel(taken, 2);
    let p = taken(pre@, seq![ack], ack.acked_at);
    assert(p.last == ack.acked_at || !pre.sent_packets@.contains_key(ack.seq)) by {
        if p.last@ == ack.acked_at@ {
            Instant::law_equal_readings(p.last, ack.acked_at);
        }
    }
    if pre.sent_packets@.contains_key(ack.seq) && ack.len > 0 {
        assert(p.state.sampled(ack.len as u64, 0, ack.acked_at) == post@);
    }
}

/// A loss of a packet in flight takes it out of flight and enters its bytes in the history as
/// lost; one of another packet changes nothing.
pub proof fn law_rocc_loss(pre: Rocc, post: Rocc, packet: LostPacket)
    requires
        post.after_loss(&pre, packet),
    ensures
        !pre.sent_packets@.contains_key(packet.seq) ==> post@ == pre@,
        pre.sent_packets@.contains_key(packet.seq) ==> {
            &&& post.sent_packets@ == pre.sent_packets@.remove(packet.seq)
            &&& pre.bytes_in_flight >= packet.len ==> post.bytes_in_flight
                == pre.bytes_in_flight - packet.len
            &&& pre.bytes_in_flight < packet.len ==> post.bytes_in_flight == 0
            &&& post.current_rtt == pre.current_rtt
            &&& post.min_rtt == pre.min_rtt
            &&& exists|entered: RoccState|
                {
                    &&& #[trigger] entered.sampled(0, packet.len as u64, packet.lost_at) == post@
                    &&& entered.in_flight == post.bytes_in_flight
                    &&& entered.cwnd == pre.cwnd_bytes
                    &&& entered.intervals == pre.intervals@
                    &&& entered.head == pre.intervals_head
                    &&& entered.min_rtt == pre.min_rtt
                    &&& entered.current_rtt == pre.current_rtt
                    &&& entered.config == pre.config
                }
        },
{
    if pre.sent_packets@.contains_key(packet.seq) {
        assert(pre@.without(packet).sampled(0, packet.len as u64, packet.lost_at) == post@);
    }
}

/// A batch takes out of flight the packets it covers, and its time is that of its latest
/// acknowledgement of a packet in flight.
pub proof fn law_rocc_batch(s: RoccState, acks: Seq<AckInfo>, first: Instant)
    ensures
        ({
            let p = taken(s, acks, first);
            &&& forall|seq: u64|
                (#[trigger] p.state.sent.contains_key(seq)) <==> s.sent.contains_key(seq)
                    && !covers(acks, seq)
            &&& p.total == credited(s.sent.dom(), acks)
            &&& p.state.in_flight == (if s.in_flight >= p.total {
                s.in_flight - p.total
            } else {
                0
            })
            &&& p.last@ >= first@
            &&& p.state.intervals == s.intervals
            &&& p.state.head == s.head
            &&& p.state.cwnd == s.cwnd
            &&& p.state.rate == s.rate
            &&& p.state.config == s.config
            &&& s.min_rtt.nanos < MAX_NANOS ==> p.state.min_rtt.nanos <= s.min_rtt.nanos
        }),
    decreases acks.len(),
{
    if acks.len() > 0 {
        let before = acks.drop_last();
        let ack = acks.last();
        law_rocc_batch(s, before, first);
        lemma_covers_last(acks);
        assert(s.sent.dom().contains(ack.seq) == s.sent.contains_key(ack.seq));
        let b = taken(s, before, first);
        assert(b.state.sent.contains_key(ack.seq) <==> s.sent.contains_key(ack.seq)
            && !covers(before, ack.seq));
    }
}

/// One more acknowledgement at the end of a batch: of a packet still in flight it measures the
/// time since the send, takes the packet and its bytes out of flight, and moves the time of the
/// batch on where it is later; of another packet it changes nothing.
pub proof fn law_rocc_batch_grows(s: RoccState, acks: Seq<AckInfo>, ack: AckInfo, first: Instant)
    ensures
        taken(s, Seq::empty(), first).state == s,
        taken(s, Seq::empty(), first).total == 0,
        taken(s, Seq::empty(), first).last == first,
        ({
            let b = taken(s, acks, first);
            let p = taken(s, acks.push(ack), first);
            let rtt = elapsed(ack.acked_at, b.state.sent[ack.seq]) as u128;
            &&& !b.state.sent.contains_key(ack.seq) ==> p == b
            &&& b.state.sent.contains_key(ack.seq) ==> {
                &&& p.total == b.total + ack.len
                &&& p.last@ >= b.last@ && p.last@ >= ack.acked_at@
                &&& p.last == b.last || p.last == ack.acked_at
                &&& p.state.sent == b.state.sent.remove(ack.seq)
                &&& rtt > 0 ==> p.state.current_rtt.nanos == rtt
                &&& rtt > 0 && (b.state.min_rtt.nanos == MAX_NANOS || rtt
                    < b.state.min_rtt.nanos) ==> p.state.min_rtt.nanos == rtt
                &&& rtt > 0 && b.state.min_rtt.nanos != MAX_NANOS && rtt
                    >= b.state.min_rtt.nanos ==> p.state.min_rtt == b.state.min_rtt
                &&& rtt == 0 ==> p.state.current_rtt == b.state.current_rtt && p.state.min_rtt
                    == b.state.min_rtt
            }
        }),
{
    assert(acks.push(ack).drop_last() =~= acks);
    assert(acks.push(ack).last() == ack);
}

/// A feedback event takes its acknowledgements in, and the bytes they credit together enter the
/// history as one sample at the time of the batch. Without any, and for an empty batch, the
/// window and the rate stay.
pub proof fn law_rocc_event(pre: Rocc, post: Rocc, acks: Seq<AckInfo>)
    requires
        post.after_acks(&pre, acks),
    ensures
        acks.len() == 0 ==> post@ == pre@,
        acks.len() > 0 ==> {
            let p = taken(pre@, acks, acks[0].acked_at);
            &&& p.total == credited(pre.sent_packets@.dom(), acks)
            &&& p.total == 0 ==> post@ == p.state && post.cwnd_bytes == pre.cwnd_bytes
                && post.pacing_rate_bps == pre.pacing_rate_bps
            &&& 0 < p.total <= u64::MAX ==> post@ == p.state.sampled(p.total as u64, 0, p.last)
        },
{
    if acks.len() > 0 {
        law_rocc_batch(pre@, acks, acks[0].acked_at);
    }
}

/// Minimum round-trip time in microseconds, at least one; 50 ms before any was measured.
pub open spec fn floor_us(min_rtt: Duration) -> int {
    if min_rtt.nanos == MAX_NANOS {
        50_000
    } else if min_rtt.nanos < 1_000 {
        1
    } else {
        min_rtt.nanos as int / 1_000
    }
}

/// A sample enters the newest interval of the history, or a new one once a quarter of the
/// minimum round-trip time and a microsecond have passed since it started.
pub proof fn law_rocc_records(s: RoccState, acked: u64, lost: u64, now: Instant)
    requires
        s.wf(),
        s.sample_ok(acked, lost, now),
        s.min_rtt.nanos / 1_000 <= u64::MAX,
    ensures
        ({
            let r = s.sampled(acked, lost, now);
            let newest = s.intervals[s.head as int];
            let length: int = (floor_us(s.min_rtt) / 4 + 1) * 1_000;
            let fresh = newest.start_time is None || newest.start_time->0@ + length < now@;
            let limited = s.in_flight < s.cwnd;
            let entry = r.intervals[r.head as int];
            &&& r.intervals.len() == 16
            &&& r.head < 16
            &&& fresh ==> {
                &&& (r.head + 1) % 16 == s.head
                &&& entry.start_time == Some(now)
                &&& entry.bytes_acked == acked
                &&& entry.bytes_lost == lost
                &&& entry.app_limited == limited
            }
            &&& !fresh ==> {
                &&& r.head == s.head
                &&& entry.start_time == newest.start_time
                &&& entry.bytes_acked == newest.bytes_acked + acked
                &&& entry.bytes_lost == newest.bytes_lost + lost
                &&& entry.app_limited == (newest.app_limited || limited)
            }
            &&& forall|i: int|
                0 <= i < 16 && i != r.head ==> #[trigger] r.intervals[i] == s.intervals[i]
            &&& r.sent == s.sent
            &&& r.in_flight == s.in_flight
            &&& r.min_rtt == s.min_rtt
            &&& r.current_rtt == s.current_rtt
            &&& r.config == s.config
        }),
{
}

/// The history counts from the newest interval back: every interval that was used, up to and
/// with the first one that started longer ago than the span.
pub proof fn law_rocc_history(
    intervals: Seq<RoccInterval>,
    head: nat,
    i: nat,
    span: nat,
    now: Instant,
)
    ensures
        ({
            let t = tally(intervals, head, i, span, now);
            let it = intervals[((head + i) % 16) as int];
            let older = tally(intervals, head, i + 1, span, now);
            &&& i >= 16 || it.start_time is None ==> t.acked == 0 && t.lost == 0 && !t.limited
            &&& i < 16 && it.start_time is Some && it.start_time->0@ + span < now@ ==> {
                &&& t.acked == it.bytes_acked
                &&& t.lost == it.bytes_lost
                &&& t.limited == it.app_limited
            }
            &&& i < 16 && it.start_time is Some && it.start_time->0@ + span >= now@ ==> {
                &&& t.acked == it.bytes_acked + older.acked
                &&& t.lost == it.bytes_lost + older.lost
                &&& t.limited == (it.app_limited || older.limited)
            }
        }),
{
}

/// A sample sets the window to what was acknowledged over two minimum round-trip times plus the
/// probe. While some of it was application-limited and there is no congestion, the window does
/// not shrink; it never falls below the minimum. Congestion is more loss than tolerated together
/// with a round-trip time beyond one and a half times the minimum. The rate is the window per
/// minimum round-trip time, or under congestion the window times
/// `(1024 + 2 · tolerated) / (2 · 1024)` per current round-trip time.
#[verifier::rlimit(40)]
pub proof fn law_rocc_sets_window_and_rate(s: RoccState, acked: u64, lost: u64, now: Instant)
    requires
        s.wf(),
        s.sample_ok(acked, lost, now),
        s.min_rtt.nanos / 1_000 <= u64::MAX,
        s.current_rtt.nanos / 1_000 <= u64::MAX,
    ensures
        ({
            let r = s.sampled(acked, lost, now);
            let least_us = floor_us(s.min_rtt);
            let latest_us: int = if s.current_rtt.nanos < 1_000 {
                1
            } else {
                s.current_rtt.nanos as int / 1_000
            };
            let t = tally(r.intervals, r.head, 0, (least_us * 2_000) as nat, now);
            let probe: int = t.acked + s.config.alpha_packets * s.config.mss;
            let least: int = s.config.min_cwnd_packets * s.config.mss;
            let congested = t.lost * 1024 > (t.acked + t.lost) * s.config.loss_thresh && t.acked
                + t.lost > 0 && s.min_rtt.nanos != MAX_NANOS && latest_us > least_us * 3 / 2;
            let held: int = if t.limited && !congested && s.cwnd > probe {
                s.cwnd as int
            } else {
                probe
            };
            let million = whole_number(1_000_000);
            let two = whole_number(2);
            let unit = whole_number(1024);
            let window = whole_number(r.cwnd as nat);
            &&& held >= least ==> r.cwnd == held
            &&& held < least ==> r.cwnd == least
            &&& !congested ==> r.rate == truncated(
                quotient(window, quotient(whole_number(least_us as nat), million)),
            )
            &&& congested ==> r.rate == truncated(
                product(
                    window,
                    quotient(
                        sum(unit, product(two, whole_number(s.config.loss_thresh as nat))),
                        product(
                            product(quotient(whole_number(latest_us as nat), million), two),
                            unit,
                        ),
                    ),
                ),
            )
        }),
{
    let entered = s.recorded(acked, lost, now);
    let r = s.sampled(acked, lost, now);
    let least_us = floor_us(s.min_rtt);
    let latest_us: int = if s.current_rtt.nanos < 1_000 {
        1
    } else {
        s.current_rtt.nanos as int / 1_000
    };
    let t = tally(r.intervals, r.head, 0, (least_us * 2_000) as nat, now);
    assert(entered.min_us() == least_us);
    assert(rtt_micros(entered.current_rtt) == latest_us);
    assert(entered.span() == (least_us * 2_000) as nat);
    assert(entered.total(now) == t);
    assert(r.cwnd == entered.next_cwnd(t)) by {
        law_rocc_window_after_a_sample(s, acked, lost, now);
    }
    assert(r.rate == entered.next_rate(t, r.cwnd as nat));
    assert(s.config.alpha_packets * s.config.mss >= 0) by (nonlinear_arith);
    assert(s.config.min_cwnd_packets * s.config.mss >= 0) by (nonlinear_arith);
    let congested = t.lost * 1024 > (t.acked + t.lost) * s.config.loss_thresh && t.acked + t.lost
        > 0 && s.min_rtt.nanos != MAX_NANOS && latest_us > least_us * 3 / 2;
    assert(entered.congested(t) == congested);
}

} // verus!
