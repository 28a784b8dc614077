//! Laws of one event: what a controller holds and reports before it, and what after it.

use vstd::prelude::*;

use super::copa::{Copa, CopaState, SentRecord, Velocity};
use super::laws::{covers, lemma_least, lemma_since};
use super::noop::NoopCc;
use super::rtt::{since, MinMaxState, RttEstimator};
use super::{acked_bytes, CongestionController};
use crate::binary64::{
    at_most, larger, product, quotient, smaller, truncated, whole_number, Binary64,
};
use crate::bounded::{minus_floored, saturated};
use crate::time::{elapsed, nanos_nearest, seconds, Duration, Instant};
use crate::types::{AckInfo, LostPacket, SentPacket};

verus! {

/// What the fixed-rate controller reports is what it was created with, and it admits a packet
/// while less than its window is in flight.
pub proof fn law_noop_reports(cc: NoopCc, bytes_in_flight: u64)
    ensures
        cc.send_rate() == cc.pacing_rate,
        cc.throughput() == cc.pacing_rate,
        cc.window() == cc.cwnd,
        cc.round_trip() == cc.rtt,
        cc.admits(bytes_in_flight) <==> bytes_in_flight < cc.cwnd,
{
}

/// The fixed-rate controller counts bytes in flight up on a send and down on an acknowledgement
/// or a loss, and nothing else of it changes.
pub proof fn law_noop_counts_bytes(
    pre: NoopCc,
    sent: NoopCc,
    acked: NoopCc,
    lost: NoopCc,
    packet: SentPacket,
    ack: AckInfo,
    loss: LostPacket,
)
    requires
        sent.after_send(&pre, packet),
        acked.after_acks(&pre, seq![ack]),
        lost.after_loss(&pre, loss),
    ensures
        sent.bytes_in_flight == (if pre.bytes_in_flight + packet.len <= u64::MAX {
            pre.bytes_in_flight + packet.len
        } else {
            u64::MAX as int
        }),
        acked.bytes_in_flight == (if pre.bytes_in_flight >= ack.len {
            pre.bytes_in_flight - ack.len
        } else {
            0
        }),
        lost.bytes_in_flight == (if pre.bytes_in_flight >= loss.len {
            pre.bytes_in_flight - loss.len
        } else {
            0
        }),
        sent == (NoopCc { bytes_in_flight: sent.bytes_in_flight, ..pre }),
        acked == (NoopCc { bytes_in_flight: acked.bytes_in_flight, ..pre }),
        lost == (NoopCc { bytes_in_flight: lost.bytes_in_flight, ..pre }),
{
    reveal_with_fuel(acked_bytes, 2);
    assert(seq![ack].drop_last() =~= Seq::<AckInfo>::empty());
    assert(seq![ack].last() == ack);
}

/// A batch of acknowledgements takes out of flight the bytes of all of them.
pub proof fn law_noop_counts_a_batch(pre: NoopCc, post: NoopCc, acks: Seq<AckInfo>, ack: AckInfo)
    requires
        post.after_acks(&pre, acks),
    ensures
        acks.len() == 0 ==> post == pre,
        acked_bytes(Seq::empty()) == 0,
        acked_bytes(acks.push(ack)) == acked_bytes(acks) + ack.len,
        pre.bytes_in_flight >= acked_bytes(acks) ==> post.bytes_in_flight == pre.bytes_in_flight
            - acked_bytes(acks),
        pre.bytes_in_flight < acked_bytes(acks) ==> post.bytes_in_flight == 0,
{
    assert(acks.push(ack).drop_last() =~= acks);
    assert(acks.push(ack).last() == ack);
}

/// What Copa reports: the window is at least the configured minimum, the round-trip time is the
/// smoothed one, CC-Rate is the window over that round-trip time, and the pacing rate is twice
/// the window over the standing round-trip time.
pub proof fn law_copa_reports(cc: Copa, bytes_in_flight: u64)
    ensures
        cc.window() >= cc.cwnd,
        cc.window() >= cc.config.min_cwnd,
        cc.window() == cc.cwnd || cc.window() == cc.config.min_cwnd,
        cc.round_trip() == cc.rtt.smoothed_rtt,
        cc.throughput() == truncated(
            quotient(
                whole_number(cc.window() as nat),
                larger(seconds(cc.round_trip()), Binary64 { bits: 0x3E11_2E0B_E826_D695 }),
            ),
        ),
        ({
            let standing: u128 = if cc.standing_rtt.min > 0 {
                (cc.standing_rtt.min * 1_000) as u128
            } else if cc.config.initial_rtt.nanos > 1_000 {
                cc.config.initial_rtt.nanos
            } else {
                1_000
            };
            let rate = truncated(
                quotient(
                    whole_number(cc.window() as nat),
                    larger(
                        seconds(Duration { nanos: standing }),
                        Binary64 { bits: 0x3E11_2E0B_E826_D695 },
                    ),
                ),
            );
            cc.send_rate() == (if 2 * rate <= u64::MAX {
                2 * rate
            } else {
                u64::MAX as int
            })
        }),
        cc.admits(bytes_in_flight) <==> bytes_in_flight < cc.window(),
{
}

/// A new Copa is in slow start with the configured window and guess, and has seen nothing.
pub proof fn law_copa_starts(cc: Copa, now: Instant)
    requires
        cc@ == CopaState::initial(cc.config, now),
    ensures
        cc.cwnd == cc.config.initial_cwnd,
        cc.slow_start,
        cc.increase_cwnd,
        cc.delta == cc.config.slow_start_delta,
        cc.mode is Default,
        cc.rtt.smoothed_rtt == cc.config.initial_rtt,
        cc.rtt.latest_rtt == cc.config.initial_rtt,
        cc.rtt.rttvar.nanos == cc.config.initial_rtt.nanos / 2,
        cc.standing_rtt.window_us == 100_000,
        cc.min_rtt.window_us == 10_000_000,
        cc.standing_rtt.samples@.len() == 0,
        cc.min_rtt.samples@.len() == 0,
        cc.standing_rtt.min == 0,
        cc.min_rtt.min == 0,
        cc.velocity.velocity == 1,
        cc.velocity.last_cwnd == 0,
        cc.velocity.same_direction_cnt == 0,
        cc.velocity.direction is Up,
        cc.bytes_in_flight == 0,
        cc.bytes_acked_total == 0,
        cc.bytes_lost_total == 0,
        cc.last_sent_seq == 0,
        cc.round.end_seq == 0,
        cc.round.count == 0,
        cc.target_rate == 0,
        cc.init_time == now,
        cc.sent@.dom() =~= Set::<u64>::empty(),
{
}

/// A send puts the packet in flight with its time and bytes; Copa's window and rates stay.
pub proof fn law_copa_send(pre: Copa, post: Copa, packet: SentPacket)
    requires
        post.after_send(&pre, packet),
    ensures
        post.sent@.contains_key(packet.seq),
        post.sent@[packet.seq].sent_at == packet.sent_at,
        forall|seq: u64|
            seq != packet.seq ==> {
                &&& (#[trigger] post.sent@.contains_key(seq)) == pre.sent@.contains_key(seq)
                &&& pre.sent@.contains_key(seq) ==> post.sent@[seq] == pre.sent@[seq]
            },
        post.last_sent_seq == packet.seq,
        post.bytes_in_flight == saturated(pre.bytes_in_flight as nat + packet.len as nat),
        post.cwnd == pre.cwnd,
        post.slow_start == pre.slow_start,
        post.delta == pre.delta,
        post.velocity == pre.velocity,
        post.rtt == pre.rtt,
        post.round == pre.round,
        post.ack == pre.ack,
        post.increase_cwnd == pre.increase_cwnd,
        post.target_rate == pre.target_rate,
        post.config == pre.config,
        post.mode == pre.mode,
        post.bytes_acked_total == pre.bytes_acked_total,
        post.bytes_lost_total == pre.bytes_lost_total,
        post.window() == pre.window(),
        post.throughput() == pre.throughput(),
        post.send_rate() == pre.send_rate(),
{
}

/// A loss takes the packet out of flight and counts its bytes as lost; Copa's window and rates
/// stay until the next feedback event.
pub proof fn law_copa_loss(pre: Copa, post: Copa, packet: LostPacket)
    requires
        post.after_loss(&pre, packet),
    ensures
        !post.sent@.contains_key(packet.seq),
        forall|seq: u64|
            seq != packet.seq ==> {
                &&& (#[trigger] post.sent@.contains_key(seq)) == pre.sent@.contains_key(seq)
                &&& pre.sent@.contains_key(seq) ==> post.sent@[seq] == pre.sent@[seq]
            },
        !pre.sent@.contains_key(packet.seq) ==> post.bytes_in_flight == pre.bytes_in_flight,
        pre.sent@.contains_key(packet.seq) && pre.bytes_in_flight >= packet.len
            ==> post.bytes_in_flight == pre.bytes_in_flight - packet.len,
        pre.sent@.contains_key(packet.seq) && pre.bytes_in_flight < packet.len
            ==> post.bytes_in_flight == 0,
        post.bytes_lost_total == saturated(pre.bytes_lost_total as nat + packet.len as nat),
        post.bytes_acked_total == pre.bytes_acked_total,
        post.last_sent_seq == pre.last_sent_seq,
        post.cwnd == pre.cwnd,
        post.slow_start == pre.slow_start,
        post.delta == pre.delta,
        post.velocity == pre.velocity,
        post.rtt == pre.rtt,
        post.round == pre.round,
        post.increase_cwnd == pre.increase_cwnd,
        post.target_rate == pre.target_rate,
        post.config == pre.config,
        post.mode == pre.mode,
        post.window() == pre.window(),
        post.throughput() == pre.throughput(),
        post.send_rate() == pre.send_rate(),
{
}

/// Bytes that a batch credits: each packet in flight once, with its first acknowledgement.
pub open spec fn credited(in_flight: Set<u64>, acks: Seq<AckInfo>) -> nat
    decreases acks.len(),
{
    if acks.len() == 0 {
        0
    } else {
        let before = acks.drop_last();
        let ack = acks.last();
        credited(in_flight, before) + if in_flight.contains(ack.seq) && !covers(
            before,
            ack.seq,
        ) {
            ack.len as nat
        } else {
            0
        }
    }
}

/// A batch covers what its first acknowledgements cover, and the packet of the last one.
pub proof fn lemma_covers_last(acks: Seq<AckInfo>)
    requires
        acks.len() > 0,
    ensures
        forall|seq: u64| #[trigger]
            covers(acks, seq) <==> covers(acks.drop_last(), seq) || seq == acks.last().seq,
{
    let before = acks.drop_last();
    assert forall|seq: u64| #[trigger] covers(acks, seq) <==> covers(before, seq) || seq
        == acks.last().seq by {
        if covers(acks, seq) && seq != acks.last().seq {
            let i: int = choose|i: int| 0 <= i < acks.len() && (#[trigger] acks[i]).seq == seq;
            assert(before[i].seq == seq);
        }
        if covers(before, seq) {
            let i: int = choose|i: int| 0 <= i < before.len() && (#[trigger] before[i]).seq == seq;
            assert(acks[i].seq == seq);
        }
        if seq == acks.last().seq {
            assert(acks[acks.len() - 1].seq == seq);
        }
    }
}

/// What a batch leaves alone, and what it adds up to.
#[verifier::rlimit(50)]
proof fn lemma_batch(s: CopaState, acks: Seq<AckInfo>)
    ensures
        ({
            let t = s.took_all(acks);
            let gained = credited(s.sent.dom(), acks);
            &&& t.config == s.config
            &&& t.init_time == s.init_time
            &&& t.cwnd == s.cwnd
            &&& t.slow_start == s.slow_start
            &&& t.mode == s.mode
            &&& t.delta == s.delta
            &&& t.velocity == s.velocity
            &&& t.standing == s.standing
            &&& t.lowest == s.lowest
            &&& t.round == s.round
            &&& t.last_sent_seq == s.last_sent_seq
            &&& t.lost_total == s.lost_total
            &&& t.ack.now == s.ack.now
            &&& t.acked_total == saturated(s.acked_total as nat + gained)
            &&& t.ack.newly_acked_bytes == saturated(s.ack.newly_acked_bytes as nat + gained)
            &&& t.in_flight == (if s.in_flight >= gained {
                s.in_flight - gained
            } else {
                0
            })
            &&& forall|seq: u64|
                (#[trigger] t.sent.contains_key(seq)) <==> s.sent.contains_key(seq) && !covers(
                    acks,
                    seq,
                )
            &&& forall|seq: u64| #[trigger]
                t.sent.contains_key(seq) ==> t.sent[seq] == s.sent[seq]
            &&& t.ack.largest_acked_seq >= s.ack.largest_acked_seq
            &&& forall|seq: u64|
                s.sent.contains_key(seq) && #[trigger] covers(acks, seq) ==> seq
                    <= t.ack.largest_acked_seq
            &&& t.ack.largest_acked_seq != s.ack.largest_acked_seq ==> s.sent.contains_key(
                t.ack.largest_acked_seq,
            ) && covers(acks, t.ack.largest_acked_seq)
        }),
    decreases acks.len(),
{
    if acks.len() > 0 {
        let before = acks.drop_last();
        let ack = acks.last();
        let t = s.took_all(before);
        lemma_batch(s, before);
        lemma_covers_last(acks);
        assert(t.sent.contains_key(ack.seq) <==> s.sent.contains_key(ack.seq) && !covers(
            before,
            ack.seq,
        ));
        assert(s.sent.dom().contains(ack.seq) == s.sent.contains_key(ack.seq));
        assert(covers(acks, ack.seq));
    }
}

/// A feedback event settles the packets it covers and credits each once: what it acknowledges
/// of packets in flight leaves the bytes in flight and enters the totals. The largest sequence
/// number is that of the packets it settled.
pub proof fn law_copa_settles_a_batch(pre: Copa, post: Copa, acks: Seq<AckInfo>)
    requires
        acks.len() > 0,
        post.after_acks(&pre, acks),
    ensures
        ({
            let gained = credited(pre.sent@.dom(), acks);
            &&& post.ack.newly_acked_bytes == saturated(gained)
            &&& post.bytes_acked_total == saturated(pre.bytes_acked_total as nat + gained)
            &&& post.bytes_in_flight == (if pre.bytes_in_flight >= gained {
                pre.bytes_in_flight - gained
            } else {
                0
            })
            &&& forall|seq: u64|
                (#[trigger] post.sent@.contains_key(seq)) <==> pre.sent@.contains_key(seq)
                    && !covers(acks, seq)
            &&& forall|seq: u64| #[trigger]
                post.sent@.contains_key(seq) ==> post.sent@[seq] == pre.sent@[seq]
            &&& forall|seq: u64|
                pre.sent@.contains_key(seq) && #[trigger] covers(acks, seq) ==> seq
                    <= post.ack.largest_acked_seq
            &&& post.ack.largest_acked_seq > 0 ==> pre.sent@.contains_key(
                post.ack.largest_acked_seq,
            ) && covers(acks, post.ack.largest_acked_seq)
            &&& post.ack.now == acks[0].acked_at
            &&& post.ack.newly_lost_bytes == 0
            &&& post.bytes_lost_total == pre.bytes_lost_total
            &&& post.last_sent_seq == pre.last_sent_seq
            &&& post.config == pre.config
            &&& post.init_time == pre.init_time
        }),
{
    lemma_batch(pre@.begun(acks[0].acked_at), acks);
    lemma_batch_lost(pre@.begun(acks[0].acked_at), acks);
}

/// A batch of acknowledgements reports no loss.
proof fn lemma_batch_lost(s: CopaState, acks: Seq<AckInfo>)
    ensures
        s.took_all(acks).ack.newly_lost_bytes == s.ack.newly_lost_bytes,
    decreases acks.len(),
{
    if acks.len() > 0 {
        lemma_batch_lost(s, acks.drop_last());
    }
}

/// One acknowledgement of a packet in flight measures the time since its send and moves the
/// smoothed round-trip time by an eighth of it; one of another packet measures nothing.
pub proof fn law_copa_measures(pre: Copa, post: Copa, ack: AckInfo)
    requires
        post.after_acks(&pre, seq![ack]),
    ensures
        !pre.sent@.contains_key(ack.seq) ==> post.rtt == pre.rtt && post.ack.min_rtt
            == pre.config.initial_rtt && post.ack.last_srtt.nanos == 0,
        pre.sent@.contains_key(ack.seq) ==> {
            let sample: nat = elapsed(ack.acked_at, pre.sent@[ack.seq].sent_at);
            let whole = Duration { nanos: sample as u128 };
            let kept = nanos_nearest(
                product(seconds(pre.rtt.smoothed_rtt), Binary64 { bits: 0x3FEC_0000_0000_0000 }),
            );
            let added = nanos_nearest(
                product(seconds(whole), Binary64 { bits: 0x3FC0_0000_0000_0000 }),
            );
            &&& post.rtt.latest_rtt == whole
            &&& pre.rtt.smoothed_rtt.nanos == 0 ==> post.rtt.smoothed_rtt == whole
            &&& pre.rtt.smoothed_rtt.nanos > 0 ==> post.rtt.smoothed_rtt.nanos == (kept
                + added) as u128
            &&& post.ack.last_srtt == post.rtt.smoothed_rtt
            &&& sample > 0 && sample <= u128::MAX ==> post.ack.min_rtt == whole
            &&& sample == 0 ==> post.ack.min_rtt == (if post.rtt.smoothed_rtt.nanos > 0 {
                post.rtt.smoothed_rtt
            } else {
                pre.config.initial_rtt
            })
        },
{
    let s = pre@.begun(ack.acked_at);
    assert(seq![ack].drop_last() =~= Seq::<AckInfo>::empty());
    assert(seq![ack].last() == ack);
    reveal_with_fuel(CopaState::took_all, 2);
}

/// The round-trip times that a batch measures, in order: one for each packet in flight that it
/// covers, by its first acknowledgement.
pub open spec fn measured_times(sent: Map<u64, SentRecord>, acks: Seq<AckInfo>) -> Seq<Duration>
    decreases acks.len(),
{
    if acks.len() == 0 {
        Seq::empty()
    } else {
        let before = acks.drop_last();
        let ack = acks.last();
        if sent.contains_key(ack.seq) && !covers(before, ack.seq) {
            measured_times(sent, before).push(
                Duration { nanos: elapsed(ack.acked_at, sent[ack.seq].sent_at) as u128 },
            )
        } else {
            measured_times(sent, before)
        }
    }
}

/// The estimate after samples, one after the other.
pub open spec fn estimate_after(start: RttEstimator, samples: Seq<Duration>) -> RttEstimator
    decreases samples.len(),
{
    if samples.len() == 0 {
        start
    } else {
        estimate_after(start, samples.drop_last()).after_sample(samples.last())
    }
}

/// What a batch measures.
#[verifier::rlimit(50)]
proof fn lemma_batch_times(s: CopaState, acks: Seq<AckInfo>)
    requires
        s.ack.min_rtt.nanos == 0,
        s.ack.last_srtt.nanos == 0,
    ensures
        ({
            let t = s.took_all(acks);
            let times = measured_times(s.sent, acks);
            &&& t.rtt == estimate_after(s.rtt, times)
            &&& times.len() == 0 ==> t.ack.min_rtt.nanos == 0 && t.ack.last_srtt.nanos == 0
            &&& times.len() > 0 ==> t.ack.last_srtt == t.rtt.smoothed_rtt
            &&& times.len() > 0 && (forall|i: int|
                0 <= i < times.len() ==> (#[trigger] times[i]).nanos > 0) ==> {
                &&& exists|i: int|
                    0 <= i < times.len() && #[trigger] times[i] == t.ack.min_rtt
                &&& forall|i: int|
                    0 <= i < times.len() ==> t.ack.min_rtt.nanos <= (#[trigger] times[i]).nanos
            }
        }),
    decreases acks.len(),
{
    if acks.len() > 0 {
        let before = acks.drop_last();
        let ack = acks.last();
        let u = s.took_all(before);
        let t = s.took_all(acks);
        let old_times = measured_times(s.sent, before);
        let times = measured_times(s.sent, acks);
        lemma_batch(s, before);
        lemma_batch_times(s, before);
        assert(u.sent.contains_key(ack.seq) <==> s.sent.contains_key(ack.seq) && !covers(
            before,
            ack.seq,
        ));
        if u.sent.contains_key(ack.seq) {
            assert(times.drop_last() =~= old_times);
            if forall|i: int| 0 <= i < times.len() ==> (#[trigger] times[i]).nanos > 0 {
                assert forall|i: int| 0 <= i < old_times.len() implies (
                #[trigger] old_times[i]).nanos > 0 by {
                    assert(times[i] == old_times[i]);
                }
                let n: int = times.len() - 1;
                assert(times[n].nanos > 0);
                if old_times.len() > 0 {
                    let k: int = choose|i: int|
                        0 <= i < old_times.len() && #[trigger] old_times[i] == u.ack.min_rtt;
                    assert(times[k] == old_times[k]);
                    assert(times[k].nanos > 0);
                }
                assert(times[n] == times.last());
                assert forall|i: int| 0 <= i < times.len() implies t.ack.min_rtt.nanos <= (
                #[trigger] times[i]).nanos by {
                    if i < n {
                        assert(old_times[i] == times[i]);
                    }
                }
            }
        }
    }
}

/// A feedback event measures each packet it settles once. The smoothed round-trip time takes
/// the samples in one after the other, and the event's round-trip time is the least of them.
#[verifier::rlimit(50)]
pub proof fn law_copa_measures_a_batch(pre: Copa, post: Copa, acks: Seq<AckInfo>)
    requires
        acks.len() > 0,
        post.after_acks(&pre, acks),
    ensures
        ({
            let times = measured_times(pre.sent@, acks);
            &&& post.rtt == estimate_after(pre.rtt, times)
            &&& times.len() == 0 ==> post.ack.min_rtt == pre.config.initial_rtt
                && post.ack.last_srtt.nanos == 0
            &&& times.len() > 0 ==> post.ack.last_srtt == post.rtt.smoothed_rtt
            &&& times.len() > 0 && (forall|i: int|
                0 <= i < times.len() ==> (#[trigger] times[i]).nanos > 0) ==> {
                &&& exists|i: int|
                    0 <= i < times.len() && #[trigger] times[i] == post.ack.min_rtt
                &&& forall|i: int|
                    0 <= i < times.len() ==> post.ack.min_rtt.nanos <= (
                    #[trigger] times[i]).nanos
            }
        }),
{
    let s = pre@.begun(acks[0].acked_at);
    lemma_batch(s, acks);
    lemma_batch_times(s, acks);
    let times = measured_times(pre.sent@, acks);
    let t = s.took_all(acks);
    if times.len() > 0 && (forall|i: int|
        0 <= i < times.len() ==> (#[trigger] times[i]).nanos > 0) {
        let k: int = choose|i: int| 0 <= i < times.len() && #[trigger] times[i] == t.ack.min_rtt;
        assert(times[k].nanos > 0);
        assert(post.ack.min_rtt == t.ack.min_rtt);
    }
}

/// A sample moves the estimate: the first one sets it, with half of it as its variation; every
/// other one counts an eighth, and its distance from the estimate a quarter.
pub proof fn law_estimate_moves(before: RttEstimator, sample: Duration)
    ensures
        ({
            let after = before.after_sample(sample);
            let distance: nat = if sample.nanos >= before.smoothed_rtt.nanos {
                (sample.nanos - before.smoothed_rtt.nanos) as nat
            } else {
                (before.smoothed_rtt.nanos - sample.nanos) as nat
            };
            let part = |d: nat, bits: u64|
                nanos_nearest(product(seconds(Duration { nanos: d as u128 }), Binary64 { bits }));
            &&& after.latest_rtt == sample
            &&& before.smoothed_rtt.nanos == 0 ==> after.smoothed_rtt == sample
                && after.rttvar.nanos == sample.nanos / 2
            &&& before.smoothed_rtt.nanos > 0 ==> {
                &&& after.smoothed_rtt.nanos == (part(
                    before.smoothed_rtt.nanos as nat,
                    0x3FEC_0000_0000_0000,
                ) + part(sample.nanos as nat, 0x3FC0_0000_0000_0000)) as u128
                &&& after.rttvar.nanos == (part(
                    before.rttvar.nanos as nat,
                    0x3FE8_0000_0000_0000,
                ) + part(distance, 0x3FD0_0000_0000_0000)) as u128
            }
        }),
{
}

/// A round ends with the first event that acknowledges everything sent before it. The share of
/// lost bytes since its start is then measured anew; otherwise it stays.
#[verifier::rlimit(50)]
pub proof fn law_copa_rounds(pre: Copa, post: Copa, acks: Seq<AckInfo>)
    requires
        acks.len() > 0,
        post.after_acks(&pre, acks),
    ensures
        post.round.is_start <==> post.ack.largest_acked_seq >= pre.round.end_seq,
        !post.round.is_start ==> {
            &&& post.round.count == pre.round.count
            &&& post.round.end_seq == pre.round.end_seq
            &&& post.round.last_acked_bytes == pre.round.last_acked_bytes
            &&& post.round.last_lost_bytes == pre.round.last_lost_bytes
            &&& post.round.loss_rate == pre.round.loss_rate
        },
        post.round.is_start ==> {
            let lost: nat = if post.bytes_lost_total >= pre.round.last_lost_bytes {
                (post.bytes_lost_total - pre.round.last_lost_bytes) as nat
            } else {
                0
            };
            let acked: nat = if post.bytes_acked_total >= pre.round.last_acked_bytes {
                (post.bytes_acked_total - pre.round.last_acked_bytes) as nat
            } else {
                0
            };
            &&& post.round.count == saturated(pre.round.count as nat + 1)
            &&& post.round.end_seq == post.last_sent_seq
            &&& post.round.last_acked_bytes == post.bytes_acked_total
            &&& post.round.last_lost_bytes == post.bytes_lost_total
            &&& lost + acked == 0 ==> post.round.loss_rate.bits == 0
            &&& 0 < lost + acked <= u64::MAX ==> post.round.loss_rate == quotient(
                whole_number(lost),
                whole_number(lost + acked),
            )
        },
{
    lemma_batch(pre@.begun(acks[0].acked_at), acks);
}

/// The link counts as contended while a tenth of the bytes or more is lost. δ is then twice the
/// last one, at most one half; otherwise it is the configured one, by whether slow start lasted
/// until this event.
pub proof fn law_copa_contention(pre: Copa, post: Copa, acks: Seq<AckInfo>)
    requires
        acks.len() > 0,
        post.after_acks(&pre, acks),
    ensures
        post.mode is Competitive <==> at_most(
            Binary64 { bits: 0x3FB9_9999_9999_999A },
            post.round.loss_rate,
        ),
        post.mode is Competitive ==> post.delta == smaller(
            product(pre.delta, whole_number(2)),
            Binary64 { bits: 0x3FE0_0000_0000_0000 },
        ),
        post.mode is Default && pre.slow_start ==> post.delta == pre.config.slow_start_delta,
        post.mode is Default && !pre.slow_start ==> post.delta == pre.config.steady_delta,
{
    lemma_batch(pre@.begun(acks[0].acked_at), acks);
}

/// The time of an event on the controller's clock, in microseconds.
pub open spec fn clock_us(cc: Copa, at: Instant) -> u64 {
    saturated(elapsed(at, cc.init_time) / 1_000)
}

/// Both filters take in the least round-trip time of the event at the time of the event: the
/// long one over its ten seconds, the standing one over the smoothed round-trip time or half of
/// it, at least a microsecond. Their minima are those of the samples they keep.
#[verifier::rlimit(50)]
pub proof fn law_copa_filters(pre: Copa, post: Copa, acks: Seq<AckInfo>)
    requires
        acks.len() > 0,
        post.after_acks(&pre, acks),
        elapsed(acks[0].acked_at, pre.init_time) <= u128::MAX,
    ensures
        ({
            let at = clock_us(pre, acks[0].acked_at);
            let sample = saturated((post.ack.min_rtt.nanos / 1_000) as nat);
            let srtt: nat = if pre.config.use_standing_rtt {
                post.ack.last_srtt.nanos as nat
            } else {
                (post.ack.last_srtt.nanos / 2) as nat
            };
            &&& post.min_rtt.window_us == pre.min_rtt.window_us
            &&& post.standing_rtt.window_us == saturated(
                if srtt >= 1_000 {
                    srtt / 1_000
                } else {
                    1
                },
            )
            &&& post.min_rtt.samples@.len() > 0
            &&& post.min_rtt.samples@.last() == (at, sample)
            &&& post.standing_rtt.samples@.len() > 0
            &&& post.standing_rtt.samples@.last() == (at, sample)
            &&& is_tail(pre.min_rtt.samples@.push((at, sample)), post.min_rtt.samples@)
            &&& is_tail(pre.standing_rtt.samples@.push((at, sample)), post.standing_rtt.samples@)
            &&& post.min_rtt.samples@[0].0 + pre.min_rtt.window_us >= at
            &&& post.standing_rtt.samples@[0].0 + post.standing_rtt.window_us >= at
            &&& dropped_are_old(
                pre.min_rtt.samples@.push((at, sample)),
                post.min_rtt.samples@,
                at,
                pre.min_rtt.window_us,
            )
            &&& dropped_are_old(
                pre.standing_rtt.samples@.push((at, sample)),
                post.standing_rtt.samples@,
                at,
                post.standing_rtt.window_us,
            )
            &&& is_least(post.min_rtt.min, post.min_rtt.samples@)
            &&& is_least(post.standing_rtt.min, post.standing_rtt.samples@)
        }),
{
    let s = pre@.begun(acks[0].acked_at);
    lemma_batch(s, acks);
    let fed = pre@.fed(acks);
    let timed = fed.timed();
    let at = clock_us(pre, acks[0].acked_at);
    let sample = saturated((post.ack.min_rtt.nanos / 1_000) as nat);
    lemma_filtered(fed.lowest, at, sample);
    lemma_filtered(
        MinMaxState { window_us: timed.standing.window_us, ..fed.standing },
        at,
        sample,
    );
}

/// Whether the samples are the last ones of all.
pub open spec fn is_tail(all: Seq<(u64, u64)>, kept: Seq<(u64, u64)>) -> bool {
    kept.len() <= all.len() && kept == all.skip(all.len() - kept.len())
}

/// Whether every sample that was not kept is older than the window.
pub open spec fn dropped_are_old(
    all: Seq<(u64, u64)>,
    kept: Seq<(u64, u64)>,
    at: u64,
    window_us: u64,
) -> bool {
    forall|i: int|
        0 <= i < all.len() - kept.len() ==> (#[trigger] all[i]).0 + window_us < at
}

/// Whether `min` is the value of a sample and no sample's value is less.
pub open spec fn is_least(min: u64, samples: Seq<(u64, u64)>) -> bool {
    &&& exists|i: int| 0 <= i < samples.len() && (#[trigger] samples[i]).1 == min
    &&& forall|i: int| 0 <= i < samples.len() ==> min <= (#[trigger] samples[i]).1
}

/// What a filter holds after a sample.
proof fn lemma_filtered(m: MinMaxState, at: u64, sample: u64)
    ensures
        ({
            let all = m.samples.push((at, sample));
            let after = m.updated(at, sample);
            &&& after.window_us == m.window_us
            &&& after.samples.len() > 0
            &&& after.samples.last() == (at, sample)
            &&& is_tail(all, after.samples)
            &&& after.samples[0].0 + m.window_us >= at
            &&& dropped_are_old(all, after.samples, at, m.window_us)
            &&& is_least(after.min, after.samples)
        }),
{
    let all = m.samples.push((at, sample));
    let cutoff = minus_floored(at, m.window_us as nat);
    lemma_since(all, cutoff);
    let kept = since(all, cutoff);
    if kept.len() == 0 {
        assert(all[all.len() - 1].0 < cutoff);
    }
    lemma_least(kept);
}

/// The target rate and the direction. Without queueing delay, that is while the standing
/// round-trip time is no longer than the minimum, the target is the current rate and the window
/// should grow. Otherwise the target is one packet per δ queueing delays, and the window should
/// grow exactly while that is at least the current rate.
#[verifier::rlimit(50)]
pub proof fn law_copa_aims(pre: Copa, post: Copa, acks: Seq<AckInfo>)
    requires
        acks.len() > 0,
        post.after_acks(&pre, acks),
    ensures
        ({
            let guess: nat = if pre.config.initial_rtt.nanos > 1_000 {
                pre.config.initial_rtt.nanos as nat
            } else {
                1_000
            };
            let standing: nat = if post.standing_rtt.min > 0 {
                post.standing_rtt.min as nat * 1_000
            } else {
                guess
            };
            let lowest: nat = post.min_rtt.min as nat * 1_000;
            let current = truncated(
                quotient(
                    whole_number(pre.cwnd as nat),
                    larger(
                        seconds(Duration { nanos: standing as u128 }),
                        Binary64 { bits: 0x3E11_2E0B_E826_D695 },
                    ),
                ),
            );
            &&& standing <= lowest ==> post.increase_cwnd && post.target_rate == current
            &&& standing > lowest ==> {
                let delay: nat = if standing - lowest >= 1_000 {
                    (standing - lowest) as nat
                } else {
                    1_000
                };
                &&& post.target_rate == truncated(
                    quotient(
                        quotient(whole_number(pre.config.packet_size as nat), post.delta),
                        seconds(Duration { nanos: delay as u128 }),
                    ),
                )
                &&& post.increase_cwnd <==> post.target_rate >= current
            }
        }),
{
    lemma_batch(pre@.begun(acks[0].acked_at), acks);
}

/// How the velocity moves in one event. It stays while slow start grows the window and between
/// the starts of rounds. At the start of a round it starts over where the window has turned or
/// was headed against the target, and doubles from the third round in one direction on.
pub open spec fn speed_from(
    before: Velocity,
    round_starts: bool,
    grows: bool,
    rises: bool,
) -> int {
    let was_up = before.direction is Up;
    if before.last_cwnd == 0 {
        1
    } else if !round_starts {
        before.velocity as int
    } else if rises != was_up || grows != was_up {
        1
    } else if before.same_direction_cnt >= 2 {
        saturated(2 * before.velocity as nat) as int
    } else {
        before.velocity as int
    }
}

/// One feedback event moves the window. In slow start it grows by exactly the acknowledged
/// bytes. Otherwise it grows or shrinks by `velocity · acked · packet size / (δ · window)`, so
/// it changes whenever that is at least one byte; a window that would be empty starts over from
/// the minimum.
#[verifier::rlimit(50)]
pub proof fn law_copa_moves_the_window(pre: Copa, post: Copa, acks: Seq<AckInfo>)
    requires
        acks.len() > 0,
        post.after_acks(&pre, acks),
        pre.velocity.velocity >= 1,
    ensures
        ({
            let acked = post.ack.newly_acked_bytes;
            let up = post.increase_cwnd;
            let speed = speed_from(
                pre.velocity,
                post.round.is_start,
                up,
                pre.cwnd > pre.velocity.last_cwnd,
            );
            let step = truncated(
                quotient(
                    whole_number((speed * acked * pre.config.packet_size) as nat),
                    product(post.delta, whole_number(pre.cwnd as nat)),
                ),
            );
            &&& post.slow_start <==> pre.slow_start && up
            &&& post.slow_start ==> {
                &&& pre.cwnd + acked <= u64::MAX ==> post.cwnd == pre.cwnd + acked
                &&& post.velocity == pre.velocity
            }
            &&& !post.slow_start && up && pre.cwnd > 0 ==> {
                &&& pre.cwnd + step <= u64::MAX ==> post.cwnd == pre.cwnd + step
                &&& step >= 1 && pre.cwnd < u64::MAX ==> post.cwnd > pre.cwnd
                &&& post.velocity.velocity == speed
            }
            &&& !post.slow_start && !up && step < pre.cwnd ==> {
                &&& post.cwnd == pre.cwnd - step
                &&& post.velocity.velocity == speed
            }
            &&& !post.slow_start && !up && step >= pre.cwnd ==> {
                &&& post.cwnd == pre.config.min_cwnd
                &&& post.velocity.velocity == 1
            }
        }),
{
    lemma_batch(pre@.begun(acks[0].acked_at), acks);
    let m = pre@.fed(acks).modelled();
    assert(m.cwnd == pre.cwnd);
    assert(m.config == pre.config);
    assert(m.slow_start == pre.slow_start);
    let speed = speed_from(
        pre.velocity,
        post.round.is_start,
        post.increase_cwnd,
        pre.cwnd > pre.velocity.last_cwnd,
    );
    if !(pre.slow_start && post.increase_cwnd) {
        assert(m.velocity.velocity == speed);
    }
}

/// Outside slow start, a window that should grow gains, and one that should not loses, what the
/// velocity, the acknowledged bytes and the packet size make over δ and the window: with a
/// velocity `v` it moves by `v · acked · packet size / (δ · window)`, rounded down.
pub proof fn law_copa_steady_step(s: CopaState)
    requires
        !(s.slow_start && s.grow),
        s.cwnd > 0,
    ensures
        ({
            let v = s.velocity.velocity;
            let step = truncated(
                quotient(
                    whole_number((v * s.ack.newly_acked_bytes * s.config.packet_size) as nat),
                    product(s.delta, whole_number(s.cwnd as nat)),
                ),
            );
            let after = s.moved().cwnd;
            &&& s.grow && s.cwnd + step <= u64::MAX ==> after == s.cwnd + step
            &&& s.grow && s.cwnd + step > u64::MAX ==> after == u64::MAX
            &&& s.grow && step >= 1 && s.cwnd < u64::MAX ==> after > s.cwnd
            &&& !s.grow && step < s.cwnd ==> after == s.cwnd - step
            &&& !s.grow && step >= s.cwnd ==> after == s.config.min_cwnd
            &&& !s.moved().slow_start
        }),
{
}

/// What the velocity remembers of an event: nothing while slow start grows the window or
/// between the starts of rounds; otherwise the window, its direction, and for how many rounds
/// it has kept it.
#[verifier::rlimit(50)]
pub proof fn law_copa_remembers_the_direction(pre: Copa, post: Copa, acks: Seq<AckInfo>)
    requires
        acks.len() > 0,
        post.after_acks(&pre, acks),
        !post.slow_start,
    ensures
        pre.velocity.last_cwnd == 0 ==> {
            &&& post.velocity.last_cwnd >= pre.cwnd
            &&& post.velocity.last_cwnd >= pre.config.min_cwnd
            &&& post.velocity.last_cwnd == pre.cwnd || post.velocity.last_cwnd
                == pre.config.min_cwnd
            &&& post.velocity.same_direction_cnt == 0
            &&& post.velocity.direction == pre.velocity.direction
        },
        pre.velocity.last_cwnd > 0 && !post.round.is_start ==> {
            &&& post.velocity.last_cwnd == pre.velocity.last_cwnd
            &&& post.velocity.same_direction_cnt == pre.velocity.same_direction_cnt
            &&& post.velocity.direction == pre.velocity.direction
        },
        pre.velocity.last_cwnd > 0 && post.round.is_start ==> {
            &&& post.velocity.last_cwnd == pre.cwnd
            &&& post.velocity.direction is Up <==> pre.cwnd > pre.velocity.last_cwnd
            &&& post.velocity.same_direction_cnt == (if post.velocity.direction
                == pre.velocity.direction {
                saturated(pre.velocity.same_direction_cnt as nat + 1)
            } else {
                0
            })
        },
{
    lemma_batch(pre@.begun(acks[0].acked_at), acks);
}

} // verus!
