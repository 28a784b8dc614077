//! Laws of the congestion controllers.

use vstd::prelude::*;

use super::copa::{window_rate, Copa, CopaState, LOSS_RATE_THRESHOLD_BITS};
use super::noop::NoopCc;
use super::rocc::{rtt_micros, Rocc, RoccState, Tally};
use super::rtt::{least, since, MinMaxState};
use super::{acked_bytes, CongestionController, Reproducible};
use crate::binary64::{at_most, signed};
use crate::bounded::{minus_floored, saturated};
use crate::time::Instant;
use crate::types::{AckInfo, LostPacket, SentPacket};

verus! {

/// Every controller admits a packet exactly while less than its window is in flight.
pub proof fn law_window_admits(noop: NoopCc, copa: Copa, rocc: Rocc, bytes_in_flight: u64)
    ensures
        noop.admits(bytes_in_flight) <==> bytes_in_flight < noop.window(),
        copa.admits(bytes_in_flight) <==> bytes_in_flight < copa.window(),
        rocc.admits(bytes_in_flight) <==> bytes_in_flight < rocc.window(),
{
}

/// The fixed-rate controller keeps its rate, window and round-trip time, whatever happens.
pub proof fn law_noop_is_constant(
    pre: NoopCc,
    post: NoopCc,
    sent: SentPacket,
    acks: Seq<AckInfo>,
    lost: LostPacket,
)
    requires
        post.after_send(&pre, sent) || post.after_acks(&pre, acks) || post.after_loss(&pre, lost),
    ensures
        post.send_rate() == pre.send_rate(),
        post.throughput() == pre.throughput(),
        post.window() == pre.window(),
        post.round_trip() == pre.round_trip(),
{
}

/// The window of the fixed-rate controller is not moved by what it admits: a packet sent and
/// acknowledged leaves the bytes in flight as they were.
pub proof fn law_noop_ack_undoes_send(
    pre: NoopCc,
    sent: NoopCc,
    post: NoopCc,
    packet: SentPacket,
    ack: AckInfo,
)
    requires
        sent.after_send(&pre, packet),
        ack.len == packet.len,
        pre.bytes_in_flight + packet.len <= u64::MAX,
        post.after_acks(&sent, seq![ack]),
    ensures
        post == pre,
{
    reveal_with_fuel(acked_bytes, 2);
    assert(seq![ack].drop_last() =~= Seq::<AckInfo>::empty());
    assert(seq![ack].last() == ack);
}

/// The window of Copa is never below its minimum.
pub proof fn law_copa_keeps_the_minimum(s: CopaState)
    ensures
        s.window() >= s.config.min_cwnd,
        s.window() >= s.cwnd,
{
}

/// Copa grows its window while the target rate is at least the current one, and in slow start
/// by exactly the bytes acknowledged; otherwise the window does not grow.
pub proof fn law_copa_follows_the_target(s: CopaState)
    ensures
        s.grow ==> s.moved().window() >= s.window(),
        !s.grow ==> s.moved().window() <= s.window(),
        s.slow_start && s.grow ==> s.moved().cwnd == saturated(
            s.cwnd as nat + s.ack.newly_acked_bytes as nat,
        ),
{
}

/// Without queueing delay Copa lets the window grow.
pub proof fn law_copa_grows_without_queueing(s: CopaState)
    requires
        s.standing_time().nanos <= s.lowest.min * 1_000,
    ensures
        s.aimed().grow,
        s.aimed().target_rate == window_rate(s.cwnd, s.standing_time()),
{
}

/// Taking acknowledgements in changes neither the window nor what steers it.
proof fn lemma_took_all_keeps(s: CopaState, acks: Seq<AckInfo>)
    ensures
        s.took_all(acks).slow_start == s.slow_start,
        s.took_all(acks).cwnd == s.cwnd,
        s.took_all(acks).config == s.config,
        s.took_all(acks).velocity == s.velocity,
    decreases acks.len(),
{
    if acks.len() > 0 {
        lemma_took_all_keeps(s, acks.drop_last());
    }
}

/// No more bytes count as acknowledged than the acknowledgements cover.
proof fn lemma_took_all_bytes(s: CopaState, acks: Seq<AckInfo>)
    ensures
        s.took_all(acks).ack.newly_acked_bytes <= s.ack.newly_acked_bytes + acked_bytes(acks),
    decreases acks.len(),
{
    if acks.len() > 0 {
        lemma_took_all_bytes(s, acks.drop_last());
    }
}

/// A feedback event stays within machine integers whenever twice the velocity, the bytes it
/// covers and the packet size do when multiplied.
pub proof fn law_copa_acks_fit(cc: Copa, acks: Seq<AckInfo>)
    requires
        cc@.wf(),
        cc@.velocity.velocity >= 1,
        cc@.velocity.velocity * 2 * acked_bytes(acks) * cc@.config.packet_size <= u64::MAX,
        cc@.velocity.velocity * 2 * acked_bytes(acks) <= u64::MAX,
    ensures
        cc.acks_ok(acks),
{
    if acks.len() > 0 {
        let s = cc@;
        let begun = s.begun(acks[0].acked_at);
        let taken = begun.took_all(acks);
        lemma_took_all_keeps(begun, acks);
        lemma_took_all_bytes(begun, acks);
        let aimed = s.fed(acks).timed().mode_checked().aimed();
        let m = s.fed(acks).modelled();
        assert(aimed.velocity == s.velocity);
        law_copa_velocity(aimed);
        assert(m.ack.newly_acked_bytes == taken.ack.newly_acked_bytes);
        assert(m.config == s.config);
        let v: nat = m.velocity.velocity as nat;
        let w: nat = s.velocity.velocity as nat * 2;
        let a: nat = m.ack.newly_acked_bytes as nat;
        let b: nat = acked_bytes(acks);
        let p: nat = s.config.packet_size as nat;
        assert(v * a <= w * b && (v * a) * p <= (w * b) * p) by (nonlinear_arith)
            requires
                v <= w,
                a <= b,
        ;
    }
}

/// Copa leaves slow start for good: it ends with the first event at which the window should
/// not grow.
pub proof fn law_copa_leaves_slow_start_for_good(s: CopaState, acks: Seq<AckInfo>)
    requires
        acks.len() > 0,
    ensures
        s.acknowledged(acks).slow_start <==> s.slow_start && s.acknowledged(acks).grow,
        s.acknowledged(acks).config == s.config,
{
    lemma_took_all_keeps(s.begun(acks[0].acked_at), acks);
}

/// Within slow start one feedback event grows Copa's window by exactly the bytes that were
/// acknowledged of packets in flight.
pub proof fn law_copa_slow_start_adds_acked_bytes(s: CopaState, acks: Seq<AckInfo>)
    requires
        acks.len() > 0,
        s.acknowledged(acks).slow_start,
    ensures
        s.acknowledged(acks).cwnd == saturated(
            s.cwnd as nat + s.acknowledged(acks).ack.newly_acked_bytes as nat,
        ),
        s.acknowledged(acks).window() >= s.window(),
{
    lemma_took_all_keeps(s.begun(acks[0].acked_at), acks);
}

/// An acknowledgement of a packet that is not in flight changes nothing.
pub proof fn law_copa_ignores_unknown_acks(s: CopaState, ack: AckInfo)
    requires
        !s.sent.contains_key(ack.seq),
    ensures
        s.took(ack) == s,
{
}

/// Whether the acknowledgements cover a packet.
pub open spec fn covers(acks: Seq<AckInfo>, seq: u64) -> bool {
    exists|i: int| 0 <= i < acks.len() && (#[trigger] acks[i]).seq == seq
}

/// The acknowledgements without those of a packet that an earlier one covers.
pub open spec fn first_of_each(acks: Seq<AckInfo>) -> Seq<AckInfo>
    decreases acks.len(),
{
    if acks.len() == 0 {
        acks
    } else {
        let rest = first_of_each(acks.drop_last());
        if covers(acks.drop_last(), acks.last().seq) {
            rest
        } else {
            rest.push(acks.last())
        }
    }
}

/// A packet that was acknowledged is in flight no more.
proof fn lemma_took_all_settles(s: CopaState, acks: Seq<AckInfo>, seq: u64)
    requires
        covers(acks, seq),
    ensures
        !s.took_all(acks).sent.contains_key(seq),
    decreases acks.len(),
{
    let rest = acks.drop_last();
    let i: int = choose|i: int| 0 <= i < acks.len() && (#[trigger] acks[i]).seq == seq;
    if i < rest.len() {
        assert(rest[i].seq == seq);
        lemma_took_all_settles(s, rest, seq);
    }
}

/// Taking a batch in gives the same state with and without its repeats.
proof fn lemma_took_all_repeats(s: CopaState, acks: Seq<AckInfo>)
    ensures
        s.took_all(first_of_each(acks)) == s.took_all(acks),
        acks.len() > 0 ==> first_of_each(acks).len() > 0 && first_of_each(acks)[0] == acks[0],
    decreases acks.len(),
{
    if acks.len() > 0 {
        let rest = acks.drop_last();
        lemma_took_all_repeats(s, rest);
        if covers(rest, acks.last().seq) {
            lemma_took_all_settles(s, rest, acks.last().seq);
            law_copa_ignores_unknown_acks(s.took_all(rest), acks.last());
        } else {
            let kept = first_of_each(rest);
            assert(kept.push(acks.last()).drop_last() =~= kept);
        }
    }
}

/// A packet is credited at most once per batch: from equal states, a batch of acknowledgements
/// and the same batch without its repeats lead to equal states, rates and windows. An empty
/// batch changes nothing.
pub proof fn law_copa_credits_each_packet_once(
    pre_a: Copa,
    pre_b: Copa,
    a: Copa,
    b: Copa,
    acks: Seq<AckInfo>,
)
    requires
        pre_a@ == pre_b@,
        a.after_acks(&pre_a, acks),
        b.after_acks(&pre_b, first_of_each(acks)),
    ensures
        pre_a.acks_ok(acks) <==> pre_b.acks_ok(first_of_each(acks)),
        a@ == b@,
        a.window() == b.window(),
        a.round_trip() == b.round_trip(),
        a.throughput() == b.throughput(),
        a.send_rate() == b.send_rate(),
        a@.target_rate == b@.target_rate,
        a@.slow_start == b@.slow_start,
        acks.len() == 0 ==> a@ == pre_a@,
{
    if acks.len() > 0 {
        lemma_took_all_repeats(pre_a@.begun(acks[0].acked_at), acks);
    }
}

/// Copa counts the link as contended exactly while a tenth of the bytes or more is lost.
pub proof fn law_copa_mode_follows_loss(s: CopaState)
    ensures
        s.mode_checked().mode is Competitive <==> at_most(
            signed(false, LOSS_RATE_THRESHOLD_BITS as nat),
            s.round.loss_rate,
        ),
{
}

/// The velocity of Copa is at least 1 and starts over whenever the window turns.
pub proof fn law_copa_velocity(s: CopaState)
    requires
        s.velocity.velocity >= 1,
    ensures
        s.sped().velocity.velocity >= 1,
        s.sped().velocity.direction != s.velocity.direction ==> s.sped().velocity.velocity == 1,
        s.moved().velocity.velocity >= 1,
        s.sped().velocity.velocity <= saturated(s.velocity.velocity as nat * 2),
{
}

/// After any sample the history-based window is at least the configured minimum and at least
/// what was acknowledged in the history.
pub proof fn law_rocc_keeps_the_minimum(s: RoccState, t: Tally)
    ensures
        s.next_cwnd(t) >= s.config.min_cwnd_packets * s.config.mss,
        s.next_cwnd(t) >= t.acked,
{
    assert(s.config.alpha_packets * s.config.mss >= 0) by (nonlinear_arith);
    assert(s.config.min_cwnd_packets * s.config.mss >= 0) by (nonlinear_arith);
}

/// A sample sets the history-based window to what the history calls for, never below the
/// configured minimum.
pub proof fn law_rocc_window_after_a_sample(s: RoccState, acked: u64, lost: u64, now: Instant)
    requires
        s.sample_ok(acked, lost, now),
    ensures
        ({
            let entered = s.recorded(acked, lost, now);
            &&& s.sampled(acked, lost, now).cwnd == entered.next_cwnd(entered.total(now))
            &&& s.sampled(acked, lost, now).cwnd >= s.config.min_cwnd_packets * s.config.mss
        }),
{
    let entered = s.recorded(acked, lost, now);
    law_rocc_keeps_the_minimum(entered, entered.total(now));
}

/// Losses alone are no congestion: as long as the round-trip time has not grown beyond one and
/// a half times its minimum, they do not count.
pub proof fn law_rocc_tolerates_random_loss(s: RoccState, t: Tally)
    requires
        rtt_micros(s.current_rtt) <= s.min_us() * 3 / 2,
    ensures
        !s.congested(t),
{
}

/// While application-limited without congestion the history-based window does not shrink.
pub proof fn law_rocc_holds_when_limited(s: RoccState, t: Tally)
    requires
        t.limited,
        !s.congested(t),
    ensures
        s.next_cwnd(t) >= s.cwnd,
{
}

/// The least value is a sample's, and no sample is less.
pub proof fn lemma_least(samples: Seq<(u64, u64)>)
    requires
        samples.len() > 0,
    ensures
        exists|i: int| 0 <= i < samples.len() && (#[trigger] samples[i]).1 == least(samples),
        forall|i: int| 0 <= i < samples.len() ==> least(samples) <= (#[trigger] samples[i]).1,
    decreases samples.len(),
{
    if samples.len() > 1 {
        let rest = samples.drop_last();
        lemma_least(rest);
        let i: int = choose|i: int| 0 <= i < rest.len() && (#[trigger] rest[i]).1 == least(rest);
        assert(samples[i] == rest[i]);
        assert(samples[samples.len() - 1] == samples.last());
        assert forall|j: int| 0 <= j < samples.len() implies least(samples) <= (
        #[trigger] samples[j]).1 by {
            if j < rest.len() {
                assert(rest[j] == samples[j]);
            }
        }
    } else {
        assert(samples[0].1 == least(samples));
    }
}

/// What is kept is a tail of the samples; what is not kept is too old.
pub proof fn lemma_since(samples: Seq<(u64, u64)>, cutoff: u64)
    ensures
        ({
            let n: int = samples.len() - since(samples, cutoff).len();
            &&& 0 <= n
            &&& since(samples, cutoff) == samples.skip(n)
            &&& forall|i: int| 0 <= i < n ==> (#[trigger] samples[i]).0 < cutoff
            &&& since(samples, cutoff).len() > 0 ==> since(samples, cutoff)[0].0 >= cutoff
        }),
    decreases samples.len(),
{
    if samples.len() > 0 && samples[0].0 < cutoff {
        let rest = samples.drop_first();
        lemma_since(rest, cutoff);
        let n: int = samples.len() - since(samples, cutoff).len();
        assert(samples.skip(n) =~= rest.skip(n - 1));
        assert forall|i: int| 0 <= i < n implies (#[trigger] samples[i]).0 < cutoff by {
            if i > 0 {
                assert(rest[i - 1] == samples[i]);
            }
        }
    } else {
        assert(samples.skip(0) =~= samples);
    }
}

/// With samples in order of time, the windowed minimum is the least of the samples in the
/// window: it is the value of one of them and no other is less.
pub proof fn law_minimum_of_the_window(s: MinMaxState, now_us: u64, sample_us: u64)
    requires
        forall|i: int, j: int|
            0 <= i <= j < s.samples.len() ==> (#[trigger] s.samples[i]).0 <= (
            #[trigger] s.samples[j]).0,
        forall|i: int| 0 <= i < s.samples.len() ==> (#[trigger] s.samples[i]).0 <= now_us,
    ensures
        ({
            let all = s.samples.push((now_us, sample_us));
            let cutoff: u64 = minus_floored(now_us, s.window_us as nat);
            let min = s.updated(now_us, sample_us).min;
            &&& exists|i: int|
                0 <= i < all.len() && (#[trigger] all[i]).0 >= cutoff && all[i].1 == min
            &&& forall|i: int|
                0 <= i < all.len() && (#[trigger] all[i]).0 >= cutoff ==> min <= all[i].1
        }),
{
    let all = s.samples.push((now_us, sample_us));
    let cutoff: u64 = minus_floored(now_us, s.window_us as nat);
    let kept = since(all, cutoff);
    lemma_since(all, cutoff);
    let n: int = all.len() - kept.len();
    if kept.len() == 0 {
        assert(all[all.len() - 1].0 < cutoff);
    }
    lemma_least(kept);
    let k: int = choose|k: int| 0 <= k < kept.len() && (#[trigger] kept[k]).1 == least(kept);
    assert(kept[k] == all[n + k]);
    assert(kept[0] == all[n]);
    assert(all[n].0 <= all[n + k].0) by {
        if n + k < s.samples.len() {
            assert(all[n] == s.samples[n] && all[n + k] == s.samples[n + k]);
        } else if n < s.samples.len() {
            assert(all[n] == s.samples[n]);
        }
    }
    assert forall|i: int| 0 <= i < all.len() && (#[trigger] all[i]).0 >= cutoff implies least(kept)
        <= all[i].1 by {
        assert(kept[i - n] == all[i]);
    }
}

impl Reproducible for NoopCc {
    open spec fn alike(&self, other: &Self) -> bool {
        *self == *other
    }

    proof fn law_alike_itself(a: Self) {
    }

    proof fn law_alike_reports(a: Self, b: Self, bytes_in_flight: u64) {
    }

    proof fn law_alike_after_send(
        pre_a: Self,
        pre_b: Self,
        a: Self,
        b: Self,
        packet: SentPacket,
    ) {
    }

    proof fn law_alike_after_acks(
        pre_a: Self,
        pre_b: Self,
        a: Self,
        b: Self,
        acks: Seq<AckInfo>,
    ) {
    }

    proof fn law_alike_after_loss(
        pre_a: Self,
        pre_b: Self,
        a: Self,
        b: Self,
        packet: LostPacket,
    ) {
    }
}

impl Reproducible for Copa {
    open spec fn alike(&self, other: &Self) -> bool {
        self@ == other@
    }

    proof fn law_alike_itself(a: Self) {
    }

    proof fn law_alike_reports(a: Self, b: Self, bytes_in_flight: u64) {
    }

    proof fn law_alike_after_send(
        pre_a: Self,
        pre_b: Self,
        a: Self,
        b: Self,
        packet: SentPacket,
    ) {
    }

    proof fn law_alike_after_acks(
        pre_a: Self,
        pre_b: Self,
        a: Self,
        b: Self,
        acks: Seq<AckInfo>,
    ) {
    }

    proof fn law_alike_after_loss(
        pre_a: Self,
        pre_b: Self,
        a: Self,
        b: Self,
        packet: LostPacket,
    ) {
    }
}

impl Reproducible for Rocc {
    open spec fn alike(&self, other: &Self) -> bool {
        self@ == other@
    }

    proof fn law_alike_itself(a: Self) {
    }

    proof fn law_alike_reports(a: Self, b: Self, bytes_in_flight: u64) {
    }

    proof fn law_alike_after_send(
        pre_a: Self,
        pre_b: Self,
        a: Self,
        b: Self,
        packet: SentPacket,
    ) {
    }

    proof fn law_alike_after_acks(
        pre_a: Self,
        pre_b: Self,
        a: Self,
        b: Self,
        acks: Seq<AckInfo>,
    ) {
    }

    proof fn law_alike_after_loss(
        pre_a: Self,
        pre_b: Self,
        a: Self,
        b: Self,
        packet: LostPacket,
    ) {
    }
}

} // verus!
