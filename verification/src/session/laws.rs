//! Laws of a session as a whole.

use bytes::Bytes;
use vstd::prelude::*;

use super::{bytes_after, flights_after, Vidaptive};
use crate::cc::CongestionController;
use crate::encoder_ctrl::alpha::target_bitrate;
use crate::encoder_ctrl::laws::law_alpha_stays_in_range;
use crate::metrics::frame_timing::recent_samples;
use crate::metrics::laws::law_eviction_keeps_later_bitrates;
use crate::metrics::video_bitrate::{bitrate, in_window, ByteSample};
use crate::time::{elapsed, Instant, EARLIEST, LATEST};
use crate::transport::filler::dummy::zeros;
use crate::transport::filler::{BacklogFiller, DummyFiller};
use crate::transport::laws::{
    carried, flight_bytes, head_timed, law_enqueue_appends_payloads, law_enqueue_times_the_head,
    law_send_is_accounted, law_send_takes_the_oldest, law_send_times_the_next_head,
    law_settle_is_accounted, lemma_flight_removed, waiting,
};
use crate::transport::pacer::{filler_meta, head_since, next_send};
use crate::types::{
    content, AckInfo, CaptureAdvice, EncodedFrame, LostPacket, PacketMeta, TransmitAction,
    VidaptiveInput,
};

verus! {

impl<CC, F> Vidaptive<CC, F> where CC: CongestionController, F: BacklogFiller {
    /// The advice to the encoder agrees with the rest of the session: no target while paused,
    /// the cached target and the current α otherwise, and α in its range.
    pub open spec fn coherent(self) -> bool {
        &&& self.encoder.pause == self.safeguards.paused
        &&& self.encoder.pause ==> self.encoder.target_bitrate_bps == 0
        &&& self.encoder.pause ==> self.cached_target_bitrate_bps == 0
        &&& !self.encoder.pause ==> self.encoder.target_bitrate_bps
            == self.cached_target_bitrate_bps
        &&& self.encoder.alpha == self.alpha.alpha
        &&& self.alpha.sound()
    }
}

/// Bringing the encoder state up to date makes the advice agree with the session, whatever it
/// was before, as long as the cached target was dropped on pausing.
proof fn lemma_refresh_is_coherent<CC: CongestionController, F: BacklogFiller>(
    s: Vidaptive<CC, F>,
    now: Instant,
)
    requires
        s.alpha.sound(),
        s.encoder.pause ==> s.cached_target_bitrate_bps == 0,
    ensures
        s.refreshed(now).coherent(),
{
    law_alpha_stays_in_range(s.alpha, s.samples.samples@, s.cc.throughput(), false);
}

/// The encoder is paused exactly while the oldest packet has waited beyond τ. Its target is 0
/// while paused, and a drained queue ends the pause.
pub proof fn law_pause_follows_the_queue<CC: CongestionController, F: BacklogFiller>(
    s: Vidaptive<CC, F>,
    now: Instant,
)
    ensures
        s.refreshed(now).encoder.pause <==> s.pacer.queue@.len() > 0 && elapsed(
            now,
            s.pacer.queue@[0].queued_at,
        ) as u128 > s.safeguards.tau_pause.nanos,
        s.refreshed(now).encoder.pause ==> s.refreshed(now).encoder.target_bitrate_bps == 0,
        s.pacer.queue@.len() == 0 ==> !s.refreshed(now).encoder.pause,
{
}

/// Every event leaves the advice in agreement with the session.
pub proof fn law_events_keep_the_advice_coherent<CC: CongestionController, F: BacklogFiller>(
    pre: Vidaptive<CC, F>,
    post: Vidaptive<CC, F>,
    input: VidaptiveInput,
    now: Instant,
)
    requires
        pre.coherent(),
        post.input_taken_from(pre, input, now),
    ensures
        post.coherent(),
{
    match input {
        VidaptiveInput::PacketsEnqueued(frame) => {
            lemma_refresh_is_coherent(
                Vidaptive { frame_targets: post.frame_targets, pacer: post.pacer, ..pre },
                now,
            );
        },
        VidaptiveInput::Ack(ack) => {
            law_acks_keep_the_advice_coherent(pre, post, seq![ack], now);
        },
        VidaptiveInput::Loss(loss) => {
            lemma_refresh_is_coherent(
                Vidaptive {
                    cc: post.cc,
                    pacer: post.pacer,
                    frames_in_flight: post.frames_in_flight,
                    frame_targets: post.frame_targets,
                    ..pre
                },
                now,
            );
        },
        VidaptiveInput::Tick => {
            let evicted = Vidaptive {
                samples: post.samples,
                video_bitrate: post.video_bitrate,
                ..pre
            };
            if pre.optimizer_due(now) {
                law_alpha_stays_in_range(
                    evicted.alpha,
                    evicted.samples.samples@,
                    evicted.cc.throughput(),
                    evicted.safeguards.paused,
                );
                lemma_refresh_is_coherent(evicted.optimized(now), now);
            } else {
                lemma_refresh_is_coherent(evicted, now);
            }
        },
    }
}

/// A feedback event leaves the advice in agreement with the session.
pub proof fn law_acks_keep_the_advice_coherent<CC: CongestionController, F: BacklogFiller>(
    pre: Vidaptive<CC, F>,
    post: Vidaptive<CC, F>,
    acks: Seq<AckInfo>,
    now: Instant,
)
    requires
        pre.coherent(),
        post.acked_from(pre, acks, now),
    ensures
        post.coherent(),
{
    lemma_refresh_is_coherent(
        Vidaptive {
            cc: post.cc,
            pacer: post.pacer,
            frames_in_flight: post.frames_in_flight,
            frame_targets: post.frame_targets,
            ..pre
        },
        now,
    );
}

/// Neither transmitting nor capture advice touches the advice to the encoder.
pub proof fn law_polling_keeps_the_advice<CC: CongestionController, F: BacklogFiller>(
    pre: Vidaptive<CC, F>,
    post: Vidaptive<CC, F>,
    captured_at: Instant,
    now: Instant,
    action: Option<TransmitAction>,
    advice: CaptureAdvice,
)
    requires
        post.transmitted_from(pre, now, action) || post.advised_from(
            pre,
            captured_at,
            now,
            advice,
        ),
    ensures
        post.encoder == pre.encoder,
        pre.coherent() ==> post.coherent(),
{
}

/// The target bitrate and α change only with a run of the optimizer: on a tick that completes
/// its window, or when a pause ends. Otherwise a change of the target is the start of a pause.
pub proof fn law_target_changes_only_with_the_optimizer<
    CC: CongestionController,
    F: BacklogFiller,
>(
    pre: Vidaptive<CC, F>,
    post: Vidaptive<CC, F>,
    input: VidaptiveInput,
    now: Instant,
)
    requires
        pre.coherent(),
        post.input_taken_from(pre, input, now),
        !(input is Tick && pre.optimizer_due(now)),
        !(pre.encoder.pause && !post.encoder.pause),
    ensures
        post.encoder.alpha == pre.encoder.alpha,
        post.last_optimizer_tick == pre.last_optimizer_tick,
        post.encoder.target_bitrate_bps == (if post.encoder.pause {
            0
        } else {
            pre.encoder.target_bitrate_bps
        }),
{
}

/// Once the optimizer has run, it runs again on a tick only after its whole window.
pub proof fn law_optimizer_waits_for_its_window<CC: CongestionController, F: BacklogFiller>(
    s: Vidaptive<CC, F>,
    ran_at: Instant,
    now: Instant,
)
    requires
        elapsed(now, ran_at) < s.config.optimizer_window.nanos,
    ensures
        !s.optimized(ran_at).optimizer_due(now),
{
}

/// The payload that an action puts on the wire.
pub open spec fn on_the_wire(action: Option<TransmitAction>) -> Option<Bytes> {
    match action {
        Some(TransmitAction::SendPacket { payload }) => Some(payload),
        Some(TransmitAction::SendFiller { payload }) => Some(payload),
        _ => None,
    }
}

/// Nothing is sent before the pacing deadline or beyond the congestion window.
pub proof fn law_sends_respect_both_gates<CC: CongestionController, F: BacklogFiller>(
    pre: Vidaptive<CC, F>,
    post: Vidaptive<CC, F>,
    now: Instant,
    action: Option<TransmitAction>,
)
    requires
        post.transmitted_from(pre, now, action),
        on_the_wire(action) is Some,
    ensures
        pre.pacer.next_send_at matches Some(deadline) ==> now@ >= deadline@,
        pre.cc.admits(pre.pacer.bytes_in_flight),
{
}

/// A wait is for the pacing deadline, which is still ahead, and changes nothing.
pub proof fn law_wait_is_for_the_deadline<CC: CongestionController, F: BacklogFiller>(
    pre: Vidaptive<CC, F>,
    post: Vidaptive<CC, F>,
    now: Instant,
    action: Option<TransmitAction>,
)
    requires
        post.transmitted_from(pre, now, action),
    ensures
        action matches Some(TransmitAction::WaitUntil(t)) ==> {
            &&& pre.pacer.next_send_at == Some(t)
            &&& t@ > now@
            &&& post == pre
        },
        action == Some(TransmitAction::Idle) ==> post == pre,
{
}

/// A wait repeats: until its deadline every further poll answers the same wait and changes
/// nothing, and a poll at the deadline or later does not wait. Poll `i` takes `states[i]` to
/// `states[i + 1]`, at `times[i]` and with `actions[i]`.
pub proof fn law_wait_repeats_until_the_deadline<CC: CongestionController, F: BacklogFiller>(
    pre: Vidaptive<CC, F>,
    now: Instant,
    deadline: Instant,
    states: Seq<Vidaptive<CC, F>>,
    times: Seq<Instant>,
    actions: Seq<Option<TransmitAction>>,
)
    requires
        states.len() == times.len() + 1,
        actions.len() == times.len(),
        states[0].transmitted_from(pre, now, Some(TransmitAction::WaitUntil(deadline))),
        forall|i: int|
            0 <= i < times.len() ==> #[trigger] states[i + 1].transmitted_from(
                states[i],
                times[i],
                actions[i],
            ),
        forall|i: int| 0 <= i < times.len() - 1 ==> (#[trigger] times[i])@ < deadline@,
    ensures
        deadline@ > now@,
        states[0] == pre,
        forall|i: int|
            0 <= i < times.len() && (#[trigger] times[i])@ < deadline@ ==> actions[i] == Some(
                TransmitAction::WaitUntil(deadline),
            ) && states[i + 1] == pre,
        times.len() > 0 && times.last()@ >= deadline@ ==> !(actions.last() matches Some(
            TransmitAction::WaitUntil(_),
        )),
    decreases times.len(),
{
    if times.len() > 0 {
        let n: int = times.len() - 1;
        law_wait_repeats_until_the_deadline(
            pre,
            now,
            deadline,
            states.drop_last(),
            times.drop_last(),
            actions.drop_last(),
        );
        assert(states[n] == pre) by {
            if n > 0 {
                assert(times.drop_last()[n - 1]@ < deadline@);
                assert(states.drop_last()[n] == states[n]);
            }
        }
        assert(states[n + 1].transmitted_from(states[n], times[n], actions[n]));
        assert forall|i: int| 0 <= i < times.len() && (
        #[trigger] times[i])@ < deadline@ implies actions[i] == Some(
            TransmitAction::WaitUntil(deadline),
        ) && states[i + 1] == pre by {
            if i < n {
                assert(times.drop_last()[i]@ < deadline@);
                assert(states.drop_last()[i + 1] == states[i + 1]);
            }
        }
    }
}

/// A full congestion window sends nothing and changes nothing, even with media waiting.
pub proof fn law_full_window_idles<CC: CongestionController, F: BacklogFiller>(
    pre: Vidaptive<CC, F>,
    post: Vidaptive<CC, F>,
    now: Instant,
    action: Option<TransmitAction>,
)
    requires
        post.transmitted_from(pre, now, action),
        pre.pacer.ready(now),
        !pre.cc.admits(pre.pacer.bytes_in_flight),
    ensures
        action == Some(TransmitAction::Idle),
        post == pre,
{
}

/// Media that waits is sent as soon as both gates are open, and before any filler.
pub proof fn law_media_goes_first<CC: CongestionController, F: BacklogFiller>(
    pre: Vidaptive<CC, F>,
    post: Vidaptive<CC, F>,
    now: Instant,
    action: Option<TransmitAction>,
)
    requires
        post.transmitted_from(pre, now, action),
        pre.pacer.queue@.len() > 0,
        pre.may_send(now),
    ensures
        action == Some(TransmitAction::SendPacket { payload: pre.pacer.queue@[0].payload }),
{
}

/// Filler is sent only into an empty queue, and never while the encoder is paused, the video
/// send rate has reached its cap, or the next frame is about to come. It is no larger than the
/// filler's limit.
pub proof fn law_filler_only_fills_gaps<CC: CongestionController, F: BacklogFiller>(
    pre: Vidaptive<CC, F>,
    post: Vidaptive<CC, F>,
    now: Instant,
    payload: Bytes,
)
    requires
        post.transmitted_from(pre, now, Some(TransmitAction::SendFiller { payload })),
    ensures
        pre.pacer.queue@.len() == 0,
        pre.may_send(now),
        !pre.encoder.pause,
        pre.cc.send_rate() > 0,
        bitrate(pre.recent_video_bytes(now), pre.video_bitrate.window)
            < pre.config.max_video_bitrate,
        pre.next_capture_at matches Some(next) ==> {
            let start: int = next@ - pre.config.filler_withhold_before_frame.nanos;
            start >= EARLIEST ==> now@ < start || now@ >= next@
        },
        content(payload).len() <= pre.filler.size_limit(),
{
}

/// Between two sends at least the time of the first one's bytes at the pacing rate passes.
pub proof fn law_sends_are_spaced<CC: CongestionController, F: BacklogFiller>(
    pre: Vidaptive<CC, F>,
    sent: Vidaptive<CC, F>,
    sent_at: Instant,
    first: Option<TransmitAction>,
    later: Vidaptive<CC, F>,
    post: Vidaptive<CC, F>,
    now: Instant,
    second: Option<TransmitAction>,
)
    requires
        sent.transmitted_from(pre, sent_at, first),
        on_the_wire(first) is Some,
        later.pacer.next_send_at == sent.pacer.next_send_at,
        post.transmitted_from(later, now, second),
        on_the_wire(second) is Some,
    ensures
        now@ >= next_send(sent_at, content(on_the_wire(first)->0).len(), sent.cc.send_rate()),
{
}

/// Events leave the pacing deadline, the held capture and the capture schedule alone.
pub proof fn law_events_keep_the_schedule<CC: CongestionController, F: BacklogFiller>(
    pre: Vidaptive<CC, F>,
    post: Vidaptive<CC, F>,
    input: VidaptiveInput,
    now: Instant,
)
    requires
        post.input_taken_from(pre, input, now),
    ensures
        post.pacer.next_send_at == pre.pacer.next_send_at,
        post.held_capture_at == pre.held_capture_at,
        post.next_capture_at == pre.next_capture_at,
        post.config == pre.config,
        post.filler == pre.filler,
{
}

/// A capture held in a pause is encoded on resume while it is at most half a frame interval
/// old, and skipped from then on. Either way it is held no longer.
pub proof fn law_held_capture_is_encoded_while_fresh<
    CC: CongestionController,
    F: BacklogFiller,
>(
    paused: Vidaptive<CC, F>,
    holding: Vidaptive<CC, F>,
    captured_at: Instant,
    held_at: Instant,
    hold: CaptureAdvice,
    resumed: Vidaptive<CC, F>,
    post: Vidaptive<CC, F>,
    next_captured_at: Instant,
    now: Instant,
    advice: CaptureAdvice,
)
    requires
        paused.encoder.pause,
        holding.advised_from(paused, captured_at, held_at, hold),
        resumed.held_capture_at == holding.held_capture_at,
        resumed.config == holding.config,
        !resumed.encoder.pause,
        post.advised_from(resumed, next_captured_at, now, advice),
    ensures
        hold == CaptureAdvice::Hold,
        elapsed(now, captured_at) <= paused.config.frame_interval.nanos / 2 ==> advice == (
        CaptureAdvice::EncodeHeld { captured_at }),
        elapsed(now, captured_at) > paused.config.frame_interval.nanos / 2 ==> advice == (
        CaptureAdvice::SkipHeld { captured_at }),
        post.held_capture_at is None,
{
}

/// Enqueuing appends the payloads of a frame to those that wait.
pub proof fn law_enqueue_keeps_payloads<CC: CongestionController, F: BacklogFiller>(
    pre: Vidaptive<CC, F>,
    post: Vidaptive<CC, F>,
    frame: EncodedFrame,
    now: Instant,
)
    requires
        post.enqueued_from(pre, frame, now),
    ensures
        waiting(post.pacer.queue@) == waiting(pre.pacer.queue@) + carried(frame.packets@),
        head_timed(pre.pacer.queue@) ==> head_timed(post.pacer.queue@),
{
    law_enqueue_appends_payloads(pre.pacer.queue@, frame.id, frame.packets@, now);
    if head_timed(pre.pacer.queue@) {
        law_enqueue_times_the_head(pre.pacer.queue@, frame.id, frame.packets@, now);
    }
}

/// What is sent as media is the payload that waited longest, and it waits no longer. No other
/// action takes anything from the queue.
pub proof fn law_transmit_keeps_payloads<CC: CongestionController, F: BacklogFiller>(
    pre: Vidaptive<CC, F>,
    post: Vidaptive<CC, F>,
    now: Instant,
    action: Option<TransmitAction>,
)
    requires
        post.transmitted_from(pre, now, action),
    ensures
        waiting(pre.pacer.queue@) == (match action {
            Some(TransmitAction::SendPacket { payload }) => seq![content(payload)],
            _ => Seq::empty(),
        }) + waiting(post.pacer.queue@),
        head_timed(pre.pacer.queue@) ==> head_timed(post.pacer.queue@),
{
    if action matches Some(TransmitAction::SendPacket { payload }) {
        law_send_takes_the_oldest(pre.pacer, post.pacer, now);
        if head_timed(pre.pacer.queue@) {
            law_send_times_the_next_head(pre.pacer, post.pacer, now);
        }
    } else {
        assert(Seq::<Seq<u8>>::empty() + waiting(post.pacer.queue@) =~= waiting(
            post.pacer.queue@,
        ));
    }
}

/// Feedback and ticks take nothing from the queue.
pub proof fn law_other_events_keep_payloads<CC: CongestionController, F: BacklogFiller>(
    pre: Vidaptive<CC, F>,
    post: Vidaptive<CC, F>,
    input: VidaptiveInput,
    now: Instant,
)
    requires
        post.input_taken_from(pre, input, now),
        !(input is PacketsEnqueued),
    ensures
        post.pacer.queue == pre.pacer.queue,
{
}

/// The service time of a frame runs from when its first packet came to the head of the queue
/// until its last packet is sent.
pub proof fn law_service_time_spans_the_frame<CC: CongestionController, F: BacklogFiller>(
    pre: Vidaptive<CC, F>,
    post: Vidaptive<CC, F>,
    now: Instant,
    action: Option<TransmitAction>,
)
    requires
        post.transmitted_from(pre, now, action),
        pre.may_send(now),
        pre.pacer.queue@.len() > 0,
    ensures
        ({
            let head = pre.pacer.queue@[0];
            let started: Instant = if pre.frames_in_flight@.contains_key(head.frame_id) {
                pre.frames_in_flight@[head.frame_id].head_at
            } else {
                head_since(head)
            };
            if head.fin {
                &&& post.samples.samples@.len() > 0
                &&& post.samples.samples@.last().service_time.nanos == elapsed(
                    now,
                    started,
                ) as u128
                &&& post.samples.samples@.last().at == now
                &&& !post.frames_in_flight@.contains_key(head.frame_id)
            } else {
                &&& post.samples.samples@ == pre.samples.samples@
                &&& post.frames_in_flight@.contains_key(head.frame_id)
                &&& post.frames_in_flight@[head.frame_id].head_at == started
            }
        }),
{
}

/// Only packets that count as video add to the video send rate, each with its own bytes;
/// parity and filler do not.
pub proof fn law_only_video_counts<CC: CongestionController, F: BacklogFiller>(
    pre: Vidaptive<CC, F>,
    post: Vidaptive<CC, F>,
    now: Instant,
    action: Option<TransmitAction>,
)
    requires
        post.transmitted_from(pre, now, action),
    ensures
        post.recent_video_bytes(now) == pre.recent_video_bytes(now) + (if action matches Some(
            TransmitAction::SendPacket { payload },
        ) && pre.pacer.queue@[0].counts_as_video {
            pre.head_meta().len as nat
        } else {
            0
        }),
{
    if action is Some && action->0 is SendPacket && pre.pacer.queue@[0].counts_as_video {
        let window = pre.video_bitrate.window;
        let kept = pre.video_bitrate.samples@.filter(
            |s: ByteSample| in_window(s, now, window),
        );
        let added = ByteSample { at: now, bytes: pre.head_meta().len as u64 };
        law_eviction_keeps_later_bitrates(pre.video_bitrate.samples@, now, now, window);
        assert(kept.push(added).drop_last() =~= kept);
    }
}

/// Whatever is sent, the bytes in flight stay those of the packets in flight.
pub proof fn law_transmit_is_accounted<CC: CongestionController, F: BacklogFiller>(
    pre: Vidaptive<CC, F>,
    post: Vidaptive<CC, F>,
    now: Instant,
    action: Option<TransmitAction>,
)
    requires
        pre.pacer.accounted(),
        post.transmitted_from(pre, now, action),
        on_the_wire(action) matches Some(payload) ==> pre.pacer.bytes_in_flight + content(
            payload,
        ).len() <= u64::MAX,
    ensures
        post.pacer.accounted(),
        on_the_wire(action) matches Some(payload) ==> {
            &&& post.pacer.bytes_in_flight == pre.pacer.bytes_in_flight + content(payload).len()
            &&& !pre.pacer.in_flight@.contains_key(pre.pacer.next_seq)
            &&& post.pacer.in_flight@.contains_key(pre.pacer.next_seq)
        },
{
    match action {
        Some(TransmitAction::SendPacket { payload }) => {
            law_send_is_accounted(pre.pacer, post.pacer, pre.head_meta());
        },
        Some(TransmitAction::SendFiller { payload }) => {
            let seq = pre.pacer.next_seq;
            law_send_is_accounted(
                pre.pacer,
                post.pacer,
                filler_meta(seq, content(payload).len() as usize, now),
            );
        },
        _ => {},
    }
}

/// Whatever is acknowledged, the bytes in flight stay those of the packets in flight.
pub proof fn law_acks_are_accounted<CC: CongestionController, F: BacklogFiller>(
    pre: Vidaptive<CC, F>,
    post: Vidaptive<CC, F>,
    acks: Seq<AckInfo>,
    now: Instant,
)
    requires
        pre.pacer.accounted(),
        post.acked_from(pre, acks, now),
    ensures
        post.pacer.accounted(),
        post.pacer.bytes_in_flight <= pre.pacer.bytes_in_flight,
{
    lemma_acks_are_accounted(
        pre.pacer.bytes_in_flight,
        pre.pacer.in_flight@,
        pre.pacer.next_seq as nat,
        acks,
    );
    lemma_flights_shrink(pre.pacer.in_flight@, acks);
    assert forall|seq: u64| #[trigger] post.pacer.in_flight@.contains_key(seq) implies seq
        < post.pacer.next_seq && post.pacer.in_flight@[seq].seq == seq by {
        assert(pre.pacer.in_flight@.contains_key(seq));
    }
}

/// Acknowledgements only take packets out of flight.
pub proof fn lemma_flights_shrink(flights: Map<u64, PacketMeta>, acks: Seq<AckInfo>)
    ensures
        flights_after(flights, acks).submap_of(flights),
    decreases acks.len(),
{
    if acks.len() > 0 {
        lemma_flights_shrink(flights, acks.drop_last());
    }
}

/// Acknowledgements take out exactly the bytes of the packets they cover.
proof fn lemma_acks_are_accounted(
    bytes: u64,
    flights: Map<u64, PacketMeta>,
    below: nat,
    acks: Seq<AckInfo>,
)
    requires
        bytes == flight_bytes(flights, below),
        below <= u64::MAX,
        forall|seq: u64| #[trigger] flights.contains_key(seq) ==> seq < below,
    ensures
        bytes_after(bytes, flights, acks) == flight_bytes(flights_after(flights, acks), below),
        bytes_after(bytes, flights, acks) <= bytes,
    decreases acks.len(),
{
    if acks.len() > 0 {
        let rest = acks.drop_last();
        lemma_acks_are_accounted(bytes, flights, below, rest);
        lemma_flights_shrink(flights, rest);
        let left = flights_after(flights, rest);
        let seq = acks.last().seq;
        lemma_flight_removed(left, seq, below);
        if left.contains_key(seq) {
            assert(flights.contains_key(seq));
        }
    }
}

/// Whatever is lost, the bytes in flight stay those of the packets in flight.
pub proof fn law_loss_is_accounted<CC: CongestionController, F: BacklogFiller>(
    pre: Vidaptive<CC, F>,
    post: Vidaptive<CC, F>,
    loss: LostPacket,
    now: Instant,
)
    requires
        pre.pacer.accounted(),
        post.lost_from(pre, loss, now),
    ensures
        post.pacer.accounted(),
        post.pacer.bytes_in_flight <= pre.pacer.bytes_in_flight,
{
    law_settle_is_accounted(pre.pacer, post.pacer, loss.seq);
}

/// An acknowledged packet is in flight no more, and one not acknowledged stays.
pub proof fn law_acks_settle_their_packets(
    flights: Map<u64, PacketMeta>,
    acks: Seq<AckInfo>,
    seq: u64,
)
    ensures
        flights_after(flights, acks).contains_key(seq) <==> flights.contains_key(seq) && forall|
            i: int,
        |
            0 <= i < acks.len() ==> (#[trigger] acks[i]).seq != seq,
    decreases acks.len(),
{
    if acks.len() > 0 {
        let rest = acks.drop_last();
        law_acks_settle_their_packets(flights, rest, seq);
        assert(forall|i: int| 0 <= i < rest.len() ==> rest[i] == #[trigger] acks[i]);
        if flights_after(flights, rest).contains_key(seq) && acks.last().seq != seq {
            assert forall|i: int| 0 <= i < acks.len() implies (#[trigger] acks[i]).seq != seq by {
                if i < rest.len() {
                    assert(rest[i] == acks[i]);
                }
            }
        }
    }
}

/// With dummy padding no gap is left: whenever the queue is empty, both gates are open and
/// nothing suppresses filler, zeros of the filler's packet size are sent.
pub proof fn law_dummy_fills_every_gap<CC: CongestionController>(
    pre: Vidaptive<CC, DummyFiller>,
    post: Vidaptive<CC, DummyFiller>,
    now: Instant,
    action: Option<TransmitAction>,
)
    requires
        post.transmitted_from(pre, now, action),
        pre.pacer.queue@.len() == 0,
        pre.may_send(now),
        pre.wants_filler(now),
        pre.filler.sent_packets < u64::MAX,
    ensures
        action matches Some(TransmitAction::SendFiller { payload }) && content(payload) == zeros(
            pre.filler.packet_size as nat,
        ),
        post.filler.sent_packets == pre.filler.sent_packets + 1,
{
}

/// The bytes in flight never exceed the congestion window by more than the packet sent last.
pub proof fn law_flight_stays_near_the_window<CC: CongestionController, F: BacklogFiller>(
    pre: Vidaptive<CC, F>,
    post: Vidaptive<CC, F>,
    now: Instant,
    action: Option<TransmitAction>,
)
    requires
        post.transmitted_from(pre, now, action),
        on_the_wire(action) is Some,
        pre.cc.admits(pre.pacer.bytes_in_flight) ==> pre.pacer.bytes_in_flight < pre.cc.window(),
    ensures
        post.pacer.bytes_in_flight < pre.cc.window() + content(on_the_wire(action)->0).len(),
{
}

/// A tick that completes the optimizer's window, or ends a pause, updates α once and sets the
/// target to `α · CC-Rate · 8`.
pub proof fn law_target_is_alpha_times_rate<CC: CongestionController, F: BacklogFiller>(
    pre: Vidaptive<CC, F>,
    post: Vidaptive<CC, F>,
    now: Instant,
)
    requires
        pre.coherent(),
        post.ticked_from(pre, now),
        pre.optimizer_due(now) || pre.encoder.pause,
        !post.encoder.pause,
        pre.cc.throughput() > 0,
    ensures
        post.encoder.alpha == pre.alpha.next_alpha(
            recent_samples(pre.samples.samples@, now, pre.samples.window),
        ),
        post.encoder.target_bitrate_bps == target_bitrate(
            post.encoder.alpha,
            pre.cc.throughput(),
        ),
{
}

/// Leaving a pause runs the optimizer at once: the target is `α · CC-Rate · 8` for the current
/// rate, not the one from before the pause.
pub proof fn law_resume_recomputes_the_target<CC: CongestionController, F: BacklogFiller>(
    s: Vidaptive<CC, F>,
    now: Instant,
)
    requires
        s.encoder.pause,
        !s.backlogged(now),
        s.cc.throughput() > 0,
    ensures
        !s.refreshed(now).encoder.pause,
        s.refreshed(now).encoder.alpha == s.alpha.next_alpha(s.samples.samples@),
        s.refreshed(now).encoder.target_bitrate_bps == target_bitrate(
            s.alpha.next_alpha(s.samples.samples@),
            s.cc.throughput(),
        ),
        s.refreshed(now).last_optimizer_tick == now,
{
}

/// At any time that is not the end of the clock, the deadline after a send is within it.
pub proof fn law_deadline_is_within_the_clock(now: Instant, len: nat, rate: u64)
    requires
        now@ + u64::MAX <= LATEST,
    ensures
        now@ <= next_send(now, len, rate) <= LATEST,
{
}

} // verus!
