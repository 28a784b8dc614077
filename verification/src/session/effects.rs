//! Laws of one call: the fields of a session before it, and what they are after it.

use bytes::Bytes;
use vstd::prelude::*;

use super::laws::{law_acks_settle_their_packets, lemma_flights_shrink, on_the_wire};
use super::{flights_after, frames_after, Vidaptive};
use crate::cc::events::lemma_covers_last;
use crate::cc::laws::covers;
use crate::cc::CongestionController;
use crate::config::VidaptiveConfig;
use crate::encoder_ctrl::alpha::target_bitrate;
use crate::metrics::frame_timing::recent_samples;
use crate::metrics::video_bitrate::{bitrate, in_window, window_bytes, ByteSample};
use crate::time::{Instant, EARLIEST, LATEST};
use crate::transport::filler::{BacklogFiller, DummyFiller};
use crate::transport::laws::law_deadline_follows_the_rate;
use crate::transport::pacer::{all_enqueued, QueuedPacket};
use crate::types::{
    content, AckInfo, CaptureAdvice, EncodedFrame, FrameServiceSample, LostPacket, MediaPacket,
    PacketMeta, SentPacket, TransmitAction, VidaptiveInput,
};

verus! {

/// A new session has nothing queued, in flight or measured. Its encoder is offered eight bits
/// per byte of the CC-Rate at α = 1, the first optimizer window starts now, and both measuring
/// windows are the configured one.
pub proof fn law_new_session<CC: CongestionController, F: BacklogFiller>(
    s: Vidaptive<CC, F>,
    cc: CC,
    filler: F,
    config: VidaptiveConfig,
    now: Instant,
)
    requires
        s.created_from(cc, filler, config, now),
    ensures
        s.cc == cc,
        s.filler == filler,
        s.config == config,
        8 * cc.throughput() <= u64::MAX ==> s.encoder.target_bitrate_bps == 8 * cc.throughput(),
        8 * cc.throughput() > u64::MAX ==> s.encoder.target_bitrate_bps == u64::MAX,
        s.cached_target_bitrate_bps == s.encoder.target_bitrate_bps,
        !s.encoder.pause,
        s.encoder.alpha.bits == 0x3FF0_0000_0000_0000,
        s.alpha.alpha.bits == 0x3FF0_0000_0000_0000,
        s.alpha.target_service_time == config.target_service_time,
        s.alpha.latency_percentile == config.latency_percentile,
        s.alpha.alpha_ewma == config.alpha_ewma,
        !s.safeguards.paused,
        s.safeguards.tau_pause == config.tau_pause,
        s.samples.window == config.optimizer_window,
        s.video_bitrate.window == config.optimizer_window,
        s.samples.samples@.len() == 0,
        s.video_bitrate.samples@.len() == 0,
        s.pacer.queue@.len() == 0,
        s.pacer.in_flight@.dom() =~= Set::<u64>::empty(),
        s.pacer.bytes_in_flight == 0,
        s.pacer.next_seq == 1,
        s.pacer.next_send_at is None,
        s.next_capture_at is None,
        s.held_capture_at is None,
        s.last_optimizer_tick == now,
        s.frame_targets@.dom() =~= Set::<u64>::empty(),
        s.frames_in_flight@.dom() =~= Set::<u64>::empty(),
{
}

/// The packets that carry bytes, in order.
pub open spec fn with_bytes(packets: Seq<MediaPacket>) -> Seq<MediaPacket> {
    packets.filter(|p: MediaPacket| content(p.payload).len() > 0)
}

/// The queue entries of packets, one by one.
proof fn lemma_entries(frame_id: u64, packets: Seq<MediaPacket>, now: Instant)
    ensures
        all_enqueued(frame_id, packets, now).len() == with_bytes(packets).len(),
        forall|i: int|
            0 <= i < with_bytes(packets).len() ==> {
                let entry = #[trigger] all_enqueued(frame_id, packets, now)[i];
                let packet = with_bytes(packets)[i];
                &&& entry.frame_id == frame_id
                &&& entry.payload == packet.payload
                &&& entry.fin == packet.fin
                &&& entry.counts_as_video == packet.counts_as_video
                &&& entry.queued_at == now
                &&& entry.at_head_at is None
            },
    decreases packets.len(),
{
    reveal(Seq::filter);
    if packets.len() > 0 {
        lemma_entries(frame_id, packets.drop_last(), now);
    }
}

/// Enqueuing a frame remembers its target bitrate and the CC-Rate of the moment, and appends its
/// packets that carry bytes. What waited keeps its place, and nothing else of the transport side
/// changes.
pub proof fn law_enqueue_effects<CC: CongestionController, F: BacklogFiller>(
    pre: Vidaptive<CC, F>,
    post: Vidaptive<CC, F>,
    frame: EncodedFrame,
    now: Instant,
)
    requires
        post.enqueued_from(pre, frame, now),
    ensures
        post.frame_targets@.contains_key(frame.id),
        post.frame_targets@[frame.id].target_bitrate_bps == frame.target_bitrate,
        post.frame_targets@[frame.id].cc_rate_bytes_per_sec == pre.cc.throughput(),
        forall|id: u64|
            id != frame.id ==> {
                &&& (#[trigger] post.frame_targets@.contains_key(id))
                    == pre.frame_targets@.contains_key(id)
                &&& pre.frame_targets@.contains_key(id) ==> post.frame_targets@[id]
                    == pre.frame_targets@[id]
            },
        ({
            let old = pre.pacer.queue@;
            let new = post.pacer.queue@;
            let added = with_bytes(frame.packets@);
            &&& new.len() == old.len() + added.len()
            &&& forall|i: int|
                0 <= i < old.len() ==> {
                    &&& (#[trigger] new[i]).payload == old[i].payload
                    &&& new[i].frame_id == old[i].frame_id
                    &&& new[i].fin == old[i].fin
                    &&& new[i].counts_as_video == old[i].counts_as_video
                    &&& new[i].queued_at == old[i].queued_at
                    &&& old[i].at_head_at is Some ==> new[i].at_head_at == old[i].at_head_at
                }
            &&& forall|i: int|
                old.len() <= i < new.len() ==> {
                    let packet = added[i - old.len()];
                    &&& (#[trigger] new[i]).payload == packet.payload
                    &&& new[i].frame_id == frame.id
                    &&& new[i].fin == packet.fin
                    &&& new[i].counts_as_video == packet.counts_as_video
                    &&& new[i].queued_at == now
                }
            &&& new.len() > 0 && (old.len() == 0 || old[0].at_head_at is None)
                ==> new[0].at_head_at == Some(now)
        }),
        post.cc == pre.cc,
        post.filler == pre.filler,
        post.config == pre.config,
        post.pacer.in_flight@ == pre.pacer.in_flight@,
        post.pacer.next_seq == pre.pacer.next_seq,
        post.pacer.next_send_at == pre.pacer.next_send_at,
        post.pacer.bytes_in_flight == pre.pacer.bytes_in_flight,
        post.samples == pre.samples,
        post.video_bitrate == pre.video_bitrate,
        post.frames_in_flight == pre.frames_in_flight,
        post.held_capture_at == pre.held_capture_at,
        post.next_capture_at == pre.next_capture_at,
{
    lemma_entries(frame.id, frame.packets@, now);
    let old = pre.pacer.queue@;
    let entries = all_enqueued(frame.id, frame.packets@, now);
    let all = old + entries;
    assert forall|i: int| old.len() <= i < all.len() implies #[trigger] all[i] == entries[i
        - old.len()] by {}
}

/// A frame is remembered with the target bitrate it was encoded at and the CC-Rate of the
/// moment, which is the throughput of the congestion controller.
pub proof fn law_enqueue_remembers_the_rate<CC: CongestionController, F: BacklogFiller>(
    pre: Vidaptive<CC, F>,
    post: Vidaptive<CC, F>,
    frame: EncodedFrame,
    now: Instant,
)
    requires
        post.enqueued_from(pre, frame, now),
    ensures
        post.frame_targets@[frame.id].target_bitrate_bps == frame.target_bitrate,
        post.frame_targets@[frame.id].cc_rate_bytes_per_sec == pre.cc.throughput(),
{
}

/// How long the oldest packet of the queue has waited, in nanoseconds; 0 for an empty queue.
pub open spec fn oldest_wait(queue: Seq<QueuedPacket>, now: Instant) -> int {
    if queue.len() == 0 || now@ < queue[0].queued_at@ {
        0
    } else {
        now@ - queue[0].queued_at@
    }
}

/// Whether a session's advice follows from its queue: paused exactly while the oldest packet has
/// waited beyond τ, without a target while paused.
pub open spec fn advice_follows<CC: CongestionController, F: BacklogFiller>(
    s: Vidaptive<CC, F>,
    now: Instant,
) -> bool {
    &&& s.encoder.pause <==> s.pacer.queue@.len() > 0 && oldest_wait(s.pacer.queue@, now)
        > s.safeguards.tau_pause.nanos
    &&& s.encoder.pause ==> s.encoder.target_bitrate_bps == 0
    &&& !s.encoder.pause ==> s.encoder.target_bitrate_bps == s.cached_target_bitrate_bps
    &&& s.encoder.alpha == s.alpha.alpha
    &&& s.safeguards.paused == s.encoder.pause
}

/// Every event brings the advice to the encoder up to date with the queue.
pub proof fn law_events_refresh_the_advice<CC: CongestionController, F: BacklogFiller>(
    pre: Vidaptive<CC, F>,
    post: Vidaptive<CC, F>,
    input: VidaptiveInput,
    now: Instant,
)
    requires
        post.input_taken_from(pre, input, now),
        oldest_wait(post.pacer.queue@, now) <= u128::MAX,
    ensures
        advice_follows(post, now),
        post.safeguards.tau_pause == pre.safeguards.tau_pause,
{
}

/// A batch of acknowledgements brings the advice to the encoder up to date with the queue.
pub proof fn law_acks_refresh_the_advice<CC: CongestionController, F: BacklogFiller>(
    pre: Vidaptive<CC, F>,
    post: Vidaptive<CC, F>,
    acks: Seq<AckInfo>,
    now: Instant,
)
    requires
        post.acked_from(pre, acks, now),
        oldest_wait(post.pacer.queue@, now) <= u128::MAX,
    ensures
        advice_follows(post, now),
        post.safeguards.tau_pause == pre.safeguards.tau_pause,
{
}

/// The optimizer runs on a tick once its window is over since the last run, and when a pause
/// ends. A run updates α from the samples and sets the target to `α · CC-Rate · 8`, without a
/// rate to none. Otherwise α and the target stay, but for the start of a pause.
pub proof fn law_optimizer_runs_when_due<CC: CongestionController, F: BacklogFiller>(
    pre: Vidaptive<CC, F>,
    post: Vidaptive<CC, F>,
    input: VidaptiveInput,
    now: Instant,
)
    requires
        pre.coherent(),
        post.input_taken_from(pre, input, now),
    ensures
        ({
            let window_over = if now@ >= pre.last_optimizer_tick@ {
                now@ - pre.last_optimizer_tick@ >= pre.config.optimizer_window.nanos
            } else {
                pre.config.optimizer_window.nanos == 0
            };
            let due = input is Tick && window_over;
            let resumed = pre.encoder.pause && !post.encoder.pause;
            let rate = post.cc.throughput();
            &&& due || resumed ==> post.last_optimizer_tick == now
            &&& (due && !pre.encoder.pause || resumed) && rate > 0 ==> post.alpha.alpha
                == pre.alpha.next_alpha(post.samples.samples@)
            &&& (due || resumed) && !post.encoder.pause && rate > 0
                ==> post.encoder.target_bitrate_bps == target_bitrate(post.alpha.alpha, rate)
            &&& (due || resumed) && rate == 0 ==> post.alpha == pre.alpha
                && post.encoder.target_bitrate_bps == 0
            &&& due && pre.encoder.pause && post.encoder.pause ==> post.alpha == pre.alpha
            &&& !due && !resumed ==> {
                &&& post.last_optimizer_tick == pre.last_optimizer_tick
                &&& post.alpha == pre.alpha
                &&& !post.encoder.pause ==> post.encoder.target_bitrate_bps
                    == pre.encoder.target_bitrate_bps
            }
        }),
{
}

/// Whether nothing suppresses filler: the encoder runs, there is a rate, the video sent in the
/// window is below the cap, and the next frame is not about to come.
pub open spec fn filler_is_free<CC: CongestionController, F: BacklogFiller>(
    s: Vidaptive<CC, F>,
    now: Instant,
) -> bool {
    &&& !s.encoder.pause
    &&& s.cc.send_rate() > 0
    &&& bitrate(
        window_bytes(s.video_bitrate.samples@, now, s.video_bitrate.window),
        s.video_bitrate.window,
    ) < s.config.max_video_bitrate
    &&& s.next_capture_at is None || {
        let next = s.next_capture_at->0@;
        let from = next - s.config.filler_withhold_before_frame.nanos;
        now@ < from || now@ >= next || from < EARLIEST
    }
}

/// Filler is wanted exactly while nothing suppresses it.
pub proof fn law_filler_is_wanted_while_free<CC: CongestionController, F: BacklogFiller>(
    s: Vidaptive<CC, F>,
    now: Instant,
)
    ensures
        s.wants_filler(now) <==> filler_is_free(s, now),
{
}

/// A poll is possible at every time that is not the end of the clock, as long as the counters
/// have room and the controller and the filler can go on.
pub proof fn law_poll_is_possible<CC: CongestionController, F: BacklogFiller>(
    s: Vidaptive<CC, F>,
    now: Instant,
)
    requires
        s.pacer.next_seq < u64::MAX,
        now@ + u64::MAX <= LATEST,
        window_bytes(s.video_bitrate.samples@, now, s.video_bitrate.window) <= u64::MAX,
        s.filler.usable(),
        forall|sent: SentPacket| #[trigger] s.cc.send_ok(sent),
    ensures
        s.transmit_ok(now),
{
}

/// What a poll does, from the deadline, the congestion window, the queue and the configuration:
/// it waits before the deadline, idles while the window is full, sends what waits longest, and
/// into an empty queue sends filler exactly while nothing suppresses it.
pub proof fn law_poll_decides<CC: CongestionController, F: BacklogFiller>(
    pre: Vidaptive<CC, F>,
    post: Vidaptive<CC, F>,
    now: Instant,
    action: Option<TransmitAction>,
)
    requires
        post.transmitted_from(pre, now, action),
    ensures
        ({
            let early = pre.pacer.next_send_at is Some && now@ < pre.pacer.next_send_at->0@;
            let full = !pre.cc.admits(pre.pacer.bytes_in_flight);
            let queue = pre.pacer.queue@;
            &&& early ==> post == pre && action == Some(
                TransmitAction::WaitUntil(pre.pacer.next_send_at->0),
            )
            &&& !early && full ==> post == pre && action == Some(TransmitAction::Idle)
            &&& !early && !full && queue.len() > 0 ==> action == Some(
                TransmitAction::SendPacket { payload: queue[0].payload },
            )
            &&& !early && !full && queue.len() == 0 && filler_is_free(pre, now) ==> {
                ||| action is Some && action->0 is SendFiller
                ||| action is None
            }
            &&& !early && !full && queue.len() == 0 && !filler_is_free(pre, now) ==> post == pre
                && action == Some(TransmitAction::Idle)
        }),
{
}

/// With dummy padding, an empty queue behind open gates is filled whenever nothing suppresses
/// filler: before the withheld span, from the next expected frame on, and always where no frame
/// is expected. The packet is zeros of the filler's size.
pub proof fn law_dummy_is_sent_unless_suppressed<CC: CongestionController>(
    pre: Vidaptive<CC, DummyFiller>,
    post: Vidaptive<CC, DummyFiller>,
    now: Instant,
    action: Option<TransmitAction>,
)
    requires
        post.transmitted_from(pre, now, action),
        pre.pacer.queue@.len() == 0,
        pre.pacer.next_send_at is None || now@ >= pre.pacer.next_send_at->0@,
        pre.cc.admits(pre.pacer.bytes_in_flight),
        !pre.encoder.pause,
        pre.cc.send_rate() > 0,
        bitrate(
            window_bytes(pre.video_bitrate.samples@, now, pre.video_bitrate.window),
            pre.video_bitrate.window,
        ) < pre.config.max_video_bitrate,
        pre.next_capture_at is None || now@ < pre.next_capture_at->0@
            - pre.config.filler_withhold_before_frame.nanos || now@ >= pre.next_capture_at->0@,
    ensures
        action is Some,
        action->0 is SendFiller,
        content(on_the_wire(action)->0).len() == pre.filler.packet_size,
        forall|i: int|
            0 <= i < pre.filler.packet_size ==> (#[trigger] content(on_the_wire(action)->0)[i])
                == 0,
        post.filler.packet_size == pre.filler.packet_size,
        post.filler.sent_packets == pre.filler.sent_packets + 1,
{
}

/// A send sets the pacing deadline to the time of the send plus the time that its bytes take at
/// the pacing rate, rounded down to a nanosecond; at rate 0 it is the time of the send.
pub proof fn law_send_sets_the_deadline<CC: CongestionController, F: BacklogFiller>(
    pre: Vidaptive<CC, F>,
    post: Vidaptive<CC, F>,
    now: Instant,
    action: Option<TransmitAction>,
)
    requires
        post.transmitted_from(pre, now, action),
        on_the_wire(action) is Some,
    ensures
        post.pacer.next_send_at is Some,
        ({
            let len = content(on_the_wire(action)->0).len();
            let rate = post.cc.send_rate();
            let wait: int = post.pacer.next_send_at->0@ - now@;
            &&& 0 <= wait <= u64::MAX
            &&& rate == 0 ==> wait == 0
            &&& rate > 0 ==> wait * rate <= len * 1_000_000_000
            &&& rate > 0 && wait < u64::MAX ==> len * 1_000_000_000 < (wait + 1) * rate
        }),
{
    law_deadline_follows_the_rate(
        now,
        content(on_the_wire(action)->0).len(),
        post.cc.send_rate(),
    );
}

/// Two sends in a row hold the pacing rate: the bytes of the first one, over the time up to the
/// second one and a nanosecond, stay below the rate. Only a time of 2^64 nanoseconds or more
/// between them is cut short.
pub proof fn law_two_sends_hold_the_rate<CC: CongestionController, F: BacklogFiller>(
    pre: Vidaptive<CC, F>,
    sent: Vidaptive<CC, F>,
    sent_at: Instant,
    first: Option<TransmitAction>,
    later: Vidaptive<CC, F>,
    post: Vidaptive<CC, F>,
    now: Instant,
    second: Option<TransmitAction>,
)
    requires
        sent.transmitted_from(pre, sent_at, first),
        on_the_wire(first) is Some,
        later.pacer.next_send_at == sent.pacer.next_send_at,
        post.transmitted_from(later, now, second),
        on_the_wire(second) is Some,
        sent.cc.send_rate() > 0,
        now@ - sent_at@ < u64::MAX,
    ensures
        content(on_the_wire(first)->0).len() * 1_000_000_000 < (now@ - sent_at@ + 1)
            * sent.cc.send_rate(),
{
    law_send_sets_the_deadline(pre, sent, sent_at, first);
    law_poll_decides(later, post, now, second);
    let len = content(on_the_wire(first)->0).len();
    let rate: int = sent.cc.send_rate() as int;
    let wait: int = sent.pacer.next_send_at->0@ - sent_at@;
    let gap: int = now@ - sent_at@;
    assert(len * 1_000_000_000 < (gap + 1) * rate) by (nonlinear_arith)
        requires
            len * 1_000_000_000 < (wait + 1) * rate,
            wait <= gap,
            rate > 0,
    ;
}

/// Every send goes in flight under the next sequence number, with its bytes, and is reported to
/// the congestion controller so. It is application-limited only where it is media, empties the
/// queue, and leaves room in the congestion window.
#[verifier::rlimit(50)]
pub proof fn law_send_is_reported<CC: CongestionController, F: BacklogFiller>(
    pre: Vidaptive<CC, F>,
    post: Vidaptive<CC, F>,
    now: Instant,
    action: Option<TransmitAction>,
)
    requires
        post.transmitted_from(pre, now, action),
        on_the_wire(action) is Some,
    ensures
        ({
            let len = content(on_the_wire(action)->0).len();
            let seq = pre.pacer.next_seq;
            let head = pre.pacer.queue@[0];
            let media = action->0 is SendPacket;
            let meta = post.pacer.in_flight@[seq];
            let in_flight: u64 = if pre.pacer.bytes_in_flight + len <= u64::MAX {
                (pre.pacer.bytes_in_flight + len) as u64
            } else {
                u64::MAX
            };
            &&& len <= usize::MAX
            &&& post.cc.after_send(
                &pre.cc,
                SentPacket {
                    seq,
                    len: len as usize,
                    sent_at: now,
                    app_limited: media && pre.pacer.queue@.len() == 1 && pre.cc.admits(in_flight),
                },
            )
            &&& post.pacer.next_seq == seq + 1
            &&& post.pacer.bytes_in_flight == in_flight
            &&& post.pacer.in_flight@.contains_key(seq)
            &&& forall|other: u64|
                other != seq ==> {
                    &&& (#[trigger] post.pacer.in_flight@.contains_key(other))
                        == pre.pacer.in_flight@.contains_key(other)
                    &&& pre.pacer.in_flight@.contains_key(other) ==> post.pacer.in_flight@[other]
                        == pre.pacer.in_flight@[other]
                }
            &&& meta.seq == seq
            &&& meta.len == len
            &&& meta.is_filler == !media
            &&& media ==> {
                &&& meta.frame_id == head.frame_id
                &&& meta.fin == head.fin
                &&& meta.counts_as_video == head.counts_as_video
                &&& meta.queued_at == head.queued_at
                &&& head.at_head_at is Some ==> meta.at_head_at == head.at_head_at->0
            }
            &&& !media ==> meta.frame_id == 0 && !meta.counts_as_video
        }),
{
}

/// A media packet sent leaves the queue; the others move up as they are, and the next one is at
/// the head from then on.
pub proof fn law_send_advances_the_queue<CC: CongestionController, F: BacklogFiller>(
    pre: Vidaptive<CC, F>,
    post: Vidaptive<CC, F>,
    now: Instant,
    payload: Bytes,
)
    requires
        post.transmitted_from(pre, now, Some(TransmitAction::SendPacket { payload })),
    ensures
        ({
            let old = pre.pacer.queue@;
            let new = post.pacer.queue@;
            &&& old.len() == new.len() + 1
            &&& payload == old[0].payload
            &&& forall|i: int|
                0 <= i < new.len() ==> {
                    &&& (#[trigger] new[i]).payload == old[i + 1].payload
                    &&& new[i].frame_id == old[i + 1].frame_id
                    &&& new[i].fin == old[i + 1].fin
                    &&& new[i].counts_as_video == old[i + 1].counts_as_video
                    &&& new[i].queued_at == old[i + 1].queued_at
                    &&& i > 0 || old[i + 1].at_head_at is Some ==> new[i].at_head_at == old[i
                        + 1].at_head_at
                }
            &&& new.len() > 0 && old[1].at_head_at is None ==> new[0].at_head_at == Some(now)
        }),
{
    let rest = pre.pacer.queue@.drop_first();
    assert forall|i: int| 0 <= i < rest.len() implies #[trigger] rest[i] == pre.pacer.queue@[i
        + 1] by {}
}

/// A poll leaves the advice to the encoder, the optimizer, the capture schedule and the
/// configuration alone.
pub proof fn law_poll_leaves_control_alone<CC: CongestionController, F: BacklogFiller>(
    pre: Vidaptive<CC, F>,
    post: Vidaptive<CC, F>,
    now: Instant,
    action: Option<TransmitAction>,
)
    requires
        post.transmitted_from(pre, now, action),
    ensures
        post.encoder == pre.encoder,
        post.alpha == pre.alpha,
        post.safeguards == pre.safeguards,
        post.config == pre.config,
        post.cached_target_bitrate_bps == pre.cached_target_bitrate_bps,
        post.next_capture_at == pre.next_capture_at,
        post.held_capture_at == pre.held_capture_at,
        post.last_optimizer_tick == pre.last_optimizer_tick,
        post.samples.window == pre.samples.window,
        post.video_bitrate.window == pre.video_bitrate.window,
        on_the_wire(action) is None ==> post.cc == pre.cc && post.pacer == pre.pacer,
        !(action is Some && action->0 is SendPacket) ==> {
            &&& post.samples == pre.samples
            &&& post.video_bitrate == pre.video_bitrate
            &&& post.frame_targets == pre.frame_targets
            &&& post.frames_in_flight == pre.frames_in_flight
            &&& post.pacer.queue == pre.pacer.queue
        },
        action is Some && action->0 is SendPacket ==> post.filler == pre.filler,
{
}

/// A media packet that counts as video enters the video bitrate with its bytes at the time of
/// its send, and what is older than the window leaves it.
pub proof fn law_video_packet_is_measured<CC: CongestionController, F: BacklogFiller>(
    pre: Vidaptive<CC, F>,
    post: Vidaptive<CC, F>,
    now: Instant,
    payload: Bytes,
)
    requires
        post.transmitted_from(pre, now, Some(TransmitAction::SendPacket { payload })),
    ensures
        !pre.pacer.queue@[0].counts_as_video ==> post.video_bitrate.samples@
            == pre.video_bitrate.samples@,
        pre.pacer.queue@[0].counts_as_video ==> {
            let samples = post.video_bitrate.samples@;
            &&& samples.len() > 0
            &&& samples.last().at == now
            &&& samples.last().bytes == content(payload).len()
            &&& samples.drop_last() == pre.video_bitrate.samples@.filter(
                |s: ByteSample| s.at@ >= now@ - pre.video_bitrate.window.nanos,
            )
        },
{
    let window = pre.video_bitrate.window;
    let old = |s: ByteSample| in_window(s, now, window);
    let raw = |s: ByteSample| s.at@ >= now@ - window.nanos;
    assert(old =~= raw);
    let kept = pre.video_bitrate.samples@.filter(old);
    let added = ByteSample { at: now, bytes: pre.head_meta().len as u64 };
    assert(kept.push(added).drop_last() =~= kept);
}

/// The last packet of a frame makes a sample. Its service time runs from when the frame's first
/// packet came to the head. Its target bitrate and CC-Rate are those remembered of the frame;
/// those of the moment, where nothing is remembered.
#[verifier::rlimit(50)]
pub proof fn law_frame_makes_a_sample<CC: CongestionController, F: BacklogFiller>(
    pre: Vidaptive<CC, F>,
    post: Vidaptive<CC, F>,
    now: Instant,
    payload: Bytes,
)
    requires
        post.transmitted_from(pre, now, Some(TransmitAction::SendPacket { payload })),
        pre.pacer.queue@[0].at_head_at is Some,
    ensures
        ({
            let head = pre.pacer.queue@[0];
            let id = head.frame_id;
            let begun = pre.frames_in_flight@.contains_key(id);
            let known = pre.frame_targets@.contains_key(id);
            let started: Instant = if begun {
                pre.frames_in_flight@[id].head_at
            } else {
                head.at_head_at->0
            };
            let target = if begun {
                pre.frames_in_flight@[id].target_bitrate_bps
            } else if known {
                pre.frame_targets@[id].target_bitrate_bps
            } else {
                pre.cached_target_bitrate_bps
            };
            let rate = if begun {
                pre.frames_in_flight@[id].cc_rate_bytes_per_sec
            } else if known {
                pre.frame_targets@[id].cc_rate_bytes_per_sec
            } else {
                pre.cc.throughput()
            };
            &&& head.fin ==> {
                let samples = post.samples.samples@;
                &&& samples.len() > 0
                &&& samples.last().at == now
                &&& now@ < started@ ==> samples.last().service_time.nanos == 0
                &&& 0 <= now@ - started@ <= u128::MAX ==> samples.last().service_time.nanos
                    == now@ - started@
                &&& samples.last().target_bitrate_bps == target
                &&& samples.last().cc_rate_bytes_per_sec == rate
                &&& samples.drop_last() == pre.samples.samples@.filter(
                    |s: FrameServiceSample| s.at@ >= now@ - pre.samples.window.nanos,
                )
                &&& !post.frames_in_flight@.contains_key(id)
                &&& !post.frame_targets@.contains_key(id)
            }
            &&& !head.fin ==> {
                &&& post.samples.samples@ == pre.samples.samples@
                &&& post.frames_in_flight@.contains_key(id)
                &&& post.frames_in_flight@[id].head_at == started
                &&& post.frames_in_flight@[id].target_bitrate_bps == target
                &&& post.frames_in_flight@[id].cc_rate_bytes_per_sec == rate
                &&& post.frame_targets@ == pre.frame_targets@
            }
            &&& forall|other: u64|
                other != id ==> {
                    &&& (#[trigger] post.frames_in_flight@.contains_key(other))
                        == pre.frames_in_flight@.contains_key(other)
                    &&& pre.frames_in_flight@.contains_key(other)
                        ==> post.frames_in_flight@[other] == pre.frames_in_flight@[other]
                }
            &&& forall|other: u64|
                other != id ==> {
                    &&& (#[trigger] post.frame_targets@.contains_key(other))
                        == pre.frame_targets@.contains_key(other)
                    &&& pre.frame_targets@.contains_key(other) ==> post.frame_targets@[other]
                        == pre.frame_targets@[other]
                }
        }),
{
    let window = pre.samples.window;
    let raw = |s: FrameServiceSample| s.at@ >= now@ - window.nanos;
    let kept = pre.samples.samples@.filter(raw);
    assert(recent_samples(pre.samples.samples@, now, window) == kept);
    if pre.pacer.queue@[0].fin {
        let last = post.samples.samples@.last();
        assert(kept.push(last).drop_last() =~= kept);
    }
}

/// A tick drops the samples older than the window, of service times and of video bytes, and
/// touches nothing of the transport side.
pub proof fn law_tick_effects<CC: CongestionController, F: BacklogFiller>(
    pre: Vidaptive<CC, F>,
    post: Vidaptive<CC, F>,
    now: Instant,
)
    requires
        post.ticked_from(pre, now),
    ensures
        post.samples.samples@ == pre.samples.samples@.filter(
            |s: FrameServiceSample| s.at@ >= now@ - pre.samples.window.nanos,
        ),
        post.video_bitrate.samples@ == pre.video_bitrate.samples@.filter(
            |s: ByteSample| s.at@ >= now@ - pre.video_bitrate.window.nanos,
        ),
        post.samples.window == pre.samples.window,
        post.video_bitrate.window == pre.video_bitrate.window,
        post.cc == pre.cc,
        post.filler == pre.filler,
        post.pacer == pre.pacer,
        post.config == pre.config,
        post.frame_targets == pre.frame_targets,
        post.frames_in_flight == pre.frames_in_flight,
        post.held_capture_at == pre.held_capture_at,
        post.next_capture_at == pre.next_capture_at,
{
    let window = pre.video_bitrate.window;
    let old = |s: ByteSample| in_window(s, now, window);
    let raw = |s: ByteSample| s.at@ >= now@ - window.nanos;
    assert(old =~= raw);
}

/// Whether the acknowledgements settle the last media packet of a frame.
pub open spec fn ends_frame(
    flights: Map<u64, PacketMeta>,
    acks: Seq<AckInfo>,
    frame_id: u64,
) -> bool {
    exists|seq: u64|
        {
            &&& #[trigger] flights.contains_key(seq)
            &&& covers(acks, seq)
            &&& !flights[seq].is_filler
            &&& flights[seq].fin
            &&& flights[seq].frame_id == frame_id
        }
}

/// The frames left after acknowledgements are those whose last packet they do not settle.
#[verifier::rlimit(50)]
proof fn lemma_frames_after<V>(
    frames: Map<u64, V>,
    flights: Map<u64, PacketMeta>,
    acks: Seq<AckInfo>,
    id: u64,
)
    ensures
        frames_after(frames, flights, acks).contains_key(id) <==> frames.contains_key(id)
            && !ends_frame(flights, acks, id),
        frames_after(frames, flights, acks).contains_key(id) ==> frames_after(
            frames,
            flights,
            acks,
        )[id] == frames[id],
    decreases acks.len(),
{
    if acks.len() == 0 {
        assert(!ends_frame(flights, acks, id));
    } else {
        let before = acks.drop_last();
        let last = acks.last().seq;
        lemma_frames_after(frames, flights, before, id);
        lemma_covers_last(acks);
        let left = flights_after(flights, before);
        lemma_flights_shrink(flights, before);
        law_acks_settle_their_packets(flights, before, last);
        if covers(before, last) {
            assert(!left.contains_key(last));
        } else if flights.contains_key(last) {
            assert(left.contains_key(last)) by {
                assert forall|i: int| 0 <= i < before.len() implies (
                #[trigger] before[i]).seq != last by {}
            }
        }
        if ends_frame(flights, before, id) {
            let seq = choose|seq: u64|
                {
                    &&& #[trigger] flights.contains_key(seq)
                    &&& covers(before, seq)
                    &&& !flights[seq].is_filler
                    &&& flights[seq].fin
                    &&& flights[seq].frame_id == id
                };
            assert(flights.contains_key(seq) && covers(acks, seq));
        }
        if ends_frame(flights, acks, id) && !ends_frame(flights, before, id) {
            let seq = choose|seq: u64|
                {
                    &&& #[trigger] flights.contains_key(seq)
                    &&& covers(acks, seq)
                    &&& !flights[seq].is_filler
                    &&& flights[seq].fin
                    &&& flights[seq].frame_id == id
                };
            assert(seq == last);
            assert(left.contains_key(last));
        }
        if left.contains_key(last) && !left[last].is_filler && left[last].fin
            && left[last].frame_id == id {
            assert(flights.contains_key(last) && covers(acks, last));
            assert(ends_frame(flights, acks, id));
        }
    }
}

/// Acknowledgements reach the congestion controller as one event and take the packets they cover
/// out of flight. A frame is forgotten exactly with its last media packet; the queue, the
/// deadline and the samples stay.
#[verifier::rlimit(50)]
pub proof fn law_ack_effects<CC: CongestionController, F: BacklogFiller>(
    pre: Vidaptive<CC, F>,
    post: Vidaptive<CC, F>,
    acks: Seq<AckInfo>,
    now: Instant,
)
    requires
        post.acked_from(pre, acks, now),
    ensures
        post.cc.after_acks(&pre.cc, acks),
        forall|seq: u64|
            (#[trigger] post.pacer.in_flight@.contains_key(seq))
                <==> pre.pacer.in_flight@.contains_key(seq) && !covers(acks, seq),
        forall|seq: u64| #[trigger]
            post.pacer.in_flight@.contains_key(seq) ==> post.pacer.in_flight@[seq]
                == pre.pacer.in_flight@[seq],
        forall|id: u64|
            {
                &&& (#[trigger] post.frames_in_flight@.contains_key(id))
                    <==> pre.frames_in_flight@.contains_key(id) && !ends_frame(
                    pre.pacer.in_flight@,
                    acks,
                    id,
                )
                &&& post.frames_in_flight@.contains_key(id) ==> post.frames_in_flight@[id]
                    == pre.frames_in_flight@[id]
            },
        forall|id: u64|
            {
                &&& (#[trigger] post.frame_targets@.contains_key(id))
                    <==> pre.frame_targets@.contains_key(id) && !ends_frame(
                    pre.pacer.in_flight@,
                    acks,
                    id,
                )
                &&& post.frame_targets@.contains_key(id) ==> post.frame_targets@[id]
                    == pre.frame_targets@[id]
            },
        post.filler == pre.filler,
        post.config == pre.config,
        post.pacer.queue == pre.pacer.queue,
        post.pacer.next_seq == pre.pacer.next_seq,
        post.pacer.next_send_at == pre.pacer.next_send_at,
        post.samples == pre.samples,
        post.video_bitrate == pre.video_bitrate,
        post.held_capture_at == pre.held_capture_at,
        post.next_capture_at == pre.next_capture_at,
{
    let flights = pre.pacer.in_flight@;
    lemma_flights_shrink(flights, acks);
    assert forall|seq: u64|
        (#[trigger] post.pacer.in_flight@.contains_key(seq)) <==> flights.contains_key(seq)
            && !covers(acks, seq) by {
        law_acks_settle_their_packets(flights, acks, seq);
    }
    assert forall|id: u64|
        {
            &&& (#[trigger] post.frames_in_flight@.contains_key(id))
                <==> pre.frames_in_flight@.contains_key(id) && !ends_frame(flights, acks, id)
            &&& post.frames_in_flight@.contains_key(id) ==> post.frames_in_flight@[id]
                == pre.frames_in_flight@[id]
        } by {
        lemma_frames_after(pre.frames_in_flight@, flights, acks, id);
    }
    assert forall|id: u64|
        {
            &&& (#[trigger] post.frame_targets@.contains_key(id))
                <==> pre.frame_targets@.contains_key(id) && !ends_frame(flights, acks, id)
            &&& post.frame_targets@.contains_key(id) ==> post.frame_targets@[id]
                == pre.frame_targets@[id]
        } by {
        lemma_frames_after(pre.frame_targets@, flights, acks, id);
    }
}

/// A loss reaches the congestion controller and takes the packet out of flight with its bytes. A
/// frame is forgotten with its last media packet; the queue, the deadline and the samples stay.
pub proof fn law_loss_effects<CC: CongestionController, F: BacklogFiller>(
    pre: Vidaptive<CC, F>,
    post: Vidaptive<CC, F>,
    loss: LostPacket,
    now: Instant,
)
    requires
        post.lost_from(pre, loss, now),
    ensures
        post.cc.after_loss(&pre.cc, loss),
        post.pacer.in_flight@ == pre.pacer.in_flight@.remove(loss.seq),
        ({
            let known = pre.pacer.in_flight@.contains_key(loss.seq);
            let meta = pre.pacer.in_flight@[loss.seq];
            let ends = known && !meta.is_filler && meta.fin;
            &&& !known ==> post.pacer.bytes_in_flight == pre.pacer.bytes_in_flight
            &&& known && pre.pacer.bytes_in_flight >= meta.len ==> post.pacer.bytes_in_flight
                == pre.pacer.bytes_in_flight - meta.len
            &&& ends ==> {
                &&& post.frames_in_flight@ == pre.frames_in_flight@.remove(meta.frame_id)
                &&& post.frame_targets@ == pre.frame_targets@.remove(meta.frame_id)
            }
            &&& !ends ==> {
                &&& post.frames_in_flight@ == pre.frames_in_flight@
                &&& post.frame_targets@ == pre.frame_targets@
            }
        }),
        post.filler == pre.filler,
        post.config == pre.config,
        post.pacer.queue == pre.pacer.queue,
        post.pacer.next_seq == pre.pacer.next_seq,
        post.pacer.next_send_at == pre.pacer.next_send_at,
        post.samples == pre.samples,
        post.video_bitrate == pre.video_bitrate,
        post.held_capture_at == pre.held_capture_at,
        post.next_capture_at == pre.next_capture_at,
{
}

/// Advice on a capture: it is held while paused. Otherwise a held capture is encoded while it is
/// at most half a frame interval old, an older one is skipped, and without one the new capture
/// is encoded. The next frame is expected one interval after the capture.
pub proof fn law_capture_advice<CC: CongestionController, F: BacklogFiller>(
    pre: Vidaptive<CC, F>,
    post: Vidaptive<CC, F>,
    captured_at: Instant,
    now: Instant,
    advice: CaptureAdvice,
)
    requires
        post.advised_from(pre, captured_at, now, advice),
    ensures
        pre.encoder.pause ==> advice is Hold && post.held_capture_at == Some(captured_at),
        !pre.encoder.pause ==> post.held_capture_at is None,
        !pre.encoder.pause && pre.held_capture_at is None ==> advice is Encode,
        !pre.encoder.pause && pre.held_capture_at is Some ==> {
            let held = pre.held_capture_at->0;
            let fresh = 2 * (now@ - held@) <= pre.config.frame_interval.nanos;
            &&& fresh ==> advice == (CaptureAdvice::EncodeHeld { captured_at: held })
            &&& !fresh ==> advice == (CaptureAdvice::SkipHeld { captured_at: held })
        },
        post.next_capture_at is Some,
        post.next_capture_at->0@ == captured_at@ + pre.config.frame_interval.nanos,
        post.encoder == pre.encoder,
        post.pacer == pre.pacer,
        post.cc == pre.cc,
        post.filler == pre.filler,
        post.config == pre.config,
        post.samples == pre.samples,
        post.video_bitrate == pre.video_bitrate,
        post.alpha == pre.alpha,
{
}

} // verus!
