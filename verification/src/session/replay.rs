//! Laws of two sessions: the same calls on sessions that cannot be told apart give the same
//! answers.

use vstd::prelude::*;

use super::Vidaptive;
use crate::bounded::saturated;
use crate::cc::Reproducible;
use crate::time::Instant;
use crate::transport::filler::ReproducibleFiller;
use crate::types::{content, AckInfo, TransmitAction, VidaptiveInput, VidaptiveOutput};

verus! {

/// Whether two sessions cannot be told apart.
pub open spec fn alike<CC: Reproducible, F: ReproducibleFiller>(
    a: Vidaptive<CC, F>,
    b: Vidaptive<CC, F>,
) -> bool {
    &&& a.cc.alike(&b.cc)
    &&& a.filler.alike(&b.filler)
    &&& a.config == b.config
    &&& a.pacer.queue@ == b.pacer.queue@
    &&& a.pacer.in_flight@ == b.pacer.in_flight@
    &&& a.pacer.next_seq == b.pacer.next_seq
    &&& a.pacer.next_send_at == b.pacer.next_send_at
    &&& a.pacer.bytes_in_flight == b.pacer.bytes_in_flight
    &&& a.safeguards == b.safeguards
    &&& a.alpha == b.alpha
    &&& a.samples.window == b.samples.window
    &&& a.samples.samples@ == b.samples.samples@
    &&& a.encoder == b.encoder
    &&& a.cached_target_bitrate_bps == b.cached_target_bitrate_bps
    &&& a.next_capture_at == b.next_capture_at
    &&& a.frame_targets@ == b.frame_targets@
    &&& a.frames_in_flight@ == b.frames_in_flight@
    &&& a.held_capture_at == b.held_capture_at
    &&& a.last_optimizer_tick == b.last_optimizer_tick
    &&& a.video_bitrate.window == b.video_bitrate.window
    &&& a.video_bitrate.samples@ == b.video_bitrate.samples@
}

/// Whether two actions are the same on the wire.
pub open spec fn same_action(x: Option<TransmitAction>, y: Option<TransmitAction>) -> bool {
    match (x, y) {
        (
            Some(TransmitAction::SendFiller { payload: p }),
            Some(TransmitAction::SendFiller { payload: q }),
        ) => content(p) == content(q),
        _ => x == y,
    }
}

/// Equal sessions cannot be told apart.
pub proof fn law_alike_itself<CC: Reproducible, F: ReproducibleFiller>(s: Vidaptive<CC, F>)
    ensures
        alike(s, s),
{
    CC::law_alike_itself(s.cc);
    F::law_alike_itself(s.filler);
}

/// Bringing the encoder state up to date leaves sessions alike.
pub proof fn law_refresh_keeps_alike<CC: Reproducible, F: ReproducibleFiller>(
    a: Vidaptive<CC, F>,
    b: Vidaptive<CC, F>,
    now: Instant,
)
    requires
        alike(a, b),
    ensures
        alike(a.refreshed(now), b.refreshed(now)),
{
    CC::law_alike_reports(a.cc, b.cc, 0);
}

/// A feedback event leaves sessions alike.
pub proof fn law_acks_keep_alike<CC: Reproducible, F: ReproducibleFiller>(
    pre_a: Vidaptive<CC, F>,
    pre_b: Vidaptive<CC, F>,
    a: Vidaptive<CC, F>,
    b: Vidaptive<CC, F>,
    acks: Seq<AckInfo>,
    now: Instant,
)
    requires
        alike(pre_a, pre_b),
        a.acked_from(pre_a, acks, now),
        b.acked_from(pre_b, acks, now),
    ensures
        alike(a, b),
{
    CC::law_alike_after_acks(pre_a.cc, pre_b.cc, a.cc, b.cc, acks);
    law_refresh_keeps_alike(
        Vidaptive {
            cc: a.cc,
            pacer: a.pacer,
            frames_in_flight: a.frames_in_flight,
            frame_targets: a.frame_targets,
            ..pre_a
        },
        Vidaptive {
            cc: b.cc,
            pacer: b.pacer,
            frames_in_flight: b.frames_in_flight,
            frame_targets: b.frame_targets,
            ..pre_b
        },
        now,
    );
}

/// The same event leaves sessions alike.
#[verifier::rlimit(50)]
pub proof fn law_events_keep_alike<CC: Reproducible, F: ReproducibleFiller>(
    pre_a: Vidaptive<CC, F>,
    pre_b: Vidaptive<CC, F>,
    a: Vidaptive<CC, F>,
    b: Vidaptive<CC, F>,
    input: VidaptiveInput,
    now: Instant,
)
    requires
        alike(pre_a, pre_b),
        a.input_taken_from(pre_a, input, now),
        b.input_taken_from(pre_b, input, now),
    ensures
        alike(a, b),
{
    CC::law_alike_reports(pre_a.cc, pre_b.cc, 0);
    match input {
        VidaptiveInput::PacketsEnqueued(frame) => {
            law_refresh_keeps_alike(
                Vidaptive { frame_targets: a.frame_targets, pacer: a.pacer, ..pre_a },
                Vidaptive { frame_targets: b.frame_targets, pacer: b.pacer, ..pre_b },
                now,
            );
        },
        VidaptiveInput::Ack(ack) => {
            law_acks_keep_alike(pre_a, pre_b, a, b, seq![ack], now);
        },
        VidaptiveInput::Loss(loss) => {
            CC::law_alike_after_loss(pre_a.cc, pre_b.cc, a.cc, b.cc, loss);
            law_refresh_keeps_alike(
                Vidaptive {
                    cc: a.cc,
                    pacer: a.pacer,
                    frames_in_flight: a.frames_in_flight,
                    frame_targets: a.frame_targets,
                    ..pre_a
                },
                Vidaptive {
                    cc: b.cc,
                    pacer: b.pacer,
                    frames_in_flight: b.frames_in_flight,
                    frame_targets: b.frame_targets,
                    ..pre_b
                },
                now,
            );
        },
        VidaptiveInput::Tick => {
            let kept_a = Vidaptive {
                samples: a.samples,
                video_bitrate: a.video_bitrate,
                ..pre_a
            };
            let kept_b = Vidaptive {
                samples: b.samples,
                video_bitrate: b.video_bitrate,
                ..pre_b
            };
            assert(alike(kept_a, kept_b));
            if pre_a.optimizer_due(now) {
                assert(alike(kept_a.optimized(now), kept_b.optimized(now)));
                law_refresh_keeps_alike(kept_a.optimized(now), kept_b.optimized(now), now);
            } else {
                law_refresh_keeps_alike(kept_a, kept_b, now);
            }
        },
    }
}

/// Polls of sessions that are alike give the same action and leave them alike.
#[verifier::rlimit(50)]
pub proof fn law_polls_keep_alike<CC: Reproducible, F: ReproducibleFiller>(
    pre_a: Vidaptive<CC, F>,
    pre_b: Vidaptive<CC, F>,
    a: Vidaptive<CC, F>,
    b: Vidaptive<CC, F>,
    now: Instant,
    action_a: Option<TransmitAction>,
    action_b: Option<TransmitAction>,
)
    requires
        alike(pre_a, pre_b),
        a.transmitted_from(pre_a, now, action_a),
        b.transmitted_from(pre_b, now, action_b),
    ensures
        alike(a, b),
        same_action(action_a, action_b),
{
    CC::law_alike_reports(pre_a.cc, pre_b.cc, pre_a.pacer.bytes_in_flight);
    if !pre_a.may_send(now) {
    } else if pre_a.pacer.queue@.len() > 0 {
        lemma_media_keeps_alike(pre_a, pre_b, a, b, now);
    } else if pre_a.wants_filler(now) {
        lemma_filler_keeps_alike(pre_a, pre_b, a, b, now, action_a, action_b);
    }
}

/// Media sent from sessions that are alike leaves them alike.
#[verifier::rlimit(50)]
proof fn lemma_media_keeps_alike<CC: Reproducible, F: ReproducibleFiller>(
    pre_a: Vidaptive<CC, F>,
    pre_b: Vidaptive<CC, F>,
    a: Vidaptive<CC, F>,
    b: Vidaptive<CC, F>,
    now: Instant,
)
    requires
        alike(pre_a, pre_b),
        a.media_sent_from(pre_a, now),
        b.media_sent_from(pre_b, now),
    ensures
        alike(a, b),
{
    let notice = pre_a.media_notice(now);
    CC::law_alike_reports(pre_a.cc, pre_b.cc, 0);
    CC::law_alike_reports(
        pre_a.cc,
        pre_b.cc,
        saturated(pre_a.pacer.bytes_in_flight as nat + pre_a.head_meta().len as nat),
    );
    CC::law_alike_after_send(pre_a.cc, pre_b.cc, a.cc, b.cc, notice);
    CC::law_alike_reports(a.cc, b.cc, 0);
    Instant::law_equal_readings(a.pacer.next_send_at->0, b.pacer.next_send_at->0);
}

/// A filler asked in sessions that are alike answers the same and leaves them alike.
#[verifier::rlimit(50)]
proof fn lemma_filler_keeps_alike<CC: Reproducible, F: ReproducibleFiller>(
    pre_a: Vidaptive<CC, F>,
    pre_b: Vidaptive<CC, F>,
    a: Vidaptive<CC, F>,
    b: Vidaptive<CC, F>,
    now: Instant,
    action_a: Option<TransmitAction>,
    action_b: Option<TransmitAction>,
)
    requires
        alike(pre_a, pre_b),
        pre_a.may_send(now),
        pre_b.may_send(now),
        pre_a.pacer.queue@.len() == 0,
        pre_a.wants_filler(now),
        pre_b.wants_filler(now),
        a.transmitted_from(pre_a, now, action_a),
        b.transmitted_from(pre_b, now, action_b),
    ensures
        alike(a, b),
        same_action(action_a, action_b),
{
    let seq = pre_a.pacer.next_seq;
    // The filler right after it was asked, and what it gave.
    let (asked_a, packet_a) = match action_a {
        Some(TransmitAction::SendFiller { payload }) => (
            choose|asked: F| #[trigger]
                asked.after_next(&pre_a.filler, now, Some(payload)) && a.filler.after_send(
                    &asked,
                    seq,
                    content(payload).len() as usize,
                    now,
                ),
            Some(payload),
        ),
        _ => (a.filler, None),
    };
    let (asked_b, packet_b) = match action_b {
        Some(TransmitAction::SendFiller { payload }) => (
            choose|asked: F| #[trigger]
                asked.after_next(&pre_b.filler, now, Some(payload)) && b.filler.after_send(
                    &asked,
                    seq,
                    content(payload).len() as usize,
                    now,
                ),
            Some(payload),
        ),
        _ => (b.filler, None),
    };
    F::law_alike_after_next(
        pre_a.filler,
        pre_b.filler,
        asked_a,
        asked_b,
        now,
        packet_a,
        packet_b,
    );
    if packet_a is Some {
        let len = content(packet_a->0).len() as usize;
        F::law_alike_after_send(asked_a, asked_b, a.filler, b.filler, seq, len, now);
        CC::law_alike_after_send(pre_a.cc, pre_b.cc, a.cc, b.cc, pre_a.filler_notice(len, now));
        CC::law_alike_reports(a.cc, b.cc, 0);
        Instant::law_equal_readings(a.pacer.next_send_at->0, b.pacer.next_send_at->0);
    }
}

/// Handling an event is the event's own call, then a poll for the wire, then a poll for the
/// encoder: on sessions that are alike both ways give the same output and leave them alike.
#[verifier::rlimit(50)]
pub proof fn law_handle_equals_its_calls<CC: Reproducible, F: ReproducibleFiller>(
    pre_a: Vidaptive<CC, F>,
    pre_b: Vidaptive<CC, F>,
    a: Vidaptive<CC, F>,
    input: VidaptiveInput,
    now: Instant,
    output: VidaptiveOutput,
    taken: Vidaptive<CC, F>,
    b: Vidaptive<CC, F>,
    transmit: Option<TransmitAction>,
)
    requires
        alike(pre_a, pre_b),
        a.handled_from(pre_a, input, now, output),
        taken.input_taken_from(pre_b, input, now),
        b.transmitted_from(taken, now, transmit),
    ensures
        same_action(output.transmit, transmit),
        output.encoder == b.encoder,
        alike(a, b),
{
    let inner = choose|inner: Vidaptive<CC, F>| #[trigger]
        inner.input_taken_from(pre_a, input, now) && a.transmitted_from(
            inner,
            now,
            output.transmit,
        );
    law_events_keep_alike(pre_a, pre_b, inner, taken, input, now);
    law_polls_keep_alike(inner, taken, a, b, now, output.transmit, transmit);
}

} // verus!
