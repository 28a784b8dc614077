//! Laws of a session over any sequence of calls.

use bytes::Bytes;
use vstd::prelude::*;

use super::effects::{
    ends_frame, law_ack_effects, law_enqueue_effects, law_frame_makes_a_sample, law_loss_effects,
    law_poll_decides, law_poll_leaves_control_alone, law_tick_effects,
};
use super::laws::{
    law_acks_are_accounted, law_acks_settle_their_packets, law_enqueue_keeps_payloads,
    law_loss_is_accounted, law_transmit_keeps_payloads, lemma_flights_shrink, on_the_wire,
};
use super::{flights_after, Vidaptive};
use crate::cc::laws::covers;
use crate::cc::CongestionController;
use crate::time::Instant;
use crate::transport::filler::BacklogFiller;
use crate::transport::laws::{carried, flight_bytes, head_timed, lemma_flight_beyond, waiting};
use crate::transport::pacer::filler_meta;
use crate::types::{
    content, AckInfo, CaptureAdvice, EncodedFrame, LostPacket, PacketMeta, SentPacket,
    TransmitAction, VidaptiveInput, VidaptiveOutput,
};

verus! {

/// One call on a session, with what it was given and what it answered. A single
/// acknowledgement is a batch of one; [`Vidaptive::handle`] is the step of its event followed
/// by a poll.
pub enum Step {
    /// [`Vidaptive::enqueue_packets`].
    Enqueue(EncodedFrame, Instant),
    /// [`Vidaptive::on_network_acks`].
    Acks(Seq<AckInfo>, Instant),
    /// [`Vidaptive::on_network_loss`].
    Loss(LostPacket, Instant),
    /// [`Vidaptive::tick`].
    Tick(Instant),
    /// [`Vidaptive::refresh_encoder_state`].
    Refresh(Instant),
    /// [`Vidaptive::poll_transmit`].
    Poll(Instant, Option<TransmitAction>),
    /// [`Vidaptive::advise_capture`]: time of the capture, time of the call, advice.
    Advise(Instant, Instant, CaptureAdvice),
    /// A change through [`Vidaptive::congestion_controller_mut`].
    Controller,
    /// A change through [`Vidaptive::filler_mut`].
    Filler,
}

impl Step {
    /// The payload that the step puts on the wire.
    pub open spec fn wire(self) -> Option<Bytes> {
        match self {
            Step::Poll(_, action) => on_the_wire(action),
            _ => None,
        }
    }

    /// Whether the step acknowledges the packet `seq` or reports it lost.
    pub open spec fn settles(self, seq: nat) -> bool {
        match self {
            Step::Acks(acks, _) => seq <= u64::MAX && covers(acks, seq as u64),
            Step::Loss(loss, _) => loss.seq == seq,
            _ => false,
        }
    }
}

/// The step that an event is.
pub open spec fn event_step(input: VidaptiveInput, now: Instant) -> Step {
    match input {
        VidaptiveInput::PacketsEnqueued(frame) => Step::Enqueue(frame, now),
        VidaptiveInput::Ack(ack) => Step::Acks(seq![ack], now),
        VidaptiveInput::Loss(loss) => Step::Loss(loss, now),
        VidaptiveInput::Tick => Step::Tick(now),
    }
}

/// Whether a step takes one session to the other.
pub open spec fn stepped<CC: CongestionController, F: BacklogFiller>(
    pre: Vidaptive<CC, F>,
    post: Vidaptive<CC, F>,
    step: Step,
) -> bool {
    match step {
        Step::Enqueue(frame, now) => post.enqueued_from(pre, frame, now),
        Step::Acks(acks, now) => post.acked_from(pre, acks, now),
        Step::Loss(loss, now) => post.lost_from(pre, loss, now),
        Step::Tick(now) => post.ticked_from(pre, now),
        Step::Refresh(now) => post == pre.refreshed(now),
        Step::Poll(now, action) => post.transmitted_from(pre, now, action),
        Step::Advise(captured_at, now, advice) => post.advised_from(
            pre,
            captured_at,
            now,
            advice,
        ),
        Step::Controller => post == (Vidaptive { cc: post.cc, ..pre }),
        Step::Filler => post == (Vidaptive { filler: post.filler, ..pre }),
    }
}

/// Whether the steps take a new session through these states, one after the other.
pub open spec fn history<CC: CongestionController, F: BacklogFiller>(
    states: Seq<Vidaptive<CC, F>>,
    steps: Seq<Step>,
) -> bool {
    &&& states.len() == steps.len() + 1
    &&& states[0].pacer.queue@.len() == 0
    &&& states[0].pacer.in_flight@ == Map::<u64, PacketMeta>::empty()
    &&& states[0].pacer.next_seq == 1
    &&& states[0].pacer.bytes_in_flight == 0
    &&& forall|i: int|
        0 <= i < steps.len() ==> stepped(states[i], states[i + 1], #[trigger] steps[i])
}

/// The payloads enqueued that carry bytes, in order.
pub open spec fn enqueued_payloads(steps: Seq<Step>) -> Seq<Seq<u8>>
    decreases steps.len(),
{
    if steps.len() == 0 {
        Seq::empty()
    } else {
        enqueued_payloads(steps.drop_last()) + match steps.last() {
            Step::Enqueue(frame, _) => carried(frame.packets@),
            _ => Seq::empty(),
        }
    }
}

/// The payloads sent as media, in order.
pub open spec fn sent_payloads(steps: Seq<Step>) -> Seq<Seq<u8>>
    decreases steps.len(),
{
    if steps.len() == 0 {
        Seq::empty()
    } else {
        sent_payloads(steps.drop_last()) + match steps.last() {
            Step::Poll(_, Some(TransmitAction::SendPacket { payload })) => seq![content(payload)],
            _ => Seq::empty(),
        }
    }
}

/// A part of a history from its start is a history.
proof fn lemma_history_prefix<CC: CongestionController, F: BacklogFiller>(
    states: Seq<Vidaptive<CC, F>>,
    steps: Seq<Step>,
    n: int,
)
    requires
        history(states, steps),
        0 <= n <= steps.len(),
    ensures
        history(states.take(n + 1), steps.take(n)),
        states.take(n + 1).last() == states[n],
{
    let part = states.take(n + 1);
    let first = steps.take(n);
    assert forall|i: int| 0 <= i < first.len() implies stepped(
        part[i],
        part[i + 1],
        #[trigger] first[i],
    ) by {
        assert(stepped(states[i], states[i + 1], steps[i]));
    }
}

/// What was sent, followed by what waits, is what was enqueued.
#[verifier::rlimit(50)]
proof fn lemma_payloads<CC: CongestionController, F: BacklogFiller>(
    states: Seq<Vidaptive<CC, F>>,
    steps: Seq<Step>,
)
    requires
        history(states, steps),
    ensures
        sent_payloads(steps) + waiting(states.last().pacer.queue@) == enqueued_payloads(steps),
    decreases steps.len(),
{
    if steps.len() == 0 {
        assert(waiting(states.last().pacer.queue@) =~= Seq::<Seq<u8>>::empty());
    } else {
        let n: int = steps.len() - 1;
        let rest = steps.drop_last();
        lemma_history_prefix(states, steps, n);
        assert(steps.take(n) =~= rest);
        lemma_payloads(states.take(n + 1), rest);
        let pre = states[n];
        let post = states[n + 1];
        assert(stepped(pre, post, steps[n]));
        match steps.last() {
            Step::Enqueue(frame, now) => {
                law_enqueue_keeps_payloads(pre, post, frame, now);
            },
            Step::Poll(now, action) => {
                law_transmit_keeps_payloads(pre, post, now, action);
            },
            _ => {
                assert(post.pacer.queue@ == pre.pacer.queue@);
            },
        }
        assert(sent_payloads(steps) + waiting(post.pacer.queue@) =~= enqueued_payloads(steps));
    }
}

/// Over any sequence of calls the payloads sent as media, in order, are byte for byte the first
/// of the payloads enqueued, and the others wait: none is split, merged, lost, repeated or
/// moved. Filler is sent only while no media waits, so once all that was enqueued is sent.
#[verifier::rlimit(50)]
pub proof fn law_payloads_over_a_history<CC: CongestionController, F: BacklogFiller>(
    states: Seq<Vidaptive<CC, F>>,
    steps: Seq<Step>,
)
    requires
        history(states, steps),
    ensures
        sent_payloads(steps) + waiting(states.last().pacer.queue@) == enqueued_payloads(steps),
        sent_payloads(steps).is_prefix_of(enqueued_payloads(steps)),
        forall|i: int|
            0 <= i < steps.len() && ((#[trigger] steps[i]) matches Step::Poll(
                _,
                Some(TransmitAction::SendFiller { payload }),
            )) ==> states[i].pacer.queue@.len() == 0 && sent_payloads(steps.take(i))
                == enqueued_payloads(steps.take(i)),
{
    lemma_payloads(states, steps);
    assert(sent_payloads(steps) =~= enqueued_payloads(steps).take(
        sent_payloads(steps).len() as int,
    ));
    assert forall|i: int|
        0 <= i < steps.len() && ((#[trigger] steps[i]) matches Step::Poll(
            _,
            Some(TransmitAction::SendFiller { payload }),
        )) implies states[i].pacer.queue@.len() == 0 && sent_payloads(steps.take(i))
        == enqueued_payloads(steps.take(i)) by {
        assert(stepped(states[i], states[i + 1], steps[i]));
        lemma_history_prefix(states, steps, i);
        lemma_payloads(states.take(i + 1), steps.take(i));
        assert(waiting(states[i].pacer.queue@) =~= Seq::<Seq<u8>>::empty());
        assert(sent_payloads(steps.take(i)) + Seq::<Seq<u8>>::empty() =~= sent_payloads(
            steps.take(i),
        ));
    }
}

/// Payload lengths of the sends, media and filler together; the first one is number 1.
pub open spec fn sends(steps: Seq<Step>) -> Seq<nat>
    decreases steps.len(),
{
    if steps.len() == 0 {
        Seq::empty()
    } else {
        match steps.last().wire() {
            Some(payload) => sends(steps.drop_last()).push(content(payload).len()),
            None => sends(steps.drop_last()),
        }
    }
}

/// Whether send number `k` was made and no later step acknowledged it or reported it lost.
pub open spec fn unsettled(steps: Seq<Step>, k: nat) -> bool
    decreases steps.len(),
{
    if steps.len() == 0 {
        false
    } else {
        let before = steps.drop_last();
        ||| steps.last().wire() is Some && k == sends(before).len() + 1
        ||| unsettled(before, k) && !steps.last().settles(k)
    }
}

/// Payload bytes of the unsettled ones among the first `n` sends.
pub open spec fn unsettled_bytes(steps: Seq<Step>, n: nat) -> nat
    decreases n,
{
    if n == 0 {
        0
    } else {
        unsettled_bytes(steps, (n - 1) as nat) + if unsettled(steps, n) {
            sends(steps)[n - 1]
        } else {
            0
        }
    }
}

/// Payload bytes of all unsettled sends.
pub open spec fn open_bytes(steps: Seq<Step>) -> nat {
    unsettled_bytes(steps, sends(steps).len())
}

/// Only sends that were made can be unsettled.
proof fn lemma_unsettled_in_range(steps: Seq<Step>, k: nat)
    ensures
        unsettled(steps, k) ==> 1 <= k <= sends(steps).len(),
    decreases steps.len(),
{
    if steps.len() > 0 {
        lemma_unsettled_in_range(steps.drop_last(), k);
    }
}

/// Whether the packets in flight are the unsettled sends, each with its own length.
spec fn flights_match(flights: Map<u64, PacketMeta>, next_seq: u64, steps: Seq<Step>) -> bool {
    &&& next_seq == sends(steps).len() + 1
    &&& forall|seq: u64| #[trigger]
        flights.contains_key(seq) <==> unsettled(steps, seq as nat)
    &&& forall|seq: u64| #[trigger]
        flights.contains_key(seq) ==> flights[seq].seq == seq && flights[seq].len == sends(
            steps,
        )[seq - 1]
}

/// A step that sends nothing and settles nothing keeps the match.
proof fn lemma_match_kept(flights: Map<u64, PacketMeta>, next_seq: u64, steps: Seq<Step>)
    requires
        steps.len() > 0,
        flights_match(flights, next_seq, steps.drop_last()),
        steps.last().wire() is None,
        forall|k: nat| !steps.last().settles(k),
    ensures
        flights_match(flights, next_seq, steps),
{
    assert forall|seq: u64| #[trigger] flights.contains_key(seq) <==> unsettled(
        steps,
        seq as nat,
    ) by {
        assert(!steps.last().settles(seq as nat));
    }
}

/// A send keeps the match.
proof fn lemma_match_sent(
    flights: Map<u64, PacketMeta>,
    next_seq: u64,
    meta: PacketMeta,
    steps: Seq<Step>,
)
    requires
        steps.len() > 0,
        flights_match(flights, next_seq, steps.drop_last()),
        steps.last().wire() matches Some(payload) && meta.len == content(payload).len(),
        meta.seq == next_seq,
        next_seq < u64::MAX,
    ensures
        flights_match(flights.insert(next_seq, meta), (next_seq + 1) as u64, steps),
{
    let before = steps.drop_last();
    let after = flights.insert(next_seq, meta);
    assert forall|seq: u64| #[trigger] after.contains_key(seq) <==> unsettled(
        steps,
        seq as nat,
    ) by {
        if seq != next_seq {
            assert(flights.contains_key(seq) <==> unsettled(before, seq as nat));
        }
    }
    assert forall|seq: u64| #[trigger] after.contains_key(seq) implies after[seq].seq == seq
        && after[seq].len == sends(steps)[seq - 1] by {
        if seq != next_seq {
            assert(flights.contains_key(seq));
            lemma_unsettled_in_range(before, seq as nat);
        }
    }
}

/// A step that settles packets keeps the match.
proof fn lemma_match_settled(
    flights: Map<u64, PacketMeta>,
    after: Map<u64, PacketMeta>,
    next_seq: u64,
    steps: Seq<Step>,
)
    requires
        steps.len() > 0,
        flights_match(flights, next_seq, steps.drop_last()),
        steps.last().wire() is None,
        after.submap_of(flights),
        forall|seq: u64| #[trigger]
            after.contains_key(seq) <==> flights.contains_key(seq) && !steps.last().settles(
                seq as nat,
            ),
    ensures
        flights_match(after, next_seq, steps),
{
    let before = steps.drop_last();
    assert forall|seq: u64| #[trigger] after.contains_key(seq) <==> unsettled(
        steps,
        seq as nat,
    ) by {
        assert(flights.contains_key(seq) <==> unsettled(before, seq as nat));
    }
    assert forall|seq: u64| #[trigger] after.contains_key(seq) implies after[seq].seq == seq
        && after[seq].len == sends(steps)[seq - 1] by {
        assert(flights.contains_key(seq));
    }
}

/// The packets in flight are the unsettled sends.
#[verifier::rlimit(50)]
proof fn lemma_flights_match<CC: CongestionController, F: BacklogFiller>(
    states: Seq<Vidaptive<CC, F>>,
    steps: Seq<Step>,
)
    requires
        history(states, steps),
    ensures
        flights_match(
            states.last().pacer.in_flight@,
            states.last().pacer.next_seq,
            steps,
        ),
    decreases steps.len(),
{
    if steps.len() > 0 {
        let n: int = steps.len() - 1;
        let rest = steps.drop_last();
        lemma_history_prefix(states, steps, n);
        assert(steps.take(n) =~= rest);
        lemma_flights_match(states.take(n + 1), rest);
        let pre = states[n];
        let post = states[n + 1];
        let flights = pre.pacer.in_flight@;
        let next = pre.pacer.next_seq;
        assert(stepped(pre, post, steps[n]));
        match steps.last() {
            Step::Poll(now, action) => {
                match action {
                    Some(TransmitAction::SendPacket { payload }) => {
                        lemma_match_sent(flights, next, pre.head_meta(), steps);
                    },
                    Some(TransmitAction::SendFiller { payload }) => {
                        let meta = filler_meta(next, content(payload).len() as usize, now);
                        lemma_match_sent(flights, next, meta, steps);
                    },
                    _ => {
                        lemma_match_kept(flights, next, steps);
                    },
                }
            },
            Step::Acks(acks, now) => {
                let after = flights_after(flights, acks);
                lemma_flights_shrink(flights, acks);
                assert forall|seq: u64| #[trigger]
                    after.contains_key(seq) <==> flights.contains_key(seq)
                        && !steps.last().settles(seq as nat) by {
                    law_acks_settle_their_packets(flights, acks, seq);
                }
                lemma_match_settled(flights, after, next, steps);
            },
            Step::Loss(loss, now) => {
                lemma_match_settled(flights, flights.remove(loss.seq), next, steps);
            },
            _ => {
                assert(post.pacer.in_flight@ == flights);
                lemma_match_kept(flights, next, steps);
            },
        }
    }
}

/// The bytes of matching flights are those of the unsettled sends.
proof fn lemma_matched_bytes(
    flights: Map<u64, PacketMeta>,
    next_seq: u64,
    steps: Seq<Step>,
    n: nat,
)
    requires
        flights_match(flights, next_seq, steps),
        n <= sends(steps).len(),
    ensures
        flight_bytes(flights, n + 1) == unsettled_bytes(steps, n),
    decreases n,
{
    if n == 0 {
        lemma_unsettled_in_range(steps, 0);
        assert(flights.contains_key(0) <==> unsettled(steps, 0));
        assert(flight_bytes(flights, 0) == 0);
    } else {
        lemma_matched_bytes(flights, next_seq, steps, (n - 1) as nat);
        assert(flights.contains_key(n as u64) <==> unsettled(steps, n));
    }
}

/// The bytes in flight are those of the unsettled sends.
#[verifier::rlimit(50)]
proof fn lemma_bytes<CC: CongestionController, F: BacklogFiller>(
    states: Seq<Vidaptive<CC, F>>,
    steps: Seq<Step>,
)
    requires
        history(states, steps),
        forall|n: int|
            0 <= n <= steps.len() ==> open_bytes(#[trigger] steps.take(n)) <= u64::MAX,
    ensures
        states.last().pacer.bytes_in_flight == open_bytes(steps),
        states.last().pacer.accounted(),
    decreases steps.len(),
{
    let post = states.last();
    let count: nat = sends(steps).len();
    lemma_flights_match(states, steps);
    lemma_matched_bytes(post.pacer.in_flight@, post.pacer.next_seq, steps, count);
    assert(steps.take(steps.len() as int) =~= steps);
    assert forall|seq: u64| #[trigger] post.pacer.in_flight@.contains_key(seq) implies seq
        < post.pacer.next_seq by {
        lemma_unsettled_in_range(steps, seq as nat);
    }
    if steps.len() > 0 {
        let n: int = steps.len() - 1;
        let rest = steps.drop_last();
        lemma_history_prefix(states, steps, n);
        assert(steps.take(n) =~= rest);
        assert forall|m: int| 0 <= m <= rest.len() implies open_bytes(
            #[trigger] rest.take(m),
        ) <= u64::MAX by {
            assert(rest.take(m) =~= steps.take(m));
        }
        lemma_bytes(states.take(n + 1), rest);
        let pre = states[n];
        assert(stepped(pre, post, steps[n]));
        lemma_step_bytes(pre, post, steps.last());
    }
}

/// The bytes in flight after a step are those of the packets in flight, held to the range of
/// `u64`.
#[verifier::rlimit(50)]
proof fn lemma_step_bytes<CC: CongestionController, F: BacklogFiller>(
    pre: Vidaptive<CC, F>,
    post: Vidaptive<CC, F>,
    step: Step,
)
    requires
        pre.pacer.accounted(),
        stepped(pre, post, step),
    ensures
        flight_bytes(post.pacer.in_flight@, post.pacer.next_seq as nat) <= u64::MAX
            ==> post.pacer.bytes_in_flight == flight_bytes(
            post.pacer.in_flight@,
            post.pacer.next_seq as nat,
        ),
{
    match step {
        Step::Poll(now, action) => {
            let next = pre.pacer.next_seq;
            match action {
                Some(TransmitAction::SendPacket { payload }) => {
                    lemma_flight_beyond(
                        pre.pacer.in_flight@,
                        next,
                        pre.head_meta(),
                        next as nat,
                    );
                },
                Some(TransmitAction::SendFiller { payload }) => {
                    let meta = filler_meta(next, content(payload).len() as usize, now);
                    lemma_flight_beyond(pre.pacer.in_flight@, next, meta, next as nat);
                },
                _ => {},
            }
        },
        Step::Acks(acks, now) => {
            law_acks_are_accounted(pre, post, acks, now);
        },
        Step::Loss(loss, now) => {
            law_loss_is_accounted(pre, post, loss, now);
        },
        _ => {},
    }
}

/// Nothing unsettled is no bytes.
proof fn lemma_all_settled(steps: Seq<Step>, n: nat)
    requires
        forall|k: nat| !unsettled(steps, k),
    ensures
        unsettled_bytes(steps, n) == 0,
    decreases n,
{
    if n > 0 {
        lemma_all_settled(steps, (n - 1) as nat);
    }
}

/// Over any sequence of calls the sends, media and filler together, are numbered 1, 2, 3 and so
/// on, and each is reported to the congestion controller under its number. The bytes in flight
/// are the payload bytes of the sends that no later call acknowledged or reported lost, so
/// settling everything brings them back to 0. Only where those bytes exceed the counter is this
/// not so.
#[verifier::rlimit(50)]
pub proof fn law_flight_over_a_history<CC: CongestionController, F: BacklogFiller>(
    states: Seq<Vidaptive<CC, F>>,
    steps: Seq<Step>,
)
    requires
        history(states, steps),
        forall|n: int|
            0 <= n <= steps.len() ==> open_bytes(#[trigger] steps.take(n)) <= u64::MAX,
    ensures
        states.last().pacer.bytes_in_flight == open_bytes(steps),
        (forall|k: nat| !unsettled(steps, k)) ==> states.last().pacer.bytes_in_flight == 0,
        states.last().pacer.next_seq == sends(steps).len() + 1,
        forall|i: int|
            0 <= i < steps.len() && (#[trigger] steps[i]).wire() is Some ==> exists|
                sent: SentPacket,
            |
                {
                    &&& #[trigger] states[i + 1].cc.after_send(&states[i].cc, sent)
                    &&& sent.seq == sends(steps.take(i + 1)).len()
                    &&& sent.len == content(steps[i].wire()->0).len()
                },
{
    lemma_bytes(states, steps);
    lemma_flights_match(states, steps);
    if forall|k: nat| !unsettled(steps, k) {
        lemma_all_settled(steps, sends(steps).len());
    }
    assert forall|i: int| 0 <= i < steps.len() && (
    #[trigger] steps[i]).wire() is Some implies exists|sent: SentPacket|
        {
            &&& #[trigger] states[i + 1].cc.after_send(&states[i].cc, sent)
            &&& sent.seq == sends(steps.take(i + 1)).len()
            &&& sent.len == content(steps[i].wire()->0).len()
        } by {
        let pre = states[i];
        let post = states[i + 1];
        assert(stepped(pre, post, steps[i]));
        lemma_history_prefix(states, steps, i);
        lemma_flights_match(states.take(i + 1), steps.take(i));
        assert(steps.take(i + 1).drop_last() =~= steps.take(i));
        assert(steps.take(i + 1).last() == steps[i]);
        match steps[i] {
            Step::Poll(now, Some(TransmitAction::SendPacket { payload })) => {
                assert(post.cc.after_send(&pre.cc, pre.media_notice(now)));
            },
            Step::Poll(now, Some(TransmitAction::SendFiller { payload })) => {
                let notice = pre.filler_notice(content(payload).len() as usize, now);
                assert(post.cc.after_send(&pre.cc, notice));
            },
            _ => {},
        }
    }
}

/// Whether a session holds these values for a frame, for when its next packet is sent.
spec fn holds_context<CC: CongestionController, F: BacklogFiller>(
    s: Vidaptive<CC, F>,
    id: u64,
    target: u64,
    rate: u64,
) -> bool {
    if s.frames_in_flight@.contains_key(id) {
        &&& s.frames_in_flight@[id].target_bitrate_bps == target
        &&& s.frames_in_flight@[id].cc_rate_bytes_per_sec == rate
    } else {
        &&& s.frame_targets@.contains_key(id)
        &&& s.frame_targets@[id].target_bitrate_bps == target
        &&& s.frame_targets@[id].cc_rate_bytes_per_sec == rate
    }
}

/// Whether a step ends or replaces a frame: it enqueues one of the same id, or sends or settles
/// its last packet.
pub open spec fn ends_or_replaces<CC: CongestionController, F: BacklogFiller>(
    pre: Vidaptive<CC, F>,
    step: Step,
    id: u64,
) -> bool {
    match step {
        Step::Enqueue(frame, _) => frame.id == id,
        Step::Poll(_, Some(TransmitAction::SendPacket { payload })) => {
            &&& pre.pacer.queue@[0].frame_id == id
            &&& pre.pacer.queue@[0].fin
        },
        Step::Acks(acks, _) => ends_frame(pre.pacer.in_flight@, acks, id),
        Step::Loss(loss, _) => {
            let flights = pre.pacer.in_flight@;
            &&& flights.contains_key(loss.seq)
            &&& !flights[loss.seq].is_filler
            &&& flights[loss.seq].fin
            &&& flights[loss.seq].frame_id == id
        },
        _ => false,
    }
}

/// A step that neither ends nor replaces a frame keeps what is held of it.
#[verifier::rlimit(50)]
proof fn lemma_context_kept<CC: CongestionController, F: BacklogFiller>(
    pre: Vidaptive<CC, F>,
    post: Vidaptive<CC, F>,
    step: Step,
    id: u64,
    target: u64,
    rate: u64,
)
    requires
        stepped(pre, post, step),
        holds_context(pre, id, target, rate),
        head_timed(pre.pacer.queue@),
        !ends_or_replaces(pre, step, id),
    ensures
        holds_context(post, id, target, rate),
{
    match step {
        Step::Enqueue(frame, now) => {
            law_enqueue_effects(pre, post, frame, now);
            assert(post.frame_targets@.contains_key(id) == pre.frame_targets@.contains_key(id));
        },
        Step::Acks(acks, now) => {
            law_ack_effects(pre, post, acks, now);
            assert(post.frame_targets@.contains_key(id) <==> pre.frame_targets@.contains_key(id));
            assert(post.frames_in_flight@.contains_key(id)
                <==> pre.frames_in_flight@.contains_key(id));
        },
        Step::Loss(loss, now) => {
            law_loss_effects(pre, post, loss, now);
        },
        Step::Tick(now) => {
            law_tick_effects(pre, post, now);
        },
        Step::Poll(now, action) => {
            law_poll_leaves_control_alone(pre, post, now, action);
            if action is Some && action->0 is SendPacket {
                let payload = on_the_wire(action)->0;
                law_frame_makes_a_sample(pre, post, now, payload);
                assert(pre.pacer.queue@[0].frame_id == id || post.frame_targets@.contains_key(id)
                    == pre.frame_targets@.contains_key(id));
                assert(pre.pacer.queue@[0].frame_id == id
                    || post.frames_in_flight@.contains_key(id)
                    == pre.frames_in_flight@.contains_key(id));
            }
        },
        _ => {},
    }
}

/// The head of the queue is timed in every state of a history.
#[verifier::rlimit(50)]
proof fn lemma_heads_timed<CC: CongestionController, F: BacklogFiller>(
    states: Seq<Vidaptive<CC, F>>,
    steps: Seq<Step>,
    i: int,
)
    requires
        history(states, steps),
        0 <= i <= steps.len(),
    ensures
        head_timed(states[i].pacer.queue@),
    decreases i,
{
    if i > 0 {
        lemma_heads_timed(states, steps, i - 1);
        let pre = states[i - 1];
        let post = states[i];
        assert(stepped(pre, post, steps[i - 1]));
        match steps[i - 1] {
            Step::Enqueue(frame, now) => {
                law_enqueue_keeps_payloads(pre, post, frame, now);
            },
            Step::Poll(now, action) => {
                law_transmit_keeps_payloads(pre, post, now, action);
            },
            _ => {
                assert(post.pacer.queue@ == pre.pacer.queue@);
            },
        }
    }
}

/// What is held of a frame from its enqueue on.
#[verifier::rlimit(50)]
proof fn lemma_context_held<CC: CongestionController, F: BacklogFiller>(
    states: Seq<Vidaptive<CC, F>>,
    steps: Seq<Step>,
    enqueue: int,
    frame: EncodedFrame,
    at: Instant,
    i: int,
)
    requires
        history(states, steps),
        0 <= enqueue < i <= steps.len(),
        steps[enqueue] == Step::Enqueue(frame, at),
        !states[enqueue].frames_in_flight@.contains_key(frame.id),
        forall|j: int|
            enqueue < j < i ==> !ends_or_replaces(states[j], #[trigger] steps[j], frame.id),
    ensures
        holds_context(
            states[i],
            frame.id,
            frame.target_bitrate,
            states[enqueue].cc.throughput(),
        ),
    decreases i,
{
    let rate = states[enqueue].cc.throughput();
    if i == enqueue + 1 {
        assert(stepped(states[enqueue], states[i], steps[enqueue]));
        law_enqueue_effects(states[enqueue], states[i], frame, at);
    } else {
        lemma_context_held(states, steps, enqueue, frame, at, i - 1);
        lemma_heads_timed(states, steps, i - 1);
        assert(stepped(states[i - 1], states[i], steps[i - 1]));
        lemma_context_kept(
            states[i - 1],
            states[i],
            steps[i - 1],
            frame.id,
            frame.target_bitrate,
            rate,
        );
    }
}

/// A frame that was enqueued and then sent to its last packet, whatever else was called in
/// between, leaves a service sample with the target bitrate it was enqueued with and the CC-Rate
/// at the time of the enqueue: the throughput of the congestion controller, not its pacing rate.
#[verifier::rlimit(50)]
pub proof fn law_sample_remembers_the_encoding<CC: CongestionController, F: BacklogFiller>(
    states: Seq<Vidaptive<CC, F>>,
    steps: Seq<Step>,
    enqueue: int,
    frame: EncodedFrame,
    at: Instant,
    end: int,
    now: Instant,
    payload: Bytes,
)
    requires
        history(states, steps),
        0 <= enqueue < end < steps.len(),
        steps[enqueue] == Step::Enqueue(frame, at),
        !states[enqueue].frames_in_flight@.contains_key(frame.id),
        forall|j: int|
            enqueue < j < end ==> !ends_or_replaces(states[j], #[trigger] steps[j], frame.id),
        steps[end] == Step::Poll(now, Some(TransmitAction::SendPacket { payload })),
        states[end].pacer.queue@[0].frame_id == frame.id,
        states[end].pacer.queue@[0].fin,
    ensures
        ({
            let samples = states[end + 1].samples.samples@;
            &&& samples.len() > 0
            &&& samples.last().at == now
            &&& samples.last().target_bitrate_bps == frame.target_bitrate
            &&& samples.last().cc_rate_bytes_per_sec == states[enqueue].cc.throughput()
        }),
{
    lemma_context_held(states, steps, enqueue, frame, at, end);
    lemma_heads_timed(states, steps, end);
    let pre = states[end];
    let post = states[end + 1];
    assert(stepped(pre, post, steps[end]));
    law_poll_decides(pre, post, now, Some(TransmitAction::SendPacket { payload }));
    assert(pre.pacer.queue@.len() > 0);
    assert(pre.pacer.queue@[0].at_head_at is Some);
    law_frame_makes_a_sample(pre, post, now, payload);
}

/// Handling an event is two steps: that of the event, and a poll.
pub proof fn law_handle_is_two_steps<CC: CongestionController, F: BacklogFiller>(
    pre: Vidaptive<CC, F>,
    post: Vidaptive<CC, F>,
    input: VidaptiveInput,
    now: Instant,
    output: VidaptiveOutput,
)
    requires
        post.handled_from(pre, input, now, output),
    ensures
        exists|taken: Vidaptive<CC, F>| #[trigger]
            stepped(pre, taken, event_step(input, now)) && stepped(
                taken,
                post,
                Step::Poll(now, output.transmit),
            ),
        output.encoder == post.encoder,
{
    let taken = choose|taken: Vidaptive<CC, F>| #[trigger]
        taken.input_taken_from(pre, input, now) && post.transmitted_from(
            taken,
            now,
            output.transmit,
        );
    assert(stepped(pre, taken, event_step(input, now)));
}

} // verus!
