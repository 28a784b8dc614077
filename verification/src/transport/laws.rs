//! Laws of the pacer: what goes in comes out once and in order, and the bytes in flight are
//! those of the packets in flight.

use bytes::Bytes;
use vstd::prelude::*;

use super::filler::{BacklogFiller, DummyFiller};
use super::pacer::{
    all_enqueued, head_marked, head_since, interval_nanos, meta_of, next_send, Pacer,
    QueuedPacket,
};
use crate::bounded::saturated;
use crate::time::Instant;
use crate::types::{content, MediaPacket, PacketMeta};

verus! {

/// The payloads that wait, oldest first.
pub open spec fn waiting(queue: Seq<QueuedPacket>) -> Seq<Seq<u8>> {
    queue.map_values(|p: QueuedPacket| content(p.payload))
}

/// The payloads of the packets that carry bytes, in order.
pub open spec fn carried(packets: Seq<MediaPacket>) -> Seq<Seq<u8>> {
    packets.map_values(|p: MediaPacket| content(p.payload)).filter(|c: Seq<u8>| c.len() > 0)
}

/// Marking the head changes no payload.
proof fn lemma_mark_keeps_payloads(queue: Seq<QueuedPacket>, now: Instant)
    ensures
        waiting(head_marked(queue, now)) == waiting(queue),
{
    assert(waiting(head_marked(queue, now)) =~= waiting(queue));
}

/// The queue entries of packets hold their payloads.
proof fn lemma_enqueued_payloads(frame_id: u64, packets: Seq<MediaPacket>, now: Instant)
    ensures
        waiting(all_enqueued(frame_id, packets, now)) == carried(packets),
    decreases packets.len(),
{
    let contents = packets.map_values(|p: MediaPacket| content(p.payload));
    reveal(Seq::filter);
    if packets.len() > 0 {
        let rest = packets.drop_last();
        lemma_enqueued_payloads(frame_id, rest, now);
        assert(contents.drop_last() =~= rest.map_values(|p: MediaPacket| content(p.payload)));
        assert(contents.last() == content(packets.last().payload));
    }
    assert(waiting(all_enqueued(frame_id, packets, now)) =~= carried(packets));
}

/// Enqueuing appends the payloads that carry bytes, unchanged and in order; packets without
/// bytes are skipped.
pub proof fn law_enqueue_appends_payloads(
    pre: Seq<QueuedPacket>,
    frame_id: u64,
    packets: Seq<MediaPacket>,
    now: Instant,
)
    ensures
        waiting(head_marked(pre + all_enqueued(frame_id, packets, now), now)) == waiting(pre)
            + carried(packets),
{
    let all = pre + all_enqueued(frame_id, packets, now);
    lemma_mark_keeps_payloads(all, now);
    lemma_enqueued_payloads(frame_id, packets, now);
    assert(waiting(all) =~= waiting(pre) + waiting(all_enqueued(frame_id, packets, now)));
}

/// Sending takes the payload that has waited longest and leaves the others in order.
pub proof fn law_send_takes_the_oldest(pre: Pacer, post: Pacer, now: Instant)
    requires
        pre.queue@.len() > 0,
        post.popped_from(pre, now),
    ensures
        waiting(pre.queue@) == seq![content(pre.queue@[0].payload)] + waiting(post.queue@),
{
    lemma_mark_keeps_payloads(pre.queue@.drop_first(), now);
    assert(waiting(pre.queue@) =~= seq![content(pre.queue@[0].payload)] + waiting(
        pre.queue@.drop_first(),
    ));
}

/// Exactly the head of the queue has a time since which it has been there.
pub open spec fn head_timed(queue: Seq<QueuedPacket>) -> bool {
    forall|i: int|
        0 <= i < queue.len() ==> ((#[trigger] queue[i]).at_head_at is Some <==> i == 0)
}

/// Queue entries of packets are not at the head yet.
proof fn lemma_enqueued_untimed(frame_id: u64, packets: Seq<MediaPacket>, now: Instant)
    ensures
        forall|i: int|
            0 <= i < all_enqueued(frame_id, packets, now).len() ==> ((#[trigger] all_enqueued(
                frame_id,
                packets,
                now,
            )[i]).at_head_at is None && all_enqueued(frame_id, packets, now)[i].queued_at == now),
    decreases packets.len(),
{
    if packets.len() > 0 {
        lemma_enqueued_untimed(frame_id, packets.drop_last(), now);
    }
}

/// Enqueuing keeps the head's time; a packet that enters an empty queue is at the head from
/// then on.
pub proof fn law_enqueue_times_the_head(
    pre: Seq<QueuedPacket>,
    frame_id: u64,
    packets: Seq<MediaPacket>,
    now: Instant,
)
    requires
        head_timed(pre),
    ensures
        ({
            let post = head_marked(pre + all_enqueued(frame_id, packets, now), now);
            &&& head_timed(post)
            &&& pre.len() > 0 ==> post[0] == pre[0]
            &&& pre.len() == 0 && post.len() > 0 ==> head_since(post[0]) == now
        }),
{
    let added = all_enqueued(frame_id, packets, now);
    let all = pre + added;
    lemma_enqueued_untimed(frame_id, packets, now);
    assert forall|i: int| pre.len() <= i < all.len() implies (
    #[trigger] all[i]).at_head_at is None by {
        assert(all[i] == added[i - pre.len()]);
    }
    if pre.len() > 0 {
        assert(all[0] == pre[0]);
    }
}

/// The packet behind the one sent is at the head from the moment of the send.
pub proof fn law_send_times_the_next_head(pre: Pacer, post: Pacer, now: Instant)
    requires
        pre.queue@.len() > 0,
        head_timed(pre.queue@),
        post.popped_from(pre, now),
    ensures
        head_timed(post.queue@),
        post.queue@.len() > 0 ==> head_since(post.queue@[0]) == now,
{
    let rest = pre.queue@.drop_first();
    assert forall|i: int| 0 <= i < rest.len() implies (#[trigger] rest[i]).at_head_at is None by {
        assert(rest[i] == pre.queue@[i + 1]);
    }
}

/// The age of the queue counts from when its oldest packet was enqueued: neither the packet's
/// time at the head nor a mark there changes it.
pub proof fn law_age_counts_from_enqueue(pre: Pacer, post: Pacer, mark: Instant, now: Instant)
    requires
        post.queue@ == head_marked(pre.queue@, mark),
    ensures
        post.oldest_age(now) == pre.oldest_age(now),
{
}

/// Payload bytes of the packets in flight with sequence numbers below a bound.
pub open spec fn flight_bytes(flights: Map<u64, PacketMeta>, below: nat) -> nat
    decreases below,
{
    if below == 0 {
        0
    } else {
        let seq: u64 = (below - 1) as u64;
        flight_bytes(flights, (below - 1) as nat) + if flights.contains_key(seq) {
            flights[seq].len as nat
        } else {
            0
        }
    }
}

impl Pacer {
    /// The bytes in flight are those of the packets in flight, each of which was sent under
    /// its own sequence number.
    pub open spec fn accounted(self) -> bool {
        &&& forall|seq: u64| #[trigger]
            self.in_flight@.contains_key(seq) ==> seq < self.next_seq && self.in_flight@[seq].seq
                == seq
        &&& self.bytes_in_flight == flight_bytes(self.in_flight@, self.next_seq as nat)
    }
}

/// A packet beyond the bound does not count.
pub proof fn lemma_flight_beyond(
    flights: Map<u64, PacketMeta>,
    seq: u64,
    meta: PacketMeta,
    below: nat,
)
    requires
        below <= seq,
    ensures
        flight_bytes(flights.insert(seq, meta), below) == flight_bytes(flights, below),
    decreases below,
{
    if below > 0 {
        lemma_flight_beyond(flights, seq, meta, (below - 1) as nat);
    }
}

/// A packet below the bound counts once.
pub proof fn lemma_flight_removed(flights: Map<u64, PacketMeta>, seq: u64, below: nat)
    requires
        below <= u64::MAX,
    ensures
        flight_bytes(flights, below) == flight_bytes(flights.remove(seq), below) + if seq < below
            && flights.contains_key(seq) {
            flights[seq].len as nat
        } else {
            0
        },
    decreases below,
{
    if below > 0 {
        lemma_flight_removed(flights, seq, (below - 1) as nat);
    }
}

/// Nothing in flight is no bytes in flight.
proof fn lemma_flight_empty(below: nat)
    ensures
        flight_bytes(Map::empty(), below) == 0,
    decreases below,
{
    if below > 0 {
        lemma_flight_empty((below - 1) as nat);
    }
}

/// A pacer with nothing in flight accounts for no bytes.
pub proof fn law_idle_pacer_is_accounted(p: Pacer)
    requires
        p.in_flight@ == Map::<u64, PacketMeta>::empty(),
    ensures
        p.accounted() <==> p.bytes_in_flight == 0,
{
    lemma_flight_empty(p.next_seq as nat);
}

/// Sending a packet under the next sequence number accounts for its bytes. The number was
/// never used before.
pub proof fn law_send_is_accounted(pre: Pacer, post: Pacer, meta: PacketMeta)
    requires
        pre.accounted(),
        meta.seq == pre.next_seq,
        post.in_flight@ == pre.in_flight@.insert(pre.next_seq, meta),
        post.next_seq == pre.next_seq + 1,
        post.bytes_in_flight == saturated(pre.bytes_in_flight as nat + meta.len as nat),
        pre.bytes_in_flight + meta.len <= u64::MAX,
    ensures
        post.accounted(),
        !pre.in_flight@.contains_key(meta.seq),
{
    lemma_flight_beyond(pre.in_flight@, pre.next_seq, meta, pre.next_seq as nat);
}

/// A packet that leaves the network takes exactly its own bytes with it.
pub proof fn law_settle_is_accounted(pre: Pacer, post: Pacer, seq: u64)
    requires
        pre.accounted(),
        post.settled_from(pre, seq),
    ensures
        post.accounted(),
        pre.in_flight@.contains_key(seq) ==> post.bytes_in_flight == pre.bytes_in_flight
            - pre.in_flight@[seq].len,
{
    lemma_flight_removed(pre.in_flight@, seq, pre.next_seq as nat);
}

/// A packet sent and then settled leaves the packets and bytes in flight as they were.
pub proof fn law_send_then_settle_restores(pre: Pacer, sent: Pacer, post: Pacer, now: Instant)
    requires
        pre.accounted(),
        pre.queue@.len() > 0,
        sent.popped_from(pre, now),
        pre.bytes_in_flight + content(pre.queue@[0].payload).len() <= u64::MAX,
        content(pre.queue@[0].payload).len() <= usize::MAX,
        post.settled_from(sent, pre.next_seq),
    ensures
        post.in_flight@ == pre.in_flight@,
        post.bytes_in_flight == pre.bytes_in_flight,
{
    let meta = meta_of(pre.queue@[0], pre.next_seq);
    law_send_is_accounted(pre, sent, meta);
    assert(post.in_flight@ =~= pre.in_flight@);
}

/// The age of a queue is the time since its oldest packet was enqueued; an empty one has none.
pub proof fn law_age_of_the_queue(p: Pacer, now: Instant)
    ensures
        p.queue@.len() == 0 ==> p.oldest_age(now) is None,
        p.queue@.len() > 0 ==> p.oldest_age(now) is Some,
        p.queue@.len() > 0 && now@ < p.queue@[0].queued_at@ ==> p.oldest_age(now)->0.nanos == 0,
        p.queue@.len() > 0 && 0 <= now@ - p.queue@[0].queued_at@ <= u128::MAX ==> p.oldest_age(
            now,
        )->0.nanos == now@ - p.queue@[0].queued_at@,
{
}

/// Pacing allows a send exactly from the deadline on, and always before any send.
pub proof fn law_pacing_opens_at_the_deadline(p: Pacer, now: Instant)
    ensures
        p.next_send_at is None ==> p.ready(now),
        p.next_send_at is Some ==> (p.ready(now) <==> now@ >= p.next_send_at->0@),
{
}

/// The deadline after a send of `len` bytes is the time of the send plus the nanoseconds that
/// the bytes take at the rate, rounded down: at most 2^64 - 1, and none at rate 0.
pub proof fn law_deadline_follows_the_rate(sent_at: Instant, len: nat, rate: u64)
    ensures
        ({
            let wait: int = next_send(sent_at, len, rate) - sent_at@;
            &&& 0 <= wait <= u64::MAX
            &&& rate == 0 ==> wait == 0
            &&& rate > 0 ==> wait * rate <= len * 1_000_000_000
            &&& rate > 0 && wait < u64::MAX ==> len * 1_000_000_000 < (wait + 1) * rate
        }),
{
    if rate > 0 {
        let n: nat = len * 1_000_000_000;
        let r: nat = rate as nat;
        vstd::arithmetic::div_mod::lemma_fundamental_div_mod(n as int, r as int);
        let q: nat = n / r;
        let m: nat = n % r;
        let wait: int = next_send(sent_at, len, rate) - sent_at@;
        assert(wait <= q);
        assert(q * r <= n && n < (q + 1) * r) by (nonlinear_arith)
            requires
                n == r * q + m,
                0 <= m < r,
        ;
        assert(wait * r <= q * r) by (nonlinear_arith)
            requires
                0 <= wait <= q,
        ;
    }
}

/// At a rate other than 0 the next send waits until `len` bytes at that rate have passed: its
/// bytes per second stay within the rate, up to the nanosecond that is rounded away.
pub proof fn law_pacing_holds_the_rate(len: nat, rate: u64)
    requires
        rate > 0,
        len * 1_000_000_000 / (rate as nat) <= u64::MAX,
    ensures
        interval_nanos(len, rate) * rate <= len * 1_000_000_000 < (interval_nanos(len, rate) + 1)
            * rate,
{
    let n: nat = len * 1_000_000_000;
    let r: nat = rate as nat;
    vstd::arithmetic::div_mod::lemma_fundamental_div_mod(n as int, r as int);
    let q: nat = n / r;
    let m: nat = n % r;
    assert(q * r <= n && n < (q + 1) * r) by (nonlinear_arith)
        requires
            n == r * q + m,
            0 <= m < r,
    ;
}

/// Dummy padding always has a packet: zeros, as many as its size, which is also its limit.
pub proof fn law_dummy_is_zeros(
    pre: DummyFiller,
    post: DummyFiller,
    now: Instant,
    packet: Option<Bytes>,
)
    requires
        post.after_next(&pre, now, packet),
    ensures
        packet is Some,
        content(packet->0).len() == pre.packet_size,
        forall|i: int| 0 <= i < pre.packet_size ==> (#[trigger] content(packet->0)[i]) == 0,
        pre.size_limit() == pre.packet_size,
        post == pre,
{
}

/// A packet of dummy padding handed over is counted.
pub proof fn law_dummy_is_counted(
    pre: DummyFiller,
    post: DummyFiller,
    seq: u64,
    len: usize,
    now: Instant,
)
    requires
        post.after_send(&pre, seq, len, now),
    ensures
        post.sent_packets == pre.sent_packets + 1,
        post.packet_size == pre.packet_size,
{
}

} // verus!
