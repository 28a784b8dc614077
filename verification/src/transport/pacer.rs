//! Pacer queue, pacing gate, and bytes-in-flight accounting.

use std::collections::BTreeMap;

use bytes::Bytes;
use vstd::prelude::*;

use crate::bounded::{minus_floored, saturated};
use crate::time::{elapsed, Duration, Instant, LATEST};
use crate::transport::laws::law_deadline_follows_the_rate;
use crate::types::{content, MediaPacket, PacketMeta};

verus! {

/// A media packet that waits to be sent.
#[derive(Debug, Clone)]
pub struct QueuedPacket {
    /// Owning frame id.
    pub frame_id: u64,
    /// On-wire payload bytes.
    pub payload: Bytes,
    /// Last packet of the logical frame.
    pub fin: bool,
    /// Whether this packet counts toward the video-bitrate cap.
    pub counts_as_video: bool,
    /// Time the packet entered the queue.
    pub queued_at: Instant,
    /// Time the packet became head-of-line, once it has.
    pub at_head_at: Option<Instant>,
}

/// Media queue and pacing state.
///
/// Accepts pre-formed wire packets; does not split or packetize payloads.
#[derive(Debug)]
pub struct Pacer {
    /// Packets that wait, oldest first.
    pub queue: Vec<QueuedPacket>,
    /// Packets sent and neither completed nor dropped, by sequence number.
    pub in_flight: BTreeMap<u64, PacketMeta>,
    /// Sequence number of the next packet sent.
    pub next_seq: u64,
    /// Earliest time of the next send, once something was sent.
    pub next_send_at: Option<Instant>,
    /// Payload bytes in flight.
    pub bytes_in_flight: u64,
}

/// The queue entry of a packet enqueued at `now`.
pub open spec fn enqueued(frame_id: u64, packet: MediaPacket, now: Instant) -> QueuedPacket {
    QueuedPacket {
        frame_id,
        payload: packet.payload,
        fin: packet.fin,
        counts_as_video: packet.counts_as_video,
        queued_at: now,
        at_head_at: None,
    }
}

/// The queue entries of the packets that carry bytes, in order.
pub open spec fn all_enqueued(frame_id: u64, packets: Seq<MediaPacket>, now: Instant) -> Seq<
    QueuedPacket,
>
    decreases packets.len(),
{
    if packets.len() == 0 {
        Seq::empty()
    } else {
        let rest = all_enqueued(frame_id, packets.drop_last(), now);
        if content(packets.last().payload).len() == 0 {
            rest
        } else {
            rest.push(enqueued(frame_id, packets.last(), now))
        }
    }
}

/// The queue with its head marked as head-of-line from `now` on, unless it already is.
pub open spec fn head_marked(queue: Seq<QueuedPacket>, now: Instant) -> Seq<QueuedPacket> {
    if queue.len() > 0 && queue[0].at_head_at is None {
        queue.update(0, QueuedPacket { at_head_at: Some(now), ..queue[0] })
    } else {
        queue
    }
}

/// Time since which a queue entry has been at the head.
pub open spec fn head_since(packet: QueuedPacket) -> Instant {
    match packet.at_head_at {
        Some(t) => t,
        None => packet.queued_at,
    }
}

/// The metadata of a queue entry sent under `seq`.
pub open spec fn meta_of(packet: QueuedPacket, seq: u64) -> PacketMeta {
    PacketMeta {
        seq,
        frame_id: packet.frame_id,
        is_filler: false,
        len: content(packet.payload).len() as usize,
        queued_at: packet.queued_at,
        at_head_at: head_since(packet),
        fin: packet.fin,
        counts_as_video: packet.counts_as_video,
    }
}

/// The metadata of a filler packet of `len` bytes sent under `seq`.
pub open spec fn filler_meta(seq: u64, len: usize, now: Instant) -> PacketMeta {
    PacketMeta {
        seq,
        frame_id: 0,
        is_filler: true,
        len,
        queued_at: now,
        at_head_at: now,
        fin: true,
        counts_as_video: false,
    }
}

/// Nanoseconds that `len` bytes take at `rate` bytes per second, held to the range of `u64`.
pub open spec fn interval_nanos(len: nat, rate: u64) -> u64 {
    if rate == 0 {
        0
    } else {
        saturated(len * 1_000_000_000 / (rate as nat))
    }
}

/// Earliest time of the next send after one of `len` bytes.
pub open spec fn next_send(sent_at: Instant, len: nat, rate: u64) -> int {
    sent_at@ + interval_nanos(len, rate)
}

impl Pacer {
    /// Creates an empty pacer.
    #[must_use]
    pub fn new() -> (p: Self)
        ensures
            p.queue@.len() == 0,
            p.in_flight@ == Map::<u64, PacketMeta>::empty(),
            p.next_seq == 1,
            p.next_send_at is None,
            p.bytes_in_flight == 0,
    {
        Pacer {
            queue: Vec::new(),
            in_flight: BTreeMap::new(),
            next_seq: 1,
            next_send_at: None,
            bytes_in_flight: 0,
        }
    }

    /// Everything but the queue is as in `other`.
    pub open spec fn same_but_queue(self, other: Pacer) -> bool {
        &&& self.in_flight == other.in_flight
        &&& self.next_seq == other.next_seq
        &&& self.next_send_at == other.next_send_at
        &&& self.bytes_in_flight == other.bytes_in_flight
    }

    /// Enqueues pre-formed packets for one logical frame.
    pub fn enqueue_packets(&mut self, frame_id: u64, packets: Vec<MediaPacket>, now: Instant)
        ensures
            final(self).queue@ == head_marked(
                old(self).queue@ + all_enqueued(frame_id, packets@, now),
                now,
            ),
            final(self).same_but_queue(*old(self)),
    {
        let ghost before: Seq<QueuedPacket> = self.queue@;
        let ghost all: Seq<MediaPacket> = packets@;
        assert(before + all_enqueued(frame_id, all.take(0), now) =~= before);
        for packet in iter: packets
            invariant
                iter.seq() == all,
                self.queue@ == before + all_enqueued(frame_id, all.take(iter.index() as int), now),
                self.same_but_queue(*old(self)),
        {
            let ghost i: int = iter.index() as int;
            proof {
                assert(all.take(i + 1).drop_last() =~= all.take(i));
                assert(all.take(i + 1).last() == packet);
            }
            if !packet.payload.is_empty() {
                let ghost queue: Seq<QueuedPacket> = self.queue@;
                self.queue.push(
                    QueuedPacket {
                        frame_id,
                        payload: packet.payload,
                        fin: packet.fin,
                        counts_as_video: packet.counts_as_video,
                        queued_at: now,
                        at_head_at: None,
                    },
                );
                assert(self.queue@ =~= before + all_enqueued(frame_id, all.take(i + 1), now));
            }
        }
        assert(all.take(all.len() as int) =~= all);
        self.mark_queue_head(now);
    }

    /// Marks the head-of-line packet's service-time start if not already set.
    pub fn mark_queue_head(&mut self, now: Instant)
        ensures
            final(self).queue@ == head_marked(old(self).queue@, now),
            final(self).same_but_queue(*old(self)),
    {
        if self.queue.len() > 0 {
            if self.queue[0].at_head_at.is_none() {
                self.queue[0].at_head_at = Some(now);
            }
        }
    }

    /// Whether any media packet is waiting in the queue.
    #[must_use]
    pub fn has_media(&self) -> (r: bool)
        ensures
            r == (self.queue@.len() > 0),
    {
        self.queue.len() > 0
    }

    /// Number of packets currently waiting in the pacer queue.
    #[must_use]
    pub fn queue_len(&self) -> (n: usize)
        ensures
            n == self.queue@.len(),
    {
        self.queue.len()
    }

    /// How long the oldest queued packet has waited at `now`, since it was enqueued.
    pub open spec fn oldest_age(self, now: Instant) -> Option<Duration> {
        if self.queue@.len() == 0 {
            None
        } else {
            Some(Duration { nanos: elapsed(now, self.queue@[0].queued_at) as u128 })
        }
    }

    /// Age of the oldest queued packet (time since it was enqueued), if any.
    ///
    /// This measures how long the oldest packet has been *waiting in the
    /// queue*, which is what the safeguards need to detect queue buildup. The time
    /// since it became head-of-line would stay near 0 while the FIFO drains quickly
    /// even as the queue grows unbounded.
    #[must_use]
    pub fn oldest_queued_age(&self, now: Instant) -> (age: Option<Duration>)
        ensures
            age == self.oldest_age(now),
    {
        if self.queue.len() == 0 {
            None
        } else {
            Some(now.saturating_duration_since(self.queue[0].queued_at))
        }
    }

    /// Total bytes currently in flight on the network.
    #[must_use]
    pub fn bytes_in_flight(&self) -> (n: u64)
        ensures
            n == self.bytes_in_flight,
    {
        self.bytes_in_flight
    }

    /// Updates the pacing deadline after a send of `len` bytes at `pacing_rate`.
    pub fn record_send(&mut self, len: usize, pacing_rate: u64, sent_at: Instant)
        requires
            next_send(sent_at, len as nat, pacing_rate) <= LATEST,
        ensures
            final(self).next_send_at matches Some(t) && t@ == next_send(
                sent_at,
                len as nat,
                pacing_rate,
            ),
            ({
                let wait: int = final(self).next_send_at->0@ - sent_at@;
                &&& 0 <= wait <= u64::MAX
                &&& pacing_rate == 0 ==> wait == 0
                &&& pacing_rate > 0 ==> wait * pacing_rate <= len * 1_000_000_000
                &&& pacing_rate > 0 && wait < u64::MAX ==> len * 1_000_000_000 < (wait + 1)
                    * pacing_rate
            }),
            final(self).queue == old(self).queue,
            final(self).in_flight == old(self).in_flight,
            final(self).next_seq == old(self).next_seq,
            final(self).bytes_in_flight == old(self).bytes_in_flight,
    {
        proof {
            law_deadline_follows_the_rate(sent_at, len as nat, pacing_rate);
        }
        if pacing_rate == 0 {
            self.next_send_at = Some(sent_at);
            return;
        }
        let interval: Duration = pacing_interval(len, pacing_rate);
        self.next_send_at = Some(sent_at.after(interval));
    }

    /// Whether pacing allows a send at `now`: the deadline, if any, has come.
    pub open spec fn ready(self, now: Instant) -> bool {
        self.next_send_at matches Some(deadline) ==> now@ >= deadline@
    }

    /// Returns `true` when pacing allows a send at `now`.
    #[must_use]
    pub fn pacing_ready(&self, now: Instant) -> (r: bool)
        ensures
            r == self.ready(now),
    {
        match self.next_send_at {
            Some(deadline) => !now.is_before(deadline),
            None => true,
        }
    }

    /// Pacing wait deadline when not yet ready.
    #[must_use]
    pub fn pacing_wait_until(&self) -> (t: Option<Instant>)
        ensures
            t == self.next_send_at,
    {
        self.next_send_at
    }

    /// This pacer is `pre` after its head-of-line packet went in flight at `now`, apart from
    /// the pacing deadline.
    pub open spec fn popped_from(self, pre: Pacer, now: Instant) -> bool {
        let meta = meta_of(pre.queue@[0], pre.next_seq);
        &&& self.queue@ == head_marked(pre.queue@.drop_first(), now)
        &&& self.in_flight@ == pre.in_flight@.insert(pre.next_seq, meta)
        &&& self.next_seq == pre.next_seq + 1
        &&& self.bytes_in_flight == saturated(pre.bytes_in_flight as nat + meta.len as nat)
    }

    /// Dequeues the next media packet and registers it in flight.
    pub fn pop_packet(&mut self, now: Instant) -> (r: Option<(PacketMeta, Bytes)>)
        requires
            old(self).queue@.len() > 0 ==> old(self).next_seq < u64::MAX,
        ensures
            r is Some <==> old(self).queue@.len() > 0,
            r matches Some((meta, payload)) ==> {
                &&& meta == meta_of(old(self).queue@[0], old(self).next_seq)
                &&& payload == old(self).queue@[0].payload
                &&& meta.len == content(payload).len()
                &&& final(self).popped_from(*old(self), now)
                &&& final(self).next_send_at == old(self).next_send_at
            },
            r is None ==> *final(self) == *old(self),
    {
        if self.queue.len() == 0 {
            return None;
        }
        let packet: QueuedPacket = self.queue.remove(0);
        assert(self.queue@ =~= old(self).queue@.drop_first());
        let at_head_at: Instant = match packet.at_head_at {
            Some(t) => t,
            None => packet.queued_at,
        };
        self.mark_queue_head(now);
        let seq: u64 = self.next_seq;
        self.next_seq = seq + 1;
        let meta: PacketMeta = PacketMeta {
            seq,
            frame_id: packet.frame_id,
            is_filler: false,
            len: packet.payload.len(),
            queued_at: packet.queued_at,
            at_head_at,
            fin: packet.fin,
            counts_as_video: packet.counts_as_video,
        };
        self.in_flight.insert(seq, meta);
        self.bytes_in_flight = self.bytes_in_flight.saturating_add(meta.len as u64);
        Some((meta, packet.payload))
    }

    /// Registers a filler packet as in flight.
    pub fn register_filler(&mut self, seq: u64, len: usize, now: Instant) -> (meta: PacketMeta)
        requires
            seq < u64::MAX,
        ensures
            meta == filler_meta(seq, len, now),
            final(self).queue == old(self).queue,
            final(self).in_flight@ == old(self).in_flight@.insert(seq, meta),
            final(self).next_seq == (if old(self).next_seq > seq {
                old(self).next_seq
            } else {
                (seq + 1) as u64
            }),
            final(self).next_send_at == old(self).next_send_at,
            final(self).bytes_in_flight == saturated(
                old(self).bytes_in_flight as nat + len as nat,
            ),
    {
        let meta: PacketMeta = PacketMeta {
            seq,
            frame_id: 0,
            is_filler: true,
            len,
            queued_at: now,
            at_head_at: now,
            fin: true,
            counts_as_video: false,
        };
        self.in_flight.insert(seq, meta);
        self.bytes_in_flight = self.bytes_in_flight.saturating_add(len as u64);
        if self.next_seq <= seq {
            self.next_seq = seq + 1;
        }
        meta
    }

    /// This pacer is `pre` after packet `seq` left the network, if it was in flight.
    pub open spec fn settled_from(self, pre: Pacer, seq: u64) -> bool {
        &&& self.queue == pre.queue
        &&& self.next_seq == pre.next_seq
        &&& self.next_send_at == pre.next_send_at
        &&& self.in_flight@ == pre.in_flight@.remove(seq)
        &&& self.bytes_in_flight == (if pre.in_flight@.contains_key(seq) {
            minus_floored(pre.bytes_in_flight, pre.in_flight@[seq].len as nat)
        } else {
            pre.bytes_in_flight
        })
    }

    /// Completes a packet by sequence number; returns metadata for service-time tracking.
    #[must_use]
    pub fn complete_packet(&mut self, seq: u64) -> (r: Option<PacketMeta>)
        ensures
            r == old(self).in_flight@.get(seq),
            final(self).settled_from(*old(self), seq),
    {
        match self.in_flight.remove(&seq) {
            Some(meta) => {
                self.bytes_in_flight = self.bytes_in_flight.saturating_sub(meta.len as u64);
                Some(meta)
            },
            None => {
                assert(old(self).in_flight@.remove(seq) =~= old(self).in_flight@);
                None
            },
        }
    }

    /// Drops in-flight state without completing service-time (loss path).
    pub fn drop_packet(&mut self, seq: u64) -> (r: Option<PacketMeta>)
        ensures
            r == old(self).in_flight@.get(seq),
            final(self).settled_from(*old(self), seq),
    {
        match self.in_flight.remove(&seq) {
            Some(meta) => {
                self.bytes_in_flight = self.bytes_in_flight.saturating_sub(meta.len as u64);
                Some(meta)
            },
            None => {
                assert(old(self).in_flight@.remove(seq) =~= old(self).in_flight@);
                None
            },
        }
    }

    /// Allocates the next sequence number for a filler packet.
    #[must_use]
    pub fn next_seq(&mut self) -> (seq: u64)
        requires
            old(self).next_seq < u64::MAX,
        ensures
            seq == old(self).next_seq,
            final(self).next_seq == old(self).next_seq + 1,
            final(self).queue == old(self).queue,
            final(self).in_flight == old(self).in_flight,
            final(self).next_send_at == old(self).next_send_at,
            final(self).bytes_in_flight == old(self).bytes_in_flight,
    {
        let seq: u64 = self.next_seq;
        self.next_seq = seq + 1;
        seq
    }
}

impl Default for Pacer {
    fn default() -> (p: Self)
        ensures
            p.queue@.len() == 0,
            p.in_flight@ == Map::<u64, PacketMeta>::empty(),
            p.next_seq == 1,
            p.next_send_at is None,
            p.bytes_in_flight == 0,
    {
        Self::new()
    }
}

/// The span between two sends: the time that `len` bytes take at `pacing_rate`.
pub fn pacing_interval(len: usize, pacing_rate: u64) -> (d: Duration)
    ensures
        d.nanos == interval_nanos(len as nat, pacing_rate),
{
    if pacing_rate == 0 {
        return Duration::zero();
    }
    let product: u128 = (len as u128) * 1_000_000_000;
    let nanos: u128 = product / (pacing_rate as u128);
    if nanos <= u64::MAX as u128 {
        Duration::from_nanos(nanos as u64)
    } else {
        Duration::from_nanos(u64::MAX)
    }
}

} // verus!
