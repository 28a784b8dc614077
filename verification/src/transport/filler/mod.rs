//! Dummy padding for backlog periods.

use bytes::Bytes;
use vstd::prelude::*;

use crate::time::Instant;
use crate::types::content;

pub mod dummy;

pub use dummy::{DummyFiller, DEFAULT_DUMMY_PACKET_SIZE};

verus! {

/// Produces dummy filler packets when the pacer is ready but the video queue is empty.
pub trait BacklogFiller {
    /// Whether the filler can produce and account for one more packet.
    spec fn usable(&self) -> bool;

    /// Most bytes that a packet holds.
    spec fn size_limit(&self) -> usize;

    /// Whether this is `pre` after it was asked at `now` and gave `packet`.
    spec fn after_next(&self, pre: &Self, now: Instant, packet: Option<Bytes>) -> bool;

    /// Whether this is `pre` after the packet `seq` of `len` bytes was handed over at `now`.
    spec fn after_send(&self, pre: &Self, seq: u64, len: usize, now: Instant) -> bool;

    /// Maximum filler payload size in bytes.
    fn max_packet_size(&self) -> (n: usize)
        ensures
            n == self.size_limit(),
    ;

    /// Returns the next filler packet if one is available.
    fn next_packet(&mut self, now: Instant) -> (packet: Option<Bytes>)
        requires
            old(self).usable(),
        ensures
            final(self).usable(),
            final(self).after_next(old(self), now, packet),
            packet matches Some(p) ==> content(p).len() <= old(self).size_limit(),
    ;

    /// Called after the filler packet was handed to the application for send.
    fn on_packet_sent(&mut self, seq: u64, len: usize, now: Instant)
        requires
            old(self).usable(),
        ensures
            final(self).after_send(old(self), seq, len, now),
    ;
}

/// A filler whose packets follow from what it has seen alone.
pub trait ReproducibleFiller: BacklogFiller + Sized {
    /// Whether two fillers cannot be told apart.
    spec fn alike(&self, other: &Self) -> bool;

    /// No filler can be told apart from itself.
    proof fn law_alike_itself(a: Self)
        ensures
            a.alike(&a),
    ;

    /// Fillers that cannot be told apart give packets of the same bytes, or none, and stay so.
    proof fn law_alike_after_next(
        pre_a: Self,
        pre_b: Self,
        a: Self,
        b: Self,
        now: Instant,
        packet_a: Option<Bytes>,
        packet_b: Option<Bytes>,
    )
        requires
            pre_a.alike(&pre_b),
            a.after_next(&pre_a, now, packet_a),
            b.after_next(&pre_b, now, packet_b),
        ensures
            a.alike(&b),
            packet_a is Some <==> packet_b is Some,
            packet_a is Some ==> content(packet_a->0) == content(packet_b->0),
    ;

    /// A packet handed over leaves them so.
    proof fn law_alike_after_send(
        pre_a: Self,
        pre_b: Self,
        a: Self,
        b: Self,
        seq: u64,
        len: usize,
        now: Instant,
    )
        requires
            pre_a.alike(&pre_b),
            a.after_send(&pre_a, seq, len, now),
            b.after_send(&pre_b, seq, len, now),
        ensures
            a.alike(&b),
    ;
}

} // verus!
