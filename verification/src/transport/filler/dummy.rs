//! Dummy padding (default ≤ 200 B per packet).

use bytes::Bytes;
use vstd::prelude::*;

use crate::time::Instant;
use crate::transport::filler::{BacklogFiller, ReproducibleFiller};
use crate::types::{bytes_from_vec, content};

verus! {

/// Maximum dummy payload size (default 200 B).
pub const DEFAULT_DUMMY_PACKET_SIZE: usize = 200;

/// Generates zero-filled dummy packets.
#[derive(Debug, Clone, Copy)]
pub struct DummyFiller {
    /// Payload size of every packet.
    pub packet_size: usize,
    /// Packets handed over so far.
    pub sent_packets: u64,
}

impl DummyFiller {
    /// Creates a filler using the default 200-byte payloads.
    #[must_use]
    pub fn new() -> (f: Self)
        ensures
            f == (DummyFiller { packet_size: DEFAULT_DUMMY_PACKET_SIZE, sent_packets: 0 }),
    {
        Self::with_packet_size(DEFAULT_DUMMY_PACKET_SIZE)
    }

    /// Creates a filler with a custom payload size.
    #[must_use]
    pub fn with_packet_size(packet_size: usize) -> (f: Self)
        ensures
            f == (DummyFiller { packet_size, sent_packets: 0 }),
    {
        DummyFiller { packet_size, sent_packets: 0 }
    }

    /// Number of filler packets produced so far (for tests / metrics).
    #[must_use]
    pub fn sent_packets(&self) -> (n: u64)
        ensures
            n == self.sent_packets,
    {
        self.sent_packets
    }
}

impl Default for DummyFiller {
    fn default() -> (f: Self)
        ensures
            f == (DummyFiller { packet_size: DEFAULT_DUMMY_PACKET_SIZE, sent_packets: 0 }),
    {
        Self::new()
    }
}

/// A payload of zeros.
pub open spec fn zeros(len: nat) -> Seq<u8> {
    Seq::new(len, |i: int| 0u8)
}

impl BacklogFiller for DummyFiller {
    open spec fn usable(&self) -> bool {
        self.sent_packets < u64::MAX
    }

    open spec fn size_limit(&self) -> usize {
        self.packet_size
    }

    open spec fn after_next(&self, pre: &Self, now: Instant, packet: Option<Bytes>) -> bool {
        &&& *self == *pre
        &&& packet matches Some(p) && content(p) == zeros(pre.packet_size as nat)
    }

    open spec fn after_send(&self, pre: &Self, seq: u64, len: usize, now: Instant) -> bool {
        &&& self.packet_size == pre.packet_size
        &&& self.sent_packets == pre.sent_packets + 1
    }

    fn max_packet_size(&self) -> (n: usize) {
        self.packet_size
    }

    fn next_packet(&mut self, now: Instant) -> (packet: Option<Bytes>) {
        let payload: Vec<u8> = vec![0u8; self.packet_size];
        assert(payload@ =~= zeros(self.packet_size as nat));
        Some(bytes_from_vec(payload))
    }

    fn on_packet_sent(&mut self, seq: u64, len: usize, now: Instant) {
        self.sent_packets = self.sent_packets + 1;
    }
}

impl ReproducibleFiller for DummyFiller {
    open spec fn alike(&self, other: &Self) -> bool {
        *self == *other
    }

    proof fn law_alike_itself(a: Self) {
    }

    proof fn law_alike_after_next(
        pre_a: Self,
        pre_b: Self,
        a: Self,
        b: Self,
        now: Instant,
        packet_a: Option<Bytes>,
        packet_b: Option<Bytes>,
    ) {
    }

    proof fn law_alike_after_send(
        pre_a: Self,
        pre_b: Self,
        a: Self,
        b: Self,
        seq: u64,
        len: usize,
        now: Instant,
    ) {
    }
}

} // verus!
