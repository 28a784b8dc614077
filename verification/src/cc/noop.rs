//! Fixed-rate congestion controller for tests and bring-up.

use vstd::prelude::*;

use crate::bounded::{minus_floored, saturated};
use crate::cc::{acked_bytes, CongestionController};
use crate::time::Duration;
use crate::types::{AckInfo, LostPacket, SentPacket};

verus! {

/// Congestion controller with constant `pacing_rate` and `cwnd`.
#[derive(Debug, Clone, Copy)]
pub struct NoopCc {
    /// Constant rate in bytes per second.
    pub pacing_rate: u64,
    /// Constant window in bytes.
    pub cwnd: u64,
    /// Constant round-trip time.
    pub rtt: Duration,
    /// Bytes sent and not yet reported back.
    pub bytes_in_flight: u64,
}

impl NoopCc {
    /// Creates a CC that always reports the given rate and window.
    #[must_use]
    pub fn new(pacing_rate: u64, cwnd: u64, rtt: Duration) -> (cc: Self)
        ensures
            cc == (NoopCc { pacing_rate, cwnd, rtt, bytes_in_flight: 0 }),
    {
        NoopCc { pacing_rate, cwnd, rtt, bytes_in_flight: 0 }
    }
}

impl CongestionController for NoopCc {
    open spec fn send_ok(&self, packet: SentPacket) -> bool {
        true
    }

    open spec fn acks_ok(&self, acks: Seq<AckInfo>) -> bool {
        true
    }

    open spec fn loss_ok(&self, packet: LostPacket) -> bool {
        true
    }

    open spec fn after_send(&self, pre: &Self, packet: SentPacket) -> bool {
        *self == (NoopCc {
            bytes_in_flight: saturated(pre.bytes_in_flight as nat + packet.len as nat),
            ..*pre
        })
    }

    open spec fn after_acks(&self, pre: &Self, acks: Seq<AckInfo>) -> bool {
        *self == (NoopCc {
            bytes_in_flight: minus_floored(pre.bytes_in_flight, acked_bytes(acks)),
            ..*pre
        })
    }

    open spec fn after_loss(&self, pre: &Self, packet: LostPacket) -> bool {
        *self == (NoopCc {
            bytes_in_flight: minus_floored(pre.bytes_in_flight, packet.len as nat),
            ..*pre
        })
    }

    open spec fn send_rate(&self) -> u64 {
        self.pacing_rate
    }

    open spec fn throughput(&self) -> u64 {
        self.pacing_rate
    }

    open spec fn window(&self) -> u64 {
        self.cwnd
    }

    open spec fn round_trip(&self) -> Duration {
        self.rtt
    }

    open spec fn admits(&self, bytes_in_flight: u64) -> bool {
        bytes_in_flight < self.cwnd
    }

    fn on_packet_sent(&mut self, packet: &SentPacket) {
        self.bytes_in_flight = self.bytes_in_flight.saturating_add(packet.len as u64);
    }

    fn on_packets_acked(&mut self, acks: &[AckInfo]) {
        let mut i: usize = 0;
        while i < acks.len()
            invariant
                i <= acks.len(),
                *self == (NoopCc {
                    bytes_in_flight: minus_floored(
                        old(self).bytes_in_flight,
                        acked_bytes(acks@.take(i as int)),
                    ),
                    ..*old(self)
                }),
            decreases acks.len() - i,
        {
            proof {
                assert(acks@.take(i + 1).drop_last() =~= acks@.take(i as int));
                assert(acks@.take(i + 1).last() == acks@[i as int]);
            }
            self.bytes_in_flight = self.bytes_in_flight.saturating_sub(acks[i].len as u64);
            i += 1;
        }
        assert(acks@.take(i as int) =~= acks@);
    }

    fn on_packet_lost(&mut self, packet: &LostPacket) {
        self.bytes_in_flight = self.bytes_in_flight.saturating_sub(packet.len as u64);
    }

    fn pacing_rate(&self) -> (r: u64) {
        self.pacing_rate
    }

    fn cc_rate(&self) -> (r: u64) {
        self.pacing_rate
    }

    fn cwnd(&self) -> (r: u64) {
        self.cwnd
    }

    fn rtt(&self) -> (r: Duration) {
        self.rtt
    }

    fn can_send(&self, bytes_in_flight: u64) -> (r: bool) {
        bytes_in_flight < self.cwnd
    }
}

} // verus!
