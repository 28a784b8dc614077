//! Pluggable congestion controllers.

use vstd::prelude::*;

use crate::time::Duration;
use crate::types::{AckInfo, LostPacket, SentPacket};

pub mod copa;
pub mod events;
pub mod laws;
pub mod noop;
pub mod rocc;
pub mod rtt;
pub mod samples;

pub use copa::{Copa, CopaConfig};
pub use noop::NoopCc;
pub use rocc::{Rocc, RoccConfig};

verus! {

/// Bandwidth estimator.
pub trait CongestionController {
    /// Whether accounting for this sent packet stays within machine integers.
    spec fn send_ok(&self, packet: SentPacket) -> bool;

    /// Whether accounting for these acknowledgements stays within machine integers.
    spec fn acks_ok(&self, acks: Seq<AckInfo>) -> bool;

    /// Whether accounting for this loss stays within machine integers.
    spec fn loss_ok(&self, packet: LostPacket) -> bool;

    /// Whether this is `pre` after `packet` was sent.
    spec fn after_send(&self, pre: &Self, packet: SentPacket) -> bool;

    /// Whether this is `pre` after one feedback event with these acknowledgements.
    spec fn after_acks(&self, pre: &Self, acks: Seq<AckInfo>) -> bool;

    /// Whether this is `pre` after `packet` was lost.
    spec fn after_loss(&self, pre: &Self, packet: LostPacket) -> bool;

    /// Rate at which packets may leave, in bytes per second.
    spec fn send_rate(&self) -> u64;

    /// Throughput estimate `CC-Rate`, in bytes per second.
    spec fn throughput(&self) -> u64;

    /// Congestion window in bytes.
    spec fn window(&self) -> u64;

    /// Round-trip time.
    spec fn round_trip(&self) -> Duration;

    /// Whether another packet may be sent with this many bytes in flight.
    spec fn admits(&self, bytes_in_flight: u64) -> bool;

    /// Notify the CC that a packet was sent.
    fn on_packet_sent(&mut self, packet: &SentPacket)
        requires
            old(self).send_ok(*packet),
        ensures
            final(self).after_send(old(self), *packet),
    ;

    /// Notify the CC that a packet was acknowledged.
    fn on_packet_acked(&mut self, ack: &AckInfo)
        requires
            old(self).acks_ok(seq![*ack]),
        ensures
            final(self).after_acks(old(self), seq![*ack]),
    {
        let mut acks: Vec<AckInfo> = Vec::new();
        acks.push(*ack);
        assert(acks@ =~= seq![*ack]);
        self.on_packets_acked(acks.as_slice());
    }

    /// Notify the CC of one or more ACKs in a single feedback event.
    fn on_packets_acked(&mut self, acks: &[AckInfo])
        requires
            old(self).acks_ok(acks@),
        ensures
            final(self).after_acks(old(self), acks@),
    ;

    /// Notify the CC that a packet was lost.
    fn on_packet_lost(&mut self, packet: &LostPacket)
        requires
            old(self).loss_ok(*packet),
        ensures
            final(self).after_loss(old(self), *packet),
    ;

    /// Sending rate for the pacer, in bytes per second.
    fn pacing_rate(&self) -> (r: u64)
        ensures
            r == self.send_rate(),
    ;

    /// Throughput estimate (`CC-Rate`) for the encoder target, in bytes per second.
    fn cc_rate(&self) -> (r: u64)
        ensures
            r == self.throughput(),
    ;

    /// Congestion window in bytes.
    fn cwnd(&self) -> (r: u64)
        ensures
            r == self.window(),
    ;

    /// Smoothed round-trip time.
    fn rtt(&self) -> (r: Duration)
        ensures
            r == self.round_trip(),
    ;

    /// Whether another packet may be sent given current bytes in flight.
    fn can_send(&self, bytes_in_flight: u64) -> (r: bool)
        ensures
            r == self.admits(bytes_in_flight),
    ;
}

/// A controller whose reactions and reports follow from what it has seen alone.
pub trait Reproducible: CongestionController + Sized {
    /// Whether two controllers cannot be told apart.
    spec fn alike(&self, other: &Self) -> bool;

    /// No controller can be told apart from itself.
    proof fn law_alike_itself(a: Self)
        ensures
            a.alike(&a),
    ;

    /// Controllers that cannot be told apart report the same.
    proof fn law_alike_reports(a: Self, b: Self, bytes_in_flight: u64)
        requires
            a.alike(&b),
        ensures
            a.send_rate() == b.send_rate(),
            a.throughput() == b.throughput(),
            a.window() == b.window(),
            a.round_trip() == b.round_trip(),
            a.admits(bytes_in_flight) == b.admits(bytes_in_flight),
    ;

    /// A send leaves them so.
    proof fn law_alike_after_send(
        pre_a: Self,
        pre_b: Self,
        a: Self,
        b: Self,
        packet: SentPacket,
    )
        requires
            pre_a.alike(&pre_b),
            a.after_send(&pre_a, packet),
            b.after_send(&pre_b, packet),
        ensures
            a.alike(&b),
    ;

    /// A feedback event leaves them so.
    proof fn law_alike_after_acks(
        pre_a: Self,
        pre_b: Self,
        a: Self,
        b: Self,
        acks: Seq<AckInfo>,
    )
        requires
            pre_a.alike(&pre_b),
            a.after_acks(&pre_a, acks),
            b.after_acks(&pre_b, acks),
        ensures
            a.alike(&b),
    ;

    /// A loss leaves them so.
    proof fn law_alike_after_loss(
        pre_a: Self,
        pre_b: Self,
        a: Self,
        b: Self,
        packet: LostPacket,
    )
        requires
            pre_a.alike(&pre_b),
            a.after_loss(&pre_a, packet),
            b.after_loss(&pre_b, packet),
        ensures
            a.alike(&b),
    ;
}

/// Payload bytes that the acknowledgements cover.
pub open spec fn acked_bytes(acks: Seq<AckInfo>) -> nat
    decreases acks.len(),
{
    if acks.len() == 0 {
        0
    } else {
        acked_bytes(acks.drop_last()) + acks.last().len as nat
    }
}

} // verus!
