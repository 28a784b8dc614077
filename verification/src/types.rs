//! Shared value types for transport, congestion control, and encoder control.

use bytes::Bytes;
use vstd::arithmetic::div_mod::*;
use vstd::prelude::*;

use crate::binary64::rounding::ONE_BITS;
use crate::binary64::Binary64;
use crate::time::{Duration, Instant};

verus! {

/// The immutable byte buffer of the `bytes` crate.
#[verifier::external_type_specification]
#[verifier::external_body]
pub struct ExBytes(bytes::Bytes);

/// The bytes that a buffer holds, in order.
pub uninterp spec fn content(buffer: Bytes) -> Seq<u8>;

/// `Bytes::copy_from_slice`: a buffer that holds a copy of the slice.
pub assume_specification[ bytes::Bytes::copy_from_slice ](data: &[u8]) -> (buffer: bytes::Bytes)
    ensures
        content(buffer) == data@,
;

/// `Bytes::len`: the number of bytes held.
pub assume_specification[ bytes::Bytes::len ](buffer: &bytes::Bytes) -> (n: usize)
    ensures
        n == content(*buffer).len(),
;

/// `Bytes::is_empty`: whether no byte is held.
pub assume_specification[ bytes::Bytes::is_empty ](buffer: &bytes::Bytes) -> (r: bool)
    ensures
        r == (content(*buffer).len() == 0),
;

/// `<Bytes as Clone>::clone`: another handle on the same bytes.
pub assume_specification[ <bytes::Bytes as Clone>::clone ](buffer: &bytes::Bytes) -> (copy:
    bytes::Bytes)
    ensures
        content(copy) == content(*buffer),
;

/// `<Bytes as From<Vec<u8>>>::from`: a buffer that holds the bytes of the vector.
#[verifier::external_body]
pub(crate) fn bytes_from_vec(data: Vec<u8>) -> (buffer: Bytes)
    ensures
        content(buffer) == data@,
{
    Bytes::from(data)
}

/// One wire-ready media packet queued in the pacer.
///
/// Payloads are never split: packetization is the caller's responsibility.
#[derive(Debug, PartialEq, Eq)]
pub struct MediaPacket {
    /// On-wire payload bytes.
    pub payload: Bytes,
    /// Last packet of the logical frame (triggers service-time sampling for α).
    pub fin: bool,
    /// When `false` (e.g. FEC parity), bytes are not counted toward the video-bitrate cap.
    pub counts_as_video: bool,
}

impl MediaPacket {
    /// Video/data packet (counts toward the video-bitrate cap).
    #[must_use]
    pub fn video(payload: Bytes, fin: bool) -> (packet: Self)
        ensures
            packet == (MediaPacket { payload, fin, counts_as_video: true }),
    {
        MediaPacket { payload, fin, counts_as_video: true }
    }

    /// Non-video packet (parity, etc.), still paced and congestion-controlled.
    #[must_use]
    pub fn non_video(payload: Bytes, fin: bool) -> (packet: Self)
        ensures
            packet == (MediaPacket { payload, fin, counts_as_video: false }),
    {
        MediaPacket { payload, fin, counts_as_video: false }
    }
}

impl Clone for MediaPacket {
    fn clone(&self) -> (packet: Self)
        ensures
            content(packet.payload) == content(self.payload),
            packet.fin == self.fin,
            packet.counts_as_video == self.counts_as_video,
    {
        MediaPacket {
            payload: self.payload.clone(),
            fin: self.fin,
            counts_as_video: self.counts_as_video,
        }
    }
}

/// Number of chunks of `size` bytes that hold `len` bytes.
pub open spec fn chunk_count(len: nat, size: nat) -> nat {
    if size == 0 {
        0
    } else {
        (len + size - 1) as nat / size
    }
}

/// The bytes of chunk `i`.
pub open spec fn chunk(data: Seq<u8>, size: nat, i: nat) -> Seq<u8> {
    let end: nat = (i + 1) * size;
    data.subrange(
        (i * size) as int,
        if end <= data.len() {
            end as int
        } else {
            data.len() as int
        },
    )
}

/// Splits a payload into fixed-size packets for tests and plain-UDP paths without FEC.
#[must_use]
pub fn chunk_payload(data: &[u8], chunk_size: usize) -> (packets: Vec<MediaPacket>)
    ensures
        packets.len() == chunk_count(data@.len(), chunk_size as nat),
        forall|i: int|
            0 <= i < packets.len() ==> {
                &&& content((#[trigger] packets[i]).payload) == chunk(
                    data@,
                    chunk_size as nat,
                    i as nat,
                )
                &&& packets[i].fin == (i == packets.len() - 1)
                &&& packets[i].counts_as_video
            },
{
    let mut packets: Vec<MediaPacket> = Vec::new();
    let len: usize = data.len();
    if len == 0 || chunk_size == 0 {
        proof {
            if chunk_size > 0 {
                lemma_basic_div(chunk_size - 1, chunk_size as int);
            }
        }
        return packets;
    }
    let ghost size: nat = chunk_size as nat;
    let ghost total: nat = chunk_count(len as nat, size);
    proof {
        lemma_chunk_count(len as nat, size);
    }
    let mut start: usize = 0;
    while start < len
        invariant
            len == data@.len(),
            0 < chunk_size,
            size == chunk_size,
            start <= len,
            total == chunk_count(len as nat, size),
            (total - 1) * size < len <= total * size,
            start < len ==> start == packets.len() * size && packets.len() < total,
            start == len ==> packets.len() == total,
            forall|i: int|
                0 <= i < packets.len() ==> {
                    &&& content((#[trigger] packets[i]).payload) == chunk(data@, size, i as nat)
                    &&& packets[i].fin == (i == total - 1)
                    &&& packets[i].counts_as_video
                },
        decreases len - start,
    {
        let end: usize = if len - start > chunk_size {
            start + chunk_size
        } else {
            len
        };
        let part: &[u8] = vstd::slice::slice_subrange(data, start, end);
        proof {
            let n: nat = packets.len() as nat;
            assert((n + 1) * size == n * size + size) by (nonlinear_arith);
            if end < len {
                assert(n + 1 < total) by (nonlinear_arith)
                    requires
                        (n + 1) * size < len,
                        len <= total * size,
                ;
            } else {
                assert(n + 1 >= total) by (nonlinear_arith)
                    requires
                        (total - 1) * size < len,
                        len <= (n + 1) * size,
                ;
            }
        }
        packets.push(MediaPacket::video(Bytes::copy_from_slice(part), end == len));
        start = end;
    }
    packets
}

/// The chunk count is the least one that reaches the end of the data.
proof fn lemma_chunk_count(len: nat, size: nat)
    requires
        0 < size,
        0 < len,
    ensures
        chunk_count(len, size) >= 1,
        (chunk_count(len, size) - 1) * size < len <= chunk_count(len, size) * size,
{
    let n: int = (len - 1) / size as int;
    let r: int = (len - 1) % size as int;
    lemma_fundamental_div_mod(len - 1, size as int);
    assert(len + size - 1 == (n + 1) * size + r) by (nonlinear_arith)
        requires
            len - 1 == size * n + r,
    ;
    lemma_fundamental_div_mod_converse(len + size - 1, size as int, n + 1, r);
    assert(n * size < len && len <= (n + 1) * size && n >= 0) by (nonlinear_arith)
        requires
            len - 1 == size * n + r,
            0 <= r < size,
            len > 0,
    ;
}

/// The first `k` chunks put together.
pub open spec fn joined_chunks(data: Seq<u8>, size: nat, k: nat) -> Seq<u8>
    decreases k,
{
    if k == 0 {
        Seq::empty()
    } else {
        joined_chunks(data, size, (k - 1) as nat) + chunk(data, size, (k - 1) as nat)
    }
}

/// Chunking loses nothing: the chunks put together are the data.
pub proof fn law_chunks_restore_data(data: Seq<u8>, size: nat)
    requires
        size > 0,
    ensures
        joined_chunks(data, size, chunk_count(data.len(), size)) == data,
{
    let total: nat = chunk_count(data.len(), size);
    if data.len() == 0 {
        lemma_basic_div(size - 1, size as int);
    } else {
        lemma_chunk_count(data.len(), size);
        lemma_joined_prefix(data, size, (total - 1) as nat);
        assert((total - 1 + 1) * size == total * size);
        assert(joined_chunks(data, size, total) =~= data);
    }
}

proof fn lemma_joined_prefix(data: Seq<u8>, size: nat, k: nat)
    requires
        k * size <= data.len(),
    ensures
        joined_chunks(data, size, k) == data.subrange(0, (k * size) as int),
    decreases k,
{
    if k > 0 {
        let j: nat = (k - 1) as nat;
        assert(k * size == j * size + size) by (nonlinear_arith)
            requires
                k == j + 1,
        ;
        lemma_joined_prefix(data, size, j);
        assert(joined_chunks(data, size, k) =~= data.subrange(0, (k * size) as int));
    } else {
        assert(0 * size == 0);
        assert(joined_chunks(data, size, 0) =~= data.subrange(0, 0));
    }
}

/// Every chunk but the last is full, and none is empty or longer.
pub proof fn law_chunk_sizes(data: Seq<u8>, size: nat, i: nat)
    requires
        size > 0,
        i < chunk_count(data.len(), size),
    ensures
        0 < chunk(data, size, i).len() <= size,
        i + 1 < chunk_count(data.len(), size) ==> chunk(data, size, i).len() == size,
{
    let total: nat = chunk_count(data.len(), size);
    if data.len() == 0 {
        lemma_basic_div(size - 1, size as int);
    } else {
        lemma_chunk_count(data.len(), size);
        assert((i + 1) * size == i * size + size) by (nonlinear_arith);
        assert(i * size <= (total - 1) * size) by (nonlinear_arith)
            requires
                i <= total - 1,
        ;
        if i + 1 < total {
            assert((i + 1) * size <= (total - 1) * size) by (nonlinear_arith)
                requires
                    i + 1 <= total - 1,
            ;
        }
    }
}

/// A logical encoded frame: metadata plus pre-packetized wire payloads.
#[derive(Debug, Clone, PartialEq, Eq)]
pub struct EncodedFrame {
    /// Application-defined monotonic frame id.
    pub id: u64,
    /// Time when the frame was captured or read from the source.
    pub captured_at: Instant,
    /// Target bitrate the encoder was given for this frame (bits per second).
    pub target_bitrate: u64,
    /// Pre-formed packets for this frame.
    pub packets: Vec<MediaPacket>,
}

/// Metadata for a packet queued in the pacer or in flight on the network.
#[derive(Debug, Clone, Copy, PartialEq, Eq, Structural)]
pub struct PacketMeta {
    /// Monotonic send sequence number.
    pub seq: u64,
    /// Owning frame id (`0` for filler packets).
    pub frame_id: u64,
    /// `true` for backlog filler (dummy).
    pub is_filler: bool,
    /// Payload length in bytes.
    pub len: usize,
    /// Time the packet entered the pacer queue.
    pub queued_at: Instant,
    /// Time the packet became head-of-line in the pacer (service-time start).
    pub at_head_at: Instant,
    /// `true` when this is the last packet of its logical frame.
    pub fin: bool,
    /// Whether this packet counts toward the video-bitrate cap.
    pub counts_as_video: bool,
}

/// Congestion-control notification for a sent packet.
#[derive(Debug, Clone, Copy, PartialEq, Eq, Structural)]
pub struct SentPacket {
    /// Sequence number assigned at send time.
    pub seq: u64,
    /// Payload length in bytes.
    pub len: usize,
    /// Send timestamp.
    pub sent_at: Instant,
    /// Whether the sender had room in the window and nothing further to send.
    pub app_limited: bool,
}

/// Receiver acknowledgement for a previously sent packet.
#[derive(Debug, Clone, Copy, PartialEq, Eq, Structural)]
pub struct AckInfo {
    /// Acknowledged sequence number.
    pub seq: u64,
    /// Payload length in bytes.
    pub len: usize,
    /// Time the ACK was observed at the sender.
    pub acked_at: Instant,
}

/// Loss notification for a previously sent packet.
#[derive(Debug, Clone, Copy, PartialEq, Eq, Structural)]
pub struct LostPacket {
    /// Lost sequence number.
    pub seq: u64,
    /// Payload length in bytes.
    pub len: usize,
    /// Time loss was detected.
    pub lost_at: Instant,
}

/// Advice to the video encoder.
#[derive(Debug, Clone, Copy, PartialEq)]
pub struct EncoderAdvice {
    /// Recommended target bitrate in bits per second (`α · CC-Rate · 8`; `0` when paused).
    pub target_bitrate_bps: u64,
    /// When `true`, the encoder should not emit new frames.
    pub pause: bool,
    /// Current headroom fraction α ∈ (0, 1].
    pub alpha: Binary64,
}

impl EncoderAdvice {
    /// Default advice before the first optimizer tick.
    pub fn initial() -> (advice: Self)
        ensures
            advice.target_bitrate_bps == 0,
            !advice.pause,
            advice.alpha.bits == ONE_BITS,
    {
        EncoderAdvice {
            target_bitrate_bps: 0,
            pause: false,
            alpha: Binary64::from_bits(ONE_BITS),
        }
    }
}

/// Guidance for whether to encode a newly captured camera frame.
#[derive(Debug, Clone, Copy, PartialEq, Eq, Structural)]
#[must_use]
pub enum CaptureAdvice {
    /// Encode this capture normally.
    Encode,
    /// Encoder is paused: hold the capture, do not encode yet.
    Hold,
    /// Resume: encode a previously held capture (still within Δ/2).
    EncodeHeld {
        /// Original capture timestamp of the held frame.
        captured_at: Instant,
    },
    /// Resume: discard a stale held capture and skip to the next frame.
    SkipHeld {
        /// Original capture timestamp that was too old to encode.
        captured_at: Instant,
    },
}

/// Action the application should take on the wire.
#[derive(Debug, Clone, PartialEq, Eq)]
pub enum TransmitAction {
    /// Send a pre-formed media packet.
    SendPacket {
        /// Payload.
        payload: Bytes,
    },
    /// Send dummy backlog filler to keep the CC feedback loop tight.
    SendFiller {
        /// Payload.
        payload: Bytes,
    },
    /// Pacing gate: do not send before this instant.
    WaitUntil(Instant),
    /// Nothing to send right now (cwnd full, filler unavailable, etc.).
    Idle,
}

/// Consolidated input event.
#[derive(Debug, Clone)]
pub enum VidaptiveInput {
    /// Pre-packetized media for a frame.
    PacketsEnqueued(EncodedFrame),
    /// Network ACK.
    Ack(AckInfo),
    /// Network loss.
    Loss(LostPacket),
    /// Periodic tick (pacing, α update, safeguards).
    Tick,
}

/// Consolidated output of one event.
#[derive(Debug, Clone, PartialEq)]
pub struct VidaptiveOutput {
    /// Next wire action, if any.
    pub transmit: Option<TransmitAction>,
    /// Current encoder advice.
    pub encoder: EncoderAdvice,
}

/// Completed frame service-time sample for the α optimizer.
#[derive(Debug, Clone, Copy, PartialEq)]
pub struct FrameServiceSample {
    /// Service time from first packet at pacer head until last packet sent.
    pub service_time: Duration,
    /// Encoder target bitrate in bits per second when the frame was encoded.
    pub target_bitrate_bps: u64,
    /// `CC-Rate` in bytes per second when the frame was encoded.
    pub cc_rate_bytes_per_sec: u64,
    /// Sample timestamp (completion time).
    pub at: Instant,
}

} // verus!
