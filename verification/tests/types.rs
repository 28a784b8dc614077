//! Packets, chunking, and fillers.

use bytes::Bytes;
use vidaptive::{
    chunk_payload, BacklogFiller, DummyFiller, EncoderAdvice, Instant, MediaPacket,
    DEFAULT_DUMMY_PACKET_SIZE,
};

#[test]
fn chunks_restore_the_data() {
    let data: Vec<u8> = (0..250u32).map(|i| (i * 7) as u8).collect();
    for size in [1usize, 2, 99, 100, 125, 249, 250, 251, 10_000] {
        let packets = chunk_payload(&data, size);
        let mut joined: Vec<u8> = Vec::new();
        for (i, packet) in packets.iter().enumerate() {
            let last = i + 1 == packets.len();
            assert_eq!(packet.fin, last);
            assert!(packet.counts_as_video);
            assert!(!packet.payload.is_empty());
            assert!(packet.payload.len() == size || last && packet.payload.len() < size);
            joined.extend_from_slice(&packet.payload);
        }
        assert_eq!(joined, data);
        assert_eq!(packets.len(), (250 + size - 1) / size);
    }
}

#[test]
fn nothing_makes_no_chunks() {
    assert!(chunk_payload(&[], 100).is_empty());
    assert!(chunk_payload(&[1, 2, 3], 0).is_empty());
}

#[test]
fn packets_keep_their_payload() {
    let payload = Bytes::copy_from_slice(&[4, 5, 6]);
    let video = MediaPacket::video(payload.clone(), true);
    assert_eq!(video.payload, payload);
    assert!(video.fin && video.counts_as_video);
    let parity = MediaPacket::non_video(payload.clone(), false);
    assert!(!parity.fin && !parity.counts_as_video);
    let copy = parity.clone();
    assert_eq!(copy, parity);
    assert_eq!(&copy.payload[..], &[4, 5, 6]);
}

#[test]
fn dummies_are_zeros_of_the_chosen_size() {
    let now = Instant::from_nanos(0);
    let mut filler = DummyFiller::new();
    assert_eq!(filler.max_packet_size(), DEFAULT_DUMMY_PACKET_SIZE);
    assert_eq!(DEFAULT_DUMMY_PACKET_SIZE, 200);
    assert_eq!(filler.next_packet(now), Some(Bytes::from(vec![0u8; 200])));
    assert_eq!(filler.sent_packets(), 0);
    filler.on_packet_sent(1, 200, now);
    filler.on_packet_sent(2, 200, now);
    assert_eq!(filler.sent_packets(), 2);
    let mut small = DummyFiller::with_packet_size(3);
    assert_eq!(small.next_packet(now), Some(Bytes::copy_from_slice(&[0, 0, 0])));
    assert_eq!(DummyFiller::default().max_packet_size(), 200);
}

#[test]
fn initial_advice_is_an_idle_encoder() {
    let advice = EncoderAdvice::initial();
    assert_eq!(advice.target_bitrate_bps, 0);
    assert!(!advice.pause);
    assert_eq!(advice.alpha.to_bits(), 1.0f64.to_bits());
}
