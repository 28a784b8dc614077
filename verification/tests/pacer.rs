//! The pacer: queue, deadlines, and bytes in flight.

use bytes::Bytes;
use vidaptive::transport::pacer::pacing_interval;
use vidaptive::transport::Pacer;
use vidaptive::{chunk_payload, Duration, Instant, MediaPacket};

#[test]
fn enqueues_preformed_packets() {
    let mut pacer = Pacer::new();
    let now = Instant::from_nanos(0);
    let packets = chunk_payload(&[1u8; 250], 100);
    pacer.enqueue_packets(1, packets, now);
    assert!(pacer.has_media());

    let (meta, payload) = pacer.pop_packet(now).expect("packet");
    assert_eq!(payload.len(), 100);
    assert_eq!(meta.len, 100);
    assert!(!meta.fin);

    let (meta, payload) = pacer.pop_packet(now).expect("packet");
    assert_eq!(payload.len(), 100);
    assert!(!meta.fin);

    let (meta, payload) = pacer.pop_packet(now).expect("packet");
    assert_eq!(payload.len(), 50);
    assert!(meta.fin);
    assert!(!pacer.has_media());
}

/// `oldest_queued_age` must report time-since-enqueue for the oldest packet,
/// NOT time-since-it-became-head. When the FIFO drains steadily, every
/// packet becomes head only momentarily (`at_head_at` ≈ now), so using
/// `at_head_at` would yield ~0 and hide unbounded queue buildup from the
/// safeguards. The oldest packet's true wait is `now - queued_at`.
#[test]
fn oldest_queued_age_reflects_enqueue_time_not_head_time() {
    let mut pacer = Pacer::new();
    let t0 = Instant::from_nanos(0);

    // Enqueue 10 packets at t0.
    let packets = chunk_payload(&[0u8; 1200], 120);
    pacer.enqueue_packets(1, packets, t0);
    assert_eq!(pacer.queue_len(), 10);

    // Drain 9 packets at t0+5s (FIFO moving). Each pop marks the next packet
    // as head with at_head_at = now (t0+5s).
    let drain_at = t0.after(Duration::from_secs(5));
    for _ in 0..9 {
        let _ = pacer.pop_packet(drain_at);
    }
    assert_eq!(pacer.queue_len(), 1);

    // The last remaining packet was enqueued at t0, became head at drain_at.
    // Its true queue age at t0+6s is 6s (since enqueue), NOT ~1s (since head).
    let later = t0.after(Duration::from_secs(6));
    let age = pacer.oldest_queued_age(later).expect("age");
    assert_eq!(age, Duration::from_secs(6));
}

#[test]
fn an_empty_queue_has_no_age_and_nothing_to_pop() {
    let mut pacer = Pacer::default();
    let now = Instant::from_nanos(7);
    assert!(pacer.oldest_queued_age(now).is_none());
    assert!(pacer.pop_packet(now).is_none());
    assert_eq!(pacer.queue_len(), 0);
    assert_eq!(pacer.bytes_in_flight(), 0);
}

#[test]
fn packets_without_bytes_are_skipped() {
    let mut pacer = Pacer::new();
    let now = Instant::from_nanos(0);
    let packets = vec![
        MediaPacket::video(Bytes::new(), false),
        MediaPacket::video(Bytes::copy_from_slice(b"ab"), false),
        MediaPacket::video(Bytes::new(), true),
    ];
    pacer.enqueue_packets(3, packets, now);
    assert_eq!(pacer.queue_len(), 1);
    let (meta, payload) = pacer.pop_packet(now).unwrap();
    assert_eq!(payload, Bytes::copy_from_slice(b"ab"));
    assert_eq!(meta.frame_id, 3);
    assert!(!meta.fin);
}

#[test]
fn payloads_leave_in_the_order_they_came() {
    let mut pacer = Pacer::new();
    let now = Instant::from_nanos(0);
    for id in 0..5u64 {
        let payload = Bytes::copy_from_slice(&[id as u8, 9]);
        pacer.enqueue_packets(id, vec![MediaPacket::video(payload, true)], now);
    }
    for id in 0..5u64 {
        let (meta, payload) = pacer.pop_packet(now).unwrap();
        assert_eq!(meta.seq, id + 1);
        assert_eq!(meta.frame_id, id);
        assert_eq!(payload, Bytes::copy_from_slice(&[id as u8, 9]));
    }
}

#[test]
fn the_head_is_timed_from_when_it_got_there() {
    let mut pacer = Pacer::new();
    let t0 = Instant::from_nanos(0);
    let t1 = t0.after(Duration::from_millis(3));
    let t2 = t0.after(Duration::from_millis(8));
    pacer.enqueue_packets(1, chunk_payload(&[0u8; 30], 10), t0);
    let (first, _) = pacer.pop_packet(t1).unwrap();
    let (second, _) = pacer.pop_packet(t2).unwrap();
    let (third, _) = pacer.pop_packet(t2).unwrap();
    assert_eq!(first.at_head_at, t0);
    assert_eq!(second.at_head_at, t1);
    assert_eq!(third.at_head_at, t2);
    assert_eq!(third.queued_at, t0);
}

#[test]
fn bytes_in_flight_follow_the_packets() {
    let mut pacer = Pacer::new();
    let now = Instant::from_nanos(0);
    pacer.enqueue_packets(1, chunk_payload(&[0u8; 25], 10), now);
    let (a, _) = pacer.pop_packet(now).unwrap();
    let (b, _) = pacer.pop_packet(now).unwrap();
    let (c, _) = pacer.pop_packet(now).unwrap();
    let seq = pacer.next_seq();
    let filler = pacer.register_filler(seq, 200, now);
    assert!(filler.is_filler && !filler.counts_as_video);
    assert_eq!(filler.seq, 4);
    assert_eq!(pacer.bytes_in_flight(), 225);
    assert_eq!(pacer.complete_packet(b.seq).unwrap(), b);
    assert_eq!(pacer.bytes_in_flight(), 215);
    assert!(pacer.complete_packet(b.seq).is_none());
    assert_eq!(pacer.drop_packet(c.seq).unwrap().len, 5);
    assert!(pacer.drop_packet(99).is_none());
    assert_eq!(pacer.drop_packet(filler.seq).unwrap(), filler);
    assert_eq!(pacer.bytes_in_flight(), 10);
    assert_eq!(pacer.complete_packet(a.seq).unwrap(), a);
    assert_eq!(pacer.bytes_in_flight(), 0);
}

#[test]
fn a_filler_registered_ahead_moves_the_sequence_on() {
    let mut pacer = Pacer::new();
    let now = Instant::from_nanos(0);
    let _ = pacer.register_filler(41, 1, now);
    assert_eq!(pacer.next_seq(), 42);
    let _ = pacer.register_filler(5, 1, now);
    assert_eq!(pacer.next_seq(), 43);
}

#[test]
fn the_deadline_follows_bytes_over_rate() {
    let mut pacer = Pacer::new();
    let t0 = Instant::from_nanos(0);
    assert!(pacer.pacing_ready(t0));
    assert!(pacer.pacing_wait_until().is_none());
    pacer.record_send(1_200, 1_000_000, t0);
    let due = t0.after(Duration::from_micros(1_200));
    assert_eq!(pacer.pacing_wait_until(), Some(due));
    assert!(!pacer.pacing_ready(t0.after(Duration::from_nanos(1_199_999))));
    assert!(pacer.pacing_ready(due));
    pacer.record_send(1_200, 0, due);
    assert_eq!(pacer.pacing_wait_until(), Some(due));
}

#[test]
fn intervals_round_down_and_saturate() {
    assert_eq!(pacing_interval(1, 3), Duration::from_nanos(333_333_333));
    assert_eq!(pacing_interval(0, 3), Duration::zero());
    assert_eq!(pacing_interval(5, 0), Duration::zero());
    assert_eq!(pacing_interval(usize::MAX, 1), Duration::from_nanos(u64::MAX));
}
