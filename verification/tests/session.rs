//! The session: transmitting, pausing, capture advice, and feedback.

use bytes::Bytes;
use vidaptive::transport::Pacer;
use vidaptive::{
    chunk_payload, AckInfo, BacklogFiller, Binary64, CaptureAdvice, CongestionController, Copa,
    CopaConfig, DummyFiller, Duration, EncodedFrame, EncoderAdvice, Instant, LostPacket,
    MediaPacket, NoopCc, TransmitAction, Vidaptive, VidaptiveConfig, VidaptiveInput,
    DEFAULT_DUMMY_PACKET_SIZE,
};

fn start() -> Instant {
    Instant::from_nanos(1_000_000_000)
}

fn frame(
    id: u64,
    captured_at: Instant,
    target_bitrate: u64,
    payload_len: usize,
    chunk: usize,
) -> EncodedFrame {
    EncodedFrame {
        id,
        captured_at,
        target_bitrate,
        packets: chunk_payload(&vec![0u8; payload_len], chunk),
    }
}

fn float(x: Binary64) -> f64 {
    f64::from_bits(x.to_bits())
}

#[test]
fn sends_dummy_when_queue_empty() {
    let cc = NoopCc::new(100_000, 100_000, Duration::from_millis(50));
    let config = VidaptiveConfig::default();
    let now = start();
    let mut session = Vidaptive::new(cc, DummyFiller::new(), config, now);

    let action = session.poll_transmit(now).expect("action");
    assert!(matches!(action, TransmitAction::SendFiller { .. }));
}

#[test]
fn pauses_encoder_when_queue_backlogged() {
    let cc = NoopCc::new(1, 1_000_000, Duration::from_millis(50));
    let config = VidaptiveConfig::builder()
        .tau_pause(Duration::from_millis(1))
        .build()
        .unwrap();
    let t0 = start();
    let mut session = Vidaptive::new(cc, DummyFiller::new(), config, t0);
    session.enqueue_packets(frame(1, t0, 500_000, 2_000, 500), t0);

    let later = t0.after(Duration::from_millis(10));
    session.refresh_encoder_state(later);
    assert!(session.encoder.pause);
    assert_eq!(session.encoder.target_bitrate_bps, 0);
    assert_eq!(session.cached_target_bitrate_bps, 0);
}

#[test]
fn unpause_recomputes_target_instead_of_restoring_stale_cache() {
    let cc = NoopCc::new(100_000, 100_000, Duration::from_millis(50));
    let config = VidaptiveConfig::builder()
        .tau_pause(Duration::from_millis(1))
        .optimizer_window(Duration::from_secs(10))
        .build()
        .unwrap();
    let t0 = start();
    let mut session = Vidaptive::new(cc, DummyFiller::new(), config, t0);

    // Seed a high cached target, then enter pause via backlog.
    session.cached_target_bitrate_bps = 10_000_000;
    session.encoder.target_bitrate_bps = 10_000_000;
    session.encoder.pause = false;
    session.enqueue_packets(frame(1, t0, 10_000_000, 2_000, 500), t0);
    let paused_at = t0.after(Duration::from_millis(10));
    session.refresh_encoder_state(paused_at);
    assert!(session.encoder.pause);
    assert_eq!(session.cached_target_bitrate_bps, 0);

    // Simulate queue drain: empty pacer → safeguards clear pause → optimizer runs.
    session.pacer = Pacer::new();
    let resumed_at = paused_at.after(Duration::from_millis(1));
    session.refresh_encoder_state(resumed_at);
    assert!(!session.encoder.pause);
    // Fresh optimizer pass — not the stale 10 Mbps.
    assert_ne!(session.encoder.target_bitrate_bps, 10_000_000);
    assert_eq!(
        session.encoder.target_bitrate_bps,
        session.cached_target_bitrate_bps
    );
}

#[test]
fn holds_capture_while_paused() {
    let cc = NoopCc::new(1, 1_000_000, Duration::from_millis(50));
    let config = VidaptiveConfig::builder()
        .tau_pause(Duration::from_millis(1))
        .build()
        .unwrap();
    let t0 = start();
    let mut session = Vidaptive::new(cc, DummyFiller::new(), config, t0);
    session.enqueue_packets(frame(1, t0, 500_000, 2_000, 500), t0);
    let later = t0.after(Duration::from_millis(10));
    session.refresh_encoder_state(later);
    assert!(session.encoder.pause);

    let advice = session.advise_capture(t0, later);
    assert_eq!(advice, CaptureAdvice::Hold);
}

#[test]
fn encodes_held_capture_on_resume_within_half_frame() {
    let cc = NoopCc::new(100_000, 100_000, Duration::from_millis(50));
    let config = VidaptiveConfig::default();
    let t0 = start();
    let mut session = Vidaptive::new(cc, DummyFiller::new(), config, t0);

    session.encoder.pause = true;
    let _ = session.advise_capture(t0, t0);

    session.encoder.pause = false;
    let resume = t0.after(Duration::from_millis(10));
    let advice = session.advise_capture(resume, resume);
    assert_eq!(advice, CaptureAdvice::EncodeHeld { captured_at: t0 });
}

#[test]
fn skips_stale_held_capture_on_resume() {
    let cc = NoopCc::new(100_000, 100_000, Duration::from_millis(50));
    let config = VidaptiveConfig::default();
    let t0 = start();
    let mut session = Vidaptive::new(cc, DummyFiller::new(), config, t0);

    session.encoder.pause = true;
    let _ = session.advise_capture(t0, t0);

    session.encoder.pause = false;
    let resume = t0.after(Duration::from_millis(20));
    let advice = session.advise_capture(resume, resume);
    assert_eq!(advice, CaptureAdvice::SkipHeld { captured_at: t0 });
}

#[test]
fn target_bitrate_only_changes_on_tick() {
    let cc = NoopCc::new(100_000, 100_000, Duration::from_millis(50));
    let config = VidaptiveConfig::builder()
        .optimizer_window(Duration::from_millis(100))
        .build()
        .unwrap();
    let t0 = start();
    let mut session = Vidaptive::new(cc, DummyFiller::new(), config, t0);
    let initial = session.encoder.target_bitrate_bps;

    session.tick(t0.after(Duration::from_millis(150)));
    let after_tick = session.encoder.target_bitrate_bps;

    session.enqueue_packets(
        frame(1, t0, after_tick, 100, 100),
        t0.after(Duration::from_millis(160)),
    );
    assert_eq!(session.poll_encoder(t0).target_bitrate_bps, after_tick);
    assert_ne!(initial, 0);
}

#[test]
fn filler_withhold_follows_capture_schedule_not_enqueue() {
    let cc = NoopCc::new(100_000, 100_000, Duration::from_millis(50));
    let config = VidaptiveConfig::default();
    let t0 = start();
    let mut session = Vidaptive::new(cc, DummyFiller::new(), config, t0);

    let _ = session.advise_capture(t0, t0);

    session.enqueue_packets(
        frame(1, t0, 1_000_000, 100, 100),
        t0.after(Duration::from_millis(20)),
    );

    let during_withhold = t0.after(Duration::from_nanos(25_000_000));
    assert!(!session.should_send_filler(during_withhold));

    let before_withhold = t0.after(Duration::from_millis(20));
    assert!(session.should_send_filler(before_withhold));
}

#[test]
fn stops_filler_above_max_video_bitrate() {
    let cc = NoopCc::new(10_000_000, 10_000_000, Duration::from_millis(50));
    let config = VidaptiveConfig::builder()
        .optimizer_window(Duration::from_secs(1))
        .build()
        .unwrap();
    let t0 = start();
    let mut session = Vidaptive::new(cc, DummyFiller::new(), config, t0);

    session.video_bitrate.record(1_500_000, t0);
    assert!(!session.should_send_filler(t0));
}

#[test]
fn parity_packets_do_not_count_toward_video_bitrate() {
    let cc = NoopCc::new(10_000_000, 10_000_000, Duration::from_millis(50));
    let config = VidaptiveConfig::builder()
        .optimizer_window(Duration::from_secs(1))
        .build()
        .unwrap();
    let t0 = start();
    let mut session = Vidaptive::new(cc, DummyFiller::new(), config, t0);

    session.enqueue_packets(
        EncodedFrame {
            id: 1,
            captured_at: t0,
            target_bitrate: 1_000_000,
            packets: vec![
                MediaPacket::video(Bytes::from(vec![0u8; 1_000_000]), false),
                MediaPacket::non_video(Bytes::from(vec![0u8; 500_000]), true),
            ],
        },
        t0,
    );

    let action = session.poll_transmit(t0).expect("send data");
    assert!(matches!(action, TransmitAction::SendPacket { .. }));
    let _ = session.poll_transmit(t0);
    assert!(session.should_send_filler(t0));
}

#[test]
fn parity_is_sent_but_not_counted() {
    let cc = NoopCc::new(1_000_000_000, 10_000_000, Duration::from_millis(50));
    let t0 = start();
    let mut session = Vidaptive::new(cc, DummyFiller::new(), VidaptiveConfig::default(), t0);
    session.enqueue_packets(
        EncodedFrame {
            id: 1,
            captured_at: t0,
            target_bitrate: 1_000_000,
            packets: vec![
                MediaPacket::video(Bytes::from(vec![0u8; 1_000_000]), false),
                MediaPacket::non_video(Bytes::from(vec![0u8; 500_000]), true),
            ],
        },
        t0,
    );
    let t1 = t0.after(Duration::from_millis(1));
    assert!(matches!(
        session.poll_transmit(t0),
        Some(TransmitAction::SendPacket { .. })
    ));
    assert!(matches!(
        session.poll_transmit(t1),
        Some(TransmitAction::SendPacket { .. })
    ));
    assert_eq!(session.bytes_in_flight(), 1_500_000);
    assert_eq!(session.video_bitrate.bitrate_bps(t1), 8_000_000);
    assert!(session.should_send_filler(t1));
}

#[test]
fn a_new_session_offers_the_whole_rate() {
    let cc = NoopCc::new(100_000, 100_000, Duration::from_millis(50));
    let now = start();
    let mut session = Vidaptive::new(cc, DummyFiller::new(), VidaptiveConfig::default(), now);
    let advice = session.poll_encoder(now);
    assert_eq!(advice.target_bitrate_bps, 800_000);
    assert!(!advice.pause);
    assert_eq!(float(advice.alpha), 1.0);
    assert!(!session.has_media());
    assert_eq!(session.pacer_queue_len(), 0);
    assert!(session.pacer_oldest_queued_age(now).is_none());
    assert_eq!(EncoderAdvice::initial().target_bitrate_bps, 0);
}

#[test]
fn fillers_are_zeros_of_the_default_size() {
    let cc = NoopCc::new(100_000, 100_000, Duration::from_millis(50));
    let now = start();
    let mut session = Vidaptive::new(cc, DummyFiller::new(), VidaptiveConfig::default(), now);
    match session.poll_transmit(now) {
        Some(TransmitAction::SendFiller { payload }) => {
            assert_eq!(payload.len(), DEFAULT_DUMMY_PACKET_SIZE);
            assert!(payload.iter().all(|b| *b == 0));
        }
        other => panic!("unexpected {:?}", other),
    }
    assert_eq!(session.filler().sent_packets(), 1);
    assert_eq!(session.bytes_in_flight(), 200);
    assert_eq!(session.congestion_controller().bytes_in_flight, 200);
    // The next send waits for 200 bytes at 100 kB/s.
    let due = now.after(Duration::from_millis(2));
    assert_eq!(
        session.poll_transmit(now.after(Duration::from_micros(1_999))),
        Some(TransmitAction::WaitUntil(due))
    );
    assert!(matches!(
        session.poll_transmit(due),
        Some(TransmitAction::SendFiller { .. })
    ));
}

#[test]
fn payloads_go_out_unchanged_and_in_order() {
    let cc = NoopCc::new(u64::MAX, u64::MAX, Duration::from_millis(50));
    let now = start();
    let mut session = Vidaptive::new(cc, DummyFiller::new(), VidaptiveConfig::default(), now);
    let data: Vec<u8> = (0..=255).collect();
    session.enqueue_packets(
        EncodedFrame {
            id: 9,
            captured_at: now,
            target_bitrate: 1,
            packets: chunk_payload(&data, 100),
        },
        now,
    );
    let mut out: Vec<u8> = Vec::new();
    for _ in 0..3 {
        match session.poll_transmit(now) {
            Some(TransmitAction::SendPacket { payload }) => out.extend_from_slice(&payload),
            other => panic!("unexpected {:?}", other),
        }
    }
    assert_eq!(out, data);
    assert!(!session.has_media());
    assert_eq!(session.bytes_in_flight(), 256);
}

#[test]
fn a_full_window_sends_nothing() {
    let cc = NoopCc::new(u64::MAX, 500, Duration::from_millis(50));
    let now = start();
    let mut session = Vidaptive::new(cc, DummyFiller::new(), VidaptiveConfig::default(), now);
    session.enqueue_packets(frame(1, now, 1_000, 1_000, 500), now);
    assert!(matches!(
        session.poll_transmit(now),
        Some(TransmitAction::SendPacket { .. })
    ));
    assert_eq!(session.poll_transmit(now), Some(TransmitAction::Idle));
    assert_eq!(session.pacer_queue_len(), 1);
    session.on_network_ack(
        AckInfo {
            seq: 1,
            len: 500,
            acked_at: now,
        },
        now,
    );
    assert_eq!(session.bytes_in_flight(), 0);
    assert!(matches!(
        session.poll_transmit(now),
        Some(TransmitAction::SendPacket { .. })
    ));
}

#[test]
fn acks_and_losses_settle_packets() {
    let cc = NoopCc::new(u64::MAX, u64::MAX, Duration::from_millis(50));
    let now = start();
    let mut session = Vidaptive::new(cc, DummyFiller::new(), VidaptiveConfig::default(), now);
    session.enqueue_packets(frame(1, now, 1_000, 1_000, 100), now);
    for _ in 0..10 {
        let _ = session.poll_transmit(now);
    }
    assert_eq!(session.bytes_in_flight(), 1_000);
    let ack = |seq: u64| AckInfo {
        seq,
        len: 100,
        acked_at: now,
    };
    session.on_network_acks(&[ack(2), ack(5), ack(2), ack(77)], now);
    assert_eq!(session.bytes_in_flight(), 800);
    session.on_network_loss(
        LostPacket {
            seq: 1,
            len: 100,
            lost_at: now,
        },
        now,
    );
    session.on_network_loss(
        LostPacket {
            seq: 1,
            len: 100,
            lost_at: now,
        },
        now,
    );
    assert_eq!(session.bytes_in_flight(), 700);
    session.on_network_acks(&[], now);
    assert_eq!(session.bytes_in_flight(), 700);
}

#[test]
fn service_time_runs_from_head_of_line_to_the_last_packet() {
    let cc = NoopCc::new(1_000_000, u64::MAX, Duration::from_millis(50));
    let config = VidaptiveConfig::builder()
        .tau_pause(Duration::from_secs(60))
        .build()
        .unwrap();
    let t0 = start();
    let mut session = Vidaptive::new(cc, DummyFiller::new(), config, t0);
    session.enqueue_packets(frame(1, t0, 5_000_000, 1_000, 500), t0);
    session.enqueue_packets(frame(2, t0, 6_000_000, 500, 500), t0);
    let t1 = t0.after(Duration::from_millis(4));
    let t2 = t0.after(Duration::from_millis(9));
    let t3 = t0.after(Duration::from_millis(11));
    let _ = session.poll_transmit(t1);
    assert_eq!(session.samples.iter().len(), 0);
    let _ = session.poll_transmit(t2);
    let _ = session.poll_transmit(t3);
    let samples = session.samples.iter();
    assert_eq!(samples.len(), 2);
    assert_eq!(samples[0].service_time, Duration::from_millis(9));
    assert_eq!(samples[0].target_bitrate_bps, 5_000_000);
    assert_eq!(samples[0].cc_rate_bytes_per_sec, 1_000_000);
    assert_eq!(samples[0].at, t2);
    assert_eq!(samples[1].service_time, Duration::from_millis(2));
    assert_eq!(samples[1].target_bitrate_bps, 6_000_000);
}

#[test]
fn slow_frames_lower_the_target_on_the_next_window() {
    let cc = NoopCc::new(1_000_000, u64::MAX, Duration::from_millis(50));
    let config = VidaptiveConfig::builder()
        .tau_pause(Duration::from_secs(60))
        .optimizer_window(Duration::from_millis(100))
        .build()
        .unwrap();
    let t0 = start();
    let mut session = Vidaptive::new(cc, DummyFiller::new(), config, t0);
    session.enqueue_packets(frame(1, t0, 8_000_000, 500, 500), t0);
    let _ = session.poll_transmit(t0.after(Duration::from_millis(66)));
    session.tick(t0.after(Duration::from_millis(99)));
    assert_eq!(session.encoder.target_bitrate_bps, 8_000_000);
    session.tick(t0.after(Duration::from_millis(100)));
    // Raw α is 33/66; smoothed with 0.25 it is 0.875.
    assert_eq!(float(session.encoder.alpha), 0.875);
    assert_eq!(session.encoder.target_bitrate_bps, 7_000_000);
}

#[test]
fn withholding_covers_its_span_exactly() {
    let cc = NoopCc::new(100_000, 100_000, Duration::from_millis(50));
    let t0 = start();
    let mut session = Vidaptive::new(cc, DummyFiller::new(), VidaptiveConfig::default(), t0);
    assert_eq!(session.advise_capture(t0, t0), CaptureAdvice::Encode);
    let next = t0.after(Duration::from_millis(33));
    let from = t0.after(Duration::from_nanos(33_000_000 - 8_250_000));
    assert!(session.should_send_filler(t0.after(Duration::from_nanos(33_000_000 - 8_250_001))));
    assert!(!session.should_send_filler(from));
    assert!(!session.should_send_filler(t0.after(Duration::from_nanos(32_999_999))));
    assert!(session.should_send_filler(next));
    assert_eq!(session.poll_transmit(from), Some(TransmitAction::Idle));
}

#[test]
fn no_filler_without_a_rate_or_while_paused() {
    let t0 = start();
    let cc = NoopCc::new(0, 100_000, Duration::from_millis(50));
    let mut session = Vidaptive::new(cc, DummyFiller::new(), VidaptiveConfig::default(), t0);
    assert!(!session.should_send_filler(t0));
    assert_eq!(session.poll_transmit(t0), Some(TransmitAction::Idle));
    session.congestion_controller_mut().pacing_rate = 1_000;
    assert!(session.should_send_filler(t0));
    session.encoder.pause = true;
    assert!(session.encoder_paused());
    assert!(!session.should_send_filler(t0));
}

#[test]
fn a_pause_needs_more_than_tau_and_ends_with_the_queue() {
    let cc = NoopCc::new(1_000_000, u64::MAX, Duration::from_millis(50));
    let t0 = start();
    let mut session = Vidaptive::new(cc, DummyFiller::new(), VidaptiveConfig::default(), t0);
    session.enqueue_packets(frame(1, t0, 8_000_000, 500, 500), t0);
    session.tick(t0.after(Duration::from_millis(33)));
    assert!(!session.encoder_paused());
    let late = t0.after(Duration::from_nanos(33_000_001));
    session.tick(late);
    assert!(session.encoder_paused());
    assert_eq!(session.poll_encoder(late).target_bitrate_bps, 0);
    assert_eq!(
        session.pacer_oldest_queued_age(late),
        Some(Duration::from_nanos(33_000_001))
    );
    let _ = session.poll_transmit(late);
    assert!(session.encoder_paused());
    session.tick(late);
    assert!(!session.encoder_paused());
    assert!(session.poll_encoder(late).target_bitrate_bps > 0);
}

#[test]
fn held_capture_at_exactly_half_an_interval_is_encoded() {
    let cc = NoopCc::new(100_000, 100_000, Duration::from_millis(50));
    let t0 = start();
    let mut session = Vidaptive::new(cc, DummyFiller::new(), VidaptiveConfig::default(), t0);
    session.encoder.pause = true;
    assert_eq!(session.advise_capture(t0, t0), CaptureAdvice::Hold);
    session.encoder.pause = false;
    let half = t0.after(Duration::from_nanos(16_500_000));
    assert_eq!(
        session.advise_capture(half, half),
        CaptureAdvice::EncodeHeld { captured_at: t0 }
    );
    assert_eq!(session.advise_capture(half, half), CaptureAdvice::Encode);
    session.encoder.pause = true;
    assert_eq!(session.advise_capture(t0, t0), CaptureAdvice::Hold);
    session.encoder.pause = false;
    let beyond = t0.after(Duration::from_nanos(16_500_001));
    assert_eq!(
        session.advise_capture(beyond, beyond),
        CaptureAdvice::SkipHeld { captured_at: t0 }
    );
}

#[test]
fn handle_takes_the_event_and_transmits() {
    let cc = NoopCc::new(1_000_000, u64::MAX, Duration::from_millis(50));
    let t0 = start();
    let mut session = Vidaptive::new(cc, DummyFiller::new(), VidaptiveConfig::default(), t0);
    let output = session.handle(
        VidaptiveInput::PacketsEnqueued(frame(1, t0, 1_000, 300, 200)),
        t0,
    );
    match output.transmit {
        Some(TransmitAction::SendPacket { payload }) => assert_eq!(payload.len(), 200),
        other => panic!("unexpected {:?}", other),
    }
    assert_eq!(output.encoder.target_bitrate_bps, 8_000_000);
    let t1 = t0.after(Duration::from_millis(1));
    let output = session.handle(
        VidaptiveInput::Ack(AckInfo {
            seq: 1,
            len: 200,
            acked_at: t1,
        }),
        t1,
    );
    assert!(matches!(
        output.transmit,
        Some(TransmitAction::SendPacket { .. })
    ));
    assert_eq!(session.bytes_in_flight(), 100);
    let output = session.handle(
        VidaptiveInput::Loss(LostPacket {
            seq: 2,
            len: 100,
            lost_at: t1,
        }),
        t1,
    );
    assert!(matches!(output.transmit, Some(TransmitAction::WaitUntil(_))));
    assert_eq!(session.bytes_in_flight(), 0);
    let t2 = t0.after(Duration::from_millis(2));
    let output = session.handle(VidaptiveInput::Tick, t2);
    assert!(matches!(
        output.transmit,
        Some(TransmitAction::SendFiller { .. })
    ));
}

/// A filler that hands out its packets once.
struct OneShot {
    left: Option<Bytes>,
    handed: Vec<(u64, usize)>,
}

impl BacklogFiller for OneShot {
    fn usable(&self) -> bool {
        true
    }

    fn size_limit(&self) -> usize {
        100
    }

    fn after_next(&self, _pre: &Self, _now: Instant, packet: Option<Bytes>) -> bool {
        packet.is_none() || self.left.is_none()
    }

    fn after_send(&self, pre: &Self, _seq: u64, _len: usize, _now: Instant) -> bool {
        self.handed.len() == pre.handed.len() + 1
    }

    fn max_packet_size(&self) -> usize {
        100
    }

    fn next_packet(&mut self, _now: Instant) -> Option<Bytes> {
        self.left.take()
    }

    fn on_packet_sent(&mut self, seq: u64, len: usize, _now: Instant) {
        self.handed.push((seq, len));
    }
}

#[test]
fn a_filler_without_packets_gives_no_action() {
    let cc = NoopCc::new(u64::MAX, u64::MAX, Duration::from_millis(50));
    let now = start();
    let filler = OneShot {
        left: Some(Bytes::copy_from_slice(b"pad")),
        handed: Vec::new(),
    };
    let mut session = Vidaptive::new(cc, filler, VidaptiveConfig::default(), now);
    assert_eq!(
        session.poll_transmit(now),
        Some(TransmitAction::SendFiller {
            payload: Bytes::copy_from_slice(b"pad")
        })
    );
    assert_eq!(session.poll_transmit(now), None);
    assert_eq!(session.bytes_in_flight(), 3);
    assert_eq!(session.filler_mut().handed, vec![(1, 3)]);
    assert_eq!(session.filler().max_packet_size(), 100);
}

#[test]
fn a_session_runs_over_copa() {
    let t0 = start();
    let copa = Copa::new(CopaConfig::default(), t0);
    let mut session = Vidaptive::new(copa, DummyFiller::new(), VidaptiveConfig::default(), t0);
    let before = session.congestion_controller().cwnd();
    session.enqueue_packets(frame(1, t0, 1_000_000, 12_000, 1_200), t0);
    let mut now = t0;
    let mut sent = 0;
    while session.has_media() {
        match session.poll_transmit(now) {
            Some(TransmitAction::SendPacket { .. }) => sent += 1,
            Some(TransmitAction::WaitUntil(t)) => now = t,
            other => panic!("unexpected {:?}", other),
        }
    }
    assert_eq!(sent, 10);
    assert_eq!(session.bytes_in_flight(), 12_000);
    let later = now.after(Duration::from_millis(40));
    for seq in 1..=10 {
        session.on_network_ack(
            AckInfo {
                seq,
                len: 1_200,
                acked_at: later,
            },
            later,
        );
    }
    assert_eq!(session.bytes_in_flight(), 0);
    assert_eq!(session.congestion_controller().bytes_in_flight, 0);
    assert!(session.congestion_controller().cwnd() >= before);
}

#[test]
fn leaving_a_pause_sets_alpha_times_rate() {
    let cc = NoopCc::new(100_000, u64::MAX, Duration::from_millis(50));
    let config = VidaptiveConfig::builder()
        .optimizer_window(Duration::from_secs(10))
        .build()
        .unwrap();
    let t0 = start();
    let mut session = Vidaptive::new(cc, DummyFiller::new(), config, t0);
    session.enqueue_packets(frame(1, t0, 800_000, 500, 500), t0);
    let t1 = t0.after(Duration::from_millis(66));
    session.tick(t1);
    assert!(session.encoder_paused());
    session.congestion_controller_mut().pacing_rate = 50_000;
    let _ = session.poll_transmit(t1);
    session.on_network_ack(
        AckInfo {
            seq: 1,
            len: 500,
            acked_at: t1,
        },
        t1,
    );
    // Served in 66 ms against a target of 33 ms: 1 · 0.75 + 0.5 · 0.25.
    assert!(!session.encoder_paused());
    assert_eq!(float(session.encoder.alpha), 0.875);
    assert_eq!(session.encoder.target_bitrate_bps, 350_000);
    assert_eq!(session.last_optimizer_tick, t1);
}

#[test]
fn bytes_in_flight_stay_within_one_packet_of_the_window() {
    let cc = NoopCc::new(u64::MAX, 1_000, Duration::from_millis(50));
    let now = start();
    let mut session = Vidaptive::new(cc, DummyFiller::new(), VidaptiveConfig::default(), now);
    session.enqueue_packets(frame(1, now, 1_000, 9_000, 300), now);
    for _ in 0..20 {
        let _ = session.poll_transmit(now);
        assert!(session.bytes_in_flight() < 1_000 + 300);
    }
    assert_eq!(session.bytes_in_flight(), 1_200);
}

#[test]
fn a_wait_repeats_until_its_deadline() {
    let cc = NoopCc::new(1_000, 10_000, Duration::from_millis(50));
    let t0 = start();
    let mut session = Vidaptive::new(cc, DummyFiller::new(), VidaptiveConfig::default(), t0);
    session.enqueue_packets(frame(1, t0, 1_000, 200, 100), t0);
    let _ = session.poll_transmit(t0);
    // 100 bytes at 1,000 bytes per second.
    let due = t0.after(Duration::from_millis(100));
    for millis in [0, 1, 50, 99] {
        assert_eq!(
            session.poll_transmit(t0.after(Duration::from_millis(millis))),
            Some(TransmitAction::WaitUntil(due))
        );
        assert_eq!(session.pacer_queue_len(), 1);
    }
    assert!(matches!(
        session.poll_transmit(due),
        Some(TransmitAction::SendPacket { .. })
    ));
}

/// A step of a pseudo-random run.
fn next(state: &mut u64) -> u64 {
    *state ^= *state << 13;
    *state ^= *state >> 7;
    *state ^= *state << 17;
    *state
}

#[test]
fn a_long_history_keeps_payloads_and_bytes() {
    let cc = NoopCc::new(400_000, 9_000, Duration::from_millis(50));
    let mut now = start();
    let mut session = Vidaptive::new(cc, DummyFiller::new(), VidaptiveConfig::default(), now);
    let mut state: u64 = 0x1234_5678_9ABC_DEF1;
    let mut enqueued: Vec<Vec<u8>> = Vec::new();
    let mut sent: Vec<Vec<u8>> = Vec::new();
    // Length of each send, 0 once it was settled.
    let mut open: Vec<u64> = Vec::new();
    for id in 0..3_000u64 {
        now = now.after(Duration::from_micros(next(&mut state) % 4_000));
        match next(&mut state) % 6 {
            0 => {
                let packets: Vec<MediaPacket> = (0..next(&mut state) % 4)
                    .map(|k| {
                        let len = (next(&mut state) % 700) as usize;
                        let bytes = vec![(id + k) as u8; if len < 100 { 0 } else { len }];
                        MediaPacket::video(Bytes::from(bytes), k == 3)
                    })
                    .collect();
                for packet in &packets {
                    if !packet.payload.is_empty() {
                        enqueued.push(packet.payload.to_vec());
                    }
                }
                let target_bitrate = 1_000_000;
                session.enqueue_packets(
                    EncodedFrame {
                        id,
                        captured_at: now,
                        target_bitrate,
                        packets,
                    },
                    now,
                );
            }
            1 => {
                let acks: Vec<AckInfo> = (0..next(&mut state) % 6)
                    .map(|_| AckInfo {
                        seq: next(&mut state) % (open.len() as u64 + 2),
                        len: 1,
                        acked_at: now,
                    })
                    .collect();
                session.on_network_acks(&acks, now);
                for ack in &acks {
                    if ack.seq >= 1 && ack.seq <= open.len() as u64 {
                        open[ack.seq as usize - 1] = 0;
                    }
                }
            }
            2 => {
                let seq = next(&mut state) % (open.len() as u64 + 2);
                session.on_network_loss(
                    LostPacket {
                        seq,
                        len: 1,
                        lost_at: now,
                    },
                    now,
                );
                if seq >= 1 && seq <= open.len() as u64 {
                    open[seq as usize - 1] = 0;
                }
            }
            3 => session.tick(now),
            _ => match session.poll_transmit(now) {
                Some(TransmitAction::SendPacket { payload }) => {
                    sent.push(payload.to_vec());
                    open.push(payload.len() as u64);
                }
                Some(TransmitAction::SendFiller { payload }) => {
                    assert_eq!(sent.len(), enqueued.len());
                    open.push(payload.len() as u64);
                }
                _ => {}
            },
        }
        assert_eq!(&enqueued[..sent.len()], &sent[..]);
        assert_eq!(session.pacer_queue_len(), enqueued.len() - sent.len());
        assert_eq!(session.bytes_in_flight(), open.iter().sum::<u64>());
        assert_eq!(session.pacer.next_seq, open.len() as u64 + 1);
    }
    assert!(sent.len() > 100 && open.len() > sent.len());
    for seq in 1..=open.len() as u64 {
        session.on_network_ack(
            AckInfo {
                seq,
                len: 1,
                acked_at: now,
            },
            now,
        );
    }
    assert_eq!(session.bytes_in_flight(), 0);
}

#[test]
fn handle_equals_its_calls() {
    let t0 = start();
    let make = || {
        let copa = Copa::new(CopaConfig::default(), t0);
        Vidaptive::new(copa, DummyFiller::new(), VidaptiveConfig::default(), t0)
    };
    let mut a = make();
    let mut b = make();
    let mut state: u64 = 99;
    let mut now = t0;
    for id in 1..400u64 {
        now = now.after(Duration::from_micros(next(&mut state) % 3_000));
        let input = match next(&mut state) % 4 {
            0 => VidaptiveInput::PacketsEnqueued(frame(id, now, 1_000_000, 2_000, 900)),
            1 => VidaptiveInput::Ack(AckInfo {
                seq: next(&mut state) % id,
                len: 900,
                acked_at: now,
            }),
            2 => VidaptiveInput::Loss(LostPacket {
                seq: next(&mut state) % id,
                len: 200,
                lost_at: now,
            }),
            _ => VidaptiveInput::Tick,
        };
        let output = a.handle(input.clone(), now);
        match input {
            VidaptiveInput::PacketsEnqueued(frame) => b.enqueue_packets(frame, now),
            VidaptiveInput::Ack(ack) => b.on_network_ack(ack, now),
            VidaptiveInput::Loss(loss) => b.on_network_loss(loss, now),
            VidaptiveInput::Tick => b.tick(now),
        }
        assert_eq!(output.transmit, b.poll_transmit(now));
        assert!(output.encoder == b.poll_encoder(now));
        assert_eq!(a.bytes_in_flight(), b.bytes_in_flight());
        assert_eq!(a.pacer_queue_len(), b.pacer_queue_len());
        assert_eq!(
            a.congestion_controller().cwnd(),
            b.congestion_controller().cwnd()
        );
    }
}
