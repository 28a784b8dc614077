//! History-based and fixed-rate congestion control.

use vidaptive::cc::{Rocc, RoccConfig};
use vidaptive::{
    AckInfo, CongestionController, Duration, Instant, LostPacket, NoopCc, SentPacket,
};

fn start() -> Instant {
    Instant::from_nanos(0)
}

fn sent(seq: u64, len: usize, sent_at: Instant) -> SentPacket {
    SentPacket {
        seq,
        len,
        sent_at,
        app_limited: false,
    }
}

fn ack(seq: u64, len: usize, acked_at: Instant) -> AckInfo {
    AckInfo { seq, len, acked_at }
}

fn lost(seq: u64, len: usize, lost_at: Instant) -> LostPacket {
    LostPacket { seq, len, lost_at }
}

#[test]
fn rocc_starts_with_ten_packets() {
    let config = RoccConfig::default();
    assert_eq!(config.mss, 1_400);
    assert_eq!(config.min_cwnd_packets, 2);
    assert_eq!(config.alpha_packets, 2);
    assert_eq!(config.loss_thresh, 64);
    let rocc = Rocc::new(config);
    assert_eq!(rocc.cwnd(), 14_000);
    assert_eq!(rocc.rtt(), Duration::from_millis(50));
    assert_eq!(rocc.pacing_rate(), (14_000f64 / 0.05) as u64);
    assert_eq!(rocc.cc_rate(), (14_000f64 / 0.05) as u64);
    assert!(rocc.can_send(13_999) && !rocc.can_send(14_000));
}

#[test]
fn rocc_window_follows_the_acknowledged_bytes() {
    let t0 = start();
    let mut rocc = Rocc::new(RoccConfig::default());
    for seq in 1..=30 {
        rocc.on_packet_sent(&sent(seq, 1_400, t0));
    }
    assert_eq!(rocc.bytes_in_flight, 42_000);
    let t1 = t0.after(Duration::from_millis(20));
    let acks: Vec<AckInfo> = (1..=20).map(|seq| ack(seq, 1_400, t1)).collect();
    rocc.on_packets_acked(&acks);
    // 28,000 acknowledged and a probe of two packets; 14,000 still in flight fill the window.
    assert_eq!(rocc.cwnd(), 28_000 + 2_800);
    assert_eq!(rocc.bytes_in_flight, 14_000);
    assert_eq!(rocc.rtt(), Duration::from_millis(20));
    assert_eq!(rocc.pacing_rate(), (30_800f64 / (20_000f64 / 1_000_000.0)) as u64);
    assert_eq!(rocc.cc_rate(), (30_800f64 / 0.02) as u64);
    // Unknown packets do not count.
    rocc.on_packet_acked(&ack(500, 1_400, t1));
    assert_eq!(rocc.cwnd(), 30_800);
    rocc.on_packet_lost(&lost(500, 1_400, t1));
    assert_eq!(rocc.bytes_in_flight, 14_000);
}

#[test]
fn rocc_keeps_its_minimum_window() {
    let t0 = start();
    let mut rocc = Rocc::new(RoccConfig {
        min_cwnd_packets: 8,
        ..RoccConfig::default()
    });
    for seq in 1..=20 {
        rocc.on_packet_sent(&sent(seq, 1_400, t0));
    }
    rocc.on_packet_acked(&ack(1, 1_400, t0.after(Duration::from_millis(30))));
    assert_eq!(rocc.cwnd(), 8 * 1_400);
}

#[test]
fn rocc_tolerates_loss_without_delay() {
    let t0 = start();
    let mut rocc = Rocc::new(RoccConfig::default());
    for seq in 1..=40 {
        rocc.on_packet_sent(&sent(seq, 1_400, t0));
    }
    let t1 = t0.after(Duration::from_millis(20));
    let acks: Vec<AckInfo> = (1..=20).map(|seq| ack(seq, 1_400, t1)).collect();
    rocc.on_packets_acked(&acks);
    let rate = rocc.pacing_rate();
    for seq in 21..=30 {
        rocc.on_packet_lost(&lost(seq, 1_400, t1));
    }
    assert_eq!(rocc.cwnd(), 30_800);
    assert_eq!(rocc.pacing_rate(), rate);
}

#[test]
fn rocc_slows_down_for_loss_with_delay() {
    let t0 = start();
    let mut rocc = Rocc::new(RoccConfig::default());
    for seq in 1..=60 {
        rocc.on_packet_sent(&sent(seq, 1_400, t0));
    }
    let t1 = t0.after(Duration::from_millis(20));
    rocc.on_packet_acked(&ack(1, 1_400, t1));
    let t2 = t0.after(Duration::from_millis(40));
    let acks: Vec<AckInfo> = (2..=20).map(|seq| ack(seq, 1_400, t2)).collect();
    rocc.on_packets_acked(&acks);
    for seq in 21..=30 {
        rocc.on_packet_lost(&lost(seq, 1_400, t2));
    }
    // 20 packets acknowledged within 40 ms and a probe of two.
    let cwnd = 20.0 * 1_400.0 + 2_800.0;
    assert_eq!(rocc.cwnd(), cwnd as u64);
    let multiplier = (1024.0 + 2.0 * 64.0) / (40_000.0 / 1_000_000.0 * 2.0 * 1024.0);
    assert_eq!(rocc.pacing_rate(), (cwnd * multiplier) as u64);
}

#[test]
fn noop_reports_constants() {
    let t0 = start();
    let mut cc = NoopCc::new(7, 100, Duration::from_millis(3));
    cc.on_packet_sent(&sent(1, 60, t0));
    cc.on_packet_sent(&sent(2, 50, t0));
    assert_eq!(cc.bytes_in_flight, 110);
    cc.on_packet_lost(&lost(1, 60, t0));
    assert_eq!(cc.bytes_in_flight, 50);
    cc.on_packet_acked(&ack(2, 50, t0));
    cc.on_packets_acked(&[ack(3, 5, t0)]);
    assert_eq!(cc.bytes_in_flight, 0);
    assert_eq!(cc.pacing_rate(), 7);
    assert_eq!(cc.cc_rate(), 7);
    assert_eq!(cc.cwnd(), 100);
    assert_eq!(cc.rtt(), Duration::from_millis(3));
    assert!(cc.can_send(99) && !cc.can_send(100));
}
