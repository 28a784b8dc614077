//! Copa and its round-trip time filters.

use vidaptive::cc::copa::{CompetingMode, Direction};
use vidaptive::cc::rtt::{duration_mul, MinMax, RttEstimator, EIGHTH_BITS};
use vidaptive::{
    AckInfo, Binary64, CongestionController, Copa, CopaConfig, Duration, Instant, LostPacket,
    SentPacket,
};

fn start() -> Instant {
    Instant::from_nanos(5_000_000_000)
}

fn sent(seq: u64, len: usize, sent_at: Instant) -> SentPacket {
    SentPacket {
        seq,
        len,
        sent_at,
        app_limited: false,
    }
}

fn ack(seq: u64, len: usize, acked_at: Instant) -> AckInfo {
    AckInfo { seq, len, acked_at }
}

fn number(x: f64) -> Binary64 {
    Binary64::from_bits(x.to_bits())
}

fn float(x: Binary64) -> f64 {
    f64::from_bits(x.to_bits())
}

#[test]
fn cwnd_grows_on_ack() {
    let t0 = start();
    let mut copa = Copa::new(CopaConfig::default(), t0);
    let pkt_len = 1_200usize;

    for seq in 1..=10 {
        copa.on_packet_sent(&SentPacket {
            seq,
            len: pkt_len,
            sent_at: t0.after(Duration::from_millis(seq)),
            app_limited: false,
        });
    }

    let cwnd_before = copa.cwnd();
    copa.on_packet_acked(&AckInfo {
        seq: 1,
        len: pkt_len,
        acked_at: t0.after(Duration::from_millis(50)),
    });
    assert!(copa.cwnd() >= cwnd_before);
    assert!(copa.pacing_rate() > 0);
}

#[test]
fn can_send_respects_cwnd() {
    let copa = Copa::new(
        CopaConfig {
            min_cwnd: 3_600,
            initial_cwnd: 3_600,
            ..CopaConfig::default()
        },
        start(),
    );
    assert!(copa.can_send(0));
    assert!(copa.can_send(3_599));
    assert!(!copa.can_send(3_600));
}

#[test]
fn defaults() {
    let config = CopaConfig::default();
    assert_eq!(config.min_cwnd, 4_800);
    assert_eq!(config.initial_cwnd, 96_000);
    assert_eq!(config.initial_rtt, Duration::from_millis(50));
    assert_eq!(config.packet_size, 1_200);
    assert_eq!(float(config.slow_start_delta), 0.9);
    assert_eq!(float(config.steady_delta), 0.9);
    assert!(config.use_standing_rtt);
}

#[test]
fn rates_of_a_new_controller_follow_the_guess() {
    let copa = Copa::new(CopaConfig::default(), start());
    assert!(copa.in_slow_start());
    assert_eq!(copa.target_rate(), 0);
    assert_eq!(copa.cwnd(), 96_000);
    assert_eq!(copa.rtt(), Duration::from_millis(50));
    assert_eq!(copa.pacing_rate(), 2 * ((96_000f64 / 0.05) as u64));
    assert_eq!(copa.cc_rate(), (96_000f64 / 0.05) as u64);
}

#[test]
fn the_window_never_falls_below_the_minimum() {
    let copa = Copa::new(
        CopaConfig {
            min_cwnd: 5_000,
            initial_cwnd: 10,
            ..CopaConfig::default()
        },
        start(),
    );
    assert_eq!(copa.cwnd(), 5_000);
    assert!(copa.can_send(4_999) && !copa.can_send(5_000));
}

#[test]
fn slow_start_adds_the_acknowledged_bytes() {
    let t0 = start();
    let mut copa = Copa::new(CopaConfig::default(), t0);
    for seq in 1..=3 {
        copa.on_packet_sent(&sent(seq, 1_000, t0));
    }
    assert_eq!(copa.bytes_in_flight, 3_000);
    let t1 = t0.after(Duration::from_millis(40));
    copa.on_packets_acked(&[ack(1, 1_000, t1), ack(2, 1_000, t1), ack(77, 9_999, t1)]);
    assert!(copa.in_slow_start());
    assert_eq!(copa.cwnd(), 98_000);
    assert_eq!(copa.bytes_in_flight, 1_000);
    // 7/8 of the guess and 1/8 of each sample.
    assert_eq!(copa.rtt(), Duration::from_nanos(47_656_250));
    assert_eq!(copa.target_rate(), (96_000f64 / 0.04) as u64);
    assert_eq!(copa.pacing_rate(), 2 * ((98_000f64 / 0.04) as u64));
    copa.on_packets_acked(&[]);
    assert_eq!(copa.cwnd(), 98_000);
}

#[test]
fn a_standing_queue_ends_slow_start_and_shrinks_the_window() {
    let t0 = start();
    let config = CopaConfig {
        slow_start_delta: number(0.5),
        steady_delta: number(0.25),
        ..CopaConfig::default()
    };
    let mut copa = Copa::new(config, t0);
    copa.on_packet_sent(&sent(1, 1_200, t0));
    let t1 = t0.after(Duration::from_millis(10));
    copa.on_packet_acked(&ack(1, 1_200, t1));
    assert_eq!(copa.cwnd(), 97_200);
    // Much later the round-trip time is 100 ms: a queue of 90 ms.
    let t2 = t0.after(Duration::from_millis(500));
    copa.on_packet_sent(&sent(2, 1_200, t2));
    let t3 = t2.after(Duration::from_millis(100));
    copa.on_packet_acked(&ack(2, 1_200, t3));
    assert!(!copa.in_slow_start());
    assert_eq!(copa.target_rate(), (1_200f64 / 0.5 / 0.09) as u64);
    let step = ((1_200u64 * 1_200) as f64 / (0.5 * 97_200f64)) as u64;
    assert_eq!(copa.cwnd(), 97_200 - step);
    assert_eq!(copa.velocity.velocity, 1);
    assert_eq!(copa.velocity.last_cwnd, 97_200);
    // Out of slow start the steady δ applies.
    let t4 = t2.after(Duration::from_millis(200));
    copa.on_packet_sent(&sent(3, 1_200, t4));
    let t5 = t4.after(Duration::from_millis(100));
    copa.on_packet_acked(&ack(3, 1_200, t5));
    assert_eq!(float(copa.delta), 0.25);
    assert!(!copa.in_slow_start());
    assert_eq!(copa.velocity.direction, Direction::Down);
}

#[test]
fn losses_of_a_tenth_make_the_link_contended() {
    let t0 = start();
    let mut copa = Copa::new(
        CopaConfig {
            slow_start_delta: number(0.2),
            ..CopaConfig::default()
        },
        t0,
    );
    copa.on_packet_sent(&sent(1, 100, t0));
    copa.on_packet_sent(&sent(2, 900, t0));
    copa.on_packet_lost(&LostPacket {
        seq: 1,
        len: 100,
        lost_at: t0,
    });
    assert_eq!(copa.bytes_in_flight, 900);
    let t1 = t0.after(Duration::from_millis(20));
    copa.on_packet_acked(&ack(2, 900, t1));
    assert_eq!(float(copa.round.loss_rate), 0.1);
    assert_eq!(copa.mode, CompetingMode::Competitive);
    assert_eq!(float(copa.delta), 0.4);
    copa.on_packet_sent(&sent(3, 900, t1));
    let t2 = t1.after(Duration::from_millis(20));
    copa.on_packet_acked(&ack(3, 900, t2));
    assert_eq!(copa.mode, CompetingMode::Default);
    assert_eq!(float(copa.delta), 0.2);
    assert_eq!(copa.round.count, 2);
}

#[test]
fn velocity_doubles_after_three_rounds_one_way() {
    let t0 = start();
    let mut copa = Copa::new(
        CopaConfig {
            initial_cwnd: 1_000_000,
            ..CopaConfig::default()
        },
        t0,
    );
    // A short round trip first, then a standing queue: the window falls round after round.
    copa.on_packet_sent(&sent(1, 1_200, t0));
    let mut now = t0.after(Duration::from_millis(5));
    copa.on_packet_acked(&ack(1, 1_200, now));
    let mut speeds = Vec::new();
    for seq in 2..=9 {
        now = now.after(Duration::from_millis(200));
        copa.on_packet_sent(&sent(seq, 1_200, now));
        now = now.after(Duration::from_millis(150));
        let before = copa.cwnd();
        copa.on_packet_acked(&ack(seq, 1_200, now));
        assert!(copa.cwnd() <= before);
        speeds.push(copa.velocity.velocity);
    }
    // First round: start of counting. Second: the window turns. Then two rounds to three.
    assert_eq!(speeds, vec![1, 1, 1, 1, 2, 4, 8, 16]);
}

#[test]
fn the_minimum_forgets_what_leaves_the_window() {
    let mut min = MinMax::new(Duration::from_micros(100));
    assert_eq!(min.get(), 0);
    min.update_min(10, 7);
    assert_eq!(min.get(), 7);
    min.update_min(60, 9);
    assert_eq!(min.get(), 7);
    min.update_min(110, 12);
    assert_eq!(min.get(), 7);
    min.update_min(111, 11);
    assert_eq!(min.get(), 9);
    min.set_window(Duration::from_micros(1));
    min.update_min(200, 30);
    assert_eq!(min.get(), 30);
    assert_eq!(min.samples.len(), 1);
}

#[test]
fn the_estimate_moves_by_an_eighth() {
    let mut rtt = RttEstimator::new(Duration::from_millis(80));
    rtt.on_sample(Duration::from_millis(160));
    assert_eq!(rtt.smoothed_rtt(), Duration::from_millis(90));
    assert_eq!(rtt.rttvar, Duration::from_millis(50));
    assert_eq!(rtt.latest_rtt, Duration::from_millis(160));
    let mut first = RttEstimator::new(Duration::zero());
    first.on_sample(Duration::from_millis(30));
    assert_eq!(first.smoothed_rtt(), Duration::from_millis(30));
    assert_eq!(first.rttvar, Duration::from_millis(15));
    assert_eq!(
        duration_mul(Duration::from_secs(1), EIGHTH_BITS),
        Duration::from_millis(125)
    );
}

#[test]
fn the_estimate_agrees_with_native_floats() {
    let mut rtt = RttEstimator::new(Duration::from_millis(50));
    let mut smoothed = std::time::Duration::from_millis(50);
    let mut var = std::time::Duration::from_millis(25);
    let mul = |d: std::time::Duration, f: f64| {
        std::time::Duration::from_secs_f64(d.as_secs_f64() * f)
    };
    let mut n: u64 = 12345;
    for _ in 0..300 {
        n = n.wrapping_mul(6364136223846793005).wrapping_add(1442695040888963407);
        let nanos = (n >> 20) % 900_000_000;
        let sample = std::time::Duration::from_nanos(nanos);
        let diff = if sample > smoothed { sample - smoothed } else { smoothed - sample };
        var = mul(var, 0.75) + mul(diff, 0.25);
        smoothed = mul(smoothed, 0.875) + mul(sample, 0.125);
        rtt.on_sample(Duration::from_nanos(nanos));
        assert_eq!(rtt.smoothed_rtt().nanos, smoothed.as_nanos());
        assert_eq!(rtt.rttvar.nanos, var.as_nanos());
    }
}

#[test]
fn repeats_in_a_batch_are_credited_once() {
    let t0 = start();
    let t1 = t0.after(Duration::from_millis(30));
    let t2 = t0.after(Duration::from_millis(45));
    let run = |acks: &[AckInfo]| {
        let mut copa = Copa::new(CopaConfig::default(), t0);
        for seq in 1..=4 {
            copa.on_packet_sent(&sent(seq, 1_000, t0));
        }
        copa.on_packets_acked(acks);
        (
            copa.cwnd(),
            copa.rtt(),
            copa.cc_rate(),
            copa.pacing_rate(),
            copa.target_rate(),
            copa.in_slow_start(),
            copa.bytes_in_flight,
        )
    };
    let once = [ack(2, 1_000, t1), ack(1, 1_000, t2), ack(4, 1_000, t2)];
    let repeated = [
        ack(2, 1_000, t1),
        ack(2, 900, t2),
        ack(1, 1_000, t2),
        ack(2, 1_000, t2),
        ack(4, 1_000, t2),
        ack(1, 1, t1),
    ];
    assert_eq!(run(&once), run(&repeated));
    assert_ne!(run(&once), run(&[]));
    assert_eq!(run(&[]).0, 96_000);
}
