use capybara::delivery_rate::{DeliveryRateEstimator, RateSamplePacketState, SentPacket};

fn packet(pkt_num: u32, time_sent: u64, sent_size: usize) -> SentPacket {
    SentPacket {
        pkt_num,
        ack_no: pkt_num,
        time_sent,
        time_acked: None,
        sent_size,
        rate_sample_state: RateSamplePacketState::default(),
    }
}

#[test]
fn delivery_rate_new_estimator_is_empty() {
    let e = DeliveryRateEstimator::new(7);
    assert_eq!(e.delivered(), 0);
    assert_eq!(e.delivered_time, 7);
    assert_eq!(e.first_sent_time, 7);
    assert!(!e.is_app_limited());
    assert_eq!(e.delivery_rate(), 0);
}

#[test]
fn delivery_rate_on_packet_sent_restarts_when_idle() {
    let mut e = DeliveryRateEstimator::new(0);
    let mut p = packet(1, 1_000, 1_000);
    e.on_packet_sent(&mut p, 0, 3);
    assert_eq!(e.first_sent_time, 1_000);
    assert_eq!(e.delivered_time, 1_000);
    assert_eq!(e.last_sent_pkt_num, 1);
    assert_eq!(p.rate_sample_state.first_sent_time, Some(1_000));
    assert_eq!(p.rate_sample_state.delivered_time, Some(1_000));
    assert_eq!(p.rate_sample_state.delivered, 0);
    assert_eq!(p.rate_sample_state.tx_in_flight, 0);
    assert_eq!(p.rate_sample_state.lost, 3);
    let mut q = packet(2, 5_000, 1_000);
    e.on_packet_sent(&mut q, 1_000, 0);
    assert_eq!(e.first_sent_time, 1_000);
    assert_eq!(q.rate_sample_state.first_sent_time, Some(1_000));
}

#[test]
fn delivery_rate_one_packet_sample() {
    let mut e = DeliveryRateEstimator::new(0);
    let mut p = packet(1, 1_000, 1_000);
    e.on_packet_sent(&mut p, 0, 0);
    p.time_acked = Some(3_000_000);
    e.update_rate_sample(&mut p);
    assert_eq!(e.delivered(), 1_000);
    assert_eq!(e.delivered_time, 3_000_000);
    assert_eq!(e.sample_delivered(), 1_000);
    assert_eq!(e.sample_prior_delivered(), 0);
    assert_eq!(e.sample_rtt(), 2_999_000);
    assert_eq!(p.rate_sample_state.delivered_time, None);
    e.generate_rate_sample();
    assert_eq!(e.rate_sample.interval, 2_999_000);
    // 1000 bytes over 2999 microseconds, in bytes per second.
    assert_eq!(e.delivery_rate(), 333_444);
}

#[test]
fn delivery_rate_ack_counted_once() {
    let mut e = DeliveryRateEstimator::new(0);
    let mut p = packet(1, 1_000, 500);
    e.on_packet_sent(&mut p, 0, 0);
    p.time_acked = Some(2_000);
    e.update_rate_sample(&mut p);
    e.update_rate_sample(&mut p);
    assert_eq!(e.delivered(), 500);
}

#[test]
fn delivery_rate_unacked_packet_is_ignored() {
    let mut e = DeliveryRateEstimator::new(0);
    let mut p = packet(1, 1_000, 500);
    e.on_packet_sent(&mut p, 0, 0);
    e.update_rate_sample(&mut p);
    assert_eq!(e.delivered(), 0);
    e.generate_rate_sample();
    assert_eq!(e.delivery_rate(), 0);
}

#[test]
fn delivery_rate_app_limited() {
    let mut e = DeliveryRateEstimator::new(0);
    e.set_app_limited(true);
    assert!(e.is_app_limited());
    assert_eq!(e.last_app_limited_pkt_num, 1);
    let mut p = packet(4, 1_000, 100);
    e.on_packet_sent(&mut p, 0, 0);
    assert!(p.rate_sample_state.is_app_limited);
    e.set_app_limited(true);
    assert_eq!(e.last_app_limited_pkt_num, 4);
    p.time_acked = Some(1_000_000);
    e.update_rate_sample(&mut p);
    assert!(e.is_sample_app_limited());
    // The acknowledgement of packet 4 does not pass the app-limited bubble yet.
    e.generate_rate_sample();
    assert!(e.is_app_limited());
    let mut q = packet(5, 2_000, 100);
    e.on_packet_sent(&mut q, 100, 0);
    q.time_acked = Some(2_000_000);
    e.update_rate_sample(&mut q);
    e.generate_rate_sample();
    assert!(!e.is_app_limited());
    e.set_app_limited(false);
    assert_eq!(e.last_app_limited_pkt_num, 0);
}

#[test]
fn delivery_rate_large_sample() {
    let mut e = DeliveryRateEstimator::new(0);
    let mut p = packet(1, 1_000, 100_000);
    e.on_packet_sent(&mut p, 0, 0);
    p.time_acked = Some(2_001_000);
    e.update_rate_sample(&mut p);
    assert_eq!(e.sample_delivered(), 100_000);
    e.generate_rate_sample();
    assert_eq!(e.rate_sample.interval, 2_000_000);
    // 100000 bytes over 2000 microseconds, in bytes per second.
    assert_eq!(e.delivery_rate(), 50_000_000);
}

#[test]
fn delivery_rate_delivered_counts_each_packet_once() {
    let mut e = DeliveryRateEstimator::new(0);
    let mut p = packet(1, 1_000, 1_000);
    let mut q = packet(2, 2_000, 500);
    e.on_packet_sent(&mut p, 0, 0);
    e.on_packet_sent(&mut q, 1_000, 0);
    p.time_acked = Some(3_000);
    q.time_acked = Some(4_000);
    e.update_rate_sample(&mut p);
    e.update_rate_sample(&mut p);
    e.set_app_limited(true);
    e.generate_rate_sample();
    e.update_rate_sample(&mut q);
    assert_eq!(e.delivered(), 1_500);
    assert_eq!(e.sample_delivered(), e.delivered() - e.sample_prior_delivered());
}

#[test]
fn delivery_rate_delivered_saturates() {
    let mut e = DeliveryRateEstimator::new(0);
    let mut p = packet(1, 1_000, u32::MAX as usize - 10);
    let mut q = packet(2, 2_000, 100);
    e.on_packet_sent(&mut p, 0, 0);
    e.on_packet_sent(&mut q, 1_000, 0);
    p.time_acked = Some(3_000);
    q.time_acked = Some(4_000);
    e.update_rate_sample(&mut p);
    e.update_rate_sample(&mut q);
    assert_eq!(e.delivered(), u32::MAX);
}
