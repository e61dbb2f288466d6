use capybara::addr::{Ipv4Addr, SocketAddrV4};
use capybara::tcp_stats::{RollingAverage, Stat, Stats, StatsHandle, MAX_EXTRACTED_CONNECTIONS};

fn conn(i: u8) -> (SocketAddrV4, SocketAddrV4) {
    (
        SocketAddrV4::new(Ipv4Addr::new(10, 0, 0, 1), 80),
        SocketAddrV4::new(Ipv4Addr::new(10, 0, 1, i), 5000 + i as u16),
    )
}

fn enabled(stats: &mut Stats, i: u8, len: usize) -> StatsHandle {
    let h = StatsHandle::new(stats, conn(i));
    h.enable(stats, len);
    h
}

/// Polls until the rolling average has forgotten everything before.
fn settle(stats: &mut Stats) {
    for _ in 0..8 {
        stats.poll();
    }
}

#[test]
fn rolling_average_short_window() {
    let mut r = RollingAverage::new();
    assert_eq!(r.get(), 0);
    for _ in 0..8 {
        r.update(8);
    }
    assert_eq!(r.get(), 8);
    r.update(0);
    assert_eq!(r.get(), 7);
    r.force_set(3);
    assert_eq!(r.get(), 3);
}

#[test]
fn stat_expect_enabled() {
    assert_eq!(Stat::Enabled(4).expect_enabled("enabled"), 4);
    assert!(matches!(Stat::default(), Stat::Disabled));
}

#[test]
fn stats_enable_set_poll() {
    let mut s = Stats::new(10, None);
    let h = enabled(&mut s, 1, 5);
    assert_eq!(s.global_recv_queue_length(), 5);
    h.set(&mut s, 12);
    assert_eq!(s.global_recv_queue_length(), 5);
    s.poll();
    assert_eq!(s.global_recv_queue_length(), 12);
    h.set(&mut s, 0);
    s.poll();
    assert_eq!(s.global_recv_queue_length(), 0);
}

#[test]
fn stats_set_ignored_unless_enabled() {
    let mut s = Stats::new(10, None);
    let h = StatsHandle::new(&mut s, conn(1));
    h.set(&mut s, 9);
    h.enable(&mut s, 2);
    s.poll();
    assert_eq!(s.global_recv_queue_length(), 2);
}

#[test]
fn stats_disable_leaves_at_poll() {
    let mut s = Stats::new(10, None);
    let a = enabled(&mut s, 1, 5);
    let _b = enabled(&mut s, 2, 7);
    assert_eq!(s.global_recv_queue_length(), 12);
    a.disable(&mut s);
    assert_eq!(s.global_recv_queue_length(), 12);
    s.poll();
    assert_eq!(s.global_recv_queue_length(), 7);
}

#[test]
fn connections_to_migrate_none_below_threshold() {
    let mut s = Stats::new(10, None);
    let _a = enabled(&mut s, 1, 5);
    settle(&mut s);
    assert!(s.connections_to_migrate().is_none());
    assert_eq!(s.global_recv_queue_length(), 5);
}

#[test]
fn connections_to_migrate_none_until_average_catches_up() {
    let mut s = Stats::new(10, None);
    let _a = enabled(&mut s, 1, 50);
    s.poll();
    // The average over the window is 50 / 8 = 6.
    assert!(s.connections_to_migrate().is_none());
}

#[test]
fn connections_to_migrate_from_excess_bucket_up() {
    let mut s = Stats::new(100, None);
    let _a = enabled(&mut s, 1, 90);
    let _b = enabled(&mut s, 2, 12);
    let _c = enabled(&mut s, 3, 20);
    settle(&mut s);
    assert_eq!(s.global_recv_queue_length(), 122);
    let taken = s.connections_to_migrate().unwrap();
    // Excess 22 starts at bucket 2 (lengths 16-23): the connection of length 20, then
    // up to bucket 11: the connection of length 90, which brings the length to 12.
    assert_eq!(taken.len(), 2);
    assert_eq!(taken[0], conn(3));
    assert_eq!(taken[1], conn(1));
    assert_eq!(s.global_recv_queue_length(), 12);
    // The average restarts from zeros and the new global length.
    assert!(s.connections_to_migrate().is_none());
}

#[test]
fn connections_to_migrate_wraps_to_lower_buckets() {
    let mut s = Stats::new(10, None);
    let _a = enabled(&mut s, 1, 30);
    let _b = enabled(&mut s, 2, 12);
    let _c = enabled(&mut s, 3, 20);
    settle(&mut s);
    let taken = s.connections_to_migrate().unwrap();
    // Excess 52 is past the last bucket: buckets are visited from the last one down.
    assert_eq!(taken.len(), 3);
    assert_eq!(taken[0], conn(1));
    assert_eq!(taken[1], conn(3));
    assert_eq!(taken[2], conn(2));
    assert_eq!(s.global_recv_queue_length(), 0);
}

#[test]
fn connections_to_migrate_respects_limit() {
    let mut s = Stats::new(100, Some(1));
    let _a = enabled(&mut s, 1, 90);
    let _c = enabled(&mut s, 3, 20);
    let _b = enabled(&mut s, 2, 12);
    settle(&mut s);
    let taken = s.connections_to_migrate().unwrap();
    assert_eq!(taken.len(), 1);
    assert_eq!(taken[0], conn(3));
    assert_eq!(s.global_recv_queue_length(), 102);
    settle(&mut s);
    assert!(s.connections_to_migrate().is_none());
}

#[test]
fn connections_to_migrate_takes_at_most_twenty() {
    let mut s = Stats::new(0, None);
    for i in 0..25u8 {
        let _h = enabled(&mut s, i, 8);
    }
    settle(&mut s);
    let taken = s.connections_to_migrate().unwrap();
    assert_eq!(taken.len(), MAX_EXTRACTED_CONNECTIONS);
    // Taken from the back of the bucket: the last enabled first.
    assert_eq!(taken[0], conn(24));
    assert_eq!(taken[19], conn(5));
    assert_eq!(s.global_recv_queue_length(), 40);
}

#[test]
fn connections_to_migrate_goes_below_threshold() {
    let mut s = Stats::new(10, None);
    let _a = enabled(&mut s, 1, 20);
    let _b = enabled(&mut s, 2, 10);
    settle(&mut s);
    let taken = s.connections_to_migrate().unwrap();
    // Taking the connection of length 20 leaves exactly the threshold, which is not below
    // it: the one of length 10 is taken too.
    assert_eq!(taken.len(), 2);
    assert_eq!(taken[0], conn(1));
    assert_eq!(taken[1], conn(2));
    assert_eq!(s.global_recv_queue_length(), 0);
}
