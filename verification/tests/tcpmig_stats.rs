use capybara::addr::{Ipv4Addr, SocketAddrV4};
use capybara::tcpmig_stats::{RollingAverage, TcpMigStats};

fn local() -> SocketAddrV4 {
    SocketAddrV4::new(Ipv4Addr::new(10, 0, 1, 9), 10000)
}

fn client(i: u8) -> SocketAddrV4 {
    SocketAddrV4::new(Ipv4Addr::new(10, 0, 2, i), 40000 + i as u16)
}

#[test]
fn tcpmig_rolling_average_long_window() {
    let mut r = RollingAverage::new();
    assert_eq!(r.get(), 0);
    for _ in 0..128 {
        r.update(3);
    }
    assert_eq!(r.get(), 3);
    r.update(131);
    assert_eq!(r.get(), 4);
}

#[test]
fn tcpmig_stats_tracking() {
    let mut s = TcpMigStats::new(0, 1);
    assert_eq!(s.num_of_connections(), 0);
    s.start_tracking_connection(local(), client(1));
    s.start_tracking_connection(local(), client(2));
    assert_eq!(s.num_of_connections(), 2);
    s.stop_tracking_connection(local(), client(1), 0);
    assert_eq!(s.num_of_connections(), 1);
    s.stop_tracking_connection(local(), client(1), 0);
    assert_eq!(s.num_of_connections(), 1);
}

#[test]
fn tcpmig_stats_queue_updates() {
    let mut s = TcpMigStats::new(0, 1);
    let mut counter = 0;
    s.recv_queue_update((local(), client(1)), true, 1, &mut counter);
    s.recv_queue_update((local(), client(1)), true, 2, &mut counter);
    assert_eq!(s.global_recv_queue_length(), 2);
    assert_eq!(counter, 0);
    s.recv_queue_update((local(), client(1)), false, 1, &mut counter);
    assert_eq!(s.global_recv_queue_length(), 1);
    // 1 + 2 + 1 over a window of 128.
    assert_eq!(s.avg_global_recv_queue_length(), 0);
    s.decrease_global_queue_length(5);
    assert_eq!(s.global_recv_queue_length(), 0);
}

#[test]
fn tcpmig_stats_granularity() {
    let mut s = TcpMigStats::new(0, 3);
    let mut counter = 0;
    s.recv_queue_update((local(), client(1)), true, 1, &mut counter);
    assert_eq!(counter, 1);
    s.recv_queue_update((local(), client(1)), true, 2, &mut counter);
    assert_eq!(counter, 2);
    // No bucket update yet: nothing to migrate.
    assert_eq!(s.get_connection_to_migrate_out(), None);
    s.recv_queue_update((local(), client(1)), true, 3, &mut counter);
    assert_eq!(counter, 0);
    assert_eq!(s.get_connection_to_migrate_out(), Some((local(), client(1))));
}

#[test]
fn tcpmig_stats_migrate_out_picks_from_pivot_bucket() {
    let mut s = TcpMigStats::new(0, 1);
    let mut counter = 0;
    s.recv_queue_update((local(), client(1)), true, 5, &mut counter);
    s.recv_queue_update((local(), client(2)), true, 25, &mut counter);
    s.recv_queue_update((local(), client(3)), true, 15, &mut counter);
    // The average is (1 + 2 + 3) / 128 = 0: the pivot is bucket 0.
    assert_eq!(s.get_connection_to_migrate_out(), Some((local(), client(1))));
    assert_eq!(s.get_connection_to_migrate_out(), Some((local(), client(3))));
    assert_eq!(s.get_connection_to_migrate_out(), Some((local(), client(2))));
    assert_eq!(s.get_connection_to_migrate_out(), None);
}

#[test]
fn tcpmig_stats_empty_queue_leaves_buckets() {
    let mut s = TcpMigStats::new(0, 1);
    let mut counter = 0;
    s.recv_queue_update((local(), client(1)), true, 4, &mut counter);
    s.recv_queue_update((local(), client(1)), false, 0, &mut counter);
    assert_eq!(s.get_connection_to_migrate_out(), None);
}

#[test]
fn tcpmig_stats_stop_tracking_leaves_buckets() {
    let mut s = TcpMigStats::new(0, 1);
    let mut counter = 0;
    s.start_tracking_connection(local(), client(1));
    s.recv_queue_update((local(), client(1)), true, 4, &mut counter);
    s.stop_tracking_connection(local(), client(1), 4);
    assert_eq!(s.get_connection_to_migrate_out(), None);
}

#[test]
fn tcpmig_rolling_average_is_mean_of_last_values() {
    let mut r = RollingAverage::new();
    for v in 1..=200usize {
        r.update(v);
    }
    // The last 128 values are 73..=200: their sum is 17472, their mean 136.5.
    assert_eq!(r.get(), 136);
    let mut s = RollingAverage::new();
    for _ in 0..3 {
        s.update(128);
    }
    // Three values taken, the rest of the window zeros.
    assert_eq!(s.get(), 3);
}
