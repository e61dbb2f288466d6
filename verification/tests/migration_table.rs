use capybara::active_migration::MigrationError;
use capybara::addr::{Ipv4Addr, SocketAddrV4};
use capybara::buffer::Buffer;
use capybara::ipv4::Ipv4Header;
use capybara::migration_table::{heartbeat_due, should_migrate, MigrationTable, PeerAction, PeerError};
use capybara::queue::QDesc;
use capybara::stage::MigrationStage;
use capybara::tcpmig_header::TcpMigHeader;
use capybara::tcpmig_stats::TcpMigStats;

fn local_ip() -> Ipv4Addr {
    Ipv4Addr::new(10, 0, 1, 9)
}

fn origin() -> SocketAddrV4 {
    SocketAddrV4::new(Ipv4Addr::new(10, 0, 1, 7), 80)
}

fn client() -> SocketAddrV4 {
    SocketAddrV4::new(Ipv4Addr::new(10, 0, 2, 1), 40000)
}

fn target() -> SocketAddrV4 {
    SocketAddrV4::new(local_ip(), 10000)
}

fn table() -> MigrationTable<u32> {
    MigrationTable::new(local_ip(), 10000)
}

fn segment(stage: MigrationStage) -> TcpMigHeader {
    TcpMigHeader::new(origin(), client(), 0, stage)
}

fn empty() -> Buffer {
    Buffer::from_slice(&[])
}

#[test]
fn migration_table_accepts_proposal() {
    let mut t = table();
    let hdr = segment(MigrationStage::PrepareMigration);
    assert!(t.can_receive(&hdr));
    match t.receive(hdr, 10001, empty()) {
        Ok(PeerAction::Reply(reply)) => {
            assert_eq!(reply.stage, MigrationStage::PrepareMigrationAck);
            assert!(reply.flag_load);
            assert_eq!(reply.origin, origin());
            assert_eq!(reply.remote, client());
        },
        _ => panic!("expected the acknowledgement"),
    }
    assert!(t.is_migrating(&(origin(), client())));
    assert!(t.is_migrating_in(target(), client()));
}

#[test]
fn migration_table_proposal_back_to_sender() {
    let mut t = table();
    let hdr = t.initiate_migration((origin(), client()), QDesc(3));
    assert_eq!(hdr.stage, MigrationStage::PrepareMigration);
    assert!(t.is_migrating(&(origin(), client())));
    assert!(matches!(t.receive(hdr, 10001, empty()), Ok(PeerAction::Nothing)));
    assert!(!t.is_migrating(&(origin(), client())));
}

#[test]
fn migration_table_no_such_migration() {
    let mut t = table();
    let r = t.receive(segment(MigrationStage::ConnectionStateAck), 10001, empty());
    assert!(matches!(r, Err(PeerError::NoSuchActiveMigration)));
    assert!(!t.is_migrating(&(origin(), client())));
}

#[test]
fn migration_table_migrates_out() {
    let mut t = table();
    let _ = t.initiate_migration((origin(), client()), QDesc(3));
    assert!(!t.is_migrated_out(&client()));
    match t.receive(segment(MigrationStage::PrepareMigrationAck), 10001, empty()) {
        Ok(PeerAction::MigrateOut(qd, state_hdr)) => {
            assert_eq!(qd, Some(QDesc(3)));
            assert_eq!(state_hdr.stage, MigrationStage::ConnectionState);
            assert_eq!(state_hdr.origin, origin());
            assert_eq!(state_hdr.remote, client());
        },
        _ => panic!("expected the connection to migrate out"),
    }
    assert!(t.is_migrated_out(&client()));
    let r = t.receive(segment(MigrationStage::ConnectionStateAck), 10001, empty());
    assert!(matches!(r, Ok(PeerAction::Completed)));
    assert!(!t.is_migrating(&(origin(), client())));
}

#[test]
fn migration_table_wrong_stage() {
    let mut t = table();
    let _ = t.initiate_migration((origin(), client()), QDesc(3));
    let r = t.receive(segment(MigrationStage::ConnectionState), 10001, empty());
    assert!(matches!(
        r,
        Err(PeerError::Protocol(MigrationError::ExpectedPrepareMigrationAckOrRejected))
    ));
    assert!(t.is_migrating(&(origin(), client())));
    let r = t.receive(segment(MigrationStage::Rejected), 10001, empty());
    assert!(matches!(r, Ok(PeerAction::Rejected)));
}

#[test]
fn migration_table_migrates_in() {
    let mut t = table();
    let _ = t.receive(segment(MigrationStage::PrepareMigration), 10001, empty());
    let mut state = segment(MigrationStage::ConnectionState);
    state.payload_length = 3;
    assert!(t.can_receive(&state));
    let h = match t.receive(state, 10001, Buffer::from_slice(&[1, 2, 3])) {
        Ok(PeerAction::MigrateIn(h, bytes)) => {
            assert_eq!(bytes.as_slice(), &[1, 2, 3]);
            h
        },
        _ => panic!("expected the state"),
    };
    let ack = t.accept_state(h).unwrap();
    assert_eq!(ack.stage, MigrationStage::ConnectionStateAck);
    assert!(t.accept_state(h).is_none());

    let ip = Ipv4Header::new(client().ip, local_ip(), 6);
    assert!(t.try_buffer_packet(target(), client(), ip, 7, Buffer::from_slice(&[9])).is_ok());
    let q = t.take_buffer_queue(target(), client()).ok().unwrap();
    assert_eq!(q.len(), 1);
    assert_eq!(q[0].1, 7);
    assert_eq!(q[0].2.as_slice(), &[9]);

    // The state was acknowledged: further segments are ignored.
    let r = t.receive(segment(MigrationStage::ConnectionState), 10001, empty());
    assert!(matches!(r, Ok(PeerAction::Nothing)));

    t.complete_migrating_in(target(), client());
    assert!(!t.is_migrating(&(origin(), client())));
    assert!(!t.is_migrating_in(target(), client()));
}

#[test]
fn migration_table_buffer_without_migration() {
    let mut t = table();
    let ip = Ipv4Header::new(client().ip, local_ip(), 6);
    match t.try_buffer_packet(target(), client(), ip, 7, Buffer::from_slice(&[9])) {
        Err((_, tcp, data)) => {
            assert_eq!(tcp, 7);
            assert_eq!(data.as_slice(), &[9]);
        },
        Ok(()) => panic!("nothing to buffer into"),
    }
    assert!(matches!(t.take_buffer_queue(target(), client()), Err(PeerError::NoOrigin)));
}

#[test]
fn migration_table_fragment_announcing_too_few() {
    let mut t = table();
    let _ = t.receive(segment(MigrationStage::PrepareMigration), 10001, empty());
    let mut f = segment(MigrationStage::ConnectionState);
    f.fragment_offset = 2;
    f.flag_next_fragment = true;
    let r = t.receive(f, 10001, Buffer::from_slice(&[1]));
    assert!(matches!(r, Ok(PeerAction::Nothing)));
    f.fragment_offset = 3;
    let _ = t.receive(f, 10001, Buffer::from_slice(&[2]));
    // A last fragment at offset 0 would announce one fragment while two are held.
    let mut last = segment(MigrationStage::ConnectionState);
    last.fragment_offset = 0;
    assert!(!t.can_receive(&last));
}

#[test]
fn should_migrate_picks_until_limit() {
    let local = target();
    let other = SocketAddrV4::new(Ipv4Addr::new(10, 0, 2, 2), 40001);
    let mut s = TcpMigStats::new(0, 1);
    s.start_tracking_connection(local, client());
    s.start_tracking_connection(local, other);
    let mut counter = 0;
    for i in 0..200usize {
        s.recv_queue_update((local, client()), true, i + 1, &mut counter);
    }
    assert!(s.can_pick_connection());
    let mut done = 0u32;
    assert_eq!(should_migrate(&mut s, &mut done, 1), Some((local, client())));
    assert_eq!(done, 1);
    assert_eq!(should_migrate(&mut s, &mut done, 1), None);
    assert_eq!(done, 1);
}

#[test]
fn should_migrate_needs_two_connections() {
    let local = target();
    let mut s = TcpMigStats::new(0, 1);
    s.start_tracking_connection(local, client());
    let mut counter = 0;
    for i in 0..200usize {
        s.recv_queue_update((local, client()), true, i + 1, &mut counter);
    }
    let mut done = 0u32;
    assert_eq!(should_migrate(&mut s, &mut done, 5), None);
    assert_eq!(done, 0);
}

#[test]
fn heartbeat_only_below_threshold_and_after_interval() {
    assert!(heartbeat_due(5, 10, 1_000_001));
    assert!(heartbeat_due(10, 10, 2_000_000));
    assert!(!heartbeat_due(5, 10, 1_000_000));
    assert!(!heartbeat_due(11, 10, 5_000_000));
}
