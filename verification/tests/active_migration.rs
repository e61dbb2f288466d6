use capybara::active_migration::{ActiveMigration, MigrationError, MigrationRequestStatus};
use capybara::addr::{Ipv4Addr, SocketAddrV4};
use capybara::buffer::Buffer;
use capybara::ipv4::Ipv4Header;
use capybara::stage::MigrationStage;
use capybara::tcpmig_header::TcpMigHeader;

fn origin() -> SocketAddrV4 {
    SocketAddrV4::new(Ipv4Addr::new(10, 0, 1, 8), 10000)
}

fn client() -> SocketAddrV4 {
    SocketAddrV4::new(Ipv4Addr::new(10, 0, 2, 1), 40000)
}

fn migration() -> ActiveMigration<()> {
    ActiveMigration::new(Ipv4Addr::new(10, 0, 1, 9), Ipv4Addr::new(10, 0, 1, 8), 10001, 10000, origin(), client())
}

fn segment(stage: MigrationStage) -> TcpMigHeader {
    TcpMigHeader::new(origin(), client(), 0, stage)
}

fn fragment(offset: u16, next: bool) -> TcpMigHeader {
    let mut h = segment(MigrationStage::ConnectionState);
    h.fragment_offset = offset;
    h.flag_next_fragment = next;
    h
}

#[test]
fn origin_side_protocol() {
    let mut a = migration();
    assert!(!a.is_prepared());
    let hdr = a.initiate_migration();
    assert_eq!(hdr.stage, MigrationStage::PrepareMigration);
    assert_eq!(hdr.origin, origin());
    assert_eq!(hdr.remote, client());
    assert_eq!(hdr.payload_length, 0);
    let r = a.process_packet(segment(MigrationStage::PrepareMigrationAck), 10005, Buffer::empty());
    assert!(matches!(r, Ok((MigrationRequestStatus::Handled, None))));
    assert!(a.is_prepared());
    let hdr = a.send_connection_state();
    assert_eq!(hdr.stage, MigrationStage::ConnectionState);
    let r = a.process_packet(segment(MigrationStage::ConnectionStateAck), 10005, Buffer::empty());
    assert!(matches!(r, Ok((MigrationRequestStatus::MigrationCompleted, None))));
}

#[test]
fn origin_side_rejected() {
    let mut a = migration();
    a.initiate_migration();
    let r = a.process_packet(segment(MigrationStage::Rejected), 10005, Buffer::empty());
    assert!(matches!(r, Ok((MigrationRequestStatus::Rejected, None))));
    assert!(!a.is_prepared());
}

#[test]
fn origin_side_unexpected_stage() {
    let mut a = migration();
    a.initiate_migration();
    match a.process_packet(segment(MigrationStage::ConnectionState), 10005, Buffer::empty()) {
        Err(e) => {
            assert_eq!(e, MigrationError::ExpectedPrepareMigrationAckOrRejected);
            assert_eq!(e.message(), "expected PREPARE_MIGRATION_ACK or REJECTED");
        },
        Ok(_) => panic!("unexpected stage accepted"),
    }
    assert!(!a.is_prepared());
    a.process_packet(segment(MigrationStage::PrepareMigrationAck), 10005, Buffer::empty()).ok();
    a.send_connection_state();
    match a.process_packet(segment(MigrationStage::PrepareMigrationAck), 10005, Buffer::empty()) {
        Err(e) => assert_eq!(e.message(), "expected CONNECTION_STATE_ACK"),
        Ok(_) => panic!("unexpected stage accepted"),
    }
}

#[test]
fn target_side_protocol() {
    let mut t = migration();
    assert_eq!(t.local_endpoint(), SocketAddrV4::new(Ipv4Addr::new(10, 0, 1, 9), 10001));
    match t.process_packet(segment(MigrationStage::PrepareMigration), 10000, Buffer::empty()) {
        Ok((MigrationRequestStatus::Handled, Some(reply))) => {
            assert_eq!(reply.stage, MigrationStage::PrepareMigrationAck);
            assert!(reply.flag_load);
            assert_eq!(reply.origin, origin());
        },
        _ => panic!("PREPARE_MIGRATION not acknowledged"),
    }
    // The state arrives in two fragments, the last one first.
    let r = t.process_packet(fragment(1, false), 10000, Buffer::from_slice(&[3, 4]));
    assert!(matches!(r, Ok((MigrationRequestStatus::Handled, None))));
    let r = t.process_packet(fragment(0, true), 10000, Buffer::from_slice(&[1, 2]));
    let whole = match r {
        Ok((MigrationRequestStatus::StateReceived(h, payload), None)) => {
            assert_eq!(h.fragment_offset, 0);
            assert!(!h.flag_next_fragment);
            assert_eq!(payload.to_vec(), vec![1, 2, 3, 4]);
            h
        },
        _ => panic!("state not reassembled"),
    };
    let ack = t.accept_state(whole);
    assert_eq!(ack.stage, MigrationStage::ConnectionStateAck);
    let r = t.process_packet(segment(MigrationStage::PrepareMigration), 10000, Buffer::empty());
    assert!(matches!(r, Ok((MigrationRequestStatus::Handled, None))));
}

#[test]
fn target_side_unexpected_stage() {
    let mut t = migration();
    match t.process_packet(segment(MigrationStage::ConnectionState), 10000, Buffer::empty()) {
        Err(e) => assert_eq!(e.message(), "expected PREPARE_MIGRATION"),
        Ok(_) => panic!("unexpected stage accepted"),
    }
    t.process_packet(segment(MigrationStage::PrepareMigration), 10000, Buffer::empty()).ok();
    match t.process_packet(segment(MigrationStage::ConnectionStateAck), 10000, Buffer::empty()) {
        Err(e) => assert_eq!(e, MigrationError::ExpectedConnectionState),
        Ok(_) => panic!("unexpected stage accepted"),
    }
}

#[test]
fn migration_between_origin_and_target() {
    let mut origin_side: ActiveMigration<()> = ActiveMigration::new(Ipv4Addr::new(10, 0, 1, 8), Ipv4Addr::new(10, 0, 1, 9), 10000, 10001, origin(), client());
    let mut target_side: ActiveMigration<()> = ActiveMigration::new(Ipv4Addr::new(10, 0, 1, 9), Ipv4Addr::new(10, 0, 1, 8), 10001, 10000, origin(), client());
    let prepare = origin_side.initiate_migration();
    let ack = match target_side.process_packet(prepare, 10000, Buffer::empty()) {
        Ok((MigrationRequestStatus::Handled, Some(ack))) => ack,
        _ => panic!("no acknowledgement"),
    };
    assert!(matches!(origin_side.process_packet(ack, 10001, Buffer::empty()), Ok((MigrationRequestStatus::Handled, None))));
    assert!(origin_side.is_prepared());
    let state_hdr = origin_side.send_connection_state();
    let state = Buffer::from_slice(b"serialized connection state");
    let (whole, payload) = match target_side.process_packet(state_hdr, 10000, state.clone()) {
        Ok((MigrationRequestStatus::StateReceived(h, p), None)) => (h, p),
        _ => panic!("state not received"),
    };
    assert_eq!(payload, state);
    let state_ack = target_side.accept_state(whole);
    assert!(matches!(origin_side.process_packet(state_ack, 10001, Buffer::empty()), Ok((MigrationRequestStatus::MigrationCompleted, None))));
}

#[test]
fn buffered_packets_come_out_in_order() {
    let mut t: ActiveMigration<Vec<u8>> = ActiveMigration::new(Ipv4Addr::new(10, 0, 1, 9), Ipv4Addr::new(10, 0, 1, 8), 10001, 10000, origin(), client());
    let ip = Ipv4Header::new(Ipv4Addr::new(10, 0, 2, 1), Ipv4Addr::new(10, 0, 1, 9), 6);
    t.buffer_packet(ip, vec![1], Buffer::from_slice(&[10]));
    t.buffer_packet(ip, vec![2], Buffer::from_slice(&[20]));
    let q = t.take_recv_queue();
    assert_eq!(q.len(), 2);
    assert_eq!(q[0].1, vec![1]);
    assert_eq!(q[1].2, Buffer::from_slice(&[20]));
    assert!(t.take_recv_queue().is_empty());
}
