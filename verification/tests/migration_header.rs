use capybara::addr::{Ipv4Addr, SocketAddrV4};
use capybara::migration_header::{TcpMigrationHeader, TcpMigrationSegment, MIGRATION_HEADER_SIZE};

fn addr(a: u8, b: u8, c: u8, d: u8, port: u16) -> SocketAddrV4 {
    SocketAddrV4::new(Ipv4Addr::new(a, b, c, d), port)
}

fn header() -> TcpMigrationHeader {
    let mut h = TcpMigrationHeader::new(addr(198, 0, 0, 1, 20000), addr(198, 0, 0, 2, 20001), addr(18, 45, 32, 67, 19465));
    h.flag_prepare_migration = true;
    h.flag_payload_state = true;
    h
}

#[test]
fn migration_header_new_has_no_flags() {
    let h = TcpMigrationHeader::new(addr(1, 2, 3, 4, 5), addr(6, 7, 8, 9, 10), addr(11, 12, 13, 14, 15));
    assert!(!h.flag_load && !h.flag_prepare_migration && !h.flag_prepare_migration_ack && !h.flag_payload_state);
    assert_eq!(h.dest, addr(6, 7, 8, 9, 10));
}

#[test]
fn migration_header_layout() {
    let bytes = header().serialize();
    assert_eq!(bytes.len(), MIGRATION_HEADER_SIZE);
    assert_eq!(&bytes[0..4], &[0xCA, 0xFE, 0xDE, 0xAD]);
    assert_eq!(&bytes[4..10], &[198, 0, 0, 1, 0x4e, 0x20]);
    assert_eq!(&bytes[10..16], &[198, 0, 0, 2, 0x4e, 0x21]);
    assert_eq!(&bytes[16..22], &[18, 45, 32, 67, 0x4c, 0x09]);
    assert_eq!(bytes[22], 0b1010);
    let sum = bytes.iter().fold(0u8, |acc, b| acc.wrapping_add(*b));
    assert_eq!(sum, 0);
}

#[test]
fn migration_header_roundtrip() {
    let h = header();
    assert_eq!(TcpMigrationHeader::deserialize(&h.serialize()), Ok(h));
}

#[test]
fn migration_header_bad_magic() {
    let mut bytes = header().serialize();
    bytes[0] = 0xCB;
    assert_eq!(TcpMigrationHeader::deserialize(&bytes), Err("Magic number (0xCAFEDEAD) not found"));
}

#[test]
fn migration_header_bad_checksum() {
    let mut bytes = header().serialize();
    bytes[5] = bytes[5].wrapping_add(1);
    assert_eq!(TcpMigrationHeader::deserialize(&bytes), Err("Invalid checksum"));
}

#[test]
fn migration_segment_roundtrip() {
    let seg = TcpMigrationSegment::new(header(), vec![1, 2, 3, 4, 5]);
    let bytes = seg.serialize();
    assert_eq!(bytes.len(), MIGRATION_HEADER_SIZE + 5);
    assert_eq!(&bytes[24..], &[1, 2, 3, 4, 5]);
    assert_eq!(TcpMigrationSegment::deserialize(&bytes), Ok(seg));
}

#[test]
fn migration_segment_bad_header() {
    let seg = TcpMigrationSegment::new(header(), vec![7]);
    let mut bytes = seg.serialize();
    bytes[23] = bytes[23].wrapping_add(1);
    assert_eq!(TcpMigrationSegment::deserialize(&bytes), Err("Invalid checksum"));
}
