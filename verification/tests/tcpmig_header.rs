use capybara::addr::{Ipv4Addr, SocketAddrV4};
use capybara::ipv4::Ipv4Header;
use capybara::stage::MigrationStage;
use capybara::tcpmig_header::{TcpMigHeader, TcpMigParseError, TCPMIG_HEADER_SIZE};

fn socket_addr(a: u8, b: u8, c: u8, d: u8, port: u16) -> SocketAddrV4 {
    SocketAddrV4::new(Ipv4Addr::new(a, b, c, d), port)
}

/// Protocol number used for the fake IPv4 header; the TCPMig checksum does not read it.
const TCPMIG_PROTOCOL: u8 = 0xC0;

/// Builds a fake Ipv4 Header.
fn ipv4_header() -> Ipv4Header {
    let src_addr = Ipv4Addr::new(198, 0, 0, 1);
    let dst_addr = Ipv4Addr::new(198, 0, 0, 2);
    Ipv4Header::new(src_addr, dst_addr, TCPMIG_PROTOCOL)
}

fn tcpmig_header() -> TcpMigHeader {
    TcpMigHeader {
        origin: socket_addr(198, 0, 0, 1, 20000),
        remote: socket_addr(18, 45, 32, 67, 19465),
        payload_length: 8,
        fragment_offset: 2,
        flag_load: false,
        flag_next_fragment: true,
        stage: MigrationStage::PrepareMigration,
    }
}

const CHECKSUM: u16 = 48981;
const HDR_BYTES: [u8; TCPMIG_HEADER_SIZE] = [
    198, 0, 0, 1, 0x4e, 0x20, // origin
    18, 45, 32, 67, 0x4c, 0x09, // remote
    0, 8, // payload length
    0, 2, // fragment offset
    0b0010_0010, // stage + flags
    0,
    ((CHECKSUM & 0xFF00) >> 8) as u8, (CHECKSUM & 0xFF) as u8,
];

#[test]
fn test_tcpmig_header_checksum() {
    let ipv4_hdr: Ipv4Header = ipv4_header();
    let hdr: &[u8] = &HDR_BYTES;
    let data: [u8; 8] = [0x0, 0x1, 0x0, 0x1, 0x0, 0x1, 0x0, 0x1];
    let checksum = TcpMigHeader::checksum(&ipv4_hdr, hdr, &data);
    assert_eq!(checksum, 48981);
}

#[test]
fn test_tcpmig_header_serialization() {
    let ipv4_hdr: Ipv4Header = ipv4_header();
    let hdr = tcpmig_header();
    let data: [u8; 8] = [0x0, 0x1, 0x0, 0x1, 0x0, 0x1, 0x0, 0x1];
    let mut buf: [u8; TCPMIG_HEADER_SIZE] = [0; TCPMIG_HEADER_SIZE];
    hdr.serialize(&mut buf, &ipv4_hdr, &data);
    assert_eq!(buf, HDR_BYTES);
}

#[test]
fn test_tcpmig_header_parsing() {
    let ipv4_hdr: Ipv4Header = ipv4_header();
    let origin = socket_addr(198, 0, 0, 1, 20000);
    let remote = socket_addr(18, 45, 32, 67, 19465);
    let hdr = HDR_BYTES;
    let data: [u8; 8] = [0x0, 0x1, 0x0, 0x1, 0x0, 0x1, 0x0, 0x1];
    let mut buf: Vec<u8> = Vec::new();
    buf.extend_from_slice(&hdr);
    buf.extend_from_slice(&data);

    match TcpMigHeader::parse_from_slice(&ipv4_hdr, &buf) {
        Ok((hdr, buf)) => {
            assert_eq!(hdr.origin, origin);
            assert_eq!(hdr.remote, remote);
            assert_eq!(hdr.payload_length, 8);
            assert_eq!(hdr.fragment_offset, 2);
            assert_eq!(hdr.flag_load, false);
            assert_eq!(hdr.flag_next_fragment, true);
            assert_eq!(hdr.stage, MigrationStage::PrepareMigration);
            assert_eq!(buf.len(), 8);
        },
        Err(e) => {
            assert!(false, "{:?}", e);
        },
    }
}

#[test]
fn tcpmig_header_roundtrip_odd_payload() {
    // Law: parsing a serialized header gives the header and the payload back.
    let ipv4_hdr = ipv4_header();
    let mut hdr = tcpmig_header();
    hdr.flag_load = true;
    hdr.stage = MigrationStage::ConnectionStateAck;
    let data: [u8; 5] = [9, 8, 7, 6, 5];
    let mut buf = vec![0u8; TCPMIG_HEADER_SIZE];
    hdr.serialize(&mut buf, &ipv4_hdr, &data);
    buf.extend_from_slice(&data);
    let (parsed, rest) = TcpMigHeader::parse_from_slice(&ipv4_hdr, &buf).unwrap();
    assert_eq!(parsed, hdr);
    assert_eq!(rest, &data);
}

#[test]
fn tcpmig_header_errors() {
    let ipv4_hdr = ipv4_header();
    assert_eq!(
        TcpMigHeader::parse_from_slice(&ipv4_hdr, &HDR_BYTES[..19]).unwrap_err(),
        TcpMigParseError::SegmentTooSmall
    );
    let mut bad_stage = HDR_BYTES;
    bad_stage[16] = 0x72;
    assert_eq!(
        TcpMigHeader::parse_from_slice(&ipv4_hdr, &bad_stage).unwrap_err(),
        TcpMigParseError::InvalidStage(7)
    );
    // The header bytes carry the checksum of an 8-byte payload, not of an empty one.
    assert_eq!(
        TcpMigHeader::parse_from_slice(&ipv4_hdr, &HDR_BYTES).unwrap_err(),
        TcpMigParseError::ChecksumMismatch
    );
}

#[test]
fn tcpmig_header_new_and_size() {
    let hdr = TcpMigHeader::new(socket_addr(1, 2, 3, 4, 5), socket_addr(6, 7, 8, 9, 10), 3, MigrationStage::ConnectionState);
    assert_eq!(hdr.fragment_offset, 0);
    assert!(!hdr.flag_load && !hdr.flag_next_fragment);
    assert_eq!(hdr.size(), 20);
}

#[test]
fn tcpmig_parse_buffer_copies_payload() {
    let ipv4_hdr = ipv4_header();
    let mut buf = HDR_BYTES.to_vec();
    buf.extend_from_slice(&[0x0, 0x1, 0x0, 0x1, 0x0, 0x1, 0x0, 0x1]);
    let (hdr, payload) = TcpMigHeader::parse(&ipv4_hdr, capybara::buffer::Buffer::from_slice(&buf)).unwrap();
    assert_eq!(hdr, tcpmig_header());
    assert_eq!(payload.to_vec(), vec![0x0, 0x1, 0x0, 0x1, 0x0, 0x1, 0x0, 0x1]);
}
