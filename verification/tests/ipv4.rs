use capybara::addr::Ipv4Addr;
use capybara::buffer::Buffer;
use capybara::ipv4::{Ipv4Header, Ipv4ParseError, IPV4_CTRL_FLAG_DF, IP_PROTOCOL_TCPMIG};

/// A well-known header (192.168.0.1 -> 192.168.0.199, UDP, 115 bytes) and its checksum.
fn known_header() -> [u8; 20] {
    [
        0x45, 0x00, 0x00, 0x73, 0x00, 0x00, 0x40, 0x00, 0x40, 0x11, 0xb8, 0x61, 0xc0, 0xa8, 0x00, 0x01,
        0xc0, 0xa8, 0x00, 0xc7,
    ]
}

fn datagram(header: &[u8], payload_len: usize) -> Vec<u8> {
    let mut v = header.to_vec();
    for i in 0..payload_len {
        v.push(i as u8);
    }
    v
}

fn parse(bytes: &[u8]) -> Result<(Ipv4Header, Buffer), Ipv4ParseError> {
    Ipv4Header::parse(Buffer::from_slice(bytes))
}

/// Sets the checksum bytes of `h` to the checksum of its other bytes.
fn fix_checksum(h: &mut [u8]) {
    let c = Ipv4Header::compute_checksum(h);
    h[10] = (c >> 8) as u8;
    h[11] = c as u8;
}

#[test]
fn ipv4_checksum_of_known_header() {
    assert_eq!(Ipv4Header::compute_checksum(&known_header()), 0xb861);
}

#[test]
fn ipv4_checksum_ignores_checksum_field() {
    let mut h = known_header();
    h[10] = 0x12;
    h[11] = 0x34;
    assert_eq!(Ipv4Header::compute_checksum(&h), 0xb861);
}

#[test]
fn ipv4_parse_known_header() {
    let bytes = datagram(&known_header(), 95);
    let (hdr, payload) = parse(&bytes).unwrap();
    assert_eq!(hdr.version, 4);
    assert_eq!(hdr.ihl, 5);
    assert_eq!(hdr.total_length, 115);
    assert_eq!(hdr.flags, IPV4_CTRL_FLAG_DF);
    assert_eq!(hdr.ttl, 0x40);
    assert_eq!(hdr.protocol, 0x11);
    assert_eq!(hdr.header_checksum, 0xb861);
    assert_eq!(hdr.get_src_addr(), Ipv4Addr::new(192, 168, 0, 1));
    assert_eq!(hdr.get_dest_addr(), Ipv4Addr::new(192, 168, 0, 199));
    assert_eq!(payload.to_vec(), bytes[20..].to_vec());
}

#[test]
fn ipv4_parse_drops_padding() {
    let mut bytes = datagram(&known_header(), 95);
    bytes.extend_from_slice(&[0xee; 7]);
    let (_, payload) = parse(&bytes).unwrap();
    assert_eq!(payload.len(), 95);
    assert_eq!(payload.to_vec(), bytes[20..115].to_vec());
}

#[test]
fn ipv4_serialize_then_parse() {
    let mut hdr = Ipv4Header::new(Ipv4Addr::new(10, 0, 1, 8), Ipv4Addr::new(10, 0, 1, 9), 17);
    assert_eq!(hdr.compute_size(), 20);
    hdr.set_dest_addr(Ipv4Addr::new(10, 0, 1, 10));
    let mut bytes = [0u8; 20];
    hdr.serialize(&mut bytes, 4);
    assert_eq!(bytes[0], 0x45);
    assert_eq!(&bytes[2..4], &[0, 24]);
    assert_eq!(Ipv4Header::compute_checksum(&bytes), u16::from_be_bytes([bytes[10], bytes[11]]));
    let mut wire = bytes.to_vec();
    wire.extend_from_slice(&[9, 8, 7, 6]);
    let (parsed, payload) = parse(&wire).unwrap();
    assert_eq!(parsed.get_src_addr(), Ipv4Addr::new(10, 0, 1, 8));
    assert_eq!(parsed.get_dest_addr(), Ipv4Addr::new(10, 0, 1, 10));
    assert_eq!(parsed.get_protocol(), 17);
    assert_eq!(parsed.total_length, 24);
    assert_eq!(parsed.ttl, 255);
    assert_eq!(payload.to_vec(), vec![9, 8, 7, 6]);
}

#[test]
fn ipv4_parse_too_small() {
    assert_eq!(parse(&known_header()[..19]).err(), Some(Ipv4ParseError::DatagramTooSmall));
}

#[test]
fn ipv4_parse_wrong_version() {
    let mut h = known_header();
    h[0] = 0x65;
    assert_eq!(parse(&datagram(&h, 95)).err(), Some(Ipv4ParseError::UnsupportedVersion));
}

#[test]
fn ipv4_parse_ihl_too_small() {
    let mut h = known_header();
    h[0] = 0x44;
    assert_eq!(parse(&datagram(&h, 95)).err(), Some(Ipv4ParseError::IhlTooSmall));
}

#[test]
fn ipv4_parse_header_does_not_fit() {
    let mut h = known_header();
    h[0] = 0x4f;
    assert_eq!(parse(&datagram(&h, 20)).err(), Some(Ipv4ParseError::HeaderDoesNotFit));
}

#[test]
fn ipv4_parse_smaller_than_header() {
    let mut h = known_header();
    h[3] = 19;
    assert_eq!(parse(&datagram(&h, 95)).err(), Some(Ipv4ParseError::SmallerThanHeader));
}

#[test]
fn ipv4_parse_size_mismatch() {
    assert_eq!(parse(&datagram(&known_header(), 94)).err(), Some(Ipv4ParseError::SizeMismatch));
}

#[test]
fn ipv4_parse_evil() {
    let mut h = known_header();
    h[6] = 0x80;
    assert_eq!(parse(&datagram(&h, 95)).err(), Some(Ipv4ParseError::Evil));
}

#[test]
fn ipv4_parse_more_fragments() {
    let mut h = known_header();
    h[6] = 0x20;
    assert_eq!(parse(&datagram(&h, 95)).err(), Some(Ipv4ParseError::MoreFragments));
}

#[test]
fn ipv4_parse_fragment_offset() {
    let mut h = known_header();
    h[7] = 0x01;
    assert_eq!(parse(&datagram(&h, 95)).err(), Some(Ipv4ParseError::FragmentOffset));
}

#[test]
fn ipv4_parse_too_old() {
    let mut h = known_header();
    h[8] = 0;
    assert_eq!(parse(&datagram(&h, 95)).err(), Some(Ipv4ParseError::TooOld));
}

#[test]
fn ipv4_parse_checksum_invalid() {
    let mut h = known_header();
    h[10] = 0xff;
    h[11] = 0xff;
    assert_eq!(parse(&datagram(&h, 95)).err(), Some(Ipv4ParseError::ChecksumInvalid));
}

#[test]
fn ipv4_parse_checksum_mismatch() {
    let mut h = known_header();
    h[15] = 0x02;
    assert_eq!(parse(&datagram(&h, 95)).err(), Some(Ipv4ParseError::ChecksumMismatch));
    fix_checksum(&mut h);
    assert!(parse(&datagram(&h, 95)).is_ok());
}

#[test]
fn ipv4_parse_unsupported_protocol() {
    let mut h = known_header();
    h[9] = 0xff;
    fix_checksum(&mut h);
    assert_eq!(parse(&datagram(&h, 95)).err(), Some(Ipv4ParseError::UnsupportedProtocol));
    h[9] = 6;
    fix_checksum(&mut h);
    assert!(parse(&datagram(&h, 95)).is_ok());
    h[9] = 1;
    fix_checksum(&mut h);
    assert!(parse(&datagram(&h, 95)).is_ok());
}

#[test]
fn ipv4_serialize_then_parse_tcpmig() {
    let hdr = Ipv4Header::new(Ipv4Addr::new(10, 0, 1, 9), Ipv4Addr::new(10, 0, 1, 8), IP_PROTOCOL_TCPMIG);
    let mut bytes = [0u8; 20];
    hdr.serialize(&mut bytes, 3);
    assert_eq!(bytes[9], 0xC0);
    let mut wire = bytes.to_vec();
    wire.extend_from_slice(&[1, 2, 3, 0, 0]);
    let (parsed, payload) = parse(&wire).unwrap();
    assert_eq!(parsed.get_src_addr(), Ipv4Addr::new(10, 0, 1, 9));
    assert_eq!(parsed.get_dest_addr(), Ipv4Addr::new(10, 0, 1, 8));
    assert_eq!(parsed.get_protocol(), IP_PROTOCOL_TCPMIG);
    assert_eq!(payload.to_vec(), vec![1, 2, 3]);
}
