use capybara::addr::{Ipv4Addr, SocketAddrV4};
use capybara::buffer::Buffer;
use capybara::defragmenter::TcpMigDefragmenter;
use capybara::stage::MigrationStage;
use capybara::tcpmig_header::TcpMigHeader;

fn socket_addr(a: u8, b: u8, c: u8, d: u8, port: u16) -> SocketAddrV4 {
    SocketAddrV4::new(Ipv4Addr::new(a, b, c, d), port)
}

fn tcpmig_header(fragment_offset: u16, flag_next_fragment: bool) -> TcpMigHeader {
    TcpMigHeader {
        origin: socket_addr(198, 0, 0, 1, 20000),
        remote: socket_addr(18, 45, 32, 67, 19465),
        payload_length: 8,
        fragment_offset,
        flag_load: false,
        flag_next_fragment,
        stage: MigrationStage::ConnectionState,
    }
}

fn buffer(buf: &[u8]) -> Buffer {
    Buffer::from_slice(buf)
}

fn view(r: Option<(TcpMigHeader, Buffer)>) -> Option<(TcpMigHeader, Vec<u8>)> {
    r.map(|(h, b)| (h, b.to_vec()))
}

#[test]
fn test_tcpmig_defragmentation() {
    let mut defragmenter = TcpMigDefragmenter::new();
    assert_eq!(view(defragmenter.defragment(tcpmig_header(1, true), buffer(&[4, 5, 6]))), None);

    assert_eq!(view(defragmenter.defragment(tcpmig_header(2, false), buffer(&[7, 8]))), None);

    assert_eq!(
        view(defragmenter.defragment(tcpmig_header(0, true), buffer(&[1, 2, 3]))),
        view(Some((tcpmig_header(0, false), buffer(&[1, 2, 3, 4, 5, 6, 7, 8]))))
    );
}

#[test]
fn defragmenter_single_fragment_and_reuse() {
    let mut d = TcpMigDefragmenter::new();
    let mut h = tcpmig_header(0, false);
    h.flag_load = true;
    let r = view(d.defragment(h, buffer(&[42]))).unwrap();
    assert_eq!(r.0, h);
    assert_eq!(r.1, vec![42]);
    // After a completed segment the defragmenter starts afresh.
    assert_eq!(view(d.defragment(tcpmig_header(1, false), buffer(&[2]))), None);
    let r = view(d.defragment(tcpmig_header(0, true), buffer(&[1]))).unwrap();
    assert_eq!(r.1, vec![1, 2]);
    assert_eq!(r.0, tcpmig_header(0, false));
}

#[test]
fn defragmenter_in_order_arrival() {
    let mut d = TcpMigDefragmenter::new();
    assert!(d.defragment(tcpmig_header(0, true), buffer(&[1])).is_none());
    assert!(d.defragment(tcpmig_header(1, true), buffer(&[])).is_none());
    let r = view(d.defragment(tcpmig_header(2, false), buffer(&[3, 4]))).unwrap();
    assert_eq!(r.1, vec![1, 3, 4]);
}
