use capybara::addr::{Ipv4Addr, SocketAddrV4};
use capybara::queue::QDesc;
use capybara::socket_table::{
    socket_kind, Socket, SocketError, SocketKind, SocketKindError, SocketTable, AF_INET, SOCK_DGRAM,
    SOCK_STREAM,
};

fn local_ip() -> Ipv4Addr {
    Ipv4Addr::new(10, 0, 1, 9)
}

fn addr(port: u16) -> SocketAddrV4 {
    SocketAddrV4::new(local_ip(), port)
}

fn remote() -> SocketAddrV4 {
    SocketAddrV4::new(Ipv4Addr::new(10, 0, 2, 1), 40000)
}

#[test]
fn socket_table_open_twice() {
    let mut t = SocketTable::new(local_ip());
    assert_eq!(t.do_socket(QDesc(1)), Ok(()));
    assert!(matches!(t.get(QDesc(1)), Some(Socket::Inactive { local: None })));
    assert_eq!(t.do_socket(QDesc(1)), Err(SocketError::Busy));
    assert!(t.get(QDesc(2)).is_none());
}

#[test]
fn socket_table_bind() {
    let mut t = SocketTable::new(local_ip());
    t.do_socket(QDesc(1)).unwrap();
    t.do_socket(QDesc(2)).unwrap();
    assert_eq!(t.bind(QDesc(1), addr(80)), Ok(()));
    assert!(t.is_addr_in_use(&addr(80)));
    assert_eq!(t.bind(QDesc(2), addr(80)), Err(SocketError::AddrInUse));
    assert_eq!(t.bind(QDesc(1), addr(81)), Err(SocketError::AlreadyBound));
    assert_eq!(t.bind(QDesc(3), addr(82)), Err(SocketError::BadQd));
    assert_eq!(t.bind(QDesc(2), addr(81)), Ok(()));
}

#[test]
fn socket_table_listen() {
    let mut t = SocketTable::new(local_ip());
    t.do_socket(QDesc(1)).unwrap();
    assert_eq!(t.listen(QDesc(1)), Err(SocketError::NotBound));
    t.bind(QDesc(1), addr(80)).unwrap();
    assert_eq!(t.listen(QDesc(1)), Ok(()));
    assert!(matches!(t.get(QDesc(1)), Some(Socket::Listening { local }) if local == addr(80)));
    assert_eq!(t.listen(QDesc(1)), Err(SocketError::AlreadyListening));
    assert_eq!(t.listen(QDesc(9)), Err(SocketError::BadQd));
    assert_eq!(t.connect(QDesc(1), remote(), None), Err(SocketError::BadQd));
}

#[test]
fn socket_table_connect() {
    let mut t = SocketTable::new(local_ip());
    t.do_socket(QDesc(1)).unwrap();
    t.do_socket(QDesc(2)).unwrap();
    assert!(t.needs_local_port(QDesc(1)));
    assert_eq!(t.connect(QDesc(1), remote(), None), Err(SocketError::NoEphemeralPort));
    assert_eq!(t.connect(QDesc(1), remote(), Some(50000)), Ok(addr(50000)));
    assert!(matches!(
        t.get(QDesc(1)),
        Some(Socket::Connecting { local, remote: r }) if local == addr(50000) && r == remote()
    ));
    assert_eq!(t.connect(QDesc(1), remote(), Some(50001)), Err(SocketError::Connecting));
    assert_eq!(t.listen(QDesc(1)), Err(SocketError::Connecting));
    t.bind(QDesc(2), addr(8080)).unwrap();
    assert!(!t.needs_local_port(QDesc(2)));
    assert_eq!(t.connect(QDesc(2), remote(), Some(50002)), Ok(addr(8080)));
    assert_eq!(t.bind(QDesc(2), addr(8081)), Err(SocketError::BadQd));
}

#[test]
fn socket_kind_only_ipv4_stream_and_datagram() {
    assert_eq!(AF_INET, libc::AF_INET);
    assert_eq!(SOCK_STREAM, libc::SOCK_STREAM);
    assert_eq!(SOCK_DGRAM, libc::SOCK_DGRAM);
    assert_eq!(socket_kind(libc::AF_INET, libc::SOCK_STREAM), Ok(SocketKind::Stream));
    assert_eq!(socket_kind(libc::AF_INET, libc::SOCK_DGRAM), Ok(SocketKind::Datagram));
    assert_eq!(socket_kind(libc::AF_INET, libc::SOCK_RAW), Err(SocketKindError::TypeNotSupported));
    assert_eq!(socket_kind(libc::AF_INET6, libc::SOCK_RAW), Err(SocketKindError::DomainNotSupported));
}
