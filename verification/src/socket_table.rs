//! The TCP layer's table of sockets: the state of each queue descriptor and the local
//! addresses listened on. Opening, binding, listening and connecting are decided here;
//! allocating ephemeral ports and running the connection handshakes are the caller's.

use crate::addr::{Ipv4Addr, SocketAddrV4};
use crate::queue::QDesc;
use vstd::prelude::*;

verus! {

/// The state of a TCP socket.
#[allow(inconsistent_fields)]
#[derive(Debug, Clone, Copy)]
pub enum Socket {
    /// Opened, and bound to `local` if it is there.
    Inactive { local: Option<SocketAddrV4> },
    /// Accepting connections on `local`.
    Listening { local: SocketAddrV4 },
    /// Opening a connection from `local` to `remote`.
    Connecting { local: SocketAddrV4, remote: SocketAddrV4 },
    /// Connected from `local` to `remote`.
    Established { local: SocketAddrV4, remote: SocketAddrV4 },
    /// Its connection was migrated to another server.
    MigratedOut { local: SocketAddrV4, remote: SocketAddrV4 },
}

/// Why a socket operation was refused.
#[derive(Debug, Clone, Copy, PartialEq, Eq, Structural)]
pub enum SocketError {
    /// The queue descriptor is in use already (`EBUSY`).
    Busy,
    /// The address is taken (`EADDRINUSE`).
    AddrInUse,
    /// The socket is bound already (`EINVAL`).
    AlreadyBound,
    /// No socket of the queue descriptor can take the operation (`EBADF`).
    BadQd,
    /// The socket is listening already (`EINVAL`).
    AlreadyListening,
    /// The socket is not bound to a local address (`EDESTADDRREQ`).
    NotBound,
    /// The socket is connecting (`EINVAL` for listen, `EALREADY` for connect).
    Connecting,
    /// The socket is connected (`EINVAL` for listen, `EISCONN` for connect).
    Connected,
    /// No ephemeral port was available to connect an unbound socket.
    NoEphemeralPort,
}

/// The number of the IPv4 communication domain (`AF_INET`).
pub const AF_INET: i32 = 2;

/// The number of the stream socket type (`SOCK_STREAM`).
pub const SOCK_STREAM: i32 = 1;

/// The number of the datagram socket type (`SOCK_DGRAM`).
pub const SOCK_DGRAM: i32 = 2;

/// What a new socket carries.
#[derive(Debug, Clone, Copy, PartialEq, Eq, Structural)]
pub enum SocketKind {
    /// A TCP stream.
    Stream,
    /// UDP datagrams.
    Datagram,
}

/// Why a socket cannot be created.
#[derive(Debug, Clone, Copy, PartialEq, Eq, Structural)]
pub enum SocketKindError {
    /// The communication domain is not IPv4 (`ENOTSUP`).
    DomainNotSupported,
    /// The socket type is neither stream nor datagram (`ENOTSUP`).
    TypeNotSupported,
}

/// The kind of socket that `socket(domain, typ, _)` creates: only IPv4 streams (over TCP)
/// and datagrams (over UDP) are supported, and the domain is checked first.
pub fn socket_kind(domain: i32, typ: i32) -> (r: Result<SocketKind, SocketKindError>)
    ensures
        r == (if domain != AF_INET {
            Err(SocketKindError::DomainNotSupported)
        } else if typ == SOCK_STREAM {
            Ok(SocketKind::Stream)
        } else if typ == SOCK_DGRAM {
            Ok(SocketKind::Datagram)
        } else {
            Err(SocketKindError::TypeNotSupported)
        }),
{
    if domain != AF_INET {
        Err(SocketKindError::DomainNotSupported)
    } else if typ == SOCK_STREAM {
        Ok(SocketKind::Stream)
    } else if typ == SOCK_DGRAM {
        Ok(SocketKind::Datagram)
    } else {
        Err(SocketKindError::TypeNotSupported)
    }
}

/// The local address a socket holds, when it holds one; a migrated-out socket holds none.
pub open spec fn local_of(s: Socket) -> Option<SocketAddrV4> {
    match s {
        Socket::Inactive { local } => local,
        Socket::Listening { local } => Some(local),
        Socket::Connecting { local, .. } => Some(local),
        Socket::Established { local, .. } => Some(local),
        Socket::MigratedOut { .. } => None,
    }
}

/// Whether some socket of `sockets` holds local address `addr`.
pub open spec fn addr_in_use(sockets: Map<QDesc, Socket>, addr: SocketAddrV4) -> bool {
    exists|qd: QDesc| #[trigger] sockets.contains_key(qd) && local_of(sockets[qd]) == Some(addr)
}

/// The sockets held in `v`, by queue descriptor.
spec fn view_of(v: Seq<(QDesc, Socket)>) -> Map<QDesc, Socket> {
    Map::new(
        |qd: QDesc| exists|i: int| 0 <= i < v.len() && v[i].0 == qd,
        |qd: QDesc| v[choose|i: int| 0 <= i < v.len() && v[i].0 == qd].1,
    )
}

/// No queue descriptor occurs twice in `v`.
spec fn distinct(v: Seq<(QDesc, Socket)>) -> bool {
    forall|i: int, j: int| 0 <= i < j < v.len() ==> #[trigger] v[i].0 != #[trigger] v[j].0
}

proof fn lemma_view_at(v: Seq<(QDesc, Socket)>, i: int)
    requires
        distinct(v),
        0 <= i < v.len(),
    ensures
        view_of(v).contains_key(v[i].0),
        view_of(v)[v[i].0] == v[i].1,
{
    let qd = v[i].0;
    assert(exists|k: int| 0 <= k < v.len() && v[k].0 == qd);
    let j = choose|k: int| 0 <= k < v.len() && v[k].0 == qd;
    if j < i {
        assert(v[j].0 != v[i].0);
    } else if i < j {
        assert(v[i].0 != v[j].0);
    }
}

proof fn lemma_view_set(v: Seq<(QDesc, Socket)>, i: int, s: Socket)
    requires
        distinct(v),
        0 <= i < v.len(),
    ensures
        distinct(v.update(i, (v[i].0, s))),
        view_of(v.update(i, (v[i].0, s))) == view_of(v).insert(v[i].0, s),
{
    let w = v.update(i, (v[i].0, s));
    assert(distinct(w)) by {
        assert forall|a: int, b: int| 0 <= a < b < w.len() implies #[trigger] w[a].0 != #[trigger] w[b].0 by {
            assert(v[a].0 != v[b].0);
        }
    }
    assert forall|qd: QDesc| #[trigger] view_of(w).contains_key(qd) <==> view_of(v).insert(v[i].0, s).contains_key(qd) by {
        if view_of(v).contains_key(qd) {
            let k = choose|k: int| 0 <= k < v.len() && v[k].0 == qd;
            assert(w[k].0 == qd);
        }
        if view_of(w).contains_key(qd) {
            let k = choose|k: int| 0 <= k < w.len() && w[k].0 == qd;
            assert(v[k].0 == qd);
        }
    }
    assert forall|qd: QDesc| #[trigger] view_of(w).contains_key(qd) implies view_of(w)[qd] == view_of(v).insert(v[i].0, s)[qd] by {
        let k = choose|k: int| 0 <= k < w.len() && w[k].0 == qd;
        lemma_view_at(w, k);
        if k != i {
            lemma_view_at(v, k);
        }
    }
    assert(view_of(w) =~= view_of(v).insert(v[i].0, s));
}

proof fn lemma_view_push(v: Seq<(QDesc, Socket)>, qd: QDesc, s: Socket)
    requires
        distinct(v),
        !view_of(v).contains_key(qd),
    ensures
        distinct(v.push((qd, s))),
        view_of(v.push((qd, s))) == view_of(v).insert(qd, s),
{
    let w = v.push((qd, s));
    assert(distinct(w)) by {
        assert forall|a: int, b: int| 0 <= a < b < w.len() implies #[trigger] w[a].0 != #[trigger] w[b].0 by {
            if b == v.len() {
                assert(v[a].0 == w[a].0);
            } else {
                assert(v[a].0 != v[b].0);
            }
        }
    }
    assert forall|q: QDesc| #[trigger] view_of(w).contains_key(q) <==> view_of(v).insert(qd, s).contains_key(q) by {
        if view_of(v).contains_key(q) {
            let k = choose|k: int| 0 <= k < v.len() && v[k].0 == q;
            assert(w[k].0 == q);
        }
        if q == qd {
            assert(w[v.len() as int].0 == q);
        }
        if view_of(w).contains_key(q) && q != qd {
            let k = choose|k: int| 0 <= k < w.len() && w[k].0 == q;
            assert(v[k].0 == q);
        }
    }
    assert forall|q: QDesc| #[trigger] view_of(w).contains_key(q) implies view_of(w)[q] == view_of(v).insert(qd, s)[q] by {
        let k = choose|k: int| 0 <= k < w.len() && w[k].0 == q;
        lemma_view_at(w, k);
        if k < v.len() {
            lemma_view_at(v, k);
        }
    }
    assert(view_of(w) =~= view_of(v).insert(qd, s));
}

/// Whether `a` and `b` are the same socket address.
fn same_addr(a: &SocketAddrV4, b: &SocketAddrV4) -> (r: bool)
    ensures
        r == (*a == *b),
{
    let x = a.ip.octets;
    let y = b.ip.octets;
    let r = x[0] == y[0] && x[1] == y[1] && x[2] == y[2] && x[3] == y[3] && a.port == b.port;
    if r {
        assert(x =~= y);
    }
    r
}

/// The local address socket `s` holds, when it holds one.
fn local_address(s: &Socket) -> (r: Option<SocketAddrV4>)
    ensures
        r == local_of(*s),
{
    match s {
        Socket::Inactive { local } => *local,
        Socket::Listening { local } => Some(*local),
        Socket::Connecting { local, .. } => Some(*local),
        Socket::Established { local, .. } => Some(*local),
        Socket::MigratedOut { .. } => None,
    }
}

/// The sockets of the TCP layer.
pub struct SocketTable {
    local_ipv4_addr: Ipv4Addr,
    sockets: Vec<(QDesc, Socket)>,
    /// The local addresses listened on.
    passive: Vec<SocketAddrV4>,
}

impl SocketTable {
    /// The sockets, by queue descriptor.
    pub closed spec fn sockets(&self) -> Map<QDesc, Socket> {
        view_of(self.sockets@)
    }

    /// The local addresses listened on.
    pub closed spec fn listening(&self) -> Set<SocketAddrV4> {
        self.passive@.to_set()
    }

    /// The local IPv4 address.
    pub closed spec fn local_addr(&self) -> Ipv4Addr {
        self.local_ipv4_addr
    }

    /// No queue descriptor has two sockets.
    pub closed spec fn wf(&self) -> bool {
        distinct(self.sockets@)
    }

    /// No sockets, for the host at `local_ipv4_addr`.
    pub fn new(local_ipv4_addr: Ipv4Addr) -> (t: SocketTable)
        ensures
            t.wf(),
            t.sockets() == Map::<QDesc, Socket>::empty(),
            t.listening() == Set::<SocketAddrV4>::empty(),
            t.local_addr() == local_ipv4_addr,
    {
        let t = SocketTable { local_ipv4_addr, sockets: Vec::new(), passive: Vec::new() };
        assert(t.sockets() =~= Map::<QDesc, Socket>::empty());
        assert(t.listening() =~= Set::<SocketAddrV4>::empty());
        t
    }

    /// The index of the socket of `qd`, if there is one.
    fn find(&self, qd: QDesc) -> (r: Option<usize>)
        requires
            self.wf(),
        ensures
            match r {
                Some(i) => i < self.sockets@.len() && self.sockets@[i as int].0 == qd
                    && self.sockets().contains_key(qd) && self.sockets()[qd] == self.sockets@[i as int].1,
                None => !self.sockets().contains_key(qd),
            },
    {
        let mut i: usize = 0;
        while i < self.sockets.len()
            invariant
                self.wf(),
                i <= self.sockets@.len(),
                forall|j: int| 0 <= j < i ==> self.sockets@[j].0 != qd,
            decreases self.sockets@.len() - i,
        {
            if self.sockets[i].0 == qd {
                proof {
                    lemma_view_at(self.sockets@, i as int);
                }
                return Some(i);
            }
            i = i + 1;
        }
        None
    }

    /// The socket of `qd`, if there is one.
    pub fn get(&self, qd: QDesc) -> (r: Option<Socket>)
        requires
            self.wf(),
        ensures
            r == (if self.sockets().contains_key(qd) {
                Some(self.sockets()[qd])
            } else {
                None
            }),
    {
        match self.find(qd) {
            Some(i) => Some(self.sockets[i].1),
            None => None,
        }
    }

    /// Whether some socket holds local address `addr`.
    pub fn is_addr_in_use(&self, addr: &SocketAddrV4) -> (b: bool)
        requires
            self.wf(),
        ensures
            b == addr_in_use(self.sockets(), *addr),
    {
        let mut i: usize = 0;
        while i < self.sockets.len()
            invariant
                self.wf(),
                i <= self.sockets@.len(),
                forall|j: int| 0 <= j < i ==> local_of(#[trigger] self.sockets@[j].1) != Some(*addr),
            decreases self.sockets@.len() - i,
        {
            match local_address(&self.sockets[i].1) {
                Some(l) => {
                    if same_addr(&l, addr) {
                        proof {
                            lemma_view_at(self.sockets@, i as int);
                            assert(self.sockets().contains_key(self.sockets@[i as int].0));
                        }
                        return true;
                    }
                },
                None => {},
            }
            i = i + 1;
        }
        proof {
            assert forall|qd: QDesc| #[trigger] self.sockets().contains_key(qd) implies local_of(self.sockets()[qd]) != Some(*addr) by {
                let k = choose|k: int| 0 <= k < self.sockets@.len() && self.sockets@[k].0 == qd;
                lemma_view_at(self.sockets@, k);
            }
        }
        false
    }

    /// Opens a socket for `qd`: an error when `qd` has one already.
    pub fn do_socket(&mut self, qd: QDesc) -> (r: Result<(), SocketError>)
        requires
            old(self).wf(),
        ensures
            final(self).wf(),
            final(self).listening() == old(self).listening(),
            final(self).local_addr() == old(self).local_addr(),
            old(self).sockets().contains_key(qd) ==> r == Err::<(), SocketError>(SocketError::Busy)
                && final(self).sockets() == old(self).sockets(),
            !old(self).sockets().contains_key(qd) ==> r is Ok && final(self).sockets() == old(
                self,
            ).sockets().insert(qd, Socket::Inactive { local: None }),
    {
        match self.find(qd) {
            Some(_) => Err(SocketError::Busy),
            None => {
                proof {
                    lemma_view_push(self.sockets@, qd, Socket::Inactive { local: None });
                }
                self.sockets.push((qd, Socket::Inactive { local: None }));
                Ok(())
            },
        }
    }

    /// Sets the socket at index `i` to `s`.
    fn set(&mut self, i: usize, s: Socket)
        requires
            old(self).wf(),
            i < old(self).sockets@.len(),
        ensures
            final(self).wf(),
            final(self).sockets() == old(self).sockets().insert(old(self).sockets@[i as int].0, s),
            final(self).listening() == old(self).listening(),
            final(self).local_addr() == old(self).local_addr(),
    {
        proof {
            lemma_view_set(self.sockets@, i as int, s);
        }
        let qd = self.sockets[i].0;
        self.sockets.set(i, (qd, s));
    }

    /// Binds the socket of `qd` to local address `addr` (a wildcard port already replaced by
    /// an ephemeral one). Refused when a socket holds `addr` already, when the socket is
    /// bound already, and when `qd` has no socket that is neither listening, connecting,
    /// connected nor migrated out.
    pub fn bind(&mut self, qd: QDesc, addr: SocketAddrV4) -> (r: Result<(), SocketError>)
        requires
            old(self).wf(),
        ensures
            final(self).wf(),
            final(self).listening() == old(self).listening(),
            final(self).local_addr() == old(self).local_addr(),
            ({
                let m = old(self).sockets();
                if addr_in_use(m, addr) {
                    r == Err::<(), SocketError>(SocketError::AddrInUse) && final(self).sockets() == m
                } else if m.contains_key(qd) && m[qd] == (Socket::Inactive { local: None }) {
                    r is Ok && final(self).sockets() == m.insert(qd, Socket::Inactive { local: Some(addr) })
                } else if m.contains_key(qd) && m[qd] is Inactive {
                    r == Err::<(), SocketError>(SocketError::AlreadyBound) && final(self).sockets() == m
                } else {
                    r == Err::<(), SocketError>(SocketError::BadQd) && final(self).sockets() == m
                }
            }),
    {
        if self.is_addr_in_use(&addr) {
            return Err(SocketError::AddrInUse);
        }
        match self.find(qd) {
            Some(i) => match self.sockets[i].1 {
                Socket::Inactive { local: None } => {
                    self.set(i, Socket::Inactive { local: Some(addr) });
                    Ok(())
                },
                Socket::Inactive { local: Some(_) } => Err(SocketError::AlreadyBound),
                _ => Err(SocketError::BadQd),
            },
            None => Err(SocketError::BadQd),
        }
    }

    /// Whether `addr` is listened on.
    fn is_listened_on(&self, addr: &SocketAddrV4) -> (b: bool)
        ensures
            b == self.listening().contains(*addr),
    {
        let mut i: usize = 0;
        while i < self.passive.len()
            invariant
                i <= self.passive@.len(),
                forall|j: int| 0 <= j < i ==> self.passive@[j] != *addr,
            decreases self.passive@.len() - i,
        {
            if same_addr(&self.passive[i], addr) {
                assert(self.passive@.contains(*addr));
                return true;
            }
            i = i + 1;
        }
        false
    }

    /// Makes the socket of `qd`, bound to a local address, listen on it. Refused when the
    /// socket listens, connects or is connected already, when it is not bound, when `qd`
    /// has no such socket, and when another socket listens on the same address.
    pub fn listen(&mut self, qd: QDesc) -> (r: Result<(), SocketError>)
        requires
            old(self).wf(),
        ensures
            final(self).wf(),
            final(self).local_addr() == old(self).local_addr(),
            ({
                let m = old(self).sockets();
                let unchanged = final(self).sockets() == m && final(self).listening() == old(self).listening();
                if !m.contains_key(qd) {
                    r == Err::<(), SocketError>(SocketError::BadQd) && unchanged
                } else {
                    match m[qd] {
                        Socket::Inactive { local: Some(local) } => if old(self).listening().contains(local) {
                            r == Err::<(), SocketError>(SocketError::AddrInUse) && unchanged
                        } else {
                            &&& r is Ok
                            &&& final(self).sockets() == m.insert(qd, Socket::Listening { local })
                            &&& final(self).listening() == old(self).listening().insert(local)
                        },
                        Socket::Inactive { local: None } => r == Err::<(), SocketError>(SocketError::NotBound)
                            && unchanged,
                        Socket::Listening { .. } => r == Err::<(), SocketError>(SocketError::AlreadyListening)
                            && unchanged,
                        Socket::Connecting { .. } => r == Err::<(), SocketError>(SocketError::Connecting)
                            && unchanged,
                        Socket::Established { .. } => r == Err::<(), SocketError>(SocketError::Connected)
                            && unchanged,
                        Socket::MigratedOut { .. } => r == Err::<(), SocketError>(SocketError::BadQd)
                            && unchanged,
                    }
                }
            }),
    {
        let i = match self.find(qd) {
            Some(i) => i,
            None => {
                return Err(SocketError::BadQd);
            },
        };
        let local = match self.sockets[i].1 {
            Socket::Inactive { local: Some(local) } => local,
            Socket::Inactive { local: None } => {
                return Err(SocketError::NotBound);
            },
            Socket::Listening { .. } => {
                return Err(SocketError::AlreadyListening);
            },
            Socket::Connecting { .. } => {
                return Err(SocketError::Connecting);
            },
            Socket::Established { .. } => {
                return Err(SocketError::Connected);
            },
            Socket::MigratedOut { .. } => {
                return Err(SocketError::BadQd);
            },
        };
        if self.is_listened_on(&local) {
            return Err(SocketError::AddrInUse);
        }
        let ghost before = self.passive@;
        self.passive.push(local);
        proof {
            assert forall|a: SocketAddrV4| #[trigger] self.passive@.contains(a) <==> before.to_set().insert(local).contains(a) by {
                if before.contains(a) {
                    let k = choose|k: int| 0 <= k < before.len() && before[k] == a;
                    assert(self.passive@[k] == a);
                }
                if a == local {
                    assert(self.passive@[before.len() as int] == a);
                }
                if self.passive@.contains(a) && a != local {
                    let k = choose|k: int| 0 <= k < self.passive@.len() && self.passive@[k] == a;
                    assert(before[k] == a);
                }
            }
            assert(self.passive@.to_set() =~= before.to_set().insert(local));
        }
        self.set(i, Socket::Listening { local });
        Ok(())
    }

    /// Whether connecting the socket of `qd` takes an ephemeral port: it is not bound.
    pub fn needs_local_port(&self, qd: QDesc) -> (b: bool)
        requires
            self.wf(),
        ensures
            b == (self.sockets().contains_key(qd) && self.sockets()[qd] == (Socket::Inactive { local: None })),
    {
        match self.find(qd) {
            Some(i) => match self.sockets[i].1 {
                Socket::Inactive { local: None } => true,
                _ => false,
            },
            None => false,
        }
    }

    /// Starts connecting the socket of `qd` to `remote`, from its local address, or, when
    /// it is not bound, from the local IPv4 address and `ephemeral_port` (`None` when the
    /// allocator had none left). Returns the local address. Refused when the socket
    /// connects or is connected already, and when `qd` has no inactive socket.
    pub fn connect(&mut self, qd: QDesc, remote: SocketAddrV4, ephemeral_port: Option<u16>) -> (r: Result<
        SocketAddrV4,
        SocketError,
    >)
        requires
            old(self).wf(),
        ensures
            final(self).wf(),
            final(self).listening() == old(self).listening(),
            final(self).local_addr() == old(self).local_addr(),
            ({
                let m = old(self).sockets();
                let refused = |e: SocketError| r == Err::<SocketAddrV4, SocketError>(e) && final(self).sockets() == m;
                let connecting = |local: SocketAddrV4|
                    r == Ok::<SocketAddrV4, SocketError>(local) && final(self).sockets() == m.insert(
                        qd,
                        Socket::Connecting { local, remote },
                    );
                if !m.contains_key(qd) {
                    refused(SocketError::BadQd)
                } else {
                    match m[qd] {
                        Socket::Inactive { local: Some(local) } => connecting(local),
                        Socket::Inactive { local: None } => match ephemeral_port {
                            Some(p) => connecting(SocketAddrV4 { ip: old(self).local_addr(), port: p }),
                            None => refused(SocketError::NoEphemeralPort),
                        },
                        Socket::Connecting { .. } => refused(SocketError::Connecting),
                        Socket::Established { .. } => refused(SocketError::Connected),
                        _ => refused(SocketError::BadQd),
                    }
                }
            }),
    {
        let i = match self.find(qd) {
            Some(i) => i,
            None => {
                return Err(SocketError::BadQd);
            },
        };
        let local = match self.sockets[i].1 {
            Socket::Inactive { local: Some(local) } => local,
            Socket::Inactive { local: None } => match ephemeral_port {
                Some(p) => SocketAddrV4 { ip: self.local_ipv4_addr, port: p },
                None => {
                    return Err(SocketError::NoEphemeralPort);
                },
            },
            Socket::Connecting { .. } => {
                return Err(SocketError::Connecting);
            },
            Socket::Established { .. } => {
                return Err(SocketError::Connected);
            },
            _ => {
                return Err(SocketError::BadQd);
            },
        };
        self.set(i, Socket::Connecting { local, remote });
        Ok(local)
    }
}

} // verus!
