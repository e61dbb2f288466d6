//! IPv4 socket addresses as plain values.

use vstd::prelude::*;

verus! {

/// An IPv4 address, held as its four octets in network order.
#[derive(Debug, Clone, Copy, PartialEq, Eq)]
pub struct Ipv4Addr {
    pub octets: [u8; 4],
}

/// The 32-bit number whose big-endian bytes are the address's octets.
pub open spec fn octets_to_u32(o: [u8; 4]) -> int {
    o[0] as int * 0x100_0000 + o[1] as int * 0x1_0000 + o[2] as int * 0x100 + o[3] as int
}

impl Ipv4Addr {
    /// Builds the address `a.b.c.d`.
    pub fn new(a: u8, b: u8, c: u8, d: u8) -> (r: Ipv4Addr)
        ensures
            r.octets == [a, b, c, d],
    {
        Ipv4Addr { octets: [a, b, c, d] }
    }

    /// Builds the address whose octets are the big-endian bytes of `n`.
    pub fn from_u32(n: u32) -> (r: Ipv4Addr)
        ensures
            octets_to_u32(r.octets) == n as int,
    {
        let a: u8 = (n / 0x100_0000) as u8;
        let b: u8 = ((n / 0x1_0000) % 0x100) as u8;
        let c: u8 = ((n / 0x100) % 0x100) as u8;
        let d: u8 = (n % 0x100) as u8;
        Ipv4Addr { octets: [a, b, c, d] }
    }

    /// The four octets of the address.
    pub fn octets(&self) -> (r: [u8; 4])
        ensures
            r == self.octets,
    {
        self.octets
    }
}

/// An IPv4 socket address: an address and a port.
#[derive(Debug, Clone, Copy, PartialEq, Eq)]
pub struct SocketAddrV4 {
    pub ip: Ipv4Addr,
    pub port: u16,
}

impl SocketAddrV4 {
    /// Builds the socket address `ip:port`.
    pub fn new(ip: Ipv4Addr, port: u16) -> (r: SocketAddrV4)
        ensures
            r.ip == ip,
            r.port == port,
    {
        SocketAddrV4 { ip, port }
    }

    /// The address part.
    pub fn ip(&self) -> (r: Ipv4Addr)
        ensures
            r == self.ip,
    {
        self.ip
    }

    /// The port part.
    pub fn port(&self) -> (r: u16)
        ensures
            r == self.port,
    {
        self.port
    }
}

} // verus!
