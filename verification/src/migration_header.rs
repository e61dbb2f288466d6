//! The header and segment of the TCP migration control protocol.
//!
//! ```text
//!  Offset  Size    Data
//!  0       4       Signature (0xCAFEDEAD)
//!  4       4       Origin IP
//!  8       2       Origin Port
//!  10      4       Dest IP
//!  14      2       Dest Port
//!  16      4       Remote IP
//!  20      2       Remote Port
//!  22      1       Flags
//!  23      1       Byte Checksum
//! ```
//!
//! Flags, in decreasing priority: bit 0 LOAD (the switch loads the entry into its
//! migration tables), bit 1 PREPARE_MIGRATION (the destination prepares to receive a
//! migrated connection), bit 2 PREPARE_MIGRATION_ACK (the origin's request was
//! acknowledged), bit 3 PAYLOAD_STATE (the payload holds the TCP state).
//! The checksum byte makes the 24 header bytes sum to zero modulo 256.

use crate::addr::{Ipv4Addr, SocketAddrV4};
use crate::byte_order::{be16, be32, put_be16, put_be32, read_u16_at, read_u32_at, write_u16_at, write_u32_at};
use vstd::prelude::*;

verus! {

/// TcpMigrationHeader size in bytes.
pub const MIGRATION_HEADER_SIZE: usize = 24;

/// The signature that starts every header.
pub const MIGRATION_MAGIC: u32 = 0xCAFEDEAD;

pub const FLAG_LOAD: u8 = 0;

pub const FLAG_PREPARE_MIGRATION: u8 = 1;

pub const FLAG_PREPARE_MIGRATION_ACK: u8 = 2;

pub const FLAG_PAYLOAD_STATE: u8 = 3;

/// Header of a TCP migration control segment.
#[derive(Debug, Clone, Copy, PartialEq, Eq)]
pub struct TcpMigrationHeader {
    pub origin: SocketAddrV4,
    pub dest: SocketAddrV4,
    pub remote: SocketAddrV4,
    pub flag_load: bool,
    pub flag_prepare_migration: bool,
    pub flag_prepare_migration_ack: bool,
    pub flag_payload_state: bool,
}

/// A TCP migration control segment: a header and its payload.
#[derive(Debug, Clone, PartialEq, Eq)]
pub struct TcpMigrationSegment {
    pub header: TcpMigrationHeader,
    pub payload: Vec<u8>,
}

/// Sum of the first `n` bytes of `s`, modulo 256.
pub open spec fn byte_sum(s: Seq<u8>, n: int) -> int
    decreases n,
{
    if n <= 0 {
        0
    } else {
        (byte_sum(s, n - 1) + s[n - 1]) % 0x100
    }
}

/// The bit for flag number `bit`, set when `b` holds.
pub open spec fn flag_bit(b: bool, bit: u8) -> u8 {
    (if b { 1u8 } else { 0u8 }) << bit
}

/// The flags byte of a header.
pub open spec fn migration_flags(h: TcpMigrationHeader) -> u8 {
    flag_bit(h.flag_load, FLAG_LOAD) | flag_bit(h.flag_prepare_migration, FLAG_PREPARE_MIGRATION)
        | flag_bit(h.flag_prepare_migration_ack, FLAG_PREPARE_MIGRATION_ACK) | flag_bit(
        h.flag_payload_state,
        FLAG_PAYLOAD_STATE,
    )
}

/// `s` with the octets of `a` written at `off`.
pub open spec fn put_addr(s: Seq<u8>, off: int, a: SocketAddrV4) -> Seq<u8> {
    put_be16(
        s.update(off, a.ip.octets[0]).update(off + 1, a.ip.octets[1]).update(
            off + 2,
            a.ip.octets[2],
        ).update(off + 3, a.ip.octets[3]),
        off + 4,
        a.port,
    )
}

/// The 24 header bytes before the checksum byte is filled in (it is zero).
pub open spec fn migration_bytes_unchecked(h: TcpMigrationHeader) -> Seq<u8> {
    let z = Seq::new(24, |i: int| 0u8);
    put_addr(put_addr(put_addr(put_be32(z, 0, MIGRATION_MAGIC), 4, h.origin), 10, h.dest), 16, h.remote)
        .update(22, migration_flags(h))
}

/// The 24 bytes that `serialize` produces for `h`.
pub open spec fn serialize_migration_spec(h: TcpMigrationHeader) -> Seq<u8> {
    let pre = migration_bytes_unchecked(h);
    pre.update(23, ((0x100 - byte_sum(pre, 24)) % 0x100) as u8)
}

/// The socket address stored at `s[off..off + 6]`.
pub open spec fn addr_at(s: Seq<u8>, off: int) -> SocketAddrV4 {
    SocketAddrV4 {
        ip: Ipv4Addr { octets: [s[off], s[off + 1], s[off + 2], s[off + 3]] },
        port: be16(s, off + 4) as u16,
    }
}

/// The header that `s` (at least 24 bytes) begins with, or why there is none.
pub open spec fn deserialize_migration_spec(s: Seq<u8>) -> Result<TcpMigrationHeader, &'static str> {
    if be32(s, 0) != MIGRATION_MAGIC {
        Err("Magic number (0xCAFEDEAD) not found")
    } else if byte_sum(s, 24) != 0 {
        Err("Invalid checksum")
    } else {
        let flags = s[22];
        Ok(
            TcpMigrationHeader {
                origin: addr_at(s, 4),
                dest: addr_at(s, 10),
                remote: addr_at(s, 16),
                flag_load: flags & (1u8 << FLAG_LOAD) != 0,
                flag_prepare_migration: flags & (1u8 << FLAG_PREPARE_MIGRATION) != 0,
                flag_prepare_migration_ack: flags & (1u8 << FLAG_PREPARE_MIGRATION_ACK) != 0,
                flag_payload_state: flags & (1u8 << FLAG_PAYLOAD_STATE) != 0,
            },
        )
    }
}

/// The segment that `s` holds, or why there is none.
pub open spec fn deserialize_segment_spec(s: Seq<u8>) -> Result<(TcpMigrationHeader, Seq<u8>), &'static str> {
    match deserialize_migration_spec(s) {
        Ok(h) => Ok((h, s.subrange(24, s.len() as int))),
        Err(e) => Err(e),
    }
}

/// The segment result with the payload vector replaced by its bytes.
pub open spec fn segment_result_view(r: Result<TcpMigrationSegment, &'static str>) -> Result<
    (TcpMigrationHeader, Seq<u8>),
    &'static str,
> {
    match r {
        Ok(seg) => Ok((seg.header, seg.payload@)),
        Err(e) => Err(e),
    }
}

proof fn lemma_byte_sum_range(s: Seq<u8>, n: int)
    ensures
        0 <= byte_sum(s, n) < 0x100,
    decreases n,
{
    if n > 0 {
        lemma_byte_sum_range(s, n - 1);
    }
}

proof fn lemma_byte_sum_depends(s: Seq<u8>, t: Seq<u8>, n: int)
    requires
        n <= s.len(),
        n <= t.len(),
        forall|i: int| 0 <= i < n ==> s[i] == t[i],
    ensures
        byte_sum(s, n) == byte_sum(t, n),
    decreases n,
{
    if n > 0 {
        lemma_byte_sum_depends(s, t, n - 1);
    }
}

/// The flags byte gives back each flag it was made of.
proof fn lemma_migration_flags(h: TcpMigrationHeader)
    ensures
        (migration_flags(h) & (1u8 << FLAG_LOAD) != 0) == h.flag_load,
        (migration_flags(h) & (1u8 << FLAG_PREPARE_MIGRATION) != 0) == h.flag_prepare_migration,
        (migration_flags(h) & (1u8 << FLAG_PREPARE_MIGRATION_ACK) != 0) == h.flag_prepare_migration_ack,
        (migration_flags(h) & (1u8 << FLAG_PAYLOAD_STATE) != 0) == h.flag_payload_state,
{
    let a: u8 = if h.flag_load { 1u8 } else { 0u8 };
    let b: u8 = if h.flag_prepare_migration { 1u8 } else { 0u8 };
    let c: u8 = if h.flag_prepare_migration_ack { 1u8 } else { 0u8 };
    let d: u8 = if h.flag_payload_state { 1u8 } else { 0u8 };
    assert({
        let f = (a << 0u8) | (b << 1u8) | (c << 2u8) | (d << 3u8);
        &&& (f & (1u8 << 0u8) != 0) == (a == 1u8)
        &&& (f & (1u8 << 1u8) != 0) == (b == 1u8)
        &&& (f & (1u8 << 2u8) != 0) == (c == 1u8)
        &&& (f & (1u8 << 3u8) != 0) == (d == 1u8)
    }) by (bit_vector)
        requires
            a <= 1u8,
            b <= 1u8,
            c <= 1u8,
            d <= 1u8,
    ;
}

/// What deserializing gives back of a serialized header: the same header.
pub proof fn lemma_migration_header_roundtrip(h: TcpMigrationHeader)
    ensures
        deserialize_migration_spec(serialize_migration_spec(h)) == Ok::<TcpMigrationHeader, &'static str>(h),
{
    let pre = migration_bytes_unchecked(h);
    let s = serialize_migration_spec(h);
    assert(forall|i: int| 0 <= i < 23 ==> s[i] == pre[i]);
    lemma_byte_sum_depends(s, pre, 23);
    lemma_byte_sum_range(pre, 23);
    assert(byte_sum(pre, 24) == (byte_sum(pre, 23) + 0) % 0x100);
    assert(byte_sum(s, 24) == (byte_sum(s, 23) + s[23]) % 0x100);
    lemma_migration_flags(h);
    assert([s[4], s[5], s[6], s[7]] =~= h.origin.ip.octets);
    assert([s[10], s[11], s[12], s[13]] =~= h.dest.ip.octets);
    assert([s[16], s[17], s[18], s[19]] =~= h.remote.ip.octets);
}

/// What deserializing gives back of a serialized segment: the same header and payload.
pub proof fn lemma_migration_segment_roundtrip(h: TcpMigrationHeader, payload: Seq<u8>)
    ensures
        deserialize_segment_spec(serialize_migration_spec(h) + payload) == Ok::<
            (TcpMigrationHeader, Seq<u8>),
            &'static str,
        >((h, payload)),
{
    let s = serialize_migration_spec(h) + payload;
    lemma_migration_header_roundtrip(h);
    let t = serialize_migration_spec(h);
    assert(forall|i: int| 0 <= i < 24 ==> s[i] == t[i]);
    lemma_byte_sum_depends(s, t, 24);
    assert(s.subrange(24, s.len() as int) =~= payload);
    assert(deserialize_migration_spec(s) == deserialize_migration_spec(t));
}

/// Writes address `a` at `off` in `bytes`.
fn write_addr(bytes: &mut [u8], off: usize, a: SocketAddrV4)
    requires
        off + 6 <= old(bytes)@.len(),
    ensures
        final(bytes)@ == put_addr(old(bytes)@, off as int, a),
{
    let o = a.ip().octets();
    bytes[off] = o[0];
    bytes[off + 1] = o[1];
    bytes[off + 2] = o[2];
    bytes[off + 3] = o[3];
    write_u16_at(bytes, off + 4, a.port());
}

/// Reads the address at `off` in `bytes`.
fn read_addr(bytes: &[u8], off: usize) -> (a: SocketAddrV4)
    requires
        off + 6 <= bytes@.len(),
    ensures
        a == addr_at(bytes@, off as int),
{
    SocketAddrV4::new(
        Ipv4Addr::new(bytes[off], bytes[off + 1], bytes[off + 2], bytes[off + 3]),
        read_u16_at(bytes, off + 4),
    )
}

/// The sum of the first `n` bytes, modulo 256.
fn sum_bytes(bytes: &[u8], n: usize) -> (r: u8)
    requires
        n <= bytes@.len(),
    ensures
        r as int == byte_sum(bytes@, n as int),
{
    let mut sum: u8 = 0;
    let mut i: usize = 0;
    while i < n
        invariant
            i <= n,
            n <= bytes@.len(),
            sum as int == byte_sum(bytes@, i as int),
        decreases n - i,
    {
        sum = sum.wrapping_add(bytes[i]);
        i = i + 1;
    }
    sum
}

impl TcpMigrationHeader {
    /// A header between `origin`, `dest` and `remote` with no flag set.
    pub fn new(origin: SocketAddrV4, dest: SocketAddrV4, remote: SocketAddrV4) -> (h: TcpMigrationHeader)
        ensures
            h == (TcpMigrationHeader {
                origin,
                dest,
                remote,
                flag_load: false,
                flag_prepare_migration: false,
                flag_prepare_migration_ack: false,
                flag_payload_state: false,
            }),
    {
        TcpMigrationHeader {
            origin,
            dest,
            remote,
            flag_load: false,
            flag_prepare_migration: false,
            flag_prepare_migration_ack: false,
            flag_payload_state: false,
        }
    }

    /// The 24 bytes of the header, the checksum byte making them sum to zero.
    pub fn serialize(&self) -> (v: Vec<u8>)
        ensures
            v@ == serialize_migration_spec(*self),
            byte_sum(v@, 24) == 0,
    {
        let mut bytes: Vec<u8> = vec![0u8; MIGRATION_HEADER_SIZE];
        let ghost z = bytes@;
        assert(z =~= Seq::new(24, |i: int| 0u8));
        let b: &mut [u8] = bytes.as_mut_slice();
        write_u32_at(b, 0, MIGRATION_MAGIC);
        write_addr(b, 4, self.origin);
        write_addr(b, 10, self.dest);
        write_addr(b, 16, self.remote);
        b[22] = self.serialize_flags();
        let ghost pre = b@;
        assert(pre =~= migration_bytes_unchecked(*self));
        let sum = sum_bytes(b, MIGRATION_HEADER_SIZE);
        b[23] = 0u8.wrapping_sub(sum);
        proof {
            lemma_byte_sum_depends(b@, pre, 23);
            lemma_byte_sum_range(pre, 23);
            assert(byte_sum(pre, 24) == (byte_sum(pre, 23) + 0) % 0x100);
        }
        assert(b@ =~= serialize_migration_spec(*self));
        bytes
    }

    fn serialize_flags(&self) -> (f: u8)
        ensures
            f == migration_flags(*self),
    {
        ((if self.flag_load { 1u8 } else { 0u8 }) << FLAG_LOAD)
        | ((if self.flag_prepare_migration { 1u8 } else { 0u8 }) << FLAG_PREPARE_MIGRATION)
        | ((if self.flag_prepare_migration_ack { 1u8 } else { 0u8 }) << FLAG_PREPARE_MIGRATION_ACK)
        | ((if self.flag_payload_state { 1u8 } else { 0u8 }) << FLAG_PAYLOAD_STATE)
    }

    /// Reads the header at the start of `serialized`, checking its signature and checksum.
    pub fn deserialize(serialized: &[u8]) -> (r: Result<TcpMigrationHeader, &'static str>)
        requires
            serialized@.len() >= MIGRATION_HEADER_SIZE,
        ensures
            r == deserialize_migration_spec(serialized@),
    {
        if read_u32_at(serialized, 0) != MIGRATION_MAGIC {
            Err("Magic number (0xCAFEDEAD) not found")
        } else if sum_bytes(serialized, MIGRATION_HEADER_SIZE) != 0 {
            Err("Invalid checksum")
        } else {
            let flags = serialized[22];
            Ok(
                TcpMigrationHeader {
                    origin: read_addr(serialized, 4),
                    dest: read_addr(serialized, 10),
                    remote: read_addr(serialized, 16),
                    flag_load: (flags & (1 << FLAG_LOAD)) != 0,
                    flag_prepare_migration: (flags & (1 << FLAG_PREPARE_MIGRATION)) != 0,
                    flag_prepare_migration_ack: (flags & (1 << FLAG_PREPARE_MIGRATION_ACK)) != 0,
                    flag_payload_state: (flags & (1 << FLAG_PAYLOAD_STATE)) != 0,
                },
            )
        }
    }
}

impl TcpMigrationSegment {
    /// A segment with `header` and `payload`.
    pub fn new(header: TcpMigrationHeader, payload: Vec<u8>) -> (s: TcpMigrationSegment)
        ensures
            s.header == header,
            s.payload == payload,
    {
        TcpMigrationSegment { header, payload }
    }

    /// The header bytes followed by the payload.
    pub fn serialize(&self) -> (v: Vec<u8>)
        ensures
            v@ == serialize_migration_spec(self.header) + self.payload@,
    {
        let mut bytes = self.header.serialize();
        let ghost head = bytes@;
        let mut i: usize = 0;
        while i < self.payload.len()
            invariant
                i <= self.payload@.len(),
                bytes@ == head + self.payload@.subrange(0, i as int),
            decreases self.payload@.len() - i,
        {
            bytes.push(self.payload[i]);
            i = i + 1;
            assert(bytes@ =~= head + self.payload@.subrange(0, i as int));
        }
        assert(self.payload@.subrange(0, self.payload@.len() as int) =~= self.payload@);
        bytes
    }

    /// Reads a segment: a header, then the payload up to the end of `serialized`.
    pub fn deserialize(serialized: &[u8]) -> (r: Result<TcpMigrationSegment, &'static str>)
        requires
            serialized@.len() >= MIGRATION_HEADER_SIZE,
        ensures
            segment_result_view(r) == deserialize_segment_spec(serialized@),
    {
        let header = match TcpMigrationHeader::deserialize(serialized) {
            Ok(h) => h,
            Err(e) => return Err(e),
        };
        let rest: &[u8] = &serialized[MIGRATION_HEADER_SIZE..serialized.len()];
        let mut payload: Vec<u8> = Vec::new();
        let mut i: usize = 0;
        while i < rest.len()
            invariant
                i <= rest@.len(),
                payload@ == rest@.subrange(0, i as int),
            decreases rest@.len() - i,
        {
            payload.push(rest[i]);
            i = i + 1;
            assert(payload@ =~= rest@.subrange(0, i as int));
        }
        assert(payload@ =~= rest@);
        Ok(TcpMigrationSegment { header, payload })
    }
}

} // verus!
