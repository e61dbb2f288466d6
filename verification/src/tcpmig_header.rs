//! The TCPMig segment header: the wire format that carries migration messages.
//!
//! ```text
//!  Offset  Size    Data
//!  0       4       Origin IP
//!  4       2       Origin Port
//!  6       4       Remote IP
//!  10      2       Remote Port
//!  12      2       Payload Length
//!  14      2       Fragment Offset
//!  16      1       Flags + Stage
//!  17      1       Zero (unused)
//!  18      2       Checksum
//! ```
//!
//! Flags: bit 0 is LOAD (the switch loads the entry into its migration tables),
//! bit 1 is NEXT_FRAGMENT (another fragment follows), bits 4-7 hold the stage.

use crate::addr::{Ipv4Addr, SocketAddrV4};
use crate::buffer::Buffer;
use crate::byte_order::{be16, put_be16, read_u16_at, write_u16_at};
use crate::ipv4::{word_sum, Ipv4Header};
use crate::stage::{stage_from_number, stage_number, MigrationStage};
use vstd::prelude::*;

verus! {

/// Size of a TCPMig header (in bytes).
pub const TCPMIG_HEADER_SIZE: usize = 20;

pub const FLAG_LOAD_BIT: u8 = 0;

pub const FLAG_NEXT_FRAGMENT: u8 = 1;

pub const STAGE_BIT_SHIFT: u8 = 4;

/// A TCPMig header.
#[derive(Debug, Clone, Copy, PartialEq, Eq)]
pub struct TcpMigHeader {
    /// Client-facing address of the origin server.
    pub origin: SocketAddrV4,
    /// Client's address.
    pub remote: SocketAddrV4,
    pub payload_length: u16,
    pub fragment_offset: u16,
    pub flag_load: bool,
    pub flag_next_fragment: bool,
    pub stage: MigrationStage,
}

/// Why a buffer is not an acceptable TCPMig segment.
#[derive(Debug, Clone, Copy, PartialEq, Eq, Structural)]
pub enum TcpMigParseError {
    /// "TCPMig segment too small"
    SegmentTooSmall,
    /// "Invalid TCPMig stage: {}", with the stage number found
    InvalidStage(u8),
    /// "TCPMig checksum mismatch"
    ChecksumMismatch,
}

/// The sum of the big-endian words of an address's octets.
pub open spec fn addr_word_sum(a: Ipv4Addr) -> int {
    a.octets[0] as int * 0x100 + a.octets[1] as int + a.octets[2] as int * 0x100
        + a.octets[3] as int
}

/// The word made of the last byte of an odd-length payload, padded with a zero byte;
/// zero for an even-length payload.
pub open spec fn tail_word(d: Seq<u8>) -> int {
    if d.len() % 2 == 1 {
        d[d.len() - 1] as int * 0x100
    } else {
        0
    }
}

/// The sum of the words that the TCPMig checksum covers: the IPv4 source and
/// destination addresses, the first 18 bytes of the TCPMig header, and the payload
/// padded to a whole number of words.
pub open spec fn tcpmig_word_sum(ip: Ipv4Header, mh: Seq<u8>, data: Seq<u8>) -> int {
    addr_word_sum(ip.src_addr) + addr_word_sum(ip.dst_addr) + word_sum(mh, 0, 9) + word_sum(
        data,
        0,
        data.len() as int / 2,
    ) + tail_word(data)
}

/// The TCPMig checksum: the two's-complement negation, modulo 2^16, of the word sum.
pub open spec fn tcpmig_checksum(ip: Ipv4Header, mh: Seq<u8>, data: Seq<u8>) -> u16 {
    ((0x10000 - tcpmig_word_sum(ip, mh, data) % 0x10000) % 0x10000) as u16
}

/// The flags-and-stage byte of a header.
pub open spec fn flags_and_stage(h: TcpMigHeader) -> u8 {
    ((if h.flag_load { 1u8 } else { 0u8 }) << FLAG_LOAD_BIT) | ((if h.flag_next_fragment {
        1u8
    } else {
        0u8
    }) << FLAG_NEXT_FRAGMENT) | (stage_number(h.stage) << STAGE_BIT_SHIFT)
}

/// The 20 header bytes before the checksum is filled in (bytes 18 and 19 are zero).
pub open spec fn tcpmig_bytes_unchecked(h: TcpMigHeader) -> Seq<u8> {
    seq![
        h.origin.ip.octets[0],
        h.origin.ip.octets[1],
        h.origin.ip.octets[2],
        h.origin.ip.octets[3],
        (h.origin.port / 0x100) as u8,
        (h.origin.port % 0x100) as u8,
        h.remote.ip.octets[0],
        h.remote.ip.octets[1],
        h.remote.ip.octets[2],
        h.remote.ip.octets[3],
        (h.remote.port / 0x100) as u8,
        (h.remote.port % 0x100) as u8,
        (h.payload_length / 0x100) as u8,
        (h.payload_length % 0x100) as u8,
        (h.fragment_offset / 0x100) as u8,
        (h.fragment_offset % 0x100) as u8,
        flags_and_stage(h),
        0u8,
        0u8,
        0u8,
    ]
}

/// The 20 bytes that `serialize` writes for header `h` carried in datagram `ip`
/// with payload `data`.
pub open spec fn serialize_tcpmig_spec(h: TcpMigHeader, ip: Ipv4Header, data: Seq<u8>) -> Seq<u8> {
    let pre = tcpmig_bytes_unchecked(h);
    put_be16(pre, 18, tcpmig_checksum(ip, pre, data))
}

/// The header that `s` begins with, and the bytes after it, for a segment carried
/// in datagram `ip`.
pub open spec fn parse_tcpmig_spec(ip: Ipv4Header, s: Seq<u8>) -> Result<
    (TcpMigHeader, Seq<u8>),
    TcpMigParseError,
> {
    if s.len() < 20 {
        Err(TcpMigParseError::SegmentTooSmall)
    } else {
        let flags = s[16];
        let stage_bits = (flags & 0xf0u8) >> STAGE_BIT_SHIFT;
        let payload = s.subrange(20, s.len() as int);
        match stage_from_number(stage_bits) {
            Err(e) => Err(TcpMigParseError::InvalidStage(e)),
            Ok(stage) => if be16(s, 18) != tcpmig_checksum(ip, s.subrange(0, 20), payload) {
                Err(TcpMigParseError::ChecksumMismatch)
            } else {
                Ok(
                    (
                        TcpMigHeader {
                            origin: SocketAddrV4 {
                                ip: Ipv4Addr { octets: [s[0], s[1], s[2], s[3]] },
                                port: be16(s, 4) as u16,
                            },
                            remote: SocketAddrV4 {
                                ip: Ipv4Addr { octets: [s[6], s[7], s[8], s[9]] },
                                port: be16(s, 10) as u16,
                            },
                            payload_length: be16(s, 12) as u16,
                            fragment_offset: be16(s, 14) as u16,
                            flag_load: flags & (1u8 << FLAG_LOAD_BIT) != 0,
                            flag_next_fragment: flags & (1u8 << FLAG_NEXT_FRAGMENT) != 0,
                            stage,
                        },
                        payload,
                    ),
                )
            },
        }
    }
}

/// The parse result with the payload slice replaced by its bytes.
pub open spec fn slice_result_view(r: Result<(TcpMigHeader, &[u8]), TcpMigParseError>) -> Result<
    (TcpMigHeader, Seq<u8>),
    TcpMigParseError,
> {
    match r {
        Ok((h, b)) => Ok((h, b@)),
        Err(e) => Err(e),
    }
}

/// The parse result with the payload buffer replaced by its bytes.
pub open spec fn buffer_result_view(r: Result<(TcpMigHeader, Buffer), TcpMigParseError>) -> Result<
    (TcpMigHeader, Seq<u8>),
    TcpMigParseError,
> {
    match r {
        Ok((h, b)) => Ok((h, b@)),
        Err(e) => Err(e),
    }
}

/// One step of a 16-bit wrapping sum keeps the accumulator equal to the sum so far
/// modulo 2^16.
proof fn lemma_wrapping_step(acc: u16, total: int, w: int)
    requires
        total >= 0,
        acc as int == total % 0x10000,
        0 <= w <= 0xffff,
    ensures
        vstd::wrapping::u16_specs::wrapping_add(acc, w as u16) as int == (total + w) % 0x10000,
{
    assert((total + w) % 0x10000 == (acc as int + w) % 0x10000) by (nonlinear_arith)
        requires
            total >= 0,
            acc as int == total % 0x10000,
    ;
}

proof fn lemma_word_sum_depends(s: Seq<u8>, t: Seq<u8>, from: int, to: int)
    requires
        0 <= from,
        2 * to <= s.len(),
        2 * to <= t.len(),
        forall|i: int| 2 * from <= i < 2 * to ==> s[i] == t[i],
    ensures
        word_sum(s, from, to) == word_sum(t, from, to),
    decreases to - from,
{
    if to > from {
        lemma_word_sum_depends(s, t, from, to - 1);
        assert(s[2 * (to - 1)] == t[2 * (to - 1)]);
        assert(s[2 * (to - 1) + 1] == t[2 * (to - 1) + 1]);
    }
}

/// The checksum reads only the first 18 bytes of the header.
pub proof fn lemma_tcpmig_checksum_depends(ip: Ipv4Header, s: Seq<u8>, t: Seq<u8>, data: Seq<u8>)
    requires
        s.len() >= 18,
        t.len() >= 18,
        forall|i: int| 0 <= i < 18 ==> s[i] == t[i],
    ensures
        tcpmig_checksum(ip, s, data) == tcpmig_checksum(ip, t, data),
{
    lemma_word_sum_depends(s, t, 0, 9);
}

/// The flags-and-stage byte gives back the flags and the stage number it was made of.
pub proof fn lemma_flags_and_stage(h: TcpMigHeader)
    ensures
        (flags_and_stage(h) & (1u8 << FLAG_LOAD_BIT) != 0) == h.flag_load,
        (flags_and_stage(h) & (1u8 << FLAG_NEXT_FRAGMENT) != 0) == h.flag_next_fragment,
        (flags_and_stage(h) & 0xf0u8) >> STAGE_BIT_SHIFT == stage_number(h.stage),
{
    let l: u8 = if h.flag_load { 1u8 } else { 0u8 };
    let n: u8 = if h.flag_next_fragment { 1u8 } else { 0u8 };
    let st: u8 = stage_number(h.stage);
    assert(st < 6);
    assert(((l << 0u8) | (n << 1u8) | (st << 4u8)) & (1u8 << 0u8) != 0 <==> l == 1u8) by (bit_vector)
        requires
            l <= 1u8,
            n <= 1u8,
            st < 16u8,
    ;
    assert(((l << 0u8) | (n << 1u8) | (st << 4u8)) & (1u8 << 1u8) != 0 <==> n == 1u8) by (bit_vector)
        requires
            l <= 1u8,
            n <= 1u8,
            st < 16u8,
    ;
    assert((((l << 0u8) | (n << 1u8) | (st << 4u8)) & 0xf0u8) >> 4u8 == st) by (bit_vector)
        requires
            l <= 1u8,
            n <= 1u8,
            st < 16u8,
    ;
}

/// What parsing gives back of a serialized header: the same header, and the payload
/// that the checksum was computed over.
pub proof fn lemma_tcpmig_serialize_parse(h: TcpMigHeader, ip: Ipv4Header, data: Seq<u8>)
    ensures
        parse_tcpmig_spec(ip, serialize_tcpmig_spec(h, ip, data) + data) == Ok::<
            (TcpMigHeader, Seq<u8>),
            TcpMigParseError,
        >((h, data)),
{
    let pre = tcpmig_bytes_unchecked(h);
    let hdr = serialize_tcpmig_spec(h, ip, data);
    let s = hdr + data;
    assert(s.subrange(20, s.len() as int) =~= data);
    assert(forall|i: int| 0 <= i < 18 ==> s.subrange(0, 20)[i] == pre[i]);
    lemma_tcpmig_checksum_depends(ip, s.subrange(0, 20), pre, data);
    lemma_flags_and_stage(h);
    crate::stage::lemma_stage_number_roundtrip(h.stage, 0);
    assert([s[0], s[1], s[2], s[3]] =~= h.origin.ip.octets);
    assert([s[6], s[7], s[8], s[9]] =~= h.remote.ip.octets);
}

impl TcpMigHeader {
    /// Creates a TCPMig header with no fragment offset and no flags set.
    pub fn new(
        origin: SocketAddrV4,
        remote: SocketAddrV4,
        payload_length: u16,
        stage: MigrationStage,
    ) -> (h: TcpMigHeader)
        ensures
            h == (TcpMigHeader {
                origin,
                remote,
                payload_length,
                fragment_offset: 0,
                flag_load: false,
                flag_next_fragment: false,
                stage,
            }),
    {
        TcpMigHeader {
            origin,
            remote,
            payload_length,
            fragment_offset: 0,
            flag_load: false,
            flag_next_fragment: false,
            stage,
        }
    }

    /// Returns the size of the TCPMig header (in bytes).
    pub fn size(&self) -> (n: usize)
        ensures
            n == TCPMIG_HEADER_SIZE,
    {
        TCPMIG_HEADER_SIZE
    }

    /// Parses a byte slice into a TCPMig header and the bytes that follow it.
    pub fn parse_from_slice<'a>(ipv4_hdr: &Ipv4Header, buf: &'a [u8]) -> (r: Result<
        (TcpMigHeader, &'a [u8]),
        TcpMigParseError,
    >)
        ensures
            slice_result_view(r) == parse_tcpmig_spec(*ipv4_hdr, buf@),
    {
        // Malformed header.
        if buf.len() < TCPMIG_HEADER_SIZE {
            return Err(TcpMigParseError::SegmentTooSmall);
        }
        // Deserialize buffer.
        let hdr_buf: &[u8] = &buf[0..TCPMIG_HEADER_SIZE];
        let origin = SocketAddrV4::new(
            Ipv4Addr::new(hdr_buf[0], hdr_buf[1], hdr_buf[2], hdr_buf[3]),
            read_u16_at(hdr_buf, 4),
        );
        let remote = SocketAddrV4::new(
            Ipv4Addr::new(hdr_buf[6], hdr_buf[7], hdr_buf[8], hdr_buf[9]),
            read_u16_at(hdr_buf, 10),
        );
        let payload_length = read_u16_at(hdr_buf, 12);
        let fragment_offset = read_u16_at(hdr_buf, 14);
        // Flags.
        let flags = hdr_buf[16];
        let flag_load = (flags & (1 << FLAG_LOAD_BIT)) != 0;
        let flag_next_fragment = (flags & (1 << FLAG_NEXT_FRAGMENT)) != 0;
        let stage = (flags & 0xF0) >> STAGE_BIT_SHIFT;
        let stage: MigrationStage = match MigrationStage::try_from(stage) {
            Ok(stage) => stage,
            Err(e) => return Err(TcpMigParseError::InvalidStage(e)),
        };
        // Checksum payload.
        let payload_buf: &[u8] = &buf[TCPMIG_HEADER_SIZE..buf.len()];
        let checksum: u16 = read_u16_at(hdr_buf, 18);
        if checksum != Self::checksum(ipv4_hdr, hdr_buf, payload_buf) {
            return Err(TcpMigParseError::ChecksumMismatch);
        }
        let header = TcpMigHeader {
            origin,
            remote,
            payload_length,
            fragment_offset,
            flag_load,
            flag_next_fragment,
            stage,
        };
        Ok((header, payload_buf))
    }

    /// Parses a buffer into a TCPMig header and a buffer holding the bytes after it.
    pub fn parse(ipv4_hdr: &Ipv4Header, buf: Buffer) -> (r: Result<(TcpMigHeader, Buffer), TcpMigParseError>)
        ensures
            buffer_result_view(r) == parse_tcpmig_spec(*ipv4_hdr, buf@),
    {
        match Self::parse_from_slice(ipv4_hdr, buf.as_slice()) {
            Ok((hdr, bytes)) => Ok((hdr, Buffer::from_slice(bytes))),
            Err(e) => Err(e),
        }
    }

    /// Serializes the header into the first 20 bytes of `buf`, for a segment carried in
    /// datagram `ipv4_hdr` with payload `data`.
    pub fn serialize(&self, buf: &mut [u8], ipv4_hdr: &Ipv4Header, data: &[u8])
        requires
            old(buf)@.len() >= TCPMIG_HEADER_SIZE,
        ensures
            final(buf)@ == serialize_tcpmig_spec(*self, *ipv4_hdr, data@) + old(buf)@.subrange(
                20,
                old(buf)@.len() as int,
            ),
    {
        let origin_ip = self.origin.ip().octets();
        buf[0] = origin_ip[0];
        buf[1] = origin_ip[1];
        buf[2] = origin_ip[2];
        buf[3] = origin_ip[3];
        write_u16_at(buf, 4, self.origin.port());
        let remote_ip = self.remote.ip().octets();
        buf[6] = remote_ip[0];
        buf[7] = remote_ip[1];
        buf[8] = remote_ip[2];
        buf[9] = remote_ip[3];
        write_u16_at(buf, 10, self.remote.port());
        write_u16_at(buf, 12, self.payload_length);
        write_u16_at(buf, 14, self.fragment_offset);
        buf[16] = self.serialize_flags_and_stage();
        buf[17] = 0;
        let ghost pre = tcpmig_bytes_unchecked(*self);
        let checksum = Self::checksum(ipv4_hdr, &buf[0..TCPMIG_HEADER_SIZE], data);
        proof {
            lemma_tcpmig_checksum_depends(*ipv4_hdr, buf@.subrange(0, 20), pre, data@);
        }
        write_u16_at(buf, 18, checksum);
        assert(final(buf)@ =~= serialize_tcpmig_spec(*self, *ipv4_hdr, data@) + old(buf)@.subrange(
            20,
            old(buf)@.len() as int,
        ));
    }

    /// The flags-and-stage byte of the header.
    fn serialize_flags_and_stage(&self) -> (b: u8)
        ensures
            b == flags_and_stage(*self),
    {
        ((if self.flag_load { 1u8 } else { 0u8 }) << FLAG_LOAD_BIT) | ((if self.flag_next_fragment {
            1u8
        } else {
            0u8
        }) << FLAG_NEXT_FRAGMENT) | (u8::from(self.stage) << STAGE_BIT_SHIFT)
    }

    /// Computes the checksum of a TCPMig segment with header bytes `migration_hdr`
    /// and payload `data`, carried in datagram `ipv4_hdr`.
    pub fn checksum(ipv4_hdr: &Ipv4Header, migration_hdr: &[u8], data: &[u8]) -> (c: u16)
        requires
            migration_hdr@.len() >= 18,
        ensures
            c == tcpmig_checksum(*ipv4_hdr, migration_hdr@, data@),
    {
        let ghost mh = migration_hdr@;
        let ghost d = data@;
        let src = ipv4_hdr.get_src_addr().octets();
        let dst = ipv4_hdr.get_dest_addr().octets();
        let words: [u16; 4] = [
            read_u16_at(&src, 0),
            read_u16_at(&src, 2),
            read_u16_at(&dst, 0),
            read_u16_at(&dst, 2),
        ];
        let mut sum: u16 = 0;
        let mut i: usize = 0;
        while i < 4
            invariant
                i <= 4,
                words[0] as int == src[0] as int * 0x100 + src[1] as int,
                words[1] as int == src[2] as int * 0x100 + src[3] as int,
                words[2] as int == dst[0] as int * 0x100 + dst[1] as int,
                words[3] as int == dst[2] as int * 0x100 + dst[3] as int,
                sum as int == (if i == 0 { 0 } else if i == 1 { words[0] as int } else if i == 2 {
                    words[0] + words[1]
                } else if i == 3 {
                    words[0] + words[1] + words[2]
                } else {
                    words[0] + words[1] + words[2] + words[3]
                }) % 0x10000,
            decreases 4 - i,
        {
            proof {
                let t = if i == 0 { 0 } else if i == 1 { words[0] as int } else if i == 2 {
                    words[0] + words[1]
                } else {
                    words[0] + words[1] + words[2]
                };
                lemma_wrapping_step(sum, t, words[i as int] as int);
            }
            sum = sum.wrapping_add(words[i]);
            i = i + 1;
        }
        let ghost base: int = addr_word_sum(ipv4_hdr.src_addr) + addr_word_sum(ipv4_hdr.dst_addr);
        assert(sum as int == base % 0x10000);
        // The TCPMig header, up to (not including) the checksum field.
        let mut i: usize = 0;
        while i < 9
            invariant
                mh == migration_hdr@,
                mh.len() >= 18,
                i <= 9,
                base >= 0,
                sum as int == (base + word_sum(mh, 0, i as int)) % 0x10000,
            decreases 9 - i,
        {
            proof {
                crate::ipv4::lemma_word_sum_nonneg(mh, 0, i as int);
                lemma_wrapping_step(sum, base + word_sum(mh, 0, i as int), be16(mh, 2 * i as int));
            }
            sum = sum.wrapping_add(read_u16_at(migration_hdr, 2 * i));
            i = i + 1;
        }
        let ghost base2: int = base + word_sum(mh, 0, 9);
        proof {
            crate::ipv4::lemma_word_sum_nonneg(mh, 0, 9);
        }
        // The payload, a word at a time.
        let data_len: usize = data.len();
        let n_words: usize = data_len / 2;
        let mut i: usize = 0;
        while i < n_words
            invariant
                d == data@,
                data_len == d.len(),
                n_words == data_len / 2,
                i <= n_words,
                base2 >= 0,
                sum as int == (base2 + word_sum(d, 0, i as int)) % 0x10000,
            decreases n_words - i,
        {
            proof {
                crate::ipv4::lemma_word_sum_nonneg(d, 0, i as int);
                lemma_wrapping_step(sum, base2 + word_sum(d, 0, i as int), be16(d, 2 * i as int));
            }
            sum = sum.wrapping_add(read_u16_at(data, 2 * i));
            i = i + 1;
        }
        proof {
            crate::ipv4::lemma_word_sum_nonneg(d, 0, n_words as int);
        }
        // The last byte of an odd-length payload, padded with a zero byte.
        let rem: [u8; 2] = if data.len() % 2 == 1 {
            [data[data.len() - 1], 0]
        } else {
            [0, 0]
        };
        let last: u16 = read_u16_at(&rem, 0);
        proof {
            lemma_wrapping_step(sum, base2 + word_sum(d, 0, n_words as int), last as int);
        }
        sum = sum.wrapping_add(last);
        assert(sum as int == tcpmig_word_sum(*ipv4_hdr, mh, d) % 0x10000);
        0u16.wrapping_sub(sum)
    }
}

} // verus!
