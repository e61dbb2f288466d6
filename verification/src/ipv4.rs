//! IPv4 datagram headers: parsing, serialization and the header checksum.

use crate::addr::{octets_to_u32, Ipv4Addr};
use crate::buffer::Buffer;
use crate::byte_order::{be16, be32, put_be16, read_u16_at, read_u32_at, write_u16_at};
use vstd::prelude::*;

verus! {

/// Default size of IPv4 headers (in bytes).
pub const IPV4_HEADER_DEFAULT_SIZE: usize = 20;

/// Minimum size for an IPv4 datagram (in bytes).
pub const IPV4_DATAGRAM_MIN_SIZE: u16 = 20;

/// Minimum size for an IPv4 header (in bytes).
pub const IPV4_HEADER_MIN_SIZE: u16 = 20;

/// IPv4 header length when no options are present (in 32-bit words).
pub const IPV4_IHL_NO_OPTIONS: u8 = 5;

/// Default time to live value.
pub const DEFAULT_IPV4_TTL: u8 = 255;

/// Version number for IPv4.
pub const IPV4_VERSION: u8 = 4;

/// IPv4 control flag: datagram has evil intent (see RFC 3514).
pub const IPV4_CTRL_FLAG_EVIL: u8 = 0x4;

/// IPv4 control flag: don't fragment.
pub const IPV4_CTRL_FLAG_DF: u8 = 0x2;

/// IPv4 control flag: more fragments.
pub const IPV4_CTRL_FLAG_MF: u8 = 0x1;

/// IPv4 datagram header.
#[derive(Debug, Clone, Copy)]
pub struct Ipv4Header {
    /// Internet header version (4 bits).
    pub version: u8,
    /// Internet header length, in 32-bit words (4 bits).
    pub ihl: u8,
    /// Differentiated services code point (6 bits).
    pub dscp: u8,
    /// Explicit congestion notification (2 bits).
    pub ecn: u8,
    /// Total length of the packet including header and data (16 bits).
    pub total_length: u16,
    /// Identifies the datagram to which a fragment belongs (16 bits).
    pub identification: u16,
    /// Control flags (3 bits).
    pub flags: u8,
    /// Where in the datagram this fragment belongs (13 bits).
    pub fragment_offset: u16,
    /// Time to live (8 bits).
    pub ttl: u8,
    /// Protocol number of the payload (8 bits).
    pub protocol: u8,
    /// Header-only checksum (16 bits).
    pub header_checksum: u16,
    /// Source address (32 bits).
    pub src_addr: Ipv4Addr,
    /// Destination address (32 bits).
    pub dst_addr: Ipv4Addr,
}

/// Why a buffer is not an acceptable IPv4 datagram.
#[derive(Debug, Clone, Copy, PartialEq, Eq, Structural)]
pub enum Ipv4ParseError {
    /// "ipv4 datagram too small"
    DatagramTooSmall,
    /// "unsupported IP version"
    UnsupportedVersion,
    /// "ipv4 IHL is too small"
    IhlTooSmall,
    /// "ipv4 datagram too small to fit in header"
    HeaderDoesNotFit,
    /// "ipv4 datagram smaller than header"
    SmallerThanHeader,
    /// "ipv4 datagram size mismatch"
    SizeMismatch,
    /// "ipv4 datagram is marked as evil"
    Evil,
    /// "ipv4 fragmentation is not supported" (the more-fragments flag is set)
    MoreFragments,
    /// "ipv4 fragmentation is not supported" (the fragment offset is not zero)
    FragmentOffset,
    /// "ipv4 datagram too old"
    TooOld,
    /// The protocol number is not one of the known IP protocols.
    UnsupportedProtocol,
    /// "ipv4 checksum invalid"
    ChecksumInvalid,
    /// "ipv4 checksum mismatch"
    ChecksumMismatch,
}

/// Sum of the big-endian 16-bit words with index in `[from, to)`.
pub open spec fn word_sum(s: Seq<u8>, from: int, to: int) -> int
    decreases to - from,
{
    if to <= from {
        0
    } else {
        word_sum(s, from, to - 1) + be16(s, 2 * (to - 1))
    }
}

/// Number of the ICMPv4 protocol.
pub const IP_PROTOCOL_ICMPV4: u8 = 0x01;

/// Number of the TCP protocol.
pub const IP_PROTOCOL_TCP: u8 = 0x06;

/// Number of the UDP protocol.
pub const IP_PROTOCOL_UDP: u8 = 0x11;

/// Number of the TCP migration protocol (TCPMig).
pub const IP_PROTOCOL_TCPMIG: u8 = 0xC0;

/// Whether `p` is the number of a protocol the stack carries over IPv4.
pub open spec fn known_protocol(p: u8) -> bool {
    p == IP_PROTOCOL_ICMPV4 || p == IP_PROTOCOL_TCP || p == IP_PROTOCOL_UDP || p
        == IP_PROTOCOL_TCPMIG
}

/// Whether `p` is the number of a protocol the stack carries over IPv4.
pub fn is_known_protocol(p: u8) -> (b: bool)
    ensures
        b == known_protocol(p),
{
    p == IP_PROTOCOL_ICMPV4 || p == IP_PROTOCOL_TCP || p == IP_PROTOCOL_UDP || p
        == IP_PROTOCOL_TCPMIG
}

/// One's-complement end-around reduction: subtract 0xffff until at most 0xffff.
pub open spec fn ones_fold(x: int) -> int
    decreases x,
{
    if x > 0xffff {
        ones_fold(x - 0xffff)
    } else {
        x
    }
}

/// The IPv4 header checksum of the 20-byte header at the start of `s`: the
/// one's-complement of the one's-complement sum of its words, the checksum word
/// (bytes 10 and 11) left out.
pub open spec fn ipv4_checksum(s: Seq<u8>) -> u16 {
    (0xffff - ones_fold(0xffff + word_sum(s, 0, 5) + word_sum(s, 6, 10))) as u16
}

/// The header, if any, that `s` begins with, and the datagram's payload: the bytes
/// between the header and the datagram's total length.
pub open spec fn parse_ipv4_spec(s: Seq<u8>) -> Result<(Ipv4Header, Seq<u8>), Ipv4ParseError> {
    if s.len() < 20 {
        Err(Ipv4ParseError::DatagramTooSmall)
    } else if (s[0] >> 4u8) != IPV4_VERSION {
        Err(Ipv4ParseError::UnsupportedVersion)
    } else {
        let ihl = s[0] & 0xfu8;
        let hdr_size = ihl as int * 4;
        let total = be16(s, 2);
        let flags = s[6] >> 5u8;
        let fragment_offset = (be16(s, 6) as u16) & 0x1fffu16;
        let checksum = be16(s, 10);
        if hdr_size < 20 {
            Err(Ipv4ParseError::IhlTooSmall)
        } else if s.len() < hdr_size {
            Err(Ipv4ParseError::HeaderDoesNotFit)
        } else if total < hdr_size {
            Err(Ipv4ParseError::SmallerThanHeader)
        } else if total > s.len() {
            Err(Ipv4ParseError::SizeMismatch)
        } else if flags & IPV4_CTRL_FLAG_EVIL != 0 {
            Err(Ipv4ParseError::Evil)
        } else if flags & IPV4_CTRL_FLAG_MF != 0 {
            Err(Ipv4ParseError::MoreFragments)
        } else if fragment_offset != 0 {
            Err(Ipv4ParseError::FragmentOffset)
        } else if s[8] == 0 {
            Err(Ipv4ParseError::TooOld)
        } else if !known_protocol(s[9]) {
            Err(Ipv4ParseError::UnsupportedProtocol)
        } else if checksum == 0xffff {
            Err(Ipv4ParseError::ChecksumInvalid)
        } else if checksum != ipv4_checksum(s) {
            Err(Ipv4ParseError::ChecksumMismatch)
        } else {
            Ok(
                (
                    Ipv4Header {
                        version: s[0] >> 4u8,
                        ihl,
                        dscp: s[1] >> 2u8,
                        ecn: s[1] & 3u8,
                        total_length: total as u16,
                        identification: be16(s, 4) as u16,
                        flags,
                        fragment_offset,
                        ttl: s[8],
                        protocol: s[9],
                        header_checksum: checksum as u16,
                        src_addr: Ipv4Addr { octets: [s[12], s[13], s[14], s[15]] },
                        dst_addr: Ipv4Addr { octets: [s[16], s[17], s[18], s[19]] },
                    },
                    s.subrange(hdr_size, total),
                ),
            )
        }
    }
}

/// The bytes that `serialize` writes for header `h` in front of a payload of
/// `payload_len` bytes, before the checksum is filled in (bytes 10 and 11 are zero).
pub open spec fn ipv4_bytes_unchecked(h: Ipv4Header, payload_len: usize) -> Seq<u8> {
    let total = (20 + (payload_len as u16)) as u16;
    let flags_frag = ((h.flags as u16) << 13u16) | (h.fragment_offset & 0x1fffu16);
    seq![
        (h.version << 4u8) | h.ihl,
        (h.dscp << 2u8) | (h.ecn & 3u8),
        (total / 0x100) as u8,
        (total % 0x100) as u8,
        (h.identification / 0x100) as u8,
        (h.identification % 0x100) as u8,
        (flags_frag / 0x100) as u8,
        (flags_frag % 0x100) as u8,
        h.ttl,
        h.protocol,
        0u8,
        0u8,
        h.src_addr.octets[0],
        h.src_addr.octets[1],
        h.src_addr.octets[2],
        h.src_addr.octets[3],
        h.dst_addr.octets[0],
        h.dst_addr.octets[1],
        h.dst_addr.octets[2],
        h.dst_addr.octets[3],
    ]
}

/// The 20 bytes that `serialize` writes for header `h` in front of a payload of
/// `payload_len` bytes.
pub open spec fn serialize_ipv4_spec(h: Ipv4Header, payload_len: usize) -> Seq<u8> {
    let pre = ipv4_bytes_unchecked(h, payload_len);
    put_be16(pre, 10, ipv4_checksum(pre))
}

/// The parse result with the payload buffer replaced by its bytes.
pub open spec fn parse_result_view(r: Result<(Ipv4Header, Buffer), Ipv4ParseError>) -> Result<
    (Ipv4Header, Seq<u8>),
    Ipv4ParseError,
> {
    match r {
        Ok((h, b)) => Ok((h, b@)),
        Err(e) => Err(e),
    }
}

/// The words of the checksum change only with the bytes they read.
proof fn lemma_word_sum_depends(s: Seq<u8>, t: Seq<u8>, from: int, to: int)
    requires
        0 <= from,
        2 * to <= s.len(),
        2 * to <= t.len(),
        forall|i: int| 2 * from <= i < 2 * to ==> s[i] == t[i],
    ensures
        word_sum(s, from, to) == word_sum(t, from, to),
    decreases to - from,
{
    if to > from {
        lemma_word_sum_depends(s, t, from, to - 1);
        assert(s[2 * (to - 1)] == t[2 * (to - 1)]);
        assert(s[2 * (to - 1) + 1] == t[2 * (to - 1) + 1]);
    }
}

/// The checksum reads only the first 20 bytes, and not bytes 10 and 11.
pub proof fn lemma_ipv4_checksum_depends(s: Seq<u8>, t: Seq<u8>)
    requires
        s.len() >= 20,
        t.len() >= 20,
        forall|i: int| 0 <= i < 20 && i != 10 && i != 11 ==> s[i] == t[i],
    ensures
        ipv4_checksum(s) == ipv4_checksum(t),
{
    lemma_word_sum_depends(s, t, 0, 5);
    lemma_word_sum_depends(s, t, 6, 10);
}

proof fn lemma_be16_bound(s: Seq<u8>, off: int)
    requires
        0 <= off,
        off + 2 <= s.len(),
    ensures
        0 <= be16(s, off) <= 0xffff,
{
}

proof fn lemma_ones_fold_range(x: int)
    requires
        x >= 1,
    ensures
        1 <= ones_fold(x) <= 0xffff,
    decreases x,
{
    if x > 0xffff {
        lemma_ones_fold_range(x - 0xffff);
    }
}

/// The checksum never takes the value 0xffff, which parsing reserves as invalid.
pub proof fn lemma_ipv4_checksum_not_reserved(s: Seq<u8>)
    ensures
        ipv4_checksum(s) != 0xffff,
{
    lemma_word_sum_nonneg(s, 0, 5);
    lemma_word_sum_nonneg(s, 6, 10);
    lemma_ones_fold_range(0xffff + word_sum(s, 0, 5) + word_sum(s, 6, 10));
}

pub(crate) proof fn lemma_word_sum_nonneg(s: Seq<u8>, from: int, to: int)
    ensures
        word_sum(s, from, to) >= 0,
    decreases to - from,
{
    if to > from {
        lemma_word_sum_nonneg(s, from, to - 1);
    }
}


/// Header fields that `serialize` writes and `parse` accepts and reads back unchanged:
/// a version-4 header without options, with in-range DSCP, ECN and flags, neither the
/// evil nor the more-fragments flag, no fragment offset, a live time to live and a known
/// protocol.
pub open spec fn ipv4_header_roundtrips(h: Ipv4Header) -> bool {
    &&& h.version == IPV4_VERSION
    &&& h.ihl == IPV4_IHL_NO_OPTIONS
    &&& h.dscp < 64
    &&& h.ecn < 4
    &&& h.flags < 8
    &&& h.flags & IPV4_CTRL_FLAG_EVIL == 0
    &&& h.flags & IPV4_CTRL_FLAG_MF == 0
    &&& h.fragment_offset == 0
    &&& h.ttl != 0
    &&& known_protocol(h.protocol)
}

/// What parsing gives back of a serialized header: the same header, with the total
/// length and checksum that serialization computed, and the payload that follows it.
pub proof fn lemma_ipv4_serialize_parse(h: Ipv4Header, payload: Seq<u8>)
    requires
        ipv4_header_roundtrips(h),
        20 + payload.len() <= u16::MAX,
    ensures
        ({
            let n = payload.len() as usize;
            parse_ipv4_spec(serialize_ipv4_spec(h, n) + payload) == Ok::<
                (Ipv4Header, Seq<u8>),
                Ipv4ParseError,
            >(
                (
                    Ipv4Header {
                        total_length: (20 + n) as u16,
                        header_checksum: ipv4_checksum(ipv4_bytes_unchecked(h, n)),
                        ..h
                    },
                    payload,
                ),
            )
        }),
{
    let n = payload.len() as usize;
    let pre = ipv4_bytes_unchecked(h, n);
    let cs = ipv4_checksum(pre);
    let hdr = serialize_ipv4_spec(h, n);
    let s = hdr + payload;
    assert(s.len() == 20 + payload.len());
    assert(forall|i: int| 0 <= i < 20 ==> s[i] == hdr[i]);
    assert(forall|i: int| 0 <= i < 20 && i != 10 && i != 11 ==> hdr[i] == pre[i]);
    lemma_ipv4_checksum_depends(s, pre);
    lemma_ipv4_checksum_not_reserved(pre);
    let version = h.version;
    let ihl = h.ihl;
    assert(((version << 4u8) | ihl) >> 4u8 == 4u8 && ((version << 4u8) | ihl) & 0xfu8 == 5u8)
        by (bit_vector)
        requires
            version == 4u8,
            ihl == 5u8,
    ;
    let dscp = h.dscp;
    let ecn = h.ecn;
    assert(((dscp << 2u8) | (ecn & 3u8)) >> 2u8 == dscp && ((dscp << 2u8) | (ecn & 3u8)) & 3u8
        == ecn) by (bit_vector)
        requires
            dscp < 64u8,
            ecn < 4u8,
    ;
    let flags = h.flags;
    let frag = h.fragment_offset;
    let ff = ((flags as u16) << 13u16) | (frag & 0x1fffu16);
    assert(((ff / 0x100u16) as u8) >> 5u8 == flags && ff & 0x1fffu16 == 0u16) by (bit_vector)
        requires
            ff == ((flags as u16) << 13u16) | (frag & 0x1fffu16),
            flags < 8u8,
            frag == 0u16,
    ;
    assert(be16(s, 6) == ff as int);
    assert(s.subrange(20, 20 + payload.len() as int) =~= payload);
    assert(s[0] >> 4u8 == 4u8);
    assert(s[0] & 0xfu8 == 5u8);
    assert(be16(s, 2) == 20 + n);
    assert(s[6] >> 5u8 == flags);
    assert((be16(s, 6) as u16) & 0x1fffu16 == 0);
    assert(be16(s, 10) == cs as int);
    assert(ipv4_checksum(s) == cs);
    assert(s[1] >> 2u8 == dscp);
    assert(be16(s, 4) == h.identification);
    assert(s[8] == h.ttl);
    assert([s[12], s[13], s[14], s[15]] =~= h.src_addr.octets);
    assert([s[16], s[17], s[18], s[19]] =~= h.dst_addr.octets);
}

impl Ipv4Header {
    /// Instantiates an IPv4 header with no options, the don't-fragment flag and the
    /// default time to live.
    pub fn new(src_addr: Ipv4Addr, dst_addr: Ipv4Addr, protocol: u8) -> (h: Ipv4Header)
        ensures
            h.version == IPV4_VERSION,
            h.ihl == IPV4_IHL_NO_OPTIONS,
            h.dscp == 0,
            h.ecn == 0,
            h.total_length == IPV4_HEADER_MIN_SIZE,
            h.identification == 0,
            h.flags == IPV4_CTRL_FLAG_DF,
            h.fragment_offset == 0,
            h.ttl == DEFAULT_IPV4_TTL,
            h.protocol == protocol,
            h.header_checksum == 0,
            h.src_addr == src_addr,
            h.dst_addr == dst_addr,
    {
        Ipv4Header {
            version: IPV4_VERSION,
            ihl: IPV4_IHL_NO_OPTIONS,
            dscp: 0,
            ecn: 0,
            total_length: IPV4_HEADER_MIN_SIZE,
            identification: 0,
            flags: IPV4_CTRL_FLAG_DF,
            fragment_offset: 0,
            ttl: DEFAULT_IPV4_TTL,
            protocol,
            header_checksum: 0,
            src_addr,
            dst_addr,
        }
    }

    /// Computes the size of the target IPv4 header.
    pub fn compute_size(&self) -> (n: usize)
        ensures
            n == 20,
    {
        IPV4_HEADER_DEFAULT_SIZE
    }

    /// Returns the source address field stored in the target IPv4 header.
    pub fn get_src_addr(&self) -> (a: Ipv4Addr)
        ensures
            a == self.src_addr,
    {
        self.src_addr
    }

    /// Returns the destination address field stored in the target IPv4 header.
    pub fn get_dest_addr(&self) -> (a: Ipv4Addr)
        ensures
            a == self.dst_addr,
    {
        self.dst_addr
    }

    /// Returns the protocol field stored in the target IPv4 header.
    pub fn get_protocol(&self) -> (p: u8)
        ensures
            p == self.protocol,
    {
        self.protocol
    }

    /// Sets the destination address.
    pub fn set_dest_addr(&mut self, addr: Ipv4Addr)
        ensures
            *final(self) == (Ipv4Header { dst_addr: addr, ..*old(self) }),
    {
        self.dst_addr = addr;
    }

    /// Computes the checksum of the IPv4 header at the start of `buf`.
    pub fn compute_checksum(buf: &[u8]) -> (c: u16)
        requires
            buf@.len() >= 20,
        ensures
            c == ipv4_checksum(buf@),
    {
        let ghost s = buf@;
        let mut state: u32 = 0xffffu32;
        let mut i: usize = 0;
        while i < 5
            invariant
                s == buf@,
                s.len() >= 20,
                i <= 5,
                state as int == 0xffff + word_sum(s, 0, i as int),
                state <= 0xffff + 0xffff * i,
            decreases 5 - i,
        {
            proof {
                lemma_be16_bound(s, 2 * i as int);
            }
            state = state + read_u16_at(buf, 2 * i) as u32;
            i = i + 1;
        }
        // Skip the 5th word: octets 10-12 hold the header checksum itself.
        let mut i: usize = 6;
        while i < 10
            invariant
                s == buf@,
                s.len() >= 20,
                6 <= i <= 10,
                state as int == 0xffff + word_sum(s, 0, 5) + word_sum(s, 6, i as int),
                state <= 0xffff + 0xffff * (i - 1),
            decreases 10 - i,
        {
            proof {
                lemma_be16_bound(s, 2 * i as int);
            }
            state = state + read_u16_at(buf, 2 * i) as u32;
            i = i + 1;
        }
        let ghost start: int = state as int;
        proof {
            lemma_word_sum_nonneg(s, 0, 5);
            lemma_word_sum_nonneg(s, 6, 10);
        }
        while state > 0xffff
            invariant
                state >= 1,
                ones_fold(state as int) == ones_fold(start),
            decreases state,
        {
            state = state - 0xffff;
        }
        assert(state <= 0xffff ==> ((!state) as u16) == (0xffffu32 - state) as u16) by (bit_vector);
        !state as u16
    }

    /// Parses a buffer into an IPv4 header and payload.
    pub fn parse(buf: Buffer) -> (r: Result<(Ipv4Header, Buffer), Ipv4ParseError>)
        ensures
            parse_result_view(r) == parse_ipv4_spec(buf@),
    {
        let ghost s = buf@;
        let bytes: &[u8] = buf.as_slice();
        // The datagram should be as big as the header.
        if bytes.len() < IPV4_DATAGRAM_MIN_SIZE as usize {
            return Err(Ipv4ParseError::DatagramTooSmall);
        }
        // IP version number.
        let version: u8 = bytes[0] >> 4;
        if version != IPV4_VERSION {
            return Err(Ipv4ParseError::UnsupportedVersion);
        }
        // Internet header length.
        let ihl: u8 = bytes[0] & 0xF;
        let hdr_size: usize = (ihl as usize) * 4;
        if hdr_size < IPV4_HEADER_MIN_SIZE as usize {
            return Err(Ipv4ParseError::IhlTooSmall);
        }
        if bytes.len() < hdr_size {
            return Err(Ipv4ParseError::HeaderDoesNotFit);
        }
        // Differentiated services code point and explicit congestion notification.
        let dscp: u8 = bytes[1] >> 2;
        let ecn: u8 = bytes[1] & 3;
        // Total length.
        let total_length: u16 = read_u16_at(bytes, 2);
        if (total_length as usize) < hdr_size {
            return Err(Ipv4ParseError::SmallerThanHeader);
        }
        // There may be padding bytes in the buffer.
        if (total_length as usize) > bytes.len() {
            return Err(Ipv4ParseError::SizeMismatch);
        }
        // Identification.
        let identification: u16 = read_u16_at(bytes, 4);
        // Control flags.
        let flags: u8 = bytes[6] >> 5;
        // Don't accept evil datagrams (see RFC 3514).
        if flags & IPV4_CTRL_FLAG_EVIL != 0 {
            return Err(Ipv4ParseError::Evil);
        }
        // Fragmentation is not supported.
        if flags & IPV4_CTRL_FLAG_MF != 0 {
            return Err(Ipv4ParseError::MoreFragments);
        }
        // Fragment offset.
        let fragment_offset: u16 = read_u16_at(bytes, 6) & 0x1fff;
        if fragment_offset != 0 {
            return Err(Ipv4ParseError::FragmentOffset);
        }
        // Time to live.
        let time_to_live: u8 = bytes[8];
        if time_to_live == 0 {
            return Err(Ipv4ParseError::TooOld);
        }
        // Protocol.
        let protocol: u8 = bytes[9];
        if !is_known_protocol(protocol) {
            return Err(Ipv4ParseError::UnsupportedProtocol);
        }
        // Header checksum.
        let header_checksum: u16 = read_u16_at(bytes, 10);
        if header_checksum == 0xffff {
            return Err(Ipv4ParseError::ChecksumInvalid);
        }
        if header_checksum != Self::compute_checksum(bytes) {
            return Err(Ipv4ParseError::ChecksumMismatch);
        }
        // Source and destination addresses.
        let src_addr: Ipv4Addr = Ipv4Addr::from_u32(read_u32_at(bytes, 12));
        let dst_addr: Ipv4Addr = Ipv4Addr::from_u32(read_u32_at(bytes, 16));
        proof {
            lemma_octets_of_u32(src_addr.octets, s[12], s[13], s[14], s[15]);
            lemma_octets_of_u32(dst_addr.octets, s[16], s[17], s[18], s[19]);
        }
        // Truncate datagram.
        let padding_bytes: usize = bytes.len() - total_length as usize;
        let mut buf = buf;
        buf.adjust(hdr_size);
        buf.trim(padding_bytes);
        let header = Ipv4Header {
            version,
            ihl,
            dscp,
            ecn,
            total_length,
            identification,
            flags,
            fragment_offset,
            ttl: time_to_live,
            protocol,
            header_checksum,
            src_addr,
            dst_addr,
        };
        assert(buf@ =~= s.subrange(hdr_size as int, total_length as int));
        Ok((header, buf))
    }

    /// Serializes the target IPv4 header into the 20 bytes of `buf`, for a datagram
    /// carrying `payload_len` bytes of payload.
    pub fn serialize(&self, buf: &mut [u8], payload_len: usize)
        requires
            old(buf)@.len() == 20,
            20 + (payload_len as u16) <= u16::MAX,
        ensures
            final(buf)@ == serialize_ipv4_spec(*self, payload_len),
    {
        // Version + IHL.
        buf[0] = (self.version << 4) | self.ihl;
        // DSCP + ECN.
        buf[1] = (self.dscp << 2) | (self.ecn & 3);
        // Total length.
        write_u16_at(buf, 2, IPV4_HEADER_MIN_SIZE + (payload_len as u16));
        // Identification.
        write_u16_at(buf, 4, self.identification);
        // Flags and fragment offset.
        write_u16_at(buf, 6, (self.flags as u16) << 13 | self.fragment_offset & 0x1fff);
        // Time to live.
        buf[8] = self.ttl;
        // Protocol.
        buf[9] = self.protocol;
        // The checksum (bytes 10..12) is written once the rest of the header is.
        // Source address.
        let src = self.src_addr.octets();
        buf[12] = src[0];
        buf[13] = src[1];
        buf[14] = src[2];
        buf[15] = src[3];
        // Destination address.
        let dst = self.dst_addr.octets();
        buf[16] = dst[0];
        buf[17] = dst[1];
        buf[18] = dst[2];
        buf[19] = dst[3];
        let ghost pre = ipv4_bytes_unchecked(*self, payload_len);
        proof {
            lemma_ipv4_checksum_depends(buf@, pre);
        }
        // Header checksum.
        let checksum: u16 = Self::compute_checksum(buf);
        write_u16_at(buf, 10, checksum);
        assert(final(buf)@ =~= serialize_ipv4_spec(*self, payload_len));
    }
}

proof fn lemma_octets_of_u32(o: [u8; 4], a: u8, b: u8, c: u8, d: u8)
    requires
        octets_to_u32(o) == a as int * 0x100_0000 + b as int * 0x1_0000 + c as int * 0x100
            + d as int,
    ensures
        o == [a, b, c, d],
{
    assert(o[0] == a && o[1] == b && o[2] == c && o[3] == d) by (nonlinear_arith)
        requires
            o[0] as int * 0x100_0000 + o[1] as int * 0x1_0000 + o[2] as int * 0x100 + o[3] as int
                == a as int * 0x100_0000 + b as int * 0x1_0000 + c as int * 0x100 + d as int,
            o[0] <= 255, o[1] <= 255, o[2] <= 255, o[3] <= 255,
            a <= 255, b <= 255, c <= 255, d <= 255,
    ;
    assert(o =~= [a, b, c, d]);
}

} // verus!
