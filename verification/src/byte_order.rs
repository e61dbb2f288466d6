//! Big-endian (network order) integer access to byte buffers, through `byteorder`.

use byteorder::{ByteOrder, NetworkEndian};
use vstd::prelude::*;

verus! {

/// The big-endian 16-bit number stored at `s[off..off + 2]`.
pub open spec fn be16(s: Seq<u8>, off: int) -> int {
    s[off] as int * 0x100 + s[off + 1] as int
}

/// The big-endian 32-bit number stored at `s[off..off + 4]`.
pub open spec fn be32(s: Seq<u8>, off: int) -> int {
    s[off] as int * 0x100_0000 + s[off + 1] as int * 0x1_0000 + s[off + 2] as int * 0x100
        + s[off + 3] as int
}

/// `s` with the big-endian bytes of the 16-bit value `n` written at `off`.
pub open spec fn put_be16(s: Seq<u8>, off: int, n: u16) -> Seq<u8> {
    s.update(off, (n / 0x100) as u8).update(off + 1, (n % 0x100) as u8)
}

/// `s` with the big-endian bytes of the 32-bit value `n` written at `off`.
pub open spec fn put_be32(s: Seq<u8>, off: int, n: u32) -> Seq<u8> {
    s.update(off, (n / 0x100_0000) as u8).update(off + 1, ((n / 0x1_0000) % 0x100) as u8).update(
        off + 2,
        ((n / 0x100) % 0x100) as u8,
    ).update(off + 3, (n % 0x100) as u8)
}

/// Calls `NetworkEndian::read_u16` on `buf[off..off + 2]`. byteorder reads the first
/// two bytes of its argument as a big-endian number (and panics on fewer than two).
#[verifier::external_body]
pub(crate) fn read_u16_at(buf: &[u8], off: usize) -> (n: u16)
    requires
        off + 2 <= buf@.len(),
    ensures
        n as int == be16(buf@, off as int),
{
    NetworkEndian::read_u16(&buf[off..off + 2])
}

/// Calls `NetworkEndian::read_u32` on `buf[off..off + 4]`. byteorder reads the first
/// four bytes of its argument as a big-endian number (and panics on fewer than four).
#[verifier::external_body]
pub(crate) fn read_u32_at(buf: &[u8], off: usize) -> (n: u32)
    requires
        off + 4 <= buf@.len(),
    ensures
        n as int == be32(buf@, off as int),
{
    NetworkEndian::read_u32(&buf[off..off + 4])
}

/// Calls `NetworkEndian::write_u16` on `buf[off..off + 2]`. byteorder writes the
/// big-endian bytes of `n` into the first two bytes of its argument and nothing else.
#[verifier::external_body]
pub(crate) fn write_u16_at(buf: &mut [u8], off: usize, n: u16)
    requires
        off + 2 <= old(buf)@.len(),
    ensures
        final(buf)@ == put_be16(old(buf)@, off as int, n),
{
    NetworkEndian::write_u16(&mut buf[off..off + 2], n)
}

/// Calls `NetworkEndian::write_u32` on `buf[off..off + 4]`. byteorder writes the
/// big-endian bytes of `n` into the first four bytes of its argument and nothing else.
#[verifier::external_body]
pub(crate) fn write_u32_at(buf: &mut [u8], off: usize, n: u32)
    requires
        off + 4 <= old(buf)@.len(),
    ensures
        final(buf)@ == put_be32(old(buf)@, off as int, n),
{
    NetworkEndian::write_u32(&mut buf[off..off + 4], n)
}

/// Reading back what was written: the big-endian bytes of `n` read as a number give `n`.
pub proof fn lemma_be16_roundtrip(s: Seq<u8>, off: int, n: u16)
    requires
        0 <= off,
        off + 2 <= s.len(),
    ensures
        put_be16(s, off, n).len() == s.len(),
        be16(put_be16(s, off, n), off) == n as int,
        forall|i: int| 0 <= i < s.len() && (i < off || i >= off + 2) ==> put_be16(s, off, n)[i] == s[i],
{
}

/// Reading back what was written, for 32-bit numbers.
pub proof fn lemma_be32_roundtrip(s: Seq<u8>, off: int, n: u32)
    requires
        0 <= off,
        off + 4 <= s.len(),
    ensures
        put_be32(s, off, n).len() == s.len(),
        be32(put_be32(s, off, n), off) == n as int,
        forall|i: int| 0 <= i < s.len() && (i < off || i >= off + 4) ==> put_be32(s, off, n)[i] == s[i],
{
}

} // verus!
