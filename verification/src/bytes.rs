//! Little-endian byte decoding and encoding.
//!
//! Every multi-byte value in the transducer layout is little-endian
//! regardless of host byte order, so all reads go through an explicit
//! byte-cursor decode: read bytes, reassemble the integer.

use vstd::prelude::*;

verus! {

/// The 16-bit little-endian value held at `pos` in `s`.
pub open spec fn le16(s: Seq<u8>, pos: int) -> u16 {
    (s[pos] + 0x100 * s[pos + 1]) as u16
}

/// The 32-bit little-endian value held at `pos` in `s`.
pub open spec fn le32(s: Seq<u8>, pos: int) -> u32 {
    (s[pos] + 0x100 * s[pos + 1] + 0x1_0000 * s[pos + 2] + 0x100_0000 * s[pos + 3]) as u32
}

/// Read a little-endian `u16` from `buf` at `pos`.
pub fn read_u16_le(buf: &Vec<u8>, pos: usize) -> (r: u16)
    requires
        pos + 2 <= buf@.len(),
    ensures
        r == le16(buf@, pos as int),
{
    let len: usize = buf.len();
    assert(pos + 2 <= len);
    let b0 = buf[pos];
    let b1 = buf[pos + 1];
    b0 as u16 + 0x100 * (b1 as u16)
}

/// Read a little-endian `u32` from `buf` at `pos`.
pub fn read_u32_le(buf: &Vec<u8>, pos: usize) -> (r: u32)
    requires
        pos + 4 <= buf@.len(),
    ensures
        r == le32(buf@, pos as int),
{
    let len: usize = buf.len();
    assert(pos + 4 <= len);
    let b0 = buf[pos];
    let b1 = buf[pos + 1];
    let b2 = buf[pos + 2];
    let b3 = buf[pos + 3];
    b0 as u32 + 0x100 * (b1 as u32) + 0x1_0000 * (b2 as u32) + 0x100_0000 * (b3 as u32)
}

/// The two little-endian bytes of `x`, low byte first.
pub open spec fn u16_le_bytes(x: u16) -> Seq<u8> {
    seq![(x % 0x100) as u8, (x / 0x100) as u8]
}

/// The four little-endian bytes of `x`, low byte first.
pub open spec fn u32_le_bytes(x: u32) -> Seq<u8> {
    seq![
        (x % 0x100) as u8,
        ((x / 0x100) % 0x100) as u8,
        ((x / 0x1_0000) % 0x100) as u8,
        ((x / 0x100_0000) % 0x100) as u8,
    ]
}

/// Append the two little-endian bytes of `x` to `out`.
pub fn push_u16_le(out: &mut Vec<u8>, x: u16)
    ensures
        final(out)@ == old(out)@ + u16_le_bytes(x),
{
    out.push((x % 0x100) as u8);
    out.push((x / 0x100) as u8);
    proof {
        assert(final(out)@ =~= old(out)@ + u16_le_bytes(x));
    }
}

/// Append the four little-endian bytes of `x` to `out`.
pub fn push_u32_le(out: &mut Vec<u8>, x: u32)
    ensures
        final(out)@ == old(out)@ + u32_le_bytes(x),
{
    out.push((x % 0x100) as u8);
    out.push(((x / 0x100) % 0x100) as u8);
    out.push(((x / 0x1_0000) % 0x100) as u8);
    out.push(((x / 0x100_0000) % 0x100) as u8);
    proof {
        assert(final(out)@ =~= old(out)@ + u32_le_bytes(x));
    }
}

/// Decoding the two little-endian bytes of `x` gives back `x`.
pub proof fn lemma_le16_round_trip(s: Seq<u8>, pos: int, x: u16)
    requires
        0 <= pos,
        pos + 2 <= s.len(),
        s[pos] == (x % 0x100) as u8,
        s[pos + 1] == (x / 0x100) as u8,
    ensures
        le16(s, pos) == x,
{
}

/// Decoding the four little-endian bytes of `x` gives back `x`.
pub proof fn lemma_le32_round_trip(s: Seq<u8>, pos: int, x: u32)
    requires
        0 <= pos,
        pos + 4 <= s.len(),
        s[pos] == (x % 0x100) as u8,
        s[pos + 1] == ((x / 0x100) % 0x100) as u8,
        s[pos + 2] == ((x / 0x1_0000) % 0x100) as u8,
        s[pos + 3] == ((x / 0x100_0000) % 0x100) as u8,
    ensures
        le32(s, pos) == x,
{
}

} // verus!
