//! Little-endian encoding and decoding of 16- and 32-bit unsigned values
//! inside byte sequences.  Every multi-byte field of the model buffer format
//! goes through these helpers.

use vstd::prelude::*;

verus! {

/// The 16-bit value stored little-endian at `pos` in `b`.
pub open spec fn le16_at(b: Seq<u8>, pos: int) -> u16 {
    (b[pos] + 256 * b[pos + 1]) as u16
}

/// The 32-bit value stored little-endian at `pos` in `b`.
pub open spec fn le32_at(b: Seq<u8>, pos: int) -> u32 {
    (b[pos] + 256 * b[pos + 1] + 65536 * b[pos + 2] + 16777216 * b[pos + 3]) as u32
}

/// The two little-endian bytes of a 16-bit value.
pub open spec fn le16_bytes(x: u16) -> Seq<u8> {
    seq![(x % 256) as u8, (x / 256) as u8]
}

/// The four little-endian bytes of a 32-bit value.
pub open spec fn le32_bytes(x: u32) -> Seq<u8> {
    seq![
        (x % 256) as u8,
        ((x / 256) % 256) as u8,
        ((x / 65536) % 256) as u8,
        (x / 16777216) as u8,
    ]
}

/// Decoding the two little-endian bytes of `x` gives back `x`.
pub proof fn lemma_le16_roundtrip(b: Seq<u8>, pos: int, x: u16)
    requires
        0 <= pos,
        pos + 2 <= b.len(),
        b[pos] == le16_bytes(x)[0],
        b[pos + 1] == le16_bytes(x)[1],
    ensures
        le16_at(b, pos) == x,
{
}

/// Decoding the four little-endian bytes of `x` gives back `x`.
pub proof fn lemma_le32_roundtrip(b: Seq<u8>, pos: int, x: u32)
    requires
        0 <= pos,
        pos + 4 <= b.len(),
        b[pos] == le32_bytes(x)[0],
        b[pos + 1] == le32_bytes(x)[1],
        b[pos + 2] == le32_bytes(x)[2],
        b[pos + 3] == le32_bytes(x)[3],
    ensures
        le32_at(b, pos) == x,
{
}

/// Reads the 16-bit little-endian value at `pos`.
pub fn read_le16(b: &Vec<u8>, pos: usize) -> (r: u16)
    requires
        pos + 2 <= b@.len(),
    ensures
        r == le16_at(b@, pos as int),
{
    let _n: usize = b.len();
    (b[pos] as u16) + 256 * (b[pos + 1] as u16)
}

/// Reads the 32-bit little-endian value at `pos`.
pub fn read_le32(b: &Vec<u8>, pos: usize) -> (r: u32)
    requires
        pos + 4 <= b@.len(),
    ensures
        r == le32_at(b@, pos as int),
{
    let _n: usize = b.len();
    (b[pos] as u32) + 256 * (b[pos + 1] as u32) + 65536 * (b[pos + 2] as u32) + 16777216 * (b[pos
        + 3] as u32)
}

/// Appends the two little-endian bytes of `x`.
pub fn push_le16(out: &mut Vec<u8>, x: u16)
    ensures
        final(out)@ == old(out)@ + le16_bytes(x),
{
    out.push((x % 256) as u8);
    out.push((x / 256) as u8);
    proof {
        assert(out@ =~= old(out)@ + le16_bytes(x));
    }
}

/// Appends the four little-endian bytes of `x`.
pub fn push_le32(out: &mut Vec<u8>, x: u32)
    ensures
        final(out)@ == old(out)@ + le32_bytes(x),
{
    out.push((x % 256) as u8);
    out.push(((x / 256) % 256) as u8);
    out.push(((x / 65536) % 256) as u8);
    out.push((x / 16777216) as u8);
    proof {
        assert(out@ =~= old(out)@ + le32_bytes(x));
    }
}

} // verus!
