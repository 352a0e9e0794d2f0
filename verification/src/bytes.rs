//! Little- and big-endian integer encodings over byte sequences.
use vstd::prelude::*;

verus! {

/// Little-endian 16-bit value at `o`.
pub open spec fn le16(d: Seq<u8>, o: int) -> int {
    d[o] + 256 * d[o + 1]
}

/// Little-endian 32-bit value at `o`.
pub open spec fn le32(d: Seq<u8>, o: int) -> int {
    d[o] + 0x100 * d[o + 1] + 0x1_0000 * d[o + 2] + 0x100_0000 * d[o + 3]
}

/// Little-endian 64-bit value at `o`.
pub open spec fn le64(d: Seq<u8>, o: int) -> int {
    le32(d, o) + 0x1_0000_0000 * le32(d, o + 4)
}

/// Big-endian 64-bit value at `o`.
pub open spec fn be64(d: Seq<u8>, o: int) -> int {
    d[o] * 0x100_0000_0000_0000 + d[o + 1] * 0x1_0000_0000_0000 + d[o + 2] * 0x100_0000_0000
        + d[o + 3] * 0x1_0000_0000 + d[o + 4] * 0x100_0000 + d[o + 5] * 0x1_0000 + d[o + 6] * 0x100 + d[o + 7]
}

/// Signed reading of a 32-bit two's complement pattern.
pub open spec fn as_i32(u: int) -> int {
    if u >= 0x8000_0000 { u - 0x1_0000_0000 } else { u }
}

/// The two bytes of `v` (below `2^16`), least significant first.
pub open spec fn le16_bytes(v: int) -> Seq<u8> {
    seq![(v % 256) as u8, (v / 256 % 256) as u8]
}

/// The four bytes of `v` (below `2^32`), least significant first.
pub open spec fn le32_bytes(v: int) -> Seq<u8> {
    seq![(v % 0x100) as u8, (v / 0x100 % 0x100) as u8, (v / 0x1_0000 % 0x100) as u8, (v / 0x100_0000 % 0x100) as u8]
}

/// The eight bytes of `v`, most significant first.
pub open spec fn be64_bytes(v: u64) -> Seq<u8> {
    seq![
        (v / 0x100_0000_0000_0000 % 0x100) as u8,
        (v / 0x1_0000_0000_0000 % 0x100) as u8,
        (v / 0x100_0000_0000 % 0x100) as u8,
        (v / 0x1_0000_0000 % 0x100) as u8,
        (v / 0x100_0000 % 0x100) as u8,
        (v / 0x1_0000 % 0x100) as u8,
        (v / 0x100 % 0x100) as u8,
        (v % 0x100) as u8
    ]
}

pub fn read_le16(d: &[u8], o: usize) -> (v: u16)
    requires
        o + 2 <= d@.len(),
    ensures
        v == le16(d@, o as int),
{
    d[o] as u16 + (d[o + 1] as u16) * 256
}

pub fn read_le32(d: &[u8], o: usize) -> (v: u32)
    requires
        o + 4 <= d@.len(),
    ensures
        v == le32(d@, o as int),
{
    d[o] as u32 + (d[o + 1] as u32) * 0x100 + (d[o + 2] as u32) * 0x1_0000 + (d[o + 3] as u32) * 0x100_0000
}

pub fn read_le64(d: &[u8], o: usize) -> (v: u64)
    requires
        o + 8 <= d@.len(),
    ensures
        v == le64(d@, o as int),
{
    let _len = d.len();
    let lo = read_le32(d, o) as u64;
    let hi = read_le32(d, o + 4) as u64;
    lo + hi * 0x1_0000_0000
}

pub fn read_be64(d: &[u8], o: usize) -> (v: u64)
    requires
        o + 8 <= d@.len(),
    ensures
        v == be64(d@, o as int),
{
    (d[o] as u64) * 0x100_0000_0000_0000 + (d[o + 1] as u64) * 0x1_0000_0000_0000 + (d[o + 2] as u64) * 0x100_0000_0000
        + (d[o + 3] as u64) * 0x1_0000_0000 + (d[o + 4] as u64) * 0x100_0000 + (d[o + 5] as u64) * 0x1_0000
        + (d[o + 6] as u64) * 0x100 + d[o + 7] as u64
}

/// Reads a little-endian `i32`.
pub fn read_le_i32(d: &[u8], o: usize) -> (v: i32)
    requires
        o + 4 <= d@.len(),
    ensures
        v == as_i32(le32(d@, o as int)),
{
    let u = read_le32(d, o);
    if u < 0x8000_0000 {
        u as i32
    } else {
        i32::MIN + (u - 0x8000_0000) as i32
    }
}

pub fn push_le16(out: &mut Vec<u8>, v: u16)
    ensures
        final(out)@ == old(out)@ + le16_bytes(v as int),
{
    out.push((v % 256) as u8);
    out.push((v / 256) as u8);
    assert(final(out)@ =~= old(out)@ + le16_bytes(v as int));
}

pub fn push_le32(out: &mut Vec<u8>, v: u32)
    ensures
        final(out)@ == old(out)@ + le32_bytes(v as int),
{
    out.push((v % 0x100) as u8);
    out.push((v / 0x100 % 0x100) as u8);
    out.push((v / 0x1_0000 % 0x100) as u8);
    out.push((v / 0x100_0000 % 0x100) as u8);
    assert(final(out)@ =~= old(out)@ + le32_bytes(v as int));
}

pub fn push_be64(out: &mut Vec<u8>, v: u64)
    ensures
        final(out)@ == old(out)@ + be64_bytes(v),
{
    out.push((v / 0x100_0000_0000_0000 % 0x100) as u8);
    out.push((v / 0x1_0000_0000_0000 % 0x100) as u8);
    out.push((v / 0x100_0000_0000 % 0x100) as u8);
    out.push((v / 0x1_0000_0000 % 0x100) as u8);
    out.push((v / 0x100_0000 % 0x100) as u8);
    out.push((v / 0x1_0000 % 0x100) as u8);
    out.push((v / 0x100 % 0x100) as u8);
    out.push((v % 0x100) as u8);
    assert(final(out)@ =~= old(out)@ + be64_bytes(v));
}

/// `le32` reads back what `le32_bytes` writes.
pub proof fn lemma_le32_roundtrip(v: int)
    requires
        0 <= v < 0x1_0000_0000,
    ensures
        le32(le32_bytes(v), 0) == v,
{
}

} // verus!
