use byteorder::ByteOrder;
use vstd::prelude::*;

verus! {

/// The little-endian 16-bit value of `b[i..i + 2]`.
pub open spec fn le_u16(b: Seq<u8>, i: int) -> int {
    b[i] + 256 * b[i + 1]
}

/// The little-endian 32-bit value of `b[i..i + 4]`.
pub open spec fn le_u32(b: Seq<u8>, i: int) -> int {
    b[i] + 256 * b[i + 1] + 65536 * b[i + 2] + 16777216 * b[i + 3]
}

/// The two little-endian bytes of `v`.
pub open spec fn u16_le_bytes(v: u16) -> Seq<u8> {
    seq![(v % 256) as u8, (v / 256) as u8]
}

/// The four little-endian bytes of `v`.
pub open spec fn u32_le_bytes(v: u32) -> Seq<u8> {
    seq![
        (v % 256) as u8,
        ((v / 256) % 256) as u8,
        ((v / 65536) % 256) as u8,
        (v / 16777216) as u8,
    ]
}

/// `s` with the bytes from `pos` on replaced by `b`, length kept.
pub open spec fn splice(s: Seq<u8>, pos: int, b: Seq<u8>) -> Seq<u8> {
    s.subrange(0, pos) + b + s.subrange(pos + b.len(), s.len() as int)
}

/// Relies on byteorder's `LittleEndian::read_u16`: the first two bytes of
/// its argument, little-endian (it panics on fewer than two).
#[verifier::external_body]
pub(crate) fn read_le_u16(data: &[u8], pos: usize) -> (r: u16)
    requires
        pos + 2 <= data@.len(),
    ensures
        r == le_u16(data@, pos as int),
{
    byteorder::LittleEndian::read_u16(&data[pos..])
}

/// Relies on byteorder's `LittleEndian::read_u32`: the first four bytes of
/// its argument, little-endian (it panics on fewer than four).
#[verifier::external_body]
pub(crate) fn read_le_u32(data: &[u8], pos: usize) -> (r: u32)
    requires
        pos + 4 <= data@.len(),
    ensures
        r == le_u32(data@, pos as int),
{
    byteorder::LittleEndian::read_u32(&data[pos..])
}

/// Relies on byteorder's `LittleEndian::write_u16`: the two little-endian
/// bytes of `n` into the first two of its slice (it panics on fewer).
#[verifier::external_body]
pub(crate) fn write_le_u16(buf: &mut Vec<u8>, pos: usize, n: u16)
    requires
        pos + 2 <= old(buf)@.len(),
    ensures
        final(buf)@ == splice(old(buf)@, pos as int, u16_le_bytes(n)),
{
    byteorder::LittleEndian::write_u16(&mut buf[pos..], n)
}

/// Relies on byteorder's `LittleEndian::write_u32`: the four little-endian
/// bytes of `n` into the first four of its slice (it panics on fewer).
#[verifier::external_body]
pub(crate) fn write_le_u32(buf: &mut Vec<u8>, pos: usize, n: u32)
    requires
        pos + 4 <= old(buf)@.len(),
    ensures
        final(buf)@ == splice(old(buf)@, pos as int, u32_le_bytes(n)),
{
    byteorder::LittleEndian::write_u32(&mut buf[pos..], n)
}

/// Reading back the four bytes of a value gives the value.
pub proof fn lemma_le_u32_of_bytes(v: u32)
    ensures
        le_u32(u32_le_bytes(v), 0) == v,
{
    let b = u32_le_bytes(v);
    assert(b[0] + 256 * b[1] + 65536 * b[2] + 16777216 * b[3] == v) by (nonlinear_arith)
        requires
            b[0] == v % 256,
            b[1] == (v / 256) % 256,
            b[2] == (v / 65536) % 256,
            b[3] == v / 16777216,
            v < 0x1_0000_0000,
    ;
}

/// Reading back the two bytes of a value gives the value.
pub proof fn lemma_le_u16_of_bytes(v: u16)
    ensures
        le_u16(u16_le_bytes(v), 0) == v,
{
}

/// Two splices, the second right after the first, are one splice of both.
pub proof fn lemma_splice_after(s: Seq<u8>, pos: int, a: Seq<u8>, b: Seq<u8>)
    requires
        0 <= pos,
        pos + a.len() + b.len() <= s.len(),
    ensures
        splice(splice(s, pos, a), pos + a.len(), b) == splice(s, pos, a + b),
{
    assert(splice(splice(s, pos, a), pos + a.len(), b) =~= splice(s, pos, a + b));
}

} // verus!
