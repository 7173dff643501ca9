//! Little-endian integers in byte buffers.

use vstd::prelude::*;

verus! {

/// The unsigned 32-bit integer stored little-endian at `at`.
pub open spec fn le_u32(bytes: Seq<u8>, at: int) -> int {
    bytes[at] as int + 256 * (bytes[at + 1] as int) + 65536 * (bytes[at + 2] as int) + 16777216
        * (bytes[at + 3] as int)
}

/// The four bytes that store `v` little-endian, for `0 <= v < 2^32`.
pub open spec fn u32_le_bytes(v: int) -> Seq<u8> {
    seq![
        (v % 256) as u8,
        ((v / 256) % 256) as u8,
        ((v / 65536) % 256) as u8,
        ((v / 16777216) % 256) as u8,
    ]
}

/// The two bytes that store `v` little-endian, for `0 <= v < 2^16`.
pub open spec fn u16_le_bytes(v: int) -> Seq<u8> {
    seq![(v % 256) as u8, ((v / 256) % 256) as u8]
}

/// The two bytes that store the signed 16-bit `v` little-endian in two's
/// complement.
pub open spec fn i16_le_bytes(v: int) -> Seq<u8> {
    u16_le_bytes(if v < 0 { v + 65536 } else { v })
}

/// Reading back what was stored gives the stored value.
pub proof fn lemma_le_u32_round_trip(v: int)
    requires
        0 <= v < 0x1_0000_0000,
    ensures
        u32_le_bytes(v).len() == 4,
        le_u32(u32_le_bytes(v), 0) == v,
{
}

/// Reads the unsigned 32-bit integer stored little-endian at `at`, or nothing
/// where fewer than four bytes follow `at`.
pub fn read_u32_le(bytes: &[u8], at: usize) -> (r: Option<u32>)
    ensures
        r is Some <==> at + 4 <= bytes@.len(),
        r is Some ==> r.unwrap() as int == le_u32(bytes@, at as int),
{
    if bytes.len() < 4 || at > bytes.len() - 4 {
        return None;
    }
    let b0: u32 = bytes[at] as u32;
    let b1: u32 = bytes[at + 1] as u32;
    let b2: u32 = bytes[at + 2] as u32;
    let b3: u32 = bytes[at + 3] as u32;
    Some(b0 + 256 * b1 + 65536 * b2 + 16777216 * b3)
}

/// Appends `v` as four little-endian bytes.
pub fn push_u32_le(out: &mut Vec<u8>, v: u32)
    ensures
        final(out)@ == old(out)@ + u32_le_bytes(v as int),
{
    out.push((v % 256) as u8);
    out.push(((v / 256) % 256) as u8);
    out.push(((v / 65536) % 256) as u8);
    out.push(((v / 16777216) % 256) as u8);
    assert(out@ =~= old(out)@ + u32_le_bytes(v as int));
}

/// Appends `v` as two little-endian bytes.
pub fn push_u16_le(out: &mut Vec<u8>, v: u16)
    ensures
        final(out)@ == old(out)@ + u16_le_bytes(v as int),
{
    out.push((v % 256) as u8);
    out.push(((v / 256) % 256) as u8);
    assert(out@ =~= old(out)@ + u16_le_bytes(v as int));
}

/// The two little-endian bytes of a signed 16-bit sample.
pub fn sample_le_bytes(v: i16) -> (r: [u8; 2])
    ensures
        r@ == i16_le_bytes(v as int),
{
    let u: u32 = if v < 0 {
        (v as i32 + 65536) as u32
    } else {
        v as u32
    };
    let r: [u8; 2] = [(u % 256) as u8, ((u / 256) % 256) as u8];
    assert(r@ =~= i16_le_bytes(v as int));
    r
}

} // verus!
