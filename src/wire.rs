//! Big-endian field layout shared by the RTP and RTCP wire formats.
use vstd::prelude::*;

verus! {

/// The 16-bit big-endian value of the two bytes of `s` at `i`.
pub open spec fn be16(s: Seq<u8>, i: int) -> int {
    s[i] * 0x100 + s[i + 1]
}

/// The 32-bit big-endian value of the four bytes of `s` at `i`.
pub open spec fn be32(s: Seq<u8>, i: int) -> int {
    be16(s, i) * 0x1_0000 + be16(s, i + 2)
}

/// The two big-endian bytes of `v`.
pub open spec fn be16_bytes(v: int) -> Seq<u8> {
    seq![(v / 0x100) as u8, (v % 0x100) as u8]
}

/// The four big-endian bytes of `v`.
pub open spec fn be32_bytes(v: int) -> Seq<u8> {
    be16_bytes(v / 0x1_0000) + be16_bytes(v % 0x1_0000)
}

/// The bit fields of one header byte, as arithmetic on its value.
pub proof fn lemma_byte_fields(b: u8)
    ensures
        b >> 6u8 == b / 64,
        b >> 4u8 == b / 16,
        (b & 0x20u8 != 0) <==> (b / 32) % 2 == 1,
        (b & 0x10u8 != 0) <==> (b / 16) % 2 == 1,
        (b & 0x80u8 != 0) <==> b >= 128,
        b & 0x0fu8 == b % 16,
        b & 0x1fu8 == b % 32,
        b & 0x7fu8 == b % 128,
{
    assert(b >> 6u8 == b / 64) by (bit_vector);
    assert(b >> 4u8 == b / 16) by (bit_vector);
    assert((b & 0x20u8 != 0) <==> (b / 32) % 2 == 1) by (bit_vector);
    assert((b & 0x10u8 != 0) <==> (b / 16) % 2 == 1) by (bit_vector);
    assert((b & 0x80u8 != 0) <==> b >= 128) by (bit_vector);
    assert(b & 0x0fu8 == b % 16) by (bit_vector);
    assert(b & 0x1fu8 == b % 32) by (bit_vector);
    assert(b & 0x7fu8 == b % 128) by (bit_vector);
}

/// Reads the 16-bit big-endian value at `at`.
pub fn read_be16(buf: &[u8], at: usize) -> (r: u16)
    requires
        at + 2 <= buf.len(),
    ensures
        r == be16(buf@, at as int),
{
    let hi = buf[at];
    let lo = buf[at + 1];
    assert(((hi as u16) << 8u16 | lo as u16) == hi * 0x100 + lo) by (bit_vector);
    (hi as u16) << 8 | (lo as u16)
}

/// Reads the 32-bit big-endian value at `at`.
pub fn read_be32(buf: &[u8], at: usize) -> (r: u32)
    requires
        at + 4 <= buf.len(),
    ensures
        r == be32(buf@, at as int),
{
    let hi = read_be16(buf, at);
    let lo = read_be16(buf, at + 2);
    assert(((hi as u32) << 16u32 | lo as u32) == hi * 0x1_0000 + lo) by (bit_vector);
    (hi as u32) << 16 | (lo as u32)
}

/// Two nibbles packed into one byte.
pub proof fn lemma_nibbles(hi: u8, lo: u8)
    requires
        hi < 16,
        lo < 16,
    ensures
        ((hi * 16) as u8) | lo == hi * 16 + lo,
        (hi * 16) as u8 & 0x0fu8 == 0,
{
    assert(hi < 16 && lo < 16 ==> ((hi * 16) as u8) | lo == hi * 16 + lo) by (bit_vector);
    assert(hi < 16 ==> (hi * 16) as u8 & 0x0fu8 == 0) by (bit_vector);
}

/// Shifting an id into the high nibble keeps its low four bits.
pub proof fn lemma_high_nibble(id: u8)
    ensures
        id << 4u8 == (id % 16) * 16,
{
    assert(id << 4u8 == (id % 16) * 16) by (bit_vector);
}

/// Setting one flag bit of a byte whose bit is clear adds its value.
pub proof fn lemma_set_flag(b: u8, bit: u8)
    requires
        bit == 0x10 || bit == 0x20,
    ensures
        (b | bit) / 64 == b / 64,
        (b | bit) % 16 == b % 16,
        bit == 0x10 ==> ((b | bit) / 16) % 2 == 1 && ((b | bit) / 32) % 2 == (b / 32) % 2,
        bit == 0x20 ==> ((b | bit) / 32) % 2 == 1 && ((b | bit) / 16) % 2 == (b / 16) % 2,
{
    assert(bit == 0x10u8 || bit == 0x20u8 ==> (b | bit) / 64 == b / 64 && (b | bit) % 16 == b % 16) by (bit_vector);
    assert(bit == 0x10u8 ==> ((b | bit) / 16) % 2 == 1 && ((b | bit) / 32) % 2 == (b / 32) % 2) by (bit_vector);
    assert(bit == 0x20u8 ==> ((b | bit) / 32) % 2 == 1 && ((b | bit) / 16) % 2 == (b / 16) % 2) by (bit_vector);
}

/// Setting the high bit of a byte below 128.
pub proof fn lemma_high_bit(b: u8)
    ensures
        0x80u8 | b == 128 + b % 128,
{
    assert(0x80u8 | b == 128 + b % 128) by (bit_vector);
}

} // verus!
