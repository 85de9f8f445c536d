//! Writes into a byte buffer through `bytes::BufMut` on a sub-slice.
use vstd::prelude::*;
use bytes::BufMut;
use crate::wire::{be16_bytes, be32_bytes};

verus! {

/// `s` with the bytes from `at` on replaced by `w`.
pub open spec fn splice(s: Seq<u8>, at: int, w: Seq<u8>) -> Seq<u8> {
    s.subrange(0, at) + w + s.subrange(at + w.len(), s.len() as int)
}

/// `n` copies of `v`.
pub open spec fn repeat(v: u8, n: nat) -> Seq<u8> {
    Seq::new(n, |i: int| v)
}

/// Relies on bytes::BufMut::put_u8 for `&mut [u8]`: it writes `v` at the front of the slice.
#[verifier::external_body]
pub(crate) fn put_u8_at(buf: &mut Vec<u8>, at: usize, v: u8)
    requires
        at + 1 <= old(buf)@.len(),
    ensures
        final(buf)@ == splice(old(buf)@, at as int, seq![v]),
{
    let mut dst: &mut [u8] = &mut buf[at..];
    dst.put_u8(v);
}

/// Relies on bytes::BufMut::put_u16 for `&mut [u8]`: it writes `v` big-endian at the front of the slice.
#[verifier::external_body]
pub(crate) fn put_u16_at(buf: &mut Vec<u8>, at: usize, v: u16)
    requires
        at + 2 <= old(buf)@.len(),
    ensures
        final(buf)@ == splice(old(buf)@, at as int, be16_bytes(v as int)),
{
    let mut dst: &mut [u8] = &mut buf[at..];
    dst.put_u16(v);
}

/// Relies on bytes::BufMut::put_u32 for `&mut [u8]`: it writes `v` big-endian at the front of the slice.
#[verifier::external_body]
pub(crate) fn put_u32_at(buf: &mut Vec<u8>, at: usize, v: u32)
    requires
        at + 4 <= old(buf)@.len(),
    ensures
        final(buf)@ == splice(old(buf)@, at as int, be32_bytes(v as int)),
{
    let mut dst: &mut [u8] = &mut buf[at..];
    dst.put_u32(v);
}

/// Relies on bytes::BufMut::put_slice for `&mut [u8]`: it copies `src` to the front of the slice.
#[verifier::external_body]
pub(crate) fn put_slice_at(buf: &mut Vec<u8>, at: usize, src: &[u8])
    requires
        at + src@.len() <= old(buf)@.len(),
    ensures
        final(buf)@ == splice(old(buf)@, at as int, src@),
{
    let mut dst: &mut [u8] = &mut buf[at..];
    dst.put_slice(src);
}

/// Relies on bytes::BufMut::put_bytes for `&mut [u8]`: it writes `cnt` copies of `val` at the front of the slice.
#[verifier::external_body]
pub(crate) fn put_bytes_at(buf: &mut Vec<u8>, at: usize, val: u8, cnt: usize)
    requires
        at + cnt <= old(buf)@.len(),
    ensures
        final(buf)@ == splice(old(buf)@, at as int, repeat(val, cnt as nat)),
{
    let mut dst: &mut [u8] = &mut buf[at..];
    dst.put_bytes(val, cnt);
}

} // verus!
