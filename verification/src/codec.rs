//! Byte-level building blocks: integer encodings, text decoding and range
//! copies between buffers.

use byteorder::{BigEndian, ByteOrder, LittleEndian};
use vstd::prelude::*;
use vstd::utf8::*;

verus! {

/// The four bytes of `n`, most significant first.
pub open spec fn be_bytes(n: u32) -> Seq<u8> {
    seq![
        (n >> 24) as u8,
        ((n >> 16) & 0xff) as u8,
        ((n >> 8) & 0xff) as u8,
        (n & 0xff) as u8,
    ]
}

/// The integer whose big-endian encoding is the first four bytes of `b`.
pub open spec fn be_u32(b: Seq<u8>) -> u32
    recommends
        b.len() >= 4,
{
    ((b[0] as u32) << 24) | ((b[1] as u32) << 16) | ((b[2] as u32) << 8) | (b[3] as u32)
}

/// The integer whose little-endian encoding is the first four bytes of `b`.
pub open spec fn le_u32(b: Seq<u8>) -> u32
    recommends
        b.len() >= 4,
{
    ((b[3] as u32) << 24) | ((b[2] as u32) << 16) | ((b[1] as u32) << 8) | (b[0] as u32)
}

/// Decoding a big-endian encoding gives the integer back.
pub proof fn lemma_be_round_trip(n: u32)
    ensures
        be_bytes(n).len() == 4,
        be_u32(be_bytes(n)) == n,
{
    let b0 = (n >> 24) as u8;
    let b1 = ((n >> 16) & 0xff) as u8;
    let b2 = ((n >> 8) & 0xff) as u8;
    let b3 = (n & 0xff) as u8;
    assert(((b0 as u32) << 24) | ((b1 as u32) << 16) | ((b2 as u32) << 8) | (b3 as u32) == n)
        by (bit_vector)
        requires
            b0 == (n >> 24) as u8,
            b1 == ((n >> 16) & 0xff) as u8,
            b2 == ((n >> 8) & 0xff) as u8,
            b3 == (n & 0xff) as u8,
    ;
}

/// Calls `byteorder::BigEndian::read_u32`, which reads the first four bytes
/// of `buf` as a big-endian integer and panics on a shorter buffer.
#[verifier::external_body]
pub(crate) fn read_u32_be(buf: &[u8]) -> (n: u32)
    requires
        buf@.len() >= 4,
    ensures
        n == be_u32(buf@),
{
    BigEndian::read_u32(buf)
}

/// Calls `byteorder::LittleEndian::read_u32`, which reads the first four
/// bytes of `buf` as a little-endian integer and panics on a shorter buffer.
#[verifier::external_body]
pub(crate) fn read_u32_le(buf: &[u8]) -> (n: u32)
    requires
        buf@.len() >= 4,
    ensures
        n == le_u32(buf@),
{
    LittleEndian::read_u32(buf)
}

/// Calls `byteorder::BigEndian::write_u32`, which overwrites the first four
/// bytes of `buf` with the big-endian encoding of `n`, leaves the rest as it
/// was, and panics on a shorter buffer.
#[verifier::external_body]
pub(crate) fn write_u32_be(buf: &mut Vec<u8>, n: u32)
    requires
        old(buf)@.len() >= 4,
    ensures
        final(buf)@ == be_bytes(n) + old(buf)@.subrange(4, old(buf)@.len() as int),
{
    BigEndian::write_u32(buf, n)
}

/// Calls `String::from_utf8`, which succeeds exactly on well-formed UTF-8
/// and then yields the text that the bytes encode.
#[verifier::external_body]
pub(crate) fn text_from_utf8(bytes: Vec<u8>) -> (r: Option<String>)
    ensures
        r is Some <==> valid_utf8(bytes@),
        r is Some ==> r->0@ == decode_utf8(bytes@),
{
    match String::from_utf8(bytes) {
        Ok(s) => Some(s),
        Err(_) => None,
    }
}

/// `src` with the bytes from `at` on replaced by `patch`, as far as `patch` reaches.
pub open spec fn overlay(src: Seq<u8>, at: int, patch: Seq<u8>) -> Seq<u8>
    recommends
        0 <= at,
        at + patch.len() <= src.len(),
{
    Seq::new(
        src.len(),
        |i: int|
            if at <= i < at + patch.len() {
                patch[i - at]
            } else {
                src[i]
            },
    )
}

/// A fresh buffer of `len` zero bytes.
pub fn zeroed(len: usize) -> (buf: Vec<u8>)
    ensures
        buf@ == Seq::new(len as nat, |i: int| 0u8),
{
    let mut buf: Vec<u8> = Vec::new();
    let mut i: usize = 0;
    while i < len
        invariant
            i <= len,
            buf@ == Seq::new(i as nat, |j: int| 0u8),
        decreases len - i,
    {
        buf.push(0u8);
        i += 1;
        assert(buf@ =~= Seq::new(i as nat, |j: int| 0u8));
    }
    buf
}

/// A copy of the bytes of `src` in `[start, end)`.
pub fn copy_range(src: &Vec<u8>, start: usize, end: usize) -> (out: Vec<u8>)
    requires
        start <= end <= src@.len(),
    ensures
        out@ == src@.subrange(start as int, end as int),
{
    let mut out: Vec<u8> = Vec::new();
    let mut i: usize = start;
    while i < end
        invariant
            start <= i <= end <= src@.len(),
            out@ == src@.subrange(start as int, i as int),
        decreases end - i,
    {
        out.push(src[i]);
        i += 1;
        assert(out@ =~= src@.subrange(start as int, i as int));
    }
    out
}

/// Writes `patch` over the bytes of `dst` that start at `at`.
pub fn write_range(dst: &mut Vec<u8>, at: usize, patch: &Vec<u8>)
    requires
        at + patch@.len() <= old(dst)@.len(),
    ensures
        final(dst)@ == overlay(old(dst)@, at as int, patch@),
{
    let ghost before = dst@;
    let len = dst.len();
    let mut i: usize = 0;
    while i < patch.len()
        invariant
            i <= patch@.len(),
            at + patch@.len() <= len == before.len() == dst@.len(),
            dst@ == overlay(before, at as int, patch@.subrange(0, i as int)),
        decreases patch@.len() - i,
    {
        dst.set(at + i, patch[i]);
        i += 1;
        assert(dst@ =~= overlay(before, at as int, patch@.subrange(0, i as int)));
    }
    assert(patch@.subrange(0, i as int) =~= patch@);
}

} // verus!
