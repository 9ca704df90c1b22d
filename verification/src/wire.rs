//! Big-endian integer fields, the byte order of every multi-byte field on
//! the wire.

use byteorder::{BigEndian, ByteOrder};
use vstd::prelude::*;
use vstd::slice::slice_subrange;

verus! {

/// The two bytes of `n`, most significant first.
pub open spec fn be16(n: u16) -> Seq<u8> {
    seq![(n / 0x100) as u8, (n % 0x100) as u8]
}

/// The four bytes of `n`, most significant first.
pub open spec fn be32(n: u32) -> Seq<u8> {
    seq![
        (n / 0x100_0000) as u8,
        (n / 0x1_0000 % 0x100) as u8,
        (n / 0x100 % 0x100) as u8,
        (n % 0x100) as u8,
    ]
}

/// The eight bytes of `n`, most significant first.
pub open spec fn be64(n: u64) -> Seq<u8> {
    seq![
        (n / 0x100_0000_0000_0000) as u8,
        (n / 0x1_0000_0000_0000 % 0x100) as u8,
        (n / 0x100_0000_0000 % 0x100) as u8,
        (n / 0x1_0000_0000 % 0x100) as u8,
        (n / 0x100_0000 % 0x100) as u8,
        (n / 0x1_0000 % 0x100) as u8,
        (n / 0x100 % 0x100) as u8,
        (n % 0x100) as u8,
    ]
}

/// The number that the two bytes of `b` from index `at` on spell, most
/// significant first.
pub open spec fn u16_at(b: Seq<u8>, at: int) -> u16 {
    (b[at] as int * 0x100 + b[at + 1] as int) as u16
}

/// The number that the four bytes of `b` from index `at` on spell, most
/// significant first.
pub open spec fn u32_at(b: Seq<u8>, at: int) -> u32 {
    (b[at] as int * 0x100_0000 + b[at + 1] as int * 0x1_0000 + b[at + 2] as int * 0x100
        + b[at + 3] as int) as u32
}

/// The number that the eight bytes of `b` from index `at` on spell, most
/// significant first.
pub open spec fn u64_at(b: Seq<u8>, at: int) -> u64 {
    (b[at] as int * 0x100_0000_0000_0000 + b[at + 1] as int * 0x1_0000_0000_0000
        + b[at + 2] as int * 0x100_0000_0000 + b[at + 3] as int * 0x1_0000_0000
        + b[at + 4] as int * 0x100_0000 + b[at + 5] as int * 0x1_0000
        + b[at + 6] as int * 0x100 + b[at + 7] as int) as u64
}

/// Reading back a written 16-bit field gives the number that was written.
pub proof fn lemma_u16_at_be16(b: Seq<u8>, at: int, n: u16)
    requires
        0 <= at,
        at + 2 <= b.len(),
        b.subrange(at, at + 2) == be16(n),
    ensures
        u16_at(b, at) == n,
{
    let f = b.subrange(at, at + 2);
    assert(b[at] == f[0] && b[at + 1] == f[1]);
}

/// Reading back a written 32-bit field gives the number that was written.
pub proof fn lemma_u32_at_be32(b: Seq<u8>, at: int, n: u32)
    requires
        0 <= at,
        at + 4 <= b.len(),
        b.subrange(at, at + 4) == be32(n),
    ensures
        u32_at(b, at) == n,
{
    let f = b.subrange(at, at + 4);
    assert(b[at] == f[0] && b[at + 1] == f[1] && b[at + 2] == f[2] && b[at + 3] == f[3]);
}

/// A 64-bit number is the sum of its eight bytes, each at its place value.
proof fn lemma_u64_bytes(n: u64)
    by (bit_vector)
    ensures
        n == (n / 0x100_0000_0000_0000) * 0x100_0000_0000_0000 + (n / 0x1_0000_0000_0000 % 0x100)
            * 0x1_0000_0000_0000 + (n / 0x100_0000_0000 % 0x100) * 0x100_0000_0000 + (n
            / 0x1_0000_0000 % 0x100) * 0x1_0000_0000 + (n / 0x100_0000 % 0x100) * 0x100_0000 + (n
            / 0x1_0000 % 0x100) * 0x1_0000 + (n / 0x100 % 0x100) * 0x100 + (n % 0x100),
        n / 0x100_0000_0000_0000 < 0x100,
{
}

/// Reading back a written 64-bit field gives the number that was written.
pub proof fn lemma_u64_at_be64(b: Seq<u8>, at: int, n: u64)
    requires
        0 <= at,
        at + 8 <= b.len(),
        b.subrange(at, at + 8) == be64(n),
    ensures
        u64_at(b, at) == n,
{
    let f = b.subrange(at, at + 8);
    assert(b[at] == f[0] && b[at + 1] == f[1] && b[at + 2] == f[2] && b[at + 3] == f[3]);
    assert(b[at + 4] == f[4] && b[at + 5] == f[5] && b[at + 6] == f[6] && b[at + 7] == f[7]);
    lemma_u64_bytes(n);
}

/// `byteorder::BigEndian::write_u16` on a buffer of two bytes: the buffer then
/// holds the two bytes of `n`, most significant first.
#[verifier::external_body]
fn be_bytes_u16(n: u16) -> (out: [u8; 2])
    ensures
        out@ == be16(n),
{
    let mut buf: [u8; 2] = [0u8; 2];
    BigEndian::write_u16(&mut buf, n);
    buf
}

/// `byteorder::BigEndian::write_u32` on a buffer of four bytes: the buffer
/// then holds the four bytes of `n`, most significant first.
#[verifier::external_body]
fn be_bytes_u32(n: u32) -> (out: [u8; 4])
    ensures
        out@ == be32(n),
{
    let mut buf: [u8; 4] = [0u8; 4];
    BigEndian::write_u32(&mut buf, n);
    buf
}

/// `byteorder::BigEndian::write_u64` on a buffer of eight bytes: the buffer
/// then holds the eight bytes of `n`, most significant first.
#[verifier::external_body]
fn be_bytes_u64(n: u64) -> (out: [u8; 8])
    ensures
        out@ == be64(n),
{
    let mut buf: [u8; 8] = [0u8; 8];
    BigEndian::write_u64(&mut buf, n);
    buf
}

/// `byteorder::BigEndian::read_u16`: the number that the first two bytes of
/// `buf` spell, most significant first. It panics on a shorter buffer.
#[verifier::external_body]
fn be_value_u16(buf: &[u8]) -> (n: u16)
    requires
        buf@.len() >= 2,
    ensures
        n == u16_at(buf@, 0),
{
    BigEndian::read_u16(buf)
}

/// `byteorder::BigEndian::read_u32`: the number that the first four bytes of
/// `buf` spell, most significant first. It panics on a shorter buffer.
#[verifier::external_body]
fn be_value_u32(buf: &[u8]) -> (n: u32)
    requires
        buf@.len() >= 4,
    ensures
        n == u32_at(buf@, 0),
{
    BigEndian::read_u32(buf)
}

/// `byteorder::BigEndian::read_u64`: the number that the first eight bytes of
/// `buf` spell, most significant first. It panics on a shorter buffer.
#[verifier::external_body]
fn be_value_u64(buf: &[u8]) -> (n: u64)
    requires
        buf@.len() >= 8,
    ensures
        n == u64_at(buf@, 0),
{
    BigEndian::read_u64(buf)
}

/// Appends the bytes of `src` to `w`.
pub fn put_bytes(w: &mut Vec<u8>, src: &[u8])
    ensures
        final(w)@ == old(w)@ + src@,
{
    let mut i: usize = 0;
    while i < src.len()
        invariant
            i <= src@.len(),
            w@ == old(w)@ + src@.subrange(0, i as int),
        decreases src@.len() - i,
    {
        w.push(src[i]);
        i = i + 1;
    }
    assert(src@.subrange(0, src@.len() as int) == src@);
}

/// Appends `n` to `w` as a 16-bit big-endian field.
pub fn put_u16(w: &mut Vec<u8>, n: u16)
    ensures
        final(w)@ == old(w)@ + be16(n),
{
    let field: [u8; 2] = be_bytes_u16(n);
    put_bytes(w, field.as_slice());
}

/// Appends `n` to `w` as a 32-bit big-endian field.
pub fn put_u32(w: &mut Vec<u8>, n: u32)
    ensures
        final(w)@ == old(w)@ + be32(n),
{
    let field: [u8; 4] = be_bytes_u32(n);
    put_bytes(w, field.as_slice());
}

/// Appends `n` to `w` as a 64-bit big-endian field.
pub fn put_u64(w: &mut Vec<u8>, n: u64)
    ensures
        final(w)@ == old(w)@ + be64(n),
{
    let field: [u8; 8] = be_bytes_u64(n);
    put_bytes(w, field.as_slice());
}

/// The 16-bit big-endian field of `bytes` at `at`, where the bytes reach that
/// far.
pub fn get_u16(bytes: &[u8], at: usize) -> (r: Option<u16>)
    ensures
        r == (if at + 2 <= bytes@.len() {
            Some(u16_at(bytes@, at as int))
        } else {
            None
        }),
{
    if bytes.len() < 2 || at > bytes.len() - 2 {
        return None;
    }
    let field = slice_subrange(bytes, at, at + 2);
    Some(be_value_u16(field))
}

/// The 32-bit big-endian field of `bytes` at `at`, where the bytes reach that
/// far.
pub fn get_u32(bytes: &[u8], at: usize) -> (r: Option<u32>)
    ensures
        r == (if at + 4 <= bytes@.len() {
            Some(u32_at(bytes@, at as int))
        } else {
            None
        }),
{
    if bytes.len() < 4 || at > bytes.len() - 4 {
        return None;
    }
    let field = slice_subrange(bytes, at, at + 4);
    Some(be_value_u32(field))
}

/// The 64-bit big-endian field of `bytes` at `at`, where the bytes reach that
/// far.
pub fn get_u64(bytes: &[u8], at: usize) -> (r: Option<u64>)
    ensures
        r == (if at + 8 <= bytes@.len() {
            Some(u64_at(bytes@, at as int))
        } else {
            None
        }),
{
    if bytes.len() < 8 || at > bytes.len() - 8 {
        return None;
    }
    let field = slice_subrange(bytes, at, at + 8);
    Some(be_value_u64(field))
}

} // verus!
