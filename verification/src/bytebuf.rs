//! Trusted view of `bytes::BytesMut`, the byte buffer every codec here reads
//! from and writes to.
//!
//! A `BytesMut` is modelled by the byte sequence `bytes_view` between its read
//! cursor and its end.  Each wrapper below relies on one documented operation
//! of the `bytes` crate and states its effect on that sequence.

use vstd::prelude::*;

use bytes::Buf;
use bytes::BufMut;
use bytes::BytesMut;

verus! {

#[verifier::external_type_specification]
#[verifier::external_body]
pub struct ExBytesMut(BytesMut);

/// The readable bytes of the buffer, in order, read cursor first.
pub uninterp spec fn bytes_view(b: BytesMut) -> Seq<u8>;

/// The two big-endian bytes of a `u16`.
pub open spec fn u16_be_bytes(n: u16) -> Seq<u8> {
    seq![((n as int) / 0x100) as u8, ((n as int) % 0x100) as u8]
}

/// The four big-endian bytes of a `u32`.
pub open spec fn u32_be_bytes(n: u32) -> Seq<u8> {
    seq![
        ((n as int) / 0x1000000 % 0x100) as u8,
        ((n as int) / 0x10000 % 0x100) as u8,
        ((n as int) / 0x100 % 0x100) as u8,
        ((n as int) % 0x100) as u8,
    ]
}

/// The eight big-endian bytes of a `u64`.
pub open spec fn u64_be_bytes(n: u64) -> Seq<u8> {
    seq![
        ((n as int) / 0x100000000000000 % 0x100) as u8,
        ((n as int) / 0x1000000000000 % 0x100) as u8,
        ((n as int) / 0x10000000000 % 0x100) as u8,
        ((n as int) / 0x100000000 % 0x100) as u8,
        ((n as int) / 0x1000000 % 0x100) as u8,
        ((n as int) / 0x10000 % 0x100) as u8,
        ((n as int) / 0x100 % 0x100) as u8,
        ((n as int) % 0x100) as u8,
    ]
}

/// Relies on `BytesMut::new`: a fresh buffer holds no bytes.
#[verifier::external_body]
pub fn buf_new() -> (r: BytesMut)
    ensures
        bytes_view(r) == Seq::<u8>::empty(),
{
    BytesMut::new()
}

/// Relies on `BytesMut::len`: the number of readable bytes.
#[verifier::external_body]
pub fn buf_len(b: &BytesMut) -> (r: usize)
    ensures
        r == bytes_view(*b).len(),
{
    b.len()
}

/// Relies on `Clone for BytesMut`: the copy holds the same bytes.
#[verifier::external_body]
pub fn buf_clone(b: &BytesMut) -> (r: BytesMut)
    ensures
        bytes_view(r) == bytes_view(*b),
{
    b.clone()
}

/// Relies on `Buf::get_u8` for `BytesMut`: reads the first byte and advances
/// past it; panics when the buffer is empty, which the contract rules out.
#[verifier::external_body]
pub fn buf_get_u8(b: &mut BytesMut) -> (r: u8)
    requires
        bytes_view(*old(b)).len() >= 1,
    ensures
        r == bytes_view(*old(b))[0],
        bytes_view(*final(b)) == bytes_view(*old(b)).skip(1),
{
    b.get_u8()
}

/// Relies on `Buf::get_u16` for `BytesMut`: reads the first two bytes as a
/// big-endian integer and advances past them.
#[verifier::external_body]
pub fn buf_get_u16(b: &mut BytesMut) -> (r: u16)
    requires
        bytes_view(*old(b)).len() >= 2,
    ensures
        r as int == bytes_view(*old(b))[0] as int * 0x100 + bytes_view(*old(b))[1] as int,
        bytes_view(*final(b)) == bytes_view(*old(b)).skip(2),
{
    b.get_u16()
}

/// Relies on `Buf::get_u32` for `BytesMut`: reads the first four bytes as a
/// big-endian integer and advances past them.
#[verifier::external_body]
pub fn buf_get_u32(b: &mut BytesMut) -> (r: u32)
    requires
        bytes_view(*old(b)).len() >= 4,
    ensures
        r as int == bytes_view(*old(b))[0] as int * 0x1000000 + bytes_view(*old(b))[1] as int
            * 0x10000 + bytes_view(*old(b))[2] as int * 0x100 + bytes_view(*old(b))[3] as int,
        bytes_view(*final(b)) == bytes_view(*old(b)).skip(4),
{
    b.get_u32()
}

/// Relies on `Buf::get_u64` for `BytesMut`: reads the first eight bytes as a
/// big-endian integer and advances past them.
#[verifier::external_body]
pub fn buf_get_u64(b: &mut BytesMut) -> (r: u64)
    requires
        bytes_view(*old(b)).len() >= 8,
    ensures
        r as int == bytes_view(*old(b))[0] as int * 0x100000000000000 + bytes_view(*old(b))[1]
            as int * 0x1000000000000 + bytes_view(*old(b))[2] as int * 0x10000000000 + bytes_view(
            *old(b),
        )[3] as int * 0x100000000 + bytes_view(*old(b))[4] as int * 0x1000000 + bytes_view(
            *old(b),
        )[5] as int * 0x10000 + bytes_view(*old(b))[6] as int * 0x100 + bytes_view(*old(b))[7]
            as int,
        bytes_view(*final(b)) == bytes_view(*old(b)).skip(8),
{
    b.get_u64()
}

/// Relies on `Buf::advance` for `BytesMut`: discards the first `n` bytes;
/// panics when fewer are present, which the contract rules out.
#[verifier::external_body]
pub fn buf_advance(b: &mut BytesMut, n: usize)
    requires
        n <= bytes_view(*old(b)).len(),
    ensures
        bytes_view(*final(b)) == bytes_view(*old(b)).skip(n as int),
{
    b.advance(n)
}

/// Relies on `BytesMut::split_to`: takes the first `n` bytes out of the
/// buffer; panics when fewer are present, which the contract rules out.
#[verifier::external_body]
pub fn buf_take(b: &mut BytesMut, n: usize) -> (r: Vec<u8>)
    requires
        n <= bytes_view(*old(b)).len(),
    ensures
        r@ == bytes_view(*old(b)).take(n as int),
        bytes_view(*final(b)) == bytes_view(*old(b)).skip(n as int),
{
    let head = b.split_to(n);
    head.to_vec()
}

/// Relies on `BufMut::put_u8` for `BytesMut`: appends one byte.
#[verifier::external_body]
pub fn buf_put_u8(b: &mut BytesMut, n: u8)
    ensures
        bytes_view(*final(b)) == bytes_view(*old(b)).push(n),
{
    b.put_u8(n)
}

/// Relies on `BufMut::put_u16` for `BytesMut`: appends two big-endian bytes.
#[verifier::external_body]
pub fn buf_put_u16(b: &mut BytesMut, n: u16)
    ensures
        bytes_view(*final(b)) == bytes_view(*old(b)) + u16_be_bytes(n),
{
    b.put_u16(n)
}

/// Relies on `BufMut::put_u32` for `BytesMut`: appends four big-endian bytes.
#[verifier::external_body]
pub fn buf_put_u32(b: &mut BytesMut, n: u32)
    ensures
        bytes_view(*final(b)) == bytes_view(*old(b)) + u32_be_bytes(n),
{
    b.put_u32(n)
}

/// Relies on `BufMut::put_u64` for `BytesMut`: appends eight big-endian bytes.
#[verifier::external_body]
pub fn buf_put_u64(b: &mut BytesMut, n: u64)
    ensures
        bytes_view(*final(b)) == bytes_view(*old(b)) + u64_be_bytes(n),
{
    b.put_u64(n)
}

/// Relies on `BufMut::put_slice` for `BytesMut`: appends the readable bytes
/// of another buffer.
#[verifier::external_body]
pub fn buf_append(b: &mut BytesMut, other: &BytesMut)
    ensures
        bytes_view(*final(b)) == bytes_view(*old(b)) + bytes_view(*other),
{
    b.put_slice(&other[..])
}

/// Relies on `BufMut::put_slice` for `BytesMut`: appends the slice's bytes.
#[verifier::external_body]
pub fn buf_put_slice(b: &mut BytesMut, s: &[u8])
    ensures
        bytes_view(*final(b)) == bytes_view(*old(b)) + s@,
{
    b.put_slice(s)
}

} // verus!
