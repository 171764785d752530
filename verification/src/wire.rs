//! Shared building blocks of the byte-level grammar: the parse-result type
//! and the fixed-width big-endian integer fields.

use vstd::prelude::*;

use bytes::BytesMut;

use crate::bytebuf::buf_get_u16;
use crate::bytebuf::buf_get_u32;
use crate::bytebuf::buf_get_u8;
use crate::bytebuf::buf_len;
use crate::bytebuf::buf_take;
use crate::bytebuf::bytes_view;
use crate::error::DecodeError;

verus! {

broadcast use vstd::seq_lib::group_seq_properties, vstd::seq_lib::lemma_seq_skip_of_skip;

/// What reading one field from the front of a byte sequence yields: the value
/// together with the count of bytes it occupied, or a terminal error.
pub enum PRes<T> {
    Got { v: T, used: int },
    Fail { e: DecodeError },
}

/// One byte.
pub open spec fn parse_u8(s: Seq<u8>) -> PRes<u8> {
    if s.len() < 1 {
        PRes::Fail { e: DecodeError::FormatError }
    } else {
        PRes::Got { v: s[0], used: 1 }
    }
}

/// Two big-endian bytes.
pub open spec fn parse_u16(s: Seq<u8>) -> PRes<u16> {
    if s.len() < 2 {
        PRes::Fail { e: DecodeError::FormatError }
    } else {
        PRes::Got { v: (s[0] as int * 0x100 + s[1] as int) as u16, used: 2 }
    }
}

/// Four big-endian bytes.
pub open spec fn parse_u32(s: Seq<u8>) -> PRes<u32> {
    if s.len() < 4 {
        PRes::Fail { e: DecodeError::FormatError }
    } else {
        PRes::Got {
            v: (s[0] as int * 0x1000000 + s[1] as int * 0x10000 + s[2] as int * 0x100 + s[3]
                as int) as u32,
            used: 4,
        }
    }
}

/// A run of exactly `n` raw bytes.
pub open spec fn parse_bytes_n(s: Seq<u8>, n: int) -> PRes<Seq<u8>> {
    if n < 0 || s.len() < n {
        PRes::Fail { e: DecodeError::FormatError }
    } else {
        PRes::Got { v: s.take(n), used: n }
    }
}

/// What follows a concatenation's first part is exactly its second part.
pub proof fn lemma_concat_skip<T>(a: Seq<T>, b: Seq<T>)
    ensures
        (a + b).skip(a.len() as int) =~= b,
{
}

/// Reading two big-endian bytes written from `x` gives back `x`.
pub proof fn lemma_u16_be_parse(x: u16, rest: Seq<u8>)
    ensures
        parse_u16(crate::bytebuf::u16_be_bytes(x) + rest) == (PRes::Got { v: x, used: 2 }),
{
    let s = crate::bytebuf::u16_be_bytes(x) + rest;
    assert(s[0] as int * 0x100 + s[1] as int == x as int);
}

/// Reading four big-endian bytes written from `x` gives back `x`.
pub proof fn lemma_u32_be_parse(x: u32, rest: Seq<u8>)
    ensures
        parse_u32(crate::bytebuf::u32_be_bytes(x) + rest) == (PRes::Got { v: x, used: 4 }),
{
    let s = crate::bytebuf::u32_be_bytes(x) + rest;
    let xi = x as int;
    vstd::arithmetic::div_mod::lemma_fundamental_div_mod(xi, 0x100);
    vstd::arithmetic::div_mod::lemma_fundamental_div_mod(xi / 0x100, 0x100);
    vstd::arithmetic::div_mod::lemma_div_denominator(xi, 0x100, 0x100);
    vstd::arithmetic::div_mod::lemma_fundamental_div_mod(xi / 0x10000, 0x100);
    vstd::arithmetic::div_mod::lemma_div_denominator(xi, 0x10000, 0x100);
    assert(s[0] as int * 0x1000000 + s[1] as int * 0x10000 + s[2] as int * 0x100 + s[3] as int
        == xi);
}

/// Reads one byte; a format error when the buffer is empty, which leaves the
/// buffer unchanged.
pub fn read_u8(buffer: &mut BytesMut) -> (r: Result<u8, DecodeError>)
    ensures
        match parse_u8(bytes_view(*old(buffer))) {
            PRes::Got { v, used } => r == Ok::<u8, DecodeError>(v) && bytes_view(*final(buffer))
                == bytes_view(*old(buffer)).skip(used),
            PRes::Fail { e } => r == Err::<u8, DecodeError>(e) && bytes_view(*final(buffer))
                == bytes_view(*old(buffer)),
        },
{
    if buf_len(buffer) < 1 {
        return Err(DecodeError::FormatError);
    }
    Ok(buf_get_u8(buffer))
}

/// Reads two big-endian bytes; a format error when fewer are buffered, which
/// leaves the buffer unchanged.
pub fn read_u16(buffer: &mut BytesMut) -> (r: Result<u16, DecodeError>)
    ensures
        match parse_u16(bytes_view(*old(buffer))) {
            PRes::Got { v, used } => r == Ok::<u16, DecodeError>(v) && bytes_view(*final(buffer))
                == bytes_view(*old(buffer)).skip(used),
            PRes::Fail { e } => r == Err::<u16, DecodeError>(e) && bytes_view(*final(buffer))
                == bytes_view(*old(buffer)),
        },
{
    if buf_len(buffer) < 2 {
        return Err(DecodeError::FormatError);
    }
    Ok(buf_get_u16(buffer))
}

/// Reads four big-endian bytes; a format error when fewer are buffered, which
/// leaves the buffer unchanged.
pub fn read_u32(buffer: &mut BytesMut) -> (r: Result<u32, DecodeError>)
    ensures
        match parse_u32(bytes_view(*old(buffer))) {
            PRes::Got { v, used } => r == Ok::<u32, DecodeError>(v) && bytes_view(*final(buffer))
                == bytes_view(*old(buffer)).skip(used),
            PRes::Fail { e } => r == Err::<u32, DecodeError>(e) && bytes_view(*final(buffer))
                == bytes_view(*old(buffer)),
        },
{
    if buf_len(buffer) < 4 {
        return Err(DecodeError::FormatError);
    }
    Ok(buf_get_u32(buffer))
}

/// Takes exactly `n` raw bytes; a format error when fewer are buffered, which
/// leaves the buffer unchanged.
pub fn read_bytes(buffer: &mut BytesMut, n: usize) -> (r: Result<Vec<u8>, DecodeError>)
    ensures
        match parse_bytes_n(bytes_view(*old(buffer)), n as int) {
            PRes::Got { v, used } => r matches Ok(b) && b@ == v && bytes_view(*final(buffer))
                == bytes_view(*old(buffer)).skip(used),
            PRes::Fail { e } => r == Err::<Vec<u8>, DecodeError>(e) && bytes_view(*final(buffer))
                == bytes_view(*old(buffer)),
        },
{
    if buf_len(buffer) < n {
        return Err(DecodeError::FormatError);
    }
    Ok(buf_take(buffer, n))
}

} // verus!
