//! Length-prefixed UTF-8 string fields, and the helper that tracks how many
//! bytes of a packet's declared remaining length are still owed.

use vstd::prelude::*;
use vstd::string::StrSliceExecFns;

use bytes::BytesMut;

use crate::bytebuf::buf_put_slice;
use crate::bytebuf::buf_put_u16;
use crate::bytebuf::bytes_view;
use crate::bytebuf::u16_be_bytes;
use crate::error::DecodeError;
use crate::wire::read_bytes;
use crate::wire::read_u16;
use crate::wire::parse_bytes_n;
use crate::wire::parse_u16;
use crate::wire::PRes;

verus! {

broadcast use vstd::seq_lib::group_seq_properties, vstd::seq_lib::lemma_seq_skip_of_skip;

/// The framed form of a string: a 2-byte big-endian count of its UTF-8 bytes
/// (truncated to 16 bits, as the writer truncates), then those bytes.
pub open spec fn utf8_frame_bytes(t: Seq<char>) -> Seq<u8> {
    let b = vstd::utf8::encode_utf8(t);
    u16_be_bytes(((b.len() as int) % 0x10000) as u16) + b
}

/// Exactly `n` bytes holding valid UTF-8, decoded to their characters.
pub open spec fn parse_str_n(s: Seq<u8>, n: int) -> PRes<Seq<char>> {
    match parse_bytes_n(s, n) {
        PRes::Fail { e } => PRes::Fail { e },
        PRes::Got { v: b, used } => {
            if vstd::utf8::valid_utf8(b) {
                PRes::Got { v: vstd::utf8::decode_utf8(b), used }
            } else {
                PRes::Fail { e: DecodeError::Utf8Error }
            }
        },
    }
}

/// A 2-byte length prefix, then that many bytes of valid UTF-8.
pub open spec fn parse_str(s: Seq<u8>) -> PRes<Seq<char>> {
    match parse_u16(s) {
        PRes::Fail { e } => PRes::Fail { e },
        PRes::Got { v: l, used } => {
            match parse_str_n(s.skip(used), l as int) {
                PRes::Fail { e } => PRes::Fail { e },
                PRes::Got { v: t, used: used2 } => PRes::Got { v: t, used: used + used2 },
            }
        },
    }
}

/// Relies on `std::str::from_utf8`: succeeds exactly on valid UTF-8 and
/// yields the characters those bytes encode.
#[verifier::external_body]
fn utf8_to_string(v: &[u8]) -> (r: Option<String>)
    ensures
        match r {
            Some(s) => vstd::utf8::valid_utf8(v@) && s@ == vstd::utf8::decode_utf8(v@),
            None => !vstd::utf8::valid_utf8(v@),
        },
{
    match std::str::from_utf8(v) {
        Ok(s) => Some(s.to_string()),
        Err(_) => None,
    }
}

/// Reads a 2-byte length prefix, then that many bytes, validated as UTF-8.
/// Too few buffered bytes are a format error; bytes that are not UTF-8 are a
/// text-encoding error.
pub fn decode_utf8(buffer: &mut BytesMut) -> (r: Result<String, DecodeError>)
    ensures
        match parse_str(bytes_view(*old(buffer))) {
            PRes::Got { v, used } => r matches Ok(s) && s@ == v && 2 <= used <= bytes_view(
                *old(buffer),
            ).len() && bytes_view(*final(buffer)) == bytes_view(*old(buffer)).skip(used),
            PRes::Fail { e } => r matches Err(e2) && e2 == e,
        },
{
    let string_length = match read_u16(buffer) {
        Ok(l) => l,
        Err(e) => { return Err(e) },
    };
    decode_utf8_with_length(buffer, string_length as usize)
}

/// Reads exactly `string_length` bytes, validated as UTF-8; the byte count
/// was fixed beforehand by the packet's remaining-length accounting.
pub fn decode_utf8_with_length(buffer: &mut BytesMut, string_length: usize) -> (r: Result<
    String,
    DecodeError,
>)
    ensures
        match parse_str_n(bytes_view(*old(buffer)), string_length as int) {
            PRes::Got { v, used } => r matches Ok(s) && s@ == v && 0 <= used <= bytes_view(
                *old(buffer),
            ).len() && bytes_view(*final(buffer)) == bytes_view(*old(buffer)).skip(used),
            PRes::Fail { e } => r matches Err(e2) && e2 == e,
        },
{
    let raw = match read_bytes(buffer, string_length) {
        Ok(b) => b,
        Err(e) => { return Err(e) },
    };
    match utf8_to_string(raw.as_slice()) {
        Some(s) => Ok(s),
        None => Err(DecodeError::Utf8Error),
    }
}

/// Appends the framed form of `string`: a 2-byte big-endian byte count, then
/// the UTF-8 bytes.  A count of 65,536 or more is silently truncated to its
/// low 16 bits, as the length field has no more room.
pub fn encode_utf8(buffer: &mut BytesMut, string: &str)
    ensures
        bytes_view(*final(buffer)) == bytes_view(*old(buffer)) + utf8_frame_bytes(string@),
{
    let bytes = string.as_bytes_vec();
    let n = (bytes.len() % 0x10000) as u16;
    buf_put_u16(buffer, n);
    buf_put_slice(buffer, bytes.as_slice());
    proof {
        assert(bytes@ == vstd::utf8::encode_utf8(string@));
        assert(n as int == (bytes@.len() as int) % 0x10000);
        assert(bytes_view(*buffer) =~= bytes_view(*old(buffer)) + utf8_frame_bytes(string@));
    }
}

/// How many bytes of a packet's declared remaining length are still unread,
/// given the buffer's length when the packet body began.
pub fn get_remaining_length(
    buffer: &BytesMut,
    starting_length: usize,
    remaining_length: usize,
) -> (r: usize)
    requires
        bytes_view(*buffer).len() <= starting_length,
        starting_length - bytes_view(*buffer).len() <= remaining_length,
    ensures
        r == remaining_length - (starting_length - bytes_view(*buffer).len()),
{
    let byte_written = starting_length - crate::bytebuf::buf_len(buffer);
    remaining_length - byte_written
}

/// Decoding a framed string, whatever follows it, gives back its characters
/// and consumes exactly the frame.
pub proof fn lemma_str_round_trip(t: Seq<char>, rest: Seq<u8>)
    requires
        vstd::utf8::encode_utf8(t).len() < 0x10000,
    ensures
        parse_str(utf8_frame_bytes(t) + rest) == (PRes::Got {
            v: t,
            used: 2 + vstd::utf8::encode_utf8(t).len() as int,
        }),
        utf8_frame_bytes(t).len() == 2 + vstd::utf8::encode_utf8(t).len(),
{
    broadcast use vstd::utf8::encode_utf8_valid_utf8, vstd::utf8::encode_utf8_decode_utf8;

    let b = vstd::utf8::encode_utf8(t);
    let s = utf8_frame_bytes(t) + rest;
    let l = b.len() as int;
    assert(s[0] == (l / 0x100) as u8 && s[1] == (l % 0x100) as u8);
    assert(s[0] as int * 0x100 + s[1] as int == l);
    assert(parse_u16(s) == (PRes::Got { v: l as u16, used: 2 }));
    assert(s.skip(2) =~= b + rest);
    assert(s.skip(2).take(l) =~= b);
    assert(parse_bytes_n(s.skip(2), l) == (PRes::Got { v: b, used: l }));
}

} // verus!
