//! The fixed header: the packet type nibble, the per-type flag nibble, and
//! the remaining length as a variable-length integer.

use vstd::prelude::*;

use bytes::BytesMut;

use crate::bytebuf::buf_len;
use crate::bytebuf::buf_put_u8;
use crate::bytebuf::bytes_view;
use crate::error::DecodeError;
use crate::error::EncodeError;
use crate::publish::PublishConfig;
use crate::types::packet_type_code;
use crate::types::packet_type_of_code;
use crate::types::PacketType;
use crate::variable_integer;
use crate::variable_integer::parse_vli;
use crate::variable_integer::vli_bytes;
use crate::variable_integer::VliParse;
use crate::variable_integer::VLI_MAX;
use crate::wire::read_u8;

verus! {

broadcast use
    vstd::seq_lib::lemma_seq_skip_of_skip,
    vstd::seq_lib::lemma_seq_skip_len,
    vstd::seq_lib::lemma_seq_skip_index,
;

/// The delivery flags a PUBLISH packet's flag nibble unpacks to.
pub open spec fn publish_config_of_flags(flags: u8) -> PublishConfig {
    PublishConfig {
        dup: (flags as int / 8) % 2 == 1,
        qos: ((flags as int / 2) % 4) as u8,
        retain: flags as int % 2 == 1,
    }
}

/// Whether this packet type carries the fixed reserved flag nibble 0b0010.
pub open spec fn has_reserved_flags(t: PacketType) -> bool {
    t == PacketType::PUBREL || t == PacketType::SUBSCRIBE || t == PacketType::UNSUBSCRIBE
}

/// The first byte of a packet: type code in the high nibble, flags below.
pub open spec fn first_byte_of(t: PacketType, config: Option<PublishConfig>) -> u8 {
    let base = packet_type_code(t) as int * 16;
    if t == PacketType::PUBLISH {
        match config {
            Some(c) => (base + (if c.dup {
                8int
            } else {
                0int
            }) + c.qos as int * 2 + (if c.retain {
                1int
            } else {
                0int
            })) as u8,
            None => base as u8,
        }
    } else if has_reserved_flags(t) {
        (base + 2) as u8
    } else {
        base as u8
    }
}

/// The bytes of a fixed header for a body of `len` bytes.
pub open spec fn fixed_header_bytes(t: PacketType, config: Option<PublishConfig>, len: int) -> Seq<
    u8,
> {
    seq![first_byte_of(t, config)] + vli_bytes(len)
}

/// What reading a fixed header yields: the packet type, the unpacked PUBLISH
/// flags when the type is PUBLISH, the declared remaining length and the
/// header's own byte count; or "more bytes needed"; or a malformed header.
pub enum HeaderParse {
    Hdr { t: PacketType, config: Option<PublishConfig>, remaining: int, used: int },
    Incomplete,
    Bad,
}

/// Reads a fixed header from the front of `s`: the type and flag nibbles,
/// then the remaining length.  A flag nibble other than 0b0010 under PUBREL,
/// SUBSCRIBE or UNSUBSCRIBE is malformed; a remaining length cut short by the
/// end of `s` merely needs more bytes.
pub open spec fn parse_fixed_header(s: Seq<u8>) -> HeaderParse {
    if s.len() < 1 {
        HeaderParse::Incomplete
    } else {
        let first = s[0];
        let t = packet_type_of_code((first as int / 16) as u8);
        let flags = (first as int % 16) as u8;
        match parse_vli(s.skip(1)) {
            VliParse::Short => HeaderParse::Incomplete,
            VliParse::TooLong => HeaderParse::Bad,
            VliParse::Val { v, used } => {
                if t == PacketType::PUBLISH {
                    HeaderParse::Hdr {
                        t,
                        config: Some(publish_config_of_flags(flags)),
                        remaining: v,
                        used: 1 + used,
                    }
                } else if has_reserved_flags(t) && flags != 2 {
                    HeaderParse::Bad
                } else {
                    HeaderParse::Hdr { t, config: None, remaining: v, used: 1 + used }
                }
            },
        }
    }
}

/// The in-flight result of reading a fixed header from the buffer.
pub enum HeaderStatus {
    Have(PacketType, Option<PublishConfig>, usize),
    NeedMore,
    Malformed,
}

/// Reads the fixed header, consuming it only when it is whole and well
/// formed; reports "more bytes needed" when the buffer ends inside it.
pub(crate) fn read_fixed_header(buffer: &mut BytesMut) -> (r: HeaderStatus)
    ensures
        match parse_fixed_header(bytes_view(*old(buffer))) {
            HeaderParse::Hdr { t, config, remaining, used } => r == HeaderStatus::Have(
                t,
                config,
                remaining as usize,
            ) && 0 <= remaining <= VLI_MAX && 2 <= used <= bytes_view(*old(buffer)).len()
                && bytes_view(*final(buffer)) == bytes_view(*old(buffer)).skip(used),
            HeaderParse::Incomplete => r == HeaderStatus::NeedMore,
            HeaderParse::Bad => r == HeaderStatus::Malformed,
        },
{
    let ghost s = bytes_view(*buffer);
    let first_byte = match read_u8(buffer) {
        Ok(b) => b,
        Err(_) => { return HeaderStatus::NeedMore },
    };
    let type_bits = first_byte / 16;
    let packet_type = PacketType::from_nibble(type_bits);
    let remaining_length = match variable_integer::try_decode(buffer) {
        variable_integer::VliStatus::Value(v) => v,
        variable_integer::VliStatus::Short => { return HeaderStatus::NeedMore },
        variable_integer::VliStatus::TooLong => { return HeaderStatus::Malformed },
    };
    let flags = first_byte % 16;
    match packet_type {
        PacketType::PUBLISH => {
            let config = PublishConfig {
                dup: (flags / 8) % 2 == 1,
                qos: (flags / 2) % 4,
                retain: flags % 2 == 1,
            };
            HeaderStatus::Have(packet_type, Some(config), remaining_length as usize)
        },
        PacketType::PUBREL | PacketType::SUBSCRIBE | PacketType::UNSUBSCRIBE => {
            if flags != 2 {
                return HeaderStatus::Malformed;
            }
            HeaderStatus::Have(packet_type, None, remaining_length as usize)
        },
        _ => HeaderStatus::Have(packet_type, None, remaining_length as usize),
    }
}

/// Appends the fixed header for a body of `payload.len()` bytes.  PUBLISH
/// needs its delivery flags; without them the header cannot be formed.
pub fn encode_fixed_header(
    buffer: &mut BytesMut,
    packet_type: PacketType,
    payload: &BytesMut,
    config: Option<PublishConfig>,
) -> (r: Result<(), EncodeError>)
    requires
        packet_type == PacketType::PUBLISH ==> (match config {
            Some(c) => c.qos <= 3,
            None => true,
        }),
    ensures
        ({
            let publish_misconfigured = packet_type == PacketType::PUBLISH && config is None;
            if publish_misconfigured {
                r == Err::<(), EncodeError>(EncodeError::FormatError) && bytes_view(*final(buffer))
                    == bytes_view(*old(buffer))
            } else if bytes_view(*payload).len() > VLI_MAX {
                r == Err::<(), EncodeError>(EncodeError::VariableIntegerOutOfRangeError)
            } else {
                r == Ok::<(), EncodeError>(()) && bytes_view(*final(buffer)) == bytes_view(
                    *old(buffer),
                ) + fixed_header_bytes(packet_type, config, bytes_view(*payload).len() as int)
            }
        }),
{
    let code = packet_type.to_byte();
    let base = code * 16;
    let first_byte: u8 = match packet_type {
        PacketType::PUBLISH => {
            match config {
                Some(c) => base + (if c.dup {
                    8
                } else {
                    0
                }) + c.qos * 2 + (if c.retain {
                    1
                } else {
                    0
                }),
                None => { return Err(EncodeError::FormatError) },
            }
        },
        PacketType::PUBREL | PacketType::SUBSCRIBE | PacketType::UNSUBSCRIBE => base + 2,
        _ => base,
    };
    buf_put_u8(buffer, first_byte);
    let len = buf_len(payload);
    match variable_integer::encode(buffer, len as u64) {
        Ok(u) => u,
        Err(e) => { return Err(e) },
    };
    proof {
        assert(bytes_view(*buffer) =~= bytes_view(*old(buffer)) + fixed_header_bytes(
            packet_type,
            config,
            bytes_view(*payload).len() as int,
        ));
    }
    Ok(())
}

/// Reads the fixed header, consuming it on success.  A buffer that ends
/// inside the header is a format error here; the stream codec reads headers
/// through its own non-committing path instead.
pub fn decode_fixed_header(buffer: &mut BytesMut) -> (r: Result<
    (PacketType, Option<PublishConfig>, usize),
    DecodeError,
>)
    ensures
        match parse_fixed_header(bytes_view(*old(buffer))) {
            HeaderParse::Hdr { t, config, remaining, used } => r == Ok::<
                (PacketType, Option<PublishConfig>, usize),
                DecodeError,
            >((t, config, remaining as usize)) && bytes_view(*final(buffer)) == bytes_view(
                *old(buffer),
            ).skip(used),
            HeaderParse::Incomplete => r == Err::<
                (PacketType, Option<PublishConfig>, usize),
                DecodeError,
            >(DecodeError::FormatError),
            HeaderParse::Bad => r == Err::<
                (PacketType, Option<PublishConfig>, usize),
                DecodeError,
            >(DecodeError::FormatError),
        },
{
    match read_fixed_header(buffer) {
        HeaderStatus::Have(t, config, remaining) => Ok((t, config, remaining)),
        HeaderStatus::NeedMore => Err(DecodeError::FormatError),
        HeaderStatus::Malformed => Err(DecodeError::FormatError),
    }
}

/// Decoding a fixed header written for body length `len`, whatever follows
/// it, gives back the type, the PUBLISH flags when present, and `len`, and
/// consumes exactly the header.
pub proof fn lemma_fixed_header_round_trip(
    t: PacketType,
    config: Option<PublishConfig>,
    len: int,
    rest: Seq<u8>,
)
    requires
        0 <= len <= VLI_MAX,
        t == PacketType::PUBLISH ==> (config matches Some(c) && c.qos <= 3),
        t != PacketType::PUBLISH ==> config is None,
    ensures
        ({
            let h = fixed_header_bytes(t, config, len);
            parse_fixed_header(h + rest) == (HeaderParse::Hdr {
                t,
                config,
                remaining: len,
                used: h.len() as int,
            }) && 2 <= h.len() <= 5
        }),
{
    let h = fixed_header_bytes(t, config, len);
    let s = h + rest;
    let fb = first_byte_of(t, config);
    assert(s[0] == fb);
    assert(s.skip(1) =~= vli_bytes(len) + rest);
    variable_integer::lemma_vli_round_trip(len, rest);
    assert(packet_type_code(t) <= 15);
    if t == PacketType::PUBLISH {
        let c = config->Some_0;
        let flagval = (if c.dup {
            8int
        } else {
            0int
        }) + c.qos as int * 2 + (if c.retain {
            1int
        } else {
            0int
        });
        assert(0 <= flagval <= 15);
        assert(fb as int == packet_type_code(t) as int * 16 + flagval);
        assert(fb as int / 16 == packet_type_code(t) as int && fb as int % 16 == flagval);
        assert(packet_type_of_code((fb as int / 16) as u8) == t);
        assert(publish_config_of_flags((fb as int % 16) as u8) == c);
    } else {
        let flagval: int = if has_reserved_flags(t) {
            2
        } else {
            0
        };
        assert(fb as int == packet_type_code(t) as int * 16 + flagval);
        assert(fb as int / 16 == packet_type_code(t) as int && fb as int % 16 == flagval);
        assert(packet_type_of_code((fb as int / 16) as u8) == t);
    }
}

} // verus!
