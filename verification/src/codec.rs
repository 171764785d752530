//! The MQTT stream codec: reads one whole packet from a growing buffer,
//! committing bytes only once a complete frame is present, and writes one
//! contiguous frame per packet.

use vstd::prelude::*;

use bytes::BytesMut;

use crate::bytebuf::buf_advance;
use crate::bytebuf::buf_append;
use crate::bytebuf::buf_clone;
use crate::bytebuf::buf_len;
use crate::bytebuf::buf_new;
use crate::bytebuf::bytes_view;
use crate::connack::ConnackPacket;
use crate::connect::ConnectPacket;
use crate::disconnect::DisconnectPacket;
use crate::error::DecodeError;
use crate::error::EncodeError;
use crate::header::encode_fixed_header;
use crate::header::fixed_header_bytes;
use crate::header::parse_fixed_header;
use crate::header::read_fixed_header;
use crate::header::HeaderParse;
use crate::header::HeaderStatus;
use crate::pingreq::PingReqPacket;
use crate::pingresp::PingRespPacket;
use crate::puback::PubackPacket;
use crate::publish::PublishConfig;
use crate::publish::PublishPacket;
use crate::suback::SubackPacket;
use crate::subscribe::SubscribePacket;
use crate::types::body_bytes;
use crate::types::packet_body_err;
use crate::types::packet_enc_req;
use crate::types::packet_type_of;
use crate::types::DecodedPacket;
use crate::types::DecodedPacketV;
use crate::types::PacketType;
use crate::unsuback::UnsubackPacket;
use crate::unsubscribe::UnsubscribePacket;
use crate::variable_integer::VLI_MAX;
use crate::wire::PRes;

verus! {

broadcast use
    vstd::seq_lib::lemma_seq_skip_of_skip,
    vstd::seq_lib::lemma_seq_skip_len,
    vstd::seq_lib::lemma_seq_skip_index,
;

/// The PUBLISH delivery flags a packet carries into its fixed header;
/// nothing for the other kinds.
pub open spec fn packet_config(p: DecodedPacketV) -> Option<PublishConfig> {
    match p {
        DecodedPacketV::Publish(b) => Some(b.config),
        _ => None,
    }
}

/// The whole frame of a packet: its fixed header, then its body.
pub open spec fn frame_bytes(p: DecodedPacketV) -> Seq<u8> {
    fixed_header_bytes(packet_type_of(p), packet_config(p), body_bytes(p).len() as int)
        + body_bytes(p)
}

/// What one decode attempt on a buffer yields: a packet and the bytes it
/// occupied, a request for more bytes, or a terminal error.
pub enum FrameParse {
    Pkt { p: DecodedPacketV, used: int },
    Incomplete,
    Bad { e: DecodeError },
}

/// Reads one frame from the front of `s`: the fixed header, then — only
/// when the declared remaining length is fully buffered — the body of the
/// header's packet type.  A type without a body codec here is a terminal
/// format error, never "more bytes".
pub open spec fn parse_frame(s: Seq<u8>) -> FrameParse {
    if s.len() < 2 {
        FrameParse::Incomplete
    } else {
        match parse_fixed_header(s) {
            HeaderParse::Incomplete => FrameParse::Incomplete,
            HeaderParse::Bad => FrameParse::Bad { e: DecodeError::FormatError },
            HeaderParse::Hdr { t, config, remaining, used } => {
                if s.len() - used < remaining {
                    FrameParse::Incomplete
                } else {
                    let b = s.skip(used);
                    let body: PRes<DecodedPacketV> = if t == PacketType::CONNECT {
                        wrap_body(crate::connect::parse_connect(b), |x: crate::connect::ConnectPacketV| DecodedPacketV::Connect(x))
                    } else if t == PacketType::CONNACK {
                        wrap_body(crate::connack::parse_connack(b), |x: crate::connack::ConnackPacketV| DecodedPacketV::Connack(x))
                    } else if t == PacketType::PUBLISH {
                        wrap_body(crate::publish::parse_publish(b, config->Some_0, remaining), |x: crate::publish::PublishPacketV| DecodedPacketV::Publish(x))
                    } else if t == PacketType::PUBACK {
                        wrap_body(crate::puback::parse_puback(b, remaining), |x: crate::puback::PubackPacketV| DecodedPacketV::Puback(x))
                    } else if t == PacketType::SUBSCRIBE {
                        wrap_body(crate::subscribe::parse_subscribe(b, remaining), |x: crate::subscribe::SubscribePacketV| DecodedPacketV::Subscribe(x))
                    } else if t == PacketType::SUBACK {
                        wrap_body(crate::suback::parse_suback(b, remaining), |x: crate::suback::SubackPacketV| DecodedPacketV::Suback(x))
                    } else if t == PacketType::UNSUBSCRIBE {
                        wrap_body(crate::unsubscribe::parse_unsubscribe(b, remaining), |x: crate::unsubscribe::UnsubscribePacketV| DecodedPacketV::Unsubscribe(x))
                    } else if t == PacketType::UNSUBACK {
                        wrap_body(crate::unsuback::parse_unsuback(b, remaining), |x: crate::unsuback::UnsubackPacketV| DecodedPacketV::Unsuback(x))
                    } else if t == PacketType::PINGREQ {
                        PRes::Got { v: DecodedPacketV::PingReq, used: 0 }
                    } else if t == PacketType::PINGRESP {
                        PRes::Got { v: DecodedPacketV::PingResp, used: 0 }
                    } else if t == PacketType::DISCONNECT {
                        wrap_body(crate::disconnect::parse_disconnect(b), |x: crate::disconnect::DisconnectPacketV| DecodedPacketV::Disconnect(x))
                    } else {
                        PRes::Fail { e: DecodeError::FormatError }
                    };
                    match body {
                        PRes::Got { v, used: u2 } => FrameParse::Pkt { p: v, used: used + u2 },
                        PRes::Fail { e } => FrameParse::Bad { e },
                    }
                }
            },
        }
    }
}

/// Lifts a body parse into the packet union.
pub open spec fn wrap_body<T>(r: PRes<T>, f: spec_fn(T) -> DecodedPacketV) -> PRes<
    DecodedPacketV,
> {
    match r {
        PRes::Got { v, used } => PRes::Got { v: f(v), used },
        PRes::Fail { e } => PRes::Fail { e },
    }
}

/// The streaming MQTT packet codec.
pub struct MQTTCodec {}

impl MQTTCodec {
    /// Attempts to read one packet.  A whole frame yields the packet and
    /// consumes exactly its bytes; too few buffered bytes yield nothing and
    /// leave the buffer untouched; a malformed frame is a terminal error
    /// that also leaves the buffer untouched.
    #[verifier::rlimit(100)]
    #[verifier::spinoff_prover]
    pub fn decode(&mut self, buffer: &mut BytesMut) -> (r: Result<
        Option<DecodedPacket>,
        DecodeError,
    >)
        ensures
            match parse_frame(bytes_view(*old(buffer))) {
                FrameParse::Pkt { p, used } => r matches Ok(Some(pkt)) && pkt@ == p && 0 <= used
                    <= bytes_view(*old(buffer)).len() && bytes_view(*final(buffer)) == bytes_view(
                    *old(buffer),
                ).skip(used),
                FrameParse::Incomplete => r == Ok::<Option<DecodedPacket>, DecodeError>(None)
                    && bytes_view(*final(buffer)) == bytes_view(*old(buffer)),
                FrameParse::Bad { e } => r == Err::<Option<DecodedPacket>, DecodeError>(e)
                    && bytes_view(*final(buffer)) == bytes_view(*old(buffer)),
            },
    {
        let ghost s = bytes_view(*buffer);
        let mut read_buffer = buf_clone(buffer);
        if buf_len(&read_buffer) < 2 {
            return Ok(None);
        }
        let (packet_type, publish_config, remaining_length) = match read_fixed_header(
            &mut read_buffer,
        ) {
            HeaderStatus::Have(t, c, l) => (t, c, l),
            HeaderStatus::NeedMore => { return Ok(None) },
            HeaderStatus::Malformed => { return Err(DecodeError::FormatError) },
        };
        if buf_len(&read_buffer) < remaining_length {
            return Ok(None);
        }
        let decoded_packet = match packet_type {
            PacketType::CONNECT => ConnectPacket::decode(&mut read_buffer),
            PacketType::CONNACK => ConnackPacket::decode(&mut read_buffer),
            PacketType::PUBLISH => {
                match publish_config {
                    Some(config) => PublishPacket::decode(
                        &mut read_buffer,
                        config,
                        remaining_length,
                    ),
                    None => { return Err(DecodeError::FormatError) },
                }
            },
            PacketType::PUBACK => PubackPacket::decode(&mut read_buffer, remaining_length),
            PacketType::SUBSCRIBE => SubscribePacket::decode(&mut read_buffer, remaining_length),
            PacketType::SUBACK => SubackPacket::decode(&mut read_buffer, remaining_length),
            PacketType::UNSUBSCRIBE => UnsubscribePacket::decode(
                &mut read_buffer,
                remaining_length,
            ),
            PacketType::UNSUBACK => UnsubackPacket::decode(&mut read_buffer, remaining_length),
            PacketType::PINGREQ => PingReqPacket::decode(&mut read_buffer),
            PacketType::PINGRESP => PingRespPacket::decode(&mut read_buffer),
            PacketType::DISCONNECT => DisconnectPacket::decode(&mut read_buffer),
            _ => { return Err(DecodeError::FormatError) },
        };
        let decoded_packet = match decoded_packet {
            Ok(p) => p,
            Err(e) => { return Err(e) },
        };
        let consumed = buf_len(buffer) - buf_len(&read_buffer);
        buf_advance(buffer, consumed);
        Ok(Some(decoded_packet))
    }

    /// Serializes the body into a scratch buffer to learn its length, then
    /// appends the fixed header and the body as one contiguous frame.
    pub fn encode(&mut self, item: DecodedPacket, buffer: &mut BytesMut) -> (r: Result<
        (),
        EncodeError,
    >)
        requires
            packet_enc_req(item@),
        ensures
            match packet_body_err(item@) {
                Some(e) => r == Err::<(), EncodeError>(e) && bytes_view(*final(buffer))
                    == bytes_view(*old(buffer)),
                None => {
                    if body_bytes(item@).len() > VLI_MAX {
                        r == Err::<(), EncodeError>(EncodeError::VariableIntegerOutOfRangeError)
                    } else {
                        r == Ok::<(), EncodeError>(()) && bytes_view(*final(buffer)) == bytes_view(
                            *old(buffer),
                        ) + frame_bytes(item@)
                    }
                },
            },
    {
        let mut content = buf_new();
        match item.encode(&mut content) {
            Ok(u) => u,
            Err(e) => { return Err(e) },
        };
        let packet_type = item.get_type();
        let config = match &item {
            DecodedPacket::Publish(packet) => Some(packet.config),
            _ => None,
        };
        match encode_fixed_header(buffer, packet_type, &content, config) {
            Ok(u) => u,
            Err(e) => { return Err(e) },
        };
        buf_append(buffer, &content);
        proof {
            assert(bytes_view(*buffer) =~= bytes_view(*old(buffer)) + frame_bytes(item@));
        }
        Ok(())
    }
}

/// A packet that encodes and decodes back to itself: its body does, and the
/// body fits the fixed header's remaining-length field.
pub open spec fn packet_wf(p: DecodedPacketV) -> bool {
    body_bytes(p).len() <= VLI_MAX && (match p {
        DecodedPacketV::Connect(b) => crate::connect::connect_wf(b),
        DecodedPacketV::Connack(b) => crate::connack::connack_wf(b),
        DecodedPacketV::Publish(b) => crate::publish::publish_wf(b) && b.config.qos <= 3,
        DecodedPacketV::Puback(b) => crate::puback::puback_wf(b),
        DecodedPacketV::Subscribe(b) => crate::subscribe::subscribe_wf(b),
        DecodedPacketV::Suback(b) => crate::suback::suback_wf(b),
        DecodedPacketV::Unsubscribe(b) => crate::unsubscribe::unsubscribe_wf(b),
        DecodedPacketV::Unsuback(b) => crate::unsuback::unsuback_wf(b),
        DecodedPacketV::PingReq => true,
        DecodedPacketV::PingResp => true,
        DecodedPacketV::Disconnect(b) => crate::disconnect::disconnect_wf(b),
    })
}

#[verifier::rlimit(100)]
#[verifier::spinoff_prover]
proof fn lemma_packet_round_trip_connect(p: DecodedPacketV, rest: Seq<u8>)
    requires
        packet_wf(p),
        p matches DecodedPacketV::Connect(b),
    ensures
        parse_frame(frame_bytes(p) + rest) == (FrameParse::Pkt {
            p,
            used: frame_bytes(p).len() as int,
        }),
{
    let t = packet_type_of(p);
    let config = packet_config(p);
    let body = body_bytes(p);
    let len = body.len() as int;
    let h = fixed_header_bytes(t, config, len);
    let s = frame_bytes(p) + rest;
    crate::header::lemma_fixed_header_round_trip(t, config, len, body + rest);
    assert(s =~= h + (body + rest));
    crate::wire::lemma_concat_skip(h, body + rest);
    assert(s.skip(h.len() as int) == body + rest);
    match p {
        DecodedPacketV::Connect(b) => {
            crate::connect::lemma_connect_round_trip(b, rest);
        },
        _ => {},
    }
}

#[verifier::rlimit(100)]
#[verifier::spinoff_prover]
proof fn lemma_packet_round_trip_connack(p: DecodedPacketV, rest: Seq<u8>)
    requires
        packet_wf(p),
        p matches DecodedPacketV::Connack(b),
    ensures
        parse_frame(frame_bytes(p) + rest) == (FrameParse::Pkt {
            p,
            used: frame_bytes(p).len() as int,
        }),
{
    let t = packet_type_of(p);
    let config = packet_config(p);
    let body = body_bytes(p);
    let len = body.len() as int;
    let h = fixed_header_bytes(t, config, len);
    let s = frame_bytes(p) + rest;
    crate::header::lemma_fixed_header_round_trip(t, config, len, body + rest);
    assert(s =~= h + (body + rest));
    crate::wire::lemma_concat_skip(h, body + rest);
    assert(s.skip(h.len() as int) == body + rest);
    match p {
        DecodedPacketV::Connack(b) => {
            crate::connack::lemma_connack_round_trip(b, rest);
        },
        _ => {},
    }
}

#[verifier::rlimit(100)]
#[verifier::spinoff_prover]
proof fn lemma_packet_round_trip_publish(p: DecodedPacketV, rest: Seq<u8>)
    requires
        packet_wf(p),
        p matches DecodedPacketV::Publish(b),
    ensures
        parse_frame(frame_bytes(p) + rest) == (FrameParse::Pkt {
            p,
            used: frame_bytes(p).len() as int,
        }),
{
    let t = packet_type_of(p);
    let config = packet_config(p);
    let body = body_bytes(p);
    let len = body.len() as int;
    let h = fixed_header_bytes(t, config, len);
    let s = frame_bytes(p) + rest;
    crate::header::lemma_fixed_header_round_trip(t, config, len, body + rest);
    assert(s =~= h + (body + rest));
    crate::wire::lemma_concat_skip(h, body + rest);
    assert(s.skip(h.len() as int) == body + rest);
    match p {
        DecodedPacketV::Publish(b) => {
            crate::publish::lemma_publish_round_trip(b, rest);
        },
        _ => {},
    }
}

#[verifier::rlimit(100)]
#[verifier::spinoff_prover]
proof fn lemma_packet_round_trip_puback(p: DecodedPacketV, rest: Seq<u8>)
    requires
        packet_wf(p),
        p matches DecodedPacketV::Puback(b),
    ensures
        parse_frame(frame_bytes(p) + rest) == (FrameParse::Pkt {
            p,
            used: frame_bytes(p).len() as int,
        }),
{
    let t = packet_type_of(p);
    let config = packet_config(p);
    let body = body_bytes(p);
    let len = body.len() as int;
    let h = fixed_header_bytes(t, config, len);
    let s = frame_bytes(p) + rest;
    crate::header::lemma_fixed_header_round_trip(t, config, len, body + rest);
    assert(s =~= h + (body + rest));
    crate::wire::lemma_concat_skip(h, body + rest);
    assert(s.skip(h.len() as int) == body + rest);
    match p {
        DecodedPacketV::Puback(b) => {
            crate::puback::lemma_puback_round_trip(b, rest);
        },
        _ => {},
    }
}

#[verifier::rlimit(100)]
#[verifier::spinoff_prover]
proof fn lemma_packet_round_trip_pingreq(p: DecodedPacketV, rest: Seq<u8>)
    requires
        packet_wf(p),
        p matches DecodedPacketV::PingReq,
    ensures
        parse_frame(frame_bytes(p) + rest) == (FrameParse::Pkt {
            p,
            used: frame_bytes(p).len() as int,
        }),
{
    let t = packet_type_of(p);
    let config = packet_config(p);
    let body = body_bytes(p);
    let len = body.len() as int;
    let h = fixed_header_bytes(t, config, len);
    let s = frame_bytes(p) + rest;
    crate::header::lemma_fixed_header_round_trip(t, config, len, body + rest);
    assert(s =~= h + (body + rest));
    crate::wire::lemma_concat_skip(h, body + rest);
    assert(s.skip(h.len() as int) == body + rest);
    match p {
        DecodedPacketV::PingReq => {
            
        },
        _ => {},
    }
}

#[verifier::rlimit(100)]
#[verifier::spinoff_prover]
proof fn lemma_packet_round_trip_pingresp(p: DecodedPacketV, rest: Seq<u8>)
    requires
        packet_wf(p),
        p matches DecodedPacketV::PingResp,
    ensures
        parse_frame(frame_bytes(p) + rest) == (FrameParse::Pkt {
            p,
            used: frame_bytes(p).len() as int,
        }),
{
    let t = packet_type_of(p);
    let config = packet_config(p);
    let body = body_bytes(p);
    let len = body.len() as int;
    let h = fixed_header_bytes(t, config, len);
    let s = frame_bytes(p) + rest;
    crate::header::lemma_fixed_header_round_trip(t, config, len, body + rest);
    assert(s =~= h + (body + rest));
    crate::wire::lemma_concat_skip(h, body + rest);
    assert(s.skip(h.len() as int) == body + rest);
    match p {
        DecodedPacketV::PingResp => {
            
        },
        _ => {},
    }
}

#[verifier::rlimit(100)]
#[verifier::spinoff_prover]
proof fn lemma_packet_round_trip_subscribe(p: DecodedPacketV, rest: Seq<u8>)
    requires
        packet_wf(p),
        p matches DecodedPacketV::Subscribe(b),
    ensures
        parse_frame(frame_bytes(p) + rest) == (FrameParse::Pkt {
            p,
            used: frame_bytes(p).len() as int,
        }),
{
    let t = packet_type_of(p);
    let config = packet_config(p);
    let body = body_bytes(p);
    let len = body.len() as int;
    let h = fixed_header_bytes(t, config, len);
    let s = frame_bytes(p) + rest;
    crate::header::lemma_fixed_header_round_trip(t, config, len, body + rest);
    assert(s =~= h + (body + rest));
    crate::wire::lemma_concat_skip(h, body + rest);
    assert(s.skip(h.len() as int) == body + rest);
    match p {
        DecodedPacketV::Subscribe(b) => {
            crate::subscribe::lemma_subscribe_round_trip(b, rest);
        },
        _ => {},
    }
}

#[verifier::rlimit(100)]
#[verifier::spinoff_prover]
proof fn lemma_packet_round_trip_suback(p: DecodedPacketV, rest: Seq<u8>)
    requires
        packet_wf(p),
        p matches DecodedPacketV::Suback(b),
    ensures
        parse_frame(frame_bytes(p) + rest) == (FrameParse::Pkt {
            p,
            used: frame_bytes(p).len() as int,
        }),
{
    let t = packet_type_of(p);
    let config = packet_config(p);
    let body = body_bytes(p);
    let len = body.len() as int;
    let h = fixed_header_bytes(t, config, len);
    let s = frame_bytes(p) + rest;
    crate::header::lemma_fixed_header_round_trip(t, config, len, body + rest);
    assert(s =~= h + (body + rest));
    crate::wire::lemma_concat_skip(h, body + rest);
    assert(s.skip(h.len() as int) == body + rest);
    match p {
        DecodedPacketV::Suback(b) => {
            crate::suback::lemma_suback_round_trip(b, rest);
        },
        _ => {},
    }
}

#[verifier::rlimit(100)]
#[verifier::spinoff_prover]
proof fn lemma_packet_round_trip_unsubscribe(p: DecodedPacketV, rest: Seq<u8>)
    requires
        packet_wf(p),
        p matches DecodedPacketV::Unsubscribe(b),
    ensures
        parse_frame(frame_bytes(p) + rest) == (FrameParse::Pkt {
            p,
            used: frame_bytes(p).len() as int,
        }),
{
    let t = packet_type_of(p);
    let config = packet_config(p);
    let body = body_bytes(p);
    let len = body.len() as int;
    let h = fixed_header_bytes(t, config, len);
    let s = frame_bytes(p) + rest;
    crate::header::lemma_fixed_header_round_trip(t, config, len, body + rest);
    assert(s =~= h + (body + rest));
    crate::wire::lemma_concat_skip(h, body + rest);
    assert(s.skip(h.len() as int) == body + rest);
    match p {
        DecodedPacketV::Unsubscribe(b) => {
            crate::unsubscribe::lemma_unsubscribe_round_trip(b, rest);
        },
        _ => {},
    }
}

#[verifier::rlimit(100)]
#[verifier::spinoff_prover]
proof fn lemma_packet_round_trip_unsuback(p: DecodedPacketV, rest: Seq<u8>)
    requires
        packet_wf(p),
        p matches DecodedPacketV::Unsuback(b),
    ensures
        parse_frame(frame_bytes(p) + rest) == (FrameParse::Pkt {
            p,
            used: frame_bytes(p).len() as int,
        }),
{
    let t = packet_type_of(p);
    let config = packet_config(p);
    let body = body_bytes(p);
    let len = body.len() as int;
    let h = fixed_header_bytes(t, config, len);
    let s = frame_bytes(p) + rest;
    crate::header::lemma_fixed_header_round_trip(t, config, len, body + rest);
    assert(s =~= h + (body + rest));
    crate::wire::lemma_concat_skip(h, body + rest);
    assert(s.skip(h.len() as int) == body + rest);
    match p {
        DecodedPacketV::Unsuback(b) => {
            crate::unsuback::lemma_unsuback_round_trip(b, rest);
        },
        _ => {},
    }
}

#[verifier::rlimit(100)]
#[verifier::spinoff_prover]
proof fn lemma_packet_round_trip_disconnect(p: DecodedPacketV, rest: Seq<u8>)
    requires
        packet_wf(p),
        p matches DecodedPacketV::Disconnect(b),
    ensures
        parse_frame(frame_bytes(p) + rest) == (FrameParse::Pkt {
            p,
            used: frame_bytes(p).len() as int,
        }),
{
    let t = packet_type_of(p);
    let config = packet_config(p);
    let body = body_bytes(p);
    let len = body.len() as int;
    let h = fixed_header_bytes(t, config, len);
    let s = frame_bytes(p) + rest;
    crate::header::lemma_fixed_header_round_trip(t, config, len, body + rest);
    assert(s =~= h + (body + rest));
    crate::wire::lemma_concat_skip(h, body + rest);
    assert(s.skip(h.len() as int) == body + rest);
    match p {
        DecodedPacketV::Disconnect(b) => {
            crate::disconnect::lemma_disconnect_round_trip(b, rest);
        },
        _ => {},
    }
}

/// Decoding the frame of a well-formed packet, whatever follows it, gives
/// back the packet and consumes exactly the frame.
pub proof fn lemma_packet_round_trip(p: DecodedPacketV, rest: Seq<u8>)
    requires
        packet_wf(p),
    ensures
        parse_frame(frame_bytes(p) + rest) == (FrameParse::Pkt {
            p,
            used: frame_bytes(p).len() as int,
        }),
{
    match p {
        DecodedPacketV::Connect(_) => lemma_packet_round_trip_connect(p, rest),
        DecodedPacketV::Connack(_) => lemma_packet_round_trip_connack(p, rest),
        DecodedPacketV::Publish(_) => lemma_packet_round_trip_publish(p, rest),
        DecodedPacketV::Puback(_) => lemma_packet_round_trip_puback(p, rest),
        DecodedPacketV::PingReq => lemma_packet_round_trip_pingreq(p, rest),
        DecodedPacketV::PingResp => lemma_packet_round_trip_pingresp(p, rest),
        DecodedPacketV::Subscribe(_) => lemma_packet_round_trip_subscribe(p, rest),
        DecodedPacketV::Suback(_) => lemma_packet_round_trip_suback(p, rest),
        DecodedPacketV::Unsubscribe(_) => lemma_packet_round_trip_unsubscribe(p, rest),
        DecodedPacketV::Unsuback(_) => lemma_packet_round_trip_unsuback(p, rest),
        DecodedPacketV::Disconnect(_) => lemma_packet_round_trip_disconnect(p, rest),
    }
}

/// Any strict prefix of a well-formed packet's frame — a buffer that stops
/// even one byte short — asks for more bytes rather than failing, and the
/// codec then leaves the buffer untouched.
#[verifier::rlimit(100)]
#[verifier::spinoff_prover]
pub proof fn lemma_frame_prefix_incomplete(p: DecodedPacketV, k: int)
    requires
        packet_wf(p),
        0 <= k < frame_bytes(p).len(),
    ensures
        parse_frame(frame_bytes(p).take(k)) == FrameParse::Incomplete,
{
    let t = packet_type_of(p);
    let config = packet_config(p);
    let body = body_bytes(p);
    let len = body.len() as int;
    let h = fixed_header_bytes(t, config, len);
    let s = frame_bytes(p).take(k);
    crate::header::lemma_fixed_header_round_trip(t, config, len, body);
    assert(frame_bytes(p) =~= h + body);
    if k < 2 {
    } else if k < h.len() {
        // the header itself is cut inside its remaining-length integer
        let lb = crate::variable_integer::vli_bytes(len);
        assert(s[0] == h[0]);
        assert(s.skip(1) =~= lb.take(k - 1));
        crate::variable_integer::lemma_vli_prefix_short(len, k - 1);
    } else {
        // the header is whole; the body is cut
        assert(s =~= h + body.take(k - h.len() as int));
        crate::header::lemma_fixed_header_round_trip(t, config, len, body.take(
            k - h.len() as int,
        ));
        assert(s.len() - h.len() < len);
    }
}

} // verus!
