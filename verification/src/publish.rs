//! The PUBLISH packet: a topic, an identifier when the delivery level asks
//! for acknowledgement, properties, and the message payload.

use vstd::prelude::*;
use vstd::string::StrSliceExecFns;

use bytes::BytesMut;

use crate::bytebuf::bytes_view;
use crate::error::DecodeError;
use crate::error::EncodeError;
use crate::property::view_props;
use crate::property::Property;
use crate::property::PropertyV;
use crate::types::DecodedPacket;
use crate::bytebuf::buf_put_u16;
use crate::bytebuf::buf_put_slice;
use crate::bytebuf::buf_len;
use crate::bytebuf::u16_be_bytes;
use crate::property::parse_properties;
use crate::property::props_block_bytes;
use crate::property::props_bytes;
use crate::property::props_enc_err;
use crate::property::props_wf;
use crate::utils::decode_utf8;
use crate::utils::decode_utf8_with_length;
use crate::utils::encode_utf8;
use crate::utils::parse_str;
use crate::utils::parse_str_n;
use crate::utils::utf8_frame_bytes;
use crate::variable_integer::VLI_MAX;
use crate::wire::read_u16;
use crate::wire::parse_u16;
use crate::wire::PRes;

verus! {

broadcast use
    vstd::seq_lib::lemma_seq_skip_of_skip,
    vstd::seq_lib::lemma_seq_skip_len,
    vstd::seq_lib::lemma_seq_skip_index,
;

/// An application message.
#[derive(Clone, Debug, PartialEq)]
pub struct PublishPacket {
    pub topic: String,
    pub packet_id: Option<u16>,
    pub payload: String,
    pub config: PublishConfig,
    pub properties: Vec<Property>,
}

/// The delivery flags packed into the fixed header's low nibble for PUBLISH.
#[derive(Default, Debug, PartialEq, Eq, Structural, Clone, Copy)]
pub struct PublishConfig {
    pub dup: bool,
    pub qos: u8,
    pub retain: bool,
}

/// The mathematical shape of a PUBLISH packet.
pub struct PublishPacketV {
    pub topic: Seq<char>,
    pub packet_id: Option<u16>,
    pub payload: Seq<char>,
    pub config: PublishConfig,
    pub properties: Seq<PropertyV>,
}

impl View for PublishPacket {
    type V = PublishPacketV;

    open spec fn view(&self) -> PublishPacketV {
        PublishPacketV {
            topic: self.topic@,
            packet_id: self.packet_id,
            payload: self.payload@,
            config: self.config,
            properties: view_props(self.properties@),
        }
    }
}

/// The body bytes of a PUBLISH packet: the framed topic, the identifier
/// when one is present, the property block, and the raw payload bytes.
pub open spec fn publish_bytes(p: PublishPacketV) -> Seq<u8> {
    utf8_frame_bytes(p.topic) + (match p.packet_id {
        Some(id) => u16_be_bytes(id),
        None => Seq::<u8>::empty(),
    }) + props_block_bytes(p.properties) + vstd::utf8::encode_utf8(p.payload)
}

/// A framed topic, an identifier when the delivery level asks for
/// acknowledgement, properties, and whatever the declared remaining length
/// still owes as the UTF-8 payload.
#[verifier::opaque]
pub open spec fn parse_publish(s: Seq<u8>, config: PublishConfig, remaining: int) -> PRes<
    PublishPacketV,
> {
    match parse_str(s) {
        PRes::Fail { e } => PRes::Fail { e },
        PRes::Got { v: topic, used: u0 } => {
            let id_res: PRes<Option<u16>> = if config.qos == 0 {
                PRes::Got { v: None, used: 0 }
            } else {
                match parse_u16(s.skip(u0)) {
                    PRes::Fail { e } => PRes::Fail { e },
                    PRes::Got { v: id, used: u } => PRes::Got { v: Some(id), used: u },
                }
            };
            match id_res {
                PRes::Fail { e } => PRes::Fail { e },
                PRes::Got { v: packet_id, used: u1 } => {
                    match parse_properties(s.skip(u0 + u1)) {
                        PRes::Fail { e } => PRes::Fail { e },
                        PRes::Got { v: ps, used: u2 } => {
                            if u0 + u1 + u2 > remaining {
                                PRes::Fail { e: DecodeError::FormatError }
                            } else {
                                match parse_str_n(
                                    s.skip(u0 + u1 + u2),
                                    remaining - u0 - u1 - u2,
                                ) {
                                    PRes::Fail { e } => PRes::Fail { e },
                                    PRes::Got { v: payload, used: u3 } => PRes::Got {
                                        v: PublishPacketV {
                                            topic,
                                            packet_id,
                                            payload,
                                            config,
                                            properties: ps,
                                        },
                                        used: remaining,
                                    },
                                }
                            }
                        },
                    }
                },
            }
        },
    }
}

impl PublishPacket {
    /// Appends this packet's body: the framed topic, the identifier when one
    /// is present, the property block, and the raw payload bytes.
    pub fn encode(&self, buffer: &mut BytesMut) -> (r: Result<(), EncodeError>)
        ensures
            match props_enc_err(self@.properties) {
                Some(e) => r == Err::<(), EncodeError>(e),
                None => r == Ok::<(), EncodeError>(()) && bytes_view(*final(buffer)) == bytes_view(
                    *old(buffer),
                ) + publish_bytes(self@),
            },
    {
        encode_utf8(buffer, self.topic.as_str());
        match self.packet_id {
            Some(identifier) => buf_put_u16(buffer, identifier),
            None => {},
        }
        match Property::encode(buffer, &self.properties) {
            Ok(u) => u,
            Err(e) => { return Err(e) },
        };
        let payload_bytes = self.payload.as_str().as_bytes_vec();
        buf_put_slice(buffer, payload_bytes.as_slice());
        proof {
            assert(bytes_view(*buffer) =~= bytes_view(*old(buffer)) + publish_bytes(self@));
        }
        Ok(())
    }

    /// Reads this packet's body under the unpacked delivery flags and the
    /// declared remaining length; the payload is everything the remaining
    /// length still owes.
    pub fn decode(
        buffer: &mut BytesMut,
        publish_config: PublishConfig,
        remaining_length: usize,
    ) -> (r: Result<DecodedPacket, DecodeError>)
        ensures
            match parse_publish(bytes_view(*old(buffer)), publish_config, remaining_length as int) {
                PRes::Got { v, used } => r matches Ok(DecodedPacket::Publish(p)) && p@ == v && 0
                    <= used <= bytes_view(*old(buffer)).len() && bytes_view(*final(buffer))
                    == bytes_view(*old(buffer)).skip(used),
                PRes::Fail { e } => r matches Err(e2) && e2 == e,
            },
    {
        proof {
            reveal(parse_publish);
        }
        let ghost s = bytes_view(*buffer);
        let starting_length = buf_len(buffer);
        let topic = match decode_utf8(buffer) {
            Ok(t) => t,
            Err(e) => { return Err(e) },
        };
        let packet_id = if publish_config.qos == 0 {
            None
        } else {
            match read_u16(buffer) {
                Ok(id) => Some(id),
                Err(e) => { return Err(e) },
            }
        };
        let properties = match Property::decode(buffer) {
            Ok(ps) => ps,
            Err(e) => { return Err(e) },
        };
        let len_now = buf_len(buffer);
        let consumed = starting_length - len_now;
        if consumed > remaining_length {
            return Err(DecodeError::FormatError);
        }
        let payload_length = remaining_length - consumed;
        let payload = match decode_utf8_with_length(buffer, payload_length) {
            Ok(p) => p,
            Err(e) => { return Err(e) },
        };
        proof {
            assert(bytes_view(*buffer) =~= s.skip(remaining_length as int));
        }
        Ok(
            DecodedPacket::Publish(
                PublishPacket { topic, packet_id, payload, config: publish_config, properties },
            ),
        )
    }
}

/// A PUBLISH body that encodes and decodes back to itself under its own
/// length and flags: the topic fits its length prefix, and an identifier is
/// present exactly when the delivery level asks for acknowledgement.
pub open spec fn publish_wf(p: PublishPacketV) -> bool {
    &&& props_wf(p.properties)
    &&& props_bytes(p.properties).len() <= VLI_MAX
    &&& vstd::utf8::encode_utf8(p.topic).len() < 0x10000
    &&& (p.packet_id is Some <==> p.config.qos > 0)
}

/// Decoding the body bytes of a well-formed PUBLISH packet under their own
/// length and its flags, whatever follows them, gives back the packet and
/// consumes exactly the body.
#[verifier::rlimit(100)]
#[verifier::spinoff_prover]
pub proof fn lemma_publish_round_trip(p: PublishPacketV, rest: Seq<u8>)
    requires
        publish_wf(p),
    ensures
        parse_publish(publish_bytes(p) + rest, p.config, publish_bytes(p).len() as int) == (
        PRes::Got { v: p, used: publish_bytes(p).len() as int }),
{
    broadcast use vstd::utf8::encode_utf8_valid_utf8, vstd::utf8::encode_utf8_decode_utf8;

    reveal(parse_publish);
    let s = publish_bytes(p) + rest;
    let ft = utf8_frame_bytes(p.topic);
    let idb = (match p.packet_id {
        Some(id) => u16_be_bytes(id),
        None => Seq::<u8>::empty(),
    });
    let block = props_block_bytes(p.properties);
    let pb = vstd::utf8::encode_utf8(p.payload);
    crate::utils::lemma_str_round_trip(p.topic, idb + block + pb + rest);
    assert(s =~= ft + (idb + block + pb + rest));
    let u0 = ft.len() as int;
    match p.packet_id {
        Some(id) => {
            assert(s.skip(u0) =~= u16_be_bytes(id) + (block + pb + rest));
            crate::wire::lemma_u16_be_parse(id, block + pb + rest);
        },
        None => {},
    }
    let u1 = idb.len() as int;
    assert(s.skip(u0 + u1) =~= block + (pb + rest));
    crate::property::lemma_props_round_trip(p.properties, pb + rest);
    let u2 = block.len() as int;
    assert(s.skip(u0 + u1 + u2) =~= pb + rest);
    assert((pb + rest).take(pb.len() as int) =~= pb);
}

} // verus!
