//! The PUBACK packet: a packet identifier, a reason code, and properties
//! that are present only when the remaining length leaves room for them.

use vstd::prelude::*;

use bytes::BytesMut;

use crate::bytebuf::bytes_view;
use crate::error::DecodeError;
use crate::error::EncodeError;
use crate::property::view_props;
use crate::property::Property;
use crate::property::PropertyV;
use crate::reason_code::ReasonCode;
use crate::types::DecodedPacket;
use crate::bytebuf::buf_put_u8;
use crate::bytebuf::buf_put_u16;
use crate::bytebuf::u16_be_bytes;
use crate::property::parse_properties;
use crate::property::props_block_bytes;
use crate::property::props_bytes;
use crate::property::props_enc_err;
use crate::property::props_wf;
use crate::reason_code::parse_reason_code;
use crate::reason_code::reason_code_byte;
use crate::reason_code::lemma_reason_code_round_trip;
use crate::variable_integer::VLI_MAX;
use crate::wire::read_u16;
use crate::wire::parse_u16;
use crate::wire::PRes;

verus! {

broadcast use
    vstd::seq_lib::lemma_seq_skip_of_skip,
    vstd::seq_lib::lemma_seq_skip_len,
    vstd::seq_lib::lemma_seq_skip_index,
;

/// A publish acknowledgement.
#[derive(Clone, Debug, PartialEq)]
pub struct PubackPacket {
    pub packet_id: u16,
    pub reason_code: ReasonCode,
    pub properties: Vec<Property>,
}

/// The mathematical shape of a PUBACK packet.
pub struct PubackPacketV {
    pub packet_id: u16,
    pub reason_code: ReasonCode,
    pub properties: Seq<PropertyV>,
}

impl View for PubackPacket {
    type V = PubackPacketV;

    open spec fn view(&self) -> PubackPacketV {
        PubackPacketV {
            packet_id: self.packet_id,
            reason_code: self.reason_code,
            properties: view_props(self.properties@),
        }
    }
}

/// The body bytes of a PUBACK packet: the property block is left out
/// entirely when there are no properties.
pub open spec fn puback_bytes(p: PubackPacketV) -> Seq<u8> {
    u16_be_bytes(p.packet_id) + seq![reason_code_byte(p.reason_code)] + (if p.properties.len()
        == 0 {
        Seq::<u8>::empty()
    } else {
        props_block_bytes(p.properties)
    })
}

/// A packet identifier and a reason code; properties follow only when the
/// declared remaining length leaves at least four bytes after the first
/// three.
#[verifier::opaque]
pub open spec fn parse_puback(s: Seq<u8>, remaining: int) -> PRes<PubackPacketV> {
    match parse_u16(s) {
        PRes::Fail { e } => PRes::Fail { e },
        PRes::Got { v: id, used: u0 } => {
            match parse_reason_code(s.skip(u0)) {
                PRes::Fail { e } => PRes::Fail { e },
                PRes::Got { v: rc, used: u1 } => {
                    if remaining - 3 < 4 {
                        PRes::Got {
                            v: PubackPacketV {
                                packet_id: id,
                                reason_code: rc,
                                properties: Seq::empty(),
                            },
                            used: u0 + u1,
                        }
                    } else {
                        match parse_properties(s.skip(u0 + u1)) {
                            PRes::Fail { e } => PRes::Fail { e },
                            PRes::Got { v: ps, used: u2 } => PRes::Got {
                                v: PubackPacketV { packet_id: id, reason_code: rc, properties: ps },
                                used: u0 + u1 + u2,
                            },
                        }
                    }
                },
            }
        },
    }
}

impl PubackPacket {
    /// Appends this packet's body; the property block is left out entirely
    /// when there are no properties.
    pub fn encode(&self, buffer: &mut BytesMut) -> (r: Result<(), EncodeError>)
        ensures
            ({
                let err = if self@.properties.len() == 0 {
                    None
                } else {
                    props_enc_err(self@.properties)
                };
                match err {
                    Some(e) => r == Err::<(), EncodeError>(e),
                    None => r == Ok::<(), EncodeError>(()) && bytes_view(*final(buffer))
                        == bytes_view(*old(buffer)) + puback_bytes(self@),
                }
            }),
    {
        buf_put_u16(buffer, self.packet_id);
        buf_put_u8(buffer, self.reason_code.to_byte());
        if self.properties.len() > 0 {
            match Property::encode(buffer, &self.properties) {
                Ok(u) => u,
                Err(e) => { return Err(e) },
            };
        }
        proof {
            assert(bytes_view(*buffer) =~= bytes_view(*old(buffer)) + puback_bytes(self@));
        }
        Ok(())
    }

    /// Reads this packet's body under the declared remaining length.
    pub fn decode(buffer: &mut BytesMut, remaining_length: usize) -> (r: Result<
        DecodedPacket,
        DecodeError,
    >)
        ensures
            match parse_puback(bytes_view(*old(buffer)), remaining_length as int) {
                PRes::Got { v, used } => r matches Ok(DecodedPacket::Puback(p)) && p@ == v && 1
                    <= used <= bytes_view(*old(buffer)).len() && bytes_view(*final(buffer))
                    == bytes_view(*old(buffer)).skip(used),
                PRes::Fail { e } => r matches Err(e2) && e2 == e,
            },
    {
        proof {
            reveal(parse_puback);
        }
        let packet_id = match read_u16(buffer) {
            Ok(v) => v,
            Err(e) => { return Err(e) },
        };
        let reason_code = match ReasonCode::decode(buffer) {
            Ok(rc) => rc,
            Err(e) => { return Err(e) },
        };
        let properties = if remaining_length < 7 {
            Vec::new()
        } else {
            match Property::decode(buffer) {
                Ok(ps) => ps,
                Err(e) => { return Err(e) },
            }
        };
        proof {
            assert(crate::property::view_props(Seq::<Property>::empty())
                =~= Seq::<crate::property::PropertyV>::empty());
        }
        Ok(DecodedPacket::Puback(PubackPacket { packet_id, reason_code, properties }))
    }
}

/// A PUBACK body that encodes and decodes back to itself under its own
/// length: no properties, or a property block of at least four bytes.
pub open spec fn puback_wf(p: PubackPacketV) -> bool {
    props_wf(p.properties) && props_bytes(p.properties).len() <= VLI_MAX && (p.properties.len()
        == 0 || props_block_bytes(p.properties).len() >= 4)
}

/// Decoding the body bytes of a well-formed PUBACK packet under their own
/// length, whatever follows them, gives back the packet and consumes exactly
/// the body.
pub proof fn lemma_puback_round_trip(p: PubackPacketV, rest: Seq<u8>)
    requires
        puback_wf(p),
    ensures
        parse_puback(puback_bytes(p) + rest, puback_bytes(p).len() as int) == (PRes::Got {
            v: p,
            used: puback_bytes(p).len() as int,
        }),
{
    reveal(parse_puback);
    let s = puback_bytes(p) + rest;
    let remaining = puback_bytes(p).len() as int;
    crate::wire::lemma_u16_be_parse(
        p.packet_id,
        seq![reason_code_byte(p.reason_code)] + (if p.properties.len() == 0 {
            Seq::<u8>::empty()
        } else {
            props_block_bytes(p.properties)
        }) + rest,
    );
    assert(s =~= u16_be_bytes(p.packet_id) + (seq![reason_code_byte(p.reason_code)] + (if p.properties.len() == 0 {
        Seq::<u8>::empty()
    } else {
        props_block_bytes(p.properties)
    }) + rest));
    lemma_reason_code_round_trip(p.reason_code);
    assert(s.skip(2)[0] == reason_code_byte(p.reason_code));
    if p.properties.len() == 0 {
        assert(remaining - 3 < 4);
        assert(p.properties =~= Seq::<crate::property::PropertyV>::empty());
    } else {
        assert(remaining - 3 >= 4);
        assert(s.skip(3) =~= props_block_bytes(p.properties) + rest);
        crate::property::lemma_props_round_trip(p.properties, rest);
    }
}

} // verus!
