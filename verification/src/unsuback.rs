//! The UNSUBACK packet: a packet identifier, properties, and one reason
//! code per requested topic filter.

use vstd::prelude::*;

use bytes::BytesMut;

use crate::bytebuf::bytes_view;
use crate::error::DecodeError;
use crate::error::EncodeError;
use crate::property::view_props;
use crate::property::Property;
use crate::property::PropertyV;
use crate::reason_code::ReasonCode;
use crate::types::DecodedPacket;
use crate::bytebuf::buf_put_u8;
use crate::bytebuf::buf_put_u16;
use crate::bytebuf::buf_len;
use crate::bytebuf::u16_be_bytes;
use crate::property::parse_properties;
use crate::property::props_block_bytes;
use crate::property::props_bytes;
use crate::property::props_enc_err;
use crate::property::props_wf;
use crate::reason_code::reason_code_byte;
use crate::suback::lemma_rc_items_round_trip;
use crate::suback::parse_rc_items;
use crate::suback::rc_list_bytes;
use crate::variable_integer::VLI_MAX;
use crate::wire::read_u16;
use crate::wire::parse_u16;
use crate::wire::PRes;

verus! {

broadcast use
    vstd::seq_lib::lemma_seq_skip_of_skip,
    vstd::seq_lib::lemma_seq_skip_len,
    vstd::seq_lib::lemma_seq_skip_index,
;

/// An unsubscribe acknowledgement.
#[derive(Clone, Debug, PartialEq)]
pub struct UnsubackPacket {
    pub packet_id: u16,
    pub reason_codes: Vec<ReasonCode>,
    pub properties: Vec<Property>,
}

/// The mathematical shape of an UNSUBACK packet.
pub struct UnsubackPacketV {
    pub packet_id: u16,
    pub reason_codes: Seq<ReasonCode>,
    pub properties: Seq<PropertyV>,
}

impl View for UnsubackPacket {
    type V = UnsubackPacketV;

    open spec fn view(&self) -> UnsubackPacketV {
        UnsubackPacketV {
            packet_id: self.packet_id,
            reason_codes: self.reason_codes@,
            properties: view_props(self.properties@),
        }
    }
}

/// The body bytes of an UNSUBACK packet.
pub open spec fn unsuback_bytes(p: UnsubackPacketV) -> Seq<u8> {
    u16_be_bytes(p.packet_id) + props_block_bytes(p.properties) + rc_list_bytes(p.reason_codes)
}

/// A packet identifier and properties, then reason codes until the declared
/// remaining length is used up.
#[verifier::opaque]
pub open spec fn parse_unsuback(s: Seq<u8>, remaining: int) -> PRes<UnsubackPacketV> {
    match parse_u16(s) {
        PRes::Fail { e } => PRes::Fail { e },
        PRes::Got { v: id, used: u0 } => {
            match parse_properties(s.skip(u0)) {
                PRes::Fail { e } => PRes::Fail { e },
                PRes::Got { v: ps, used: u1 } => {
                    if u0 + u1 > remaining {
                        PRes::Fail { e: DecodeError::FormatError }
                    } else {
                        match parse_rc_items(s.skip(u0 + u1), remaining - u0 - u1, Seq::empty()) {
                            Err(e) => PRes::Fail { e },
                            Ok(rcs) => PRes::Got {
                                v: UnsubackPacketV {
                                    packet_id: id,
                                    reason_codes: rcs,
                                    properties: ps,
                                },
                                used: remaining,
                            },
                        }
                    }
                },
            }
        },
    }
}

impl UnsubackPacket {
    /// Appends this packet's body: the identifier, the property block, and
    /// one byte per reason code.
    pub fn encode(&self, buffer: &mut BytesMut) -> (r: Result<(), EncodeError>)
        ensures
            match props_enc_err(self@.properties) {
                Some(e) => r == Err::<(), EncodeError>(e),
                None => r == Ok::<(), EncodeError>(()) && bytes_view(*final(buffer)) == bytes_view(
                    *old(buffer),
                ) + unsuback_bytes(self@),
            },
    {
        buf_put_u16(buffer, self.packet_id);
        match Property::encode(buffer, &self.properties) {
            Ok(u) => u,
            Err(e) => { return Err(e) },
        };
        let ghost mid = bytes_view(*buffer);
        let ghost rcv = self@.reason_codes;
        let mut i: usize = 0;
        while i < self.reason_codes.len()
            invariant
                rcv == self@.reason_codes,
                i <= self.reason_codes.len(),
                rcv.len() == self.reason_codes.len(),
                bytes_view(*buffer) == mid + Seq::new(i as nat, |j: int| reason_code_byte(rcv[j])),
            decreases self.reason_codes.len() - i,
        {
            buf_put_u8(buffer, self.reason_codes[i].to_byte());
            proof {
                assert(bytes_view(*buffer) =~= mid + Seq::new(
                    (i + 1) as nat,
                    |j: int| reason_code_byte(rcv[j]),
                ));
            }
            i = i + 1;
        }
        proof {
            assert(Seq::new(rcv.len(), |j: int| reason_code_byte(rcv[j])) =~= rc_list_bytes(rcv));
            assert(bytes_view(*buffer) =~= bytes_view(*old(buffer)) + unsuback_bytes(self@));
        }
        Ok(())
    }

    /// Reads this packet's body under the declared remaining length.
    pub fn decode(buffer: &mut BytesMut, remaining_length: usize) -> (r: Result<
        DecodedPacket,
        DecodeError,
    >)
        ensures
            match parse_unsuback(bytes_view(*old(buffer)), remaining_length as int) {
                PRes::Got { v, used } => r matches Ok(DecodedPacket::Unsuback(p)) && p@ == v && 1
                    <= used <= bytes_view(*old(buffer)).len() && bytes_view(*final(buffer))
                    == bytes_view(*old(buffer)).skip(used),
                PRes::Fail { e } => r matches Err(e2) && e2 == e,
            },
    {
        proof {
            reveal(parse_unsuback);
        }
        let ghost s = bytes_view(*buffer);
        let len0 = buf_len(buffer);
        let packet_id = match read_u16(buffer) {
            Ok(v) => v,
            Err(e) => { return Err(e) },
        };
        let properties = match Property::decode(buffer) {
            Ok(ps) => ps,
            Err(e) => { return Err(e) },
        };
        let len1 = buf_len(buffer);
        let consumed = len0 - len1;
        if consumed > remaining_length {
            return Err(DecodeError::FormatError);
        }
        let mut budget = remaining_length - consumed;
        let ghost u01 = consumed as int;
        let ghost budget0 = budget as int;
        let ghost t1 = bytes_view(*buffer);
        let mut reason_codes: Vec<ReasonCode> = Vec::new();
        proof {
            assert(reason_codes@ =~= Seq::<ReasonCode>::empty());
            assert(t1.skip(0) =~= t1);
            assert(t1 =~= s.skip(u01));
        }
        while budget > 0
            invariant
                s == bytes_view(*old(buffer)),
                budget <= budget0,
                t1 == s.skip(u01),
                0 <= u01 <= s.len(),
                u01 + budget0 == remaining_length as int,
                bytes_view(*buffer) == t1.skip(budget0 - budget as int),
                budget0 - budget as int <= t1.len(),
                parse_rc_items(t1, budget0, Seq::empty()) == parse_rc_items(
                    bytes_view(*buffer),
                    budget as int,
                    reason_codes@,
                ),
                ({
                    let items = parse_rc_items(t1, budget0, Seq::empty());
                    parse_unsuback(s, remaining_length as int) == (match items {
                        Ok(rcs) => PRes::Got {
                            v: UnsubackPacketV {
                                packet_id,
                                reason_codes: rcs,
                                properties: view_props(properties@),
                            },
                            used: remaining_length as int,
                        },
                        Err(e) => PRes::Fail { e },
                    })
                }),
            decreases budget,
        {
            let rc = match ReasonCode::decode(buffer) {
                Ok(rc) => rc,
                Err(e) => { return Err(e) },
            };
            reason_codes.push(rc);
            budget = budget - 1;
            proof {
                assert(bytes_view(*buffer) =~= t1.skip(budget0 - budget as int));
            }
        }
        proof {
            assert(bytes_view(*buffer) =~= s.skip(remaining_length as int));
        }
        Ok(DecodedPacket::Unsuback(UnsubackPacket { packet_id, reason_codes, properties }))
    }
}

/// An UNSUBACK body that encodes and decodes back to itself under its own
/// length.
pub open spec fn unsuback_wf(p: UnsubackPacketV) -> bool {
    props_wf(p.properties) && props_bytes(p.properties).len() <= VLI_MAX
}

/// Decoding the body bytes of a well-formed UNSUBACK packet under their own
/// length, whatever follows them, gives back the packet and consumes exactly
/// the body.
pub proof fn lemma_unsuback_round_trip(p: UnsubackPacketV, rest: Seq<u8>)
    requires
        unsuback_wf(p),
    ensures
        parse_unsuback(unsuback_bytes(p) + rest, unsuback_bytes(p).len() as int) == (PRes::Got {
            v: p,
            used: unsuback_bytes(p).len() as int,
        }),
{
    reveal(parse_unsuback);
    let s = unsuback_bytes(p) + rest;
    let block = props_block_bytes(p.properties);
    let tail = rc_list_bytes(p.reason_codes);
    crate::wire::lemma_u16_be_parse(p.packet_id, block + tail + rest);
    assert(s =~= u16_be_bytes(p.packet_id) + (block + tail + rest));
    assert(s.skip(2) =~= block + (tail + rest));
    crate::property::lemma_props_round_trip(p.properties, tail + rest);
    assert(s.skip(2 + block.len() as int) =~= tail + rest);
    lemma_rc_items_round_trip(p.reason_codes, Seq::empty(), rest);
    assert(Seq::<ReasonCode>::empty() + p.reason_codes =~= p.reason_codes);
}

} // verus!
