//! The SUBACK packet: a packet identifier, properties, and one reason code
//! per requested subscription.

use vstd::prelude::*;

use bytes::BytesMut;

use crate::bytebuf::bytes_view;
use crate::error::DecodeError;
use crate::error::EncodeError;
use crate::property::view_props;
use crate::property::Property;
use crate::property::PropertyV;
use crate::reason_code::ReasonCode;
use crate::types::DecodedPacket;
use crate::bytebuf::buf_put_u8;
use crate::bytebuf::buf_put_u16;
use crate::bytebuf::buf_len;
use crate::bytebuf::u16_be_bytes;
use crate::property::parse_properties;
use crate::property::props_block_bytes;
use crate::property::props_bytes;
use crate::property::props_enc_err;
use crate::property::props_wf;
use crate::reason_code::parse_reason_code;
use crate::reason_code::reason_code_byte;
use crate::reason_code::lemma_reason_code_round_trip;
use crate::variable_integer::VLI_MAX;
use crate::wire::read_u16;
use crate::wire::parse_u16;
use crate::wire::PRes;

verus! {

broadcast use
    vstd::seq_lib::lemma_seq_skip_of_skip,
    vstd::seq_lib::lemma_seq_skip_len,
    vstd::seq_lib::lemma_seq_skip_index,
;

/// A subscribe acknowledgement.
#[derive(Clone, Debug, PartialEq)]
pub struct SubackPacket {
    pub packet_id: u16,
    pub reason_codes: Vec<ReasonCode>,
    pub properties: Vec<Property>,
}

/// The mathematical shape of a SUBACK packet.
pub struct SubackPacketV {
    pub packet_id: u16,
    pub reason_codes: Seq<ReasonCode>,
    pub properties: Seq<PropertyV>,
}

impl View for SubackPacket {
    type V = SubackPacketV;

    open spec fn view(&self) -> SubackPacketV {
        SubackPacketV {
            packet_id: self.packet_id,
            reason_codes: self.reason_codes@,
            properties: view_props(self.properties@),
        }
    }
}

/// The wire bytes of a reason-code list, one byte per code.
pub open spec fn rc_list_bytes(rcs: Seq<ReasonCode>) -> Seq<u8> {
    Seq::new(rcs.len(), |i: int| reason_code_byte(rcs[i]))
}

/// Reason codes read one after another until exactly `budget` bytes are
/// consumed.
pub open spec fn parse_rc_items(s: Seq<u8>, budget: int, acc: Seq<ReasonCode>) -> Result<
    Seq<ReasonCode>,
    DecodeError,
>
    decreases budget,
{
    if budget <= 0 {
        if budget == 0 {
            Ok(acc)
        } else {
            Err(DecodeError::FormatError)
        }
    } else {
        match parse_reason_code(s) {
            PRes::Fail { e } => Err(e),
            PRes::Got { v: rc, used } => parse_rc_items(s.skip(1), budget - 1, acc.push(rc)),
        }
    }
}

/// Reading the bytes of a reason-code list, whatever follows them, collects
/// exactly those codes.
pub proof fn lemma_rc_items_round_trip(rcs: Seq<ReasonCode>, acc: Seq<ReasonCode>, rest: Seq<u8>)
    ensures
        parse_rc_items(rc_list_bytes(rcs) + rest, rcs.len() as int, acc) == Ok::<
            Seq<ReasonCode>,
            DecodeError,
        >(acc + rcs),
    decreases rcs.len(),
{
    if rcs.len() == 0 {
        assert(acc + rcs =~= acc);
    } else {
        let s = rc_list_bytes(rcs) + rest;
        lemma_reason_code_round_trip(rcs[0]);
        assert(s[0] == reason_code_byte(rcs[0]));
        assert(s.skip(1) =~= rc_list_bytes(rcs.skip(1)) + rest);
        lemma_rc_items_round_trip(rcs.skip(1), acc.push(rcs[0]), rest);
        assert(acc.push(rcs[0]) + rcs.skip(1) =~= acc + rcs);
    }
}

/// The body bytes of a SUBACK packet.
pub open spec fn suback_bytes(p: SubackPacketV) -> Seq<u8> {
    u16_be_bytes(p.packet_id) + props_block_bytes(p.properties) + rc_list_bytes(p.reason_codes)
}

/// A packet identifier and properties, then reason codes until the declared
/// remaining length is used up.
#[verifier::opaque]
pub open spec fn parse_suback(s: Seq<u8>, remaining: int) -> PRes<SubackPacketV> {
    match parse_u16(s) {
        PRes::Fail { e } => PRes::Fail { e },
        PRes::Got { v: id, used: u0 } => {
            match parse_properties(s.skip(u0)) {
                PRes::Fail { e } => PRes::Fail { e },
                PRes::Got { v: ps, used: u1 } => {
                    if u0 + u1 > remaining {
                        PRes::Fail { e: DecodeError::FormatError }
                    } else {
                        match parse_rc_items(s.skip(u0 + u1), remaining - u0 - u1, Seq::empty()) {
                            Err(e) => PRes::Fail { e },
                            Ok(rcs) => PRes::Got {
                                v: SubackPacketV {
                                    packet_id: id,
                                    reason_codes: rcs,
                                    properties: ps,
                                },
                                used: remaining,
                            },
                        }
                    }
                },
            }
        },
    }
}

impl SubackPacket {
    /// Appends this packet's body: the identifier, the property block, and
    /// one byte per reason code.
    pub fn encode(&self, buffer: &mut BytesMut) -> (r: Result<(), EncodeError>)
        ensures
            match props_enc_err(self@.properties) {
                Some(e) => r == Err::<(), EncodeError>(e),
                None => r == Ok::<(), EncodeError>(()) && bytes_view(*final(buffer)) == bytes_view(
                    *old(buffer),
                ) + suback_bytes(self@),
            },
    {
        buf_put_u16(buffer, self.packet_id);
        match Property::encode(buffer, &self.properties) {
            Ok(u) => u,
            Err(e) => { return Err(e) },
        };
        let ghost mid = bytes_view(*buffer);
        let ghost rcv = self@.reason_codes;
        let mut i: usize = 0;
        while i < self.reason_codes.len()
            invariant
                rcv == self@.reason_codes,
                i <= self.reason_codes.len(),
                rcv.len() == self.reason_codes.len(),
                bytes_view(*buffer) == mid + Seq::new(i as nat, |j: int| reason_code_byte(rcv[j])),
            decreases self.reason_codes.len() - i,
        {
            buf_put_u8(buffer, self.reason_codes[i].to_byte());
            proof {
                assert(bytes_view(*buffer) =~= mid + Seq::new(
                    (i + 1) as nat,
                    |j: int| reason_code_byte(rcv[j]),
                ));
            }
            i = i + 1;
        }
        proof {
            assert(Seq::new(rcv.len(), |j: int| reason_code_byte(rcv[j])) =~= rc_list_bytes(rcv));
            assert(bytes_view(*buffer) =~= bytes_view(*old(buffer)) + suback_bytes(self@));
        }
        Ok(())
    }

    /// Reads this packet's body under the declared remaining length.
    pub fn decode(buffer: &mut BytesMut, remaining_length: usize) -> (r: Result<
        DecodedPacket,
        DecodeError,
    >)
        ensures
            match parse_suback(bytes_view(*old(buffer)), remaining_length as int) {
                PRes::Got { v, used } => r matches Ok(DecodedPacket::Suback(p)) && p@ == v && 1
                    <= used <= bytes_view(*old(buffer)).len() && bytes_view(*final(buffer))
                    == bytes_view(*old(buffer)).skip(used),
                PRes::Fail { e } => r matches Err(e2) && e2 == e,
            },
    {
        proof {
            reveal(parse_suback);
        }
        let ghost s = bytes_view(*buffer);
        let len0 = buf_len(buffer);
        let packet_id = match read_u16(buffer) {
            Ok(v) => v,
            Err(e) => { return Err(e) },
        };
        let properties = match Property::decode(buffer) {
            Ok(ps) => ps,
            Err(e) => { return Err(e) },
        };
        let len1 = buf_len(buffer);
        let consumed = len0 - len1;
        if consumed > remaining_length {
            return Err(DecodeError::FormatError);
        }
        let mut budget = remaining_length - consumed;
        let ghost u01 = consumed as int;
        let ghost budget0 = budget as int;
        let ghost t1 = bytes_view(*buffer);
        let mut reason_codes: Vec<ReasonCode> = Vec::new();
        proof {
            assert(reason_codes@ =~= Seq::<ReasonCode>::empty());
            assert(t1.skip(0) =~= t1);
            assert(t1 =~= s.skip(u01));
        }
        while budget > 0
            invariant
                s == bytes_view(*old(buffer)),
                budget <= budget0,
                t1 == s.skip(u01),
                0 <= u01 <= s.len(),
                u01 + budget0 == remaining_length as int,
                bytes_view(*buffer) == t1.skip(budget0 - budget as int),
                budget0 - budget as int <= t1.len(),
                parse_rc_items(t1, budget0, Seq::empty()) == parse_rc_items(
                    bytes_view(*buffer),
                    budget as int,
                    reason_codes@,
                ),
                ({
                    let items = parse_rc_items(t1, budget0, Seq::empty());
                    parse_suback(s, remaining_length as int) == (match items {
                        Ok(rcs) => PRes::Got {
                            v: SubackPacketV {
                                packet_id,
                                reason_codes: rcs,
                                properties: view_props(properties@),
                            },
                            used: remaining_length as int,
                        },
                        Err(e) => PRes::Fail { e },
                    })
                }),
            decreases budget,
        {
            let rc = match ReasonCode::decode(buffer) {
                Ok(rc) => rc,
                Err(e) => { return Err(e) },
            };
            reason_codes.push(rc);
            budget = budget - 1;
            proof {
                assert(bytes_view(*buffer) =~= t1.skip(budget0 - budget as int));
            }
        }
        proof {
            assert(bytes_view(*buffer) =~= s.skip(remaining_length as int));
        }
        Ok(DecodedPacket::Suback(SubackPacket { packet_id, reason_codes, properties }))
    }
}

/// A SUBACK body that encodes and decodes back to itself under its own
/// length.
pub open spec fn suback_wf(p: SubackPacketV) -> bool {
    props_wf(p.properties) && props_bytes(p.properties).len() <= VLI_MAX
}

/// Decoding the body bytes of a well-formed SUBACK packet under their own
/// length, whatever follows them, gives back the packet and consumes exactly
/// the body.
pub proof fn lemma_suback_round_trip(p: SubackPacketV, rest: Seq<u8>)
    requires
        suback_wf(p),
    ensures
        parse_suback(suback_bytes(p) + rest, suback_bytes(p).len() as int) == (PRes::Got {
            v: p,
            used: suback_bytes(p).len() as int,
        }),
{
    reveal(parse_suback);
    let s = suback_bytes(p) + rest;
    let block = props_block_bytes(p.properties);
    let tail = rc_list_bytes(p.reason_codes);
    crate::wire::lemma_u16_be_parse(p.packet_id, block + tail + rest);
    assert(s =~= u16_be_bytes(p.packet_id) + (block + tail + rest));
    assert(s.skip(2) =~= block + (tail + rest));
    crate::property::lemma_props_round_trip(p.properties, tail + rest);
    assert(s.skip(2 + block.len() as int) =~= tail + rest);
    lemma_rc_items_round_trip(p.reason_codes, Seq::empty(), rest);
    assert(Seq::<ReasonCode>::empty() + p.reason_codes =~= p.reason_codes);
}

} // verus!
