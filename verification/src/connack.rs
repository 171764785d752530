//! The CONNACK packet: the acknowledgement flags byte, a reason code, and
//! properties.

use vstd::prelude::*;

use bytes::BytesMut;

use crate::bytebuf::bytes_view;
use crate::error::DecodeError;
use crate::error::EncodeError;
use crate::property::view_props;
use crate::property::Property;
use crate::property::PropertyV;
use crate::reason_code::ReasonCode;
use crate::types::DecodedPacket;
use crate::bytebuf::buf_put_u8;
use crate::property::parse_properties;
use crate::property::props_block_bytes;
use crate::property::props_bytes;
use crate::property::props_enc_err;
use crate::property::props_wf;
use crate::reason_code::parse_reason_code;
use crate::reason_code::reason_code_byte;
use crate::reason_code::lemma_reason_code_round_trip;
use crate::variable_integer::VLI_MAX;
use crate::wire::read_u8;
use crate::wire::parse_u8;
use crate::wire::PRes;

verus! {

broadcast use
    vstd::seq_lib::lemma_seq_skip_of_skip,
    vstd::seq_lib::lemma_seq_skip_len,
    vstd::seq_lib::lemma_seq_skip_index,
;

/// A connection acknowledgement.
#[derive(Clone, Debug, PartialEq)]
pub struct ConnackPacket {
    pub session_present: bool,
    pub reason_code: ReasonCode,
    pub properties: Vec<Property>,
}

/// The mathematical shape of a CONNACK packet.
pub struct ConnackPacketV {
    pub session_present: bool,
    pub reason_code: ReasonCode,
    pub properties: Seq<PropertyV>,
}

impl View for ConnackPacket {
    type V = ConnackPacketV;

    open spec fn view(&self) -> ConnackPacketV {
        ConnackPacketV {
            session_present: self.session_present,
            reason_code: self.reason_code,
            properties: view_props(self.properties@),
        }
    }
}

/// The wire byte of the acknowledgement flags: only bit 7, session present.
pub open spec fn session_byte(b: bool) -> u8 {
    if b {
        0x80
    } else {
        0x00
    }
}

/// The body bytes of a CONNACK packet.
pub open spec fn connack_bytes(p: ConnackPacketV) -> Seq<u8> {
    seq![session_byte(p.session_present), reason_code_byte(p.reason_code)] + props_block_bytes(
        p.properties,
    )
}

/// An acknowledgement flags byte, which may hold only 0x00 or 0x80, then a
/// reason code and properties.
#[verifier::opaque]
pub open spec fn parse_connack(s: Seq<u8>) -> PRes<ConnackPacketV> {
    match parse_u8(s) {
        PRes::Fail { e } => PRes::Fail { e },
        PRes::Got { v: b0, used: u0 } => {
            if b0 != 0x80 && b0 != 0x00 {
                PRes::Fail { e: DecodeError::FormatError }
            } else {
                match parse_reason_code(s.skip(u0)) {
                    PRes::Fail { e } => PRes::Fail { e },
                    PRes::Got { v: rc, used: u1 } => {
                        match parse_properties(s.skip(u0 + u1)) {
                            PRes::Fail { e } => PRes::Fail { e },
                            PRes::Got { v: ps, used: u2 } => PRes::Got {
                                v: ConnackPacketV {
                                    session_present: b0 == 0x80,
                                    reason_code: rc,
                                    properties: ps,
                                },
                                used: u0 + u1 + u2,
                            },
                        }
                    },
                }
            }
        },
    }
}

impl ConnackPacket {
    /// Appends this packet's body: the flags byte, the reason code, and the
    /// property block.
    pub fn encode(&self, buffer: &mut BytesMut) -> (r: Result<(), EncodeError>)
        ensures
            match props_enc_err(self@.properties) {
                Some(e) => r == Err::<(), EncodeError>(e),
                None => r == Ok::<(), EncodeError>(()) && bytes_view(*final(buffer)) == bytes_view(
                    *old(buffer),
                ) + connack_bytes(self@),
            },
    {
        if self.session_present {
            buf_put_u8(buffer, 0x80);
        } else {
            buf_put_u8(buffer, 0x00);
        }
        buf_put_u8(buffer, self.reason_code.to_byte());
        match Property::encode(buffer, &self.properties) {
            Ok(u) => u,
            Err(e) => { return Err(e) },
        };
        proof {
            assert(bytes_view(*buffer) =~= bytes_view(*old(buffer)) + connack_bytes(self@));
        }
        Ok(())
    }

    /// Reads this packet's body.  Any flags byte other than 0x00 or 0x80 is
    /// a format error.
    pub fn decode(buffer: &mut BytesMut) -> (r: Result<DecodedPacket, DecodeError>)
        ensures
            match parse_connack(bytes_view(*old(buffer))) {
                PRes::Got { v, used } => r matches Ok(DecodedPacket::Connack(p)) && p@ == v && 1
                    <= used <= bytes_view(*old(buffer)).len() && bytes_view(*final(buffer))
                    == bytes_view(*old(buffer)).skip(used),
                PRes::Fail { e } => r matches Err(e2) && e2 == e,
            },
    {
        proof {
            reveal(parse_connack);
        }
        let b0 = match read_u8(buffer) {
            Ok(b) => b,
            Err(e) => { return Err(e) },
        };
        let session_present = if b0 == 0x80 {
            true
        } else if b0 == 0x00 {
            false
        } else {
            return Err(DecodeError::FormatError);
        };
        let reason_code = match ReasonCode::decode(buffer) {
            Ok(rc) => rc,
            Err(e) => { return Err(e) },
        };
        let properties = match Property::decode(buffer) {
            Ok(ps) => ps,
            Err(e) => { return Err(e) },
        };
        Ok(DecodedPacket::Connack(ConnackPacket { session_present, reason_code, properties }))
    }
}

/// A CONNACK body that encodes and decodes back to itself.
pub open spec fn connack_wf(p: ConnackPacketV) -> bool {
    props_wf(p.properties) && props_bytes(p.properties).len() <= VLI_MAX
}

/// Decoding the body bytes of a well-formed CONNACK packet, whatever follows
/// them, gives back the packet and consumes exactly the body.
pub proof fn lemma_connack_round_trip(p: ConnackPacketV, rest: Seq<u8>)
    requires
        connack_wf(p),
    ensures
        parse_connack(connack_bytes(p) + rest) == (PRes::Got {
            v: p,
            used: connack_bytes(p).len() as int,
        }),
{
    reveal(parse_connack);
    let s = connack_bytes(p) + rest;
    let block = props_block_bytes(p.properties);
    assert(s[0] == session_byte(p.session_present));
    assert(s.skip(1) =~= seq![reason_code_byte(p.reason_code)] + (block + rest));
    lemma_reason_code_round_trip(p.reason_code);
    assert(s.skip(1)[0] == reason_code_byte(p.reason_code));
    assert(s.skip(2) =~= block + rest);
    crate::property::lemma_props_round_trip(p.properties, rest);
}

} // verus!
