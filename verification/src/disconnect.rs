//! The DISCONNECT packet: a reason code and properties.

use vstd::prelude::*;

use bytes::BytesMut;

use crate::bytebuf::bytes_view;
use crate::error::DecodeError;
use crate::error::EncodeError;
use crate::property::view_props;
use crate::property::Property;
use crate::property::PropertyV;
use crate::reason_code::ReasonCode;
use crate::types::DecodedPacket;
use crate::bytebuf::buf_put_u8;
use crate::property::parse_properties;
use crate::property::props_block_bytes;
use crate::property::props_bytes;
use crate::property::props_enc_err;
use crate::property::props_wf;
use crate::reason_code::parse_reason_code;
use crate::reason_code::reason_code_byte;
use crate::reason_code::lemma_reason_code_round_trip;
use crate::variable_integer::VLI_MAX;
use crate::wire::PRes;

verus! {

broadcast use
    vstd::seq_lib::lemma_seq_skip_of_skip,
    vstd::seq_lib::lemma_seq_skip_len,
    vstd::seq_lib::lemma_seq_skip_index,
;

/// An orderly or error-announcing end of the connection.
#[derive(Clone, Debug, PartialEq)]
pub struct DisconnectPacket {
    pub reason_code: ReasonCode,
    pub properties: Vec<Property>,
}

/// The mathematical shape of a DISCONNECT packet.
pub struct DisconnectPacketV {
    pub reason_code: ReasonCode,
    pub properties: Seq<PropertyV>,
}

impl View for DisconnectPacket {
    type V = DisconnectPacketV;

    open spec fn view(&self) -> DisconnectPacketV {
        DisconnectPacketV {
            reason_code: self.reason_code,
            properties: view_props(self.properties@),
        }
    }
}

/// The body bytes of a DISCONNECT packet.
pub open spec fn disconnect_bytes(p: DisconnectPacketV) -> Seq<u8> {
    seq![reason_code_byte(p.reason_code)] + props_block_bytes(p.properties)
}

/// A reason code, then properties.
#[verifier::opaque]
pub open spec fn parse_disconnect(s: Seq<u8>) -> PRes<DisconnectPacketV> {
    match parse_reason_code(s) {
        PRes::Fail { e } => PRes::Fail { e },
        PRes::Got { v: rc, used: u0 } => {
            match parse_properties(s.skip(u0)) {
                PRes::Fail { e } => PRes::Fail { e },
                PRes::Got { v: ps, used: u1 } => PRes::Got {
                    v: DisconnectPacketV { reason_code: rc, properties: ps },
                    used: u0 + u1,
                },
            }
        },
    }
}

impl DisconnectPacket {
    /// Appends this packet's body: the reason code and the property block.
    pub fn encode(&self, buffer: &mut BytesMut) -> (r: Result<(), EncodeError>)
        ensures
            match props_enc_err(self@.properties) {
                Some(e) => r == Err::<(), EncodeError>(e),
                None => r == Ok::<(), EncodeError>(()) && bytes_view(*final(buffer)) == bytes_view(
                    *old(buffer),
                ) + disconnect_bytes(self@),
            },
    {
        buf_put_u8(buffer, self.reason_code.to_byte());
        match Property::encode(buffer, &self.properties) {
            Ok(u) => u,
            Err(e) => { return Err(e) },
        };
        proof {
            assert(bytes_view(*buffer) =~= bytes_view(*old(buffer)) + disconnect_bytes(self@));
        }
        Ok(())
    }

    /// Reads this packet's body.
    pub fn decode(buffer: &mut BytesMut) -> (r: Result<DecodedPacket, DecodeError>)
        ensures
            match parse_disconnect(bytes_view(*old(buffer))) {
                PRes::Got { v, used } => r matches Ok(DecodedPacket::Disconnect(p)) && p@ == v && 1
                    <= used <= bytes_view(*old(buffer)).len() && bytes_view(*final(buffer))
                    == bytes_view(*old(buffer)).skip(used),
                PRes::Fail { e } => r matches Err(e2) && e2 == e,
            },
    {
        proof {
            reveal(parse_disconnect);
        }
        let reason_code = match ReasonCode::decode(buffer) {
            Ok(rc) => rc,
            Err(e) => { return Err(e) },
        };
        let properties = match Property::decode(buffer) {
            Ok(ps) => ps,
            Err(e) => { return Err(e) },
        };
        Ok(DecodedPacket::Disconnect(DisconnectPacket { reason_code, properties }))
    }
}

/// A DISCONNECT body that encodes and decodes back to itself.
pub open spec fn disconnect_wf(p: DisconnectPacketV) -> bool {
    props_wf(p.properties) && props_bytes(p.properties).len() <= VLI_MAX
}

/// Decoding the body bytes of a well-formed DISCONNECT packet, whatever
/// follows them, gives back the packet and consumes exactly the body.
pub proof fn lemma_disconnect_round_trip(p: DisconnectPacketV, rest: Seq<u8>)
    requires
        disconnect_wf(p),
    ensures
        parse_disconnect(disconnect_bytes(p) + rest) == (PRes::Got {
            v: p,
            used: disconnect_bytes(p).len() as int,
        }),
{
    reveal(parse_disconnect);
    let s = disconnect_bytes(p) + rest;
    let block = props_block_bytes(p.properties);
    lemma_reason_code_round_trip(p.reason_code);
    assert(s[0] == reason_code_byte(p.reason_code));
    assert(s.skip(1) =~= block + rest);
    crate::property::lemma_props_round_trip(p.properties, rest);
}

} // verus!
