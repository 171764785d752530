//! The one-byte reason codes that acknowledgement and disconnect packets
//! carry.

use vstd::prelude::*;

use bytes::BytesMut;

use crate::bytebuf::bytes_view;
use crate::error::DecodeError;
use crate::wire::read_u8;
use crate::wire::PRes;

verus! {

/// A packet-level success or failure status, one byte on the wire.
#[derive(Clone, Copy, Debug, PartialEq, Eq, Structural)]
pub enum ReasonCode {
    Success,
    GrantedQoS1,
    GrantedQoS2,
    NoMatchingSubscribers,
    NoSubscriptionExisted,
    UnspecifiedError,
    MalformedPacket,
    ProtocolError,
    NotAuthorized,
    TopicFilterInvalid,
    PacketIdentifierInUse,
    QuotaExceeded,
    PayloadFormatInvalid,
}

/// The wire byte of each reason code.
pub open spec fn reason_code_byte(rc: ReasonCode) -> u8 {
    match rc {
        ReasonCode::Success => 0x00,
        ReasonCode::GrantedQoS1 => 0x01,
        ReasonCode::GrantedQoS2 => 0x02,
        ReasonCode::NoMatchingSubscribers => 0x10,
        ReasonCode::NoSubscriptionExisted => 0x11,
        ReasonCode::UnspecifiedError => 0x80,
        ReasonCode::MalformedPacket => 0x81,
        ReasonCode::ProtocolError => 0x82,
        ReasonCode::NotAuthorized => 0x87,
        ReasonCode::TopicFilterInvalid => 0x8F,
        ReasonCode::PacketIdentifierInUse => 0x91,
        ReasonCode::QuotaExceeded => 0x97,
        ReasonCode::PayloadFormatInvalid => 0x99,
    }
}

/// The reason code a wire byte stands for, if any.
pub open spec fn reason_code_of_byte(b: u8) -> Option<ReasonCode> {
    if b == 0x00 {
        Some(ReasonCode::Success)
    } else if b == 0x01 {
        Some(ReasonCode::GrantedQoS1)
    } else if b == 0x02 {
        Some(ReasonCode::GrantedQoS2)
    } else if b == 0x10 {
        Some(ReasonCode::NoMatchingSubscribers)
    } else if b == 0x11 {
        Some(ReasonCode::NoSubscriptionExisted)
    } else if b == 0x80 {
        Some(ReasonCode::UnspecifiedError)
    } else if b == 0x81 {
        Some(ReasonCode::MalformedPacket)
    } else if b == 0x82 {
        Some(ReasonCode::ProtocolError)
    } else if b == 0x87 {
        Some(ReasonCode::NotAuthorized)
    } else if b == 0x8F {
        Some(ReasonCode::TopicFilterInvalid)
    } else if b == 0x91 {
        Some(ReasonCode::PacketIdentifierInUse)
    } else if b == 0x97 {
        Some(ReasonCode::QuotaExceeded)
    } else if b == 0x99 {
        Some(ReasonCode::PayloadFormatInvalid)
    } else {
        None
    }
}

/// One byte naming a known reason code.
pub open spec fn parse_reason_code(s: Seq<u8>) -> PRes<ReasonCode> {
    match crate::wire::parse_u8(s) {
        PRes::Fail { e } => PRes::Fail { e },
        PRes::Got { v, used } => match reason_code_of_byte(v) {
            Some(rc) => PRes::Got { v: rc, used },
            None => PRes::Fail { e: DecodeError::FormatError },
        },
    }
}

/// A known byte maps back to the code it encodes.
pub proof fn lemma_reason_code_round_trip(rc: ReasonCode)
    ensures
        reason_code_of_byte(reason_code_byte(rc)) == Some(rc),
{
}

impl ReasonCode {
    /// The wire byte of this reason code.
    pub fn to_byte(&self) -> (r: u8)
        ensures
            r == reason_code_byte(*self),
    {
        match self {
            ReasonCode::Success => 0x00,
            ReasonCode::GrantedQoS1 => 0x01,
            ReasonCode::GrantedQoS2 => 0x02,
            ReasonCode::NoMatchingSubscribers => 0x10,
            ReasonCode::NoSubscriptionExisted => 0x11,
            ReasonCode::UnspecifiedError => 0x80,
            ReasonCode::MalformedPacket => 0x81,
            ReasonCode::ProtocolError => 0x82,
            ReasonCode::NotAuthorized => 0x87,
            ReasonCode::TopicFilterInvalid => 0x8F,
            ReasonCode::PacketIdentifierInUse => 0x91,
            ReasonCode::QuotaExceeded => 0x97,
            ReasonCode::PayloadFormatInvalid => 0x99,
        }
    }

    /// Reads one byte and classifies it; an unknown byte is a format error.
    pub fn decode(buffer: &mut BytesMut) -> (r: Result<ReasonCode, DecodeError>)
        ensures
            match parse_reason_code(bytes_view(*old(buffer))) {
                PRes::Got { v, used } => r == Ok::<ReasonCode, DecodeError>(v) && 1 <= used
                    <= bytes_view(*old(buffer)).len() && bytes_view(*final(buffer)) == bytes_view(
                    *old(buffer),
                ).skip(used),
                PRes::Fail { e } => r == Err::<ReasonCode, DecodeError>(e),
            },
    {
        let b = match read_u8(buffer) {
            Ok(b) => b,
            Err(e) => { return Err(e) },
        };
        match b {
            0x00 => Ok(ReasonCode::Success),
            0x01 => Ok(ReasonCode::GrantedQoS1),
            0x02 => Ok(ReasonCode::GrantedQoS2),
            0x10 => Ok(ReasonCode::NoMatchingSubscribers),
            0x11 => Ok(ReasonCode::NoSubscriptionExisted),
            0x80 => Ok(ReasonCode::UnspecifiedError),
            0x81 => Ok(ReasonCode::MalformedPacket),
            0x82 => Ok(ReasonCode::ProtocolError),
            0x87 => Ok(ReasonCode::NotAuthorized),
            0x8F => Ok(ReasonCode::TopicFilterInvalid),
            0x91 => Ok(ReasonCode::PacketIdentifierInUse),
            0x97 => Ok(ReasonCode::QuotaExceeded),
            0x99 => Ok(ReasonCode::PayloadFormatInvalid),
            _ => Err(DecodeError::FormatError),
        }
    }
}

} // verus!
