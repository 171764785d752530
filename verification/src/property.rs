//! The typed property list most packets carry: a variable-length-integer
//! byte count, then identifier-tagged values, which decode must consume
//! exactly — no more, no fewer.

use vstd::prelude::*;

use bytes::BytesMut;

use crate::bytebuf::buf_append;
use crate::bytebuf::buf_len;
use crate::bytebuf::buf_new;
use crate::bytebuf::buf_put_u16;
use crate::bytebuf::buf_put_u32;
use crate::bytebuf::buf_put_u8;
use crate::bytebuf::bytes_view;
use crate::bytebuf::u16_be_bytes;
use crate::bytebuf::u32_be_bytes;
use crate::error::DecodeError;
use crate::error::EncodeError;
use crate::utils::decode_utf8;
use crate::utils::encode_utf8;
use crate::utils::parse_str;
use crate::utils::utf8_frame_bytes;
use crate::variable_integer;
use crate::variable_integer::parse_vli;
use crate::variable_integer::vli_bytes;
use crate::variable_integer::VliParse;
use crate::variable_integer::VLI_MAX;
use crate::wire::parse_u32;
use crate::wire::parse_u8;
use crate::wire::read_u16;
use crate::wire::read_u32;
use crate::wire::read_u8;
use crate::wire::PRes;

verus! {

broadcast use
    vstd::seq_lib::lemma_seq_skip_of_skip,
    vstd::seq_lib::lemma_seq_skip_len,
    vstd::seq_lib::lemma_seq_skip_index,
;

/// One typed, identifier-tagged metadata field.
#[derive(Clone, Debug, PartialEq)]
pub enum Property {
    PayloadFormatIndicator(u8),
    MessageExpiryInterval(u32),
    ContentType(String),
    ResponseTopic(String),
    CorrelationData(Vec<u8>),
    SubscriptionIdentifier(u64),
    SessionExpiryInterval(u32),
    AssignedClientIdentifier(String),
    ServerKeepAlive(u16),
    AuthenticationMethod(String),
    AuthenticationData(Vec<u8>),
    RequestProblemInformation(u8),
    WillDelayInterval(u32),
    RequestResponseInformation(u8),
    ResponseInformation(String),
    ServerReference(String),
    ReasonString(String),
    ReceiveMaximum(u16),
    TopicAliasMaximum(u16),
    TopicAlias(u16),
    MaximumQoS(u8),
    RetainAvailable(u8),
    UserProperty(String, String),
    MaximumPacketSize(u32),
    WildcardSubscriptionAvailable(bool),
    SubscriptionIdentifierAvailable(bool),
    SharedSubscriptionAvailable(bool),
}

/// The mathematical shape of a property: strings as character sequences,
/// byte strings as byte sequences.
pub enum PropertyV {
    PayloadFormatIndicator(u8),
    MessageExpiryInterval(u32),
    ContentType(Seq<char>),
    ResponseTopic(Seq<char>),
    CorrelationData(Seq<u8>),
    SubscriptionIdentifier(u64),
    SessionExpiryInterval(u32),
    AssignedClientIdentifier(Seq<char>),
    ServerKeepAlive(u16),
    AuthenticationMethod(Seq<char>),
    AuthenticationData(Seq<u8>),
    RequestProblemInformation(u8),
    WillDelayInterval(u32),
    RequestResponseInformation(u8),
    ResponseInformation(Seq<char>),
    ServerReference(Seq<char>),
    ReasonString(Seq<char>),
    ReceiveMaximum(u16),
    TopicAliasMaximum(u16),
    TopicAlias(u16),
    MaximumQoS(u8),
    RetainAvailable(u8),
    UserProperty(Seq<char>, Seq<char>),
    MaximumPacketSize(u32),
    WildcardSubscriptionAvailable(bool),
    SubscriptionIdentifierAvailable(bool),
    SharedSubscriptionAvailable(bool),
}

impl View for Property {
    type V = PropertyV;

    open spec fn view(&self) -> PropertyV {
        match self {
            Property::PayloadFormatIndicator(x) => PropertyV::PayloadFormatIndicator(*x),
            Property::MessageExpiryInterval(x) => PropertyV::MessageExpiryInterval(*x),
            Property::ContentType(s) => PropertyV::ContentType(s@),
            Property::ResponseTopic(s) => PropertyV::ResponseTopic(s@),
            Property::CorrelationData(b) => PropertyV::CorrelationData(b@),
            Property::SubscriptionIdentifier(x) => PropertyV::SubscriptionIdentifier(*x),
            Property::SessionExpiryInterval(x) => PropertyV::SessionExpiryInterval(*x),
            Property::AssignedClientIdentifier(s) => PropertyV::AssignedClientIdentifier(s@),
            Property::ServerKeepAlive(x) => PropertyV::ServerKeepAlive(*x),
            Property::AuthenticationMethod(s) => PropertyV::AuthenticationMethod(s@),
            Property::AuthenticationData(b) => PropertyV::AuthenticationData(b@),
            Property::RequestProblemInformation(x) => PropertyV::RequestProblemInformation(*x),
            Property::WillDelayInterval(x) => PropertyV::WillDelayInterval(*x),
            Property::RequestResponseInformation(x) => PropertyV::RequestResponseInformation(*x),
            Property::ResponseInformation(s) => PropertyV::ResponseInformation(s@),
            Property::ServerReference(s) => PropertyV::ServerReference(s@),
            Property::ReasonString(s) => PropertyV::ReasonString(s@),
            Property::ReceiveMaximum(x) => PropertyV::ReceiveMaximum(*x),
            Property::TopicAliasMaximum(x) => PropertyV::TopicAliasMaximum(*x),
            Property::TopicAlias(x) => PropertyV::TopicAlias(*x),
            Property::MaximumQoS(x) => PropertyV::MaximumQoS(*x),
            Property::RetainAvailable(x) => PropertyV::RetainAvailable(*x),
            Property::UserProperty(k, w) => PropertyV::UserProperty(k@, w@),
            Property::MaximumPacketSize(x) => PropertyV::MaximumPacketSize(*x),
            Property::WildcardSubscriptionAvailable(x) => PropertyV::WildcardSubscriptionAvailable(
                *x,
            ),
            Property::SubscriptionIdentifierAvailable(
                x,
            ) => PropertyV::SubscriptionIdentifierAvailable(*x),
            Property::SharedSubscriptionAvailable(x) => PropertyV::SharedSubscriptionAvailable(*x),
        }
    }
}

/// The views of a list of properties, in order.
pub open spec fn view_props(ps: Seq<Property>) -> Seq<PropertyV> {
    ps.map_values(|p: Property| p@)
}

pub open spec fn bool_byte(b: bool) -> u8 {
    if b {
        1
    } else {
        0
    }
}

/// The wire bytes of one property: its identifier byte, then its payload.
/// The two raw-byte-payload properties have no wire encoding here and get
/// the empty sequence; the encoder refuses them first.
pub open spec fn property_bytes(p: PropertyV) -> Seq<u8> {
    match p {
        PropertyV::PayloadFormatIndicator(x) => seq![0x01u8, x],
        PropertyV::MessageExpiryInterval(x) => seq![0x02u8] + u32_be_bytes(x),
        PropertyV::ContentType(t) => seq![0x08u8] + utf8_frame_bytes(t),
        PropertyV::ResponseTopic(t) => seq![0x09u8] + utf8_frame_bytes(t),
        PropertyV::CorrelationData(_) => Seq::empty(),
        PropertyV::SubscriptionIdentifier(x) => seq![0x11u8] + vli_bytes(x as int),
        PropertyV::SessionExpiryInterval(x) => seq![0x12u8] + u32_be_bytes(x),
        PropertyV::AssignedClientIdentifier(t) => seq![0x13u8] + utf8_frame_bytes(t),
        PropertyV::ServerKeepAlive(x) => seq![0x14u8] + u16_be_bytes(x),
        PropertyV::AuthenticationMethod(t) => seq![0x15u8] + utf8_frame_bytes(t),
        PropertyV::AuthenticationData(_) => Seq::empty(),
        PropertyV::RequestProblemInformation(x) => seq![0x17u8, x],
        PropertyV::WillDelayInterval(x) => seq![0x18u8] + u32_be_bytes(x),
        PropertyV::RequestResponseInformation(x) => seq![0x19u8, x],
        PropertyV::ResponseInformation(t) => seq![0x1Au8] + utf8_frame_bytes(t),
        PropertyV::ServerReference(t) => seq![0x1Cu8] + utf8_frame_bytes(t),
        PropertyV::ReasonString(t) => seq![0x1Fu8] + utf8_frame_bytes(t),
        PropertyV::ReceiveMaximum(x) => seq![0x21u8] + u16_be_bytes(x),
        PropertyV::TopicAliasMaximum(x) => seq![0x22u8] + u16_be_bytes(x),
        PropertyV::TopicAlias(x) => seq![0x23u8] + u16_be_bytes(x),
        PropertyV::MaximumQoS(x) => seq![0x24u8, x],
        PropertyV::RetainAvailable(x) => seq![0x25u8, x],
        PropertyV::UserProperty(k, w) => seq![0x26u8] + utf8_frame_bytes(k) + utf8_frame_bytes(
            w,
        ),
        PropertyV::MaximumPacketSize(x) => seq![0x27u8] + u32_be_bytes(x),
        PropertyV::WildcardSubscriptionAvailable(b) => seq![0x28u8, bool_byte(b)],
        PropertyV::SubscriptionIdentifierAvailable(b) => seq![0x29u8, bool_byte(b)],
        PropertyV::SharedSubscriptionAvailable(b) => seq![0x2Au8, bool_byte(b)],
    }
}

/// Why one property cannot be encoded, if it cannot.
pub open spec fn prop_err(p: PropertyV) -> Option<EncodeError> {
    match p {
        PropertyV::CorrelationData(_) => Some(EncodeError::FormatError),
        PropertyV::AuthenticationData(_) => Some(EncodeError::FormatError),
        PropertyV::SubscriptionIdentifier(x) => if x > VLI_MAX {
            Some(EncodeError::VariableIntegerOutOfRangeError)
        } else {
            None
        },
        _ => None,
    }
}

/// The first encode error among the properties from index `i` on, if any.
pub open spec fn props_err_from(ps: Seq<PropertyV>, i: int) -> Option<EncodeError>
    decreases ps.len() - i,
{
    if i < 0 || i >= ps.len() {
        None
    } else {
        match prop_err(ps[i]) {
            Some(e) => Some(e),
            None => props_err_from(ps, i + 1),
        }
    }
}

/// The first encode error among the properties, if any.
pub open spec fn props_err(ps: Seq<PropertyV>) -> Option<EncodeError> {
    props_err_from(ps, 0)
}

/// The concatenated wire bytes of the properties from index `i` on.
pub open spec fn props_bytes_from(ps: Seq<PropertyV>, i: int) -> Seq<u8>
    decreases ps.len() - i,
{
    if i < 0 || i >= ps.len() {
        Seq::empty()
    } else {
        property_bytes(ps[i]) + props_bytes_from(ps, i + 1)
    }
}

/// The concatenated wire bytes of a property list, without the length prefix.
pub open spec fn props_bytes(ps: Seq<PropertyV>) -> Seq<u8> {
    props_bytes_from(ps, 0)
}

/// The whole property block: the byte count as a variable-length integer,
/// then the properties.
pub open spec fn props_block_bytes(ps: Seq<PropertyV>) -> Seq<u8> {
    vli_bytes(props_bytes(ps).len() as int) + props_bytes(ps)
}

/// The payload of a property whose identifier byte, already read, is below
/// 0x17.
#[verifier::opaque]
pub open spec fn parse_prop_payload_low(id: u8, t: Seq<u8>) -> PRes<PropertyV> {
    if id == 0x01 {
        match parse_u8(t) {
            PRes::Got { v, used } => PRes::Got { v: PropertyV::PayloadFormatIndicator(v), used },
            PRes::Fail { e } => PRes::Fail { e },
        }
    } else
    if id == 0x02 {
        match parse_u32(t) {
            PRes::Got { v, used } => PRes::Got { v: PropertyV::MessageExpiryInterval(v), used },
            PRes::Fail { e } => PRes::Fail { e },
        }
    } else
    if id == 0x08 {
        match parse_str(t) {
            PRes::Got { v, used } => PRes::Got { v: PropertyV::ContentType(v), used },
            PRes::Fail { e } => PRes::Fail { e },
        }
    } else
    if id == 0x09 {
        match parse_str(t) {
            PRes::Got { v, used } => PRes::Got { v: PropertyV::ResponseTopic(v), used },
            PRes::Fail { e } => PRes::Fail { e },
        }
    } else
    if id == 0x11 {
        match parse_vli(t) {
            VliParse::Val { v, used } => PRes::Got {
                v: PropertyV::SubscriptionIdentifier(v as u64),
                used,
            },
            _ => PRes::Fail { e: DecodeError::FormatError },
        }
    } else
    if id == 0x12 {
        match parse_u32(t) {
            PRes::Got { v, used } => PRes::Got { v: PropertyV::SessionExpiryInterval(v), used },
            PRes::Fail { e } => PRes::Fail { e },
        }
    } else
    if id == 0x13 {
        match parse_str(t) {
            PRes::Got { v, used } => PRes::Got { v: PropertyV::AssignedClientIdentifier(v), used },
            PRes::Fail { e } => PRes::Fail { e },
        }
    } else
    if id == 0x14 {
        match crate::wire::parse_u16(t) {
            PRes::Got { v, used } => PRes::Got { v: PropertyV::ServerKeepAlive(v), used },
            PRes::Fail { e } => PRes::Fail { e },
        }
    } else
    if id == 0x15 {
        match parse_str(t) {
            PRes::Got { v, used } => PRes::Got { v: PropertyV::AuthenticationMethod(v), used },
            PRes::Fail { e } => PRes::Fail { e },
        }
    } else {
        PRes::Fail { e: DecodeError::FormatError }
    }
}

/// The payload of a property whose identifier byte, already read, is 0x17 or
/// above.
#[verifier::opaque]
pub open spec fn parse_prop_payload_high(id: u8, t: Seq<u8>) -> PRes<PropertyV> {
    if id == 0x17 {
        match parse_u8(t) {
            PRes::Got { v, used } => PRes::Got { v: PropertyV::RequestProblemInformation(v), used },
            PRes::Fail { e } => PRes::Fail { e },
        }
    } else
    if id == 0x18 {
        match parse_u32(t) {
            PRes::Got { v, used } => PRes::Got { v: PropertyV::WillDelayInterval(v), used },
            PRes::Fail { e } => PRes::Fail { e },
        }
    } else
    if id == 0x19 {
        match parse_u8(t) {
            PRes::Got { v, used } => PRes::Got { v: PropertyV::RequestResponseInformation(v), used },
            PRes::Fail { e } => PRes::Fail { e },
        }
    } else
    if id == 0x1A {
        match parse_str(t) {
            PRes::Got { v, used } => PRes::Got { v: PropertyV::ResponseInformation(v), used },
            PRes::Fail { e } => PRes::Fail { e },
        }
    } else
    if id == 0x1C {
        match parse_str(t) {
            PRes::Got { v, used } => PRes::Got { v: PropertyV::ServerReference(v), used },
            PRes::Fail { e } => PRes::Fail { e },
        }
    } else
    if id == 0x1F {
        match parse_str(t) {
            PRes::Got { v, used } => PRes::Got { v: PropertyV::ReasonString(v), used },
            PRes::Fail { e } => PRes::Fail { e },
        }
    } else
    if id == 0x21 {
        match crate::wire::parse_u16(t) {
            PRes::Got { v, used } => PRes::Got { v: PropertyV::ReceiveMaximum(v), used },
            PRes::Fail { e } => PRes::Fail { e },
        }
    } else
    if id == 0x22 {
        match crate::wire::parse_u16(t) {
            PRes::Got { v, used } => PRes::Got { v: PropertyV::TopicAliasMaximum(v), used },
            PRes::Fail { e } => PRes::Fail { e },
        }
    } else
    if id == 0x23 {
        match crate::wire::parse_u16(t) {
            PRes::Got { v, used } => PRes::Got { v: PropertyV::TopicAlias(v), used },
            PRes::Fail { e } => PRes::Fail { e },
        }
    } else
    if id == 0x24 {
        match parse_u8(t) {
            PRes::Got { v, used } => PRes::Got { v: PropertyV::MaximumQoS(v), used },
            PRes::Fail { e } => PRes::Fail { e },
        }
    } else
    if id == 0x25 {
        match parse_u8(t) {
            PRes::Got { v, used } => PRes::Got { v: PropertyV::RetainAvailable(v), used },
            PRes::Fail { e } => PRes::Fail { e },
        }
    } else
    if id == 0x26 {
        match parse_str(t) {
            PRes::Fail { e } => PRes::Fail { e },
            PRes::Got { v: k, used: u1 } => match parse_str(t.skip(u1)) {
                PRes::Fail { e } => PRes::Fail { e },
                PRes::Got { v: w, used: u2 } => PRes::Got {
                    v: PropertyV::UserProperty(k, w),
                    used: u1 + u2,
                },
            },
        }
    } else
    if id == 0x27 {
        match parse_u32(t) {
            PRes::Got { v, used } => PRes::Got { v: PropertyV::MaximumPacketSize(v), used },
            PRes::Fail { e } => PRes::Fail { e },
        }
    } else
    if id == 0x28 {
        match parse_u8(t) {
            PRes::Got { v, used } => PRes::Got { v: PropertyV::WildcardSubscriptionAvailable(v > 0), used },
            PRes::Fail { e } => PRes::Fail { e },
        }
    } else
    if id == 0x29 {
        match parse_u8(t) {
            PRes::Got { v, used } => PRes::Got { v: PropertyV::SubscriptionIdentifierAvailable(v > 0), used },
            PRes::Fail { e } => PRes::Fail { e },
        }
    } else
    if id == 0x2A {
        match parse_u8(t) {
            PRes::Got { v, used } => PRes::Got { v: PropertyV::SharedSubscriptionAvailable(v > 0), used },
            PRes::Fail { e } => PRes::Fail { e },
        }
    } else {
        PRes::Fail { e: DecodeError::FormatError }
    }
}

/// One identifier byte and its typed payload.  Unknown identifiers, and the
/// two identifiers that are refused outright, are format errors.
pub open spec fn parse_one_prop(s: Seq<u8>) -> PRes<PropertyV> {
    if s.len() < 1 {
        PRes::Fail { e: DecodeError::FormatError }
    } else {
        let r = if s[0] < 0x17 {
            parse_prop_payload_low(s[0], s.skip(1))
        } else {
            parse_prop_payload_high(s[0], s.skip(1))
        };
        match r {
            PRes::Got { v, used } => PRes::Got { v, used: 1 + used },
            PRes::Fail { e } => PRes::Fail { e },
        }
    }
}

/// Properties read one after another until exactly `budget` bytes are
/// consumed; ending anywhere else is a format error.
pub open spec fn parse_props_items(s: Seq<u8>, budget: int, acc: Seq<PropertyV>) -> Result<
    Seq<PropertyV>,
    DecodeError,
>
    decreases budget,
{
    if budget <= 0 {
        if budget == 0 {
            Ok(acc)
        } else {
            Err(DecodeError::FormatError)
        }
    } else {
        match parse_one_prop(s) {
            PRes::Fail { e } => Err(e),
            PRes::Got { v, used } => {
                if used < 1 || used > budget {
                    Err(DecodeError::FormatError)
                } else {
                    parse_props_items(s.skip(used), budget - used, acc.push(v))
                }
            },
        }
    }
}

/// A whole property block: the declared byte count, then exactly that many
/// bytes of properties.
pub open spec fn parse_properties(s: Seq<u8>) -> PRes<Seq<PropertyV>> {
    match parse_vli(s) {
        VliParse::Val { v, used } => match parse_props_items(s.skip(used), v, Seq::empty()) {
            Ok(ps) => PRes::Got { v: ps, used: used + v },
            Err(e) => PRes::Fail { e },
        },
        _ => PRes::Fail { e: DecodeError::FormatError },
    }
}

/// Reads the payload of a property whose identifier byte, below 0x17, was
/// already consumed.
#[verifier::rlimit(100)]
#[verifier::spinoff_prover]
fn decode_prop_payload_low(buffer: &mut BytesMut, id: u8) -> (r: Result<Property, DecodeError>)
    requires
        id < 0x17,
    ensures
        match parse_prop_payload_low(id, bytes_view(*old(buffer))) {
            PRes::Got { v, used } => r matches Ok(p) && p@ == v && 1 <= used <= bytes_view(
                *old(buffer),
            ).len() && bytes_view(*final(buffer)) == bytes_view(*old(buffer)).skip(used),
            PRes::Fail { e } => r matches Err(e2) && e2 == e,
        },
{
    proof {
        reveal(parse_prop_payload_low);
    }
    match id {
        0x01 => match read_u8(buffer) {
            Ok(x) => Ok(Property::PayloadFormatIndicator(x)),
            Err(e) => Err(e),
        },
        0x02 => match read_u32(buffer) {
            Ok(x) => Ok(Property::MessageExpiryInterval(x)),
            Err(e) => Err(e),
        },
        0x08 => match decode_utf8(buffer) {
            Ok(s) => Ok(Property::ContentType(s)),
            Err(e) => Err(e),
        },
        0x09 => match decode_utf8(buffer) {
            Ok(s) => Ok(Property::ResponseTopic(s)),
            Err(e) => Err(e),
        },
        0x11 => match variable_integer::decode(buffer) {
            Ok(x) => Ok(Property::SubscriptionIdentifier(x)),
            Err(e) => Err(e),
        },
        0x12 => match read_u32(buffer) {
            Ok(x) => Ok(Property::SessionExpiryInterval(x)),
            Err(e) => Err(e),
        },
        0x13 => match decode_utf8(buffer) {
            Ok(s) => Ok(Property::AssignedClientIdentifier(s)),
            Err(e) => Err(e),
        },
        0x14 => match read_u16(buffer) {
            Ok(x) => Ok(Property::ServerKeepAlive(x)),
            Err(e) => Err(e),
        },
        0x15 => match decode_utf8(buffer) {
            Ok(s) => Ok(Property::AuthenticationMethod(s)),
            Err(e) => Err(e),
        },
        _ => Err(DecodeError::FormatError),
    }
}

/// Reads the payload of a property whose identifier byte, 0x17 or above, was
/// already consumed.
#[verifier::rlimit(100)]
#[verifier::spinoff_prover]
fn decode_prop_payload_high(buffer: &mut BytesMut, id: u8) -> (r: Result<Property, DecodeError>)
    requires
        id >= 0x17,
    ensures
        match parse_prop_payload_high(id, bytes_view(*old(buffer))) {
            PRes::Got { v, used } => r matches Ok(p) && p@ == v && 1 <= used <= bytes_view(
                *old(buffer),
            ).len() && bytes_view(*final(buffer)) == bytes_view(*old(buffer)).skip(used),
            PRes::Fail { e } => r matches Err(e2) && e2 == e,
        },
{
    proof {
        reveal(parse_prop_payload_high);
    }
    match id {
        0x17 => match read_u8(buffer) {
            Ok(x) => Ok(Property::RequestProblemInformation(x)),
            Err(e) => Err(e),
        },
        0x18 => match read_u32(buffer) {
            Ok(x) => Ok(Property::WillDelayInterval(x)),
            Err(e) => Err(e),
        },
        0x19 => match read_u8(buffer) {
            Ok(x) => Ok(Property::RequestResponseInformation(x)),
            Err(e) => Err(e),
        },
        0x1A => match decode_utf8(buffer) {
            Ok(s) => Ok(Property::ResponseInformation(s)),
            Err(e) => Err(e),
        },
        0x1C => match decode_utf8(buffer) {
            Ok(s) => Ok(Property::ServerReference(s)),
            Err(e) => Err(e),
        },
        0x1F => match decode_utf8(buffer) {
            Ok(s) => Ok(Property::ReasonString(s)),
            Err(e) => Err(e),
        },
        0x21 => match read_u16(buffer) {
            Ok(x) => Ok(Property::ReceiveMaximum(x)),
            Err(e) => Err(e),
        },
        0x22 => match read_u16(buffer) {
            Ok(x) => Ok(Property::TopicAliasMaximum(x)),
            Err(e) => Err(e),
        },
        0x23 => match read_u16(buffer) {
            Ok(x) => Ok(Property::TopicAlias(x)),
            Err(e) => Err(e),
        },
        0x24 => match read_u8(buffer) {
            Ok(x) => Ok(Property::MaximumQoS(x)),
            Err(e) => Err(e),
        },
        0x25 => match read_u8(buffer) {
            Ok(x) => Ok(Property::RetainAvailable(x)),
            Err(e) => Err(e),
        },
        0x26 => {
            let k = match decode_utf8(buffer) {
                Ok(s) => s,
                Err(e) => { return Err(e) },
            };
            let w = match decode_utf8(buffer) {
                Ok(s) => s,
                Err(e) => { return Err(e) },
            };
            Ok(Property::UserProperty(k, w))
        },
        0x27 => match read_u32(buffer) {
            Ok(x) => Ok(Property::MaximumPacketSize(x)),
            Err(e) => Err(e),
        },
        0x28 => match read_u8(buffer) {
            Ok(x) => Ok(Property::WildcardSubscriptionAvailable(x > 0)),
            Err(e) => Err(e),
        },
        0x29 => match read_u8(buffer) {
            Ok(x) => Ok(Property::SubscriptionIdentifierAvailable(x > 0)),
            Err(e) => Err(e),
        },
        0x2A => match read_u8(buffer) {
            Ok(x) => Ok(Property::SharedSubscriptionAvailable(x > 0)),
            Err(e) => Err(e),
        },
        _ => Err(DecodeError::FormatError),
    }
}

/// Reads one property: its identifier byte, then its typed payload.
fn decode_property(buffer: &mut BytesMut) -> (r: Result<Property, DecodeError>)
    ensures
        match parse_one_prop(bytes_view(*old(buffer))) {
            PRes::Got { v, used } => r matches Ok(p) && p@ == v && 1 <= used <= bytes_view(
                *old(buffer),
            ).len() && bytes_view(*final(buffer)) == bytes_view(*old(buffer)).skip(used),
            PRes::Fail { e } => r matches Err(e2) && e2 == e,
        },
{
    let id = match read_u8(buffer) {
        Ok(b) => b,
        Err(e) => { return Err(e) },
    };
    if id < 0x17 {
        decode_prop_payload_low(buffer, id)
    } else {
        decode_prop_payload_high(buffer, id)
    }
}

/// Appends one property's identifier byte and payload, or reports why it has
/// no encoding while leaving the buffer unchanged.
#[verifier::rlimit(100)]
#[verifier::spinoff_prover]
fn encode_property(content: &mut BytesMut, property: &Property) -> (r: Result<(), EncodeError>)
    ensures
        match prop_err(property@) {
            Some(e) => r == Err::<(), EncodeError>(e) && bytes_view(*final(content)) == bytes_view(
                *old(content),
            ),
            None => r == Ok::<(), EncodeError>(()) && bytes_view(*final(content)) == bytes_view(
                *old(content),
            ) + property_bytes(property@),
        },
{
    let ghost pre = bytes_view(*content);
    match property {
        Property::PayloadFormatIndicator(x) => {
            buf_put_u8(content, 0x01);
            buf_put_u8(content, *x);
            proof {
                assert(bytes_view(*content) =~= pre + property_bytes(property@));
            }
            Ok(())
        },
        Property::MessageExpiryInterval(x) => {
            buf_put_u8(content, 0x02);
            buf_put_u32(content, *x);
            proof {
                assert(bytes_view(*content) =~= pre + property_bytes(property@));
            }
            Ok(())
        },
        Property::ContentType(s) => {
            buf_put_u8(content, 0x08);
            encode_utf8(content, s.as_str());
            proof {
                assert(bytes_view(*content) =~= pre + property_bytes(property@));
            }
            Ok(())
        },
        Property::ResponseTopic(s) => {
            buf_put_u8(content, 0x09);
            encode_utf8(content, s.as_str());
            proof {
                assert(bytes_view(*content) =~= pre + property_bytes(property@));
            }
            Ok(())
        },
        Property::CorrelationData(_) => Err(EncodeError::FormatError),
        Property::SubscriptionIdentifier(x) => {
            if *x > VLI_MAX {
                return Err(EncodeError::VariableIntegerOutOfRangeError);
            }
            buf_put_u8(content, 0x11);
            match variable_integer::encode(content, *x) {
                Ok(u) => u,
                Err(_) => { return Err(EncodeError::FormatError) },
            };
            proof {
                assert(bytes_view(*content) =~= pre + property_bytes(property@));
            }
            Ok(())
        },
        Property::SessionExpiryInterval(x) => {
            buf_put_u8(content, 0x12);
            buf_put_u32(content, *x);
            proof {
                assert(bytes_view(*content) =~= pre + property_bytes(property@));
            }
            Ok(())
        },
        Property::AssignedClientIdentifier(s) => {
            buf_put_u8(content, 0x13);
            encode_utf8(content, s.as_str());
            proof {
                assert(bytes_view(*content) =~= pre + property_bytes(property@));
            }
            Ok(())
        },
        Property::ServerKeepAlive(x) => {
            buf_put_u8(content, 0x14);
            buf_put_u16(content, *x);
            proof {
                assert(bytes_view(*content) =~= pre + property_bytes(property@));
            }
            Ok(())
        },
        Property::AuthenticationMethod(s) => {
            buf_put_u8(content, 0x15);
            encode_utf8(content, s.as_str());
            proof {
                assert(bytes_view(*content) =~= pre + property_bytes(property@));
            }
            Ok(())
        },
        Property::AuthenticationData(_) => Err(EncodeError::FormatError),
        Property::RequestProblemInformation(x) => {
            buf_put_u8(content, 0x17);
            buf_put_u8(content, *x);
            proof {
                assert(bytes_view(*content) =~= pre + property_bytes(property@));
            }
            Ok(())
        },
        Property::WillDelayInterval(x) => {
            buf_put_u8(content, 0x18);
            buf_put_u32(content, *x);
            proof {
                assert(bytes_view(*content) =~= pre + property_bytes(property@));
            }
            Ok(())
        },
        Property::RequestResponseInformation(x) => {
            buf_put_u8(content, 0x19);
            buf_put_u8(content, *x);
            proof {
                assert(bytes_view(*content) =~= pre + property_bytes(property@));
            }
            Ok(())
        },
        Property::ResponseInformation(s) => {
            buf_put_u8(content, 0x1A);
            encode_utf8(content, s.as_str());
            proof {
                assert(bytes_view(*content) =~= pre + property_bytes(property@));
            }
            Ok(())
        },
        Property::ServerReference(s) => {
            buf_put_u8(content, 0x1C);
            encode_utf8(content, s.as_str());
            proof {
                assert(bytes_view(*content) =~= pre + property_bytes(property@));
            }
            Ok(())
        },
        Property::ReasonString(s) => {
            buf_put_u8(content, 0x1F);
            encode_utf8(content, s.as_str());
            proof {
                assert(bytes_view(*content) =~= pre + property_bytes(property@));
            }
            Ok(())
        },
        Property::ReceiveMaximum(x) => {
            buf_put_u8(content, 0x21);
            buf_put_u16(content, *x);
            proof {
                assert(bytes_view(*content) =~= pre + property_bytes(property@));
            }
            Ok(())
        },
        Property::TopicAliasMaximum(x) => {
            buf_put_u8(content, 0x22);
            buf_put_u16(content, *x);
            proof {
                assert(bytes_view(*content) =~= pre + property_bytes(property@));
            }
            Ok(())
        },
        Property::TopicAlias(x) => {
            buf_put_u8(content, 0x23);
            buf_put_u16(content, *x);
            proof {
                assert(bytes_view(*content) =~= pre + property_bytes(property@));
            }
            Ok(())
        },
        Property::MaximumQoS(x) => {
            buf_put_u8(content, 0x24);
            buf_put_u8(content, *x);
            proof {
                assert(bytes_view(*content) =~= pre + property_bytes(property@));
            }
            Ok(())
        },
        Property::RetainAvailable(x) => {
            buf_put_u8(content, 0x25);
            buf_put_u8(content, *x);
            proof {
                assert(bytes_view(*content) =~= pre + property_bytes(property@));
            }
            Ok(())
        },
        Property::UserProperty(k, w) => {
            buf_put_u8(content, 0x26);
            encode_utf8(content, k.as_str());
            encode_utf8(content, w.as_str());
            proof {
                assert(bytes_view(*content) =~= pre + property_bytes(property@));
            }
            Ok(())
        },
        Property::MaximumPacketSize(x) => {
            buf_put_u8(content, 0x27);
            buf_put_u32(content, *x);
            proof {
                assert(bytes_view(*content) =~= pre + property_bytes(property@));
            }
            Ok(())
        },
        Property::WildcardSubscriptionAvailable(x) => {
            buf_put_u8(content, 0x28);
            buf_put_u8(content, if *x { 1 } else { 0 });
            proof {
                assert(bytes_view(*content) =~= pre + property_bytes(property@));
            }
            Ok(())
        },
        Property::SubscriptionIdentifierAvailable(x) => {
            buf_put_u8(content, 0x29);
            buf_put_u8(content, if *x { 1 } else { 0 });
            proof {
                assert(bytes_view(*content) =~= pre + property_bytes(property@));
            }
            Ok(())
        },
        Property::SharedSubscriptionAvailable(x) => {
            buf_put_u8(content, 0x2A);
            buf_put_u8(content, if *x { 1 } else { 0 });
            proof {
                assert(bytes_view(*content) =~= pre + property_bytes(property@));
            }
            Ok(())
        },
    }
}

impl Property {
    /// Reads a whole property block: the declared byte count, then exactly
    /// that many bytes of properties.  Ending a property anywhere but on the
    /// declared boundary is a format error.
    #[verifier::rlimit(100)]
    #[verifier::spinoff_prover]
    pub fn decode(buffer: &mut BytesMut) -> (r: Result<Vec<Property>, DecodeError>)
        ensures
            match parse_properties(bytes_view(*old(buffer))) {
                PRes::Got { v, used } => r matches Ok(ps) && view_props(ps@) == v && 1 <= used
                    <= bytes_view(*old(buffer)).len() && bytes_view(*final(buffer)) == bytes_view(
                    *old(buffer),
                ).skip(used),
                PRes::Fail { e } => r matches Err(e2) && e2 == e,
            },
    {
        let ghost s = bytes_view(*buffer);
        let remaining_length = match variable_integer::decode(buffer) {
            Ok(v) => v,
            Err(e) => { return Err(e) },
        };
        let ghost u0: int = match parse_vli(s) {
            VliParse::Val { used, .. } => used,
            _ => 0,
        };
        let ghost t0 = bytes_view(*buffer);
        let total = remaining_length as usize;
        let mut budget = total;
        let mut properties: Vec<Property> = Vec::new();
        proof {
            assert(view_props(properties@) =~= Seq::<PropertyV>::empty());
            assert(t0.skip(0) =~= t0);
        }
        while budget > 0
            invariant
                s == bytes_view(*old(buffer)),
                parse_vli(s) matches VliParse::Val { v, used } && v == total as int && used == u0,
                1 <= u0 <= s.len(),
                budget <= total,
                bytes_view(*buffer) == t0.skip(total as int - budget as int),
                t0 == s.skip(u0),
                total as int - budget as int <= t0.len(),
                parse_props_items(t0, total as int, Seq::empty()) == parse_props_items(
                    bytes_view(*buffer),
                    budget as int,
                    view_props(properties@),
                ),
            decreases budget,
        {
            let ghost cur = bytes_view(*buffer);
            let ghost acc = view_props(properties@);
            let len_before = buf_len(buffer);
            let p = match decode_property(buffer) {
                Ok(p) => p,
                Err(e) => { return Err(e) },
            };
            let len_after = buf_len(buffer);
            let consumed = len_before - len_after;
            proof {
                let pr = parse_one_prop(cur);
                assert(pr matches PRes::Got { v, used } && used == consumed as int && v == p@);
            }
            if consumed > budget {
                return Err(DecodeError::FormatError);
            }
            if consumed == 0 {
                // a property always occupies at least its identifier byte
                return Err(DecodeError::FormatError);
            }
            budget = budget - consumed;
            properties.push(p);
            proof {
                assert(view_props(properties@) =~= acc.push(p@));
                assert(bytes_view(*buffer) =~= t0.skip(total as int - budget as int));
            }
        }
        proof {
            assert(parse_props_items(t0, total as int, Seq::empty()) == Ok::<
                Seq<PropertyV>,
                DecodeError,
            >(view_props(properties@)));
            assert(bytes_view(*buffer) =~= s.skip(u0 + total as int));
        }
        Ok(properties)
    }

    /// Serializes the properties into a scratch buffer in list order, then
    /// appends the scratch length as a variable-length integer and the
    /// scratch bytes.  The first property without a wire encoding decides
    /// the error; on any error the output buffer is left unchanged.
    pub fn encode(buffer: &mut BytesMut, properties: &Vec<Property>) -> (r: Result<
        (),
        EncodeError,
    >)
        ensures
            ({
                let pv = view_props(properties@);
                match props_err(pv) {
                    Some(e) => r == Err::<(), EncodeError>(e) && bytes_view(*final(buffer))
                        == bytes_view(*old(buffer)),
                    None => {
                        if props_bytes(pv).len() > VLI_MAX {
                            r == Err::<(), EncodeError>(
                                EncodeError::VariableIntegerOutOfRangeError,
                            ) && bytes_view(*final(buffer)) == bytes_view(*old(buffer))
                        } else {
                            r == Ok::<(), EncodeError>(()) && bytes_view(*final(buffer))
                                == bytes_view(*old(buffer)) + props_block_bytes(pv)
                        }
                    },
                }
            }),
    {
        let ghost pv = view_props(properties@);
        let mut content = buf_new();
        let mut i: usize = 0;
        while i < properties.len()
            invariant
                pv == view_props(properties@),
                i <= properties.len(),
                pv.len() == properties.len(),
                props_err_from(pv, 0) == props_err_from(pv, i as int),
                props_bytes_from(pv, 0) == bytes_view(content) + props_bytes_from(pv, i as int),
            decreases properties.len() - i,
        {
            let ghost before = bytes_view(content);
            match encode_property(&mut content, &properties[i]) {
                Ok(u) => u,
                Err(e) => { return Err(e) },
            };
            proof {
                assert(pv[i as int] == properties@[i as int]@);
                assert(props_bytes_from(pv, 0) =~= bytes_view(content) + props_bytes_from(
                    pv,
                    i as int + 1,
                ));
            }
            i = i + 1;
        }
        proof {
            assert(props_bytes_from(pv, pv.len() as int) =~= Seq::<u8>::empty());
            assert(props_bytes_from(pv, 0) =~= bytes_view(content));
        }
        let content_length = buf_len(&content);
        match variable_integer::encode(buffer, content_length as u64) {
            Ok(u) => u,
            Err(e) => { return Err(e) },
        };
        buf_append(buffer, &content);
        proof {
            assert(bytes_view(*buffer) =~= bytes_view(*old(buffer)) + props_block_bytes(pv));
        }
        Ok(())
    }
}

/// Why encoding a property block fails, if it does: the first property
/// without a wire encoding decides, then the block's own length bound.
pub open spec fn props_enc_err(ps: Seq<PropertyV>) -> Option<EncodeError> {
    match props_err(ps) {
        Some(e) => Some(e),
        None => {
            if props_bytes(ps).len() > VLI_MAX {
                Some(EncodeError::VariableIntegerOutOfRangeError)
            } else {
                None
            }
        },
    }
}

/// One encodable, well-sized property decodes back to itself.
pub open spec fn prop_wf(p: PropertyV) -> bool {
    match p {
        PropertyV::ContentType(t) => vstd::utf8::encode_utf8(t).len() < 0x10000,
        PropertyV::ResponseTopic(t) => vstd::utf8::encode_utf8(t).len() < 0x10000,
        PropertyV::CorrelationData(_) => false,
        PropertyV::SubscriptionIdentifier(x) => x <= VLI_MAX,
        PropertyV::AssignedClientIdentifier(t) => vstd::utf8::encode_utf8(t).len() < 0x10000,
        PropertyV::AuthenticationMethod(t) => vstd::utf8::encode_utf8(t).len() < 0x10000,
        PropertyV::AuthenticationData(_) => false,
        PropertyV::ResponseInformation(t) => vstd::utf8::encode_utf8(t).len() < 0x10000,
        PropertyV::ServerReference(t) => vstd::utf8::encode_utf8(t).len() < 0x10000,
        PropertyV::ReasonString(t) => vstd::utf8::encode_utf8(t).len() < 0x10000,
        PropertyV::UserProperty(k, w) => vstd::utf8::encode_utf8(k).len() < 0x10000
            && vstd::utf8::encode_utf8(w).len() < 0x10000,
        _ => true,
    }
}

/// Every property in the list is encodable and well-sized.
pub open spec fn props_wf(ps: Seq<PropertyV>) -> bool {
    forall|i: int| 0 <= i < ps.len() ==> prop_wf(#[trigger] ps[i])
}

/// Which payload shape a property has: single byte, fixed-width integer,
/// framed string, or variable-length integer.
pub open spec fn prop_class(p: PropertyV) -> int {
    match p {
        PropertyV::PayloadFormatIndicator(_) => 1,
        PropertyV::RequestProblemInformation(_) => 1,
        PropertyV::RequestResponseInformation(_) => 1,
        PropertyV::MaximumQoS(_) => 1,
        PropertyV::RetainAvailable(_) => 1,
        PropertyV::WildcardSubscriptionAvailable(_) => 1,
        PropertyV::SubscriptionIdentifierAvailable(_) => 1,
        PropertyV::SharedSubscriptionAvailable(_) => 1,
        PropertyV::ServerKeepAlive(_) => 2,
        PropertyV::ReceiveMaximum(_) => 2,
        PropertyV::TopicAliasMaximum(_) => 2,
        PropertyV::TopicAlias(_) => 2,
        PropertyV::MessageExpiryInterval(_) => 2,
        PropertyV::SessionExpiryInterval(_) => 2,
        PropertyV::WillDelayInterval(_) => 2,
        PropertyV::MaximumPacketSize(_) => 2,
        PropertyV::ContentType(_) => 3,
        PropertyV::ResponseTopic(_) => 3,
        PropertyV::AssignedClientIdentifier(_) => 3,
        PropertyV::AuthenticationMethod(_) => 3,
        PropertyV::ResponseInformation(_) => 3,
        PropertyV::ServerReference(_) => 3,
        PropertyV::ReasonString(_) => 3,
        PropertyV::UserProperty(_, _) => 3,
        PropertyV::SubscriptionIdentifier(_) => 4,
        PropertyV::CorrelationData(_) => 0,
        PropertyV::AuthenticationData(_) => 0,
    }
}

#[verifier::rlimit(100)]
#[verifier::spinoff_prover]
proof fn lemma_prop_rt_byte(p: PropertyV, rest: Seq<u8>)
    requires
        prop_wf(p),
        prop_class(p) == 1,
    ensures
        parse_one_prop(property_bytes(p) + rest) == (PRes::Got {
            v: p,
            used: property_bytes(p).len() as int,
        }),
        1 <= property_bytes(p).len(),
{
    reveal(parse_prop_payload_low);
    reveal(parse_prop_payload_high);
    let s = property_bytes(p) + rest;
    match p {
        PropertyV::PayloadFormatIndicator(x) => {
            assert(s.skip(1)[0] == x);
        },
        PropertyV::RequestProblemInformation(x) => {
            assert(s.skip(1)[0] == x);
        },
        PropertyV::RequestResponseInformation(x) => {
            assert(s.skip(1)[0] == x);
        },
        PropertyV::MaximumQoS(x) => {
            assert(s.skip(1)[0] == x);
        },
        PropertyV::RetainAvailable(x) => {
            assert(s.skip(1)[0] == x);
        },
        PropertyV::WildcardSubscriptionAvailable(x) => {
            assert(s.skip(1)[0] == bool_byte(x));
        },
        PropertyV::SubscriptionIdentifierAvailable(x) => {
            assert(s.skip(1)[0] == bool_byte(x));
        },
        PropertyV::SharedSubscriptionAvailable(x) => {
            assert(s.skip(1)[0] == bool_byte(x));
        },
        _ => {},
    }
}

#[verifier::rlimit(100)]
#[verifier::spinoff_prover]
proof fn lemma_prop_rt_fixed(p: PropertyV, rest: Seq<u8>)
    requires
        prop_wf(p),
        prop_class(p) == 2,
    ensures
        parse_one_prop(property_bytes(p) + rest) == (PRes::Got {
            v: p,
            used: property_bytes(p).len() as int,
        }),
        1 <= property_bytes(p).len(),
{
    reveal(parse_prop_payload_low);
    reveal(parse_prop_payload_high);
    let s = property_bytes(p) + rest;
    match p {
        PropertyV::ServerKeepAlive(x) => {
            assert(s.skip(1) =~= u16_be_bytes(x) + rest);
            crate::wire::lemma_u16_be_parse(x, rest);
        },
        PropertyV::ReceiveMaximum(x) => {
            assert(s.skip(1) =~= u16_be_bytes(x) + rest);
            crate::wire::lemma_u16_be_parse(x, rest);
        },
        PropertyV::TopicAliasMaximum(x) => {
            assert(s.skip(1) =~= u16_be_bytes(x) + rest);
            crate::wire::lemma_u16_be_parse(x, rest);
        },
        PropertyV::TopicAlias(x) => {
            assert(s.skip(1) =~= u16_be_bytes(x) + rest);
            crate::wire::lemma_u16_be_parse(x, rest);
        },
        PropertyV::MessageExpiryInterval(x) => {
            assert(s.skip(1) =~= u32_be_bytes(x) + rest);
            crate::wire::lemma_u32_be_parse(x, rest);
        },
        PropertyV::SessionExpiryInterval(x) => {
            assert(s.skip(1) =~= u32_be_bytes(x) + rest);
            crate::wire::lemma_u32_be_parse(x, rest);
        },
        PropertyV::WillDelayInterval(x) => {
            assert(s.skip(1) =~= u32_be_bytes(x) + rest);
            crate::wire::lemma_u32_be_parse(x, rest);
        },
        PropertyV::MaximumPacketSize(x) => {
            assert(s.skip(1) =~= u32_be_bytes(x) + rest);
            crate::wire::lemma_u32_be_parse(x, rest);
        },
        _ => {},
    }
}

#[verifier::rlimit(100)]
#[verifier::spinoff_prover]
proof fn lemma_prop_rt_str(p: PropertyV, rest: Seq<u8>)
    requires
        prop_wf(p),
        prop_class(p) == 3,
    ensures
        parse_one_prop(property_bytes(p) + rest) == (PRes::Got {
            v: p,
            used: property_bytes(p).len() as int,
        }),
        1 <= property_bytes(p).len(),
{
    reveal(parse_prop_payload_low);
    reveal(parse_prop_payload_high);
    let s = property_bytes(p) + rest;
    match p {
        PropertyV::ContentType(t) => {
            assert(s.skip(1) =~= utf8_frame_bytes(t) + rest);
            crate::utils::lemma_str_round_trip(t, rest);
        },
        PropertyV::ResponseTopic(t) => {
            assert(s.skip(1) =~= utf8_frame_bytes(t) + rest);
            crate::utils::lemma_str_round_trip(t, rest);
        },
        PropertyV::AssignedClientIdentifier(t) => {
            assert(s.skip(1) =~= utf8_frame_bytes(t) + rest);
            crate::utils::lemma_str_round_trip(t, rest);
        },
        PropertyV::AuthenticationMethod(t) => {
            assert(s.skip(1) =~= utf8_frame_bytes(t) + rest);
            crate::utils::lemma_str_round_trip(t, rest);
        },
        PropertyV::ResponseInformation(t) => {
            assert(s.skip(1) =~= utf8_frame_bytes(t) + rest);
            crate::utils::lemma_str_round_trip(t, rest);
        },
        PropertyV::ServerReference(t) => {
            assert(s.skip(1) =~= utf8_frame_bytes(t) + rest);
            crate::utils::lemma_str_round_trip(t, rest);
        },
        PropertyV::ReasonString(t) => {
            assert(s.skip(1) =~= utf8_frame_bytes(t) + rest);
            crate::utils::lemma_str_round_trip(t, rest);
        },
        PropertyV::UserProperty(k, w) => {
            let fk = utf8_frame_bytes(k);
            let fw = utf8_frame_bytes(w);
            assert(s.skip(1) =~= fk + (fw + rest));
            crate::utils::lemma_str_round_trip(k, fw + rest);
            assert(s.skip(1).skip(fk.len() as int) =~= fw + rest);
            crate::utils::lemma_str_round_trip(w, rest);
        },
        _ => {},
    }
}

/// Decoding the wire bytes of one well-formed property, whatever follows
/// them, gives back that property and consumes exactly its bytes.
pub proof fn lemma_property_round_trip(p: PropertyV, rest: Seq<u8>)
    requires
        prop_wf(p),
    ensures
        parse_one_prop(property_bytes(p) + rest) == (PRes::Got {
            v: p,
            used: property_bytes(p).len() as int,
        }),
        1 <= property_bytes(p).len(),
{
    if prop_class(p) == 1 {
        lemma_prop_rt_byte(p, rest);
    } else if prop_class(p) == 2 {
        lemma_prop_rt_fixed(p, rest);
    } else if prop_class(p) == 3 {
        lemma_prop_rt_str(p, rest);
    } else {
        reveal(parse_prop_payload_low);
        let s = property_bytes(p) + rest;
        match p {
            PropertyV::SubscriptionIdentifier(x) => {
                assert(s.skip(1) =~= vli_bytes(x as int) + rest);
                crate::variable_integer::lemma_vli_round_trip(x as int, rest);
            },
            _ => {},
        }
    }
}

/// The tail of the concatenated property bytes is the concatenation for the
/// tail of the list.
proof fn lemma_props_bytes_from_skip(ps: Seq<PropertyV>, i: int)
    requires
        0 <= i <= ps.len(),
    ensures
        props_bytes_from(ps, i) == props_bytes(ps.skip(i)),
    decreases ps.len() - i,
{
    if i == ps.len() {
        assert(props_bytes(ps.skip(i)) =~= Seq::<u8>::empty());
    } else {
        lemma_props_bytes_from_skip(ps, i + 1);
        assert(ps.skip(i)[0] == ps[i]);
        assert(ps.skip(i).skip(1) =~= ps.skip(i + 1));
        assert(props_bytes(ps.skip(i)) == property_bytes(ps.skip(i)[0]) + props_bytes_from(
            ps.skip(i),
            1,
        ));
        lemma_props_bytes_from_skip(ps.skip(i), 1);
        assert(props_bytes(ps.skip(i).skip(1)) == props_bytes(ps.skip(i + 1)));
    }
}

#[verifier::rlimit(100)]
#[verifier::spinoff_prover]
proof fn lemma_props_items_round_trip(ps: Seq<PropertyV>, acc: Seq<PropertyV>, rest: Seq<u8>)
    requires
        props_wf(ps),
    ensures
        parse_props_items(props_bytes(ps) + rest, props_bytes(ps).len() as int, acc) == Ok::<
            Seq<PropertyV>,
            DecodeError,
        >(acc + ps),
    decreases ps.len(),
{
    let b = props_bytes(ps);
    if ps.len() == 0 {
        assert(b =~= Seq::<u8>::empty());
        assert(acc + ps =~= acc);
    } else {
        let p0 = ps[0];
        let tail = ps.skip(1);
        lemma_props_bytes_from_skip(ps, 1);
        assert(b == property_bytes(p0) + props_bytes(tail));
        let b0 = property_bytes(p0);
        let bt = props_bytes(tail);
        assert(b + rest =~= b0 + (bt + rest));
        assert(prop_wf(p0));
        lemma_property_round_trip(p0, bt + rest);
        assert(forall|j: int| 0 <= j < tail.len() ==> prop_wf(#[trigger] tail[j]));
        lemma_props_items_round_trip(tail, acc.push(p0), rest);
        assert((b + rest).skip(b0.len() as int) =~= bt + rest);
        assert(acc.push(p0) + tail =~= acc + ps);
    }
}

/// Decoding the wire bytes of a well-formed property block, whatever follows
/// them, gives back the same properties and consumes exactly the block.
pub proof fn lemma_props_round_trip(ps: Seq<PropertyV>, rest: Seq<u8>)
    requires
        props_wf(ps),
        props_bytes(ps).len() <= VLI_MAX,
    ensures
        parse_properties(props_block_bytes(ps) + rest) == (PRes::Got {
            v: ps,
            used: props_block_bytes(ps).len() as int,
        }),
{
    let b = props_bytes(ps);
    let l = b.len() as int;
    let lb = vli_bytes(l);
    crate::variable_integer::lemma_vli_round_trip(l, b + rest);
    assert(props_block_bytes(ps) + rest =~= lb + (b + rest));
    assert((props_block_bytes(ps) + rest).skip(lb.len() as int) =~= b + rest);
    lemma_props_items_round_trip(ps, Seq::empty(), rest);
    assert(Seq::<PropertyV>::empty() + ps =~= ps);
}

} // verus!
