//! The packet model: the sixteen wire type codes, and the closed union of
//! decoded packets that the stream codec produces and consumes.

use vstd::prelude::*;

use bytes::BytesMut;

use crate::bytebuf::bytes_view;
use crate::error::EncodeError;
use crate::property::props_enc_err;

pub use crate::connack::ConnackPacket;
use crate::connack::ConnackPacketV;
pub use crate::connect::ConnectPacket;
use crate::connect::ConnectPacketV;
pub use crate::connect::WillConfig;
pub use crate::disconnect::DisconnectPacket;
use crate::disconnect::DisconnectPacketV;
pub use crate::pingreq::PingReqPacket;
pub use crate::pingresp::PingRespPacket;
pub use crate::property::Property;
pub use crate::puback::PubackPacket;
use crate::puback::PubackPacketV;
pub use crate::publish::PublishConfig;
pub use crate::publish::PublishPacket;
use crate::publish::PublishPacketV;
pub use crate::reason_code::ReasonCode;
pub use crate::suback::SubackPacket;
use crate::suback::SubackPacketV;
pub use crate::subscribe::SubscribePacket;
use crate::subscribe::SubscribePacketV;
pub use crate::subscribe::SubscriptionConfig;
pub use crate::unsuback::UnsubackPacket;
use crate::unsuback::UnsubackPacketV;
pub use crate::unsubscribe::UnsubscribePacket;
use crate::unsubscribe::UnsubscribePacketV;

verus! {

/// The sixteen packet type codes of the protocol, high nibble of a packet's
/// first byte.  All sixteen classify; PUBREC, PUBREL, PUBCOMP and AUTH have
/// no body codec here.
#[derive(Copy, Clone, Debug, PartialEq, Eq, Structural)]
pub enum PacketType {
    RESERVED,
    CONNECT,
    CONNACK,
    PUBLISH,
    PUBACK,
    PUBREC,
    PUBREL,
    PUBCOMP,
    SUBSCRIBE,
    SUBACK,
    UNSUBSCRIBE,
    UNSUBACK,
    PINGREQ,
    PINGRESP,
    DISCONNECT,
    AUTH,
}

/// The wire code of each packet type.
pub open spec fn packet_type_code(t: PacketType) -> u8 {
    match t {
        PacketType::RESERVED => 0,
        PacketType::CONNECT => 1,
        PacketType::CONNACK => 2,
        PacketType::PUBLISH => 3,
        PacketType::PUBACK => 4,
        PacketType::PUBREC => 5,
        PacketType::PUBREL => 6,
        PacketType::PUBCOMP => 7,
        PacketType::SUBSCRIBE => 8,
        PacketType::SUBACK => 9,
        PacketType::UNSUBSCRIBE => 10,
        PacketType::UNSUBACK => 11,
        PacketType::PINGREQ => 12,
        PacketType::PINGRESP => 13,
        PacketType::DISCONNECT => 14,
        PacketType::AUTH => 15,
    }
}

/// The packet type a wire code up to 15 stands for.
pub open spec fn packet_type_of_code(n: u8) -> PacketType {
    if n == 0 {
        PacketType::RESERVED
    } else if n == 1 {
        PacketType::CONNECT
    } else if n == 2 {
        PacketType::CONNACK
    } else if n == 3 {
        PacketType::PUBLISH
    } else if n == 4 {
        PacketType::PUBACK
    } else if n == 5 {
        PacketType::PUBREC
    } else if n == 6 {
        PacketType::PUBREL
    } else if n == 7 {
        PacketType::PUBCOMP
    } else if n == 8 {
        PacketType::SUBSCRIBE
    } else if n == 9 {
        PacketType::SUBACK
    } else if n == 10 {
        PacketType::UNSUBSCRIBE
    } else if n == 11 {
        PacketType::UNSUBACK
    } else if n == 12 {
        PacketType::PINGREQ
    } else if n == 13 {
        PacketType::PINGRESP
    } else if n == 14 {
        PacketType::DISCONNECT
    } else {
        PacketType::AUTH
    }
}

impl PacketType {
    /// The wire code of this packet type.
    pub fn to_byte(&self) -> (r: u8)
        ensures
            r == packet_type_code(*self),
            r <= 15,
    {
        match self {
            PacketType::RESERVED => 0,
            PacketType::CONNECT => 1,
            PacketType::CONNACK => 2,
            PacketType::PUBLISH => 3,
            PacketType::PUBACK => 4,
            PacketType::PUBREC => 5,
            PacketType::PUBREL => 6,
            PacketType::PUBCOMP => 7,
            PacketType::SUBSCRIBE => 8,
            PacketType::SUBACK => 9,
            PacketType::UNSUBSCRIBE => 10,
            PacketType::UNSUBACK => 11,
            PacketType::PINGREQ => 12,
            PacketType::PINGRESP => 13,
            PacketType::DISCONNECT => 14,
            PacketType::AUTH => 15,
        }
    }

    /// The packet type of a wire code; codes above 15 never reach this, as
    /// they do not fit a nibble.
    pub fn from_nibble(n: u8) -> (r: PacketType)
        requires
            n <= 15,
        ensures
            r == packet_type_of_code(n),
            packet_type_code(r) == n,
    {
        match n {
            0 => PacketType::RESERVED,
            1 => PacketType::CONNECT,
            2 => PacketType::CONNACK,
            3 => PacketType::PUBLISH,
            4 => PacketType::PUBACK,
            5 => PacketType::PUBREC,
            6 => PacketType::PUBREL,
            7 => PacketType::PUBCOMP,
            8 => PacketType::SUBSCRIBE,
            9 => PacketType::SUBACK,
            10 => PacketType::UNSUBSCRIBE,
            11 => PacketType::UNSUBACK,
            12 => PacketType::PINGREQ,
            13 => PacketType::PINGRESP,
            14 => PacketType::DISCONNECT,
            _ => PacketType::AUTH,
        }
    }

    /// The conventional name of this packet type.
    pub fn name(&self) -> (r: &'static str)
        ensures
            r@ == packet_type_name(*self),
    {
        match self {
            PacketType::RESERVED => "RESERVED",
            PacketType::CONNECT => "CONNECT",
            PacketType::CONNACK => "CONNACK",
            PacketType::PUBLISH => "PUBLISH",
            PacketType::PUBACK => "PUBACK",
            PacketType::PUBREC => "PUBREC",
            PacketType::PUBREL => "PUBREL",
            PacketType::PUBCOMP => "PUBCOMP",
            PacketType::SUBSCRIBE => "SUBSCRIBE",
            PacketType::SUBACK => "SUBACK",
            PacketType::UNSUBSCRIBE => "UNSUBSCRIBE",
            PacketType::UNSUBACK => "UNSUBACK",
            PacketType::PINGREQ => "PINGREQ",
            PacketType::PINGRESP => "PINGRESP",
            PacketType::DISCONNECT => "DISCONNECT",
            PacketType::AUTH => "AUTH",
        }
    }
}

/// The conventional name of each packet type.
pub open spec fn packet_type_name(t: PacketType) -> Seq<char> {
    match t {
        PacketType::RESERVED => "RESERVED"@,
        PacketType::CONNECT => "CONNECT"@,
        PacketType::CONNACK => "CONNACK"@,
        PacketType::PUBLISH => "PUBLISH"@,
        PacketType::PUBACK => "PUBACK"@,
        PacketType::PUBREC => "PUBREC"@,
        PacketType::PUBREL => "PUBREL"@,
        PacketType::PUBCOMP => "PUBCOMP"@,
        PacketType::SUBSCRIBE => "SUBSCRIBE"@,
        PacketType::SUBACK => "SUBACK"@,
        PacketType::UNSUBSCRIBE => "UNSUBSCRIBE"@,
        PacketType::UNSUBACK => "UNSUBACK"@,
        PacketType::PINGREQ => "PINGREQ"@,
        PacketType::PINGRESP => "PINGRESP"@,
        PacketType::DISCONNECT => "DISCONNECT"@,
        PacketType::AUTH => "AUTH"@,
    }
}

/// One decoded packet of any supported kind.
#[derive(Clone, Debug, PartialEq)]
pub enum DecodedPacket {
    Connect(ConnectPacket),
    Connack(ConnackPacket),
    Publish(PublishPacket),
    Puback(PubackPacket),
    Subscribe(SubscribePacket),
    Suback(SubackPacket),
    Unsubscribe(UnsubscribePacket),
    Unsuback(UnsubackPacket),
    PingReq(PingReqPacket),
    PingResp(PingRespPacket),
    Disconnect(DisconnectPacket),
}

/// The mathematical shape of a decoded packet.
pub enum DecodedPacketV {
    Connect(ConnectPacketV),
    Connack(ConnackPacketV),
    Publish(PublishPacketV),
    Puback(PubackPacketV),
    Subscribe(SubscribePacketV),
    Suback(SubackPacketV),
    Unsubscribe(UnsubscribePacketV),
    Unsuback(UnsubackPacketV),
    PingReq,
    PingResp,
    Disconnect(DisconnectPacketV),
}

impl View for DecodedPacket {
    type V = DecodedPacketV;

    open spec fn view(&self) -> DecodedPacketV {
        match self {
            DecodedPacket::Connect(p) => DecodedPacketV::Connect(p@),
            DecodedPacket::Connack(p) => DecodedPacketV::Connack(p@),
            DecodedPacket::Publish(p) => DecodedPacketV::Publish(p@),
            DecodedPacket::Puback(p) => DecodedPacketV::Puback(p@),
            DecodedPacket::Subscribe(p) => DecodedPacketV::Subscribe(p@),
            DecodedPacket::Suback(p) => DecodedPacketV::Suback(p@),
            DecodedPacket::Unsubscribe(p) => DecodedPacketV::Unsubscribe(p@),
            DecodedPacket::Unsuback(p) => DecodedPacketV::Unsuback(p@),
            DecodedPacket::PingReq(_) => DecodedPacketV::PingReq,
            DecodedPacket::PingResp(_) => DecodedPacketV::PingResp,
            DecodedPacket::Disconnect(p) => DecodedPacketV::Disconnect(p@),
        }
    }
}

/// The wire type that each packet kind travels under.
pub open spec fn packet_type_of(p: DecodedPacketV) -> PacketType {
    match p {
        DecodedPacketV::Connect(_) => PacketType::CONNECT,
        DecodedPacketV::Connack(_) => PacketType::CONNACK,
        DecodedPacketV::Publish(_) => PacketType::PUBLISH,
        DecodedPacketV::Puback(_) => PacketType::PUBACK,
        DecodedPacketV::Subscribe(_) => PacketType::SUBSCRIBE,
        DecodedPacketV::Suback(_) => PacketType::SUBACK,
        DecodedPacketV::Unsubscribe(_) => PacketType::UNSUBSCRIBE,
        DecodedPacketV::Unsuback(_) => PacketType::UNSUBACK,
        DecodedPacketV::PingReq => PacketType::PINGREQ,
        DecodedPacketV::PingResp => PacketType::PINGRESP,
        DecodedPacketV::Disconnect(_) => PacketType::DISCONNECT,
    }
}

impl DecodedPacket {
    /// The wire type this packet travels under.
    pub fn get_type(&self) -> (r: PacketType)
        ensures
            r == packet_type_of(self@),
    {
        match self {
            DecodedPacket::Connect(_) => PacketType::CONNECT,
            DecodedPacket::Connack(_) => PacketType::CONNACK,
            DecodedPacket::Publish(_) => PacketType::PUBLISH,
            DecodedPacket::Puback(_) => PacketType::PUBACK,
            DecodedPacket::Subscribe(_) => PacketType::SUBSCRIBE,
            DecodedPacket::Suback(_) => PacketType::SUBACK,
            DecodedPacket::Unsubscribe(_) => PacketType::UNSUBSCRIBE,
            DecodedPacket::Unsuback(_) => PacketType::UNSUBACK,
            DecodedPacket::PingReq(_) => PacketType::PINGREQ,
            DecodedPacket::PingResp(_) => PacketType::PINGRESP,
            DecodedPacket::Disconnect(_) => PacketType::DISCONNECT,
        }
    }
}

/// The body bytes of a packet, fixed header not included.
pub open spec fn body_bytes(p: DecodedPacketV) -> Seq<u8> {
    match p {
        DecodedPacketV::Connect(b) => crate::connect::connect_bytes(b),
        DecodedPacketV::Connack(b) => crate::connack::connack_bytes(b),
        DecodedPacketV::Publish(b) => crate::publish::publish_bytes(b),
        DecodedPacketV::Puback(b) => crate::puback::puback_bytes(b),
        DecodedPacketV::Subscribe(b) => crate::subscribe::subscribe_bytes(b),
        DecodedPacketV::Suback(b) => crate::suback::suback_bytes(b),
        DecodedPacketV::Unsubscribe(b) => crate::unsubscribe::unsubscribe_bytes(b),
        DecodedPacketV::Unsuback(b) => crate::unsuback::unsuback_bytes(b),
        DecodedPacketV::PingReq => Seq::empty(),
        DecodedPacketV::PingResp => Seq::empty(),
        DecodedPacketV::Disconnect(b) => crate::disconnect::disconnect_bytes(b),
    }
}

/// Why encoding a packet's body fails, if it does.
pub open spec fn packet_body_err(p: DecodedPacketV) -> Option<EncodeError> {
    match p {
        DecodedPacketV::Connect(b) => (match props_enc_err(b.properties) {
            Some(e) => Some(e),
            None => match b.will_config {
                Some(w) => props_enc_err(w.properties),
                None => None,
            },
        }),
        DecodedPacketV::Connack(b) => props_enc_err(b.properties),
        DecodedPacketV::Publish(b) => props_enc_err(b.properties),
        DecodedPacketV::Puback(b) => (if b.properties.len() == 0 {
            None
        } else {
            props_enc_err(b.properties)
        }),
        DecodedPacketV::Subscribe(b) => props_enc_err(b.properties),
        DecodedPacketV::Suback(b) => props_enc_err(b.properties),
        DecodedPacketV::Unsubscribe(b) => props_enc_err(b.properties),
        DecodedPacketV::Unsuback(b) => props_enc_err(b.properties),
        DecodedPacketV::PingReq => None,
        DecodedPacketV::PingResp => None,
        DecodedPacketV::Disconnect(b) => props_enc_err(b.properties),
    }
}

/// What encoding a packet demands of its bit-packed fields: each 2-bit
/// quality-of-service or retain-handling field must hold a 2-bit value.
pub open spec fn packet_enc_req(p: DecodedPacketV) -> bool {
    match p {
        DecodedPacketV::Connect(b) => (match b.will_config {
            Some(w) => w.qos <= 3,
            None => true,
        }),
        DecodedPacketV::Publish(b) => b.config.qos <= 3,
        DecodedPacketV::Subscribe(b) => forall|i: int|
            0 <= i < b.subscriptions.len() ==> {
                &&& (#[trigger] b.subscriptions[i]).retain_handling <= 3
                &&& b.subscriptions[i].qos <= 3
            },
        _ => true,
    }
}

impl DecodedPacket {
    /// Appends this packet's body bytes, dispatching on its kind.
    pub fn encode(&self, buffer: &mut BytesMut) -> (r: Result<(), EncodeError>)
        requires
            packet_enc_req(self@),
        ensures
            match packet_body_err(self@) {
                Some(e) => r == Err::<(), EncodeError>(e),
                None => r == Ok::<(), EncodeError>(()) && bytes_view(*final(buffer)) == bytes_view(
                    *old(buffer),
                ) + body_bytes(self@),
            },
    {
        match self {
            DecodedPacket::Connect(item) => item.encode(buffer),
            DecodedPacket::Connack(item) => item.encode(buffer),
            DecodedPacket::Publish(item) => item.encode(buffer),
            DecodedPacket::Puback(item) => item.encode(buffer),
            DecodedPacket::Subscribe(item) => {
                proof {
                    assert forall|i: int| 0 <= i < item.subscriptions@.len() implies {
                        &&& (#[trigger] item.subscriptions@[i]).retain_handling <= 3
                        &&& item.subscriptions@[i].qos <= 3
                    } by {
                        assert(self@->Subscribe_0.subscriptions[i] == item.subscriptions@[i]@);
                    }
                }
                item.encode(buffer)
            },
            DecodedPacket::Suback(item) => item.encode(buffer),
            DecodedPacket::Unsubscribe(item) => item.encode(buffer),
            DecodedPacket::Unsuback(item) => item.encode(buffer),
            DecodedPacket::PingReq(item) => item.encode(buffer),
            DecodedPacket::PingResp(item) => item.encode(buffer),
            DecodedPacket::Disconnect(item) => item.encode(buffer),
        }
    }
}

} // verus!
