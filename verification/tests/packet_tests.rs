use bytes::{Buf, BytesMut};

use mqtt5_codec::connack::ConnackPacket;
use mqtt5_codec::connect::{ConnectPacket, WillConfig};
use mqtt5_codec::disconnect::DisconnectPacket;
use mqtt5_codec::pingreq::PingReqPacket;
use mqtt5_codec::pingresp::PingRespPacket;
use mqtt5_codec::property::Property;
use mqtt5_codec::puback::PubackPacket;
use mqtt5_codec::publish::{PublishConfig, PublishPacket};
use mqtt5_codec::reason_code::ReasonCode;
use mqtt5_codec::suback::SubackPacket;
use mqtt5_codec::subscribe::{SubscribePacket, SubscriptionConfig};
use mqtt5_codec::types::DecodedPacket;
use mqtt5_codec::unsubscribe::UnsubscribePacket;

#[test]
fn connack_codec_test() {
    let packet = ConnackPacket {
        session_present: true,
        reason_code: ReasonCode::Success,
        properties: vec![],
    };

    let packet2 = packet.clone();
    let mut buffer = BytesMut::new();
    packet.encode(&mut buffer).unwrap();

    let packet = ConnackPacket::decode(&mut buffer).unwrap();

    assert_eq!(DecodedPacket::Connack(packet2), packet);
}

#[test]
fn connect_codec_test() {
    let packet = ConnectPacket {
        client_id: "test".to_owned(),
        clean_start: true,
        will_config: Some(WillConfig {
            topic: "topic".to_owned(),
            payload: "payload".to_owned(),
            retain: false,
            qos: 1,
            properties: vec![],
        }),
        keep_alive: 20,
        username: Some("username".to_owned()),
        password: Some("password".to_owned()),
        properties: vec![],
    };

    let packet2 = packet.clone();
    let mut buffer = BytesMut::new();
    packet.encode(&mut buffer).unwrap();

    let packet = ConnectPacket::decode(&mut buffer).unwrap();

    assert_eq!(DecodedPacket::Connect(packet2), packet);
}

#[test]
fn disconnect_codec_test() {
    let packet = DisconnectPacket { reason_code: ReasonCode::Success, properties: vec![] };

    let packet2 = packet.clone();
    let mut buffer = BytesMut::new();
    packet.encode(&mut buffer).unwrap();

    let packet = DisconnectPacket::decode(&mut buffer).unwrap();

    assert_eq!(DecodedPacket::Disconnect(packet2), packet);
}

#[test]
fn pingreq_codec_test() {
    let packet = PingReqPacket {};

    let packet2 = packet.clone();
    let mut buffer = BytesMut::new();
    packet.encode(&mut buffer).unwrap();

    let packet = PingReqPacket::decode(&mut buffer).unwrap();

    assert_eq!(DecodedPacket::PingReq(packet2), packet);
}

#[test]
fn pingresp_codec_test() {
    let packet = PingRespPacket {};

    let packet2 = packet.clone();
    let mut buffer = BytesMut::new();
    packet.encode(&mut buffer).unwrap();

    let packet = PingRespPacket::decode(&mut buffer).unwrap();

    assert_eq!(DecodedPacket::PingResp(packet2), packet);
}

#[test]
fn puback_codec_test() {
    let packet = PubackPacket {
        packet_id: 35,
        reason_code: ReasonCode::Success,
        properties: vec![],
    };

    let packet2 = packet.clone();
    let mut buffer = BytesMut::new();
    packet.encode(&mut buffer).unwrap();

    let remaining_length = buffer.remaining();
    let packet = PubackPacket::decode(&mut buffer, remaining_length).unwrap();

    assert_eq!(DecodedPacket::Puback(packet2), packet);
}

#[test]
fn publish_codec_test() {
    let publish_config = PublishConfig { dup: false, qos: 1, retain: true };

    let packet = PublishPacket {
        topic: "test".to_owned(),
        packet_id: Some(1234),
        payload: "hello".to_owned(),
        config: publish_config.clone(),
        properties: vec![],
    };

    let packet2 = packet.clone();
    let mut buffer = BytesMut::new();
    packet.encode(&mut buffer).unwrap();

    let remaining_length = buffer.remaining();
    let packet = PublishPacket::decode(&mut buffer, publish_config, remaining_length).unwrap();

    assert_eq!(DecodedPacket::Publish(packet2), packet);
}

#[test]
fn suback_codec_test() {
    let packet = SubackPacket {
        packet_id: 32,
        reason_codes: vec![ReasonCode::Success],
        properties: vec![],
    };

    let packet2 = packet.clone();
    let mut buffer = BytesMut::new();
    packet.encode(&mut buffer).unwrap();

    let remaining_length = buffer.remaining();
    let packet = SubackPacket::decode(&mut buffer, remaining_length).unwrap();

    assert_eq!(DecodedPacket::Suback(packet2), packet);
}

#[test]
fn subscribe_codec_test() {
    let subscription = SubscriptionConfig {
        topic: "test".to_owned(),
        retain_handling: 1,
        rap: false,
        nl: false,
        qos: 1,
    };

    let packet = SubscribePacket {
        packet_id: 32,
        subscriptions: vec![subscription],
        properties: vec![],
    };

    let packet2 = packet.clone();
    let mut buffer = BytesMut::new();
    packet.encode(&mut buffer).unwrap();

    let remaining_length = buffer.remaining();
    let packet = SubscribePacket::decode(&mut buffer, remaining_length).unwrap();

    assert_eq!(DecodedPacket::Subscribe(packet2), packet);
}

#[test]
fn unsubscribe_codec_test() {
    let packet = UnsubscribePacket {
        packet_id: 32,
        topics: vec!["test".to_owned(), "test1".to_owned()],
        properties: vec![],
    };

    let packet2 = packet.clone();
    let mut buffer = BytesMut::new();
    packet.encode(&mut buffer).unwrap();

    let remaining_length = buffer.remaining();
    let packet = UnsubscribePacket::decode(&mut buffer, remaining_length).unwrap();

    assert_eq!(DecodedPacket::Unsubscribe(packet2), packet);
}

#[test]
fn unsuback_codec_test() {
    let packet = mqtt5_codec::unsuback::UnsubackPacket {
        packet_id: 9,
        reason_codes: vec![ReasonCode::Success, ReasonCode::NoSubscriptionExisted],
        properties: vec![],
    };

    let packet2 = packet.clone();
    let mut buffer = BytesMut::new();
    packet.encode(&mut buffer).unwrap();

    let remaining_length = buffer.remaining();
    let packet = mqtt5_codec::unsuback::UnsubackPacket::decode(&mut buffer, remaining_length)
        .unwrap();

    assert_eq!(DecodedPacket::Unsuback(packet2), packet);
}

#[test]
fn connack_bad_flags_byte_test() {
    // any acknowledgement flags byte other than 0x00 or 0x80 must fail
    let mut buffer = BytesMut::from(&[0x01u8, 0x00, 0x00][..]);
    let result = ConnackPacket::decode(&mut buffer);
    assert!(matches!(result, Err(mqtt5_codec::error::DecodeError::FormatError)));
}

#[test]
fn suback_unknown_reason_code_test() {
    // packet id, empty properties, then a byte that names no reason code
    let mut buffer = BytesMut::from(&[0x00u8, 0x20, 0x00, 0x55][..]);
    let result = SubackPacket::decode(&mut buffer, 4);
    assert!(matches!(result, Err(mqtt5_codec::error::DecodeError::FormatError)));
}

#[test]
fn puback_with_properties_round_trip_test() {
    let packet = PubackPacket {
        packet_id: 7,
        reason_code: ReasonCode::NoMatchingSubscribers,
        properties: vec![Property::ReasonString("ok".to_owned())],
    };

    let packet2 = packet.clone();
    let mut buffer = BytesMut::new();
    packet.encode(&mut buffer).unwrap();

    let remaining_length = buffer.remaining();
    let packet = PubackPacket::decode(&mut buffer, remaining_length).unwrap();

    assert_eq!(DecodedPacket::Puback(packet2), packet);
}

#[test]
fn connect_bad_protocol_test() {
    // a framed name other than MQTT is not supported
    let mut buffer = BytesMut::from(&[0x00u8, 0x04, b'M', b'Q', b'T', b'X', 0x05][..]);
    let result = ConnectPacket::decode(&mut buffer);
    assert!(matches!(
        result,
        Err(mqtt5_codec::error::DecodeError::ProtocolNotSupportedError)
    ));
}
