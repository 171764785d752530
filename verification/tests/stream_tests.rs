use bytes::{Buf, BytesMut};

use mqtt5_codec::codec::MQTTCodec;
use mqtt5_codec::disconnect::DisconnectPacket;
use mqtt5_codec::error::DecodeError;
use mqtt5_codec::property::Property;
use mqtt5_codec::publish::{PublishConfig, PublishPacket};
use mqtt5_codec::reason_code::ReasonCode;
use mqtt5_codec::subscribe::{SubscribePacket, SubscriptionConfig};
use mqtt5_codec::types::DecodedPacket;

fn round_trip(packet: DecodedPacket) {
    let mut codec = MQTTCodec {};
    let mut buffer = BytesMut::new();
    codec.encode(packet.clone(), &mut buffer).unwrap();
    let decoded = codec.decode(&mut buffer).unwrap().unwrap();
    assert_eq!(packet, decoded);
    assert_eq!(buffer.remaining(), 0);
}

#[test]
fn stream_round_trip_publish_test() {
    round_trip(DecodedPacket::Publish(PublishPacket {
        topic: "a/b".to_owned(),
        packet_id: Some(77),
        payload: "payload".to_owned(),
        config: PublishConfig { dup: true, qos: 2, retain: false },
        properties: vec![
            Property::PayloadFormatIndicator(1),
            Property::MessageExpiryInterval(120),
            Property::UserProperty("k".to_owned(), "v".to_owned()),
        ],
    }));
}

#[test]
fn stream_round_trip_subscribe_test() {
    round_trip(DecodedPacket::Subscribe(SubscribePacket {
        packet_id: 11,
        subscriptions: vec![SubscriptionConfig {
            topic: "x/+".to_owned(),
            retain_handling: 2,
            rap: true,
            nl: true,
            qos: 1,
        }],
        properties: vec![Property::SubscriptionIdentifier(42)],
    }));
}

#[test]
fn stream_round_trip_disconnect_test() {
    round_trip(DecodedPacket::Disconnect(DisconnectPacket {
        reason_code: ReasonCode::NotAuthorized,
        properties: vec![Property::ReasonString("bye".to_owned())],
    }));
}

#[test]
fn stream_incomplete_leaves_buffer_test() {
    // one byte short of a whole frame: no packet, and not a byte consumed
    let mut codec = MQTTCodec {};
    let mut buffer = BytesMut::new();
    codec
        .encode(
            DecodedPacket::Publish(PublishPacket {
                topic: "t".to_owned(),
                packet_id: None,
                payload: "hi".to_owned(),
                config: PublishConfig { dup: false, qos: 0, retain: false },
                properties: vec![],
            }),
            &mut buffer,
        )
        .unwrap();
    let full = buffer.clone();
    let mut short = BytesMut::from(&full[..full.len() - 1]);
    let before: Vec<u8> = short[..].to_vec();
    let result = codec.decode(&mut short).unwrap();
    assert!(result.is_none());
    assert_eq!(&short[..], &before[..]);
}

#[test]
fn stream_empty_and_tiny_buffer_test() {
    let mut codec = MQTTCodec {};
    let mut empty = BytesMut::new();
    assert!(codec.decode(&mut empty).unwrap().is_none());
    let mut one = BytesMut::from(&[0x30u8][..]);
    assert!(codec.decode(&mut one).unwrap().is_none());
    assert_eq!(&one[..], &[0x30u8][..]);
}

#[test]
fn stream_unimplemented_type_test() {
    // PUBREL classifies but has no body codec: a terminal format error
    let mut codec = MQTTCodec {};
    let mut buffer = BytesMut::from(&[0x62u8, 0x02, 0x00, 0x01][..]);
    let result = codec.decode(&mut buffer);
    assert!(matches!(result, Err(DecodeError::FormatError)));
}

#[test]
fn stream_reserved_flags_error_test() {
    // a SUBSCRIBE header whose flag nibble is not 0b0010 fails for good
    let mut codec = MQTTCodec {};
    let mut buffer = BytesMut::from(&[0x80u8, 0x02, 0x00, 0x01][..]);
    let result = codec.decode(&mut buffer);
    assert!(matches!(result, Err(DecodeError::FormatError)));
}

#[test]
fn stream_two_packets_in_sequence_test() {
    let mut codec = MQTTCodec {};
    let mut buffer = BytesMut::new();
    codec
        .encode(
            DecodedPacket::PingReq(mqtt5_codec::pingreq::PingReqPacket {}),
            &mut buffer,
        )
        .unwrap();
    codec
        .encode(
            DecodedPacket::PingResp(mqtt5_codec::pingresp::PingRespPacket {}),
            &mut buffer,
        )
        .unwrap();
    let first = codec.decode(&mut buffer).unwrap().unwrap();
    let second = codec.decode(&mut buffer).unwrap().unwrap();
    assert_eq!(first, DecodedPacket::PingReq(mqtt5_codec::pingreq::PingReqPacket {}));
    assert_eq!(second, DecodedPacket::PingResp(mqtt5_codec::pingresp::PingRespPacket {}));
    assert_eq!(buffer.remaining(), 0);
}
