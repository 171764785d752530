use bytes::BytesMut;

use mqtt5_codec::header::{decode_fixed_header, encode_fixed_header};
use mqtt5_codec::publish::PublishConfig;
use mqtt5_codec::types::PacketType;

const ENCODE_PAYLOAD: [u8; 2] = [0x01, 0x02];

#[test]
fn encode_fixed_header_general_test() {
    let payload = BytesMut::from(&ENCODE_PAYLOAD[..]);
    for packet_type in [
        PacketType::RESERVED,
        PacketType::CONNECT,
        PacketType::CONNACK,
        PacketType::PUBACK,
        PacketType::PUBREC,
        PacketType::PUBCOMP,
        PacketType::SUBACK,
        PacketType::UNSUBACK,
        PacketType::PINGREQ,
        PacketType::PINGRESP,
        PacketType::DISCONNECT,
        PacketType::AUTH,
    ]
    .iter()
    {
        let mut buffer = BytesMut::new();
        encode_fixed_header(&mut buffer, *packet_type, &payload, None).unwrap();
        assert_eq!(&buffer[..], [packet_type.to_byte() << 4, 0x02]);
    }
}

#[test]
fn encode_fixed_header_special_flags_test() {
    let payload = BytesMut::from(&ENCODE_PAYLOAD[..]);
    for packet_type in [PacketType::PUBREL, PacketType::SUBSCRIBE, PacketType::UNSUBSCRIBE].iter()
    {
        let mut buffer = BytesMut::new();
        encode_fixed_header(&mut buffer, *packet_type, &payload, None).unwrap();
        assert_eq!(&buffer[..], [(packet_type.to_byte() << 4) + 0b0010, 0x02]);
    }
}

#[test]
fn encode_fixed_header_publish_test() {
    let payload = BytesMut::from(&ENCODE_PAYLOAD[..]);
    for i in 0..12 {
        let mut buffer = BytesMut::new();
        let config =
            PublishConfig { dup: (i % 2) != 0, qos: ((i / 2) % 3), retain: ((i / 6) % 2) != 0 };
        let first_byte =
            (3 << 4) + ((config.dup as u8) << 3) + (config.qos << 1) + (config.retain as u8);
        encode_fixed_header(&mut buffer, PacketType::PUBLISH, &payload, Some(config)).unwrap();
        assert_eq!(&buffer[..], [first_byte, 0x02]);
    }
}

#[test]
fn decode_fixed_header_general_test() {
    for expected_packet_type in [
        PacketType::RESERVED,
        PacketType::CONNECT,
        PacketType::CONNACK,
        PacketType::PUBACK,
        PacketType::PUBREC,
        PacketType::PUBCOMP,
        PacketType::SUBACK,
        PacketType::UNSUBACK,
        PacketType::PINGREQ,
        PacketType::PINGRESP,
        PacketType::DISCONNECT,
        PacketType::AUTH,
    ]
    .iter()
    {
        let mut buffer = BytesMut::from(&[expected_packet_type.to_byte() << 4, 0x02][..]);
        let (packet_type, publish_config, remaining_length) =
            decode_fixed_header(&mut buffer).unwrap();
        assert_eq!(packet_type, *expected_packet_type);
        assert_eq!(publish_config.is_none(), true);
        assert_eq!(remaining_length, 2);
    }
}

#[test]
fn decode_fixed_header_special_flags_test() {
    for expected_packet_type in [PacketType::PUBREL, PacketType::SUBSCRIBE, PacketType::UNSUBSCRIBE]
        .iter()
    {
        let mut buffer =
            BytesMut::from(&[(expected_packet_type.to_byte() << 4) + 0b0010, 0x02][..]);
        let (packet_type, publish_config, remaining_length) =
            decode_fixed_header(&mut buffer).unwrap();
        assert_eq!(packet_type, *expected_packet_type);
        assert_eq!(publish_config.is_none(), true);
        assert_eq!(remaining_length, 2);
    }
}

#[test]
fn decode_fixed_header_publish_test() {
    for i in 0..12 {
        let config =
            PublishConfig { dup: (i % 2) != 0, qos: ((i / 2) % 3), retain: ((i / 6) % 2) != 0 };
        let first_byte =
            (3 << 4) + ((config.dup as u8) << 3) + (config.qos << 1) + (config.retain as u8);

        let mut buffer = BytesMut::from(&[first_byte, 0x02][..]);
        let (packet_type, publish_config, remaining_length) =
            decode_fixed_header(&mut buffer).unwrap();
        assert_eq!(packet_type, PacketType::PUBLISH);
        assert_eq!(publish_config, Some(config));
        assert_eq!(remaining_length, 2);
    }
}

#[test]
fn decode_fixed_header_reserved_flags_violation_test() {
    // PUBREL, SUBSCRIBE and UNSUBSCRIBE demand the flag nibble 0b0010
    for expected_packet_type in [PacketType::PUBREL, PacketType::SUBSCRIBE, PacketType::UNSUBSCRIBE]
        .iter()
    {
        for flags in [0b0000u8, 0b0001, 0b0011, 0b1111].iter() {
            let mut buffer =
                BytesMut::from(&[(expected_packet_type.to_byte() << 4) + flags, 0x02][..]);
            let result = decode_fixed_header(&mut buffer);
            assert!(matches!(result, Err(mqtt5_codec::error::DecodeError::FormatError)));
        }
    }
}
