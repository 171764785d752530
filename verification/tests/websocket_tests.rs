use bytes::{Buf, BufMut, BytesMut};

use mqtt5_codec::codec::MQTTCodec;
use mqtt5_codec::pingreq::PingReqPacket;
use mqtt5_codec::types::DecodedPacket;
use mqtt5_codec::websocket::message::WebsocketCodec;
use mqtt5_codec::websocket::upgrade::WebsocketUpgradeCodec;

#[test]
fn codec_upgrader() {
    let mut buffer = BytesMut::new();
    let request = "GET /chat HTTP/1.1\r\n\
      Host: server.example.com\r\n\
      Upgrade: websocket\r\n\
      Connection: Upgrade\r\n\
      Sec-WebSocket-Key: x3JJHMbDL1EzLkh9GBhXDw==\r\n\
      Sec-WebSocket-Protocol: mqtt\r\n\
      Sec-WebSocket-Version: 13\r\n\
      Origin: http://example.com\r\n\r\n";
    buffer.put_slice(request.as_bytes());

    let mut codec = WebsocketUpgradeCodec {};
    let websocket_key = codec.decode(&mut buffer).unwrap().unwrap();
    assert_eq!("HSmrc0sMlYUkAGmm5OPpG2HaGWk=", websocket_key);

    let mut buffer = BytesMut::new();
    codec.encode(websocket_key, &mut buffer).unwrap();

    let response = "HTTP/1.1 101 Switching Protocols\r\n\
      Upgrade: websocket\r\n\
      Connection: Upgrade\r\n\
      Sec-WebSocket-Protocol: mqtt\r\n\
      Sec-WebSocket-Accept: HSmrc0sMlYUkAGmm5OPpG2HaGWk=\r\n\r\n";

    assert_eq!(&buffer[..], response.as_bytes());
}

#[test]
fn upgrade_missing_header_test() {
    let mut buffer = BytesMut::new();
    let request = "GET /chat HTTP/1.1\r\n\
      Upgrade: websocket\r\n\
      Connection: Upgrade\r\n\
      Sec-WebSocket-Key: x3JJHMbDL1EzLkh9GBhXDw==\r\n\r\n";
    buffer.put_slice(request.as_bytes());
    let mut codec = WebsocketUpgradeCodec {};
    let result = codec.decode(&mut buffer);
    assert!(matches!(result, Err(mqtt5_codec::error::DecodeError::FormatError)));
}

fn masked_frame(fin: bool, key: [u8; 4], payload: &[u8]) -> BytesMut {
    let mut frame = BytesMut::new();
    frame.put_u8(if fin { 0x82 } else { 0x02 });
    assert!(payload.len() < 126);
    frame.put_u8(0x80 | (payload.len() as u8));
    frame.put_slice(&key);
    for (i, b) in payload.iter().enumerate() {
        frame.put_u8(b ^ key[i % 4]);
    }
    frame
}

#[test]
fn websocket_round_trip_test() {
    let mut ws = WebsocketCodec {};
    let mut buffer = BytesMut::new();
    let packet = DecodedPacket::Publish(mqtt5_codec::publish::PublishPacket {
        topic: "t".to_owned(),
        packet_id: None,
        payload: "hello".to_owned(),
        config: mqtt5_codec::publish::PublishConfig { dup: false, qos: 0, retain: false },
        properties: vec![],
    });
    ws.encode(packet.clone(), &mut buffer).unwrap();
    let decoded = ws.decode(&mut buffer).unwrap().unwrap();
    assert_eq!(packet, decoded);
    assert_eq!(buffer.remaining(), 0);
}

#[test]
fn websocket_fragmentation_equivalence_test() {
    // the same MQTT frame as one masked frame and as a FIN-clear/FIN-set pair
    let mut mqtt = MQTTCodec {};
    let mut inner = BytesMut::new();
    mqtt.encode(DecodedPacket::PingReq(PingReqPacket {}), &mut inner).unwrap();
    let payload: Vec<u8> = inner[..].to_vec();

    let mut ws = WebsocketCodec {};

    let mut single = masked_frame(true, [1, 2, 3, 4], &payload);
    let from_single = ws.decode(&mut single).unwrap().unwrap();

    let (a, b) = payload.split_at(1);
    let mut fragmented = masked_frame(false, [9, 8, 7, 6], a);
    fragmented.extend_from_slice(&masked_frame(true, [5, 5, 5, 5], b)[..]);
    let from_fragments = ws.decode(&mut fragmented).unwrap().unwrap();

    assert_eq!(from_single, DecodedPacket::PingReq(PingReqPacket {}));
    assert_eq!(from_single, from_fragments);
}

#[test]
fn websocket_incomplete_frame_test() {
    let mut ws = WebsocketCodec {};
    let mut buffer = masked_frame(true, [0, 0, 0, 0], &[0xC0, 0x00]);
    let full: Vec<u8> = buffer[..].to_vec();
    let mut short = BytesMut::from(&full[..full.len() - 1]);
    let result = ws.decode(&mut short).unwrap();
    assert!(result.is_none());
    assert_eq!(&short[..], &full[..full.len() - 1]);
    let decoded = ws.decode(&mut buffer).unwrap().unwrap();
    assert_eq!(decoded, DecodedPacket::PingReq(PingReqPacket {}));
}

#[test]
fn websocket_bad_opcode_test() {
    let mut ws = WebsocketCodec {};
    // a text-opcode frame is refused
    let mut buffer = BytesMut::from(&[0x81u8, 0x00][..]);
    let result = ws.decode(&mut buffer);
    assert!(matches!(result, Err(mqtt5_codec::error::DecodeError::FormatError)));
}
