use bytes::{Buf, BytesMut};

use mqtt5_codec::error::{DecodeError, EncodeError};

const TEST_BYTES: [u8; 7] = [0x00, 0x05, 0x41, 0xF0, 0xAA, 0x9B, 0x94];
const TEST_STRING: &str = "A𪛔";

#[test]
fn decode_utf8_test() {
    let mut buffer = BytesMut::from(&TEST_BYTES[..]);
    assert_eq!(mqtt5_codec::utils::decode_utf8(&mut buffer).unwrap(), TEST_STRING);
}

#[test]
fn decode_utf8_with_length_test() {
    let mut buffer = BytesMut::from(&TEST_BYTES[2..]);
    assert_eq!(
        mqtt5_codec::utils::decode_utf8_with_length(&mut buffer, 5).unwrap(),
        TEST_STRING
    );
}

#[test]
fn encode_utf8_test() {
    let mut buffer = BytesMut::new();
    mqtt5_codec::utils::encode_utf8(&mut buffer, TEST_STRING);
    assert_eq!(&buffer[..], TEST_BYTES);
}

#[test]
fn get_remaining_length_test() {
    let mut buffer = BytesMut::from(&TEST_BYTES[..]);
    let starting_length = buffer.remaining();
    buffer.get_u16();
    assert_eq!(mqtt5_codec::utils::get_remaining_length(&buffer, starting_length, 3), 1);
}

#[test]
fn decode_utf8_invalid_bytes_test() {
    // a length prefix of two, then a lone continuation byte
    let mut buffer = BytesMut::from(&[0x00u8, 0x02, 0xFF, 0xFF][..]);
    let result = mqtt5_codec::utils::decode_utf8(&mut buffer);
    assert!(matches!(result, Err(DecodeError::Utf8Error)));
}

fn decode_util(slice: &[u8]) -> Result<u64, DecodeError> {
    let mut buffer = BytesMut::from(slice);
    let value = mqtt5_codec::variable_integer::decode(&mut buffer)?;
    Ok(value)
}

#[test]
fn decode_value() {
    assert_eq!(decode_util(&[0x00]).unwrap(), 0);
    assert_eq!(decode_util(&[0x7F]).unwrap(), 127);
    assert_eq!(decode_util(&[0x80, 0x01]).unwrap(), 128);
    assert_eq!(decode_util(&[0xFF, 0x7F]).unwrap(), 16383);
    assert_eq!(decode_util(&[0x80, 0x80, 0x01]).unwrap(), 16384);
    assert_eq!(decode_util(&[0xFF, 0xFF, 0x7F]).unwrap(), 2097151);
    assert_eq!(decode_util(&[0x80, 0x80, 0x80, 0x01]).unwrap(), 2097152);
    assert_eq!(decode_util(&[0xFF, 0xFF, 0xFF, 0x7F]).unwrap(), 268435455);
}

#[test]
#[should_panic]
fn decode_err() {
    decode_util(&[0x80, 0x80, 0x80, 0x80, 0x01]).unwrap();
}

fn encode_util(value: u64) -> Result<BytesMut, EncodeError> {
    let mut buffer = BytesMut::new();
    mqtt5_codec::variable_integer::encode(&mut buffer, value)?;
    Ok(buffer)
}

#[test]
fn encode_value() {
    assert_eq!(&encode_util(0).unwrap()[..], [0]);
    assert_eq!(&encode_util(127).unwrap()[..], &[0x7F]);
    assert_eq!(&encode_util(128).unwrap()[..], &[0x80, 0x01]);
    assert_eq!(&encode_util(16383).unwrap()[..], &[0xFF, 0x7F]);
    assert_eq!(&encode_util(16384).unwrap()[..], &[0x80, 0x80, 0x01]);
    assert_eq!(&encode_util(2097151).unwrap()[..], &[0xFF, 0xFF, 0x7F]);
    assert_eq!(&encode_util(2097152).unwrap()[..], &[0x80, 0x80, 0x80, 0x01]);
    assert_eq!(&encode_util(268435455).unwrap()[..], &[0xFF, 0xFF, 0xFF, 0x7F]);
}

#[test]
#[should_panic]
fn encode_err() {
    encode_util(268435456).unwrap();
}
