use miniredis::resp::{RespDataType, RespDecoder, RespDecoderError, RespEncoder};
use miniredis::session::ConnectionBuffer;

fn bulk(s: &[u8]) -> RespDataType {
    RespDataType::BulkString(s.to_vec())
}

fn simple(s: &[u8]) -> RespDataType {
    RespDataType::SimpleString(s.to_vec())
}

#[test]
fn encode_ping_request() {
    let frame = RespDataType::Array(vec![bulk(b"PING")]);
    assert_eq!(RespEncoder::encode(frame), b"*1\r\n$4\r\nPING\r\n".to_vec());
}

#[test]
fn encode_simple_string() {
    assert_eq!(RespEncoder::encode(simple(b"PONG")), b"+PONG\r\n".to_vec());
}

#[test]
fn encode_error_string() {
    let frame = RespDataType::ErrorString(b"ERR oops".to_vec());
    assert_eq!(RespEncoder::encode(frame), b"-ERR oops\r\n".to_vec());
}

#[test]
fn encode_empty_bulk_string() {
    assert_eq!(RespEncoder::encode(bulk(b"")), b"$0\r\n\r\n".to_vec());
}

#[test]
fn encode_empty_array() {
    assert_eq!(
        RespEncoder::encode(RespDataType::Array(Vec::new())),
        b"*0\r\n".to_vec()
    );
}

#[test]
fn encode_null_bulk_string() {
    assert_eq!(
        RespEncoder::encode(RespDataType::NullBulkString),
        b"$-1\r\n".to_vec()
    );
}

#[test]
fn decode_simple_string() {
    let data = b"+OK\r\n".to_vec();
    let (frame, used) = RespDecoder::decode(&data).unwrap();
    assert_eq!(frame, simple(b"OK"));
    assert_eq!(used, 5);
}

#[test]
fn decode_bulk_string_with_embedded_delimiters() {
    let data = b"$7\r\nab\r\ncd\r\r\n".to_vec();
    let (frame, used) = RespDecoder::decode(&data).unwrap();
    assert_eq!(frame, bulk(b"ab\r\ncd\r"));
    assert_eq!(used, data.len());
}

#[test]
fn decode_nested_array_round_trip() {
    let frame = RespDataType::Array(vec![
        bulk(b"SET"),
        RespDataType::Array(vec![simple(b"x"), RespDataType::NullBulkString]),
        bulk(b""),
    ]);
    let encoded = RespEncoder::encode(frame);
    let expected = RespDataType::Array(vec![
        bulk(b"SET"),
        RespDataType::Array(vec![simple(b"x"), RespDataType::NullBulkString]),
        bulk(b""),
    ]);
    let (decoded, used) = RespDecoder::decode(&encoded).unwrap();
    assert_eq!(decoded, expected);
    assert_eq!(used, encoded.len());
}

#[test]
fn decode_incomplete_frame_asks_for_more() {
    let data = b"$5\r\nhel".to_vec();
    assert_eq!(
        RespDecoder::decode(&data),
        Err(RespDecoderError::Incomplete)
    );
    let data = b"+PON".to_vec();
    assert_eq!(
        RespDecoder::decode(&data),
        Err(RespDecoderError::Incomplete)
    );
    let data = Vec::new();
    assert_eq!(
        RespDecoder::decode(&data),
        Err(RespDecoderError::Incomplete)
    );
}

#[test]
fn decode_unknown_tag_is_invalid() {
    let data = b"?3\r\n".to_vec();
    assert_eq!(
        RespDecoder::decode(&data),
        Err(RespDecoderError::InvalidRespDataType)
    );
}

#[test]
fn decode_negative_counts_other_than_minus_one_rejected() {
    let data = b"$-2\r\n".to_vec();
    assert_eq!(
        RespDecoder::decode(&data),
        Err(RespDecoderError::InvalidRespDataType)
    );
    let data = b"*-1\r\n".to_vec();
    assert_eq!(
        RespDecoder::decode(&data),
        Err(RespDecoderError::InvalidRespDataType)
    );
}

#[test]
fn decode_bad_length_text_is_invalid() {
    let data = b"$5x\r\nhello\r\n".to_vec();
    assert_eq!(
        RespDecoder::decode(&data),
        Err(RespDecoderError::InvalidRespDataType)
    );
}

#[test]
fn decode_bulk_missing_trailer_is_invalid() {
    let data = b"$3\r\nabcXY".to_vec();
    assert_eq!(
        RespDecoder::decode(&data),
        Err(RespDecoderError::InvalidRespDataType)
    );
}

#[test]
fn pipelined_frames_decode_in_order() {
    let mut buffer = ConnectionBuffer::new();
    let mut pipelined = b"*1\r\n$4\r\nPING\r\n".to_vec();
    pipelined.extend_from_slice(b"*2\r\n$4\r\nECHO\r\n$5\r\nhello\r\n");
    buffer.feed(&pipelined);
    let first = buffer.try_next().unwrap().unwrap();
    assert_eq!(first, RespDataType::Array(vec![bulk(b"PING")]));
    let second = buffer.try_next().unwrap().unwrap();
    assert_eq!(
        second,
        RespDataType::Array(vec![bulk(b"ECHO"), bulk(b"hello")])
    );
    assert_eq!(buffer.try_next(), Ok(None));
}

#[test]
fn buffer_keeps_partial_second_frame() {
    let mut buffer = ConnectionBuffer::new();
    buffer.feed(&b"+PONG\r\n$3\r\nab".to_vec());
    assert_eq!(buffer.try_next(), Ok(Some(simple(b"PONG"))));
    assert_eq!(buffer.try_next(), Ok(None));
    buffer.feed(&b"c\r\n".to_vec());
    assert_eq!(buffer.try_next(), Ok(Some(bulk(b"abc"))));
}
