use miniredis::rdb::{
    decode_size_at, decode_string_at, load_snapshot, RdbFileDecoder, RdbFileDecoderError,
    RdbSection, RdbValueType, Size,
};
use miniredis::resp::RespDecoder;
use miniredis::server::{ServerConfig, ServerInfo, ServerRole};
use miniredis::session::handle_frame;
use miniredis::store::Store;

/// A minimal snapshot image: header, one metadata entry, one database with
/// one key `k` bound to `v` and no expiration, the end marker and checksum.
fn sample_snapshot() -> Vec<u8> {
    let mut bytes = Vec::new();
    bytes.extend_from_slice(b"REDIS0011");
    bytes.push(0xFA);
    bytes.push(9);
    bytes.extend_from_slice(b"redis-ver");
    bytes.push(5);
    bytes.extend_from_slice(b"7.0.0");
    bytes.push(0xFE);
    bytes.push(0); // database index
    bytes.push(0xFB);
    bytes.push(1); // keys
    bytes.push(0); // keys with expiration
    bytes.push(0x00); // value type: plain string
    bytes.push(1);
    bytes.extend_from_slice(b"k");
    bytes.push(1);
    bytes.extend_from_slice(b"v");
    bytes.push(0xFF);
    bytes.extend_from_slice(&[1, 2, 3, 4, 5, 6, 7, 8]);
    bytes
}

#[test]
fn snapshot_load_then_get() {
    let mut store = Store::new();
    load_snapshot(&mut store, &sample_snapshot()).expect("snapshot must decode");
    let config = ServerConfig {
        dir: None,
        dbfilename: None,
        role: ServerRole::Master,
    };
    let info = ServerInfo {
        role: ServerRole::Master,
        id: b"id".to_vec(),
        offset: 0,
    };
    let data = b"*2\r\n$3\r\nGET\r\n$1\r\nk\r\n".to_vec();
    let (frame, _) = RespDecoder::decode(&data).unwrap();
    let reply = handle_frame(&frame, &mut store, &config, &info, 0).unwrap();
    assert_eq!(reply, b"$1\r\nv\r\n".to_vec());
}

#[test]
fn snapshot_decoder_reads_structure() {
    let decoder = RdbFileDecoder::new(sample_snapshot());
    let data = decoder.decode().expect("snapshot must decode");
    assert_eq!(data.header.magic_string, b"REDIS".to_vec());
    assert_eq!(data.header.version, b"0011".to_vec());
    let meta = data.metadata.expect("metadata present");
    assert_eq!(meta.redis_ver, Some(b"7.0.0".to_vec()));
    assert_eq!(meta.redis_bits, None);
    let dbs = data.databases.expect("database present");
    assert_eq!(dbs.databases.len(), 1);
    assert_eq!(dbs.databases[0].index, 0);
    assert_eq!(dbs.databases[0].number_of_keys, 1);
    assert_eq!(dbs.databases[0].number_of_expired_keys, 0);
    let entry = dbs.databases[0].data.get(&b"k".to_vec()).unwrap();
    assert_eq!(entry.value, b"v".to_vec());
    assert_eq!(entry.exp, None);
}

#[test]
fn snapshot_ms_expiration_is_loaded() {
    let mut bytes = Vec::new();
    bytes.extend_from_slice(b"REDIS0011");
    bytes.push(0xFE);
    bytes.push(0);
    bytes.push(0xFB);
    bytes.push(1);
    bytes.push(1);
    bytes.push(0xFC);
    bytes.extend_from_slice(&1_700_000_000_123u64.to_le_bytes());
    bytes.push(0x00);
    bytes.push(1);
    bytes.extend_from_slice(b"k");
    bytes.push(1);
    bytes.extend_from_slice(b"v");
    bytes.push(0xFF);
    bytes.extend_from_slice(&[0; 8]);
    let mut store = Store::new();
    load_snapshot(&mut store, &bytes).expect("snapshot must decode");
    let entry = store.get(&b"k".to_vec()).unwrap();
    assert_eq!(entry.exp, Some(1_700_000_000_123));
}

#[test]
fn snapshot_seconds_expiration_becomes_milliseconds() {
    let mut bytes = Vec::new();
    bytes.extend_from_slice(b"REDIS0011");
    bytes.push(0xFE);
    bytes.push(0);
    bytes.push(0xFB);
    bytes.push(1);
    bytes.push(1);
    bytes.push(0xFD);
    bytes.extend_from_slice(&1_700_000_000u32.to_le_bytes());
    bytes.push(0x00);
    bytes.push(1);
    bytes.extend_from_slice(b"k");
    bytes.push(1);
    bytes.extend_from_slice(b"v");
    bytes.push(0xFF);
    bytes.extend_from_slice(&[0; 8]);
    let mut store = Store::new();
    load_snapshot(&mut store, &bytes).expect("snapshot must decode");
    let entry = store.get(&b"k".to_vec()).unwrap();
    assert_eq!(entry.exp, Some(1_700_000_000_000));
}

#[test]
fn malformed_snapshot_leaves_store_untouched() {
    let mut store = Store::new();
    store.set(
        &b"kept".to_vec(),
        miniredis::store::StoreValue {
            value: b"1".to_vec(),
            exp: None,
        },
    );
    let mut bytes = sample_snapshot();
    bytes.truncate(bytes.len() - 3); // cut into the checksum
    let err = load_snapshot(&mut store, &bytes).unwrap_err();
    assert_eq!(err, RdbFileDecoderError::UnexpectedEnd);
    assert!(store.get(&b"k".to_vec()).is_none());
    assert!(store.get(&b"kept".to_vec()).is_some());
}

#[test]
fn bad_magic_is_invalid_header() {
    let mut bytes = sample_snapshot();
    bytes[0] = b'X';
    let decoder = RdbFileDecoder::new(bytes);
    assert_eq!(
        decoder.decode().err(),
        Some(RdbFileDecoderError::InvalidHeader)
    );
}

#[test]
fn unknown_value_type_is_rejected() {
    let mut bytes = Vec::new();
    bytes.extend_from_slice(b"REDIS0011");
    bytes.push(0xFE);
    bytes.push(0);
    bytes.push(0xFB);
    bytes.push(1);
    bytes.push(0);
    bytes.push(0x09); // a value type this decoder does not take
    bytes.push(1);
    bytes.extend_from_slice(b"k");
    bytes.push(1);
    bytes.extend_from_slice(b"v");
    bytes.push(0xFF);
    bytes.extend_from_slice(&[0; 8]);
    let decoder = RdbFileDecoder::new(bytes);
    assert_eq!(
        decoder.decode().err(),
        Some(RdbFileDecoderError::InvalidValueType)
    );
}

#[test]
fn size_encoding_six_bits() {
    let bytes = vec![0x2A];
    assert_eq!(decode_size_at(&bytes, 0), Ok((Size::Length(42), 1)));
}

#[test]
fn size_encoding_fourteen_bits() {
    let bytes = vec![0x41, 0x00];
    assert_eq!(decode_size_at(&bytes, 0), Ok((Size::Length(256), 2)));
    let bytes = vec![0x7F, 0xFF];
    assert_eq!(decode_size_at(&bytes, 0), Ok((Size::Length(16383), 2)));
}

#[test]
fn size_encoding_thirty_two_bits_maximum() {
    let bytes = vec![0x80, 0xFF, 0xFF, 0xFF, 0xFF];
    assert_eq!(
        decode_size_at(&bytes, 0),
        Ok((Size::Length(4_294_967_295), 5))
    );
}

#[test]
fn size_encoding_string_type_marker() {
    let bytes = vec![0xC0];
    assert_eq!(decode_size_at(&bytes, 0), Ok((Size::StringType(0xC0), 1)));
}

#[test]
fn string_encoding_eight_bit_integer_as_text() {
    let bytes = vec![0xC0, 123];
    assert_eq!(decode_string_at(&bytes, 0), Ok((b"123".to_vec(), 2)));
    let bytes = vec![0xC0, 0x80]; // -128 as a signed byte
    assert_eq!(decode_string_at(&bytes, 0), Ok((b"-128".to_vec(), 2)));
}

#[test]
fn string_encoding_sixteen_bit_integer_as_text() {
    let bytes = vec![0xC1, 0x39, 0x30];
    assert_eq!(decode_string_at(&bytes, 0), Ok((b"12345".to_vec(), 3)));
}

#[test]
fn string_encoding_thirty_two_bit_integer_as_text() {
    let bytes = vec![0xC2, 0x15, 0xCD, 0x5B, 0x07];
    assert_eq!(decode_string_at(&bytes, 0), Ok((b"123456789".to_vec(), 5)));
}

#[test]
fn string_encoding_lzf_is_fatal() {
    let bytes = vec![0xC3, 0x05, 0x05, 0x00];
    assert_eq!(
        decode_string_at(&bytes, 0),
        Err(RdbFileDecoderError::CompressedString)
    );
}

#[test]
fn section_tags_are_recognized() {
    assert_eq!(RdbSection::from_byte(0xFA), Some(RdbSection::Metadata));
    assert_eq!(RdbSection::from_byte(0xFE), Some(RdbSection::Database));
    assert_eq!(RdbSection::from_byte(0xFF), Some(RdbSection::EndOfFile));
    assert_eq!(RdbSection::from_byte(0xFB), None);
    assert_eq!(RdbValueType::from_byte(0), Some(RdbValueType::StringEncoding));
    assert_eq!(RdbValueType::from_byte(1), None);
}

#[test]
fn unknown_metadata_keys_are_skipped() {
    let mut bytes = Vec::new();
    bytes.extend_from_slice(b"REDIS0011");
    bytes.push(0xFA);
    bytes.push(3);
    bytes.extend_from_slice(b"odd");
    bytes.push(1);
    bytes.extend_from_slice(b"x");
    bytes.push(0xFA);
    bytes.push(5);
    bytes.extend_from_slice(b"ctime");
    bytes.push(2);
    bytes.extend_from_slice(b"77");
    bytes.push(0xFF);
    bytes.extend_from_slice(&[0; 8]);
    let decoder = RdbFileDecoder::new(bytes);
    let data = decoder.decode().expect("snapshot must decode");
    let meta = data.metadata.expect("metadata present");
    assert_eq!(meta.ctime, Some(b"77".to_vec()));
    assert_eq!(meta.redis_ver, None);
    assert!(data.databases.is_none());
}

#[test]
fn header_only_snapshot_is_empty() {
    let mut bytes = Vec::new();
    bytes.extend_from_slice(b"REDIS0011");
    bytes.push(0xFF);
    bytes.extend_from_slice(&[0; 8]);
    let mut store = Store::new();
    load_snapshot(&mut store, &bytes).expect("snapshot must decode");
    assert!(store.get_all_keys().is_empty());
}
