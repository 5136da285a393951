use bytes::Bytes;
use ragfs_cache_memstore::error::MemStoreStoreError;
use ragfs_cache_memstore::frame::{
    decode_owned_value, decode_value, encode_value, hashed_key, native_key, native_keys,
    payload_len, payload_range, validate_key, HEADER_LEN,
};

#[test]
fn direct_and_hashed_keys_match_the_memstore_mapping() {
    let direct = "a".repeat(127);
    assert_eq!(native_key(&direct).unwrap(), direct);

    let long = "a".repeat(128);
    assert_eq!(
        native_key(&long).unwrap(),
        "ovms:h:6836cf13bac400e9105071cd6af47084dfacad4e5e302c94bfed24e013afb73e"
    );
    assert!(matches!(
        native_key(""),
        Err(MemStoreStoreError::InvalidArgument(_))
    ));
}

#[test]
fn frame_format_and_empty_payload_are_exact() {
    assert_eq!(
        encode_value(b"abc", 16).unwrap(),
        b"OVMS\x01\x00\x00\x00\x03abc"
    );
    let empty = encode_value(b"", 16).unwrap();
    assert_eq!(empty, b"OVMS\x01\x00\x00\x00\x00");
    assert_eq!(decode_value(&empty, 16).unwrap(), b"");
}

#[test]
fn decode_rejects_invalid_or_truncated_frames() {
    for frame in [
        b"BAD!\x01\x00\x00\x00\x00".as_slice(),
        b"OVMS\x02\x00\x00\x00\x00".as_slice(),
        b"OVMS\x01\x00\x00\x00".as_slice(),
        b"OVMS\x01\x00\x00\x00\x04abc".as_slice(),
    ] {
        assert!(matches!(
            decode_value(frame, 16),
            Err(MemStoreStoreError::InvalidData(_))
        ));
    }
}

#[test]
fn decode_uses_logical_length_and_ignores_trailing_bytes() {
    assert_eq!(
        decode_value(b"OVMS\x01\x00\x00\x00\x03newstale", 16).unwrap(),
        b"new"
    );
}

#[test]
fn owned_decode_slices_payload_without_copying() {
    let framed = Bytes::from(encode_value(b"payload", 16).unwrap());
    let payload_ptr = framed.as_ptr() as usize + HEADER_LEN;

    let decoded = decode_owned_value(framed, 16).unwrap();

    assert_eq!(decoded, Bytes::from_static(b"payload"));
    assert_eq!(decoded.as_ptr() as usize, payload_ptr);
}

#[test]
fn payload_size_limit_is_enforced_for_encode_and_decode() {
    assert!(matches!(
        encode_value(b"1234", 3),
        Err(MemStoreStoreError::InvalidArgument(_))
    ));
    assert!(matches!(
        decode_value(b"OVMS\x01\x00\x00\x00\x04data", 3),
        Err(MemStoreStoreError::InvalidData(_))
    ));
}

fn message(error: MemStoreStoreError) -> String {
    error.describe()
}

#[test]
fn messages_are_exact() {
    assert_eq!(
        message(validate_key("").unwrap_err()),
        "invalid MemStore argument: MemStore cache key must not be empty"
    );
    assert_eq!(
        message(encode_value(b"1234", 3).unwrap_err()),
        "invalid MemStore argument: MemStore payload is 4 bytes, exceeding the 3 byte limit"
    );
    assert_eq!(
        message(decode_value(b"OVMS", 3).unwrap_err()),
        "invalid MemStore data: MemStore value frame is truncated"
    );
    assert_eq!(
        message(decode_value(b"OVMX\x01\x00\x00\x00\x00", 3).unwrap_err()),
        "invalid MemStore data: MemStore value frame has invalid magic"
    );
    assert_eq!(
        message(decode_value(b"OVMS\xc8\x00\x00\x00\x00", 3).unwrap_err()),
        "invalid MemStore data: MemStore value frame version 200 is unsupported"
    );
    assert_eq!(
        message(decode_value(b"OVMS\x01\x00\x01\x00\x00", 3).unwrap_err()),
        "invalid MemStore data: MemStore framed payload is 65536 bytes, exceeding the 3 byte limit"
    );
    assert_eq!(
        message(decode_value(b"OVMS\x01\x00\x00\x00\x03ab", 3).unwrap_err()),
        "invalid MemStore data: MemStore value frame payload is truncated"
    );
}

#[test]
fn every_prefix_of_a_frame_is_refused() {
    let framed = encode_value(b"payload", 16).unwrap();
    for length in 0..framed.len() {
        assert!(decode_value(&framed[..length], 16).is_err());
    }
    assert_eq!(decode_value(&framed, 16).unwrap(), b"payload");
}

#[test]
fn ranges_and_lengths_of_payloads() {
    let framed = encode_value(b"payload", 16).unwrap();
    assert_eq!(payload_len(&framed, 16).unwrap(), 7);
    assert_eq!(payload_len(&framed[..9], 16).unwrap(), 7);
    assert_eq!(payload_range(&framed, 16).unwrap(), 9..16);
}

#[test]
fn stored_names_have_at_most_127_bytes() {
    let wide = "\u{e9}".repeat(64);
    assert_eq!(wide.len(), 128);
    let name = native_key(&wide).unwrap();
    assert_eq!(name.len(), 71);
    assert!(name.starts_with("ovms:h:"));
    assert_eq!(native_key(&name).unwrap(), name);

    let narrow = "\u{e9}".repeat(63);
    assert_eq!(native_key(&narrow).unwrap(), narrow);
}

#[test]
fn hashed_names_are_lower_case_hexadecimal() {
    assert_eq!(hashed_key(&[0x00, 0xff, 0x1a]), "ovms:h:00ff1a");
}

#[test]
fn one_empty_key_refuses_the_whole_list() {
    let keys = vec!["a".to_string(), String::new(), "b".to_string()];
    assert!(matches!(
        native_keys(&keys),
        Err(MemStoreStoreError::InvalidArgument(_))
    ));
    assert_eq!(native_keys(&keys[..1]).unwrap(), vec!["a".to_string()]);
}
