use ragfs_cache_memstore::envelope::{CacheEnvelope, CacheObjectKind, GenerationSnapshot};
use ragfs_cache_memstore::error::CacheError;
use ragfs_cache_memstore::file_info::{
    parts_to_system_time, system_time_to_parts, FileInfo, ModTime,
};

fn after_epoch(secs: u64, nanos: u32) -> ModTime {
    ModTime {
        before_epoch: false,
        secs,
        nanos,
    }
}

fn snapshot(value: u64) -> Vec<GenerationSnapshot> {
    vec![GenerationSnapshot {
        key: "ragfs:v2:test:subtree:0000000000000001".to_string(),
        value,
    }]
}

fn refusal<T: std::fmt::Debug>(result: Result<T, CacheError>) -> String {
    match result {
        Err(CacheError::InvalidData(message)) => message,
        other => panic!("expected invalid data, got {other:?}"),
    }
}

#[test]
fn file_envelope_encodes_as_binary_v2_with_raw_payload() {
    let data = b"deployment deployment deployment".to_vec();
    let envelope = CacheEnvelope::file(
        "/docs/a.txt".to_string(),
        data.clone(),
        vec![GenerationSnapshot {
            key: "ragfs:v2:test:subtree:0000000000000001".to_string(),
            value: 42,
        }],
    );

    let encoded = envelope.encode().unwrap();

    assert_eq!(&encoded[..5], b"RGFC\x02");
    assert!(
        encoded.windows(data.len()).any(|window| window == data),
        "binary file envelope should store file bytes without JSON number-array expansion"
    );
    assert_eq!(
        CacheEnvelope::decode(&encoded)
            .unwrap()
            .into_file()
            .unwrap(),
        data
    );
}

#[test]
fn file_envelope_view_borrows_payload_without_copying() {
    let data = b"borrowed file payload".to_vec();
    let envelope = CacheEnvelope::file(
        "/docs/a.txt".to_string(),
        data.clone(),
        vec![GenerationSnapshot {
            key: "ragfs:v2:test:subtree:0000000000000001".to_string(),
            value: 42,
        }],
    );

    let encoded = envelope.encode().unwrap();
    let view = CacheEnvelope::decode_file_view(&encoded).unwrap();

    assert_eq!(view.path(), "/docs/a.txt");
    assert_eq!(view.generations()[0].value, 42);
    assert_eq!(view.payload(), data.as_slice());

    let encoded_start = encoded.as_ptr() as usize;
    let encoded_end = encoded_start + encoded.len();
    let payload_ptr = view.payload().as_ptr() as usize;
    assert!(
        (encoded_start..encoded_end).contains(&payload_ptr),
        "file view payload should borrow from the encoded envelope buffer"
    );
}

#[test]
fn stat_envelope_round_trips_file_info() {
    let info = FileInfo::new(
        "a.txt".to_string(),
        123,
        0o640,
        after_epoch(42, 123_456_789),
        false,
    );
    let envelope = CacheEnvelope::stat(
        "/docs/a.txt".to_string(),
        info,
        vec![GenerationSnapshot {
            key: "ragfs:v2:test:subtree:0000000000000001".to_string(),
            value: 7,
        }],
    );

    let decoded = CacheEnvelope::decode(&envelope.encode().unwrap()).unwrap();
    assert!(decoded.matches(CacheObjectKind::Stat, "/docs/a.txt"));
    let decoded = decoded.into_stat().unwrap();
    assert_eq!(decoded.name, "a.txt");
    assert_eq!(decoded.size, 123);
    assert_eq!(decoded.mode, 0o640);
    assert_eq!(decoded.mod_time, after_epoch(42, 123_456_789));
    assert!(!decoded.is_dir);
}

#[test]
fn a_small_file_envelope_is_exact() {
    let envelope = CacheEnvelope::file(
        "/a".to_string(),
        b"xyz".to_vec(),
        vec![GenerationSnapshot {
            key: "k".to_string(),
            value: 258,
        }],
    );
    let expected: &[u8] = b"RGFC\x02\x01\x00\x00\x00\x02/a\x00\x00\x00\x01\x00\x00\x00\x01k\
\x00\x00\x00\x00\x00\x00\x01\x02\x00\x00\x00\x00\x00\x00\x00\x03xyz";
    assert_eq!(envelope.encode().unwrap().as_ref(), expected);
}

#[test]
fn a_small_stat_envelope_is_exact() {
    let info = FileInfo::new(
        "n".to_string(),
        5,
        0o755,
        ModTime {
            before_epoch: true,
            secs: 1,
            nanos: 2,
        },
        true,
    );
    let envelope = CacheEnvelope::stat("/".to_string(), info, Vec::new());
    let expected: &[u8] = b"RGFC\x02\x03\x00\x00\x00\x01/\x00\x00\x00\x00\
\x00\x00\x00\x00\x00\x00\x00\x1e\x00\x00\x00\x01n\x00\x00\x00\x00\x00\x00\x00\x05\
\x00\x00\x01\xed\xff\xff\xff\xff\xff\xff\xff\xff\x00\x00\x00\x02\x01";
    assert_eq!(envelope.encode().unwrap().as_ref(), expected);
}

#[test]
fn directory_envelopes_round_trip() {
    let entries = vec![
        FileInfo::new("a".to_string(), 1, 0o644, after_epoch(0, 0), false),
        FileInfo::new(
            "\u{e9}t\u{e9}".to_string(),
            u64::MAX,
            u32::MAX,
            ModTime {
                before_epoch: true,
                secs: i64::MAX as u64,
                nanos: 999_999_999,
            },
            true,
        ),
    ];
    let envelope = CacheEnvelope::directory("/d".to_string(), entries, snapshot(9));
    let encoded = envelope.encode().unwrap();
    let decoded = CacheEnvelope::decode(&encoded).unwrap();
    assert!(decoded.matches(CacheObjectKind::Directory, "/d"));
    assert!(!decoded.matches(CacheObjectKind::Directory, "/e"));
    assert!(!decoded.matches(CacheObjectKind::File, "/d"));
    assert_eq!(decoded.generations().len(), 1);
    assert_eq!(
        decoded.generations()[0].key,
        "ragfs:v2:test:subtree:0000000000000001"
    );
    assert_eq!(decoded.generations()[0].value, 9);
    assert_eq!(decoded.encode().unwrap(), encoded);
    let entries = decoded.into_directory().unwrap();
    assert_eq!(entries.len(), 2);
    assert_eq!(entries[1].name, "\u{e9}t\u{e9}");
    assert_eq!(entries[1].size, u64::MAX);
    assert_eq!(entries[1].mode, u32::MAX);
    assert!(entries[1].mod_time.before_epoch);
    assert_eq!(entries[1].mod_time.secs, i64::MAX as u64);
    assert_eq!(entries[1].mod_time.nanos, 999_999_999);
    assert!(entries[1].is_dir);
    assert!(!entries[0].is_dir);
}

#[test]
fn file_parts_point_at_the_payload() {
    let encoded = CacheEnvelope::file("/p".to_string(), b"payload".to_vec(), snapshot(3))
        .encode()
        .unwrap();
    let parts = CacheEnvelope::decode_file_parts(&encoded).unwrap();
    assert_eq!(parts.path(), "/p");
    assert_eq!(&encoded[parts.payload_range()], b"payload");
    assert_eq!(parts.into_generations()[0].value, 3);
}

#[test]
fn truncated_and_extended_envelopes_are_refused() {
    let encoded = CacheEnvelope::file("/p".to_string(), b"payload".to_vec(), snapshot(3))
        .encode()
        .unwrap();
    for length in 0..encoded.len() {
        assert_eq!(
            refusal(CacheEnvelope::decode(&encoded[..length])),
            "truncated cache envelope"
        );
    }
    let mut longer = encoded.to_vec();
    longer.push(0);
    assert_eq!(
        refusal(CacheEnvelope::decode(&longer)),
        "trailing bytes in cache envelope"
    );
    assert_eq!(
        refusal(CacheEnvelope::decode_file_view(&longer)),
        "trailing bytes in cache envelope"
    );
}

#[test]
fn foreign_preambles_are_refused() {
    assert_eq!(
        refusal(CacheEnvelope::decode(b"RGFX\x02\x01")),
        "invalid envelope magic"
    );
    assert_eq!(
        refusal(CacheEnvelope::decode(b"RGFC\x01\x01")),
        "unsupported envelope version 1"
    );
    assert_eq!(
        refusal(CacheEnvelope::decode(b"RGFC\x02\x04")),
        "unsupported envelope kind 4"
    );
    assert_eq!(
        refusal(CacheEnvelope::decode_file_parts(b"RGFC\x02\x03")),
        "expected file envelope"
    );
}

#[test]
fn huge_lengths_overflow_or_are_truncated() {
    let mut encoded: Vec<u8> = b"RGFC\x02\x01\x00\x00\x00\x00\x00\x00\x00\x00".to_vec();
    encoded.extend_from_slice(&u64::MAX.to_be_bytes());
    assert_eq!(
        refusal(CacheEnvelope::decode(&encoded)),
        "cache envelope offset overflow"
    );
    let text: &[u8] = b"RGFC\x02\x01\xff\xff\xff\xff";
    assert_eq!(refusal(CacheEnvelope::decode(text)), "truncated cache envelope");
}

#[test]
fn paths_have_to_be_utf8() {
    let bytes: &[u8] = b"RGFC\x02\x01\x00\x00\x00\x01\xff";
    assert_eq!(
        refusal(CacheEnvelope::decode(bytes)),
        "invalid utf-8 sequence of 1 bytes from index 0"
    );
}

#[test]
fn bad_file_metadata_is_refused() {
    let info = FileInfo::new("n".to_string(), 5, 0, after_epoch(1, 0), false);
    let good = CacheEnvelope::stat("/".to_string(), info, Vec::new())
        .encode()
        .unwrap()
        .to_vec();

    let mut flag = good.clone();
    let last = flag.len() - 1;
    flag[last] = 2;
    assert_eq!(
        refusal(CacheEnvelope::decode(&flag)),
        "invalid FileInfo directory flag"
    );

    let mut nanos = good.clone();
    nanos[last - 4..last].copy_from_slice(&1_000_000_000u32.to_be_bytes());
    assert_eq!(
        refusal(CacheEnvelope::decode(&nanos)),
        "invalid FileInfo timestamp nanos"
    );

    let mut longer = good.clone();
    longer.push(0);
    let length_at = good.len() - 30 - 8;
    longer[length_at..length_at + 8].copy_from_slice(&31u64.to_be_bytes());
    assert_eq!(
        refusal(CacheEnvelope::decode(&longer)),
        "trailing bytes in stat payload"
    );
}

#[test]
fn directory_payloads_end_with_their_last_entry() {
    let good = CacheEnvelope::directory("/".to_string(), Vec::new(), Vec::new())
        .encode()
        .unwrap()
        .to_vec();
    let mut longer = good.clone();
    longer.push(0);
    let length_at = good.len() - 4 - 8;
    longer[length_at..length_at + 8].copy_from_slice(&5u64.to_be_bytes());
    assert_eq!(
        refusal(CacheEnvelope::decode(&longer)),
        "trailing bytes in directory payload"
    );
}

#[test]
fn payloads_are_taken_out_by_their_kind() {
    let file = || CacheEnvelope::file("/".to_string(), b"x".to_vec(), Vec::new());
    let info = FileInfo::new("n".to_string(), 5, 0, after_epoch(1, 0), false);
    let stat = CacheEnvelope::stat("/".to_string(), info, Vec::new());
    assert_eq!(refusal(file().into_directory()), "expected directory payload");
    assert_eq!(refusal(file().into_stat()), "expected stat payload");
    assert_eq!(refusal(stat.into_file()), "expected file payload");
}

#[test]
fn times_are_signed_seconds_and_nanoseconds() {
    assert_eq!(system_time_to_parts(after_epoch(42, 7)), (42, 7));
    assert_eq!(system_time_to_parts(after_epoch(u64::MAX, 7)), (i64::MAX, 7));
    let before = ModTime {
        before_epoch: true,
        secs: 3,
        nanos: 9,
    };
    assert_eq!(system_time_to_parts(before), (-3, 9));
    assert_eq!(parts_to_system_time(-3, 9), before);
    assert_eq!(
        parts_to_system_time(i64::MIN, 0),
        ModTime {
            before_epoch: true,
            secs: 1 << 63,
            nanos: 0,
        }
    );
}

#[test]
fn half_a_second_before_the_epoch_loses_its_sign() {
    let time = ModTime {
        before_epoch: true,
        secs: 0,
        nanos: 500_000_000,
    };
    let (secs, nanos) = system_time_to_parts(time);
    assert_eq!(parts_to_system_time(secs, nanos), after_epoch(0, 500_000_000));
}
