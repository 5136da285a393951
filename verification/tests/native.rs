use std::collections::HashMap;

use bytes::Bytes;
use ragfs_cache_memstore::config::MemStoreConfig;
use ragfs_cache_memstore::error::{MemStoreItemResult, MemStoreStoreError};
use ragfs_cache_memstore::frame::{encode_value, native_keys, HEADER_LEN};
use ragfs_cache_memstore::mutation::{
    delete_after_probe, delete_results, health_check, judge_delete, only_item, plan_delete,
    plan_probe, plan_replace, probe_exists, replace_results, DeleteStep, HEALTH_KEY,
};
use ragfs_cache_memstore::raw_get::{plan_read, GetRequest, RawGetScratch};
use ragfs_cache_memstore::read_session::{
    initial_read_buffer_size, judge_read, RawRead, ReadSession, ReadStep,
    INITIAL_READ_BUFFER_SIZE, MAX_READ_BATCH_SIZE,
};
use ragfs_cache_memstore::runtime::{AcquireStep, ReleaseStep, RuntimeState};
use ragfs_cache_memstore::status::{
    effective_result, map_native_status, zero_copy_error, RESULT_SENTINEL, RET_MMS_BUSY,
    RET_MMS_CONFLICT, RET_MMS_EPERM, RET_MMS_ERROR, RET_MMS_EXCEED_QUOTA, RET_MMS_EXISTS,
    RET_MMS_MISS, RET_MMS_NEED_RETRY, RET_MMS_NOT_FOUND, RET_MMS_NOT_READY, RET_MMS_NO_SPACE,
    RET_MMS_OK, RET_MMS_PROTECTED, RET_MMS_PT_FAULT, RET_MMS_READ_EXCEED, RET_MMS_UNAVAILABLE,
};

const LIMIT: usize = 8 * 1_024;

fn frame(payload: &[u8]) -> Vec<u8> {
    encode_value(payload, usize::MAX).unwrap()
}

fn read_of(data: Vec<u8>, real_length: usize, result: i32) -> RawRead {
    RawRead {
        buffer: Bytes::from(data),
        caller_buffer_preserved: true,
        real_length,
        result,
    }
}

struct FakeStore {
    values: HashMap<String, Vec<u8>>,
    grown: HashMap<String, Vec<u8>>,
    calls: Vec<Vec<(String, usize)>>,
}

impl FakeStore {
    fn new() -> Self {
        FakeStore {
            values: HashMap::new(),
            grown: HashMap::new(),
            calls: Vec::new(),
        }
    }

    fn get(&mut self, keys: &[String], sizes: &[usize]) -> (i32, Vec<RawRead>) {
        self.calls
            .push(keys.iter().cloned().zip(sizes.iter().copied()).collect());
        if keys.len() == 1 && keys[0] == "sentinel" {
            return (
                RET_MMS_BUSY,
                vec![read_of(vec![0; sizes[0]], 0, RESULT_SENTINEL)],
            );
        }
        let mut reads = Vec::new();
        for (key, size) in keys.iter().zip(sizes) {
            let mut data = vec![0u8; *size];
            match key.as_str() {
                "zero-copy" => {
                    let mut read = read_of(data, 10, RET_MMS_READ_EXCEED);
                    read.caller_buffer_preserved = false;
                    reads.push(read);
                    continue;
                }
                "truncated" => {
                    data[..13].copy_from_slice(b"OVMS\x01\x00\x00\x00\x04data");
                    reads.push(read_of(data, 9, RET_MMS_OK));
                    continue;
                }
                "resize-exhaustion" => {
                    let announced = frame(&vec![0; *size]);
                    data[..9].copy_from_slice(&announced[..9]);
                    reads.push(read_of(data, announced.len(), RET_MMS_READ_EXCEED));
                    continue;
                }
                "unset-overall-ok" => {
                    reads.push(read_of(data, 0, RESULT_SENTINEL));
                    continue;
                }
                "item-eperm" => {
                    reads.push(read_of(data, 0, RET_MMS_EPERM));
                    continue;
                }
                "item-error" => {
                    reads.push(read_of(data, 0, RET_MMS_ERROR));
                    continue;
                }
                _ => {}
            }
            let Some(value) = self.values.get(key).cloned() else {
                reads.push(read_of(data, 0, RET_MMS_NOT_FOUND));
                continue;
            };
            if let Some(larger) = self.grown.remove(key) {
                self.values.insert(key.clone(), larger);
            }
            let copied = usize::min(*size, value.len());
            data[..copied].copy_from_slice(&value[..copied]);
            let status = if copied < value.len() {
                RET_MMS_READ_EXCEED
            } else {
                RET_MMS_OK
            };
            reads.push(read_of(data, value.len(), status));
        }
        (RET_MMS_OK, reads)
    }

    fn read(&mut self, keys: &[&str]) -> Vec<MemStoreItemResult<Option<Bytes>>> {
        self.calls.clear();
        let keys = keys.iter().map(|key| key.to_string()).collect::<Vec<_>>();
        let mut session = ReadSession::start(&keys, LIMIT).unwrap();
        while let Some(call) = session.next_call() {
            let (overall, reads) = self.get(&call.keys, &call.buffer_sizes);
            session.absorb(overall, reads, true);
        }
        session.finish()
    }
}

fn value(payload: &[u8]) -> Option<Bytes> {
    Some(Bytes::from(payload.to_vec()))
}

#[test]
fn small_values_take_one_read_and_large_ones_an_exact_second() {
    let mut store = FakeStore::new();
    store.values.insert("small".into(), frame(&vec![b's'; 1024]));
    store.values.insert("large".into(), frame(&vec![b'l'; 5000]));
    store.values.insert("empty".into(), frame(b""));

    let answers = store.read(&["small", "large"]);
    assert_eq!(answers[0].as_ref().unwrap(), &value(&[b's'; 1024]));
    assert_eq!(answers[1].as_ref().unwrap(), &value(&[b'l'; 5000]));
    assert_eq!(
        store.calls,
        vec![
            vec![("small".to_string(), 4096), ("large".to_string(), 4096)],
            vec![("large".to_string(), 9 + 5000)],
        ]
    );

    assert_eq!(store.read(&["small"])[0].as_ref().unwrap(), &value(&[b's'; 1024]));
    assert_eq!(store.calls, vec![vec![("small".to_string(), 4096)]]);
    assert_eq!(store.read(&["empty"])[0].as_ref().unwrap(), &value(b""));
    assert_eq!(store.calls, vec![vec![("empty".to_string(), 4096)]]);
}

#[test]
fn reads_go_out_in_batches() {
    let mut store = FakeStore::new();
    let keys = (0..=MAX_READ_BATCH_SIZE)
        .map(|index| format!("chunk-{index:03}"))
        .collect::<Vec<_>>();
    for key in &keys {
        store.values.insert(key.clone(), frame(b"c"));
    }
    let names = keys.iter().map(|key| key.as_str()).collect::<Vec<_>>();
    let answers = store.read(&names);
    assert_eq!(answers.len(), keys.len());
    assert!(answers
        .iter()
        .all(|answer| answer.as_ref().unwrap() == &value(b"c")));
    assert_eq!(store.calls.len(), 2);
    assert_eq!(store.calls[0].len(), MAX_READ_BATCH_SIZE);
    assert!(store.calls[0].iter().all(|(_, size)| *size == 4096));
    assert_eq!(
        store.calls[1],
        vec![(keys[MAX_READ_BATCH_SIZE].clone(), INITIAL_READ_BUFFER_SIZE)]
    );
}

#[test]
fn a_shorter_value_over_a_longer_one_takes_one_read() {
    let mut store = FakeStore::new();
    let mut stored = frame(&vec![b'o'; 5000]);
    stored[..12].copy_from_slice(&frame(b"new"));
    store.values.insert("shorter".into(), stored);
    assert_eq!(store.read(&["shorter"])[0].as_ref().unwrap(), &value(b"new"));
    assert_eq!(store.calls, vec![vec![("shorter".to_string(), 4096)]]);
}

#[test]
fn growing_values_are_read_again_and_only_they() {
    let mut store = FakeStore::new();
    store.values.insert("fits".into(), frame(b"new"));
    store.values.insert("growing".into(), frame(&vec![b'i'; 4096]));
    store.grown.insert("growing".into(), frame(&vec![b'g'; 5 * 1024]));

    let answers = store.read(&["fits", "growing", "missing"]);
    assert_eq!(answers[0].as_ref().unwrap(), &value(b"new"));
    assert_eq!(answers[1].as_ref().unwrap(), &value(&[b'g'; 5 * 1024]));
    assert_eq!(answers[2].as_ref().unwrap(), &None);
    assert_eq!(
        store.calls,
        vec![
            vec![
                ("fits".to_string(), 4096),
                ("growing".to_string(), 4096),
                ("missing".to_string(), 4096),
            ],
            vec![("growing".to_string(), 9 + 4096)],
            vec![("growing".to_string(), 9 + 5 * 1024)],
        ]
    );
}

#[test]
fn resizing_ends_after_three_attempts() {
    let mut store = FakeStore::new();
    let answers = store.read(&["resize-exhaustion"]);
    match &answers[0] {
        Err(MemStoreStoreError::Unavailable(message)) => {
            assert_eq!(message, "MemStore value kept growing during 3 resize attempts")
        }
        other => panic!("unexpected {other:?}"),
    }
    assert_eq!(
        store.calls,
        vec![
            vec![("resize-exhaustion".to_string(), 4096)],
            vec![("resize-exhaustion".to_string(), 4105)],
            vec![("resize-exhaustion".to_string(), 4114)],
            vec![("resize-exhaustion".to_string(), 4123)],
        ]
    );
}

fn single(key: &str) -> String {
    FakeStore::new().read(&[key]).remove(0).unwrap_err().describe()
}

#[test]
fn failed_reads_are_told_apart() {
    assert_eq!(
        single("sentinel"),
        "MemStore unavailable: get returned MemStore status 4 (serviceable=true)"
    );
    assert_eq!(
        single("unset-overall-ok"),
        "MemStore operation failed: MemStore get left an item result unset"
    );
    assert_eq!(
        single("zero-copy"),
        "MemStore operation failed: MemStore get replaced a caller-owned read buffer"
    );
    assert_eq!(
        single("truncated"),
        "invalid MemStore data: MemStore get returned a truncated frame"
    );
    assert_eq!(
        single("item-eperm"),
        "invalid MemStore argument: get returned MemStore status 3 (serviceable=true)"
    );
    assert_eq!(
        single("item-error"),
        "MemStore operation failed: get returned MemStore status 2 (serviceable=true)"
    );
}

#[test]
fn a_frame_that_does_not_fit_is_read_again_before_its_length_is_doubted() {
    let mut data = vec![0u8; 16];
    data[..9].copy_from_slice(&frame(&[0; 100])[..9]);
    let step = judge_read(read_of(data, 16, RET_MMS_OK), RET_MMS_OK, 16, 0, LIMIT, true);
    assert!(matches!(step, ReadStep::Again(109)));
}

#[test]
fn untouched_buffers_are_no_values() {
    let step = judge_read(
        read_of(vec![0; 64], 64, RET_MMS_OK),
        RET_MMS_OK,
        64,
        0,
        LIMIT,
        true,
    );
    match step {
        ReadStep::Settled(Err(MemStoreStoreError::InvalidData(message))) => {
            assert_eq!(message, "MemStore value frame has invalid magic")
        }
        _ => panic!("an untouched buffer was taken for a value"),
    }
}

#[test]
fn keys_without_a_read_are_answered_with_an_error() {
    let keys = vec!["a".to_string(), "b".to_string()];
    let mut session = ReadSession::start(&keys, LIMIT).unwrap();
    session.absorb(
        RET_MMS_OK,
        vec![read_of(vec![0; 9], 0, RET_MMS_MISS)],
        true,
    );
    assert!(session.next_call().is_none());
    let answers = session.finish();
    assert_eq!(answers[0].as_ref().unwrap(), &None);
    match &answers[1] {
        Err(MemStoreStoreError::Internal(message)) => {
            assert_eq!(message, "MemStore get did not produce an item result")
        }
        other => panic!("unexpected {other:?}"),
    }
}

#[test]
fn requests_need_keys_and_may_be_empty() {
    assert!(ReadSession::start(&[String::new()], LIMIT).is_err());
    let session = ReadSession::start(&[], LIMIT).unwrap();
    assert!(session.next_call().is_none());
    assert!(session.finish().is_empty());
}

#[test]
fn first_buffers_are_bounded_by_the_limit_for_every_key() {
    assert_eq!(initial_read_buffer_size("plain", 1 << 20), 4096);
    assert_eq!(initial_read_buffer_size("plain", 100), 100);
    let directory = "ragfs:v2:ns:dir:0000000000000001";
    assert_eq!(initial_read_buffer_size(directory, 1 << 20), 4096);
    assert_eq!(initial_read_buffer_size(directory, 8201), 4096);
    assert_eq!(initial_read_buffer_size(directory, 2048), 2048);
    assert_eq!(initial_read_buffer_size("ragfs:v2:ns:dir:00", 67_108_873), 4096);
}

#[test]
fn raw_get_scratch_reuses_ffi_metadata_allocations() {
    let keys = vec!["first".to_owned(), "second".to_owned()];
    let buffer_sizes = vec![INITIAL_READ_BUFFER_SIZE; keys.len()];
    let mut buffer = vec![0x5a_u8; buffer_sizes.iter().sum()];
    let mut scratch = RawGetScratch::default();

    scratch.prepare(&keys, &buffer_sizes, &mut buffer).unwrap();
    for offset in [0, INITIAL_READ_BUFFER_SIZE] {
        assert_eq!(&buffer[offset..offset + HEADER_LEN], &[0; HEADER_LEN]);
        assert!(
            buffer[offset + HEADER_LEN..offset + INITIAL_READ_BUFFER_SIZE]
                .iter()
                .all(|byte| *byte == 0x5a)
        );
    }
    let allocations = (
        scratch.offsets.as_ptr() as usize,
        scratch.real_lengths.as_ptr() as usize,
        scratch.results.as_ptr() as usize,
        scratch.items.as_ptr() as usize,
    );
    assert_eq!(scratch.offsets, vec![0, INITIAL_READ_BUFFER_SIZE]);

    scratch.prepare(&keys, &buffer_sizes, &mut buffer).unwrap();

    assert_eq!(
        (
            scratch.offsets.as_ptr() as usize,
            scratch.real_lengths.as_ptr() as usize,
            scratch.results.as_ptr() as usize,
            scratch.items.as_ptr() as usize,
        ),
        allocations
    );
}

#[test]
fn scratch_entries_keep_the_length_of_every_stored_name() {
    let keys = native_keys(&["k".repeat(127), "k".repeat(100_000)]).unwrap();
    let sizes = vec![9, 9];
    let mut buffer = vec![0u8; 18];
    let mut scratch = RawGetScratch::new();
    scratch.prepare(&keys, &sizes, &mut buffer).unwrap();
    assert_eq!(scratch.items[0].key_len, 127);
    assert_eq!(scratch.items[1].key_len, 71);
}

#[test]
fn scratch_entries_are_set_up_and_collected() {
    let keys = vec!["first".to_owned(), "se".to_owned()];
    let sizes = vec![4, 12];
    let mut buffer = vec![1u8; 16];
    let mut scratch = RawGetScratch::new();
    scratch.prepare(&keys, &sizes, &mut buffer).unwrap();
    assert_eq!(scratch.results, vec![RESULT_SENTINEL; 2]);
    assert_eq!(scratch.real_lengths, vec![0, 0]);
    assert_eq!(
        scratch.items,
        vec![
            GetRequest {
                key_len: 5,
                offset: 0,
                length: 4
            },
            GetRequest {
                key_len: 2,
                offset: 0,
                length: 12
            },
        ]
    );
    assert_eq!(buffer, [0, 0, 0, 0, 0, 0, 0, 0, 0, 0, 0, 0, 0, 1, 1, 1]);

    scratch.real_lengths[1] = 77;
    scratch.results[0] = RET_MMS_MISS;
    scratch.results[1] = RET_MMS_OK;
    let reads = scratch.collect(&sizes, &Bytes::from(buffer), &[true, false]);
    assert_eq!(reads.len(), 2);
    assert_eq!(reads[0].buffer.as_ref(), [0u8; 4].as_slice());
    assert_eq!(reads[1].buffer.len(), 12);
    assert_eq!(reads[1].buffer.as_ref()[9..], [1, 1, 1]);
    assert!(reads[0].caller_buffer_preserved);
    assert!(!reads[1].caller_buffer_preserved);
    assert_eq!(reads[1].real_length, 77);
    assert_eq!(reads[0].result, RET_MMS_MISS);
}

#[test]
fn regions_that_cannot_be_laid_out_are_refused() {
    let keys = vec!["a".to_owned(), "b".to_owned()];
    let mut scratch = RawGetScratch::new();
    let mut buffer = vec![1u8; 8];
    assert_eq!(
        scratch
            .prepare(&keys, &[4, 5], &mut buffer)
            .unwrap_err()
            .describe(),
        "invalid MemStore argument: MemStore read buffers exceed the contiguous allocation"
    );
    assert_eq!(buffer, [0, 0, 0, 0, 1, 1, 1, 1]);
    if usize::BITS > 32 {
        assert_eq!(
            scratch
                .prepare(&keys, &[4, u32::MAX as usize + 1], &mut buffer)
                .unwrap_err()
                .describe(),
            "invalid MemStore argument: MemStore read buffer size exceeds c_uint::MAX"
        );
    }
}

#[test]
fn read_calls_are_planned() {
    assert_eq!(plan_read(2, &[4, 5]).unwrap(), Some(9));
    assert_eq!(plan_read(0, &[]).unwrap(), None);
    assert_eq!(
        plan_read(1, &[4, 5]).unwrap_err().describe(),
        "MemStore operation failed: MemStore raw get key and buffer counts differ"
    );
    assert_eq!(
        plan_read(2, &[usize::MAX, 1]).unwrap_err().describe(),
        "invalid MemStore argument: MemStore read batch size overflowed"
    );
}

#[test]
fn statuses_become_errors_of_their_class() {
    for code in [
        RET_MMS_BUSY,
        RET_MMS_NEED_RETRY,
        RET_MMS_NOT_READY,
        RET_MMS_UNAVAILABLE,
        RET_MMS_NO_SPACE,
        RET_MMS_EXCEED_QUOTA,
        RET_MMS_PT_FAULT,
    ] {
        assert!(matches!(
            map_native_status(code, "get", true),
            MemStoreStoreError::Unavailable(_)
        ));
    }
    for code in [RET_MMS_EPERM, RET_MMS_READ_EXCEED] {
        assert!(matches!(
            map_native_status(code, "get", true),
            MemStoreStoreError::InvalidArgument(_)
        ));
    }
    for code in [
        RET_MMS_ERROR,
        RET_MMS_PROTECTED,
        RET_MMS_CONFLICT,
        RET_MMS_EXISTS,
        RET_MMS_NOT_FOUND,
        RET_MMS_MISS,
        RET_MMS_OK,
        -1,
        99,
    ] {
        assert!(matches!(
            map_native_status(code, "get", true),
            MemStoreStoreError::Internal(_)
        ));
    }
    assert_eq!(
        map_native_status(-17, "replace", false).describe(),
        "MemStore operation failed: replace returned MemStore status -17 (serviceable=false)"
    );
    assert_eq!(
        zero_copy_error("health check").describe(),
        "MemStore operation failed: MemStore health check replaced a caller-owned read buffer"
    );
}

#[test]
fn the_status_that_counts() {
    assert_eq!(effective_result(RET_MMS_MISS, RET_MMS_BUSY, "get").unwrap(), RET_MMS_MISS);
    assert_eq!(
        effective_result(RESULT_SENTINEL, RET_MMS_BUSY, "get").unwrap(),
        RET_MMS_BUSY
    );
    assert_eq!(
        effective_result(RESULT_SENTINEL, RET_MMS_OK, "delete")
            .unwrap_err()
            .describe(),
        "MemStore operation failed: MemStore delete left an item result unset"
    );
}

#[test]
fn writes_are_planned_and_answered() {
    let long = "k".repeat(200);
    let entries = vec![
        ("a".to_string(), b"one".to_vec()),
        (long.clone(), b"".to_vec()),
    ];
    let call = plan_replace(&entries, 16).unwrap().unwrap();
    assert_eq!(call.keys[0], "a");
    assert_eq!(call.keys[1].len(), 71);
    assert_eq!(call.values, vec![frame(b"one"), frame(b"")]);
    assert!(plan_replace(&[], 16).unwrap().is_none());

    let empty_key = vec![
        ("a".to_string(), vec![0; 20]),
        (String::new(), b"".to_vec()),
    ];
    assert_eq!(
        plan_replace(&empty_key, 16).err().unwrap().describe(),
        "invalid MemStore argument: MemStore cache key must not be empty"
    );
    assert_eq!(
        plan_replace(&empty_key[..1], 16).err().unwrap().describe(),
        "invalid MemStore argument: MemStore payload is 20 bytes, exceeding the 16 byte limit"
    );

    let answers = replace_results(
        &[RET_MMS_OK, RET_MMS_NO_SPACE, RESULT_SENTINEL],
        RET_MMS_ERROR,
        true,
    );
    assert!(answers[0].is_ok());
    assert_eq!(
        answers[1].as_ref().unwrap_err().describe(),
        "MemStore unavailable: replace returned MemStore status 10 (serviceable=true)"
    );
    assert_eq!(
        answers[2].as_ref().unwrap_err().describe(),
        "MemStore operation failed: replace returned MemStore status 2 (serviceable=true)"
    );
}

#[test]
fn what_is_written_is_read_back_through_a_session() {
    let mut store = FakeStore::new();
    let payload = vec![b'x'; 6000];
    let entries = vec![("key".to_string(), payload.clone())];
    let call = plan_replace(&entries, LIMIT).unwrap().unwrap();
    store.values.insert(call.keys[0].clone(), call.values[0].clone());
    assert_eq!(store.read(&["key"])[0].as_ref().unwrap(), &value(&payload));
}

#[test]
fn deletes_are_planned_and_answered() {
    assert!(plan_delete(&[]).unwrap().is_none());
    assert_eq!(
        plan_delete(&["a".to_string()]).unwrap().unwrap(),
        vec!["a".to_string()]
    );
    assert!(plan_delete(&[String::new()]).is_err());

    for code in [RET_MMS_OK, RET_MMS_NOT_FOUND, RET_MMS_MISS] {
        assert!(matches!(
            judge_delete(code, RET_MMS_ERROR, true),
            DeleteStep::Done(Ok(()))
        ));
    }
    let steps = delete_results(&[RET_MMS_NEED_RETRY, RET_MMS_BUSY], RET_MMS_OK, false);
    assert!(matches!(steps[0], DeleteStep::Probe));
    match &steps[1] {
        DeleteStep::Done(Err(error)) => assert_eq!(
            error.describe(),
            "MemStore unavailable: delete returned MemStore status 4 (serviceable=false)"
        ),
        _ => panic!("a busy store did not refuse the delete"),
    }

    assert!(delete_after_probe(Ok(false)).is_ok());
    assert_eq!(
        delete_after_probe(Ok(true)).unwrap_err().describe(),
        "MemStore unavailable: MemStore delete needs retry and the key still exists"
    );
    assert!(matches!(
        delete_after_probe(Err(MemStoreStoreError::Internal("x".into()))),
        Err(MemStoreStoreError::Internal(_))
    ));
}

#[test]
fn probes_and_health_checks_go_by_the_status() {
    let read = |code: i32| vec![read_of(vec![0; 9], 0, code)];
    assert!(probe_exists(RET_MMS_OK, read(RET_MMS_OK), true).unwrap());
    assert!(probe_exists(RET_MMS_OK, read(RET_MMS_READ_EXCEED), true).unwrap());
    assert!(!probe_exists(RET_MMS_OK, read(RET_MMS_NOT_FOUND), true).unwrap());
    assert!(!probe_exists(RET_MMS_OK, read(RET_MMS_MISS), true).unwrap());
    assert_eq!(
        probe_exists(RET_MMS_OK, read(RET_MMS_BUSY), true)
            .unwrap_err()
            .describe(),
        "MemStore unavailable: existence probe returned MemStore status 4 (serviceable=true)"
    );
    assert_eq!(
        probe_exists(RET_MMS_OK, Vec::new(), true)
            .unwrap_err()
            .describe(),
        "MemStore operation failed: MemStore existence probe returned no item"
    );

    assert!(health_check(RET_MMS_OK, read(RET_MMS_NOT_FOUND), true).is_ok());
    assert!(health_check(RET_MMS_OK, read(RET_MMS_READ_EXCEED), true).is_ok());
    let mut replaced = read(RET_MMS_OK);
    replaced[0].caller_buffer_preserved = false;
    assert_eq!(
        health_check(RET_MMS_OK, replaced, true).unwrap_err().describe(),
        "MemStore operation failed: MemStore health check replaced a caller-owned read buffer"
    );
    assert_eq!(
        health_check(RET_MMS_OK, Vec::new(), true)
            .unwrap_err()
            .describe(),
        "MemStore operation failed: MemStore health read returned no item"
    );
}

#[test]
fn probes_read_no_more_than_a_header() {
    let call = plan_probe(HEALTH_KEY).unwrap();
    assert_eq!(
        call.keys,
        vec!["ovms:health:reserved-never-written:v1".to_string()]
    );
    assert_eq!(call.buffer_sizes, vec![9]);
    assert_eq!(plan_probe(&"k".repeat(128)).unwrap().keys[0].len(), 71);
    assert!(plan_probe("").is_err());
}

#[test]
fn planned_buffers_take_all_regions() {
    let keys = vec!["a".to_owned(), "b".to_owned(), "c".to_owned()];
    let sizes = vec![3, 0, 30];
    let total = plan_read(keys.len(), &sizes).unwrap().unwrap();
    let mut buffer = vec![9u8; total];
    let mut scratch = RawGetScratch::new();
    scratch.prepare(&keys, &sizes, &mut buffer).unwrap();
    assert_eq!(scratch.offsets, vec![0, 3, 3]);
    assert!(buffer[..12].iter().all(|byte| *byte == 0));
    assert!(buffer[12..].iter().all(|byte| *byte == 9));
    scratch.clear();
    assert!(scratch.offsets.is_empty());
    assert!(scratch.results.is_empty());
}

#[test]
fn single_operations_take_the_last_result() {
    assert_eq!(only_item(vec![Ok(1), Ok(2)], "get").unwrap(), 2);
    assert_eq!(
        only_item::<u8>(Vec::new(), "set").unwrap_err().describe(),
        "MemStore operation failed: MemStore set returned no item"
    );
}

#[test]
fn runtime_leases_are_counted_and_the_last_one_shuts_down() {
    let config = MemStoreConfig::default();
    let mut state = RuntimeState::Uninitialized;
    assert!(matches!(state.acquire(&config), AcquireStep::Initialize));
    assert!(state
        .complete_initialize(&config, RET_MMS_NOT_READY, false)
        .is_err());
    assert!(matches!(state.acquire(&config), AcquireStep::Initialize));
    assert!(state.complete_initialize(&config, RET_MMS_OK, true).is_ok());
    assert!(matches!(state.acquire(&config), AcquireStep::Done(Ok(()))));

    let mut different = config.clone();
    different.net_connect_count += 1;
    match state.acquire(&different) {
        AcquireStep::Done(Err(error)) => assert_eq!(
            error.describe(),
            "MemStore unavailable: MemStore runtime is already initialized with different options"
        ),
        _ => panic!("different options were accepted"),
    }

    assert!(matches!(state.release(), ReleaseStep::Done(Ok(()))));
    assert!(matches!(state.release(), ReleaseStep::Exit));
    assert!(matches!(state.release(), ReleaseStep::Done(Ok(()))));
    match state.acquire(&config) {
        AcquireStep::Done(Err(error)) => assert_eq!(
            error.describe(),
            "MemStore unavailable: MemStore runtime was permanently closed in this process"
        ),
        _ => panic!("a closed runtime was leased"),
    }
}

#[test]
fn releases_without_a_lease_are_refused() {
    let mut state = RuntimeState::Uninitialized;
    match state.release() {
        ReleaseStep::Done(Err(error)) => assert_eq!(
            error.describe(),
            "MemStore operation failed: MemStore runtime lease released before initialization"
        ),
        _ => panic!("a release without a lease was accepted"),
    }
    let config = MemStoreConfig::default();
    assert_eq!(
        state
            .complete_initialize(&config, RET_MMS_NOT_READY, false)
            .unwrap_err()
            .describe(),
        "MemStore unavailable: initialize returned MemStore status 6 (serviceable=false)"
    );
}
