use bytes::Bytes;
use ragfs_cache_memstore::error::{CacheError, MemStoreStoreError};
use ragfs_cache_memstore::provider::{
    begin_batch, candidate_keys, capabilities, collect_values, name, settle_batch_failure,
    settle_batch_put, settle_delete, settle_flush, settle_invalidate, settle_put,
};
use ragfs_cache_memstore::tracker::{FlushCandidate, KeyTracker, TrackedKey};

fn keys(names: &[&str]) -> Vec<String> {
    names.iter().map(|name| name.to_string()).collect()
}

fn known(tracker: &KeyTracker) -> Vec<String> {
    let mut names = candidate_keys(&tracker.flush_candidates());
    names.sort();
    names
}

fn failed(text: &str) -> Result<(), MemStoreStoreError> {
    Err(MemStoreStoreError::Unavailable(text.into()))
}

#[test]
fn name_and_capabilities() {
    assert_eq!(name(), "memstore");
    let capabilities = capabilities();
    assert!(capabilities.batch_get);
    assert!(capabilities.batch_put);
    assert!(!capabilities.native_ttl);
}

#[test]
fn writes_are_tracked_until_deleted() {
    let mut tracker = KeyTracker::new();
    assert!(tracker.can_begin("a"));
    tracker.begin_write("a");
    assert_eq!(
        tracker.find("a"),
        Some(TrackedKey {
            confirmed: false,
            pending_writes: 1,
            generation: 1
        })
    );
    settle_put(&mut tracker, "a", &Ok(()));
    assert_eq!(
        tracker.find("a"),
        Some(TrackedKey {
            confirmed: true,
            pending_writes: 0,
            generation: 1
        })
    );
    settle_delete(
        &mut tracker,
        "a",
        &Err(CacheError::Unavailable("down".into())),
    );
    assert_eq!(known(&tracker), keys(&["a"]));
    settle_delete(&mut tracker, "a", &Ok(()));
    assert!(known(&tracker).is_empty());
}

#[test]
fn failed_writes_leave_no_trace_but_timed_out_ones_do() {
    let mut tracker = KeyTracker::new();
    tracker.begin_write("failed");
    settle_put(
        &mut tracker,
        "failed",
        &Err(CacheError::Internal("x".into())),
    );
    assert!(known(&tracker).is_empty());

    tracker.begin_write("late");
    settle_put(&mut tracker, "late", &Err(CacheError::Timeout("x".into())));
    assert_eq!(known(&tracker), keys(&["late"]));
    settle_delete(&mut tracker, "late", &Ok(()));
    assert_eq!(known(&tracker), keys(&["late"]));
}

#[test]
fn a_failed_overwrite_keeps_the_first_write() {
    let mut tracker = KeyTracker::new();
    tracker.begin_write("a");
    tracker.complete_write("a", true);
    tracker.begin_write("a");
    tracker.complete_write("a", false);
    assert_eq!(
        tracker.find("a"),
        Some(TrackedKey {
            confirmed: true,
            pending_writes: 0,
            generation: 2
        })
    );
}

#[test]
fn completions_of_unknown_keys_change_nothing() {
    let mut tracker = KeyTracker::new();
    tracker.complete_write("x", true);
    tracker.complete_delete("x");
    tracker.complete_flush(&FlushCandidate {
        key: "x".into(),
        generation: 5,
    });
    assert!(known(&tracker).is_empty());
    assert_eq!(tracker.find("x"), None);
}

#[test]
fn a_write_after_the_snapshot_survives_the_flush() {
    let mut tracker = KeyTracker::new();
    for key in ["a", "b", "c"] {
        tracker.begin_write(key);
        tracker.complete_write(key, true);
    }
    let candidates = tracker.flush_candidates();
    assert_eq!(candidates.len(), 3);
    tracker.begin_write("b");
    tracker.complete_write("b", true);

    let outcomes = candidates.iter().map(|_| Ok(())).collect();
    assert!(settle_flush(&mut tracker, &candidates, outcomes).is_ok());
    assert_eq!(known(&tracker), keys(&["b"]));
}

#[test]
fn keys_stay_findable_when_others_are_dropped() {
    let mut tracker = KeyTracker::new();
    for index in 0..20 {
        let key = format!("key-{index}");
        tracker.begin_write(&key);
        tracker.complete_write(&key, true);
    }
    for index in (0..20).step_by(2) {
        tracker.complete_delete(&format!("key-{index}"));
    }
    for index in 0..20 {
        let found = tracker.find(&format!("key-{index}"));
        if index % 2 == 0 {
            assert_eq!(found, None);
        } else {
            assert_eq!(found.unwrap().generation, index + 1);
        }
    }
    assert_eq!(known(&tracker).len(), 10);
}

#[test]
fn partial_batches_track_what_was_written_and_answer_the_first_error() {
    let mut tracker = KeyTracker::new();
    let batch = keys(&["first", "failed", "third", "also-failed"]);
    assert!(begin_batch(&mut tracker, &batch));
    let answer = settle_batch_put(
        &mut tracker,
        &batch,
        vec![Ok(()), failed("one"), Ok(()), failed("two")],
    );
    match answer {
        Err(CacheError::Unavailable(message)) => assert_eq!(message, "one"),
        other => panic!("unexpected {other:?}"),
    }
    assert_eq!(known(&tracker), keys(&["first", "third"]));
}

#[test]
fn a_batch_keeps_what_was_tracked_before_it() {
    let mut tracker = KeyTracker::new();
    let earlier = keys(&["kept", "written", "other", "waiting"]);
    assert!(begin_batch(&mut tracker, &earlier[..3]));
    settle_batch_put(&mut tracker, &earlier[..3], vec![Ok(()), Ok(()), Ok(())]).unwrap();
    assert!(begin_batch(&mut tracker, &earlier[3..]));
    let other = tracker.find("other");

    let batch = keys(&["kept", "written", "waiting", "new", "failed"]);
    assert!(begin_batch(&mut tracker, &batch));
    let outcomes = vec![
        failed("kept"),
        Ok(()),
        failed("waiting"),
        Ok(()),
        failed("failed"),
    ];
    assert!(settle_batch_put(&mut tracker, &batch, outcomes).is_err());
    for name in ["kept", "written", "waiting", "new"] {
        assert!(tracker.find(name).is_some(), "{name}");
    }
    assert!(tracker.find("failed").is_none());
    assert_eq!(tracker.find("other"), other);
    assert_eq!(tracker.find("waiting").unwrap().pending_writes, 1);
}

#[test]
fn failed_batches_are_forgotten_unless_they_timed_out() {
    let batch = keys(&["a", "b"]);
    let mut tracker = KeyTracker::new();
    assert!(begin_batch(&mut tracker, &batch));
    settle_batch_failure(
        &mut tracker,
        &batch,
        &CacheError::InvalidArgument("x".into()),
    );
    assert!(known(&tracker).is_empty());

    assert!(begin_batch(&mut tracker, &batch));
    settle_batch_failure(&mut tracker, &batch, &CacheError::Timeout("x".into()));
    assert_eq!(known(&tracker), batch);
}

#[test]
fn the_same_key_twice_in_a_batch_is_counted_twice() {
    let mut tracker = KeyTracker::new();
    let batch = keys(&["a", "a"]);
    assert!(begin_batch(&mut tracker, &batch));
    assert_eq!(tracker.find("a").unwrap().pending_writes, 2);
    assert!(settle_batch_put(&mut tracker, &batch, vec![Ok(()), failed("x")]).is_err());
    assert_eq!(
        tracker.find("a"),
        Some(TrackedKey {
            confirmed: true,
            pending_writes: 0,
            generation: 2
        })
    );
}

#[test]
fn partial_deletes_keep_only_the_failed_keys() {
    let mut tracker = KeyTracker::new();
    let batch = keys(&["first", "failed", "third"]);
    assert!(begin_batch(&mut tracker, &batch));
    assert!(settle_batch_put(&mut tracker, &batch, vec![Ok(()), Ok(()), Ok(())]).is_ok());
    let answer = settle_invalidate(&mut tracker, &batch, vec![Ok(()), failed("no"), Ok(())]);
    match answer {
        Err(CacheError::Unavailable(message)) => assert_eq!(message, "no"),
        other => panic!("unexpected {other:?}"),
    }
    assert_eq!(known(&tracker), keys(&["failed"]));
}

#[test]
fn a_flush_keeps_what_it_could_not_delete() {
    let mut tracker = KeyTracker::new();
    let batch = keys(&["a", "b"]);
    assert!(begin_batch(&mut tracker, &batch));
    assert!(settle_batch_put(&mut tracker, &batch, vec![Ok(()), Ok(())]).is_ok());
    let candidates = tracker.flush_candidates();
    let kept = candidates[1].key.clone();
    assert!(settle_flush(&mut tracker, &candidates, vec![Ok(()), failed("no")]).is_err());
    assert_eq!(known(&tracker), vec![kept]);
}

#[test]
fn batch_reads_give_all_values_or_the_first_error() {
    let values = collect_values(vec![
        Ok(Some(Bytes::from_static(b"x"))),
        Ok(None),
    ])
    .unwrap();
    assert_eq!(values, vec![Some(Bytes::from_static(b"x")), None]);
    match collect_values(vec![
        Ok(None),
        Err(MemStoreStoreError::InvalidData("bad".into())),
        Err(MemStoreStoreError::Internal("worse".into())),
    ]) {
        Err(CacheError::InvalidData(message)) => assert_eq!(message, "bad"),
        other => panic!("unexpected {other:?}"),
    }
}
