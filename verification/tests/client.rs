use ragfs_cache_memstore::call::{
    answer, shutdown_answer, CallAction, CallEvent, CallKind, Product, StoreCall,
};
use ragfs_cache_memstore::client::{
    check_batch, check_entries, check_entry, check_key, validate_batch_len, validate_payload,
    ShutdownState,
};
use ragfs_cache_memstore::error::{
    clone_cache_result, map_store_error, CacheError, CacheResult, MemStoreStoreError,
};
use ragfs_cache_memstore::keys::{cache_key, is_ragfs_directory_key, stable_hash};
use ragfs_cache_memstore::mutation::plan_replace;
use ragfs_cache_memstore::yuanrong::{
    check_stores, map_store_error as map_yuanrong_error, next_in_walk, repeated_close,
    StoreRotation, WalkStep, YuanrongStoreError,
};

fn call(kind: CallKind, operation: &str) -> StoreCall {
    StoreCall::new(Product::MemStore, kind, operation, 30, 4)
}

fn text(error: CacheError) -> String {
    match error {
        CacheError::Unavailable(message) => format!("unavailable: {message}"),
        CacheError::Timeout(message) => format!("timeout: {message}"),
        CacheError::InvalidArgument(message) => format!("argument: {message}"),
        CacheError::InvalidData(message) => format!("data: {message}"),
        CacheError::Internal(message) => format!("internal: {message}"),
    }
}

fn failure<T>(action: CallAction<T>) -> String {
    match action {
        CallAction::Fail(error) => text(error),
        _ => panic!("the call did not fail"),
    }
}

fn running(kind: CallKind, operation: &str) -> StoreCall {
    let mut call = call(kind, operation);
    call.step::<u8>(CallEvent::Start { closed: false });
    call.step::<u8>(CallEvent::Permit {
        granted: true,
        closed: false,
    });
    call.step::<u8>(CallEvent::Store { present: true });
    call
}

#[test]
fn a_call_runs_with_a_permit_and_a_store() {
    let mut call = call(CallKind::Operation, "get");
    assert!(matches!(
        call.step::<u8>(CallEvent::Start { closed: false }),
        CallAction::AcquirePermits(1)
    ));
    assert!(matches!(
        call.step::<u8>(CallEvent::Permit {
            granted: true,
            closed: false
        }),
        CallAction::FetchStore
    ));
    assert!(matches!(
        call.step::<u8>(CallEvent::Store { present: true }),
        CallAction::RunCall
    ));
    assert!(matches!(
        call.step(CallEvent::Returned(Ok(7u8))),
        CallAction::Return(7)
    ));
    assert!(matches!(
        call.step::<u8>(CallEvent::TimedOut),
        CallAction::Nothing
    ));
}

#[test]
fn a_closed_client_refuses_before_and_after_the_wait() {
    let mut first = call(CallKind::Operation, "get");
    assert_eq!(
        failure(first.step::<u8>(CallEvent::Start { closed: true })),
        "unavailable: MemStore provider is closed"
    );
    let mut second = call(CallKind::Operation, "get");
    second.step::<u8>(CallEvent::Start { closed: false });
    assert_eq!(
        failure(second.step::<u8>(CallEvent::Permit {
            granted: true,
            closed: true
        })),
        "unavailable: MemStore provider is closed"
    );
    let mut third = call(CallKind::Operation, "get");
    third.step::<u8>(CallEvent::Start { closed: false });
    assert_eq!(
        failure(third.step::<u8>(CallEvent::Permit {
            granted: false,
            closed: false
        })),
        "unavailable: MemStore client is closing"
    );
    let mut fourth = call(CallKind::Operation, "get");
    fourth.step::<u8>(CallEvent::Start { closed: false });
    fourth.step::<u8>(CallEvent::Permit {
        granted: true,
        closed: false,
    });
    assert_eq!(
        failure(fourth.step::<u8>(CallEvent::Store { present: false })),
        "unavailable: MemStore store was released"
    );
}

#[test]
fn failures_of_running_calls() {
    assert_eq!(
        failure(running(CallKind::Operation, "get").step::<u8>(CallEvent::TimedOut)),
        "timeout: MemStore get exceeded 30 ms"
    );
    assert_eq!(
        failure(running(CallKind::Operation, "set").step::<u8>(CallEvent::TaskFailed("x".into()))),
        "internal: MemStore set blocking task failed: x"
    );
    assert_eq!(
        failure(running(CallKind::Flush, "flush").step::<u8>(CallEvent::TaskFailed("x".into()))),
        "internal: MemStore flush task failed: x"
    );
    assert_eq!(
        failure(
            running(CallKind::Operation, "get").step::<u8>(CallEvent::Returned(Err(
                CacheError::InvalidData("d".into())
            )))
        ),
        "data: d"
    );
}

#[test]
fn waiting_is_timed_for_operations_only() {
    let mut operation = call(CallKind::Operation, "get");
    operation.step::<u8>(CallEvent::Start { closed: false });
    assert_eq!(
        failure(operation.step::<u8>(CallEvent::TimedOut)),
        "timeout: MemStore get exceeded 30 ms"
    );
    let mut flush = call(CallKind::Flush, "flush");
    flush.step::<u8>(CallEvent::Start { closed: false });
    assert!(matches!(
        flush.step::<u8>(CallEvent::TimedOut),
        CallAction::Nothing
    ));
}

#[test]
fn flush_and_shutdown_take_all_permits() {
    let mut flush = call(CallKind::Flush, "flush");
    assert!(matches!(
        flush.step::<()>(CallEvent::Start { closed: false }),
        CallAction::AcquirePermits(4)
    ));
    let mut shutdown = call(CallKind::Shutdown, "shutdown");
    assert!(matches!(
        shutdown.step::<()>(CallEvent::Start { closed: true }),
        CallAction::AcquirePermits(4)
    ));
    assert!(matches!(
        shutdown.step::<()>(CallEvent::Permit {
            granted: true,
            closed: true
        }),
        CallAction::FetchStore
    ));
    assert!(matches!(
        shutdown.step::<()>(CallEvent::Store { present: false }),
        CallAction::Skip
    ));
}

#[test]
fn yuanrong_calls_have_their_own_messages() {
    let mut call = StoreCall::new(Product::Yuanrong, CallKind::OnStore, "health_check", 5, 4);
    call.step::<u8>(CallEvent::Start { closed: false });
    assert!(matches!(
        call.step::<u8>(CallEvent::Permit {
            granted: true,
            closed: false
        }),
        CallAction::RunCall
    ));
    assert_eq!(
        failure(call.step::<u8>(CallEvent::TimedOut)),
        "timeout: Yuanrong health_check exceeded 5 ms"
    );
    let mut call = StoreCall::new(Product::Yuanrong, CallKind::Operation, "get", 5, 4);
    call.step::<u8>(CallEvent::Start { closed: false });
    call.step::<u8>(CallEvent::Permit {
        granted: true,
        closed: false,
    });
    assert_eq!(
        failure(call.step::<u8>(CallEvent::Store { present: false })),
        "unavailable: Yuanrong KV client has been released"
    );
    let mut call = StoreCall::new(Product::Yuanrong, CallKind::Operation, "get", 5, 4);
    assert_eq!(
        failure(call.step::<u8>(CallEvent::Start { closed: true })),
        "unavailable: Yuanrong provider is closed"
    );
}

#[test]
fn keys_and_payloads_are_checked_before_the_store_is_called() {
    assert!(check_key("k").is_ok());
    assert_eq!(
        text(check_key("").unwrap_err()),
        "argument: MemStore cache key must not be empty"
    );
    assert!(validate_payload(&[0; 16], 16).is_ok());
    assert_eq!(
        text(validate_payload(&[0; 17], 16).unwrap_err()),
        "argument: MemStore payload is 17 bytes, exceeding the 16 byte limit"
    );
    assert_eq!(
        text(check_entry("", &[0; 17], 16).unwrap_err()),
        "argument: MemStore cache key must not be empty"
    );
}

#[test]
fn batches_are_checked_as_a_whole() {
    assert!(!check_batch(&[]).unwrap());
    assert!(check_batch(&["a".to_string()]).unwrap());
    assert!(check_batch(&["a".to_string(), String::new()]).is_err());

    assert!(!check_entries(&[], 4).unwrap());
    assert!(check_entries(&[("a".to_string(), vec![0; 4])], 4).unwrap());
    assert_eq!(
        text(
            check_entries(
                &[("a".to_string(), vec![0; 5]), (String::new(), Vec::new())],
                4
            )
            .unwrap_err()
        ),
        "argument: MemStore payload is 5 bytes, exceeding the 4 byte limit"
    );

    assert!(validate_batch_len("batch_get", 2, 2).is_ok());
    assert_eq!(
        text(validate_batch_len("batch_get", 12, 3).unwrap_err()),
        "internal: MemStore batch_get returned 3 item results for 12 inputs"
    );
}

#[test]
fn checked_entries_can_be_prepared() {
    let entries = vec![
        ("a".to_string(), vec![1; 4]),
        ("b".repeat(300), Vec::new()),
    ];
    assert!(check_entries(&entries, 4).unwrap());
    assert!(plan_replace(&entries, 4).unwrap().is_some());
}

#[test]
fn one_closer_runs_the_shutdown_and_all_get_its_result() {
    let mut state = ShutdownState::new();
    assert!(!state.is_closed());
    assert!(state.poll().is_none());
    assert!(state.close());
    assert!(!state.close());
    assert!(state.is_closed());
    state.finish(Err(CacheError::Timeout("late".into())));
    for _ in 0..2 {
        match state.poll() {
            Some(Err(CacheError::Timeout(message))) => assert_eq!(message, "late"),
            _ => panic!("the result was lost"),
        }
    }
    assert!(!state.close());
    assert!(state.is_closed());
}

#[test]
fn closing_many_times_shuts_the_store_down_once_and_refuses_later_calls() {
    let mut state = ShutdownState::new();
    let mut waiting = call(CallKind::Operation, "get");
    assert!(matches!(
        waiting.step::<u8>(CallEvent::Start {
            closed: state.is_closed()
        }),
        CallAction::AcquirePermits(1)
    ));

    let firsts = (0..5).filter(|_| state.close()).count();
    assert_eq!(firsts, 1);

    assert_eq!(
        failure(waiting.step::<u8>(CallEvent::Permit {
            granted: true,
            closed: state.is_closed()
        })),
        "unavailable: MemStore provider is closed"
    );
    for kind in [CallKind::Operation, CallKind::OnStore, CallKind::Flush] {
        let mut late = call(kind, "late");
        assert_eq!(
            failure(late.step::<u8>(CallEvent::Start {
                closed: state.is_closed()
            })),
            "unavailable: MemStore provider is closed"
        );
        assert!(matches!(
            late.step::<u8>(CallEvent::Permit {
                granted: true,
                closed: state.is_closed()
            }),
            CallAction::Nothing
        ));
    }

    let mut shutdown = running(CallKind::Shutdown, "shutdown");
    let action = shutdown.step(CallEvent::Returned(Err(CacheError::Internal("down".into()))));
    state.finish(shutdown_answer(action));
    for _ in 0..3 {
        assert!(!state.close());
        assert_eq!(
            text(state.poll().unwrap().unwrap_err()),
            "internal: down"
        );
    }
}

#[test]
fn actions_stand_for_answers() {
    assert_eq!(answer(CallAction::Return(7)).unwrap(), 7);
    assert_eq!(
        text(answer::<u8>(CallAction::Fail(CacheError::Timeout("t".into()))).unwrap_err()),
        "timeout: t"
    );
    assert_eq!(
        text(answer::<u8>(CallAction::Skip).unwrap_err()),
        "internal: store call ended without an answer"
    );
    assert!(shutdown_answer(CallAction::Skip).is_ok());
    assert!(shutdown_answer(CallAction::Return(())).is_ok());
    assert_eq!(
        text(shutdown_answer(CallAction::Fail(CacheError::Internal("f".into()))).unwrap_err()),
        "internal: f"
    );
    assert_eq!(
        text(shutdown_answer(CallAction::Nothing).unwrap_err()),
        "internal: store call ended without an answer"
    );
}

fn walk(outcomes: Vec<CacheResult<()>>) -> (Vec<usize>, CacheResult<()>) {
    let stores = outcomes.len();
    let mut outcomes = outcomes.into_iter();
    let mut called = Vec::new();
    let mut last = Ok(());
    loop {
        match next_in_walk(called.len(), stores, last) {
            WalkStep::Call(index) => {
                called.push(index);
                last = outcomes.next().unwrap();
            }
            WalkStep::Finished(result) => return (called, result),
        }
    }
}

#[test]
fn walks_call_the_stores_in_order_and_stop_at_the_first_failure() {
    let (called, result) = walk(vec![Ok(()), Ok(()), Ok(())]);
    assert_eq!(called, vec![0, 1, 2]);
    assert!(result.is_ok());

    let (called, result) = walk(vec![
        Ok(()),
        Err(CacheError::Timeout("second".into())),
        Err(CacheError::Internal("third".into())),
    ]);
    assert_eq!(called, vec![0, 1]);
    assert_eq!(text(result.unwrap_err()), "timeout: second");

    let (called, result) = walk(Vec::new());
    assert!(called.is_empty());
    assert!(result.is_ok());
}

#[test]
fn closing_a_yuanrong_client_twice_shuts_its_stores_down_once() {
    let mut state = ShutdownState::new();
    assert!(repeated_close(state.close()).is_none());

    let outcomes = vec![
        Ok(()),
        Err(YuanrongStoreError::Unavailable("gone".into())),
        Ok(()),
    ];
    let (called, result) = walk(
        outcomes
            .into_iter()
            .map(|outcome| outcome.map_err(map_yuanrong_error))
            .collect(),
    );
    assert_eq!(called, vec![0, 1]);
    let mut shutdown = StoreCall::new(Product::Yuanrong, CallKind::Shutdown, "shutdown", 30, 4);
    assert!(matches!(
        shutdown.step::<()>(CallEvent::Start { closed: true }),
        CallAction::AcquirePermits(4)
    ));
    assert!(matches!(
        shutdown.step::<()>(CallEvent::Permit {
            granted: true,
            closed: true
        }),
        CallAction::FetchStore
    ));
    assert!(matches!(
        shutdown.step::<()>(CallEvent::Store { present: true }),
        CallAction::RunCall
    ));
    let action = shutdown.step(CallEvent::Returned(result));
    assert_eq!(
        text(shutdown_answer(action).unwrap_err()),
        "unavailable: gone"
    );

    for _ in 0..2 {
        match repeated_close(state.close()) {
            Some(answer) => assert!(answer.is_ok()),
            None => panic!("a second shutdown was asked for"),
        }
        for kind in [CallKind::Operation, CallKind::OnStore] {
            let mut late = StoreCall::new(Product::Yuanrong, kind, "get", 30, 4);
            assert_eq!(
                failure(late.step::<u8>(CallEvent::Start {
                    closed: state.is_closed()
                })),
                "unavailable: Yuanrong provider is closed"
            );
        }
    }
}

#[test]
fn a_client_without_stores_has_been_released() {
    assert_eq!(
        text(check_stores(0).unwrap_err()),
        "unavailable: Yuanrong KV client has been released"
    );
    assert!(check_stores(1).is_ok());
}

#[test]
fn errors_keep_their_class_and_message() {
    assert_eq!(
        text(map_store_error(MemStoreStoreError::Unavailable("a".into()))),
        "unavailable: a"
    );
    assert_eq!(
        text(map_store_error(MemStoreStoreError::Timeout("b".into()))),
        "timeout: b"
    );
    assert_eq!(
        text(map_store_error(MemStoreStoreError::InvalidArgument("c".into()))),
        "argument: c"
    );
    assert_eq!(
        text(map_store_error(MemStoreStoreError::InvalidData("d".into()))),
        "data: d"
    );
    assert_eq!(
        text(map_store_error(MemStoreStoreError::Internal("e".into()))),
        "internal: e"
    );
    assert_eq!(
        text(map_yuanrong_error(YuanrongStoreError::InvalidArgument("f".into()))),
        "argument: f"
    );
    assert_eq!(
        text(map_yuanrong_error(YuanrongStoreError::Unavailable("g".into()))),
        "unavailable: g"
    );
    assert_eq!(
        text(map_yuanrong_error(YuanrongStoreError::Timeout("h".into()))),
        "timeout: h"
    );
    assert_eq!(
        text(map_yuanrong_error(YuanrongStoreError::Internal("i".into()))),
        "internal: i"
    );
    assert_eq!(
        MemStoreStoreError::Timeout("b".into()).describe(),
        "MemStore operation timed out: b"
    );
    for error in [
        CacheError::Unavailable("u".into()),
        CacheError::InvalidArgument("v".into()),
        CacheError::InvalidData("w".into()),
        CacheError::Internal("x".into()),
    ] {
        let result = Err(error);
        let copy = clone_cache_result(&result);
        assert_eq!(text(copy.unwrap_err()), text(result.unwrap_err()));
    }
    assert!(clone_cache_result(&Ok(())).is_ok());
}

#[test]
fn calls_are_spread_evenly_over_the_stores() {
    let mut rotation = StoreRotation::new();
    let mut counts = vec![0; 4];
    for _ in 0..8 {
        counts[rotation.next_store(4).unwrap()] += 1;
    }
    assert_eq!(counts, vec![2, 2, 2, 2]);
    assert_eq!(rotation.next_store(0), None);
    assert_eq!(rotation.next_store(3), Some(2));
    assert_eq!(rotation.next_store(3), Some(0));
}

#[test]
fn hashes_and_keys_are_stable() {
    assert_eq!(stable_hash(b""), 0xcbf29ce484222325);
    assert_eq!(stable_hash(b"a"), 0xaf63dc4c8601ec8c);
    assert_eq!(stable_hash(b"foobar"), 0x85944171f73967e8);

    let expected = format!("ragfs:v2:ns:file:{:016x}", stable_hash(b"/a/b"));
    assert_eq!(cache_key("ns", "file", "/a/b"), expected);
    assert_eq!(cache_key("ns", "file", "a/b"), expected);
    assert_eq!(cache_key("ns", "file", "//a/b//"), expected);
    let root = format!("ragfs:v2:ns:dir:{:016x}", stable_hash(b"/"));
    assert_eq!(cache_key("ns", "dir", "/"), root);
    assert_eq!(cache_key("ns", "dir", ""), root);
    assert_eq!(cache_key("ns", "dir", "///"), root);
}

#[test]
fn directory_keys_are_recognized() {
    assert!(is_ragfs_directory_key("ragfs:v2:ns:dir:0123"));
    assert!(is_ragfs_directory_key("ragfs:v2::dir:"));
    assert!(is_ragfs_directory_key(&cache_key("n\u{e9}s", "dir", "/x")));
    assert!(!is_ragfs_directory_key(&cache_key("ns", "file", "/x")));
    assert!(!is_ragfs_directory_key("ragfs:v2:dir:0123"));
    assert!(!is_ragfs_directory_key("ragfs:v1:ns:dir:0123"));
    assert!(!is_ragfs_directory_key("xragfs:v2:ns:dir:0123"));
    assert!(!is_ragfs_directory_key("ragfs:v2:ns:xdir:0123"));
    assert!(!is_ragfs_directory_key("ragfs:v2:ns:dir:01:23"));
    assert!(!is_ragfs_directory_key("ragfs:v2:ns:dir"));
    assert!(!is_ragfs_directory_key("plain"));
    assert!(!is_ragfs_directory_key(""));
}
