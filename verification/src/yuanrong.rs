//! The Yuanrong side: its store errors, how calls are spread over its stores, and how it is closed.

use crate::call;
use crate::call::Product;
use crate::client;
use crate::error;
use crate::error::{CacheError, CacheResult, ErrorKind, Failure};
use crate::provider;
use vstd::prelude::*;

verus! {

/// Errors returned by a Yuanrong KV store.
#[derive(Debug)]
pub enum YuanrongStoreError {
    Unavailable(String),
    Timeout(String),
    InvalidArgument(String),
    Internal(String),
}

impl View for YuanrongStoreError {
    type V = Failure;

    open spec fn view(&self) -> Failure {
        match self {
            YuanrongStoreError::Unavailable(message) => error::failure(
                ErrorKind::Unavailable,
                message@,
            ),
            YuanrongStoreError::Timeout(message) => error::failure(ErrorKind::Timeout, message@),
            YuanrongStoreError::InvalidArgument(message) => error::failure(
                ErrorKind::InvalidArgument,
                message@,
            ),
            YuanrongStoreError::Internal(message) => error::failure(ErrorKind::Internal, message@),
        }
    }
}

/// Carries a store error over to the cache contract: same class, same message.
pub fn map_store_error(error: YuanrongStoreError) -> (mapped: CacheError)
    ensures
        mapped@ == error@,
{
    match error {
        YuanrongStoreError::Unavailable(message) => CacheError::Unavailable(message),
        YuanrongStoreError::Timeout(message) => CacheError::Timeout(message),
        YuanrongStoreError::InvalidArgument(message) => CacheError::InvalidArgument(message),
        YuanrongStoreError::Internal(message) => CacheError::Internal(message),
    }
}

/// The store that a call with this number goes to.
pub open spec fn store_for(number: nat, stores: nat) -> nat {
    number % stores
}

/// Which of several stores the calls go to: one after the other, and then from the start.
pub struct StoreRotation {
    next: usize,
}

impl StoreRotation {
    /// The number of the next call.
    pub closed spec fn number(self) -> nat {
        self.next as nat
    }

    /// A rotation that starts with the first store.
    pub fn new() -> (rotation: Self)
        ensures
            rotation.number() == 0,
    {
        StoreRotation { next: 0 }
    }

    /// The store for the next call, or nothing where there are no stores. The numbers of the calls
    /// wrap around.
    pub fn next_store(&mut self, stores: usize) -> (store: Option<usize>)
        ensures
            stores == 0 ==> store is None && final(self).number() == old(self).number(),
            stores > 0 ==> {
                &&& store matches Some(index)
                &&& index == store_for(old(self).number(), stores as nat)
                &&& final(self).number() == if old(self).number() == usize::MAX {
                    0
                } else {
                    old(self).number() + 1
                }
            },
    {
        if stores == 0 {
            return None;
        }
        let index: usize = self.next % stores;
        self.next = self.next.wrapping_add(1);
        Some(index)
    }
}

// Walks over all stores.

/// What a walk over the stores does next.
pub enum WalkVerdict {
    /// Call the store with this index.
    Call(nat),
    /// The walk has ended.
    Finished(Result<(), Failure>),
}

/// What a walk over the stores does next, on executable values.
pub enum WalkStep {
    /// Call the store with this index.
    Call(usize),
    /// The walk has ended.
    Finished(CacheResult<()>),
}

impl View for WalkStep {
    type V = WalkVerdict;

    open spec fn view(&self) -> WalkVerdict {
        match *self {
            WalkStep::Call(index) => WalkVerdict::Call(index as nat),
            WalkStep::Finished(result) => WalkVerdict::Finished(error::settled(result)),
        }
    }
}

/// What a walk does after `done` of `stores` stores, the last of which answered `last`.
pub open spec fn walk_verdict(done: nat, stores: nat, last: Result<(), Failure>) -> WalkVerdict {
    match last {
        Err(failure) => WalkVerdict::Finished(Err(failure)),
        Ok(_) => if done < stores {
            WalkVerdict::Call(done)
        } else {
            WalkVerdict::Finished(Ok(()))
        },
    }
}

/// What a walk over the stores does after `done` of them, the last of which answered `last`. A
/// walk starts with `Ok`, goes in order, and stops at the first failure.
pub fn next_in_walk(done: usize, stores: usize, last: CacheResult<()>) -> (step: WalkStep)
    ensures
        step@ == walk_verdict(done as nat, stores as nat, error::settled(last)),
{
    match last {
        Err(error) => WalkStep::Finished(Err(error)),
        Ok(_) => if done < stores {
            WalkStep::Call(done)
        } else {
            WalkStep::Finished(Ok(()))
        },
    }
}

/// Refuses a walk over no stores, which is how a released client is found out.
pub fn check_stores(stores: usize) -> (checked: CacheResult<()>)
    ensures
        error::settled(checked) == if stores == 0 {
            Err::<(), Failure>(call::released_failure(Product::Yuanrong))
        } else {
            Ok(())
        },
{
    if stores == 0 {
        Err(CacheError::Unavailable("Yuanrong KV client has been released".to_owned()))
    } else {
        Ok(())
    }
}

// Closing.

/// What a request to close is answered at once: nothing where it is the first one, which has to
/// shut the stores down, and success where it is not.
pub open spec fn immediate_answer(first: bool) -> Option<Result<(), Failure>> {
    if first {
        None
    } else {
        Some(Ok(()))
    }
}

/// What a request to close is answered at once, where it is not the first one.
pub fn repeated_close(first: bool) -> (answer: Option<CacheResult<()>>)
    ensures
        client::known(answer) == immediate_answer(first),
{
    if first {
        None
    } else {
        Some(Ok(()))
    }
}

// Laws.

/// What the answers of stores mean to the cache.
pub open spec fn store_answers(outcomes: Seq<Result<(), YuanrongStoreError>>) -> Seq<
    Result<(), Failure>,
> {
    outcomes.map_values(
        |outcome: Result<(), YuanrongStoreError>|
            match outcome {
                Ok(_) => Ok::<(), Failure>(()),
                Err(error) => Err(error@),
            },
    )
}

/// The answer of a walk over stores that would give these outcomes, and the stores that it has
/// called, where it goes on after these calls with the last answer `last`.
pub open spec fn walked(
    outcomes: Seq<Result<(), Failure>>,
    calls: Seq<nat>,
    last: Result<(), Failure>,
) -> (Result<(), Failure>, Seq<nat>)
    decreases outcomes.len() - calls.len(),
{
    match walk_verdict(calls.len(), outcomes.len(), last) {
        WalkVerdict::Finished(result) => (result, calls),
        WalkVerdict::Call(index) => if calls.len() < outcomes.len() {
            walked(outcomes, calls.push(index), outcomes[index as int])
        } else {
            (last, calls)
        },
    }
}

/// The answer of a whole walk, and the stores that it has called.
pub open spec fn whole_walk(outcomes: Seq<Result<(), Failure>>) -> (
    Result<(), Failure>,
    Seq<nat>,
) {
    walked(outcomes, Seq::empty(), Ok(()))
}

/// The first `count` stores, in order.
pub open spec fn first_stores(count: nat) -> Seq<nat> {
    Seq::new(count, |i: int| i as nat)
}

/// Whether this is the answer of the first store that fails, or success where none does, and
/// these are the stores up to that one, or all, in order.
pub open spec fn ends_at_first_failure(
    outcomes: Seq<Result<(), Failure>>,
    answer: Result<(), Failure>,
    calls: Seq<nat>,
) -> bool {
    &&& answer == provider::first_failure(outcomes)
    &&& calls == first_stores(calls.len())
    &&& calls.len() <= outcomes.len()
    &&& answer is Ok ==> calls.len() == outcomes.len()
    &&& answer is Err ==> calls.len() > 0 && outcomes[calls.len() - 1] == answer
    &&& forall|i: int|
        0 <= i < calls.len() && !(answer is Err && i == calls.len() - 1) ==> (
        #[trigger] outcomes[i]) is Ok
}

/// A walk goes in order, answers with the first failure, has called every store before it and
/// none behind it, and has called all stores where none failed.
pub proof fn a_walk_stops_at_the_first_failure(outcomes: Seq<Result<(), Failure>>)
    ensures
        ends_at_first_failure(outcomes, whole_walk(outcomes).0, whole_walk(outcomes).1),
{
    assert(first_stores(0) =~= Seq::empty());
    walk_from(outcomes, 0);
}

proof fn walk_from(outcomes: Seq<Result<(), Failure>>, done: nat)
    requires
        done <= outcomes.len(),
        forall|i: int| 0 <= i < done ==> (#[trigger] outcomes[i]) is Ok,
    ensures
        ({
            let (answer, calls) = walked(outcomes, first_stores(done), Ok(()));
            ends_at_first_failure(outcomes, answer, calls)
        }),
    decreases outcomes.len() - done,
{
    provider::success_means_all_succeeded(outcomes);
    if done < outcomes.len() {
        let next = outcomes[done as int];
        let calls = first_stores(done + 1);
        assert(first_stores(done).push(done) =~= calls);
        if next is Ok {
            walk_from(outcomes, done + 1);
            assert(walked(outcomes, calls, next) == walked(outcomes, calls, Ok(())));
        } else {
            failure_behind(outcomes, done);
            assert(walked(outcomes, calls, next) == (next, calls));
        }
    } else {
        let all = provider::first_failure(outcomes);
        assert(all is Ok);
        let nothing: () = all->Ok_0;
        assert(nothing == ());
    }
}

proof fn failure_behind(outcomes: Seq<Result<(), Failure>>, at: nat)
    requires
        at < outcomes.len(),
        outcomes[at as int] is Err,
        forall|i: int| 0 <= i < at ==> (#[trigger] outcomes[i]) is Ok,
    ensures
        provider::first_failure(outcomes) == outcomes[at as int],
    decreases outcomes.len(),
{
    let front = outcomes.drop_last();
    if at < front.len() {
        assert forall|i: int| 0 <= i < at implies (#[trigger] front[i]) is Ok by {
            assert(front[i] == outcomes[i]);
        }
        failure_behind(front, at);
    } else {
        provider::success_means_all_succeeded(front);
        assert forall|i: int| 0 <= i < front.len() implies (#[trigger] front[i]) is Ok by {
            assert(front[i] == outcomes[i]);
        }
    }
}

/// Every store is picked.
pub proof fn picked_stores_exist(number: nat, stores: nat)
    requires
        stores > 0,
    ensures
        store_for(number, stores) < stores,
{
    vstd::arithmetic::div_mod::lemma_mod_bound(number as int, stores as int);
}

/// The place of a store in the round that starts with call `start`.
pub open spec fn turn_of(store: nat, start: nat, stores: nat) -> int {
    if store >= start % stores {
        store - start % stores
    } else {
        store - start % stores + stores
    }
}

/// Of as many consecutive calls as there are stores, each store gets exactly one.
pub proof fn each_store_gets_one_call_in_a_round(start: nat, stores: nat, store: nat, place: int)
    requires
        store < stores,
        0 <= place < stores,
    ensures
        0 <= turn_of(store, start, stores) < stores,
        store_for((start + place) as nat, stores) == store <==> place == turn_of(
            store,
            start,
            stores,
        ),
{
    let n = stores as int;
    let r = start as int % n;
    let q = start as int / n;
    vstd::arithmetic::div_mod::lemma_fundamental_div_mod(start as int, n);
    vstd::arithmetic::div_mod::lemma_mod_bound(start as int, n);
    assert(n * q == q * n) by (nonlinear_arith);
    if r + place < n {
        vstd::arithmetic::div_mod::lemma_fundamental_div_mod_converse(
            start + place,
            n,
            q,
            r + place,
        );
    } else {
        assert((q + 1) * n == q * n + n) by (nonlinear_arith);
        vstd::arithmetic::div_mod::lemma_fundamental_div_mod_converse(
            start + place,
            n,
            q + 1,
            r + place - n,
        );
    }
}

/// How many of the `count` calls from number `start` on go to `store`.
pub open spec fn calls_to(store: nat, start: nat, stores: nat, count: nat) -> nat
    decreases count,
{
    if count == 0 {
        0
    } else {
        calls_to(store, start, stores, (count - 1) as nat) + if store_for(
            (start + count - 1) as nat,
            stores,
        ) == store {
            1nat
        } else {
            0nat
        }
    }
}

/// Over whole rounds all stores get the same number of calls.
pub proof fn calls_are_spread_evenly(store: nat, start: nat, stores: nat, rounds: nat)
    requires
        store < stores,
    ensures
        calls_to(store, start, stores, stores * rounds) == rounds,
    decreases rounds,
{
    if rounds == 0 {
        assert(stores * rounds == 0) by (nonlinear_arith)
            requires
                rounds == 0,
        ;
    } else {
        let before = (rounds - 1) as nat;
        assert(stores * rounds == stores * before + stores) by (nonlinear_arith)
            requires
                rounds == before + 1,
        ;
        calls_are_spread_evenly(store, start, stores, before);
        calls_add_up(store, start, stores, stores * before, stores);
        one_round(store, start + stores * before, stores, stores);
    }
}

proof fn calls_add_up(store: nat, start: nat, stores: nat, first: nat, second: nat)
    ensures
        calls_to(store, start, stores, first + second) == calls_to(store, start, stores, first)
            + calls_to(store, start + first, stores, second),
    decreases second,
{
    if second > 0 {
        calls_add_up(store, start, stores, first, (second - 1) as nat);
        assert(start + first + second - 1 == start + (first + second) - 1);
    }
}

proof fn one_round(store: nat, start: nat, stores: nat, count: nat)
    requires
        store < stores,
        count <= stores,
    ensures
        calls_to(store, start, stores, count) == if turn_of(store, start, stores) < count {
            1nat
        } else {
            0nat
        },
    decreases count,
{
    if count > 0 {
        one_round(store, start, stores, (count - 1) as nat);
        each_store_gets_one_call_in_a_round(start, stores, store, count - 1);
    } else {
        each_store_gets_one_call_in_a_round(start, stores, store, 0);
    }
}

/// Every store error says its own class and its own message.
pub proof fn store_errors_say_what_they_are(text: String)
    ensures
        YuanrongStoreError::Unavailable(text)@ == error::failure(ErrorKind::Unavailable, text@),
        YuanrongStoreError::Timeout(text)@ == error::failure(ErrorKind::Timeout, text@),
        YuanrongStoreError::InvalidArgument(text)@ == error::failure(
            ErrorKind::InvalidArgument,
            text@,
        ),
        YuanrongStoreError::Internal(text)@ == error::failure(ErrorKind::Internal, text@),
{
}

/// A walk calls the next store exactly where the last one succeeded and one is left, and ends with
/// the failure of the last one, or with success.
pub proof fn a_walk_goes_on_only_after_success(done: nat, stores: nat, last: Result<(), Failure>)
    ensures
        walk_verdict(done, stores, last) is Call <==> last is Ok && done < stores,
        walk_verdict(done, stores, last) matches WalkVerdict::Call(index) ==> index == done,
        last matches Err(failure) ==> walk_verdict(done, stores, last) == WalkVerdict::Finished(
            Err(failure),
        ),
        last is Ok && done >= stores ==> walk_verdict(done, stores, last) == WalkVerdict::Finished(
            Ok(()),
        ),
{
}

} // verus!
