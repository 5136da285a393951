//! What a cache provider makes of the outcomes of its store calls.

use crate::error;
use crate::error::{CacheError, CacheResult, ErrorKind, Failure, MemStoreItemResult};
use crate::frame;
use crate::mutation;
use crate::read_session;
use crate::tracker;
use crate::tracker::{CandidateView, FlushCandidate, KeyTracker, TrackerView};
use bytes::Bytes;
use vstd::prelude::*;

verus! {

/// The name that the provider goes by.
pub const PROVIDER_NAME: &'static str = "memstore";

/// What a provider can do beyond single operations.
#[derive(Debug, Clone, Copy, PartialEq, Eq, Structural)]
pub struct ProviderCapabilities {
    pub batch_get: bool,
    pub batch_put: bool,
    pub native_ttl: bool,
}

/// The name that the provider goes by.
pub fn name() -> (name: &'static str)
    ensures
        name@ == "memstore"@,
{
    PROVIDER_NAME
}

/// Batches are passed on as such; values do not expire.
pub fn capabilities() -> (capabilities: ProviderCapabilities)
    ensures
        capabilities == (ProviderCapabilities {
            batch_get: true,
            batch_put: true,
            native_ttl: false,
        }),
{
    ProviderCapabilities { batch_get: true, batch_put: true, native_ttl: false }
}

/// Whether the outcome of an operation is unknown: it timed out and may still take effect.
pub open spec fn is_open(outcome: Result<(), Failure>) -> bool {
    outcome matches Err(failure) && failure.kind == ErrorKind::Timeout
}

/// Whether an error says that an operation timed out.
pub fn is_timeout(error: &CacheError) -> (timeout: bool)
    ensures
        timeout == (error@.kind == ErrorKind::Timeout),
{
    match error {
        CacheError::Timeout(_) => true,
        _ => false,
    }
}

/// The first failure, if there is one.
pub open spec fn first_failure(outcomes: Seq<Result<(), Failure>>) -> Result<(), Failure>
    decreases outcomes.len(),
{
    if outcomes.len() == 0 {
        Ok(())
    } else if first_failure(outcomes.drop_last()) is Err {
        first_failure(outcomes.drop_last())
    } else {
        outcomes.last()
    }
}

// Single operations.

/// The tracker after a write with this outcome. A write that timed out may still succeed, so it
/// stays under way.
pub open spec fn put_settled(
    tracker: TrackerView,
    key: Seq<char>,
    outcome: Result<(), Failure>,
) -> TrackerView {
    if is_open(outcome) {
        tracker
    } else {
        tracker.written(key, outcome is Ok)
    }
}

/// Takes in the outcome of a write.
pub fn settle_put(tracker: &mut KeyTracker, key: &str, outcome: &CacheResult<()>)
    requires
        old(tracker).well_formed(),
    ensures
        final(tracker).well_formed(),
        final(tracker)@ == put_settled(old(tracker)@, key@, error::settled(*outcome)),
{
    match outcome {
        Ok(_) => tracker.complete_write(key, true),
        Err(error) => {
            if !is_timeout(error) {
                tracker.complete_write(key, false);
            }
        },
    }
}

/// Takes in the outcome of a delete.
pub fn settle_delete(tracker: &mut KeyTracker, key: &str, outcome: &CacheResult<()>)
    requires
        old(tracker).well_formed(),
    ensures
        final(tracker).well_formed(),
        final(tracker)@ == if outcome is Ok {
            old(tracker)@.deleted(key@)
        } else {
            old(tracker)@
        },
{
    match outcome {
        Ok(_) => tracker.complete_delete(key),
        Err(_) => {},
    }
}

// Batch writes.

/// Whether the starts of writes of the first `count` keys can all be counted.
pub open spec fn can_begin_all(tracker: TrackerView, keys: Seq<Seq<char>>, count: nat) -> bool
    decreases count,
{
    count == 0 || (can_begin_all(tracker, keys, (count - 1) as nat) && batch_begun(
        tracker,
        keys,
        (count - 1) as nat,
    ).can_begin(keys[count - 1]))
}

/// The tracker after the starts of writes of the first `count` keys.
pub open spec fn batch_begun(tracker: TrackerView, keys: Seq<Seq<char>>, count: nat) -> TrackerView
    decreases count,
{
    if count == 0 {
        tracker
    } else {
        batch_begun(tracker, keys, (count - 1) as nat).begun(keys[count - 1])
    }
}

/// Counts the starts of writes of all keys. Stops, with `false`, where one cannot be counted.
pub fn begin_batch(tracker: &mut KeyTracker, keys: &[String]) -> (begun: bool)
    requires
        old(tracker).well_formed(),
    ensures
        final(tracker).well_formed(),
        begun == can_begin_all(old(tracker)@, frame::texts(keys@), keys@.len()),
        begun ==> final(tracker)@ == batch_begun(
            old(tracker)@,
            frame::texts(keys@),
            keys@.len(),
        ),
        !begun ==> exists|done: nat|
            done < keys@.len() && can_begin_all(old(tracker)@, frame::texts(keys@), done)
                && !can_begin_all(old(tracker)@, frame::texts(keys@), done + 1) && final(tracker)@
                == #[trigger] batch_begun(old(tracker)@, frame::texts(keys@), done),
{
    let ghost texts = frame::texts(keys@);
    let mut index: usize = 0;
    while index < keys.len()
        invariant
            texts == frame::texts(keys@),
            index <= keys@.len(),
            tracker.well_formed(),
            can_begin_all(old(tracker)@, texts, index as nat),
            tracker@ == batch_begun(old(tracker)@, texts, index as nat),
        decreases keys@.len() - index,
    {
        if !tracker.can_begin(keys[index].as_str()) {
            proof {
                refusal_stays(old(tracker)@, texts, (index + 1) as nat, keys@.len());
            }
            return false;
        }
        tracker.begin_write(keys[index].as_str());
        index = index + 1;
    }
    true
}

proof fn refusal_stays(tracker: TrackerView, keys: Seq<Seq<char>>, from: nat, to: nat)
    requires
        from <= to,
        !can_begin_all(tracker, keys, from),
    ensures
        !can_begin_all(tracker, keys, to),
    decreases to - from,
{
    if from < to {
        refusal_stays(tracker, keys, from + 1, to);
    }
}

/// The tracker after the first `count` writes of a batch have ended with these outcomes.
pub open spec fn batch_settled(
    tracker: TrackerView,
    keys: Seq<Seq<char>>,
    outcomes: Seq<Result<(), Failure>>,
    count: nat,
) -> TrackerView
    decreases count,
{
    if count == 0 {
        tracker
    } else {
        batch_settled(tracker, keys, outcomes, (count - 1) as nat).written(
            keys[count - 1],
            outcomes[count - 1] is Ok,
        )
    }
}

/// How many keys have an outcome.
pub open spec fn paired(keys: nat, outcomes: nat) -> nat {
    if keys < outcomes {
        keys
    } else {
        outcomes
    }
}

/// Takes in the outcomes of a batch write, one for each key, and answers with the first error.
pub fn settle_batch_put(
    tracker: &mut KeyTracker,
    keys: &[String],
    outcomes: Vec<MemStoreItemResult<()>>,
) -> (answer: CacheResult<()>)
    requires
        old(tracker).well_formed(),
    ensures
        final(tracker).well_formed(),
        ({
            let count = paired(keys@.len(), outcomes@.len());
            let views = mutation::done_views(outcomes@);
            &&& final(tracker)@ == batch_settled(
                old(tracker)@,
                frame::texts(keys@),
                views,
                count,
            )
            &&& error::settled(answer) == first_failure(views.take(count as int))
        }),
{
    let ghost texts = frame::texts(keys@);
    let ghost views = mutation::done_views(outcomes@);
    let mut first_error: Option<CacheError> = None;
    let mut index: usize = 0;
    for outcome in it: outcomes
        invariant
            it.seq() == outcomes@,
            texts == frame::texts(keys@),
            views == mutation::done_views(outcomes@),
            index == paired(keys@.len(), it.index() as nat),
            tracker.well_formed(),
            tracker@ == batch_settled(old(tracker)@, texts, views, index as nat),
            first_failure(views.take(index as int)) == (match first_error {
                Some(error) => Err::<(), Failure>(error@),
                None => Ok(()),
            }),
    {
        if index < keys.len() {
            assert(views[index as int] == error::settled(outcome));
            assert(views.take(index + 1).drop_last() =~= views.take(index as int));
            match outcome {
                Ok(_) => tracker.complete_write(keys[index].as_str(), true),
                Err(error) => {
                    tracker.complete_write(keys[index].as_str(), false);
                    if first_error.is_none() {
                        first_error = Some(error::map_store_error(error));
                    }
                },
            }
            index = index + 1;
        }
    }
    match first_error {
        Some(error) => Err(error),
        None => Ok(()),
    }
}

/// The tracker after a batch write failed as a whole with this error.
pub open spec fn batch_failed(
    tracker: TrackerView,
    keys: Seq<Seq<char>>,
    failure: Failure,
) -> TrackerView {
    if failure.kind == ErrorKind::Timeout {
        tracker
    } else {
        batch_settled(
            tracker,
            keys,
            Seq::new(keys.len(), |i: int| Err::<(), Failure>(failure)),
            keys.len(),
        )
    }
}

/// Takes in that a batch write failed as a whole. After a timeout all its writes stay under way.
pub fn settle_batch_failure(tracker: &mut KeyTracker, keys: &[String], error: &CacheError)
    requires
        old(tracker).well_formed(),
    ensures
        final(tracker).well_formed(),
        final(tracker)@ == batch_failed(old(tracker)@, frame::texts(keys@), error@),
{
    if is_timeout(error) {
        return;
    }
    let ghost texts = frame::texts(keys@);
    let ghost outcomes = Seq::new(texts.len(), |i: int| Err::<(), Failure>(error@));
    let mut index: usize = 0;
    while index < keys.len()
        invariant
            texts == frame::texts(keys@),
            outcomes == Seq::new(texts.len(), |i: int| Err::<(), Failure>(error@)),
            index <= keys@.len(),
            tracker.well_formed(),
            tracker@ == batch_settled(old(tracker)@, texts, outcomes, index as nat),
        decreases keys@.len() - index,
    {
        tracker.complete_write(keys[index].as_str(), false);
        index = index + 1;
    }
}

// Batch deletes.

/// The tracker after the first `count` deletes of a batch have ended with these outcomes.
pub open spec fn deletes_settled(
    tracker: TrackerView,
    keys: Seq<Seq<char>>,
    outcomes: Seq<Result<(), Failure>>,
    count: nat,
) -> TrackerView
    decreases count,
{
    if count == 0 {
        tracker
    } else {
        let before = deletes_settled(tracker, keys, outcomes, (count - 1) as nat);
        if outcomes[count - 1] is Ok {
            before.deleted(keys[count - 1])
        } else {
            before
        }
    }
}

/// Takes in the outcomes of a batch delete, one for each key, and answers with the first error.
pub fn settle_invalidate(
    tracker: &mut KeyTracker,
    keys: &[String],
    outcomes: Vec<MemStoreItemResult<()>>,
) -> (answer: CacheResult<()>)
    requires
        old(tracker).well_formed(),
    ensures
        final(tracker).well_formed(),
        ({
            let count = paired(keys@.len(), outcomes@.len());
            let views = mutation::done_views(outcomes@);
            &&& final(tracker)@ == deletes_settled(
                old(tracker)@,
                frame::texts(keys@),
                views,
                count,
            )
            &&& error::settled(answer) == first_failure(views.take(count as int))
        }),
{
    let ghost texts = frame::texts(keys@);
    let ghost views = mutation::done_views(outcomes@);
    let mut first_error: Option<CacheError> = None;
    let mut index: usize = 0;
    for outcome in it: outcomes
        invariant
            it.seq() == outcomes@,
            texts == frame::texts(keys@),
            views == mutation::done_views(outcomes@),
            index == paired(keys@.len(), it.index() as nat),
            tracker.well_formed(),
            tracker@ == deletes_settled(old(tracker)@, texts, views, index as nat),
            first_failure(views.take(index as int)) == (match first_error {
                Some(error) => Err::<(), Failure>(error@),
                None => Ok(()),
            }),
    {
        if index < keys.len() {
            assert(views[index as int] == error::settled(outcome));
            assert(views.take(index + 1).drop_last() =~= views.take(index as int));
            match outcome {
                Ok(_) => tracker.complete_delete(keys[index].as_str()),
                Err(error) => {
                    if first_error.is_none() {
                        first_error = Some(error::map_store_error(error));
                    }
                },
            }
            index = index + 1;
        }
    }
    match first_error {
        Some(error) => Err(error),
        None => Ok(()),
    }
}

// Flushes.

/// The keys that a flush deletes.
pub fn candidate_keys(candidates: &[FlushCandidate]) -> (keys: Vec<String>)
    ensures
        frame::texts(keys@) == Seq::new(
            candidates@.len(),
            |i: int| tracker::candidate_views(candidates@)[i].key,
        ),
{
    let mut keys: Vec<String> = Vec::new();
    let mut index: usize = 0;
    while index < candidates.len()
        invariant
            index <= candidates@.len(),
            keys@.len() == index,
            forall|i: int| 0 <= i < index ==> (#[trigger] keys@[i])@ == candidates@[i].key@,
        decreases candidates@.len() - index,
    {
        keys.push(candidates[index].key.clone());
        index = index + 1;
    }
    assert(frame::texts(keys@) =~= Seq::new(
        candidates@.len(),
        |i: int| tracker::candidate_views(candidates@)[i].key,
    ));
    keys
}

/// The tracker after the first `count` deletes of a flush have ended with these outcomes.
pub open spec fn flush_settled(
    tracker: TrackerView,
    candidates: Seq<CandidateView>,
    outcomes: Seq<Result<(), Failure>>,
    count: nat,
) -> TrackerView
    decreases count,
{
    if count == 0 {
        tracker
    } else {
        let before = flush_settled(tracker, candidates, outcomes, (count - 1) as nat);
        if outcomes[count - 1] is Ok {
            before.flushed(candidates[count - 1])
        } else {
            before
        }
    }
}

/// Takes in the outcomes of a flush, one for each candidate, and answers with the first error.
pub fn settle_flush(
    tracker: &mut KeyTracker,
    candidates: &[FlushCandidate],
    outcomes: Vec<MemStoreItemResult<()>>,
) -> (answer: CacheResult<()>)
    requires
        old(tracker).well_formed(),
    ensures
        final(tracker).well_formed(),
        ({
            let count = paired(candidates@.len(), outcomes@.len());
            let views = mutation::done_views(outcomes@);
            &&& final(tracker)@ == flush_settled(
                old(tracker)@,
                tracker::candidate_views(candidates@),
                views,
                count,
            )
            &&& error::settled(answer) == first_failure(views.take(count as int))
        }),
{
    let ghost wanted = tracker::candidate_views(candidates@);
    let ghost views = mutation::done_views(outcomes@);
    let mut first_error: Option<CacheError> = None;
    let mut index: usize = 0;
    for outcome in it: outcomes
        invariant
            it.seq() == outcomes@,
            wanted == tracker::candidate_views(candidates@),
            views == mutation::done_views(outcomes@),
            index == paired(candidates@.len(), it.index() as nat),
            tracker.well_formed(),
            tracker@ == flush_settled(old(tracker)@, wanted, views, index as nat),
            first_failure(views.take(index as int)) == (match first_error {
                Some(error) => Err::<(), Failure>(error@),
                None => Ok(()),
            }),
    {
        if index < candidates.len() {
            assert(views[index as int] == error::settled(outcome));
            assert(views.take(index + 1).drop_last() =~= views.take(index as int));
            match outcome {
                Ok(_) => tracker.complete_flush(&candidates[index]),
                Err(error) => {
                    if first_error.is_none() {
                        first_error = Some(error::map_store_error(error));
                    }
                },
            }
            index = index + 1;
        }
    }
    match first_error {
        Some(error) => Err(error),
        None => Ok(()),
    }
}

// Batch reads.

/// The values of a batch read, or its first error.
pub open spec fn values_of(answers: Seq<read_session::ReadAnswer>) -> Result<
    Seq<Option<Seq<u8>>>,
    Failure,
>
    decreases answers.len(),
{
    if answers.len() == 0 {
        Ok(Seq::empty())
    } else {
        match values_of(answers.drop_last()) {
            Err(failure) => Err(failure),
            Ok(values) => match answers.last() {
                Ok(value) => Ok(values.push(value)),
                Err(failure) => Err(failure),
            },
        }
    }
}

/// The contents of a list of values.
pub open spec fn value_views(values: Seq<Option<Bytes>>) -> Seq<Option<Seq<u8>>> {
    Seq::new(
        values.len(),
        |i: int|
            match values[i] {
                Some(value) => Some(crate::outside::content(value)),
                None => None,
            },
    )
}

/// The values of a batch read, or its first error.
pub fn collect_values(answers: Vec<MemStoreItemResult<Option<Bytes>>>) -> (values: CacheResult<
    Vec<Option<Bytes>>,
>)
    ensures
        match values_of(read_session::answer_views(answers@)) {
            Ok(expected) => values matches Ok(got) && value_views(got@) == expected,
            Err(failure) => values matches Err(error) && error@ == failure,
        },
{
    let ghost views = read_session::answer_views(answers@);
    let mut values: Vec<Option<Bytes>> = Vec::new();
    assert(views.take(0) =~= Seq::empty());
    assert(value_views(values@) =~= Seq::empty());
    for answer in it: answers
        invariant
            it.seq() == answers@,
            views == read_session::answer_views(answers@),
            values_of(views.take(it.index() as int)) == Ok::<Seq<Option<Seq<u8>>>, Failure>(
                value_views(values@),
            ),
    {
        let ghost at = it.index() as int;
        assert(views.take(at + 1).drop_last() =~= views.take(at));
        assert(views.take(at + 1).last() == read_session::answer_view(answer));
        match answer {
            Ok(value) => {
                let ghost before = value_views(values@);
                values.push(value);
                assert(value_views(values@) =~= before.push(
                    match value {
                        Some(bytes) => Some(crate::outside::content(bytes)),
                        None => None,
                    },
                ));
            },
            Err(error) => {
                proof {
                    first_error_decides(views, at + 1);
                }
                return Err(error::map_store_error(error));
            },
        }
    }
    assert(views.take(views.len() as int) =~= views);
    Ok(values)
}

proof fn first_error_decides(answers: Seq<read_session::ReadAnswer>, count: int)
    requires
        0 <= count <= answers.len(),
        values_of(answers.take(count)) is Err,
    ensures
        values_of(answers) == values_of(answers.take(count)),
    decreases answers.len() - count,
{
    if count < answers.len() {
        assert(answers.take(count + 1).drop_last() =~= answers.take(count));
        first_error_decides(answers, count + 1);
    } else {
        assert(answers.take(count) =~= answers);
    }
}

// Laws.

/// A batch is answered with success exactly where all its items succeeded.
pub proof fn success_means_all_succeeded(outcomes: Seq<Result<(), Failure>>)
    ensures
        first_failure(outcomes) is Ok <==> forall|i: int|
            0 <= i < outcomes.len() ==> (#[trigger] outcomes[i]) is Ok,
        first_failure(outcomes) is Err ==> outcomes.contains(first_failure(outcomes)),
    decreases outcomes.len(),
{
    if outcomes.len() > 0 {
        let front = outcomes.drop_last();
        success_means_all_succeeded(front);
        if first_failure(front) is Err {
            let i = choose|i: int| 0 <= i < front.len() && front[i] == first_failure(front);
            assert(outcomes[i] == first_failure(outcomes));
        } else {
            assert forall|i: int|
                first_failure(outcomes) is Ok && 0 <= i < outcomes.len() implies (
            #[trigger] outcomes[i]) is Ok by {
                if i < front.len() {
                    assert(front[i] is Ok);
                }
            }
            if first_failure(outcomes) is Err {
                assert(outcomes[outcomes.len() - 1] == first_failure(outcomes));
            }
            if forall|i: int| 0 <= i < outcomes.len() ==> (#[trigger] outcomes[i]) is Ok {
                assert(outcomes[outcomes.len() - 1] is Ok);
            }
        }
        if first_failure(front) is Err {
            let i = choose|i: int| 0 <= i < front.len() && (#[trigger] front[i]) is Err;
            assert(outcomes[i] is Err);
        }
    }
}

/// A write that timed out keeps its key tracked until the write is seen to end, a flush deletes
/// the key, or both.
pub proof fn a_timed_out_write_stays_tracked(
    tracker: TrackerView,
    key: Seq<char>,
    outcome: Result<(), Failure>,
)
    requires
        tracker.can_begin(key),
        is_open(outcome),
    ensures
        put_settled(tracker.begun(key), key, outcome).entries.contains_key(key),
        put_settled(tracker.begun(key), key, outcome).entries[key].pending_writes > 0,
{
}

/// After a write and its outcome, the key is tracked where the write succeeded, and forgotten
/// where it failed for good and nothing else keeps it.
pub proof fn tracking_follows_the_outcome(
    tracker: TrackerView,
    key: Seq<char>,
    outcome: Result<(), Failure>,
)
    requires
        tracker.can_begin(key),
        !tracker.entries.contains_key(key),
    ensures
        put_settled(tracker.begun(key), key, outcome).entries.contains_key(key) <==> (outcome
            is Ok || is_open(outcome)),
{
}

/// After a batch write of different keys, a key of the batch is tracked exactly where it was
/// tracked before or its write succeeded.
pub proof fn a_batch_tracks_what_was_written(
    tracker: TrackerView,
    keys: Seq<Seq<char>>,
    outcomes: Seq<Result<(), Failure>>,
    index: int,
)
    requires
        tracker.well_formed(),
        keys.len() == outcomes.len(),
        0 <= index < keys.len(),
        can_begin_all(tracker, keys, keys.len()),
        forall|i: int, j: int|
            0 <= i < j < keys.len() ==> (#[trigger] keys[i]) != (#[trigger] keys[j]),
    ensures
        batch_settled(
            batch_begun(tracker, keys, keys.len()),
            keys,
            outcomes,
            keys.len(),
        ).entries.contains_key(keys[index]) <==> tracker.entries.contains_key(keys[index])
            || outcomes[index] is Ok,
{
    let begun = batch_begun(tracker, keys, keys.len());
    begun_once(tracker, keys, keys.len(), index);
    settled_once(begun, keys, outcomes, keys.len(), index);
}

/// A batch write changes nothing of what is known of a key that is not in the batch.
pub proof fn a_batch_leaves_other_keys(
    tracker: TrackerView,
    keys: Seq<Seq<char>>,
    outcomes: Seq<Result<(), Failure>>,
    other: Seq<char>,
)
    requires
        keys.len() == outcomes.len(),
        !keys.contains(other),
    ensures
        ({
            let after = batch_settled(
                batch_begun(tracker, keys, keys.len()),
                keys,
                outcomes,
                keys.len(),
            );
            &&& after.entries.contains_key(other) == tracker.entries.contains_key(other)
            &&& after.known(other) == tracker.known(other)
        }),
{
    let begun = batch_begun(tracker, keys, keys.len());
    others_while_begun(tracker, keys, keys.len(), other);
    others_while_settled(begun, keys, outcomes, keys.len(), other);
}

proof fn others_while_begun(
    tracker: TrackerView,
    keys: Seq<Seq<char>>,
    count: nat,
    other: Seq<char>,
)
    requires
        count <= keys.len(),
        !keys.contains(other),
    ensures
        batch_begun(tracker, keys, count).entries.contains_key(other)
            == tracker.entries.contains_key(other),
        batch_begun(tracker, keys, count).known(other) == tracker.known(other),
    decreases count,
{
    if count > 0 {
        others_while_begun(tracker, keys, (count - 1) as nat, other);
        assert(keys.contains(keys[count - 1]));
    }
}

proof fn others_while_settled(
    tracker: TrackerView,
    keys: Seq<Seq<char>>,
    outcomes: Seq<Result<(), Failure>>,
    count: nat,
    other: Seq<char>,
)
    requires
        count <= keys.len() == outcomes.len(),
        !keys.contains(other),
    ensures
        batch_settled(tracker, keys, outcomes, count).entries.contains_key(other)
            == tracker.entries.contains_key(other),
        batch_settled(tracker, keys, outcomes, count).known(other) == tracker.known(other),
    decreases count,
{
    if count > 0 {
        others_while_settled(tracker, keys, outcomes, (count - 1) as nat, other);
        assert(keys.contains(keys[count - 1]));
    }
}

proof fn begun_once(tracker: TrackerView, keys: Seq<Seq<char>>, count: nat, index: int)
    requires
        count <= keys.len(),
        0 <= index < keys.len(),
        can_begin_all(tracker, keys, count),
        forall|i: int, j: int|
            0 <= i < j < keys.len() ==> (#[trigger] keys[i]) != (#[trigger] keys[j]),
    ensures
        ({
            let after = batch_begun(tracker, keys, count);
            let before = tracker.known(keys[index]);
            if index < count {
                &&& after.entries.contains_key(keys[index])
                &&& after.known(keys[index]).confirmed == before.confirmed
                &&& after.known(keys[index]).pending_writes == before.pending_writes + 1
            } else {
                &&& after.entries.contains_key(keys[index]) == tracker.entries.contains_key(
                    keys[index],
                )
                &&& after.known(keys[index]) == before
            }
        }),
    decreases count,
{
    if count > 0 {
        begun_once(tracker, keys, (count - 1) as nat, index);
        assert(keys[count - 1] == keys[index] <==> count - 1 == index);
    }
}

proof fn settled_once(
    tracker: TrackerView,
    keys: Seq<Seq<char>>,
    outcomes: Seq<Result<(), Failure>>,
    count: nat,
    index: int,
)
    requires
        count <= keys.len() == outcomes.len(),
        0 <= index < keys.len(),
        tracker.entries.contains_key(keys[index]),
        tracker.known(keys[index]).pending_writes > 0,
        forall|i: int, j: int|
            0 <= i < j < keys.len() ==> (#[trigger] keys[i]) != (#[trigger] keys[j]),
    ensures
        ({
            let after = batch_settled(tracker, keys, outcomes, count);
            let before = tracker.known(keys[index]);
            if index < count {
                after.entries.contains_key(keys[index]) <==> (before.confirmed
                    || before.pending_writes > 1 || outcomes[index] is Ok)
            } else {
                after.entries.contains_key(keys[index]) && after.known(keys[index]) == before
            }
        }),
    decreases count,
{
    if count > 0 {
        settled_once(tracker, keys, outcomes, (count - 1) as nat, index);
        assert(keys[count - 1] == keys[index] <==> count - 1 == index);
    }
}

/// Of a batch delete of different keys without writes under way, exactly the keys whose delete
/// failed are tracked afterwards.
pub proof fn a_batch_delete_keeps_what_it_could_not_delete(
    tracker: TrackerView,
    keys: Seq<Seq<char>>,
    outcomes: Seq<Result<(), Failure>>,
    index: int,
)
    requires
        keys.len() == outcomes.len(),
        0 <= index < keys.len(),
        tracker.entries.contains_key(keys[index]),
        tracker.entries[keys[index]].pending_writes == 0,
        forall|i: int, j: int|
            0 <= i < j < keys.len() ==> (#[trigger] keys[i]) != (#[trigger] keys[j]),
    ensures
        deletes_settled(tracker, keys, outcomes, keys.len()).entries.contains_key(keys[index])
            <==> outcomes[index] is Err,
{
    deleted_once(tracker, keys, outcomes, keys.len(), index);
}

proof fn deleted_once(
    tracker: TrackerView,
    keys: Seq<Seq<char>>,
    outcomes: Seq<Result<(), Failure>>,
    count: nat,
    index: int,
)
    requires
        count <= keys.len() == outcomes.len(),
        0 <= index < keys.len(),
        tracker.entries.contains_key(keys[index]),
        tracker.entries[keys[index]].pending_writes == 0,
        forall|i: int, j: int|
            0 <= i < j < keys.len() ==> (#[trigger] keys[i]) != (#[trigger] keys[j]),
    ensures
        ({
            let after = deletes_settled(tracker, keys, outcomes, count);
            if index < count && outcomes[index] is Ok {
                !after.entries.contains_key(keys[index])
            } else {
                after.entries.contains_key(keys[index]) && after.known(keys[index])
                    == tracker.known(keys[index])
            }
        }),
    decreases count,
{
    if count > 0 {
        deleted_once(tracker, keys, outcomes, (count - 1) as nat, index);
        assert(keys[count - 1] == keys[index] <==> count - 1 == index);
    }
}

/// A flush that deleted all its candidates, with nothing written since it looked, leaves no key
/// tracked.
pub proof fn a_complete_flush_forgets_all(
    tracker: TrackerView,
    candidates: Seq<CandidateView>,
    outcomes: Seq<Result<(), Failure>>,
)
    requires
        tracker.listed(candidates),
        outcomes.len() == candidates.len(),
        forall|i: int| 0 <= i < outcomes.len() ==> (#[trigger] outcomes[i]) is Ok,
    ensures
        forall|key: Seq<char>|
            !(#[trigger] flush_settled(
                tracker,
                candidates,
                outcomes,
                candidates.len(),
            ).entries.contains_key(key)),
{
    flush_forgets_the_front(tracker, candidates, outcomes, candidates.len());
}

proof fn flush_forgets_the_front(
    tracker: TrackerView,
    candidates: Seq<CandidateView>,
    outcomes: Seq<Result<(), Failure>>,
    count: nat,
)
    requires
        tracker.listed(candidates),
        count <= outcomes.len() == candidates.len(),
        forall|i: int| 0 <= i < outcomes.len() ==> (#[trigger] outcomes[i]) is Ok,
    ensures
        ({
            let after = flush_settled(tracker, candidates, outcomes, count);
            forall|key: Seq<char>| #[trigger]
                after.entries.contains_key(key) ==> {
                    &&& tracker.entries.contains_key(key)
                    &&& after.entries[key] == tracker.entries[key]
                    &&& forall|i: int| 0 <= i < count ==> (#[trigger] candidates[i]).key != key
                }
        }),
    decreases count,
{
    if count > 0 {
        flush_forgets_the_front(tracker, candidates, outcomes, (count - 1) as nat);
        let before = flush_settled(tracker, candidates, outcomes, (count - 1) as nat);
        let after = flush_settled(tracker, candidates, outcomes, count);
        let candidate = candidates[count - 1];
        assert(outcomes[count - 1] is Ok);
        assert forall|key: Seq<char>| #[trigger] after.entries.contains_key(key) implies {
            &&& tracker.entries.contains_key(key)
            &&& after.entries[key] == tracker.entries[key]
            &&& forall|i: int| 0 <= i < count ==> (#[trigger] candidates[i]).key != key
        } by {
            assert(before.entries.contains_key(key));
            if candidate.key == key {
                assert(before.entries[key].generation <= candidate.generation);
            }
        }
    }
}

/// A batch read gives its values in the order of its keys, and only where all reads succeeded.
pub proof fn values_keep_their_order(answers: Seq<read_session::ReadAnswer>)
    ensures
        values_of(answers) is Ok <==> forall|i: int|
            0 <= i < answers.len() ==> (#[trigger] answers[i]) is Ok,
        values_of(answers) matches Ok(values) ==> {
            &&& values.len() == answers.len()
            &&& forall|i: int|
                0 <= i < answers.len() ==> (#[trigger] answers[i]) == Ok::<
                    Option<Seq<u8>>,
                    Failure,
                >(values[i])
        },
    decreases answers.len(),
{
    if answers.len() > 0 {
        let front = answers.drop_last();
        values_keep_their_order(front);
        assert forall|i: int| 0 <= i < front.len() implies front[i] == answers[i] by {}
        if values_of(front) is Ok {
            assert forall|i: int| 0 <= i < front.len() implies (#[trigger] answers[i]) is Ok by {
                assert(front[i] is Ok);
            }
            if let Ok(values) = values_of(answers) {
                assert forall|i: int| 0 <= i < answers.len() implies (#[trigger] answers[i])
                    == Ok::<Option<Seq<u8>>, Failure>(values[i]) by {
                    if i < front.len() {
                        assert(front[i] == Ok::<Option<Seq<u8>>, Failure>(
                            values_of(front)->Ok_0[i],
                        ));
                    }
                }
            } else {
                assert(answers[answers.len() - 1] is Err);
            }
        } else {
            let i = choose|i: int| 0 <= i < front.len() && !((#[trigger] front[i]) is Ok);
            assert(!(answers[i] is Ok));
        }
    }
}

/// A batch is answered with the failure of the first of its items that failed.
pub proof fn the_first_failure_is_answered(outcomes: Seq<Result<(), Failure>>, first: int)
    requires
        0 <= first < outcomes.len(),
        outcomes[first] is Err,
        forall|i: int| 0 <= i < first ==> (#[trigger] outcomes[i]) is Ok,
    ensures
        first_failure(outcomes) == outcomes[first],
    decreases outcomes.len(),
{
    let front = outcomes.drop_last();
    if first < front.len() {
        assert forall|i: int| 0 <= i < first implies (#[trigger] front[i]) is Ok by {
            assert(front[i] == outcomes[i]);
        }
        the_first_failure_is_answered(front, first);
    } else {
        success_means_all_succeeded(front);
        assert forall|i: int| 0 <= i < front.len() implies (#[trigger] front[i]) is Ok by {
            assert(front[i] == outcomes[i]);
        }
    }
}

/// A batch read is answered with the failure of the first of its keys that failed.
pub proof fn the_first_failed_read_is_answered(
    answers: Seq<read_session::ReadAnswer>,
    first: int,
    failure: Failure,
)
    requires
        0 <= first < answers.len(),
        answers[first] == Err::<Option<Seq<u8>>, Failure>(failure),
        forall|i: int| 0 <= i < first ==> (#[trigger] answers[i]) is Ok,
    ensures
        values_of(answers) == Err::<Seq<Option<Seq<u8>>>, Failure>(failure),
    decreases answers.len(),
{
    let front = answers.drop_last();
    if first < front.len() {
        assert forall|i: int| 0 <= i < first implies (#[trigger] front[i]) is Ok by {
            assert(front[i] == answers[i]);
        }
        the_first_failed_read_is_answered(front, first, failure);
    } else {
        values_keep_their_order(front);
        assert forall|i: int| 0 <= i < front.len() implies (#[trigger] front[i]) is Ok by {
            assert(front[i] == answers[i]);
        }
    }
}

/// After a write of any key with any outcome, the key is tracked exactly where it was tracked
/// before, the write succeeded, or the write timed out. Only a timeout leaves the write under way.
pub proof fn a_write_is_settled_by_its_outcome(
    tracker: TrackerView,
    key: Seq<char>,
    outcome: Result<(), Failure>,
)
    requires
        tracker.well_formed(),
        tracker.can_begin(key),
    ensures
        ({
            let after = put_settled(tracker.begun(key), key, outcome);
            let open = outcome matches Err(failure) && failure.kind == ErrorKind::Timeout;
            &&& after.entries.contains_key(key) <==> tracker.entries.contains_key(key) || outcome
                is Ok || open
            &&& after.entries.contains_key(key) ==> {
                &&& after.entries[key].pending_writes == tracker.known(key).pending_writes + if open {
                    1int
                } else {
                    0
                }
                &&& after.entries[key].confirmed <==> tracker.known(key).confirmed || outcome is Ok
                &&& after.entries[key].generation == tracker.next_generation + 1
            }
        }),
{
}

/// A batch write that timed out as a whole leaves all its writes under way. One that failed in any
/// other way leaves none of them: of different keys, each is tracked exactly where it was before.
pub proof fn a_failed_batch_is_settled_by_its_failure(
    tracker: TrackerView,
    keys: Seq<Seq<char>>,
    failure: Failure,
    index: int,
)
    requires
        tracker.well_formed(),
        0 <= index < keys.len(),
        can_begin_all(tracker, keys, keys.len()),
        forall|i: int, j: int|
            0 <= i < j < keys.len() ==> (#[trigger] keys[i]) != (#[trigger] keys[j]),
    ensures
        ({
            let begun = batch_begun(tracker, keys, keys.len());
            let after = batch_failed(begun, keys, failure);
            if failure.kind == ErrorKind::Timeout {
                &&& after == begun
                &&& after.entries.contains_key(keys[index])
                &&& after.entries[keys[index]].pending_writes > 0
            } else {
                after.entries.contains_key(keys[index]) <==> tracker.entries.contains_key(
                    keys[index],
                )
            }
        }),
{
    let outcomes = Seq::new(keys.len(), |i: int| Err::<(), Failure>(failure));
    begun_once(tracker, keys, keys.len(), index);
    a_batch_tracks_what_was_written(tracker, keys, outcomes, index);
}

/// After a batch delete of different keys, a key of the batch is tracked exactly where it was
/// tracked before and its delete failed or a write of it is under way.
pub proof fn a_batch_delete_is_settled_by_its_outcomes(
    tracker: TrackerView,
    keys: Seq<Seq<char>>,
    outcomes: Seq<Result<(), Failure>>,
    index: int,
)
    requires
        keys.len() == outcomes.len(),
        0 <= index < keys.len(),
        forall|i: int, j: int|
            0 <= i < j < keys.len() ==> (#[trigger] keys[i]) != (#[trigger] keys[j]),
    ensures
        deletes_settled(tracker, keys, outcomes, keys.len()).entries.contains_key(keys[index])
            <==> tracker.entries.contains_key(keys[index]) && (outcomes[index] is Err
            || tracker.entries[keys[index]].pending_writes > 0),
{
    one_delete_settles(tracker, keys, outcomes, keys.len(), index);
}

proof fn one_delete_settles(
    tracker: TrackerView,
    keys: Seq<Seq<char>>,
    outcomes: Seq<Result<(), Failure>>,
    count: nat,
    index: int,
)
    requires
        count <= keys.len() == outcomes.len(),
        0 <= index < keys.len(),
        forall|i: int, j: int|
            0 <= i < j < keys.len() ==> (#[trigger] keys[i]) != (#[trigger] keys[j]),
    ensures
        ({
            let after = deletes_settled(tracker, keys, outcomes, count);
            let before = tracker.entries.contains_key(keys[index]);
            if index < count && outcomes[index] is Ok {
                after.entries.contains_key(keys[index]) <==> before
                    && tracker.entries[keys[index]].pending_writes > 0
            } else {
                &&& after.entries.contains_key(keys[index]) == before
                &&& before ==> after.entries[keys[index]] == tracker.entries[keys[index]]
            }
        }),
    decreases count,
{
    if count > 0 {
        one_delete_settles(tracker, keys, outcomes, (count - 1) as nat, index);
        assert(keys[count - 1] == keys[index] <==> count - 1 == index);
    }
}

/// A batch delete neither adds nor removes a key that is not in the batch.
pub proof fn a_batch_delete_leaves_other_keys(
    tracker: TrackerView,
    keys: Seq<Seq<char>>,
    outcomes: Seq<Result<(), Failure>>,
    count: nat,
    other: Seq<char>,
)
    requires
        count <= keys.len() == outcomes.len(),
        !keys.contains(other),
    ensures
        deletes_settled(tracker, keys, outcomes, count).entries.contains_key(other)
            == tracker.entries.contains_key(other),
        deletes_settled(tracker, keys, outcomes, count).known(other) == tracker.known(other),
    decreases count,
{
    if count > 0 {
        a_batch_delete_leaves_other_keys(tracker, keys, outcomes, (count - 1) as nat, other);
        assert(keys.contains(keys[count - 1]));
    }
}

/// After a flush of different keys, the key of a candidate is tracked exactly where it was tracked
/// when the outcomes came and its delete failed or it was written after the flush looked.
pub proof fn a_flush_is_settled_by_its_outcomes(
    tracker: TrackerView,
    candidates: Seq<CandidateView>,
    outcomes: Seq<Result<(), Failure>>,
    index: int,
)
    requires
        candidates.len() == outcomes.len(),
        0 <= index < candidates.len(),
        forall|i: int, j: int|
            0 <= i < j < candidates.len() ==> (#[trigger] candidates[i]).key != (
            #[trigger] candidates[j]).key,
    ensures
        ({
            let key = candidates[index].key;
            flush_settled(tracker, candidates, outcomes, candidates.len()).entries.contains_key(
                key,
            ) <==> tracker.entries.contains_key(key) && (outcomes[index] is Err
                || tracker.entries[key].generation > candidates[index].generation)
        }),
{
    one_flush_settles(tracker, candidates, outcomes, candidates.len(), index);
}

proof fn one_flush_settles(
    tracker: TrackerView,
    candidates: Seq<CandidateView>,
    outcomes: Seq<Result<(), Failure>>,
    count: nat,
    index: int,
)
    requires
        count <= candidates.len() == outcomes.len(),
        0 <= index < candidates.len(),
        forall|i: int, j: int|
            0 <= i < j < candidates.len() ==> (#[trigger] candidates[i]).key != (
            #[trigger] candidates[j]).key,
    ensures
        ({
            let after = flush_settled(tracker, candidates, outcomes, count);
            let key = candidates[index].key;
            let before = tracker.entries.contains_key(key);
            if index < count && outcomes[index] is Ok {
                after.entries.contains_key(key) <==> before && tracker.entries[key].generation
                    > candidates[index].generation
            } else {
                &&& after.entries.contains_key(key) == before
                &&& before ==> after.entries[key] == tracker.entries[key]
            }
        }),
    decreases count,
{
    if count > 0 {
        one_flush_settles(tracker, candidates, outcomes, (count - 1) as nat, index);
        assert(candidates[count - 1].key == candidates[index].key <==> count - 1 == index);
    }
}

/// As many outcomes count as there are both keys and outcomes.
pub proof fn every_key_with_an_outcome_counts(keys: nat, outcomes: nat)
    ensures
        paired(keys, outcomes) <= keys,
        paired(keys, outcomes) <= outcomes,
        paired(keys, outcomes) == keys || paired(keys, outcomes) == outcomes,
{
}

/// A batch of any length can be started while generations and writes are left to be counted.
pub proof fn every_countable_batch_can_begin(
    tracker: TrackerView,
    keys: Seq<Seq<char>>,
    count: nat,
)
    requires
        count <= keys.len(),
        tracker.next_generation + count <= 18446744073709551615,
        forall|i: int|
            0 <= i < keys.len() ==> tracker.known(#[trigger] keys[i]).pending_writes + count
                <= usize::MAX,
    ensures
        can_begin_all(tracker, keys, count),
        batch_begun(tracker, keys, count).next_generation == tracker.next_generation + count,
        forall|i: int|
            0 <= i < keys.len() ==> batch_begun(tracker, keys, count).known(
                #[trigger] keys[i],
            ).pending_writes <= tracker.known(keys[i]).pending_writes + count,
    decreases count,
{
    if count > 0 {
        every_countable_batch_can_begin(tracker, keys, (count - 1) as nat);
        let before = batch_begun(tracker, keys, (count - 1) as nat);
        assert(before.known(keys[count - 1]).pending_writes <= tracker.known(
            keys[count - 1],
        ).pending_writes + count - 1);
        assert forall|i: int| 0 <= i < keys.len() implies batch_begun(tracker, keys, count).known(
            #[trigger] keys[i],
        ).pending_writes <= tracker.known(keys[i]).pending_writes + count by {
            assert(before.known(keys[i]).pending_writes <= tracker.known(keys[i]).pending_writes
                + count - 1);
        }
    }
}

/// Values are seen as they are, one by one.
pub proof fn values_are_seen_whole(values: Seq<Option<Bytes>>, index: int)
    requires
        0 <= index < values.len(),
    ensures
        value_views(values).len() == values.len(),
        values[index] is None <==> value_views(values)[index] is None,
        values[index] matches Some(value) ==> value_views(values)[index] == Some(
            crate::outside::content(value),
        ),
{
}

} // verus!
