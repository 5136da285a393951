//! Writes, deletes and probes: what the native calls are given and what their results mean.

use crate::error;
use crate::error::{ErrorKind, Failure, MemStoreItemResult, MemStoreStoreError};
use crate::frame;
use crate::frame::HEADER_LEN;
use crate::raw_get;
use crate::read_laws;
use crate::read_session;
use crate::read_session::{RawRead, RawReadView, ReadCall, Verdict};
use crate::status;
use crate::status::CResult;
use vstd::prelude::*;
use vstd::string::StringExecFns;

verus! {

/// A key that is never written, read to see whether the service answers.
pub const HEALTH_KEY: &'static str = "ovms:health:reserved-never-written:v1";

/// The contents of a list of item results.
pub open spec fn done_views(results: Seq<MemStoreItemResult<()>>) -> Seq<Result<(), Failure>> {
    Seq::new(results.len(), |i: int| error::settled(results[i]))
}

// Writes.

/// The keys of a list of entries.
pub open spec fn entry_keys(entries: Seq<(String, Vec<u8>)>) -> Seq<Seq<char>> {
    Seq::new(entries.len(), |i: int| entries[i].0@)
}

/// The payloads of a list of entries.
pub open spec fn entry_values(entries: Seq<(String, Vec<u8>)>) -> Seq<Seq<u8>> {
    Seq::new(entries.len(), |i: int| entries[i].1@)
}

/// The contents of a list of byte buffers.
pub open spec fn buffers(values: Seq<Vec<u8>>) -> Seq<Seq<u8>> {
    Seq::new(values.len(), |i: int| values[i]@)
}

/// The frames around the payloads, or the answer to the first payload that cannot be framed.
pub open spec fn frames_of(payloads: Seq<Seq<u8>>, limit: nat) -> Result<Seq<Seq<u8>>, Failure>
    decreases payloads.len(),
{
    if payloads.len() == 0 {
        Ok(Seq::empty())
    } else {
        match frames_of(payloads.drop_last(), limit) {
            Err(failure) => Err(failure),
            Ok(frames) => match frame::encoded_value(payloads.last(), limit) {
                Err(failure) => Err(failure),
                Ok(framed) => Ok(frames.push(framed)),
            },
        }
    }
}

/// What a native replace call is given, or nothing where there is nothing to write. The keys are
/// checked before the payloads.
pub open spec fn replace_plan(
    keys: Seq<Seq<char>>,
    payloads: Seq<Seq<u8>>,
    limit: nat,
) -> Result<Option<(Seq<Seq<char>>, Seq<Seq<u8>>)>, Failure> {
    if keys.len() == 0 {
        Ok(None)
    } else if keys.len() > u32::MAX {
        Err(raw_get::batch_too_large())
    } else {
        match frame::native_keys_of(keys) {
            Err(failure) => Err(failure),
            Ok(names) => match frames_of(payloads, limit) {
                Err(failure) => Err(failure),
                Ok(frames) => Ok(Some((names, frames))),
            },
        }
    }
}

/// The names and frames of one native replace call.
pub struct ReplaceCall {
    pub keys: Vec<String>,
    pub values: Vec<Vec<u8>>,
}

/// What a native replace call is given for these entries.
pub fn plan_replace(entries: &[(String, Vec<u8>)], max_value_size: usize) -> (plan: Result<
    Option<ReplaceCall>,
    MemStoreStoreError,
>)
    ensures
        match replace_plan(
            entry_keys(entries@),
            entry_values(entries@),
            max_value_size as nat,
        ) {
            Ok(Some((names, frames))) => {
                &&& plan matches Ok(Some(call))
                &&& frame::texts(call.keys@) == names
                &&& frame::names_fit(names)
                &&& buffers(call.values@) == frames
            },
            Ok(None) => plan matches Ok(None),
            Err(failure) => plan matches Err(error) && error@ == failure,
        },
{
    if entries.len() == 0 {
        return Ok(None);
    }
    if entries.len() > u32::MAX as usize {
        return Err(
            MemStoreStoreError::InvalidArgument(
                "MemStore batch size exceeds c_uint::MAX".to_owned(),
            ),
        );
    }
    let ghost names_wanted = entry_keys(entries@);
    let ghost payloads = entry_values(entries@);
    let mut given: Vec<String> = Vec::new();
    let mut index: usize = 0;
    while index < entries.len()
        invariant
            index <= entries@.len(),
            given@.len() == index,
            forall|i: int| 0 <= i < index ==> (#[trigger] given@[i])@ == entries@[i].0@,
        decreases entries@.len() - index,
    {
        given.push(entries[index].0.clone());
        index = index + 1;
    }
    assert(frame::texts(given@) =~= names_wanted);
    let keys = match frame::native_keys(given.as_slice()) {
        Ok(keys) => keys,
        Err(error) => return Err(error),
    };
    let mut values: Vec<Vec<u8>> = Vec::new();
    let mut place: usize = 0;
    assert(payloads.take(0) =~= Seq::empty());
    assert(buffers(values@) =~= Seq::empty());
    while place < entries.len()
        invariant
            payloads == entry_values(entries@),
            0 < entries@.len() <= u32::MAX,
            names_wanted == entry_keys(entries@),
            frame::native_keys_of(names_wanted) is Ok,
            place <= entries@.len(),
            values@.len() == place,
            frames_of(payloads.take(place as int), max_value_size as nat) == Ok::<
                Seq<Seq<u8>>,
                Failure,
            >(buffers(values@)),
        decreases entries@.len() - place,
    {
        let ghost front = payloads.take(place as int);
        let ghost longer = payloads.take(place + 1);
        assert(longer.drop_last() =~= front);
        assert(longer.last() == entries@[place as int].1@);
        match frame::encode_value(entries[place].1.as_slice(), max_value_size) {
            Ok(framed) => {
                let ghost before = buffers(values@);
                values.push(framed);
                assert(buffers(values@) =~= before.push(framed@));
            },
            Err(error) => {
                proof {
                    first_fault_decides(payloads, max_value_size as nat, place + 1);
                }
                return Err(error);
            },
        }
        place = place + 1;
    }
    assert(payloads.take(place as int) =~= payloads);
    Ok(Some(ReplaceCall { keys, values }))
}

/// What the result of one written item means.
pub open spec fn replace_answer(result: CResult, overall: CResult, serviceable: bool) -> Result<
    (),
    Failure,
> {
    match status::effective(result, overall, "replace"@) {
        Err(failure) => Err(failure),
        Ok(code) => if code == status::RET_MMS_OK {
            Ok(())
        } else {
            Err(status::status_failure(code, "replace"@, serviceable))
        },
    }
}

/// What the results of a native replace call mean, item by item.
pub fn replace_results(results: &[CResult], overall: CResult, serviceable: bool) -> (answers: Vec<
    MemStoreItemResult<()>,
>)
    ensures
        done_views(answers@) == Seq::new(
            results@.len(),
            |i: int| replace_answer(results@[i], overall, serviceable),
        ),
{
    let mut answers: Vec<MemStoreItemResult<()>> = Vec::new();
    let mut index: usize = 0;
    while index < results.len()
        invariant
            index <= results@.len(),
            answers@.len() == index,
            forall|i: int|
                0 <= i < index ==> error::settled(#[trigger] answers@[i]) == replace_answer(
                    results@[i],
                    overall,
                    serviceable,
                ),
        decreases results@.len() - index,
    {
        let answer = match status::effective_result(results[index], overall, "replace") {
            Ok(code) => if code == status::RET_MMS_OK {
                Ok(())
            } else {
                Err(status::map_native_status(code, "replace", serviceable))
            },
            Err(error) => Err(error),
        };
        answers.push(answer);
        index = index + 1;
    }
    assert(done_views(answers@) =~= Seq::new(
        results@.len(),
        |i: int| replace_answer(results@[i], overall, serviceable),
    ));
    answers
}

// Deletes.

/// The names that a native delete call is given, or nothing where there is nothing to delete.
pub open spec fn delete_plan(keys: Seq<Seq<char>>) -> Result<Option<Seq<Seq<char>>>, Failure> {
    if keys.len() == 0 {
        Ok(None)
    } else if keys.len() > u32::MAX {
        Err(raw_get::batch_too_large())
    } else {
        match frame::native_keys_of(keys) {
            Err(failure) => Err(failure),
            Ok(names) => Ok(Some(names)),
        }
    }
}

/// The names that a native delete call is given for these keys.
pub fn plan_delete(keys: &[String]) -> (plan: Result<Option<Vec<String>>, MemStoreStoreError>)
    ensures
        match delete_plan(frame::texts(keys@)) {
            Ok(Some(names)) => {
                &&& plan matches Ok(Some(got))
                &&& frame::texts(got@) == names
                &&& frame::names_fit(names)
            },
            Ok(None) => plan matches Ok(None),
            Err(failure) => plan matches Err(error) && error@ == failure,
        },
{
    if keys.len() == 0 {
        return Ok(None);
    }
    if keys.len() > u32::MAX as usize {
        return Err(
            MemStoreStoreError::InvalidArgument(
                "MemStore batch size exceeds c_uint::MAX".to_owned(),
            ),
        );
    }
    match frame::native_keys(keys) {
        Ok(names) => Ok(Some(names)),
        Err(error) => Err(error),
    }
}

/// What the result of one deleted item means.
pub enum DeleteVerdict {
    /// The key is answered.
    Done(Result<(), Failure>),
    /// The store asks for a retry: whether the key is gone has to be probed.
    Probe,
}

/// What the result of one deleted item means.
pub open spec fn delete_verdict(
    result: CResult,
    overall: CResult,
    serviceable: bool,
) -> DeleteVerdict {
    match status::effective(result, overall, "delete"@) {
        Err(failure) => DeleteVerdict::Done(Err(failure)),
        Ok(code) => if code == status::RET_MMS_OK || code == status::RET_MMS_NOT_FOUND || code
            == status::RET_MMS_MISS {
            DeleteVerdict::Done(Ok(()))
        } else if code == status::RET_MMS_NEED_RETRY {
            DeleteVerdict::Probe
        } else {
            DeleteVerdict::Done(Err(status::status_failure(code, "delete"@, serviceable)))
        },
    }
}

/// What the result of one deleted item means, on executable values.
pub enum DeleteStep {
    /// The key is answered.
    Done(MemStoreItemResult<()>),
    /// Whether the key is gone has to be probed.
    Probe,
}

impl View for DeleteStep {
    type V = DeleteVerdict;

    open spec fn view(&self) -> DeleteVerdict {
        match *self {
            DeleteStep::Done(answer) => DeleteVerdict::Done(error::settled(answer)),
            DeleteStep::Probe => DeleteVerdict::Probe,
        }
    }
}

/// What the result of one deleted item means.
pub fn judge_delete(result: CResult, overall: CResult, serviceable: bool) -> (step: DeleteStep)
    ensures
        step@ == delete_verdict(result, overall, serviceable),
{
    match status::effective_result(result, overall, "delete") {
        Ok(code) => if code == status::RET_MMS_OK || code == status::RET_MMS_NOT_FOUND || code
            == status::RET_MMS_MISS {
            DeleteStep::Done(Ok(()))
        } else if code == status::RET_MMS_NEED_RETRY {
            DeleteStep::Probe
        } else {
            DeleteStep::Done(Err(status::map_native_status(code, "delete", serviceable)))
        },
        Err(error) => DeleteStep::Done(Err(error)),
    }
}

/// The meanings of a list of results.
pub open spec fn step_views(steps: Seq<DeleteStep>) -> Seq<DeleteVerdict> {
    Seq::new(steps.len(), |i: int| steps[i]@)
}

/// What the results of a native delete call mean, item by item.
pub fn delete_results(results: &[CResult], overall: CResult, serviceable: bool) -> (steps: Vec<
    DeleteStep,
>)
    ensures
        step_views(steps@) == Seq::new(
            results@.len(),
            |i: int| delete_verdict(results@[i], overall, serviceable),
        ),
{
    let mut steps: Vec<DeleteStep> = Vec::new();
    let mut index: usize = 0;
    while index < results.len()
        invariant
            index <= results@.len(),
            steps@.len() == index,
            forall|i: int|
                0 <= i < index ==> (#[trigger] steps@[i])@ == delete_verdict(
                    results@[i],
                    overall,
                    serviceable,
                ),
        decreases results@.len() - index,
    {
        steps.push(judge_delete(results[index], overall, serviceable));
        index = index + 1;
    }
    assert(step_views(steps@) =~= Seq::new(
        results@.len(),
        |i: int| delete_verdict(results@[i], overall, serviceable),
    ));
    steps
}

/// The answer to a delete that has to be retried while the key is still there.
pub open spec fn still_exists() -> Failure {
    error::failure(
        ErrorKind::Unavailable,
        "MemStore delete needs retry and the key still exists"@,
    )
}

/// What a probe says of a delete that the store wants retried.
pub open spec fn probed_answer(probe: Result<bool, Failure>) -> Result<(), Failure> {
    match probe {
        Ok(false) => Ok(()),
        Ok(true) => Err(still_exists()),
        Err(failure) => Err(failure),
    }
}

/// What a probe says of a delete that the store wants retried.
pub fn delete_after_probe(probe: Result<bool, MemStoreStoreError>) -> (answer: MemStoreItemResult<
    (),
>)
    ensures
        error::settled(answer) == probed_answer(error::settled(probe)),
{
    match probe {
        Ok(false) => Ok(()),
        Ok(true) => Err(
            MemStoreStoreError::Unavailable(
                "MemStore delete needs retry and the key still exists".to_owned(),
            ),
        ),
        Err(error) => Err(error),
    }
}

// Probes.

/// The read call of a probe: one key, and room for no more than a header.
pub fn plan_probe(key: &str) -> (call: Result<ReadCall, MemStoreStoreError>)
    ensures
        match frame::native_key_of(key@) {
            Ok(name) => {
                &&& call matches Ok(read)
                &&& frame::texts(read.keys@) == seq![name]
                &&& frame::name_fits(name)
                &&& read.buffer_sizes@ == seq![HEADER_LEN]
            },
            Err(failure) => call matches Err(error) && error@ == failure,
        },
{
    let name = match frame::native_key(key) {
        Ok(name) => name,
        Err(error) => return Err(error),
    };
    let mut keys: Vec<String> = Vec::new();
    keys.push(name);
    let mut buffer_sizes: Vec<usize> = Vec::new();
    buffer_sizes.push(HEADER_LEN);
    assert(frame::texts(keys@) =~= seq![name@]);
    assert(buffer_sizes@ =~= seq![HEADER_LEN]);
    Ok(ReadCall { keys, buffer_sizes })
}

/// Whether a header-sized read found a value. The status decides; the value is not looked at.
pub open spec fn probe_answer(
    read: RawReadView,
    overall: CResult,
    operation: Seq<char>,
    serviceable: bool,
) -> Result<bool, Failure> {
    match status::effective(read.result, overall, operation) {
        Err(failure) => Err(failure),
        Ok(code) => if code == status::RET_MMS_OK || code == status::RET_MMS_READ_EXCEED {
            if read.preserved {
                Ok(true)
            } else {
                Err(status::replaced_buffer(operation))
            }
        } else if code == status::RET_MMS_NOT_FOUND || code == status::RET_MMS_MISS {
            Ok(false)
        } else {
            Err(status::status_failure(code, operation, serviceable))
        },
    }
}

/// Whether a header-sized read found a value.
fn judge_probe(read: &RawRead, overall: CResult, operation: &str, serviceable: bool) -> (answer:
    Result<bool, MemStoreStoreError>)
    ensures
        error::settled(answer) == probe_answer(read@, overall, operation@, serviceable),
{
    match status::effective_result(read.result, overall, operation) {
        Ok(code) => if code == status::RET_MMS_OK || code == status::RET_MMS_READ_EXCEED {
            if read.caller_buffer_preserved {
                Ok(true)
            } else {
                Err(status::zero_copy_error(operation))
            }
        } else if code == status::RET_MMS_NOT_FOUND || code == status::RET_MMS_MISS {
            Ok(false)
        } else {
            Err(status::map_native_status(code, operation, serviceable))
        },
        Err(error) => Err(error),
    }
}

/// Whether the key of an existence probe is stored.
pub fn probe_exists(overall: CResult, reads: Vec<RawRead>, serviceable: bool) -> (answer: Result<
    bool,
    MemStoreStoreError,
>)
    ensures
        error::settled(answer) == if reads@.len() == 0 {
            Err::<bool, Failure>(
                error::failure(
                    ErrorKind::Internal,
                    "MemStore existence probe returned no item"@,
                ),
            )
        } else {
            probe_answer(reads@.last()@, overall, "existence probe"@, serviceable)
        },
{
    if reads.len() == 0 {
        return Err(
            MemStoreStoreError::Internal("MemStore existence probe returned no item".to_owned()),
        );
    }
    judge_probe(&reads[reads.len() - 1], overall, "existence probe", serviceable)
}

/// Whether the service answered the read of the health key. Whether that key is stored does not
/// matter.
pub fn health_check(overall: CResult, reads: Vec<RawRead>, serviceable: bool) -> (answer: Result<
    (),
    MemStoreStoreError,
>)
    ensures
        error::settled(answer) == if reads@.len() == 0 {
            Err::<(), Failure>(
                error::failure(ErrorKind::Internal, "MemStore health read returned no item"@),
            )
        } else {
            match probe_answer(reads@.last()@, overall, "health check"@, serviceable) {
                Ok(_) => Ok(()),
                Err(failure) => Err(failure),
            }
        },
{
    if reads.len() == 0 {
        return Err(
            MemStoreStoreError::Internal("MemStore health read returned no item".to_owned()),
        );
    }
    match judge_probe(&reads[reads.len() - 1], overall, "health check", serviceable) {
        Ok(_) => Ok(()),
        Err(error) => Err(error),
    }
}

/// The answer to an operation on one key that returned nothing.
pub open spec fn no_item(operation: Seq<char>) -> Failure {
    error::failure(ErrorKind::Internal, "MemStore "@ + operation + " returned no item"@)
}

/// The last result of an operation, which is the only one where it was made for one key.
pub fn only_item<T>(results: Vec<MemStoreItemResult<T>>, operation: &str) -> (item:
    MemStoreItemResult<T>)
    ensures
        error::settled(item) == if results@.len() == 0 {
            Err::<T, Failure>(no_item(operation@))
        } else {
            error::settled(results@.last())
        },
{
    let mut results = results;
    match results.pop() {
        Some(item) => item,
        None => {
            let mut message = "MemStore ".to_owned();
            message.append(operation);
            message.append(" returned no item");
            Err(MemStoreStoreError::Internal(message))
        },
    }
}

// Laws.

/// What is written is read back: a read whose buffer holds what a replace call wrote, whatever
/// follows it, is answered with the payload that was to be written.
pub proof fn what_is_written_is_read_back(
    keys: Seq<Seq<char>>,
    payloads: Seq<Seq<u8>>,
    limit: nat,
    index: int,
    read: RawReadView,
    overall: CResult,
    buffer_size: nat,
    attempts: nat,
    serviceable: bool,
)
    requires
        keys.len() == payloads.len(),
        0 <= index < payloads.len(),
        replace_plan(keys, payloads, limit) is Ok,
        ({
            let (names, frames) = replace_plan(keys, payloads, limit)->Ok_0->Some_0;
            let written = frames[index];
            &&& written.len() <= buffer_size <= usize::MAX
            &&& written.is_prefix_of(read.data)
            &&& read.real_length >= written.len()
        }),
        read_laws::holds_value(read, overall),
    ensures
        read_session::judge(read, overall, buffer_size, attempts, limit, serviceable)
            == Verdict::Settled(Ok(Some(payloads[index]))),
{
    frames_hold_payloads(payloads, limit, index);
    let payload = payloads[index];
    crate::big_endian::digits_length(payload.len(), 4);
    read_laws::a_value_that_fits_is_answered_at_once(
        payload,
        read,
        overall,
        buffer_size,
        attempts,
        limit,
        serviceable,
    );
}

/// A delete of a key that is not there succeeds, so deleting twice is as good as once.
pub proof fn deleting_a_missing_key_succeeds(overall: CResult, serviceable: bool)
    ensures
        delete_verdict(status::RET_MMS_NOT_FOUND, overall, serviceable) == DeleteVerdict::Done(
            Ok(()),
        ),
        delete_verdict(status::RET_MMS_MISS, overall, serviceable) == DeleteVerdict::Done(Ok(())),
{
}

/// A delete that the store wants retried succeeds exactly where a probe finds the key gone.
pub proof fn retried_deletes_follow_the_probe(probe: Result<bool, Failure>)
    ensures
        probed_answer(probe) is Ok <==> probe == Ok::<bool, Failure>(false),
{
}

proof fn frames_hold_payloads(payloads: Seq<Seq<u8>>, limit: nat, index: int)
    requires
        frames_of(payloads, limit) is Ok,
        0 <= index < payloads.len(),
    ensures
        frames_of(payloads, limit)->Ok_0.len() == payloads.len(),
        frame::encoded_value(payloads[index], limit) == Ok::<Seq<u8>, Failure>(
            frames_of(payloads, limit)->Ok_0[index],
        ),
    decreases payloads.len(),
{
    if payloads.len() > 1 {
        if index < payloads.len() - 1 {
            frames_hold_payloads(payloads.drop_last(), limit, index);
        } else {
            frames_hold_payloads(payloads.drop_last(), limit, 0);
        }
    } else {
        assert(payloads.drop_last() =~= Seq::empty());
        assert(frames_of(payloads.drop_last(), limit) == Ok::<Seq<Seq<u8>>, Failure>(
            Seq::empty(),
        ));
    }
}

/// Payloads are framed together exactly where each can be framed, and then each is framed as it is
/// alone.
pub proof fn frames_one_by_one(payloads: Seq<Seq<u8>>, limit: nat)
    ensures
        frames_of(payloads, limit) is Ok <==> forall|i: int|
            0 <= i < payloads.len() ==> (#[trigger] frame::encoded_value(payloads[i], limit)) is Ok,
        frames_of(payloads, limit) matches Ok(frames) ==> {
            &&& frames.len() == payloads.len()
            &&& forall|i: int|
                0 <= i < payloads.len() ==> (#[trigger] frame::encoded_value(payloads[i], limit))
                    == Ok::<Seq<u8>, Failure>(frames[i])
        },
        frames_of(payloads, limit) matches Err(failure) ==> exists|i: int|
            0 <= i < payloads.len() && (#[trigger] frame::encoded_value(payloads[i], limit))
                == Err::<Seq<u8>, Failure>(failure),
    decreases payloads.len(),
{
    if payloads.len() > 0 {
        let front = payloads.drop_last();
        frames_one_by_one(front, limit);
        assert forall|i: int| 0 <= i < front.len() implies (#[trigger] frame::encoded_value(
            payloads[i],
            limit,
        )) == frame::encoded_value(front[i], limit) by {}
        assert(payloads.last() == payloads[payloads.len() - 1]);
        if frames_of(front, limit) is Err {
            let i = choose|i: int|
                0 <= i < front.len() && (#[trigger] frame::encoded_value(front[i], limit)) == Err::<
                    Seq<u8>,
                    Failure,
                >(frames_of(front, limit)->Err_0);
            assert(frame::encoded_value(payloads[i], limit) is Err);
        } else {
            assert forall|i: int|
                frames_of(payloads, limit) is Ok && 0 <= i < payloads.len() implies (
            #[trigger] frame::encoded_value(payloads[i], limit)) == Ok::<Seq<u8>, Failure>(
                frames_of(payloads, limit)->Ok_0[i],
            ) by {
                if i < front.len() {
                    assert(frame::encoded_value(front[i], limit) is Ok);
                }
            }
        }
    }
}

proof fn first_fault_decides(payloads: Seq<Seq<u8>>, limit: nat, count: int)
    requires
        0 <= count <= payloads.len(),
        frames_of(payloads.take(count), limit) is Err,
    ensures
        frames_of(payloads, limit) == frames_of(payloads.take(count), limit),
    decreases payloads.len() - count,
{
    if count < payloads.len() {
        assert(payloads.take(count + 1).drop_last() =~= payloads.take(count));
        first_fault_decides(payloads, limit, count + 1);
    } else {
        assert(payloads.take(count) =~= payloads);
    }
}

/// Entries, results and steps are seen as they are, one by one.
pub proof fn items_are_seen_whole(
    entries: Seq<(String, Vec<u8>)>,
    values: Seq<Vec<u8>>,
    results: Seq<MemStoreItemResult<()>>,
    steps: Seq<DeleteStep>,
    index: int,
)
    ensures
        entry_keys(entries).len() == entries.len(),
        entry_values(entries).len() == entries.len(),
        buffers(values).len() == values.len(),
        done_views(results).len() == results.len(),
        step_views(steps).len() == steps.len(),
        0 <= index < entries.len() ==> entry_keys(entries)[index] == entries[index].0@,
        0 <= index < entries.len() ==> entry_values(entries)[index] == entries[index].1@,
        0 <= index < values.len() ==> buffers(values)[index] == values[index]@,
        0 <= index < results.len() ==> {
            &&& done_views(results)[index] is Ok <==> results[index] is Ok
            &&& results[index] matches Err(error) ==> done_views(results)[index] == Err::<
                (),
                Failure,
            >(error@)
        },
        0 <= index < steps.len() ==> {
            &&& step_views(steps)[index] is Probe <==> steps[index] is Probe
            &&& step_views(steps)[index] == DeleteVerdict::Done(Ok(())) <==> (
            steps[index] matches DeleteStep::Done(answer) && answer is Ok)
            &&& steps[index] matches DeleteStep::Done(Err(error)) ==> step_views(steps)[index]
                == DeleteVerdict::Done(Err(error@))
        },
{
}

} // verus!
