//! What a client checks before it calls its store, and how it is closed.

use crate::error;
use crate::error::{CacheError, CacheResult, ErrorKind, Failure};
use crate::frame;
use crate::mutation;
use crate::text;
use vstd::prelude::*;
use vstd::string::StringExecFns;

verus! {

// Checks before a call.

/// Refuses the empty key.
pub fn check_key(key: &str) -> (checked: CacheResult<()>)
    ensures
        error::settled(checked) == frame::key_check(key@),
{
    match frame::validate_key(key) {
        Ok(_) => Ok(()),
        Err(error) => Err(error::map_store_error(error)),
    }
}

/// What is checked of a payload.
pub open spec fn payload_check(length: nat, limit: nat) -> Result<(), Failure> {
    if length > limit {
        Err(frame::payload_over_limit(length, limit))
    } else {
        Ok(())
    }
}

/// Refuses a payload over the limit.
pub fn validate_payload(value: &[u8], max_value_size: usize) -> (checked: CacheResult<()>)
    ensures
        error::settled(checked) == payload_check(value@.len(), max_value_size as nat),
{
    if value.len() > max_value_size {
        Err(CacheError::InvalidArgument(frame::over_limit_message(value.len(), max_value_size)))
    } else {
        Ok(())
    }
}

/// What is checked of an entry: its key, then its payload.
pub open spec fn entry_check(key: Seq<char>, length: nat, limit: nat) -> Result<(), Failure> {
    if key.len() == 0 {
        frame::key_check(key)
    } else {
        payload_check(length, limit)
    }
}

/// Refuses an entry with an empty key or a payload over the limit.
pub fn check_entry(key: &str, value: &[u8], max_value_size: usize) -> (checked: CacheResult<()>)
    ensures
        error::settled(checked) == entry_check(key@, value@.len(), max_value_size as nat),
{
    match check_key(key) {
        Ok(_) => validate_payload(value, max_value_size),
        Err(error) => Err(error),
    }
}

/// What is checked of the keys of a batch: the store is called only where there are keys, and
/// none of them is empty.
pub open spec fn batch_check(keys: Seq<Seq<char>>) -> Result<bool, Failure> {
    if exists|i: int| 0 <= i < keys.len() && (#[trigger] keys[i]).len() == 0 {
        Err(frame::empty_key())
    } else {
        Ok(keys.len() > 0)
    }
}

/// Checks the keys of a batch and says whether there is anything to call the store for.
pub fn check_batch(keys: &[String]) -> (call: CacheResult<bool>)
    ensures
        error::settled(call) == batch_check(frame::texts(keys@)),
{
    let mut index: usize = 0;
    while index < keys.len()
        invariant
            index <= keys@.len(),
            forall|i: int| 0 <= i < index ==> (#[trigger] frame::texts(keys@)[i]).len() > 0,
        decreases keys@.len() - index,
    {
        assert(frame::texts(keys@)[index as int] == keys@[index as int]@);
        match check_key(keys[index].as_str()) {
            Ok(_) => {},
            Err(error) => {
                assert(frame::texts(keys@)[index as int].len() == 0);
                return Err(error);
            },
        }
        index = index + 1;
    }
    Ok(keys.len() > 0)
}

/// What is checked of the entries of a batch: the first entry that is refused decides.
pub open spec fn entries_check(keys: Seq<Seq<char>>, values: Seq<Seq<u8>>, limit: nat) -> Result<
    bool,
    Failure,
>
    decreases keys.len(),
{
    if keys.len() == 0 {
        Ok(false)
    } else {
        match entries_check(keys.drop_last(), values.drop_last(), limit) {
            Err(failure) => Err(failure),
            Ok(_) => match entry_check(keys.last(), values.last().len(), limit) {
                Err(failure) => Err(failure),
                Ok(_) => Ok(true),
            },
        }
    }
}

/// Checks the entries of a batch and says whether there is anything to call the store for.
pub fn check_entries(entries: &[(String, Vec<u8>)], max_value_size: usize) -> (call: CacheResult<
    bool,
>)
    ensures
        error::settled(call) == entries_check(
            mutation::entry_keys(entries@),
            mutation::entry_values(entries@),
            max_value_size as nat,
        ),
{
    let ghost keys = mutation::entry_keys(entries@);
    let ghost values = mutation::entry_values(entries@);
    let ghost limit = max_value_size as nat;
    let mut index: usize = 0;
    while index < entries.len()
        invariant
            keys == mutation::entry_keys(entries@),
            values == mutation::entry_values(entries@),
            limit == max_value_size,
            index <= entries@.len(),
            entries_check(keys.take(index as int), values.take(index as int), limit) == Ok::<
                bool,
                Failure,
            >(index > 0),
        decreases entries@.len() - index,
    {
        assert(keys.take(index + 1).drop_last() =~= keys.take(index as int));
        assert(values.take(index + 1).drop_last() =~= values.take(index as int));
        match check_entry(entries[index].0.as_str(), entries[index].1.as_slice(), max_value_size) {
            Ok(_) => {},
            Err(error) => {
                proof {
                    first_refusal_decides(keys, values, limit, index + 1);
                }
                return Err(error);
            },
        }
        index = index + 1;
    }
    assert(keys.take(index as int) =~= keys);
    assert(values.take(index as int) =~= values);
    Ok(entries.len() > 0)
}

proof fn first_refusal_decides(keys: Seq<Seq<char>>, values: Seq<Seq<u8>>, limit: nat, count: int)
    requires
        keys.len() == values.len(),
        0 <= count <= keys.len(),
        entries_check(keys.take(count), values.take(count), limit) is Err,
    ensures
        entries_check(keys, values, limit) == entries_check(
            keys.take(count),
            values.take(count),
            limit,
        ),
    decreases keys.len() - count,
{
    if count < keys.len() {
        assert(keys.take(count + 1).drop_last() =~= keys.take(count));
        assert(values.take(count + 1).drop_last() =~= values.take(count));
        first_refusal_decides(keys, values, limit, count + 1);
    } else {
        assert(keys.take(count) =~= keys);
        assert(values.take(count) =~= values);
    }
}

/// What is checked of the number of results of a batch.
pub open spec fn batch_len_check(operation: Seq<char>, expected: nat, actual: nat) -> Result<
    (),
    Failure,
> {
    if expected == actual {
        Ok(())
    } else {
        Err(
            error::failure(
                ErrorKind::Internal,
                "MemStore "@ + operation + " returned "@ + text::decimal(actual)
                    + " item results for "@ + text::decimal(expected) + " inputs"@,
            ),
        )
    }
}

/// Refuses a batch result that does not have one item for each input.
pub fn validate_batch_len(operation: &str, expected: usize, actual: usize) -> (checked: CacheResult<
    (),
>)
    ensures
        error::settled(checked) == batch_len_check(operation@, expected as nat, actual as nat),
{
    if expected == actual {
        return Ok(());
    }
    let mut message = "MemStore ".to_owned();
    message.append(operation);
    message.append(" returned ");
    text::push_decimal(&mut message, actual as u64);
    message.append(" item results for ");
    text::push_decimal(&mut message, expected as u64);
    message.append(" inputs");
    Err(CacheError::Internal(message))
}

// Closing.

/// Whether a client is closed, and how far its shutdown has come.
pub struct ShutdownState {
    closed: bool,
    started: bool,
    result: Option<CacheResult<()>>,
}

/// The content of a `ShutdownState`.
pub struct ShutdownView {
    pub closed: bool,
    pub started: bool,
    pub result: Option<Result<(), Failure>>,
}

impl ShutdownView {
    /// A shutdown starts only when the client is closed, and has a result only once started.
    pub open spec fn well_formed(self) -> bool {
        &&& self.started ==> self.closed
        &&& self.result is Some ==> self.started
    }

    /// After someone has asked to close the client.
    pub open spec fn asked(self) -> ShutdownView {
        ShutdownView { closed: true, started: true, ..self }
    }

    /// After the shutdown has ended.
    pub open spec fn ended(self, result: Result<(), Failure>) -> ShutdownView {
        ShutdownView { result: Some(result), ..self }
    }
}

/// What is known of the result of a shutdown.
pub open spec fn known(result: Option<CacheResult<()>>) -> Option<Result<(), Failure>> {
    match result {
        Some(result) => Some(error::settled(result)),
        None => None,
    }
}

impl View for ShutdownState {
    type V = ShutdownView;

    closed spec fn view(&self) -> ShutdownView {
        ShutdownView {
            closed: self.closed,
            started: self.started,
            result: known(self.result),
        }
    }
}

impl ShutdownState {
    /// The state of an open client.
    pub fn new() -> (state: Self)
        ensures
            state@ == (ShutdownView { closed: false, started: false, result: None }),
            state@.well_formed(),
    {
        ShutdownState { closed: false, started: false, result: None }
    }

    /// Whether the client is closed.
    pub fn is_closed(&self) -> (closed: bool)
        ensures
            closed == self@.closed,
    {
        self.closed
    }

    /// Closes the client. The one who gets `true` has to run the shutdown; all others wait for it.
    pub fn close(&mut self) -> (first: bool)
        requires
            old(self)@.well_formed(),
        ensures
            final(self)@ == old(self)@.asked(),
            final(self)@.well_formed(),
            first == !old(self)@.started,
    {
        self.closed = true;
        let first: bool = !self.started;
        self.started = true;
        first
    }

    /// Notes how the shutdown has ended.
    pub fn finish(&mut self, result: CacheResult<()>)
        requires
            old(self)@.well_formed(),
            old(self)@.started,
        ensures
            final(self)@ == old(self)@.ended(error::settled(result)),
            final(self)@.well_formed(),
    {
        self.result = Some(result);
    }

    /// How the shutdown has ended, if it has.
    pub fn poll(&self) -> (result: Option<CacheResult<()>>)
        ensures
            known(result) == self@.result,
    {
        match &self.result {
            Some(result) => Some(error::clone_cache_result(result)),
            None => None,
        }
    }
}

// Laws.

/// A payload passes exactly where it has no more bytes than the limit.
pub proof fn every_payload_within_the_limit_passes(length: nat, limit: nat)
    ensures
        payload_check(length, limit) is Ok <==> length <= limit,
        payload_check(length, limit) matches Err(failure) ==> {
            &&& failure.kind == ErrorKind::InvalidArgument
            &&& failure.message == "MemStore payload is "@ + text::decimal(length)
                + " bytes, exceeding the "@ + text::decimal(limit) + " byte limit"@
        },
{
}

/// An entry passes exactly where its key is not empty and its payload has no more bytes than the
/// limit.
pub proof fn every_entry_within_the_limit_passes(key: Seq<char>, length: nat, limit: nat)
    ensures
        entry_check(key, length, limit) is Ok <==> key.len() > 0 && length <= limit,
        entry_check(key, length, limit) matches Err(failure) ==> failure.kind
            == ErrorKind::InvalidArgument,
{
}

/// The keys of a batch pass exactly where none is empty, and the store is called exactly where
/// there are any.
pub proof fn every_batch_of_keys_passes(keys: Seq<Seq<char>>)
    ensures
        batch_check(keys) is Ok <==> forall|i: int|
            0 <= i < keys.len() ==> (#[trigger] keys[i]).len() > 0,
        batch_check(keys) matches Ok(call) ==> (call <==> keys.len() > 0),
        batch_check(keys) matches Err(failure) ==> failure.kind == ErrorKind::InvalidArgument,
{
}

/// The entries of a batch pass exactly where no key is empty and no payload has more bytes than
/// the limit, and the store is called exactly where there are any.
pub proof fn every_batch_of_entries_within_the_limit_passes(
    keys: Seq<Seq<char>>,
    values: Seq<Seq<u8>>,
    limit: nat,
)
    requires
        keys.len() == values.len(),
    ensures
        entries_check(keys, values, limit) is Ok <==> forall|i: int|
            #![trigger keys[i]]
            #![trigger values[i]]
            0 <= i < keys.len() ==> keys[i].len() > 0 && values[i].len() <= limit,
        entries_check(keys, values, limit) matches Ok(call) ==> (call <==> keys.len() > 0),
        entries_check(keys, values, limit) matches Err(failure) ==> failure.kind
            == ErrorKind::InvalidArgument,
    decreases keys.len(),
{
    if keys.len() > 0 {
        let front = keys.drop_last();
        let rest = values.drop_last();
        every_batch_of_entries_within_the_limit_passes(front, rest, limit);
        assert(keys.last() == keys[keys.len() - 1]);
        assert(values.last() == values[keys.len() - 1]);
        if entries_check(front, rest, limit) is Err {
            let i = choose|i: int|
                #![trigger front[i]]
                0 <= i < front.len() && !(front[i].len() > 0 && rest[i].len() <= limit);
            assert(keys[i] == front[i]);
            assert(values[i] == rest[i]);
        } else {
            assert forall|i: int|
                #![trigger keys[i]]
                0 <= i < front.len() implies keys[i].len() > 0 && values[i].len() <= limit by {
                assert(front[i] == keys[i]);
                assert(rest[i] == values[i]);
            }
        }
    }
}

/// Entries that pass the checks of a client are not refused when the native call is prepared.
pub proof fn checked_entries_can_be_written(
    keys: Seq<Seq<char>>,
    values: Seq<Seq<u8>>,
    limit: nat,
)
    requires
        keys.len() == values.len(),
        keys.len() <= u32::MAX,
        limit <= u32::MAX,
        entries_check(keys, values, limit) is Ok,
    ensures
        mutation::replace_plan(keys, values, limit) is Ok,
{
    checked_front(keys, values, limit);
}

proof fn checked_front(keys: Seq<Seq<char>>, values: Seq<Seq<u8>>, limit: nat)
    requires
        keys.len() == values.len(),
        limit <= u32::MAX,
        entries_check(keys, values, limit) is Ok,
    ensures
        forall|i: int| 0 <= i < keys.len() ==> (#[trigger] keys[i]).len() > 0,
        mutation::frames_of(values, limit) is Ok,
    decreases keys.len(),
{
    if keys.len() > 0 {
        let front = keys.drop_last();
        checked_front(front, values.drop_last(), limit);
        assert forall|i: int| 0 <= i < keys.len() implies (#[trigger] keys[i]).len() > 0 by {
            if i < front.len() {
                assert(front[i] == keys[i]);
            }
        }
    }
}

/// Closing is noted once and for all, and the result of the shutdown is kept as it is.
pub proof fn closing_is_noted(state: ShutdownView, result: Result<(), Failure>)
    ensures
        state.asked().closed,
        state.asked().started,
        state.asked().result == state.result,
        state.ended(result).result == Some(result),
        state.ended(result).closed == state.closed,
        state.ended(result).started == state.started,
{
}

/// A batch result passes exactly where it has one item for each input, and is an internal error
/// otherwise.
pub proof fn every_input_has_one_result(operation: Seq<char>, expected: nat, actual: nat)
    ensures
        batch_len_check(operation, expected, actual) is Ok <==> expected == actual,
        batch_len_check(operation, expected, actual) matches Err(failure) ==> failure.kind
            == ErrorKind::Internal,
{
}

/// What is known of a shutdown is its result, as it is.
pub proof fn results_are_known_as_they_are(result: CacheResult<()>)
    ensures
        known(None) is None,
        result is Ok ==> known(Some(result)) == Some(Ok::<(), Failure>(())),
        result matches Err(error) ==> known(Some(result)) == Some(Err::<(), Failure>(error@)),
{
}

} // verus!
