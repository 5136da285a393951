//! What holds of every read request, whatever the native calls return.

use crate::big_endian;
use crate::error::{ErrorKind, Failure, MemStoreItemResult};
use crate::frame;
use crate::frame::HEADER_LEN;
use crate::outside;
use crate::read_session;
use crate::read_session::{
    PendingRead, RawRead, RawReadView, ReadAnswer, ReadStep, SessionView, Verdict,
    MAX_RESIZE_ATTEMPTS,
};
use crate::status;
use crate::status::CResult;
use bytes::Bytes;
use vstd::prelude::*;

verus! {

/// Whether a read reports a value: its status says so and the caller's buffer is in place.
pub open spec fn holds_value(read: RawReadView, overall: CResult) -> bool {
    &&& read.preserved
    &&& status::effective(read.result, overall, "get"@) == Ok::<CResult, Failure>(
        status::RET_MMS_OK,
    ) || status::effective(read.result, overall, "get"@) == Ok::<CResult, Failure>(
        status::RET_MMS_READ_EXCEED,
    )
}

/// A value whose frame fits the buffer is answered from the read that brought it, also where the
/// stored bytes go on behind the frame and the read reports that it could not take them all.
pub proof fn a_value_that_fits_is_answered_at_once(
    payload: Seq<u8>,
    read: RawReadView,
    overall: CResult,
    buffer_size: nat,
    attempts: nat,
    limit: nat,
    serviceable: bool,
)
    requires
        payload.len() <= limit,
        payload.len() <= u32::MAX,
        HEADER_LEN + payload.len() <= buffer_size <= usize::MAX,
        holds_value(read, overall),
        frame::frame_bytes(payload).is_prefix_of(read.data),
        read.real_length >= HEADER_LEN + payload.len(),
    ensures
        read_session::judge(read, overall, buffer_size, attempts, limit, serviceable)
            == Verdict::Settled(Ok(Some(payload))),
{
    let framed = frame::frame_bytes(payload);
    let tail = read.data.skip(framed.len() as int);
    big_endian::digits_length(payload.len(), 4);
    assert(read.data =~= framed + tail);
    frame::decode_undoes_encode(payload, tail, limit);
    assert(read.data.take(HEADER_LEN as int) =~= framed.take(HEADER_LEN as int));
    announced(payload, read.data, limit);
}

/// A value whose frame does not fit is read again into a buffer of exactly its size, as long as
/// attempts are left; after that it is reported as unavailable.
pub proof fn a_larger_value_is_read_again_at_its_size(
    payload: Seq<u8>,
    read: RawReadView,
    overall: CResult,
    buffer_size: nat,
    attempts: nat,
    limit: nat,
    serviceable: bool,
)
    requires
        payload.len() <= limit,
        payload.len() <= u32::MAX,
        HEADER_LEN + payload.len() > buffer_size,
        holds_value(read, overall),
        read.data.len() >= HEADER_LEN,
        read.data.take(HEADER_LEN as int) == frame::frame_bytes(payload).take(HEADER_LEN as int),
    ensures
        read_session::judge(read, overall, buffer_size, attempts, limit, serviceable) == (
        if attempts < MAX_RESIZE_ATTEMPTS {
            Verdict::Again(frame::frame_bytes(payload).len())
        } else {
            Verdict::Settled(Err(read_session::kept_growing()))
        }),
{
    big_endian::digits_length(payload.len(), 4);
    announced(payload, read.data, limit);
}

/// Whether a read is what a working store returns for these stored bytes: as many of them as the
/// buffer takes, and their full length.
pub open spec fn faithful(
    read: RawReadView,
    overall: CResult,
    stored: Seq<u8>,
    buffer_size: nat,
) -> bool {
    let taken = if stored.len() < buffer_size {
        stored.len()
    } else {
        buffer_size
    };
    &&& holds_value(read, overall)
    &&& read.data.len() == buffer_size
    &&& read.data.take(taken as int) == stored.take(taken as int)
    &&& read.real_length == stored.len()
}

/// What a working store returns for a framed value decides by the buffer alone: a frame that fits
/// is answered with the payload that was framed, whatever follows it in the store, and one that
/// does not fit is read again at its size while attempts are left.
pub proof fn a_working_store_is_read_right(
    payload: Seq<u8>,
    tail: Seq<u8>,
    read: RawReadView,
    overall: CResult,
    buffer_size: nat,
    attempts: nat,
    limit: nat,
    serviceable: bool,
)
    requires
        payload.len() <= limit,
        payload.len() <= u32::MAX,
        HEADER_LEN <= buffer_size <= usize::MAX,
        faithful(read, overall, frame::frame_bytes(payload) + tail, buffer_size),
    ensures
        read_session::judge(read, overall, buffer_size, attempts, limit, serviceable) == (
        if frame::frame_bytes(payload).len() <= buffer_size {
            Verdict::Settled(Ok(Some(payload)))
        } else if attempts < MAX_RESIZE_ATTEMPTS {
            Verdict::Again(frame::frame_bytes(payload).len())
        } else {
            Verdict::Settled(Err(read_session::kept_growing()))
        }),
{
    let framed = frame::frame_bytes(payload);
    let stored = framed + tail;
    let size = framed.len() as int;
    let head = HEADER_LEN as int;
    let taken = if stored.len() < buffer_size {
        stored.len() as int
    } else {
        buffer_size as int
    };
    big_endian::digits_length(payload.len(), 4);
    if framed.len() <= buffer_size {
        assert(read.data.take(size) =~= framed) by {
            assert(read.data.take(taken).take(size) =~= read.data.take(size));
            assert(stored.take(taken).take(size) =~= framed);
        }
        a_value_that_fits_is_answered_at_once(
            payload,
            read,
            overall,
            buffer_size,
            attempts,
            limit,
            serviceable,
        );
    } else {
        assert(read.data.take(head) =~= framed.take(head)) by {
            assert(read.data.take(taken).take(head) =~= read.data.take(head));
            assert(stored.take(taken).take(head) =~= framed.take(head));
        }
        a_larger_value_is_read_again_at_its_size(
            payload,
            read,
            overall,
            buffer_size,
            attempts,
            limit,
            serviceable,
        );
    }
}

/// A key is read again only where a value was found that is too large for the buffer, and then
/// into a larger buffer that holds a frame of the largest payload at most.
pub proof fn only_larger_values_are_read_again(
    read: RawReadView,
    overall: CResult,
    buffer_size: nat,
    attempts: nat,
    limit: nat,
    serviceable: bool,
    size: nat,
)
    requires
        read_session::judge(read, overall, buffer_size, attempts, limit, serviceable)
            == Verdict::Again(size),
    ensures
        holds_value(read, overall),
        buffer_size < size <= limit + HEADER_LEN,
        attempts < MAX_RESIZE_ATTEMPTS,
{
}

/// Where the native call handed back another buffer than the caller's, the key is answered with
/// an error, whatever that buffer holds.
pub proof fn a_replaced_buffer_is_an_error(
    read: RawReadView,
    overall: CResult,
    buffer_size: nat,
    attempts: nat,
    limit: nat,
    serviceable: bool,
)
    requires
        !read.preserved,
        holds_value(RawReadView { preserved: true, ..read }, overall),
    ensures
        read_session::judge(read, overall, buffer_size, attempts, limit, serviceable)
            == Verdict::Settled(Err(status::replaced_buffer("get"@))),
{
}

/// An answer, once given, stays.
pub proof fn answers_stay(
    session: SessionView,
    overall: CResult,
    reads: Seq<RawReadView>,
    serviceable: bool,
    key: int,
)
    requires
        session.well_formed(),
        0 <= key < session.outcomes.len(),
        session.outcomes[key] is Some,
    ensures
        session.after_call(overall, reads, serviceable).outcomes[key] == session.outcomes[key],
{
    let seen = seen_of(session, reads);
    steps_keep(session, overall, reads, serviceable, seen);
}

/// Where a native call returned a read for each of its keys, no key is lost: each one has an
/// answer or waits.
pub proof fn no_key_is_lost(
    session: SessionView,
    overall: CResult,
    reads: Seq<RawReadView>,
    serviceable: bool,
)
    requires
        session.well_formed(),
        session.complete(),
        reads.len() >= session.call_len(),
    ensures
        session.after_call(overall, reads, serviceable).well_formed(),
        session.after_call(overall, reads, serviceable).complete(),
{
    let count = session.call_len();
    steps_complete(session, overall, reads, serviceable, count);
    steps_keep(session, overall, reads, serviceable, count);
    let middle = session.steps(overall, reads, serviceable, count);
    let after = session.after_call(overall, reads, serviceable);
    assert(after.waiting() =~= middle.waiting());
}

/// When no key waits any more and none was lost, every key has an answer that a read brought.
pub proof fn every_key_is_answered_at_the_end(session: SessionView, key: int)
    requires
        session.complete(),
        session.waiting().len() == 0,
        0 <= key < session.outcomes.len(),
    ensures
        session.outcomes[key] is Some,
        session.answers()[key] == session.outcomes[key]->0,
{
    if session.outcomes[key] is None {
        let i = choose|i: int|
            0 <= i < session.waiting().len() && (#[trigger] session.waiting()[i]).index == key;
        assert(false);
    }
}

/// How many reads the waiting keys can still take: each key is read once and then again three
/// times at most.
pub open spec fn reads_left(waiting: Seq<PendingRead>) -> int
    decreases waiting.len(),
{
    if waiting.len() == 0 {
        0
    } else {
        reads_left(waiting.drop_last()) + (1 + MAX_RESIZE_ATTEMPTS - waiting.last().resize_attempts)
    }
}

/// Every native call uses up at least one of the reads that are left for each of its keys. A
/// request therefore ends, whatever the native calls return.
pub proof fn reads_are_bounded(
    session: SessionView,
    overall: CResult,
    reads: Seq<RawReadView>,
    serviceable: bool,
)
    requires
        session.well_formed(),
    ensures
        0 <= reads_left(session.after_call(overall, reads, serviceable).waiting()),
        reads_left(session.after_call(overall, reads, serviceable).waiting())
            + session.call_len() <= reads_left(session.waiting()),
{
    let seen = seen_of(session, reads);
    steps_keep(session, overall, reads, serviceable, seen);
    steps_use_reads(session, overall, reads, serviceable, seen);
    let middle = session.steps(overall, reads, serviceable, seen);
    let after = session.after_call(overall, reads, serviceable);
    let skipped = (session.call_len() - seen) as nat;
    assert(after.waiting() =~= middle.waiting().skip(skipped as int));
    skipping_uses_reads(middle.waiting(), skipped);
}

/// A request for `n` keys starts with four reads for each.
pub proof fn four_reads_for_each_key(keys: Seq<Seq<char>>, names: Seq<Seq<char>>, limit: nat)
    ensures
        reads_left(read_session::started(keys, names, limit).waiting()) == 4 * keys.len(),
{
    let waiting = read_session::started(keys, names, limit).waiting();
    assert forall|i: int| 0 <= i < waiting.len() implies (
    #[trigger] waiting[i]).resize_attempts == 0 by {}
    fresh_reads(waiting);
}

/// What a native call does to the keys that it reads: each settled one is answered, each other
/// one waits for the size that its read announced.
pub proof fn every_read_counts(
    session: SessionView,
    overall: CResult,
    reads: Seq<RawReadView>,
    serviceable: bool,
    place: int,
)
    requires
        session.well_formed(),
        reads.len() >= session.call_len(),
        0 <= place < session.call_len(),
    ensures
        ({
            let item = session.call()[place];
            let after = session.after_call(overall, reads, serviceable);
            match read_session::judge(
                reads[place],
                overall,
                item.buffer_size as nat,
                item.resize_attempts as nat,
                session.limit,
                serviceable,
            ) {
                Verdict::Settled(answer) => after.outcomes[item.index as int] == Some(answer),
                Verdict::Again(size) => after.waiting().contains(
                    PendingRead {
                        index: item.index,
                        buffer_size: size as usize,
                        resize_attempts: (item.resize_attempts + 1) as usize,
                    },
                ),
            }
        }),
{
    let count = session.call_len();
    let middle = session.steps(overall, reads, serviceable, count);
    let after = session.after_call(overall, reads, serviceable);
    steps_keep(session, overall, reads, serviceable, count);
    place_is_settled(session, overall, reads, serviceable, place, count);
    assert(after.waiting() =~= middle.waiting());
    let item = session.call()[place];
    if let Verdict::Again(size) = read_session::judge(
        reads[place],
        overall,
        item.buffer_size as nat,
        item.resize_attempts as nat,
        session.limit,
        serviceable,
    ) {
        let wanted = PendingRead {
            index: item.index,
            buffer_size: size as usize,
            resize_attempts: (item.resize_attempts + 1) as usize,
        };
        let i = choose|i: int| 0 <= i < middle.retries.len() && middle.retries[i] == wanted;
        let at = middle.pending.len() - middle.next + i;
        assert(middle.waiting()[at] == wanted);
    }
}

/// A native call touches only the keys that it reads: every other key keeps its answer, or the
/// lack of one.
pub proof fn other_keys_are_untouched(
    session: SessionView,
    overall: CResult,
    reads: Seq<RawReadView>,
    serviceable: bool,
    key: int,
)
    requires
        session.well_formed(),
        0 <= key < session.outcomes.len(),
        forall|i: int| 0 <= i < session.call_len() ==> (#[trigger] session.call()[i]).index != key,
    ensures
        session.after_call(overall, reads, serviceable).outcomes[key] == session.outcomes[key],
{
    steps_touch_only_the_call(session, overall, reads, serviceable, key, seen_of(session, reads));
}

// Requests to a store whose values do not change meanwhile.

/// What a store holds for a key: nothing, or the frame of a payload with whatever follows it.
pub struct Stored {
    pub payload: Seq<u8>,
    pub tail: Seq<u8>,
}

impl Stored {
    /// The stored bytes.
    pub open spec fn bytes(self) -> Seq<u8> {
        frame::frame_bytes(self.payload) + self.tail
    }

    /// The length of the frame.
    pub open spec fn frame_len(self) -> nat {
        frame::frame_bytes(self.payload).len()
    }
}

/// Whether a read is what a working store returns for a key into a buffer of this size.
pub open spec fn replies(
    read: RawReadView,
    overall: CResult,
    content: Option<Stored>,
    buffer_size: nat,
) -> bool {
    match content {
        Some(stored) => faithful(read, overall, stored.bytes(), buffer_size),
        None => {
            let code = status::effective(read.result, overall, "get"@);
            ||| code == Ok::<CResult, Failure>(status::RET_MMS_NOT_FOUND)
            ||| code == Ok::<CResult, Failure>(status::RET_MMS_MISS)
        },
    }
}

/// The right answer for a key.
pub open spec fn right_answer(content: Option<Stored>) -> ReadAnswer {
    match content {
        Some(stored) => Ok(Some(stored.payload)),
        None => Ok(None),
    }
}

/// Whether all payloads keep within the limit.
pub open spec fn within_limit(contents: Seq<Option<Stored>>, limit: nat) -> bool {
    forall|i: int|
        0 <= i < contents.len() ==> ((#[trigger] contents[i]) matches Some(stored) ==> {
            &&& stored.payload.len() <= limit
            &&& stored.payload.len() <= u32::MAX
        })
}

/// Whether all answers so far are right, and every key that waits waits for its first read or for
/// one of exactly its size.
pub open spec fn on_course(session: SessionView, contents: Seq<Option<Stored>>) -> bool {
    &&& contents.len() == session.outcomes.len()
    &&& within_limit(contents, session.limit)
    &&& forall|k: int|
        0 <= k < session.outcomes.len() && (#[trigger] session.outcomes[k]) is Some
            ==> session.outcomes[k] == Some(right_answer(contents[k]))
    &&& forall|i: int|
        0 <= i < session.waiting().len() ==> on_time(#[trigger] session.waiting()[i], contents)
}

/// Whether a key waits for its first read or for one of exactly its size.
pub open spec fn on_time(item: PendingRead, contents: Seq<Option<Stored>>) -> bool {
    &&& HEADER_LEN <= item.buffer_size
    &&& item.resize_attempts == 0 || (item.resize_attempts == 1 && (contents[item.index as int]
        matches Some(stored) && item.buffer_size == stored.frame_len()))
}

/// A request starts on course.
pub proof fn requests_start_on_course(
    keys: Seq<Seq<char>>,
    names: Seq<Seq<char>>,
    limit: nat,
    contents: Seq<Option<Stored>>,
)
    requires
        contents.len() == keys.len(),
        limit + HEADER_LEN <= usize::MAX,
        within_limit(contents, limit),
    ensures
        on_course(read_session::started(keys, names, limit), contents),
{
    let session = read_session::started(keys, names, limit);
    assert(session.waiting() =~= session.pending);
}

/// A native call to a working store keeps a request on course.
pub proof fn working_stores_keep_requests_on_course(
    session: SessionView,
    overall: CResult,
    reads: Seq<RawReadView>,
    serviceable: bool,
    contents: Seq<Option<Stored>>,
)
    requires
        session.well_formed(),
        on_course(session, contents),
        reads.len() >= session.call_len(),
        forall|place: int|
            0 <= place < session.call_len() ==> replies(
                #[trigger] reads[place],
                overall,
                contents[session.call()[place].index as int],
                session.call()[place].buffer_size as nat,
            ),
    ensures
        on_course(session.after_call(overall, reads, serviceable), contents),
{
    let count = session.call_len();
    steps_stay_on_course(session, overall, reads, serviceable, contents, count);
    steps_keep(session, overall, reads, serviceable, count);
    let middle = session.steps(overall, reads, serviceable, count);
    let after = session.after_call(overall, reads, serviceable);
    assert(after.waiting() =~= middle.waiting());
}

/// A request that stayed on course and lost no key ends with the right answer for every key: what
/// was framed and stored, or that there is nothing.
pub proof fn requests_end_with_the_right_answers(
    session: SessionView,
    contents: Seq<Option<Stored>>,
    key: int,
)
    requires
        on_course(session, contents),
        session.complete(),
        session.waiting().len() == 0,
        0 <= key < contents.len(),
    ensures
        session.answers()[key] == right_answer(contents[key]),
{
    every_key_is_answered_at_the_end(session, key);
}

/// A request on course waits for no key a third time.
pub proof fn two_reads_suffice(session: SessionView, contents: Seq<Option<Stored>>, place: int)
    requires
        on_course(session, contents),
        0 <= place < session.waiting().len(),
    ensures
        session.waiting()[place].resize_attempts <= 1,
{
}

// Proofs about single reads.

proof fn announced(payload: Seq<u8>, data: Seq<u8>, limit: nat)
    requires
        payload.len() <= limit,
        payload.len() <= u32::MAX,
        data.len() >= HEADER_LEN,
        data.take(HEADER_LEN as int) == frame::frame_bytes(payload).take(HEADER_LEN as int),
    ensures
        frame::announced_length(data, limit) == Ok::<nat, Failure>(payload.len()),
{
    let framed = frame::frame_bytes(payload);
    let head = framed.take(9);
    big_endian::powers();
    big_endian::digits_length(payload.len(), 4);
    big_endian::value_of_digits(payload.len(), 4);
    assert(data.subrange(0, 4) =~= head.subrange(0, 4));
    assert(head.subrange(0, 4) =~= frame::magic());
    assert(data[4] == head[4]);
    assert(data.subrange(5, 9) =~= head.subrange(5, 9));
    assert(head.subrange(5, 9) =~= big_endian::digits(payload.len(), 4));
}

// Proofs about the steps of one call.

spec fn seen_of(session: SessionView, reads: Seq<RawReadView>) -> nat {
    if reads.len() < session.call_len() {
        reads.len()
    } else {
        session.call_len()
    }
}

proof fn steps_keep(
    session: SessionView,
    overall: CResult,
    reads: Seq<RawReadView>,
    serviceable: bool,
    count: nat,
)
    requires
        session.well_formed(),
        count <= session.call_len(),
    ensures
        ({
            let after = session.steps(overall, reads, serviceable, count);
            &&& after.sound()
            &&& after.pending == session.pending
            &&& after.next == session.next + count
            &&& after.limit == session.limit
            &&& after.names == session.names
            &&& after.outcomes.len() == session.outcomes.len()
            &&& forall|k: int|
                0 <= k < session.outcomes.len() && session.outcomes[k] is Some ==> (
                #[trigger] after.outcomes[k]) == session.outcomes[k]
        }),
    decreases count,
{
    if count > 0 {
        let previous = session.steps(overall, reads, serviceable, (count - 1) as nat);
        steps_keep(session, overall, reads, serviceable, (count - 1) as nat);
        read_session::step_is_sound(previous, overall, reads[count - 1], serviceable);
        assert(previous.waiting()[0] == previous.pending[previous.next as int]);
    }
}

proof fn steps_complete(
    session: SessionView,
    overall: CResult,
    reads: Seq<RawReadView>,
    serviceable: bool,
    count: nat,
)
    requires
        session.well_formed(),
        session.complete(),
        count <= session.call_len(),
    ensures
        session.steps(overall, reads, serviceable, count).complete(),
    decreases count,
{
    if count > 0 {
        let previous = session.steps(overall, reads, serviceable, (count - 1) as nat);
        let after = session.steps(overall, reads, serviceable, count);
        let item = previous.pending[previous.next as int];
        steps_complete(session, overall, reads, serviceable, (count - 1) as nat);
        steps_keep(session, overall, reads, serviceable, (count - 1) as nat);
        assert(previous.waiting()[0] == item);
        assert forall|k: int|
            0 <= k < after.outcomes.len() && (#[trigger] after.outcomes[k])
                is None implies exists|i: int|
            0 <= i < after.waiting().len() && (#[trigger] after.waiting()[i]).index == k by {
            assert(previous.outcomes[k] is None);
            let i = choose|i: int|
                0 <= i < previous.waiting().len() && (#[trigger] previous.waiting()[i]).index == k;
            if i > 0 {
                assert(after.waiting()[i - 1] == previous.waiting()[i]);
            } else {
                assert(after.waiting().last().index == k);
                assert(after.waiting()[after.waiting().len() - 1].index == k);
            }
        }
    }
}

proof fn place_is_settled(
    session: SessionView,
    overall: CResult,
    reads: Seq<RawReadView>,
    serviceable: bool,
    place: int,
    count: nat,
)
    requires
        session.well_formed(),
        0 <= place < count <= session.call_len(),
    ensures
        ({
            let item = session.call()[place];
            let after = session.steps(overall, reads, serviceable, count);
            match read_session::judge(
                reads[place],
                overall,
                item.buffer_size as nat,
                item.resize_attempts as nat,
                session.limit,
                serviceable,
            ) {
                Verdict::Settled(answer) => after.outcomes[item.index as int] == Some(answer),
                Verdict::Again(size) => exists|i: int|
                    0 <= i < after.retries.len() && after.retries[i] == (PendingRead {
                        index: item.index,
                        buffer_size: size as usize,
                        resize_attempts: (item.resize_attempts + 1) as usize,
                    }),
            }
        }),
    decreases count,
{
    let previous = session.steps(overall, reads, serviceable, (count - 1) as nat);
    let after = session.steps(overall, reads, serviceable, count);
    let item = session.call()[place];
    steps_keep(session, overall, reads, serviceable, (count - 1) as nat);
    assert(session.waiting()[place] == item);
    if place == count - 1 {
        assert(previous.pending[previous.next as int] == item);
        if let Verdict::Again(size) = read_session::judge(
            reads[place],
            overall,
            item.buffer_size as nat,
            item.resize_attempts as nat,
            session.limit,
            serviceable,
        ) {
            assert(after.retries[after.retries.len() - 1].index == item.index);
        }
    } else {
        place_is_settled(session, overall, reads, serviceable, place, (count - 1) as nat);
        let current = session.call()[count - 1];
        assert(previous.pending[previous.next as int] == current);
        assert(session.waiting()[count - 1] == current);
        assert(current.index != item.index);
        if let Verdict::Again(size) = read_session::judge(
            reads[place],
            overall,
            item.buffer_size as nat,
            item.resize_attempts as nat,
            session.limit,
            serviceable,
        ) {
            let wanted = PendingRead {
                index: item.index,
                buffer_size: size as usize,
                resize_attempts: (item.resize_attempts + 1) as usize,
            };
            let i = choose|i: int| 0 <= i < previous.retries.len() && previous.retries[i] == wanted;
            assert(after.retries[i] == wanted);
        }
    }
}

proof fn steps_stay_on_course(
    session: SessionView,
    overall: CResult,
    reads: Seq<RawReadView>,
    serviceable: bool,
    contents: Seq<Option<Stored>>,
    count: nat,
)
    requires
        session.well_formed(),
        on_course(session, contents),
        count <= session.call_len() <= reads.len(),
        forall|place: int|
            0 <= place < session.call_len() ==> replies(
                #[trigger] reads[place],
                overall,
                contents[session.call()[place].index as int],
                session.call()[place].buffer_size as nat,
            ),
    ensures
        on_course(session.steps(overall, reads, serviceable, count), contents),
    decreases count,
{
    if count > 0 {
        let previous = session.steps(overall, reads, serviceable, (count - 1) as nat);
        let after = session.steps(overall, reads, serviceable, count);
        let read = reads[count - 1];
        steps_keep(session, overall, reads, serviceable, (count - 1) as nat);
        steps_stay_on_course(
            session,
            overall,
            reads,
            serviceable,
            contents,
            (count - 1) as nat,
        );
        let item = previous.pending[previous.next as int];
        let content = contents[item.index as int];
        assert(session.call()[count - 1] == item);
        assert(previous.waiting()[0] == item);
        assert(on_time(previous.waiting()[0], contents));
        let rest = previous.waiting().drop_first();
        if let Some(stored) = content {
            assert(contents[item.index as int] is Some);
            a_working_store_is_read_right(
                stored.payload,
                stored.tail,
                read,
                overall,
                item.buffer_size as nat,
                item.resize_attempts as nat,
                session.limit,
                serviceable,
            );
            big_endian::digits_length(stored.payload.len(), 4);
        }
        if after.retries == previous.retries {
            assert(after.waiting() =~= rest);
            assert forall|i: int| 0 <= i < after.waiting().len() implies on_time(
                #[trigger] after.waiting()[i],
                contents,
            ) by {
                assert(after.waiting()[i] == previous.waiting()[i + 1]);
            }
        } else {
            let added = after.retries.last();
            assert(after.waiting() =~= rest.push(added));
            assert(on_time(added, contents));
            assert forall|i: int| 0 <= i < after.waiting().len() implies on_time(
                #[trigger] after.waiting()[i],
                contents,
            ) by {
                if i < rest.len() {
                    assert(after.waiting()[i] == previous.waiting()[i + 1]);
                }
            }
        }
    }
}

proof fn steps_touch_only_the_call(
    session: SessionView,
    overall: CResult,
    reads: Seq<RawReadView>,
    serviceable: bool,
    key: int,
    count: nat,
)
    requires
        session.well_formed(),
        count <= session.call_len(),
        0 <= key < session.outcomes.len(),
        forall|i: int| 0 <= i < session.call_len() ==> (#[trigger] session.call()[i]).index != key,
    ensures
        session.steps(overall, reads, serviceable, count).outcomes[key] == session.outcomes[key],
    decreases count,
{
    if count > 0 {
        let previous = session.steps(overall, reads, serviceable, (count - 1) as nat);
        steps_keep(session, overall, reads, serviceable, (count - 1) as nat);
        steps_touch_only_the_call(
            session,
            overall,
            reads,
            serviceable,
            key,
            (count - 1) as nat,
        );
        assert(session.call()[count - 1] == previous.pending[previous.next as int]);
        assert(previous.waiting()[0] == previous.pending[previous.next as int]);
    }
}

// Proofs about the number of reads.

proof fn fresh_reads(waiting: Seq<PendingRead>)
    requires
        forall|i: int| 0 <= i < waiting.len() ==> (#[trigger] waiting[i]).resize_attempts == 0,
    ensures
        reads_left(waiting) == 4 * waiting.len(),
    decreases waiting.len(),
{
    if waiting.len() > 0 {
        fresh_reads(waiting.drop_last());
    }
}

proof fn reads_from_front(waiting: Seq<PendingRead>)
    requires
        waiting.len() > 0,
    ensures
        reads_left(waiting) == reads_left(waiting.drop_first()) + (1 + MAX_RESIZE_ATTEMPTS
            - waiting[0].resize_attempts),
    decreases waiting.len(),
{
    if waiting.len() == 1 {
        assert(waiting.drop_first() =~= Seq::empty());
        assert(waiting.drop_last() =~= Seq::empty());
    } else {
        reads_from_front(waiting.drop_last());
        assert(waiting.drop_first().drop_last() =~= waiting.drop_last().drop_first());
    }
}

proof fn skipping_uses_reads(waiting: Seq<PendingRead>, count: nat)
    requires
        count <= waiting.len(),
        forall|i: int|
            0 <= i < waiting.len() ==> (#[trigger] waiting[i]).resize_attempts
                <= MAX_RESIZE_ATTEMPTS,
    ensures
        0 <= reads_left(waiting.skip(count as int)),
        reads_left(waiting.skip(count as int)) + count <= reads_left(waiting),
    decreases waiting.len(),
{
    if count == 0 {
        assert(waiting.skip(0) =~= waiting);
        if waiting.len() > 0 {
            skipping_uses_reads(waiting.drop_last(), 0);
            assert(waiting.drop_last().skip(0) =~= waiting.drop_last());
        }
    } else {
        let rest = waiting.drop_first();
        reads_from_front(waiting);
        assert forall|i: int| 0 <= i < rest.len() implies (#[trigger] rest[i]).resize_attempts
            <= MAX_RESIZE_ATTEMPTS by {
            assert(rest[i] == waiting[i + 1]);
        }
        skipping_uses_reads(rest, (count - 1) as nat);
        assert(rest.skip(count - 1) =~= waiting.skip(count as int));
    }
}

proof fn steps_use_reads(
    session: SessionView,
    overall: CResult,
    reads: Seq<RawReadView>,
    serviceable: bool,
    count: nat,
)
    requires
        session.well_formed(),
        count <= session.call_len(),
    ensures
        reads_left(session.steps(overall, reads, serviceable, count).waiting()) + count
            <= reads_left(session.waiting()),
    decreases count,
{
    if count > 0 {
        let previous = session.steps(overall, reads, serviceable, (count - 1) as nat);
        let after = session.steps(overall, reads, serviceable, count);
        steps_keep(session, overall, reads, serviceable, (count - 1) as nat);
        steps_use_reads(session, overall, reads, serviceable, (count - 1) as nat);
        let waiting = previous.waiting();
        let item = previous.pending[previous.next as int];
        assert(waiting[0] == item);
        reads_from_front(waiting);
        let rest = waiting.drop_first();
        if after.retries == previous.retries {
            assert(after.waiting() =~= rest);
        } else {
            let added = after.retries.last();
            assert(after.waiting() =~= rest.push(added));
            assert(rest.push(added).drop_last() =~= rest);
        }
    }
}

/// Every key of a request is read first, in its order, into a buffer of 4096 bytes, or of as many
/// as the largest frame has where that is less. None has an answer before that.
pub proof fn every_key_is_first_read_into_4096_bytes(
    keys: Seq<Seq<char>>,
    names: Seq<Seq<char>>,
    limit: nat,
    key: int,
)
    requires
        0 <= key < keys.len() <= usize::MAX,
        limit + 9 <= usize::MAX,
    ensures
        ({
            let session = read_session::started(keys, names, limit);
            &&& session.limit == limit
            &&& session.names == names
            &&& session.waiting().len() == keys.len()
            &&& session.waiting()[key].index == key
            &&& session.waiting()[key].resize_attempts == 0
            &&& session.waiting()[key].buffer_size == if limit + 9 < 4096 {
                limit + 9
            } else {
                4096
            }
            &&& session.outcomes.len() == keys.len()
            &&& session.outcomes[key] is None
        }),
{
    let session = read_session::started(keys, names, limit);
    assert(session.waiting() =~= session.pending);
}

/// A native call reads the keys that wait, in their order: all that are left of a round, but no
/// more than 256.
pub proof fn a_call_reads_up_to_256_keys(session: SessionView, place: int)
    requires
        session.well_formed(),
    ensures
        session.call_len() == if session.pending.len() - session.next < 256 {
            session.pending.len() - session.next
        } else {
            256
        },
        session.call().len() == session.call_len(),
        0 <= place < session.call_len() ==> session.call()[place] == session.waiting()[place],
{
}

/// At the end every key has the answer that it was given, and one that was given none is answered
/// with an internal error.
pub proof fn every_key_gets_its_answer(session: SessionView, key: int)
    requires
        0 <= key < session.outcomes.len(),
    ensures
        session.answers().len() == session.outcomes.len(),
        session.outcomes[key] matches Some(answer) ==> session.answers()[key] == answer,
        session.outcomes[key] is None ==> (session.answers()[key] matches Err(failure)
            && failure.kind == ErrorKind::Internal),
{
}

/// Reads and answers are seen as they are, one by one.
pub proof fn reads_are_seen_whole(
    reads: Seq<RawRead>,
    answers: Seq<MemStoreItemResult<Option<Bytes>>>,
    index: int,
)
    ensures
        read_session::read_views(reads).len() == reads.len(),
        read_session::answer_views(answers).len() == answers.len(),
        0 <= index < reads.len() ==> {
            let seen = read_session::read_views(reads)[index];
            &&& seen.data == outside::content(reads[index].buffer)
            &&& seen.preserved == reads[index].caller_buffer_preserved
            &&& seen.real_length == reads[index].real_length
            &&& seen.result == reads[index].result
        },
        0 <= index < answers.len() ==> {
            let seen = read_session::answer_views(answers)[index];
            &&& answers[index] matches Ok(Some(value)) ==> seen == Ok::<
                Option<Seq<u8>>,
                Failure,
            >(Some(outside::content(value)))
            &&& answers[index] matches Ok(None) ==> seen == Ok::<Option<Seq<u8>>, Failure>(None)
            &&& answers[index] matches Err(error) ==> seen == Err::<Option<Seq<u8>>, Failure>(
                error@,
            )
        },
{
}

/// What a read means is seen as it is.
pub proof fn verdicts_are_seen_whole(step: ReadStep)
    ensures
        step matches ReadStep::Again(size) ==> step@ == Verdict::Again(size as nat),
        step matches ReadStep::Settled(Ok(Some(value))) ==> step@ == Verdict::Settled(
            Ok(Some(outside::content(value))),
        ),
        step matches ReadStep::Settled(Ok(None)) ==> step@ == Verdict::Settled(Ok(None)),
        step matches ReadStep::Settled(Err(error)) ==> step@ == Verdict::Settled(Err(error@)),
{
}

} // verus!
