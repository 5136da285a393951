//! Reads of one or more keys through caller-owned buffers.
//!
//! Every key is first read into a small buffer. A value that fits is answered from that read. A
//! value that does not fit announces its size in its header and is read again into a buffer of
//! exactly that size; this is repeated while the value grows, a few times at most. The native
//! calls are made outside: a session says what to read next and takes in what came back.

use crate::error;
use crate::error::{ErrorKind, Failure, MemStoreItemResult, MemStoreStoreError};
use crate::frame;
use crate::frame::HEADER_LEN;
use crate::outside;
use crate::status;
use crate::status::CResult;
use bytes::Bytes;
use vstd::prelude::*;

verus! {

/// The buffer for the first read of a key.
pub const INITIAL_READ_BUFFER_SIZE: usize = 4096;

/// The most keys that one native call reads.
pub const MAX_READ_BATCH_SIZE: usize = 256;

/// How often a key is read again because its value did not fit.
pub const MAX_RESIZE_ATTEMPTS: usize = 3;

/// What a native read returned for one key.
pub struct RawRead {
    /// The caller's buffer after the call.
    pub buffer: Bytes,
    /// Whether the call left the caller's buffer in place.
    pub caller_buffer_preserved: bool,
    /// The stored length that the call reported.
    pub real_length: usize,
    /// The item's status.
    pub result: CResult,
}

/// The content of a `RawRead`.
pub struct RawReadView {
    pub data: Seq<u8>,
    pub preserved: bool,
    pub real_length: usize,
    pub result: CResult,
}

impl View for RawRead {
    type V = RawReadView;

    open spec fn view(&self) -> RawReadView {
        RawReadView {
            data: outside::content(self.buffer),
            preserved: self.caller_buffer_preserved,
            real_length: self.real_length,
            result: self.result,
        }
    }
}

/// The contents of a list of reads.
pub open spec fn read_views(reads: Seq<RawRead>) -> Seq<RawReadView> {
    Seq::new(reads.len(), |i: int| reads[i]@)
}

/// A key that is still to be read.
#[derive(Debug, Clone, Copy, PartialEq, Eq, Structural)]
pub struct PendingRead {
    /// The place of the key in the request.
    pub index: usize,
    /// The buffer for the next read.
    pub buffer_size: usize,
    /// How often the key has been read again.
    pub resize_attempts: usize,
}

/// The answer for one key: its value, that there is none, or an error.
pub type ReadAnswer = Result<Option<Seq<u8>>, Failure>;

/// The content of an answer.
pub open spec fn answer_view(answer: MemStoreItemResult<Option<Bytes>>) -> ReadAnswer {
    match answer {
        Ok(Some(value)) => Ok(Some(outside::content(value))),
        Ok(None) => Ok(None),
        Err(error) => Err(error@),
    }
}

/// The contents of a list of answers.
pub open spec fn answer_views(answers: Seq<MemStoreItemResult<Option<Bytes>>>) -> Seq<ReadAnswer> {
    Seq::new(answers.len(), |i: int| answer_view(answers[i]))
}

/// What one read means for its key.
pub enum Verdict {
    /// The key is answered.
    Settled(ReadAnswer),
    /// The key has to be read again into a buffer of this size.
    Again(nat),
}

/// The first buffer size, the same for every key.
pub open spec fn initial_size(max_frame_size: nat) -> nat {
    if INITIAL_READ_BUFFER_SIZE < max_frame_size {
        INITIAL_READ_BUFFER_SIZE as nat
    } else {
        max_frame_size
    }
}

/// The answer to a frame that the read did not cover.
pub open spec fn truncated_frame() -> Failure {
    error::failure(ErrorKind::InvalidData, "MemStore get returned a truncated frame"@)
}

/// The answer to a value that was still too large after the last read.
pub open spec fn kept_growing() -> Failure {
    error::failure(
        ErrorKind::Unavailable,
        "MemStore value kept growing during 3 resize attempts"@,
    )
}

/// The answer for a key of which no read came back.
pub open spec fn no_result() -> Failure {
    error::failure(ErrorKind::Internal, "MemStore get did not produce an item result"@)
}

/// What a read into a buffer of `buffer_size` bytes, after `attempts` reads again, means for its
/// key. `limit` is the largest payload.
pub open spec fn judge(
    read: RawReadView,
    overall: CResult,
    buffer_size: nat,
    attempts: nat,
    limit: nat,
    serviceable: bool,
) -> Verdict {
    match status::effective(read.result, overall, "get"@) {
        Err(failure) => Verdict::Settled(Err(failure)),
        Ok(code) => if code == status::RET_MMS_NOT_FOUND || code == status::RET_MMS_MISS {
            Verdict::Settled(Ok(None))
        } else if code == status::RET_MMS_OK || code == status::RET_MMS_READ_EXCEED {
            if !read.preserved {
                Verdict::Settled(Err(status::replaced_buffer("get"@)))
            } else {
                match frame::announced_length(read.data, limit) {
                    Err(failure) => Verdict::Settled(Err(failure)),
                    Ok(length) => if HEADER_LEN + length > buffer_size {
                        if attempts < MAX_RESIZE_ATTEMPTS {
                            Verdict::Again((HEADER_LEN + length) as nat)
                        } else {
                            Verdict::Settled(Err(kept_growing()))
                        }
                    } else if read.real_length < HEADER_LEN + length {
                        Verdict::Settled(Err(truncated_frame()))
                    } else {
                        match frame::payload_of(read.data, limit) {
                            Err(failure) => Verdict::Settled(Err(failure)),
                            Ok(payload) => Verdict::Settled(Ok(Some(payload))),
                        }
                    },
                }
            }
        } else {
            Verdict::Settled(Err(status::status_failure(code, "get"@, serviceable)))
        },
    }
}

/// The state of a read request.
pub struct SessionView {
    /// The largest payload.
    pub limit: nat,
    /// The stored names of the keys.
    pub names: Seq<Seq<char>>,
    /// The answers so far.
    pub outcomes: Seq<Option<ReadAnswer>>,
    /// The keys of this round.
    pub pending: Seq<PendingRead>,
    /// The keys of the next round.
    pub retries: Seq<PendingRead>,
    /// How many keys of this round have been read.
    pub next: nat,
}

impl SessionView {
    /// The keys that have no answer yet, in the order in which they will be read.
    pub open spec fn waiting(self) -> Seq<PendingRead> {
        self.pending.skip(self.next as int) + self.retries
    }

    /// What holds while a round is under way.
    pub open spec fn sound(self) -> bool {
        &&& self.limit + HEADER_LEN <= usize::MAX
        &&& self.names.len() == self.outcomes.len()
        &&& frame::names_fit(self.names)
        &&& self.next <= self.pending.len()
        &&& forall|i: int|
            0 <= i < self.waiting().len() ==> {
                &&& (#[trigger] self.waiting()[i]).index < self.names.len()
                &&& self.waiting()[i].buffer_size <= self.limit + HEADER_LEN
                &&& self.waiting()[i].resize_attempts <= MAX_RESIZE_ATTEMPTS
                &&& self.outcomes[self.waiting()[i].index as int] is None
            }
        &&& forall|i: int, j: int|
            0 <= i < j < self.waiting().len() ==> (#[trigger] self.waiting()[i]).index != (
            #[trigger] self.waiting()[j]).index
    }

    /// What holds between native calls: each unanswered key waits once, and a round starts as
    /// soon as the last one is through.
    pub open spec fn well_formed(self) -> bool {
        &&& self.sound()
        &&& self.next < self.pending.len() || (self.pending.len() == 0 && self.retries.len() == 0)
    }

    /// Whether every key is answered or waits.
    pub open spec fn complete(self) -> bool {
        forall|k: int|
            0 <= k < self.outcomes.len() && (#[trigger] self.outcomes[k]) is None ==> exists|i: int|
                0 <= i < self.waiting().len() && (#[trigger] self.waiting()[i]).index == k
    }

    /// How many keys the next native call reads.
    pub open spec fn call_len(self) -> nat {
        let left = (self.pending.len() - self.next) as nat;
        if left < MAX_READ_BATCH_SIZE {
            left
        } else {
            MAX_READ_BATCH_SIZE as nat
        }
    }

    /// The keys that the next native call reads.
    pub open spec fn call(self) -> Seq<PendingRead> {
        self.pending.subrange(self.next as int, (self.next + self.call_len()) as int)
    }

    /// The state after the read of the next key.
    pub open spec fn step(
        self,
        overall: CResult,
        read: RawReadView,
        serviceable: bool,
    ) -> SessionView {
        let item = self.pending[self.next as int];
        match judge(
            read,
            overall,
            item.buffer_size as nat,
            item.resize_attempts as nat,
            self.limit,
            serviceable,
        ) {
            Verdict::Settled(answer) => SessionView {
                outcomes: self.outcomes.update(item.index as int, Some(answer)),
                next: self.next + 1,
                ..self
            },
            Verdict::Again(size) => SessionView {
                retries: self.retries.push(
                    PendingRead {
                        index: item.index,
                        buffer_size: size as usize,
                        resize_attempts: (item.resize_attempts + 1) as usize,
                    },
                ),
                next: self.next + 1,
                ..self
            },
        }
    }

    /// The state after the reads of the next `count` keys.
    pub open spec fn steps(
        self,
        overall: CResult,
        reads: Seq<RawReadView>,
        serviceable: bool,
        count: nat,
    ) -> SessionView
        decreases count,
    {
        if count == 0 {
            self
        } else {
            self.steps(overall, reads, serviceable, (count - 1) as nat).step(
                overall,
                reads[count - 1],
                serviceable,
            )
        }
    }

    /// The state with the first `to` keys of the round done, and the next round begun where
    /// those were all.
    pub open spec fn turned(self, to: nat) -> SessionView {
        if to >= self.pending.len() {
            SessionView { pending: self.retries, retries: Seq::empty(), next: 0, ..self }
        } else {
            SessionView { next: to, ..self }
        }
    }

    /// The state after a native call. Of a key for which no read came back, nothing is known.
    pub open spec fn after_call(
        self,
        overall: CResult,
        reads: Seq<RawReadView>,
        serviceable: bool,
    ) -> SessionView {
        let seen = if reads.len() < self.call_len() {
            reads.len()
        } else {
            self.call_len()
        };
        self.steps(overall, reads, serviceable, seen).turned(self.next + self.call_len())
    }

    /// The answers at the end.
    pub open spec fn answers(self) -> Seq<ReadAnswer> {
        Seq::new(
            self.outcomes.len(),
            |i: int|
                match self.outcomes[i] {
                    Some(answer) => answer,
                    None => Err(no_result()),
                },
        )
    }
}

/// The state before the first read, for keys with these names.
pub open spec fn started(keys: Seq<Seq<char>>, names: Seq<Seq<char>>, limit: nat) -> SessionView {
    SessionView {
        limit,
        names,
        outcomes: Seq::new(keys.len(), |i: int| None),
        pending: Seq::new(
            keys.len(),
            |i: int|
                PendingRead {
                    index: i as usize,
                    buffer_size: initial_size(limit + HEADER_LEN as nat) as usize,
                    resize_attempts: 0,
                },
        ),
        retries: Seq::empty(),
        next: 0,
    }
}

/// The first buffer size for a key: 4 KiB, or less where no frame is that large.
pub fn initial_read_buffer_size(_key: &str, max_frame_size: usize) -> (size: usize)
    ensures
        size == if INITIAL_READ_BUFFER_SIZE < max_frame_size {
            INITIAL_READ_BUFFER_SIZE
        } else {
            max_frame_size
        },
{
    if INITIAL_READ_BUFFER_SIZE < max_frame_size {
        INITIAL_READ_BUFFER_SIZE
    } else {
        max_frame_size
    }
}

/// What one read means for its key, on executable values.
pub enum ReadStep {
    /// The key is answered.
    Settled(MemStoreItemResult<Option<Bytes>>),
    /// The key has to be read again into a buffer of this size.
    Again(usize),
}

impl View for ReadStep {
    type V = Verdict;

    open spec fn view(&self) -> Verdict {
        match *self {
            ReadStep::Settled(answer) => Verdict::Settled(answer_view(answer)),
            ReadStep::Again(size) => Verdict::Again(size as nat),
        }
    }
}

/// What a read into a buffer of `buffer_size` bytes means for its key.
pub fn judge_read(
    read: RawRead,
    overall: CResult,
    buffer_size: usize,
    resize_attempts: usize,
    max_value_size: usize,
    serviceable: bool,
) -> (step: ReadStep)
    requires
        max_value_size + HEADER_LEN <= usize::MAX,
    ensures
        step@ == judge(
            read@,
            overall,
            buffer_size as nat,
            resize_attempts as nat,
            max_value_size as nat,
            serviceable,
        ),
{
    let code: CResult = match status::effective_result(read.result, overall, "get") {
        Ok(code) => code,
        Err(error) => return ReadStep::Settled(Err(error)),
    };
    if code == status::RET_MMS_NOT_FOUND || code == status::RET_MMS_MISS {
        return ReadStep::Settled(Ok(None));
    }
    if code != status::RET_MMS_OK && code != status::RET_MMS_READ_EXCEED {
        return ReadStep::Settled(Err(status::map_native_status(code, "get", serviceable)));
    }
    if !read.caller_buffer_preserved {
        return ReadStep::Settled(Err(status::zero_copy_error("get")));
    }
    let payload: usize = match frame::payload_len(
        outside::bytes_as_slice(&read.buffer),
        max_value_size,
    ) {
        Ok(payload) => payload,
        Err(error) => return ReadStep::Settled(Err(error)),
    };
    let required_size: usize = HEADER_LEN + payload;
    if required_size > buffer_size {
        if resize_attempts < MAX_RESIZE_ATTEMPTS {
            ReadStep::Again(required_size)
        } else {
            ReadStep::Settled(
                Err(
                    MemStoreStoreError::Unavailable(
                        "MemStore value kept growing during 3 resize attempts".to_owned(),
                    ),
                ),
            )
        }
    } else if read.real_length < required_size {
        ReadStep::Settled(
            Err(
                MemStoreStoreError::InvalidData(
                    "MemStore get returned a truncated frame".to_owned(),
                ),
            ),
        )
    } else {
        match frame::decode_owned_value(read.buffer, max_value_size) {
            Ok(value) => ReadStep::Settled(Ok(Some(value))),
            Err(error) => ReadStep::Settled(Err(error)),
        }
    }
}

/// The keys and buffer sizes of one native read call.
pub struct ReadCall {
    pub keys: Vec<String>,
    pub buffer_sizes: Vec<usize>,
}

/// A read request under way.
pub struct ReadSession {
    max_value_size: usize,
    native_keys: Vec<String>,
    outcomes: Vec<Option<MemStoreItemResult<Option<Bytes>>>>,
    pending: Vec<PendingRead>,
    retries: Vec<PendingRead>,
    next: usize,
}

spec fn outcome_views(outcomes: Seq<Option<MemStoreItemResult<Option<Bytes>>>>) -> Seq<
    Option<ReadAnswer>,
> {
    Seq::new(
        outcomes.len(),
        |i: int|
            match outcomes[i] {
                Some(answer) => Some(answer_view(answer)),
                None => None,
            },
    )
}

impl View for ReadSession {
    type V = SessionView;

    closed spec fn view(&self) -> SessionView {
        SessionView {
            limit: self.max_value_size as nat,
            names: frame::texts(self.native_keys@),
            outcomes: outcome_views(self.outcomes@),
            pending: self.pending@,
            retries: self.retries@,
            next: self.next as nat,
        }
    }
}

impl ReadSession {
    /// Starts a request. Fails where a key is empty.
    pub fn start(keys: &[String], max_value_size: usize) -> (session: Result<
        ReadSession,
        MemStoreStoreError,
    >)
        requires
            max_value_size + HEADER_LEN <= usize::MAX,
        ensures
            match frame::native_keys_of(frame::texts(keys@)) {
                Ok(names) => {
                    &&& session matches Ok(got)
                    &&& got@ == started(frame::texts(keys@), names, max_value_size as nat)
                    &&& got@.well_formed()
                    &&& got@.complete()
                },
                Err(failure) => session matches Err(error) && error@ == failure,
            },
    {
        let native_keys = match frame::native_keys(keys) {
            Ok(native_keys) => native_keys,
            Err(error) => return Err(error),
        };
        let max_frame_size: usize = HEADER_LEN + max_value_size;
        let mut outcomes: Vec<Option<MemStoreItemResult<Option<Bytes>>>> = Vec::new();
        let mut pending: Vec<PendingRead> = Vec::new();
        let mut index: usize = 0;
        while index < keys.len()
            invariant
                index <= keys@.len(),
                max_frame_size == HEADER_LEN + max_value_size,
                outcomes@.len() == index,
                pending@.len() == index,
                forall|i: int| 0 <= i < index ==> (#[trigger] outcomes@[i]) is None,
                forall|i: int|
                    0 <= i < index ==> (#[trigger] pending@[i]) == (PendingRead {
                        index: i as usize,
                        buffer_size: initial_size(max_frame_size as nat) as usize,
                        resize_attempts: 0,
                    }),
            decreases keys@.len() - index,
        {
            let buffer_size: usize = initial_read_buffer_size(keys[index].as_str(), max_frame_size);
            outcomes.push(None);
            pending.push(PendingRead { index, buffer_size, resize_attempts: 0 });
            index = index + 1;
        }
        let session = ReadSession {
            max_value_size,
            native_keys,
            outcomes,
            pending,
            retries: Vec::new(),
            next: 0,
        };
        proof {
            let names = frame::native_keys_of(frame::texts(keys@))->Ok_0;
            let expected = started(frame::texts(keys@), names, max_value_size as nat);
            assert(session@.outcomes =~= expected.outcomes);
            assert(session@.pending =~= expected.pending);
            assert(session@.waiting() =~= session@.pending);
            assert forall|k: int|
                0 <= k < session@.outcomes.len() && (#[trigger] session@.outcomes[k])
                    is None implies exists|i: int|
                0 <= i < session@.waiting().len() && (#[trigger] session@.waiting()[i]).index
                    == k by {
                assert(session@.waiting()[k].index == k);
            }
        }
        Ok(session)
    }

    /// How many keys the next native call reads.
    fn call_len(&self) -> (len: usize)
        requires
            self@.sound(),
        ensures
            len == self@.call_len(),
    {
        let left: usize = self.pending.len() - self.next;
        if left < MAX_READ_BATCH_SIZE {
            left
        } else {
            MAX_READ_BATCH_SIZE
        }
    }

    /// The next native call, or nothing where every key has been read.
    pub fn next_call(&self) -> (call: Option<ReadCall>)
        requires
            self@.well_formed(),
        ensures
            self@.waiting().len() == 0 <==> call is None,
            call matches Some(read) ==> {
                let items = self@.call();
                &&& 0 < items.len() <= MAX_READ_BATCH_SIZE
                &&& frame::texts(read.keys@) == Seq::new(
                    items.len(),
                    |i: int| self@.names[items[i].index as int],
                )
                &&& read.buffer_sizes@ == Seq::new(items.len(), |i: int| items[i].buffer_size)
                &&& frame::names_fit(frame::texts(read.keys@))
            },
    {
        if self.pending.len() == 0 {
            assert(self@.waiting().len() == 0);
            return None;
        }
        let len: usize = self.call_len();
        let ghost items = self@.call();
        let mut keys: Vec<String> = Vec::new();
        let mut buffer_sizes: Vec<usize> = Vec::new();
        let mut offset: usize = 0;
        while offset < len
            invariant
                self@.well_formed(),
                self.next + len <= self.pending.len(),
                items == self@.call(),
                len == items.len(),
                offset <= len,
                keys@.len() == offset,
                buffer_sizes@.len() == offset,
                forall|i: int| 0 <= i < offset ==> frame::name_fits((#[trigger] keys@[i])@),
                forall|i: int|
                    0 <= i < offset ==> (#[trigger] keys@[i])@
                        == self@.names[items[i].index as int],
                forall|i: int|
                    0 <= i < offset ==> (#[trigger] buffer_sizes@[i]) == items[i].buffer_size,
            decreases len - offset,
        {
            let item = self.pending[self.next + offset];
            assert(item == items[offset as int]);
            assert(item == self@.waiting()[offset as int]);
            assert(frame::name_fits(self@.names[item.index as int]));
            keys.push(self.native_keys[item.index].clone());
            buffer_sizes.push(item.buffer_size);
            offset = offset + 1;
        }
        assert(frame::texts(keys@) =~= Seq::new(
            items.len(),
            |i: int| self@.names[items[i].index as int],
        ));
        assert(buffer_sizes@ =~= Seq::new(items.len(), |i: int| items[i].buffer_size));
        Some(ReadCall { keys, buffer_sizes })
    }

    /// Takes in the read of the next key.
    fn settle(&mut self, overall: CResult, read: RawRead, serviceable: bool)
        requires
            old(self)@.sound(),
            old(self)@.next < old(self)@.pending.len(),
        ensures
            final(self)@ == old(self)@.step(overall, read@, serviceable),
            final(self)@.sound(),
    {
        let item = self.pending[self.next];
        let ghost before = self@;
        assert(before.waiting()[0] == item);
        assert(self.next < self.pending.len());
        match judge_read(
            read,
            overall,
            item.buffer_size,
            item.resize_attempts,
            self.max_value_size,
            serviceable,
        ) {
            ReadStep::Settled(answer) => {
                self.outcomes[item.index] = Some(answer);
                self.next = self.next + 1;
                assert(self@.outcomes =~= before.step(overall, read@, serviceable).outcomes);
            },
            ReadStep::Again(size) => {
                self.retries.push(
                    PendingRead {
                        index: item.index,
                        buffer_size: size,
                        resize_attempts: item.resize_attempts + 1,
                    },
                );
                self.next = self.next + 1;
            },
        }
        proof {
            step_is_sound(before, overall, read@, serviceable);
        }
    }

    /// Takes in what a native call returned: its status and one read for each key of the call.
    /// Reads beyond those are ignored; a key without a read is answered with an error at the end.
    pub fn absorb(&mut self, overall: CResult, reads: Vec<RawRead>, serviceable: bool)
        requires
            old(self)@.well_formed(),
        ensures
            final(self)@ == old(self)@.after_call(overall, read_views(reads@), serviceable),
            final(self)@.well_formed(),
    {
        assert(self@.pending.len() == self.pending.len());
        let stop: usize = self.next + self.call_len();
        let ghost before = self@;
        let ghost views = read_views(reads@);
        let ghost mut seen: nat = 0;
        for read in it: reads
            invariant
                it.seq() == reads@,
                views == read_views(reads@),
                stop == before.next + before.call_len(),
                stop <= before.pending.len(),
                seen == if it.index() < before.call_len() {
                    it.index() as nat
                } else {
                    before.call_len()
                },
                self@.sound(),
                self@ == before.steps(overall, views, serviceable, seen),
                self@.next == before.next + seen,
                self@.pending == before.pending,
        {
            if self.next < stop {
                assert(read@ == views[seen as int]);
                self.settle(overall, read, serviceable);
                proof {
                    seen = seen + 1;
                }
            }
        }
        let ghost middle = self@;
        if stop >= self.pending.len() {
            let mut retries: Vec<PendingRead> = Vec::new();
            std::mem::swap(&mut retries, &mut self.retries);
            self.pending = retries;
            self.next = 0;
        } else {
            self.next = stop;
        }
        proof {
            assert(self@ == middle.turned(stop as nat));
            turn_is_sound(middle, stop as nat);
        }
    }

    /// The answers, one for each key.
    pub fn finish(self) -> (answers: Vec<MemStoreItemResult<Option<Bytes>>>)
        ensures
            answer_views(answers@) == self@.answers(),
    {
        let mut answers: Vec<MemStoreItemResult<Option<Bytes>>> = Vec::new();
        let ghost outcomes = self.outcomes@;
        let outcomes_left = self.outcomes;
        for outcome in it: outcomes_left
            invariant
                it.seq() == outcomes,
                answers@.len() == it.index(),
                forall|i: int|
                    0 <= i < it.index() ==> answer_view(#[trigger] answers@[i]) == (
                    match outcomes[i] {
                        Some(answer) => answer_view(answer),
                        None => Err(no_result()),
                    }),
        {
            match outcome {
                Some(answer) => answers.push(answer),
                None => answers.push(
                    Err(
                        MemStoreStoreError::Internal(
                            "MemStore get did not produce an item result".to_owned(),
                        ),
                    ),
                ),
            }
        }
        assert(answer_views(answers@) =~= self@.answers());
        answers
    }
}

pub(crate) proof fn step_is_sound(
    session: SessionView,
    overall: CResult,
    read: RawReadView,
    serviceable: bool,
)
    requires
        session.sound(),
        session.next < session.pending.len(),
    ensures
        session.step(overall, read, serviceable).sound(),
{
    let after = session.step(overall, read, serviceable);
    let item = session.pending[session.next as int];
    let rest = session.waiting().drop_first();
    assert(session.waiting()[0] == item);
    assert(rest =~= session.pending.skip((session.next + 1) as int) + session.retries);
    match judge(
        read,
        overall,
        item.buffer_size as nat,
        item.resize_attempts as nat,
        session.limit,
        serviceable,
    ) {
        Verdict::Settled(_) => {
            assert(after.waiting() =~= rest);
            assert forall|i: int| 0 <= i < after.waiting().len() implies {
                &&& (#[trigger] after.waiting()[i]).index < after.names.len()
                &&& after.waiting()[i].buffer_size <= after.limit + HEADER_LEN
                &&& after.waiting()[i].resize_attempts <= MAX_RESIZE_ATTEMPTS
                &&& after.outcomes[after.waiting()[i].index as int] is None
            } by {
                assert(after.waiting()[i] == session.waiting()[i + 1]);
            }
            assert forall|i: int, j: int| 0 <= i < j < after.waiting().len() implies (
            #[trigger] after.waiting()[i]).index != (#[trigger] after.waiting()[j]).index by {
                assert(after.waiting()[i] == session.waiting()[i + 1]);
                assert(after.waiting()[j] == session.waiting()[j + 1]);
            }
        },
        Verdict::Again(size) => {
            let added = after.retries.last();
            assert(after.waiting() =~= rest.push(added));
            assert forall|i: int| 0 <= i < after.waiting().len() implies {
                &&& (#[trigger] after.waiting()[i]).index < after.names.len()
                &&& after.waiting()[i].buffer_size <= after.limit + HEADER_LEN
                &&& after.waiting()[i].resize_attempts <= MAX_RESIZE_ATTEMPTS
                &&& after.outcomes[after.waiting()[i].index as int] is None
            } by {
                if i < rest.len() {
                    assert(after.waiting()[i] == session.waiting()[i + 1]);
                }
            }
            assert forall|i: int, j: int| 0 <= i < j < after.waiting().len() implies (
            #[trigger] after.waiting()[i]).index != (#[trigger] after.waiting()[j]).index by {
                assert(after.waiting()[i] == session.waiting()[i + 1]);
                if j < rest.len() {
                    assert(after.waiting()[j] == session.waiting()[j + 1]);
                }
            }
        },
    }
}

proof fn turn_is_sound(session: SessionView, to: nat)
    requires
        session.sound(),
        session.next <= to <= session.pending.len(),
    ensures
        session.turned(to).well_formed(),
{
    let after = session.turned(to);
    let skipped = to - session.next;
    assert(after.waiting() =~= session.waiting().skip(skipped));
    assert forall|i: int| 0 <= i < after.waiting().len() implies {
        &&& (#[trigger] after.waiting()[i]).index < after.names.len()
        &&& after.waiting()[i].buffer_size <= after.limit + HEADER_LEN
        &&& after.waiting()[i].resize_attempts <= MAX_RESIZE_ATTEMPTS
        &&& after.outcomes[after.waiting()[i].index as int] is None
    } by {
        assert(after.waiting()[i] == session.waiting()[i + skipped]);
    }
    assert forall|i: int, j: int| 0 <= i < j < after.waiting().len() implies (
    #[trigger] after.waiting()[i]).index != (#[trigger] after.waiting()[j]).index by {
        assert(after.waiting()[i] == session.waiting()[i + skipped]);
        assert(after.waiting()[j] == session.waiting()[j + skipped]);
    }
}

} // verus!
