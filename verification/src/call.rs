//! The course of one call to a store: admission, permits, the call itself, and what it is
//! answered.
//!
//! Waiting for permits, running the call and keeping the time happen outside. A `StoreCall` is
//! told what happened and says what to do next.

use crate::error;
use crate::error::{CacheError, CacheResult, ErrorKind, Failure};
use crate::text;
use vstd::prelude::*;
use vstd::string::StringExecFns;

verus! {

/// Whose store is called.
#[derive(Debug, Clone, Copy, PartialEq, Eq, Structural)]
pub enum Product {
    MemStore,
    Yuanrong,
}

/// What kind of call is made.
#[derive(Debug, Clone, Copy, PartialEq, Eq, Structural)]
pub enum CallKind {
    /// An operation on the client's store. The time counts from the start.
    Operation,
    /// An operation on a store that the caller has already picked. The time counts from the
    /// start.
    OnStore,
    /// A flush, which waits for all other calls to end. Only the call itself is timed.
    Flush,
    /// The shutdown, which waits for all other calls to end and is made also when the client is
    /// closed. Only the call itself is timed.
    Shutdown,
}

/// How far a call has come.
#[derive(Debug, Clone, Copy, PartialEq, Eq, Structural)]
pub enum CallStage {
    Idle,
    AwaitingPermit,
    AwaitingStore,
    Running,
    Finished,
}

/// What happened outside.
pub enum CallEvent<T> {
    /// The call is made, while the client is closed or not.
    Start { closed: bool },
    /// The wait for permits has ended, while the client is closed or not.
    Permit { granted: bool, closed: bool },
    /// The client has a store or has none any more.
    Store { present: bool },
    /// The store has answered.
    Returned(CacheResult<T>),
    /// The task that ran the call has failed, with this text.
    TaskFailed(String),
    /// The time is over.
    TimedOut,
}

/// What to do next.
pub enum CallAction<T> {
    /// Wait for this many permits.
    AcquirePermits(u32),
    /// See whether the client has a store.
    FetchStore,
    /// Run the call.
    RunCall,
    /// Answer with this value.
    Return(T),
    /// Answer with this error.
    Fail(CacheError),
    /// Answer that there was nothing to shut down.
    Skip,
    /// Nothing: the event is of no concern at this stage.
    Nothing,
}

/// The content of a `CallEvent`.
pub enum EventView<T> {
    Start { closed: bool },
    Permit { granted: bool, closed: bool },
    Store { present: bool },
    Returned(Result<T, Failure>),
    TaskFailed(Seq<char>),
    TimedOut,
}

/// The content of a `CallAction`.
pub enum ActionView<T> {
    AcquirePermits(u32),
    FetchStore,
    RunCall,
    Return(T),
    Fail(Failure),
    Skip,
    Nothing,
}

impl<T> View for CallEvent<T> {
    type V = EventView<T>;

    open spec fn view(&self) -> EventView<T> {
        match *self {
            CallEvent::Start { closed } => EventView::Start { closed },
            CallEvent::Permit { granted, closed } => EventView::Permit { granted, closed },
            CallEvent::Store { present } => EventView::Store { present },
            CallEvent::Returned(result) => EventView::Returned(error::settled(result)),
            CallEvent::TaskFailed(text) => EventView::TaskFailed(text@),
            CallEvent::TimedOut => EventView::TimedOut,
        }
    }
}

impl<T> View for CallAction<T> {
    type V = ActionView<T>;

    open spec fn view(&self) -> ActionView<T> {
        match *self {
            CallAction::AcquirePermits(count) => ActionView::AcquirePermits(count),
            CallAction::FetchStore => ActionView::FetchStore,
            CallAction::RunCall => ActionView::RunCall,
            CallAction::Return(value) => ActionView::Return(value),
            CallAction::Fail(error) => ActionView::Fail(error@),
            CallAction::Skip => ActionView::Skip,
            CallAction::Nothing => ActionView::Nothing,
        }
    }
}

/// The name that messages use.
pub open spec fn product_name(product: Product) -> Seq<char> {
    match product {
        Product::MemStore => "MemStore"@,
        Product::Yuanrong => "Yuanrong"@,
    }
}

/// The answer of a closed client.
pub open spec fn closed_failure(product: Product) -> Failure {
    error::failure(ErrorKind::Unavailable, product_name(product) + " provider is closed"@)
}

/// The answer where no permits are given out any more.
pub open spec fn closing_failure(product: Product) -> Failure {
    error::failure(ErrorKind::Unavailable, product_name(product) + " client is closing"@)
}

/// The answer where the client has no store any more.
pub open spec fn released_failure(product: Product) -> Failure {
    error::failure(
        ErrorKind::Unavailable,
        match product {
            Product::MemStore => "MemStore store was released"@,
            Product::Yuanrong => "Yuanrong KV client has been released"@,
        },
    )
}

/// The answer where the task that ran the call has failed.
pub open spec fn task_failure(
    product: Product,
    kind: CallKind,
    operation: Seq<char>,
    text: Seq<char>,
) -> Failure {
    error::failure(
        ErrorKind::Internal,
        product_name(product) + " "@ + operation + (match kind {
            CallKind::Operation => " blocking task failed: "@,
            CallKind::OnStore => " blocking task failed: "@,
            CallKind::Flush => " task failed: "@,
            CallKind::Shutdown => " task failed: "@,
        }) + text,
    )
}

/// The answer where the time is over.
pub open spec fn timeout_failure(
    product: Product,
    operation: Seq<char>,
    timeout_ms: u64,
) -> Failure {
    error::failure(
        ErrorKind::Timeout,
        product_name(product) + " "@ + operation + " exceeded "@ + text::decimal(timeout_ms as nat)
            + " ms"@,
    )
}

/// What never changes of a call.
pub struct CallRules {
    pub product: Product,
    pub kind: CallKind,
    pub operation: Seq<char>,
    pub timeout_ms: u64,
    pub concurrency_limit: u32,
}

impl CallRules {
    /// Whether the call is refused once the client is closed.
    pub open spec fn guarded(self) -> bool {
        self.kind != CallKind::Shutdown
    }

    /// Whether the time counts at this stage.
    pub open spec fn timed(self, stage: CallStage) -> bool {
        match stage {
            CallStage::Running => true,
            CallStage::AwaitingPermit => self.kind == CallKind::Operation || self.kind
                == CallKind::OnStore,
            CallStage::AwaitingStore => self.kind == CallKind::Operation || self.kind
                == CallKind::OnStore,
            CallStage::Idle => false,
            CallStage::Finished => false,
        }
    }

    /// How many permits the call waits for. A call that waits for all others takes all of them.
    pub open spec fn permits(self) -> u32 {
        if self.kind == CallKind::Flush || self.kind == CallKind::Shutdown {
            self.concurrency_limit
        } else {
            1
        }
    }

    /// The next stage and what to do, at this stage and after this event.
    pub open spec fn next<T>(self, stage: CallStage, event: EventView<T>) -> (
        CallStage,
        ActionView<T>,
    ) {
        match event {
            EventView::Start { closed } if stage == CallStage::Idle => if closed && self.guarded() {
                (CallStage::Finished, ActionView::Fail(closed_failure(self.product)))
            } else {
                (CallStage::AwaitingPermit, ActionView::AcquirePermits(self.permits()))
            },
            EventView::Permit { granted, closed } if stage
                == CallStage::AwaitingPermit => if !granted {
                (CallStage::Finished, ActionView::Fail(closing_failure(self.product)))
            } else if closed && self.guarded() {
                (CallStage::Finished, ActionView::Fail(closed_failure(self.product)))
            } else if self.kind == CallKind::OnStore {
                (CallStage::Running, ActionView::RunCall)
            } else {
                (CallStage::AwaitingStore, ActionView::FetchStore)
            },
            EventView::Store { present } if stage == CallStage::AwaitingStore => if present {
                (CallStage::Running, ActionView::RunCall)
            } else if self.kind == CallKind::Shutdown {
                (CallStage::Finished, ActionView::Skip)
            } else {
                (CallStage::Finished, ActionView::Fail(released_failure(self.product)))
            },
            EventView::Returned(result) if stage == CallStage::Running => match result {
                Ok(value) => (CallStage::Finished, ActionView::Return(value)),
                Err(failure) => (CallStage::Finished, ActionView::Fail(failure)),
            },
            EventView::TaskFailed(text) if stage == CallStage::Running => (
                CallStage::Finished,
                ActionView::Fail(task_failure(self.product, self.kind, self.operation, text)),
            ),
            EventView::TimedOut if self.timed(stage) => (
                CallStage::Finished,
                ActionView::Fail(
                    timeout_failure(self.product, self.operation, self.timeout_ms),
                ),
            ),
            _ => (stage, ActionView::Nothing),
        }
    }
}

/// One call under way.
pub struct StoreCall {
    product: Product,
    kind: CallKind,
    operation: String,
    timeout_ms: u64,
    concurrency_limit: u32,
    stage: CallStage,
}

impl StoreCall {
    /// What never changes of the call.
    pub closed spec fn rules(self) -> CallRules {
        CallRules {
            product: self.product,
            kind: self.kind,
            operation: self.operation@,
            timeout_ms: self.timeout_ms,
            concurrency_limit: self.concurrency_limit,
        }
    }

    /// How far the call has come.
    pub closed spec fn at(self) -> CallStage {
        self.stage
    }

    /// A call that has not been made yet.
    pub fn new(
        product: Product,
        kind: CallKind,
        operation: &str,
        timeout_ms: u64,
        concurrency_limit: u32,
    ) -> (call: Self)
        ensures
            call.at() == CallStage::Idle,
            call.rules() == (CallRules {
                product,
                kind,
                operation: operation@,
                timeout_ms,
                concurrency_limit,
            }),
    {
        StoreCall {
            product,
            kind,
            operation: operation.to_owned(),
            timeout_ms,
            concurrency_limit,
            stage: CallStage::Idle,
        }
    }

    /// The name that messages use.
    fn name(&self) -> (name: String)
        ensures
            name@ == product_name(self.rules().product),
    {
        match self.product {
            Product::MemStore => "MemStore".to_owned(),
            Product::Yuanrong => "Yuanrong".to_owned(),
        }
    }

    /// The answer of a closed client.
    fn closed(&self) -> (error: CacheError)
        ensures
            error@ == closed_failure(self.rules().product),
    {
        let mut message = self.name();
        message.append(" provider is closed");
        CacheError::Unavailable(message)
    }

    /// The answer where no permits are given out any more.
    fn closing(&self) -> (error: CacheError)
        ensures
            error@ == closing_failure(self.rules().product),
    {
        let mut message = self.name();
        message.append(" client is closing");
        CacheError::Unavailable(message)
    }

    /// The answer where the client has no store any more.
    fn released(&self) -> (error: CacheError)
        ensures
            error@ == released_failure(self.rules().product),
    {
        match self.product {
            Product::MemStore => CacheError::Unavailable("MemStore store was released".to_owned()),
            Product::Yuanrong => CacheError::Unavailable(
                "Yuanrong KV client has been released".to_owned(),
            ),
        }
    }

    /// The answer where the task that ran the call has failed.
    fn task_failed(&self, text: &str) -> (error: CacheError)
        ensures
            error@ == task_failure(
                self.rules().product,
                self.rules().kind,
                self.rules().operation,
                text@,
            ),
    {
        let mut message = self.name();
        message.append(" ");
        message.append(self.operation.as_str());
        match self.kind {
            CallKind::Operation | CallKind::OnStore => message.append(" blocking task failed: "),
            CallKind::Flush | CallKind::Shutdown => message.append(" task failed: "),
        }
        message.append(text);
        CacheError::Internal(message)
    }

    /// The answer where the time is over.
    fn timed_out(&self) -> (error: CacheError)
        ensures
            error@ == timeout_failure(
                self.rules().product,
                self.rules().operation,
                self.rules().timeout_ms,
            ),
    {
        let mut message = self.name();
        message.append(" ");
        message.append(self.operation.as_str());
        message.append(" exceeded ");
        text::push_decimal(&mut message, self.timeout_ms);
        message.append(" ms");
        CacheError::Timeout(message)
    }

    /// Takes in what happened and says what to do next.
    pub fn step<T>(&mut self, event: CallEvent<T>) -> (action: CallAction<T>)
        ensures
            final(self).rules() == old(self).rules(),
            (final(self).at(), action@) == old(self).rules().next(old(self).at(), event@),
    {
        let guarded: bool = self.kind != CallKind::Shutdown;
        let alone: bool = self.kind == CallKind::Flush || self.kind == CallKind::Shutdown;
        match event {
            CallEvent::Start { closed } => {
                if self.stage != CallStage::Idle {
                    return CallAction::Nothing;
                }
                if closed && guarded {
                    self.stage = CallStage::Finished;
                    return CallAction::Fail(self.closed());
                }
                self.stage = CallStage::AwaitingPermit;
                CallAction::AcquirePermits(
                    if alone {
                        self.concurrency_limit
                    } else {
                        1
                    },
                )
            },
            CallEvent::Permit { granted, closed } => {
                if self.stage != CallStage::AwaitingPermit {
                    return CallAction::Nothing;
                }
                if !granted {
                    self.stage = CallStage::Finished;
                    return CallAction::Fail(self.closing());
                }
                if closed && guarded {
                    self.stage = CallStage::Finished;
                    return CallAction::Fail(self.closed());
                }
                if self.kind == CallKind::OnStore {
                    self.stage = CallStage::Running;
                    return CallAction::RunCall;
                }
                self.stage = CallStage::AwaitingStore;
                CallAction::FetchStore
            },
            CallEvent::Store { present } => {
                if self.stage != CallStage::AwaitingStore {
                    return CallAction::Nothing;
                }
                if present {
                    self.stage = CallStage::Running;
                    return CallAction::RunCall;
                }
                self.stage = CallStage::Finished;
                if guarded {
                    CallAction::Fail(self.released())
                } else {
                    CallAction::Skip
                }
            },
            CallEvent::Returned(result) => {
                if self.stage != CallStage::Running {
                    return CallAction::Nothing;
                }
                self.stage = CallStage::Finished;
                match result {
                    Ok(value) => CallAction::Return(value),
                    Err(error) => CallAction::Fail(error),
                }
            },
            CallEvent::TaskFailed(text) => {
                if self.stage != CallStage::Running {
                    return CallAction::Nothing;
                }
                self.stage = CallStage::Finished;
                CallAction::Fail(self.task_failed(text.as_str()))
            },
            CallEvent::TimedOut => {
                let waiting: bool = self.stage == CallStage::AwaitingPermit || self.stage
                    == CallStage::AwaitingStore;
                if self.stage == CallStage::Running || (waiting && !alone) {
                    self.stage = CallStage::Finished;
                    return CallAction::Fail(self.timed_out());
                }
                CallAction::Nothing
            },
        }
    }
}

// Answers.

/// The failure of a call that was left without an answer.
pub open spec fn unanswered_failure() -> Failure {
    error::failure(ErrorKind::Internal, "store call ended without an answer"@)
}

/// The answer that an action stands for.
pub open spec fn answer_of<T>(action: ActionView<T>) -> Result<T, Failure> {
    match action {
        ActionView::Return(value) => Ok(value),
        ActionView::Fail(failure) => Err(failure),
        _ => Err(unanswered_failure()),
    }
}

/// The answer that an action of a shutdown stands for. Where there was nothing to shut down, the
/// shutdown has succeeded.
pub open spec fn shutdown_answer_of(action: ActionView<()>) -> Result<(), Failure> {
    match action {
        ActionView::Skip => Ok(()),
        _ => answer_of(action),
    }
}

/// The answer that an action stands for.
pub fn answer<T>(action: CallAction<T>) -> (answer: CacheResult<T>)
    ensures
        error::settled(answer) == answer_of(action@),
{
    match action {
        CallAction::Return(value) => Ok(value),
        CallAction::Fail(error) => Err(error),
        _ => Err(CacheError::Internal("store call ended without an answer".to_owned())),
    }
}

/// The answer that an action of a shutdown stands for.
pub fn shutdown_answer(action: CallAction<()>) -> (answer: CacheResult<()>)
    ensures
        error::settled(answer) == shutdown_answer_of(action@),
{
    match action {
        CallAction::Skip => Ok(()),
        other => self::answer(other),
    }
}

// Laws.

/// Whether an action answers the call.
pub open spec fn answers<T>(action: ActionView<T>) -> bool {
    action is Return || action is Fail || action is Skip
}

/// A call is answered once: an answer finishes it, nothing else does, and a finished call says
/// nothing more.
pub proof fn a_call_is_answered_once<T>(rules: CallRules, stage: CallStage, event: EventView<T>)
    requires
        stage != CallStage::Finished,
    ensures
        rules.next(stage, event).0 == CallStage::Finished <==> answers(rules.next(stage, event).1),
        forall|later: EventView<T>| #[trigger]
            rules.next(CallStage::Finished, later) == (
                CallStage::Finished,
                ActionView::<T>::Nothing,
            ),
{
}

/// The store is called only with permits, and only while the client is open or is being shut
/// down. A call that finds the client closed, before or after the wait, is refused.
pub proof fn a_closed_client_calls_no_store<T>(
    rules: CallRules,
    stage: CallStage,
    event: EventView<T>,
)
    ensures
        rules.next(stage, event).1 is RunCall ==> stage == CallStage::AwaitingStore || event
            == (EventView::<T>::Permit { granted: true, closed: false }),
        rules.next(stage, event).0 == CallStage::AwaitingStore && stage != CallStage::AwaitingStore
            ==> event == (EventView::<T>::Permit { granted: true, closed: false }) || (event
            == (EventView::<T>::Permit { granted: true, closed: true }) && !rules.guarded()),
        rules.guarded() ==> rules.next(
            CallStage::Idle,
            EventView::<T>::Start { closed: true },
        ) == (CallStage::Finished, ActionView::<T>::Fail(closed_failure(rules.product))),
        rules.guarded() ==> rules.next(
            CallStage::AwaitingPermit,
            EventView::<T>::Permit { granted: true, closed: true },
        ) == (CallStage::Finished, ActionView::<T>::Fail(closed_failure(rules.product))),
{
}

/// Running out of time is an error of its own and never counts as an answer of the store.
pub proof fn a_timeout_is_no_answer<T>(rules: CallRules, stage: CallStage)
    ensures
        rules.next(stage, EventView::<T>::TimedOut).1 == (if rules.timed(stage) {
            ActionView::<T>::Fail(
                timeout_failure(rules.product, rules.operation, rules.timeout_ms),
            )
        } else {
            ActionView::<T>::Nothing
        }),
        timeout_failure(rules.product, rules.operation, rules.timeout_ms).kind
            == ErrorKind::Timeout,
{
}

/// Flush and shutdown wait until no other call holds a permit, which is when all permits are
/// theirs.
pub proof fn flush_and_shutdown_wait_for_all<T>(rules: CallRules, closed: bool)
    requires
        rules.kind == CallKind::Flush || rules.kind == CallKind::Shutdown,
        !(closed && rules.guarded()),
    ensures
        rules.next(CallStage::Idle, EventView::<T>::Start { closed }).1
            == ActionView::<T>::AcquirePermits(rules.concurrency_limit),
{
}

/// The course of a call that nothing disturbs: it waits for its permits, one of them or all, looks
/// for the store unless the caller has picked one, runs, and is answered with what the store
/// answers.
pub proof fn an_undisturbed_call_reaches_the_store<T>(
    rules: CallRules,
    closed: bool,
    result: Result<T, Failure>,
)
    requires
        !closed || rules.kind == CallKind::Shutdown,
    ensures
        rules.next(CallStage::Idle, EventView::<T>::Start { closed }) == (
            CallStage::AwaitingPermit,
            ActionView::<T>::AcquirePermits(
                match rules.kind {
                    CallKind::Operation => 1,
                    CallKind::OnStore => 1,
                    CallKind::Flush => rules.concurrency_limit,
                    CallKind::Shutdown => rules.concurrency_limit,
                },
            ),
        ),
        rules.next(
            CallStage::AwaitingPermit,
            EventView::<T>::Permit { granted: true, closed },
        ) == if rules.kind == CallKind::OnStore {
            (CallStage::Running, ActionView::<T>::RunCall)
        } else {
            (CallStage::AwaitingStore, ActionView::<T>::FetchStore)
        },
        rules.next(CallStage::AwaitingStore, EventView::<T>::Store { present: true }) == (
            CallStage::Running,
            ActionView::<T>::RunCall,
        ),
        result matches Ok(value) ==> rules.next(
            CallStage::Running,
            EventView::<T>::Returned(result),
        ) == (CallStage::Finished, ActionView::<T>::Return(value)),
        result matches Err(failure) ==> rules.next(
            CallStage::Running,
            EventView::<T>::Returned(result),
        ) == (CallStage::Finished, ActionView::<T>::Fail(failure)),
{
}

/// What disturbs a call ends it: permits that are not given out any more and a store that is gone
/// make it unavailable, a task that failed is an internal error, and a time that is over is a
/// timeout. A shutdown that finds no store has nothing to do.
pub proof fn a_disturbed_call_fails<T>(rules: CallRules, closed: bool, text: Seq<char>)
    ensures
        rules.next(CallStage::AwaitingPermit, EventView::<T>::Permit { granted: false, closed })
            matches (CallStage::Finished, ActionView::Fail(failure)) && failure.kind
            == ErrorKind::Unavailable,
        rules.kind != CallKind::Shutdown ==> (rules.next(
            CallStage::AwaitingStore,
            EventView::<T>::Store { present: false },
        ) matches (CallStage::Finished, ActionView::Fail(failure)) && failure.kind
            == ErrorKind::Unavailable),
        rules.kind == CallKind::Shutdown ==> rules.next(
            CallStage::AwaitingStore,
            EventView::<T>::Store { present: false },
        ) == (CallStage::Finished, ActionView::<T>::Skip),
        rules.next(CallStage::Running, EventView::<T>::TaskFailed(text)) matches (
            CallStage::Finished,
            ActionView::Fail(failure),
        ) && failure.kind == ErrorKind::Internal,
        rules.next(CallStage::Running, EventView::<T>::TimedOut) matches (
            CallStage::Finished,
            ActionView::Fail(failure),
        ) && failure.kind == ErrorKind::Timeout,
        rules.kind != CallKind::Shutdown ==> (rules.next(
            CallStage::Idle,
            EventView::<T>::Start { closed: true },
        ) matches (CallStage::Finished, ActionView::Fail(failure)) && failure.kind
            == ErrorKind::Unavailable),
        rules.kind != CallKind::Shutdown ==> (rules.next(
            CallStage::AwaitingPermit,
            EventView::<T>::Permit { granted: true, closed: true },
        ) matches (CallStage::Finished, ActionView::Fail(failure)) && failure.kind
            == ErrorKind::Unavailable),
{
}

/// Waiting is timed for operations alone: a flush and a shutdown wait as long as it takes.
pub proof fn only_operations_wait_in_time<T>(rules: CallRules, stage: CallStage)
    requires
        stage == CallStage::AwaitingPermit || stage == CallStage::AwaitingStore,
    ensures
        rules.kind == CallKind::Operation || rules.kind == CallKind::OnStore ==> (rules.next(
            stage,
            EventView::<T>::TimedOut,
        ) matches (CallStage::Finished, ActionView::Fail(failure)) && failure.kind
            == ErrorKind::Timeout),
        rules.kind == CallKind::Flush || rules.kind == CallKind::Shutdown ==> rules.next(
            stage,
            EventView::<T>::TimedOut,
        ) == (stage, ActionView::<T>::Nothing),
{
}

/// An event that belongs to another stage is of no concern.
pub proof fn events_of_other_stages_change_nothing<T>(
    rules: CallRules,
    stage: CallStage,
    event: EventView<T>,
)
    requires
        event is Start ==> stage != CallStage::Idle,
        event is Permit ==> stage != CallStage::AwaitingPermit,
        event is Store ==> stage != CallStage::AwaitingStore,
        event is Returned || event is TaskFailed ==> stage != CallStage::Running,
        event is TimedOut ==> stage == CallStage::Idle || stage == CallStage::Finished,
    ensures
        rules.next(stage, event) == (stage, ActionView::<T>::Nothing),
{
}

/// An answered call gives the caller what it was answered, and a shutdown without a store has
/// succeeded.
pub proof fn answers_are_handed_on<T>(value: T, failure: Failure)
    ensures
        answer_of(ActionView::Return(value)) == Ok::<T, Failure>(value),
        answer_of(ActionView::<T>::Fail(failure)) == Err::<T, Failure>(failure),
        shutdown_answer_of(ActionView::Return(())) == Ok::<(), Failure>(()),
        shutdown_answer_of(ActionView::Fail(failure)) == Err::<(), Failure>(failure),
        shutdown_answer_of(ActionView::Skip) == Ok::<(), Failure>(()),
{
}

/// What happened and what is to be done are seen as they are.
pub proof fn calls_are_seen_whole<T>(
    event: CallEvent<T>,
    value: T,
    error: CacheError,
    count: u32,
)
    ensures
        event matches CallEvent::Start { closed } ==> event@ == (EventView::<T>::Start { closed }),
        event matches CallEvent::Permit { granted, closed } ==> event@ == (EventView::<
            T,
        >::Permit { granted, closed }),
        event matches CallEvent::Store { present } ==> event@ == (EventView::<T>::Store {
            present,
        }),
        event matches CallEvent::Returned(Ok(got)) ==> event@ == EventView::<T>::Returned(Ok(got)),
        event matches CallEvent::Returned(Err(got)) ==> event@ == EventView::<T>::Returned(
            Err(got@),
        ),
        event matches CallEvent::TaskFailed(text) ==> event@ == EventView::<T>::TaskFailed(text@),
        event is TimedOut ==> event@ == EventView::<T>::TimedOut,
        CallAction::<T>::AcquirePermits(count)@ == ActionView::<T>::AcquirePermits(count),
        CallAction::<T>::FetchStore@ == ActionView::<T>::FetchStore,
        CallAction::<T>::RunCall@ == ActionView::<T>::RunCall,
        CallAction::<T>::Return(value)@ == ActionView::<T>::Return(value),
        CallAction::<T>::Fail(error)@ == ActionView::<T>::Fail(error@),
        CallAction::<T>::Skip@ == ActionView::<T>::Skip,
        CallAction::<T>::Nothing@ == ActionView::<T>::Nothing,
{
}

/// What the answers say: the product, the operation, and what became of it.
pub proof fn failures_say_what_became_of_a_call(
    operation: Seq<char>,
    text: Seq<char>,
    timeout_ms: u64,
)
    ensures
        closed_failure(Product::MemStore).message == "MemStore provider is closed"@,
        closed_failure(Product::Yuanrong).message == "Yuanrong provider is closed"@,
        closing_failure(Product::MemStore).message == "MemStore client is closing"@,
        closing_failure(Product::Yuanrong).message == "Yuanrong client is closing"@,
        timeout_failure(Product::MemStore, operation, timeout_ms).message == "MemStore "@
            + operation + " exceeded "@ + text::decimal(timeout_ms as nat) + " ms"@,
        timeout_failure(Product::Yuanrong, operation, timeout_ms).message == "Yuanrong "@
            + operation + " exceeded "@ + text::decimal(timeout_ms as nat) + " ms"@,
        task_failure(Product::MemStore, CallKind::Operation, operation, text).message
            == "MemStore "@ + operation + " blocking task failed: "@ + text,
        task_failure(Product::MemStore, CallKind::Flush, operation, text).message == "MemStore "@
            + operation + " task failed: "@ + text,
        task_failure(Product::Yuanrong, CallKind::OnStore, operation, text).message
            == "Yuanrong "@ + operation + " blocking task failed: "@ + text,
        task_failure(Product::Yuanrong, CallKind::Shutdown, operation, text).message
            == "Yuanrong "@ + operation + " task failed: "@ + text,
{
    reveal_strlit("MemStore");
    reveal_strlit("Yuanrong");
    reveal_strlit("MemStore ");
    reveal_strlit("Yuanrong ");
    reveal_strlit(" ");
    reveal_strlit(" provider is closed");
    reveal_strlit(" client is closing");
    reveal_strlit("MemStore provider is closed");
    reveal_strlit("Yuanrong provider is closed");
    reveal_strlit("MemStore client is closing");
    reveal_strlit("Yuanrong client is closing");
    assert("MemStore"@ + " "@ =~= "MemStore "@);
    assert("Yuanrong"@ + " "@ =~= "Yuanrong "@);
    assert("MemStore"@ + " provider is closed"@ =~= "MemStore provider is closed"@);
    assert("Yuanrong"@ + " provider is closed"@ =~= "Yuanrong provider is closed"@);
    assert("MemStore"@ + " client is closing"@ =~= "MemStore client is closing"@);
    assert("Yuanrong"@ + " client is closing"@ =~= "Yuanrong client is closing"@);
}

} // verus!
