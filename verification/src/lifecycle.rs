//! A client over its whole life: many calls at once, any number of requests to close it, and one
//! shutdown.
//!
//! What happens to a client is a sequence of events. Each event goes through the rules that
//! `StoreCall` and `ShutdownState` keep, and the laws hold after every sequence that is possible.

use crate::call;
use crate::call::{ActionView, CallKind, CallRules, CallStage, EventView, Product};
use crate::client::ShutdownView;
use crate::error::ErrorKind;
use vstd::prelude::*;

verus! {

/// One call of a client. What a store returns is left out: the course of a call does not depend
/// on it.
pub struct CallRecord {
    pub rules: CallRules,
    pub stage: CallStage,
    /// The permits that the call holds.
    pub held: nat,
    /// Whether the task that calls the store is running. It goes on when the time is over.
    pub running: bool,
    /// How often the store was called.
    pub runs: nat,
    /// What the call was answered.
    pub answer: Option<ActionView<()>>,
}

impl CallRecord {
    /// A call that has just been made.
    pub open spec fn begun(rules: CallRules, closed: bool) -> CallRecord {
        let (stage, action) = rules.next(CallStage::Idle, EventView::<()>::Start { closed });
        CallRecord {
            rules,
            stage,
            held: 0,
            running: false,
            runs: 0,
            answer: if call::answers(action) {
                Some(action)
            } else {
                None
            },
        }
    }

    /// After this event. Permits are held from the moment they are granted until the call has
    /// ended, and until its task has ended where the task holds them, which that of the shutdown
    /// does not.
    pub open spec fn step(self, event: EventView<()>) -> CallRecord {
        let (stage, action) = self.rules.next(self.stage, event);
        let task_ended = event is Returned || event is TaskFailed;
        let running = (self.running || action is RunCall) && !task_ended;
        CallRecord {
            rules: self.rules,
            stage,
            held: if stage == CallStage::Finished && !(running && self.rules.guarded()) {
                0
            } else if event is Permit {
                self.rules.permits() as nat
            } else {
                self.held
            },
            running,
            runs: if action is RunCall {
                self.runs + 1
            } else {
                self.runs
            },
            answer: if call::answers(action) {
                Some(action)
            } else {
                self.answer
            },
        }
    }

    /// After the caller has gone away. A task that is running goes on.
    pub open spec fn abandoned(self) -> CallRecord {
        CallRecord {
            stage: CallStage::Finished,
            held: if self.running && self.rules.guarded() {
                self.held
            } else {
                0
            },
            ..self
        }
    }

    /// Whether the call is on its way to the store, or at it.
    pub open spec fn admitted(self) -> bool {
        self.running || self.stage == CallStage::AwaitingStore || self.stage == CallStage::Running
    }

    /// Whether the call has its permits: while it is admitted, but for a shutdown that was
    /// answered, or whose caller has gone away, before its task has ended.
    pub open spec fn holding(self) -> bool {
        self.admitted() && (self.rules.guarded() || self.stage != CallStage::Finished)
    }

    /// What holds of every call.
    pub open spec fn sound(self) -> bool {
        &&& self.stage != CallStage::Idle
        &&& self.stage == CallStage::Running ==> self.running
        &&& self.running ==> self.stage == CallStage::Running || self.stage == CallStage::Finished
        &&& self.held == if self.holding() {
            self.rules.permits() as nat
        } else {
            0
        }
        &&& self.runs <= 1
        &&& self.running ==> self.runs == 1
        &&& self.stage == CallStage::AwaitingPermit || self.stage == CallStage::AwaitingStore
            ==> self.runs == 0
        &&& self.answer is Some ==> self.stage == CallStage::Finished && call::answers(
            self.answer->0,
        )
    }
}

/// What happens to a client.
pub enum ClientEvent {
    /// Someone asks to close it.
    Close,
    /// A call of this kind is made, which is not the shutdown.
    Begin { kind: CallKind, operation: Seq<char> },
    /// The call with this index gets its permits.
    Granted(int),
    /// The call with this index looks for the store.
    Looked(int),
    /// The task of the call with this index has ended.
    Ended { call: int, outcome: EventView<()> },
    /// The time of the call with this index is over.
    TimedOut(int),
    /// The caller of the call with this index has gone away.
    Abandoned(int),
}

impl ClientEvent {
    /// The call that the event is about, where it is about one that was made before.
    pub open spec fn subject(self) -> Option<int> {
        match self {
            ClientEvent::Close => None,
            ClientEvent::Begin { .. } => None,
            ClientEvent::Granted(index) => Some(index),
            ClientEvent::Looked(index) => Some(index),
            ClientEvent::Ended { call, outcome } => Some(call),
            ClientEvent::TimedOut(index) => Some(index),
            ClientEvent::Abandoned(index) => Some(index),
        }
    }
}

/// A client and all its calls, past ones too.
pub struct ClientView {
    pub closing: ShutdownView,
    pub product: Product,
    pub timeout_ms: u64,
    pub limit: u32,
    /// The permits that no call holds.
    pub free: int,
    /// Whether the client still has its store.
    pub store: bool,
    pub calls: Seq<CallRecord>,
    /// Which call is the shutdown.
    pub closer: Option<int>,
    /// How many requests to close the client were told to run the shutdown.
    pub firsts: nat,
    /// How often the store was shut down.
    pub shutdowns: nat,
}

impl ClientView {
    /// A client that has just been made.
    pub open spec fn opened(product: Product, timeout_ms: u64, limit: u32) -> ClientView {
        ClientView {
            closing: ShutdownView { closed: false, started: false, result: None },
            product,
            timeout_ms,
            limit,
            free: limit as int,
            store: true,
            calls: Seq::empty(),
            closer: None,
            firsts: 0,
            shutdowns: 0,
        }
    }

    /// The rules of a call of this client.
    pub open spec fn rules(self, kind: CallKind, operation: Seq<char>) -> CallRules {
        CallRules {
            product: self.product,
            kind,
            operation,
            timeout_ms: self.timeout_ms,
            concurrency_limit: self.limit,
        }
    }

    /// With this record for the call with this index. Permits that it gave back are free.
    pub open spec fn with_call(self, index: int, record: CallRecord) -> ClientView {
        ClientView {
            free: self.free + self.calls[index].held - record.held,
            calls: self.calls.update(index, record),
            ..self
        }
    }

    /// After the call with this index has taken in this event. An answer to the shutdown is the
    /// result of closing.
    pub open spec fn stepped(self, index: int, event: EventView<()>) -> ClientView {
        let before = self.calls[index];
        let (stage, action) = before.rules.next(before.stage, event);
        let shutdown = before.rules.kind == CallKind::Shutdown;
        let after = self.with_call(index, before.step(event));
        ClientView {
            closing: if shutdown && call::answers(action) {
                self.closing.ended(call::shutdown_answer_of(action))
            } else {
                self.closing
            },
            shutdowns: if shutdown && action is RunCall {
                self.shutdowns + 1
            } else {
                self.shutdowns
            },
            ..after
        }
    }

    /// Whether the event can happen. The shutdown of a MemStore client has a task of its own, which
    /// stays; that of a Yuanrong client goes away with the one who asked for it.
    pub open spec fn possible(self, event: ClientEvent) -> bool {
        match event {
            ClientEvent::Close => true,
            ClientEvent::Begin { kind, operation } => kind != CallKind::Shutdown,
            ClientEvent::Granted(index) => {
                &&& 0 <= index < self.calls.len()
                &&& self.calls[index].stage == CallStage::AwaitingPermit
                &&& self.calls[index].rules.permits() <= self.free
            },
            ClientEvent::Looked(index) => {
                &&& 0 <= index < self.calls.len()
                &&& self.calls[index].stage == CallStage::AwaitingStore
            },
            ClientEvent::Ended { call, outcome } => {
                &&& 0 <= call < self.calls.len()
                &&& self.calls[call].running
                &&& outcome is Returned || outcome is TaskFailed
            },
            ClientEvent::TimedOut(index) => 0 <= index < self.calls.len(),
            ClientEvent::Abandoned(index) => {
                &&& 0 <= index < self.calls.len()
                &&& self.calls[index].rules.kind != CallKind::Shutdown || self.product
                    == Product::Yuanrong
            },
        }
    }

    /// After this event.
    pub open spec fn after(self, event: ClientEvent) -> ClientView {
        match event {
            ClientEvent::Close => if self.closing.started {
                ClientView { closing: self.closing.asked(), ..self }
            } else {
                ClientView {
                    closing: self.closing.asked(),
                    calls: self.calls.push(
                        CallRecord::begun(self.rules(CallKind::Shutdown, "shutdown"@), true),
                    ),
                    closer: Some(self.calls.len() as int),
                    firsts: self.firsts + 1,
                    ..self
                }
            },
            ClientEvent::Begin { kind, operation } => ClientView {
                calls: self.calls.push(
                    CallRecord::begun(self.rules(kind, operation), self.closing.closed),
                ),
                ..self
            },
            ClientEvent::Granted(index) => self.stepped(
                index,
                EventView::Permit { granted: true, closed: self.closing.closed },
            ),
            ClientEvent::Looked(index) => ClientView {
                store: self.store && self.calls[index].rules.kind != CallKind::Shutdown,
                ..self.stepped(index, EventView::Store { present: self.store })
            },
            ClientEvent::Ended { call, outcome } => self.stepped(call, outcome),
            ClientEvent::TimedOut(index) => self.stepped(index, EventView::TimedOut),
            ClientEvent::Abandoned(index) => self.with_call(index, self.calls[index].abandoned()),
        }
    }

    /// After these events.
    pub open spec fn after_all(self, events: Seq<ClientEvent>) -> ClientView
        decreases events.len(),
    {
        if events.len() == 0 {
            self
        } else {
            self.after_all(events.drop_last()).after(events.last())
        }
    }

    /// Whether these events can happen, one after the other.
    pub open spec fn all_possible(self, events: Seq<ClientEvent>) -> bool
        decreases events.len(),
    {
        events.len() == 0 || {
            &&& self.all_possible(events.drop_last())
            &&& self.after_all(events.drop_last()).possible(events.last())
        }
    }

    /// Whether this call belongs to this client. The one shutdown is the call that the first
    /// request to close has begun.
    pub open spec fn owns(self, index: int) -> bool {
        let record = self.calls[index];
        &&& record.sound()
        &&& record.rules.concurrency_limit == self.limit
        &&& record.rules.product == self.product
        &&& record.rules.kind == CallKind::Shutdown <==> self.closer == Some(index)
    }

    /// What holds of every client at any time.
    pub open spec fn sound(self) -> bool {
        &&& self.limit > 0
        &&& self.free >= 0
        &&& self.free + total_held(self.calls) == self.limit
        &&& self.closing.well_formed()
        &&& self.closing.closed == self.closing.started
        &&& self.firsts == if self.closing.closed {
            1nat
        } else {
            0
        }
        &&& forall|i: int| 0 <= i < self.calls.len() ==> #[trigger] self.owns(i)
        &&& match self.closer {
            None => {
                &&& !self.closing.closed
                &&& self.closing.result is None
                &&& self.shutdowns == 0
                &&& self.store
            },
            Some(closer) => {
                &&& self.closing.closed
                &&& 0 <= closer < self.calls.len()
                &&& self.shutdowns == self.calls[closer].runs
                &&& self.store == (self.shutdowns == 0)
                &&& self.calls[closer].answer is Some ==> self.shutdowns == 1
                &&& self.calls[closer].stage == CallStage::Finished && self.product
                    == Product::MemStore ==> self.calls[closer].answer is Some
                &&& self.closing.result == match self.calls[closer].answer {
                    Some(action) => Some(call::shutdown_answer_of(action)),
                    None => None,
                }
                &&& self.shutdowns > 0 ==> forall|i: int|
                    0 <= i < self.calls.len() && i != closer ==> !(
                    #[trigger] self.calls[i]).admitted()
            },
        }
    }
}

/// The permits that these calls hold together.
pub open spec fn total_held(calls: Seq<CallRecord>) -> int
    decreases calls.len(),
{
    if calls.len() == 0 {
        0
    } else {
        total_held(calls.drop_last()) + calls.last().held
    }
}

proof fn total_with_update(calls: Seq<CallRecord>, index: int, record: CallRecord)
    requires
        0 <= index < calls.len(),
    ensures
        total_held(calls.update(index, record)) == total_held(calls) - calls[index].held
            + record.held,
    decreases calls.len(),
{
    let updated = calls.update(index, record);
    if index < calls.len() - 1 {
        total_with_update(calls.drop_last(), index, record);
        assert(updated.drop_last() =~= calls.drop_last().update(index, record));
    } else {
        assert(updated.drop_last() =~= calls.drop_last());
    }
}

proof fn total_with_push(calls: Seq<CallRecord>, record: CallRecord)
    ensures
        total_held(calls.push(record)) == total_held(calls) + record.held,
{
    assert(calls.push(record).drop_last() =~= calls);
}

proof fn one_within_total(calls: Seq<CallRecord>, index: int)
    requires
        0 <= index < calls.len(),
    ensures
        calls[index].held <= total_held(calls),
    decreases calls.len(),
{
    let front = calls.drop_last();
    if index < front.len() {
        one_within_total(front, index);
    } else {
        total_not_negative(front);
    }
}

proof fn total_not_negative(calls: Seq<CallRecord>)
    ensures
        total_held(calls) >= 0,
    decreases calls.len(),
{
    if calls.len() > 0 {
        total_not_negative(calls.drop_last());
    }
}

/// Two calls together hold no more than all calls.
proof fn two_within_total(calls: Seq<CallRecord>, one: int, other: int)
    requires
        0 <= one < calls.len(),
        0 <= other < calls.len(),
        one != other,
    ensures
        calls[one].held + calls[other].held <= total_held(calls),
{
    let without = CallRecord { held: 0, ..calls[one] };
    total_with_update(calls, one, without);
    one_within_total(calls.update(one, without), other);
}

/// While the shutdown has all permits, no other call has one.
proof fn alone_at_the_store(client: ClientView, closer: int)
    requires
        client.sound(),
        client.closer == Some(closer),
        client.calls[closer].holding(),
    ensures
        forall|i: int|
            0 <= i < client.calls.len() && i != closer ==> !(#[trigger] client.calls[i]).admitted()
                && client.calls[i].held == 0,
{
    assert(client.owns(closer));
    assert forall|i: int| 0 <= i < client.calls.len() && i != closer implies !(
    #[trigger] client.calls[i]).admitted() && client.calls[i].held == 0 by {
        assert(client.owns(i));
        two_within_total(client.calls, closer, i);
    }
}

proof fn push_keeps_sound(client: ClientView, event: ClientEvent)
    requires
        client.sound(),
        client.possible(event),
        event is Close || event is Begin,
    ensures
        client.after(event).sound(),
{
    let next = client.after(event);
    if next.calls.len() > client.calls.len() {
        let record = next.calls.last();
        total_with_push(client.calls, record);
        assert(next.calls =~= client.calls.push(record));
    }
    assert forall|i: int| 0 <= i < next.calls.len() implies #[trigger] next.owns(i) by {
        if i < client.calls.len() {
            assert(client.owns(i));
        }
    }
    if client.closer is Some {
        let closer = client.closer->0;
        assert(client.owns(closer));
        assert forall|i: int|
            next.shutdowns > 0 && 0 <= i < next.calls.len() && i != closer implies !(
        #[trigger] next.calls[i]).admitted() by {
            if i < client.calls.len() {
                assert(!client.calls[i].admitted());
            }
        }
    }
}

proof fn step_keeps_sound(client: ClientView, event: ClientEvent)
    requires
        client.sound(),
        client.possible(event),
        !(event is Close || event is Begin),
    ensures
        client.after(event).sound(),
{
    let next = client.after(event);
    let index = event.subject()->0;
    let record = next.calls[index];
    assert(client.owns(index));
    assert(next.calls =~= client.calls.update(index, record));
    total_with_update(client.calls, index, record);
    assert(record.sound());
    assert forall|i: int| 0 <= i < next.calls.len() implies #[trigger] next.owns(i) by {
        assert(client.owns(i));
    }
    if client.closer is Some {
        let closer = client.closer->0;
        assert(client.owns(closer));
        if client.calls[closer].holding() {
            alone_at_the_store(client, closer);
        }
        assert forall|i: int|
            next.shutdowns > 0 && 0 <= i < next.calls.len() && i != closer implies !(
        #[trigger] next.calls[i]).admitted() by {
            assert(client.owns(i));
            assert(!client.calls[i].admitted());
        }
    }
}

/// Whatever happens to a sound client, it is sound afterwards.
pub proof fn an_event_keeps_a_client_sound(client: ClientView, event: ClientEvent)
    requires
        client.sound(),
        client.possible(event),
    ensures
        client.after(event).sound(),
{
    if event is Close || event is Begin {
        push_keeps_sound(client, event);
    } else {
        step_keeps_sound(client, event);
    }
}

// Laws.

/// Whatever happens to a client, it stays sound: no more permits are held than there are, its
/// parts agree, and once its store was shut down no other call is at the store.
pub proof fn a_client_stays_sound(client: ClientView, events: Seq<ClientEvent>)
    requires
        client.sound(),
        client.all_possible(events),
    ensures
        client.after_all(events).sound(),
    decreases events.len(),
{
    if events.len() > 0 {
        a_client_stays_sound(client, events.drop_last());
        an_event_keeps_a_client_sound(client.after_all(events.drop_last()), events.last());
    }
}

/// A new client is sound.
pub proof fn a_new_client_is_sound(product: Product, timeout_ms: u64, limit: u32)
    requires
        limit > 0,
    ensures
        ClientView::opened(product, timeout_ms, limit).sound(),
{
}

/// However often a client is closed, and whatever else happens, exactly one of the requests is
/// told to run the shutdown. Where nobody asks, none is, and the client stays open.
pub proof fn one_request_runs_the_shutdown(
    product: Product,
    timeout_ms: u64,
    limit: u32,
    events: Seq<ClientEvent>,
)
    requires
        limit > 0,
        ClientView::opened(product, timeout_ms, limit).all_possible(events),
    ensures
        ({
            let client = ClientView::opened(product, timeout_ms, limit).after_all(events);
            let asked = exists|i: int| 0 <= i < events.len() && (#[trigger] events[i]) is Close;
            &&& client.closing.closed == asked
            &&& client.firsts == if asked {
                1nat
            } else {
                0
            }
        }),
{
    let opened = ClientView::opened(product, timeout_ms, limit);
    a_client_stays_sound(opened, events);
    closed_by_request(opened, events);
}

proof fn closed_by_request(opened: ClientView, events: Seq<ClientEvent>)
    requires
        !opened.closing.closed,
    ensures
        opened.after_all(events).closing.closed <==> exists|i: int|
            0 <= i < events.len() && (#[trigger] events[i]) is Close,
    decreases events.len(),
{
    if events.len() > 0 {
        let earlier = events.drop_last();
        closed_by_request(opened, earlier);
        assert(events.last() == events[events.len() - 1]);
        if opened.after_all(earlier).closing.closed {
            let i = choose|i: int| 0 <= i < earlier.len() && (#[trigger] earlier[i]) is Close;
            assert(events[i] is Close);
        }
        if exists|i: int| 0 <= i < events.len() && (#[trigger] events[i]) is Close {
            let i = choose|i: int| 0 <= i < events.len() && (#[trigger] events[i]) is Close;
            if i < earlier.len() {
                assert(earlier[i] is Close);
            }
        }
    }
}

/// The store is shut down at most once, never while the client is open, and by the time that the
/// result of closing is known it was shut down exactly once.
pub proof fn the_store_is_shut_down_once(
    product: Product,
    timeout_ms: u64,
    limit: u32,
    events: Seq<ClientEvent>,
)
    requires
        limit > 0,
        ClientView::opened(product, timeout_ms, limit).all_possible(events),
    ensures
        ({
            let client = ClientView::opened(product, timeout_ms, limit).after_all(events);
            &&& client.shutdowns <= 1
            &&& client.shutdowns == 1 ==> client.closing.closed
            &&& client.closing.result is Some ==> client.shutdowns == 1
        }),
{
    let client = ClientView::opened(product, timeout_ms, limit).after_all(events);
    a_client_stays_sound(ClientView::opened(product, timeout_ms, limit), events);
    if client.closer is Some {
        assert(client.owns(client.closer->0));
    }
}

/// At the moment when the store is shut down, no other call has a permit or a task that runs:
/// every call that was let through has ended.
pub proof fn the_shutdown_waits_for_admitted_calls(client: ClientView, event: ClientEvent)
    requires
        client.sound(),
        client.possible(event),
        client.after(event).shutdowns > client.shutdowns,
    ensures
        client.closer is Some,
        forall|i: int|
            0 <= i < client.calls.len() && client.closer != Some(i) ==> !(
            #[trigger] client.calls[i]).admitted() && client.calls[i].held == 0,
{
    let index = event.subject()->0;
    assert(client.owns(index));
    alone_at_the_store(client, index);
}

/// The shutdown waits for nothing else: when no call is admitted, it can have its permits.
pub proof fn the_shutdown_waits_for_nothing_else(client: ClientView, closer: int)
    requires
        client.sound(),
        client.closer == Some(closer),
        client.calls[closer].stage == CallStage::AwaitingPermit,
        forall|i: int|
            0 <= i < client.calls.len() ==> !(#[trigger] client.calls[i]).admitted(),
    ensures
        client.possible(ClientEvent::Granted(closer)),
{
    assert forall|i: int| 0 <= i < client.calls.len() implies (#[trigger] client.calls[i]).held
        == 0 by {
        assert(client.owns(i));
    }
    assert(client.owns(closer));
    nothing_held(client.calls);
}

proof fn nothing_held(calls: Seq<CallRecord>)
    requires
        forall|i: int| 0 <= i < calls.len() ==> (#[trigger] calls[i]).held == 0,
    ensures
        total_held(calls) == 0,
    decreases calls.len(),
{
    if calls.len() > 0 {
        let front = calls.drop_last();
        assert forall|i: int| 0 <= i < front.len() implies (#[trigger] front[i]).held == 0 by {
            assert(front[i] == calls[i]);
        }
        nothing_held(front);
        assert(calls.last() == calls[calls.len() - 1]);
    }
}

/// How many of these calls have a task that runs.
pub open spec fn running_count(calls: Seq<CallRecord>) -> nat
    decreases calls.len(),
{
    if calls.len() == 0 {
        0
    } else {
        running_count(calls.drop_last()) + if calls.last().running {
            1nat
        } else {
            0
        }
    }
}

/// No more calls run at once than the limit allows, those counted whose caller has gone away or
/// has run out of time.
pub proof fn no_more_calls_run_than_the_limit(client: ClientView)
    requires
        client.sound(),
    ensures
        running_count(client.calls) <= client.limit,
{
    if client.closer is Some && client.calls[client.closer->0].running {
        let closer = client.closer->0;
        assert(client.owns(closer));
        assert forall|i: int| 0 <= i < client.calls.len() && i != closer implies !(
        #[trigger] client.calls[i]).running by {
            assert(!client.calls[i].admitted());
        }
        one_runs(client.calls, closer);
    } else {
        assert forall|i: int| 0 <= i < client.calls.len() && (
        #[trigger] client.calls[i]).running implies client.calls[i].held >= 1 by {
            assert(client.owns(i));
        }
        running_within_held(client.calls);
    }
}

proof fn one_runs(calls: Seq<CallRecord>, only: int)
    requires
        forall|i: int| 0 <= i < calls.len() && i != only ==> !(#[trigger] calls[i]).running,
    ensures
        running_count(calls) <= 1,
        only >= calls.len() ==> running_count(calls) == 0,
    decreases calls.len(),
{
    if calls.len() > 0 {
        let front = calls.drop_last();
        assert forall|i: int| 0 <= i < front.len() && i != only implies !(
        #[trigger] front[i]).running by {
            assert(front[i] == calls[i]);
        }
        one_runs(front, only);
        assert(calls.last() == calls[calls.len() - 1]);
    }
}

proof fn running_within_held(calls: Seq<CallRecord>)
    requires
        forall|i: int|
            0 <= i < calls.len() && (#[trigger] calls[i]).running ==> calls[i].held >= 1,
    ensures
        running_count(calls) <= total_held(calls),
    decreases calls.len(),
{
    if calls.len() > 0 {
        let front = calls.drop_last();
        assert forall|i: int| 0 <= i < front.len() && (
        #[trigger] front[i]).running implies front[i].held >= 1 by {
            assert(front[i] == calls[i]);
        }
        running_within_held(front);
        assert(calls.last() == calls[calls.len() - 1]);
    }
}

/// Once the store was shut down, it is not called any more: not by calls that were made before,
/// and not by those that are made later.
pub proof fn nothing_calls_a_store_that_was_shut_down(
    client: ClientView,
    later: Seq<ClientEvent>,
    index: int,
)
    requires
        client.sound(),
        client.shutdowns > 0,
        client.all_possible(later),
        0 <= index < client.after_all(later).calls.len(),
        client.closer != Some(index),
    ensures
        client.after_all(later).calls.len() >= client.calls.len(),
        !client.after_all(later).calls[index].running,
        client.after_all(later).calls[index].runs == if index < client.calls.len() {
            client.calls[index].runs
        } else {
            0
        },
        client.after_all(later).shutdowns == client.shutdowns,
        client.after_all(later).closer == client.closer,
    decreases later.len(),
{
    what_was_settled_stays(client, later);
    a_client_stays_sound(client, later);
    let closer = client.closer->0;
    assert(client.owns(closer));
    assert(client.after_all(later).owns(closer));
    if later.len() > 0 {
        let before = client.after_all(later.drop_last());
        let after = client.after_all(later);
        a_client_stays_sound(client, later.drop_last());
        what_was_settled_stays(client, later.drop_last());
        assert(before.owns(closer));
        if index < before.calls.len() {
            nothing_calls_a_store_that_was_shut_down(client, later.drop_last(), index);
            assert(before.owns(index));
            assert(after.owns(index));
            assert(!before.calls[index].admitted());
        }
    } else {
        assert(!client.calls[index].admitted());
    }
}

/// What no event changes: the calls that were made stay, and so do the choice of the shutdown,
/// that the client is closed, and that the store was shut down.
pub proof fn what_was_settled_stays(client: ClientView, later: Seq<ClientEvent>)
    requires
        client.sound(),
        client.all_possible(later),
    ensures
        client.after_all(later).calls.len() >= client.calls.len(),
        client.after_all(later).product == client.product,
        client.closer is Some ==> client.after_all(later).closer == client.closer,
        client.closing.closed ==> client.after_all(later).closing.closed,
        client.shutdowns <= client.after_all(later).shutdowns,
        forall|i: int|
            0 <= i < client.calls.len() ==> (#[trigger] client.after_all(later).calls[i]).rules
                == client.calls[i].rules,
    decreases later.len(),
{
    if later.len() > 0 {
        what_was_settled_stays(client, later.drop_last());
        a_client_stays_sound(client, later.drop_last());
        let before = client.after_all(later.drop_last());
        let after = client.after_all(later);
        assert forall|i: int| 0 <= i < client.calls.len() implies (
        #[trigger] after.calls[i]).rules == client.calls[i].rules by {
            assert(before.calls[i].rules == client.calls[i].rules);
        }
    }
}

/// A call that is made when the client is closed is answered that it is unavailable, at once and
/// for good, and the store is never called for it.
pub proof fn a_late_call_is_refused(
    client: ClientView,
    kind: CallKind,
    operation: Seq<char>,
    later: Seq<ClientEvent>,
)
    requires
        client.sound(),
        client.closing.closed,
        kind != CallKind::Shutdown,
        client.after(ClientEvent::Begin { kind, operation }).all_possible(later),
    ensures
        ({
            let begun = client.after(ClientEvent::Begin { kind, operation });
            let index = client.calls.len() as int;
            let record = begun.after_all(later).calls[index];
            &&& begun.calls.len() == index + 1
            &&& record == begun.calls[index]
            &&& record.stage == CallStage::Finished
            &&& record.answer == Some(
                ActionView::<()>::Fail(call::closed_failure(client.product)),
            )
            &&& call::closed_failure(client.product).kind == ErrorKind::Unavailable
            &&& record.runs == 0
            &&& !record.running
        }),
{
    let begun = client.after(ClientEvent::Begin { kind, operation });
    push_keeps_sound(client, ClientEvent::Begin { kind, operation });
    ended_calls_stay(begun, later, client.calls.len() as int);
}

proof fn ended_calls_stay(client: ClientView, later: Seq<ClientEvent>, index: int)
    requires
        client.sound(),
        client.all_possible(later),
        0 <= index < client.calls.len(),
        client.calls[index].stage == CallStage::Finished,
        !client.calls[index].running,
    ensures
        client.after_all(later).calls.len() >= client.calls.len(),
        client.after_all(later).calls[index] == client.calls[index],
    decreases later.len(),
{
    if later.len() > 0 {
        ended_calls_stay(client, later.drop_last(), index);
        a_client_stays_sound(client, later.drop_last());
        assert(client.after_all(later.drop_last()).owns(index));
    }
}

/// A call that still waits for permits when the client is closed never calls the store. If it is
/// answered, then that the client is closed or that its time is over.
pub proof fn a_waiting_call_is_refused(client: ClientView, later: Seq<ClientEvent>, index: int)
    requires
        client.sound(),
        client.closing.closed,
        client.all_possible(later),
        0 <= index < client.calls.len(),
        client.closer != Some(index),
        client.calls[index].stage == CallStage::AwaitingPermit,
    ensures
        ({
            let rules = client.calls[index].rules;
            let record = client.after_all(later).calls[index];
            &&& record.rules == rules
            &&& record.runs == 0
            &&& record.stage == CallStage::AwaitingPermit || record.stage == CallStage::Finished
            &&& record.answer is None || record.answer == Some(
                ActionView::<()>::Fail(call::closed_failure(rules.product)),
            ) || record.answer == Some(
                ActionView::<()>::Fail(
                    call::timeout_failure(rules.product, rules.operation, rules.timeout_ms),
                ),
            )
        }),
    decreases later.len(),
{
    what_was_settled_stays(client, later);
    assert(client.owns(index));
    if later.len() > 0 {
        let before = client.after_all(later.drop_last());
        a_waiting_call_is_refused(client, later.drop_last(), index);
        a_client_stays_sound(client, later.drop_last());
        what_was_settled_stays(client, later.drop_last());
        assert(before.owns(index));
    }
}

/// Closing has one result: it is what the shutdown was answered, and once it is known, nothing
/// changes it and every later poll finds the same one. Those who close a MemStore client are
/// answered with what they poll. Of those who close a Yuanrong client only the first one is: the
/// others are not answered with this result, and do not wait for it.
pub proof fn closing_has_one_result(client: ClientView, later: Seq<ClientEvent>)
    requires
        client.sound(),
        client.closing.result is Some,
        client.all_possible(later),
    ensures
        client.after_all(later).closing == client.closing,
        client.closer is Some,
        client.calls[client.closer->0].answer is Some,
        client.closing.result == Some(
            call::shutdown_answer_of(client.calls[client.closer->0].answer->0),
        ),
    decreases later.len(),
{
    let closer = client.closer->0;
    assert(client.owns(closer));
    if later.len() > 0 {
        let before = client.after_all(later.drop_last());
        closing_has_one_result(client, later.drop_last());
        a_client_stays_sound(client, later.drop_last());
        what_was_settled_stays(client, later.drop_last());
        assert(before.owns(closer));
        if later.last().subject() is Some {
            assert(before.owns(later.last().subject()->0));
        }
    }
}

} // verus!
