//! Closing a Yuanrong client: the first request shuts the stores down one after the other, and the
//! others do nothing.

use crate::call;
use crate::call::{ActionView, CallKind, CallStage, EventView, Product};
use crate::error::{ErrorKind, Failure};
use crate::lifecycle;
use crate::lifecycle::{ClientEvent, ClientView};
use crate::yuanrong;
use crate::yuanrong::YuanrongStoreError;
use vstd::prelude::*;

verus! {

/// Whether the client refuses every call that is made now: it is answered that the client is
/// unavailable, and no store is called for it.
pub open spec fn refuses_calls(client: ClientView) -> bool {
    forall|kind: CallKind, operation: Seq<char>|
        kind != CallKind::Shutdown ==> {
            let record = (#[trigger] client.after(
                ClientEvent::Begin { kind, operation },
            )).calls.last();
            &&& record.stage == CallStage::Finished
            &&& record.answer == Some(
                ActionView::<()>::Fail(call::closed_failure(client.product)),
            )
            &&& call::closed_failure(client.product).kind == ErrorKind::Unavailable
            &&& record.runs == 0
            &&& !record.running
        }
}

/// A request to close a client that is closed already changes nothing, so that it runs no shutdown
/// and calls no store, and it is answered with success at once.
pub proof fn a_repeated_close_does_nothing(client: ClientView)
    requires
        client.sound(),
        client.closing.closed,
    ensures
        yuanrong::immediate_answer(!client.closing.started) == Some(Ok::<(), Failure>(())),
        client.after(ClientEvent::Close) == client,
        refuses_calls(client),
{
    assert(client.closing.asked() == client.closing);
}

/// The shutdown of a client whose stores answer with these outcomes ends: what the task of the
/// call with this index returns is the answer of a walk over the stores.
pub open spec fn shutdown_ends(
    index: int,
    outcomes: Seq<Result<(), YuanrongStoreError>>,
) -> ClientEvent {
    let (answer, calls) = yuanrong::whole_walk(yuanrong::store_answers(outcomes));
    ClientEvent::Ended { call: index, outcome: EventView::Returned(answer) }
}

/// The whole course of closing a Yuanrong client, where the shutdown ends in time and whatever
/// else happens before and after that. The first request to close is not answered at once. It
/// shuts the stores down in order up to and with the first that fails, and is answered with that
/// failure, or with success where none fails. Every request behind it changes nothing and is
/// answered with success. From the first request on, every other call is refused.
pub proof fn closing_shuts_the_stores_down_once(
    client: ClientView,
    outcomes: Seq<Result<(), YuanrongStoreError>>,
    during: Seq<ClientEvent>,
    later: Seq<ClientEvent>,
)
    requires
        client.sound(),
        client.product == Product::Yuanrong,
        !client.closing.closed,
        client.after(ClientEvent::Close).all_possible(during),
        client.after(ClientEvent::Close).after_all(during).calls[client.calls.len() as int].stage
            == CallStage::Running,
        client.after(ClientEvent::Close).after_all(during).after(
            shutdown_ends(client.calls.len() as int, outcomes),
        ).all_possible(later),
    ensures
        ({
            let index = client.calls.len() as int;
            let answers = yuanrong::store_answers(outcomes);
            let (answer, calls) = yuanrong::whole_walk(answers);
            let asked = client.after(ClientEvent::Close);
            let running = asked.after_all(during);
            let ended = running.after(shutdown_ends(index, outcomes));
            let last = ended.after_all(later);
            &&& yuanrong::immediate_answer(!client.closing.started) is None
            &&& yuanrong::ends_at_first_failure(answers, answer, calls)
            &&& running.possible(shutdown_ends(index, outcomes))
            &&& running.closing.result is None
            &&& ended.closing.result == Some(answer)
            &&& ended.shutdowns == 1
            &&& last.closing == ended.closing
            &&& last.shutdowns == 1
            &&& yuanrong::immediate_answer(!running.closing.started) == Some(Ok::<(), Failure>(()))
            &&& running.after(ClientEvent::Close) == running
            &&& yuanrong::immediate_answer(!last.closing.started) == Some(Ok::<(), Failure>(()))
            &&& last.after(ClientEvent::Close) == last
            &&& refuses_calls(asked)
            &&& refuses_calls(running)
            &&& refuses_calls(last)
        }),
{
    let index = client.calls.len() as int;
    let asked = client.after(ClientEvent::Close);
    let running = asked.after_all(during);
    let end = shutdown_ends(index, outcomes);
    let ended = running.after(end);
    yuanrong::a_walk_stops_at_the_first_failure(yuanrong::store_answers(outcomes));
    lifecycle::an_event_keeps_a_client_sound(client, ClientEvent::Close);
    lifecycle::a_client_stays_sound(asked, during);
    lifecycle::what_was_settled_stays(asked, during);
    assert(running.owns(index));
    lifecycle::an_event_keeps_a_client_sound(running, end);
    assert(ended.owns(index));
    lifecycle::closing_has_one_result(ended, later);
    lifecycle::a_client_stays_sound(ended, later);
    lifecycle::what_was_settled_stays(ended, later);
    assert(ended.after_all(later).owns(index));
    a_repeated_close_does_nothing(asked);
    a_repeated_close_does_nothing(running);
    a_repeated_close_does_nothing(ended.after_all(later));
}

} // verus!
