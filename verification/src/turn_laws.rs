//! What holds of every turn: the laws of the model of a turn.

use vstd::prelude::*;
use crate::assembler::{absorb_all, assembled, finished_calls};
use crate::delta::{
    chunk_fragments, content_of, lemma_empty_delta_yields_nothing, lemma_payload_has_no_end,
    no_end, pieces_of, DeltaView, FragmentView,
};
use crate::history::{call_ids, outstanding, settled};
use crate::message::{all_shaped, assistant_message, MessageView, Role};
use crate::orchestrator::TurnState;
use crate::request::ToolView;
use crate::turn::{
    absorb_fragment, absorb_fragments, end_of_response, fail_with, fragments_step, next_round,
    outcome_text, round_cap, run_calls, transition, turn_start, with_result, ActionView,
    EventView, TurnView,
};
use crate::ui::UiUpdateView;

verus! {

/// The response that is being read holds nothing yet.
pub open spec fn fresh_response(turn: TurnView) -> bool {
    turn.content.len() == 0 && turn.entries.len() == 0
}

/// The turn after the fragments of one response: the text of the fragments,
/// in order, is appended to the response's text, and the pieces of tool
/// calls, in order, are merged into its records. Nothing else changes.
pub proof fn lemma_absorb_fragments(turn: TurnView, fragments: Seq<FragmentView>)
    ensures
        absorb_fragments(turn, fragments).0 == (TurnView {
            content: turn.content + content_of(fragments),
            entries: absorb_all(turn.entries, pieces_of(fragments)),
            ..turn
        }),
    decreases fragments.len(),
{
    if fragments.len() == 0 {
        assert(turn.content + content_of(fragments) =~= turn.content);
    } else {
        let earlier = fragments.drop_last();
        lemma_absorb_fragments(turn, earlier);
        let before = absorb_fragments(turn, earlier).0;
        match fragments.last() {
            FragmentView::Content(text) => {
                assert(before.content + text =~= turn.content + content_of(fragments));
            },
            FragmentView::ToolCall(piece) => {
                assert(pieces_of(fragments).drop_last() =~= pieces_of(earlier));
            },
            FragmentView::StreamEnd => {},
        }
    }
}

/// The fragments of two payloads, taken one payload after the other, leave
/// the turn as the fragments of both taken as one run.
pub proof fn lemma_absorb_fragments_concat(
    turn: TurnView,
    first: Seq<FragmentView>,
    second: Seq<FragmentView>,
)
    ensures
        absorb_fragments(turn, first + second).0 == absorb_fragments(
            absorb_fragments(turn, first).0,
            second,
        ).0,
        absorb_fragments(turn, first + second).1 == absorb_fragments(turn, first).1
            + absorb_fragments(absorb_fragments(turn, first).0, second).1,
    decreases second.len(),
{
    let middle = absorb_fragments(turn, first);
    if second.len() == 0 {
        assert(first + second =~= first);
        assert(middle.1 + Seq::<UiUpdateView>::empty() =~= middle.1);
    } else {
        let earlier = second.drop_last();
        lemma_absorb_fragments_concat(turn, first, earlier);
        assert((first + second).drop_last() =~= first + earlier);
        assert((first + second).last() == second.last());
        let before = absorb_fragments(middle.0, earlier);
        let more = absorb_fragment(before.0, second.last()).1;
        assert((middle.1 + before.1) + more =~= middle.1 + (before.1 + more));
    }
}

/// Fragments that do not end the response are all taken in, and the stream
/// is read on.
pub proof fn lemma_fragments_without_end(turn: TurnView, fragments: Seq<FragmentView>)
    requires
        no_end(fragments),
    ensures
        fragments_step(turn, fragments) == (
            absorb_fragments(turn, fragments).0,
            absorb_fragments(turn, fragments).1,
            ActionView::ReadStream,
        ),
    decreases fragments.len(),
{
    if fragments.len() > 0 {
        let earlier = fragments.drop_last();
        assert forall|i: int| 0 <= i < earlier.len() implies !(earlier[i] is StreamEnd) by {
            assert(earlier[i] == fragments[i]);
        }
        lemma_fragments_without_end(turn, earlier);
        assert(!(fragments[fragments.len() - 1] is StreamEnd));
    }
}

/// The end of the response after fragments that do not end it closes the
/// response that the fragments made.
pub proof fn lemma_fragments_then_end(turn: TurnView, fragments: Seq<FragmentView>)
    requires
        no_end(fragments),
    ensures
        ({
            let read = absorb_fragments(turn, fragments);
            let closed = end_of_response(read.0);
            fragments_step(turn, fragments.push(FragmentView::StreamEnd)) == (
                closed.0,
                read.1 + closed.1,
                closed.2,
            )
        }),
{
    lemma_fragments_without_end(turn, fragments);
    assert(fragments.push(FragmentView::StreamEnd).drop_last() =~= fragments);
}

/// Going through the calls never ends in reading on: it hands out a call,
/// asks for the next response, or ends the turn.
pub proof fn lemma_run_calls_acts(turn: TurnView)
    ensures
        !(run_calls(turn).2 is ReadStream),
    decreases turn.calls.len() - turn.next_call,
{
    if turn.next_call < turn.calls.len() && !turn.gateway_available {
        lemma_run_calls_acts(with_result(turn, "MCP Server not available"@));
    }
}

/// The end of a response never ends in reading on.
pub proof fn lemma_end_of_response_acts(turn: TurnView)
    ensures
        !(end_of_response(turn).2 is ReadStream),
{
    let calls = finished_calls(turn.entries);
    if calls.len() > 0 {
        lemma_run_calls_acts(
            TurnView {
                history: turn.history.push(assistant_message(turn.content, calls)),
                content: Seq::empty(),
                entries: Seq::empty(),
                state: TurnState::ExecutingTools,
                calls,
                next_call: 0,
                ..turn
            },
        );
    }
}

/// Once something other than reading on is to be done, later fragments
/// change nothing.
pub proof fn lemma_fragments_step_stops(turn: TurnView, fragments: Seq<FragmentView>, n: int)
    requires
        0 <= n <= fragments.len(),
        !(fragments_step(turn, fragments.take(n)).2 is ReadStream),
    ensures
        fragments_step(turn, fragments) == fragments_step(turn, fragments.take(n)),
    decreases fragments.len(),
{
    if n == fragments.len() {
        assert(fragments.take(n) =~= fragments);
    } else {
        let earlier = fragments.drop_last();
        assert(earlier.take(n) =~= fragments.take(n));
        lemma_fragments_step_stops(turn, earlier, n);
    }
}

/// Going through the calls only appends to the history.
pub proof fn lemma_run_calls_extends(turn: TurnView)
    ensures
        run_calls(turn).0.history.len() >= turn.history.len(),
        run_calls(turn).0.history.take(turn.history.len() as int) == turn.history,
    decreases turn.calls.len() - turn.next_call,
{
    if turn.next_call >= turn.calls.len() {
        assert(next_round(turn).0.history.take(turn.history.len() as int) =~= turn.history);
    } else if turn.gateway_available {
        assert(turn.history.take(turn.history.len() as int) =~= turn.history);
    } else {
        let later = with_result(turn, "MCP Server not available"@);
        lemma_run_calls_extends(later);
        assert(run_calls(later).0.history.take(turn.history.len() as int)
            =~= run_calls(later).0.history.take(later.history.len() as int).take(
            turn.history.len() as int,
        ));
        assert(later.history.take(turn.history.len() as int) =~= turn.history);
    }
}

/// The text of the assistant's message is the text of all content fragments
/// of its response, one after the other, and its tool calls are those that
/// the pieces of the response assemble to.
///
/// The turn starts a response, takes in the fragments of the response and
/// then its end. The message that this appends to the history is the
/// assistant's, with that text and those calls.
pub proof fn lemma_response_message(turn: TurnView, fragments: Seq<FragmentView>)
    requires
        fresh_response(turn),
        no_end(fragments),
    ensures
        ({
            let after = fragments_step(turn, fragments.push(FragmentView::StreamEnd)).0;
            let message = after.history[turn.history.len() as int];
            &&& after.history.len() > turn.history.len()
            &&& after.history.take(turn.history.len() as int) == turn.history
            &&& message == assistant_message(
                content_of(fragments),
                finished_calls(assembled(pieces_of(fragments))),
            )
            &&& message.role == Role::Assistant
            &&& message.text() == content_of(fragments)
            &&& message.calls() == finished_calls(assembled(pieces_of(fragments)))
        }),
{
    lemma_fragments_then_end(turn, fragments);
    lemma_absorb_fragments(turn, fragments);
    let read = absorb_fragments(turn, fragments).0;
    assert(turn.content + content_of(fragments) =~= content_of(fragments));
    assert(turn.entries =~= Seq::empty());
    let calls = finished_calls(read.entries);
    let message = assistant_message(read.content, calls);
    let history = read.history.push(message);
    assert(history.take(turn.history.len() as int) =~= turn.history);
    if calls.len() > 0 {
        let executing = TurnView {
            history,
            content: Seq::empty(),
            entries: Seq::empty(),
            state: TurnState::ExecutingTools,
            calls,
            next_call: 0,
            ..read
        };
        lemma_run_calls_extends(executing);
        let after = run_calls(executing).0;
        assert(after.history.take(history.len() as int)[turn.history.len() as int]
            == after.history[turn.history.len() as int]);
        assert(after.history.take(turn.history.len() as int) =~= after.history.take(
            history.len() as int,
        ).take(turn.history.len() as int));
    }
}

/// A payload that carries neither text nor pieces of tool calls, one
/// without choices, and one that did not decode change nothing.
pub proof fn lemma_empty_payload_changes_nothing(turn: TurnView, payload: Option<Seq<DeltaView>>)
    requires
        turn.state == TurnState::AwaitingResponse,
        match payload {
            Some(choices) => choices.len() == 0 || choices[0].is_empty(),
            None => true,
        },
    ensures
        transition(turn, EventView::Payload(payload)) == Some(
            (turn, Seq::<UiUpdateView>::empty(), ActionView::ReadStream),
        ),
{
    match payload {
        Some(choices) => {
            lemma_empty_delta_yields_nothing(choices);
        },
        None => {},
    }
}

/// No round of the history was left unfinished, and the calls that wait for
/// their result are those that the turn is executing: none, unless tools are
/// being executed.
pub open spec fn orderly(turn: TurnView) -> bool {
    &&& settled(turn.history)
    &&& turn.state == TurnState::ExecutingTools ==> {
        &&& turn.next_call < turn.calls.len()
        &&& outstanding(turn.history) == call_ids(turn.calls).skip(turn.next_call as int)
    }
    &&& turn.state != TurnState::ExecutingTools ==> outstanding(turn.history).len() == 0
}

/// A turn that begins on a settled history in which no call waits is
/// orderly.
pub proof fn lemma_turn_start_is_orderly(
    history: Seq<MessageView>,
    tools: Seq<ToolView>,
    gateway_available: bool,
    round_limit: Option<nat>,
    text: Seq<char>,
)
    requires
        settled(history),
        outstanding(history).len() == 0,
    ensures
        orderly(turn_start(history, tools, gateway_available, round_limit, text)),
{
    let turn = turn_start(history, tools, gateway_available, round_limit, text);
    assert(turn.history.drop_last() =~= history);
}

/// Ending the turn on a failure keeps it orderly, where no call waits.
pub proof fn lemma_fail_keeps_order(turn: TurnView, text: Seq<char>)
    requires
        settled(turn.history),
        outstanding(turn.history).len() == 0,
    ensures
        orderly(fail_with(turn, text).0),
{
    let after = fail_with(turn, text).0;
    assert(after.history.drop_last() =~= turn.history);
}

/// Going through the calls keeps the turn orderly.
pub proof fn lemma_run_calls_keeps_order(turn: TurnView)
    requires
        settled(turn.history),
        turn.next_call <= turn.calls.len(),
        outstanding(turn.history) == call_ids(turn.calls).skip(turn.next_call as int),
    ensures
        orderly(run_calls(turn).0),
    decreases turn.calls.len() - turn.next_call,
{
    if turn.next_call >= turn.calls.len() {
        let rested = TurnView { calls: Seq::empty(), next_call: 0, ..turn };
        if turn.rounds >= round_cap(turn.round_limit) {
            lemma_fail_keeps_order(rested, "Error: tool round limit reached"@);
        }
    } else if turn.gateway_available {
    } else {
        lemma_with_result_keeps_order(turn, "MCP Server not available"@);
        lemma_run_calls_keeps_order(with_result(turn, "MCP Server not available"@));
    }
}

/// The result of the call that is due keeps the history settled, and takes
/// the call off those that wait.
pub proof fn lemma_with_result_keeps_order(turn: TurnView, output: Seq<char>)
    requires
        settled(turn.history),
        turn.next_call < turn.calls.len(),
        outstanding(turn.history) == call_ids(turn.calls).skip(turn.next_call as int),
    ensures
        settled(with_result(turn, output).history),
        outstanding(with_result(turn, output).history) == call_ids(turn.calls).skip(
            turn.next_call as int + 1,
        ),
{
    let after = with_result(turn, output);
    let ids = call_ids(turn.calls);
    assert(after.history.drop_last() =~= turn.history);
    assert(ids.skip(turn.next_call as int)[0] == ids[turn.next_call as int]);
    assert(ids.skip(turn.next_call as int).drop_first() =~= ids.skip(turn.next_call as int + 1));
}

/// The end of a response keeps the turn orderly.
pub proof fn lemma_end_of_response_keeps_order(turn: TurnView)
    requires
        orderly(turn),
        turn.state == TurnState::AwaitingResponse,
    ensures
        orderly(end_of_response(turn).0),
{
    let calls = finished_calls(turn.entries);
    let message = assistant_message(turn.content, calls);
    let history = turn.history.push(message);
    assert(history.drop_last() =~= turn.history);
    let closed = TurnView { history, content: Seq::empty(), entries: Seq::empty(), ..turn };
    if calls.len() > 0 {
        let executing = TurnView {
            state: TurnState::ExecutingTools,
            calls,
            next_call: 0,
            ..closed
        };
        assert(call_ids(calls).skip(0) =~= call_ids(calls));
        lemma_run_calls_keeps_order(executing);
    } else {
        assert(call_ids(message.calls()) =~= Seq::<Seq<char>>::empty());
    }
}

/// A run of fragments keeps the turn orderly, and while the stream is read
/// on, the turn awaits the response.
pub proof fn lemma_fragments_step_keeps_order(turn: TurnView, fragments: Seq<FragmentView>)
    requires
        orderly(turn),
        turn.state == TurnState::AwaitingResponse,
    ensures
        orderly(fragments_step(turn, fragments).0),
        fragments_step(turn, fragments).2 is ReadStream ==> fragments_step(turn, fragments).0.state
            == TurnState::AwaitingResponse,
    decreases fragments.len(),
{
    if fragments.len() > 0 {
        lemma_fragments_step_keeps_order(turn, fragments.drop_last());
        let before = fragments_step(turn, fragments.drop_last());
        if before.2 is ReadStream {
            if fragments.last() is StreamEnd {
                lemma_end_of_response_keeps_order(before.0);
                lemma_end_of_response_acts(before.0);
            }
        }
    }
}

/// Every step keeps an orderly turn orderly. So in the history of a turn
/// that began orderly, every assistant message with tool calls is followed
/// by the results of all its calls, in order, before anything else is
/// appended.
pub proof fn lemma_transition_keeps_order(turn: TurnView, event: EventView)
    requires
        orderly(turn),
        transition(turn, event) is Some,
    ensures
        orderly((transition(turn, event)->0).0),
{
    match turn.state {
        TurnState::AwaitingResponse => match event {
            EventView::ResponseOpened => {},
            EventView::Payload(None) => {},
            EventView::Payload(Some(choices)) => {
                lemma_fragments_step_keeps_order(turn, chunk_fragments(choices));
            },
            EventView::Fragments(fragments) => {
                lemma_fragments_step_keeps_order(turn, fragments);
            },
            EventView::StreamEnd => {
                lemma_end_of_response_keeps_order(turn);
            },
            EventView::TransportFailed(text) => {
                lemma_fail_keeps_order(turn, "Error: "@ + text);
            },
            EventView::ToolFinished(_) => {},
        },
        TurnState::ExecutingTools => match event {
            EventView::ToolFinished(outcome) => {
                lemma_with_result_keeps_order(turn, outcome_text(outcome));
                lemma_run_calls_keeps_order(with_result(turn, outcome_text(outcome)));
            },
            _ => {},
        },
        TurnState::Done => {},
        TurnState::Failed => {},
    }
}

/// Going through the calls appends well-shaped messages only.
pub proof fn lemma_run_calls_keeps_shape(turn: TurnView)
    requires
        all_shaped(turn.history),
    ensures
        all_shaped(run_calls(turn).0.history),
    decreases turn.calls.len() - turn.next_call,
{
    if turn.next_call < turn.calls.len() && !turn.gateway_available {
        lemma_run_calls_keeps_shape(with_result(turn, "MCP Server not available"@));
    }
}

/// A run of fragments appends well-shaped messages only.
pub proof fn lemma_fragments_step_keeps_shape(turn: TurnView, fragments: Seq<FragmentView>)
    requires
        all_shaped(turn.history),
    ensures
        all_shaped(fragments_step(turn, fragments).0.history),
    decreases fragments.len(),
{
    if fragments.len() > 0 {
        lemma_fragments_step_keeps_shape(turn, fragments.drop_last());
        let before = fragments_step(turn, fragments.drop_last());
        if before.2 is ReadStream && fragments.last() is StreamEnd {
            lemma_end_of_response_keeps_shape(before.0);
        }
    }
}

/// The end of a response appends well-shaped messages only.
pub proof fn lemma_end_of_response_keeps_shape(turn: TurnView)
    requires
        all_shaped(turn.history),
    ensures
        all_shaped(end_of_response(turn).0.history),
{
    let calls = finished_calls(turn.entries);
    let history = turn.history.push(assistant_message(turn.content, calls));
    if calls.len() > 0 {
        lemma_run_calls_keeps_shape(
            TurnView {
                history,
                content: Seq::empty(),
                entries: Seq::empty(),
                state: TurnState::ExecutingTools,
                calls,
                next_call: 0,
                ..turn
            },
        );
    }
}

/// Every message that a turn appends to the history carries the fields of
/// its role and no others.
pub proof fn lemma_transition_keeps_shape(turn: TurnView, event: EventView)
    requires
        all_shaped(turn.history),
        transition(turn, event) is Some,
    ensures
        all_shaped((transition(turn, event)->0).0.history),
{
    match turn.state {
        TurnState::AwaitingResponse => match event {
            EventView::Payload(Some(choices)) => {
                lemma_fragments_step_keeps_shape(turn, chunk_fragments(choices));
            },
            EventView::Fragments(fragments) => {
                lemma_fragments_step_keeps_shape(turn, fragments);
            },
            EventView::StreamEnd => {
                lemma_end_of_response_keeps_shape(turn);
            },
            _ => {},
        },
        TurnState::ExecutingTools => match event {
            EventView::ToolFinished(outcome) => {
                lemma_run_calls_keeps_shape(with_result(turn, outcome_text(outcome)));
            },
            _ => {},
        },
        _ => {},
    }
}

/// The turn has asked for no more responses than it may: for the first, and
/// beyond that for no more than the most that was set.
pub open spec fn within_limit(turn: TurnView) -> bool {
    turn.rounds <= 1 || turn.rounds <= round_cap(turn.round_limit)
}

/// Going through the calls asks for another response only within the limit.
pub proof fn lemma_run_calls_keeps_limit(turn: TurnView)
    requires
        within_limit(turn),
    ensures
        within_limit(run_calls(turn).0),
        run_calls(turn).0.round_limit == turn.round_limit,
        run_calls(turn).0.state != TurnState::Done,
    decreases turn.calls.len() - turn.next_call,
{
    if turn.next_call < turn.calls.len() && !turn.gateway_available {
        lemma_run_calls_keeps_limit(with_result(turn, "MCP Server not available"@));
    }
}

/// A run of fragments asks for another response only within the limit.
pub proof fn lemma_fragments_step_keeps_limit(turn: TurnView, fragments: Seq<FragmentView>)
    requires
        within_limit(turn),
    ensures
        within_limit(fragments_step(turn, fragments).0),
        fragments_step(turn, fragments).0.round_limit == turn.round_limit,
    decreases fragments.len(),
{
    if fragments.len() > 0 {
        lemma_fragments_step_keeps_limit(turn, fragments.drop_last());
        let before = fragments_step(turn, fragments.drop_last());
        if before.2 is ReadStream && fragments.last() is StreamEnd {
            lemma_end_of_response(before.0);
        }
    }
}

/// A response without tool calls ends the turn, and only such a response
/// does: the turn goes on exactly when the assistant's message asks for at
/// least one tool. Where it goes on, it stays within its limit.
pub proof fn lemma_end_of_response(turn: TurnView)
    ensures
        (end_of_response(turn).0.state == TurnState::Done) == (finished_calls(turn.entries).len()
            == 0),
        finished_calls(turn.entries).len() == 0 ==> end_of_response(turn).2 is Finish,
        end_of_response(turn).0.round_limit == turn.round_limit,
        within_limit(turn) ==> within_limit(end_of_response(turn).0),
{
    let calls = finished_calls(turn.entries);
    if calls.len() > 0 {
        let executing = TurnView {
            history: turn.history.push(assistant_message(turn.content, calls)),
            content: Seq::empty(),
            entries: Seq::empty(),
            state: TurnState::ExecutingTools,
            calls,
            next_call: 0,
            ..turn
        };
        if within_limit(turn) {
            lemma_run_calls_keeps_limit(executing);
        } else {
            lemma_run_calls_ends(executing);
        }
    }
}

/// Going through the calls never leaves the turn done, nor changes its
/// limit.
pub proof fn lemma_run_calls_ends(turn: TurnView)
    ensures
        run_calls(turn).0.state != TurnState::Done,
        run_calls(turn).0.round_limit == turn.round_limit,
    decreases turn.calls.len() - turn.next_call,
{
    if turn.next_call < turn.calls.len() && !turn.gateway_available {
        lemma_run_calls_ends(with_result(turn, "MCP Server not available"@));
    }
}

/// No step takes the turn beyond the responses that it may ask for.
pub proof fn lemma_transition_keeps_limit(turn: TurnView, event: EventView)
    requires
        within_limit(turn),
        transition(turn, event) is Some,
    ensures
        within_limit((transition(turn, event)->0).0),
        (transition(turn, event)->0).0.round_limit == turn.round_limit,
{
    match turn.state {
        TurnState::AwaitingResponse => match event {
            EventView::Payload(Some(choices)) => {
                lemma_fragments_step_keeps_limit(turn, chunk_fragments(choices));
            },
            EventView::Fragments(fragments) => {
                lemma_fragments_step_keeps_limit(turn, fragments);
            },
            EventView::StreamEnd => {
                lemma_end_of_response(turn);
            },
            _ => {},
        },
        TurnState::ExecutingTools => match event {
            EventView::ToolFinished(outcome) => {
                lemma_run_calls_keeps_limit(with_result(turn, outcome_text(outcome)));
            },
            _ => {},
        },
        _ => {},
    }
}

/// A payload is taken in whole: its fragments add their text and their
/// pieces of tool calls to the response, and the stream is read on.
pub proof fn lemma_payload_is_absorbed(turn: TurnView, choices: Seq<DeltaView>)
    requires
        turn.state == TurnState::AwaitingResponse,
    ensures
        transition(turn, EventView::Payload(Some(choices))) == Some(
            (
                TurnView {
                    content: turn.content + content_of(chunk_fragments(choices)),
                    entries: absorb_all(turn.entries, pieces_of(chunk_fragments(choices))),
                    ..turn
                },
                absorb_fragments(turn, chunk_fragments(choices)).1,
                ActionView::ReadStream,
            ),
        ),
{
    lemma_payload_has_no_end(choices);
    lemma_fragments_without_end(turn, chunk_fragments(choices));
    lemma_absorb_fragments(turn, chunk_fragments(choices));
}

} // verus!
