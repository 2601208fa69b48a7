//! The model of one turn: what a turn is as a mathematical value, and how
//! each event changes it.
//!
//! The functions here say what the orchestrator does; the orchestrator is
//! proved to do exactly that.

use vstd::prelude::*;
use crate::assembler::{absorb, finished_calls};
use crate::delta::{chunk_fragments, DeltaView, FragmentView};
use crate::gateway::{arguments_of, json_kind, ToolArgumentsView};
use crate::message::{assistant_message, tool_message, MessageView, Role, ToolCallView};
use crate::orchestrator::TurnState;
use crate::request::{request_for, RequestView, ToolView};
use crate::ui::{ChatMessageView, UiUpdateView};

verus! {

/// The mathematical value of a [`TurnEvent`](crate::orchestrator::TurnEvent).
pub enum EventView {
    ResponseOpened,
    Payload(Option<Seq<DeltaView>>),
    Fragments(Seq<FragmentView>),
    StreamEnd,
    TransportFailed(Seq<char>),
    ToolFinished(Result<Seq<char>, Seq<char>>),
}

/// The mathematical value of a [`TurnAction`](crate::orchestrator::TurnAction).
pub enum ActionView {
    RequestCompletion(RequestView),
    ReadStream,
    ExecuteTool { name: Seq<char>, arguments: ToolArgumentsView },
    Finish,
}

/// The mathematical value of a
/// [`TurnOrchestrator`](crate::orchestrator::TurnOrchestrator).
pub struct TurnView {
    /// The conversation so far.
    pub history: Seq<MessageView>,
    /// The tools that are declared to the model.
    pub tools: Seq<ToolView>,
    /// Whether there is a tool service to hand calls to.
    pub gateway_available: bool,
    /// The most responses that one turn may ask for, if there is a limit.
    /// The first response is asked for in any case.
    pub round_limit: Option<nat>,
    /// The responses that the turn has asked for.
    pub rounds: nat,
    /// Where the turn stands.
    pub state: TurnState,
    /// The text of the response that is being read.
    pub content: Seq<char>,
    /// The tool-call records of the response that is being read.
    pub entries: Seq<(int, ToolCallView)>,
    /// The tool calls that are being executed.
    pub calls: Seq<ToolCallView>,
    /// How many of them have their result.
    pub next_call: nat,
}

/// The transcript entry that shows a tool's output.
pub open spec fn output_entry(output: Seq<char>) -> ChatMessageView {
    ChatMessageView { role: Role::Tool, content: "output: "@ + output }
}

/// The status line while the tool `name` runs.
pub open spec fn executing_status(name: Seq<char>) -> Seq<char> {
    "Executing "@ + name + "..."@
}

/// The turn at its start: the user's message is appended to the history, and
/// the first response is asked for.
pub open spec fn turn_start(
    history: Seq<MessageView>,
    tools: Seq<ToolView>,
    gateway_available: bool,
    round_limit: Option<nat>,
    text: Seq<char>,
) -> TurnView {
    TurnView {
        history: history.push(
            MessageView {
                role: Role::User,
                content: Some(text),
                tool_calls: None,
                tool_call_id: None,
                name: None,
            },
        ),
        tools,
        gateway_available,
        round_limit,
        rounds: 1,
        state: TurnState::AwaitingResponse,
        content: Seq::empty(),
        entries: Seq::empty(),
        calls: Seq::empty(),
        next_call: 0,
    }
}

/// What a fragment adds to the response that is being read, and what is
/// shown for it: text is appended to the response's text and shown at once,
/// a piece of a tool call goes into its record. The end of the response adds
/// nothing to it.
pub open spec fn absorb_fragment(turn: TurnView, fragment: FragmentView) -> (
    TurnView,
    Seq<UiUpdateView>,
) {
    match fragment {
        FragmentView::Content(text) => (
            TurnView { content: turn.content + text, ..turn },
            seq![UiUpdateView::ExtendLast(text)],
        ),
        FragmentView::ToolCall(piece) => (
            TurnView { entries: absorb(turn.entries, piece), ..turn },
            Seq::empty(),
        ),
        FragmentView::StreamEnd => (turn, Seq::empty()),
    }
}

/// What a run of fragments adds to the response that is being read, and
/// what is shown for them.
pub open spec fn absorb_fragments(turn: TurnView, fragments: Seq<FragmentView>) -> (
    TurnView,
    Seq<UiUpdateView>,
)
    decreases fragments.len(),
{
    if fragments.len() == 0 {
        (turn, Seq::empty())
    } else {
        let (before, shown) = absorb_fragments(turn, fragments.drop_last());
        let (after, more) = absorb_fragment(before, fragments.last());
        (after, shown + more)
    }
}

/// The turn ends on a failure: a diagnostic message of the system goes into
/// the history and the transcript, and the status line is cleared.
pub open spec fn fail_with(turn: TurnView, text: Seq<char>) -> (
    TurnView,
    Seq<UiUpdateView>,
    ActionView,
) {
    (
        TurnView {
            history: turn.history.push(
                MessageView {
                    role: Role::System,
                    content: Some(text),
                    tool_calls: None,
                    tool_call_id: None,
                    name: None,
                },
            ),
            state: TurnState::Failed,
            ..turn
        },
        seq![
            UiUpdateView::Append(ChatMessageView { role: Role::System, content: text }),
            UiUpdateView::Status(None),
        ],
        ActionView::Finish,
    )
}

/// The most responses that one turn may ask for: the limit that was set, and
/// where none was set, the most that the turn can count.
pub open spec fn round_cap(round_limit: Option<nat>) -> nat {
    match round_limit {
        Some(limit) => limit,
        None => u64::MAX as nat,
    }
}

/// All calls have their result: the next response is asked for, with the
/// results in the history, unless the turn has used up its responses.
pub open spec fn next_round(turn: TurnView) -> (TurnView, Seq<UiUpdateView>, ActionView) {
    let rested = TurnView { calls: Seq::empty(), next_call: 0, ..turn };
    if turn.rounds >= round_cap(turn.round_limit) {
        fail_with(rested, "Error: tool round limit reached"@)
    } else {
        (
            TurnView {
                rounds: turn.rounds + 1,
                state: TurnState::AwaitingResponse,
                content: Seq::empty(),
                entries: Seq::empty(),
                ..rested
            },
            seq![UiUpdateView::Status(Some("Thinking..."@))],
            ActionView::RequestCompletion(request_for(turn.history, turn.tools)),
        )
    }
}

/// The turn after the call that is due got `output` as its result: the tool
/// message goes into the history, and the output into the transcript.
pub open spec fn with_result(turn: TurnView, output: Seq<char>) -> TurnView {
    TurnView {
        history: turn.history.push(tool_message(turn.calls[turn.next_call as int], output)),
        next_call: turn.next_call + 1,
        ..turn
    }
}

/// Goes through the calls that have no result yet, in order. Each call is
/// announced in the status line. With a tool service the call is handed
/// out, and the turn waits for its result. Without one the call's result
/// says so, and the next call is taken up. After the last call the next
/// response is asked for.
pub open spec fn run_calls(turn: TurnView) -> (TurnView, Seq<UiUpdateView>, ActionView)
    decreases turn.calls.len() - turn.next_call,
{
    if turn.next_call >= turn.calls.len() {
        next_round(turn)
    } else {
        let call = turn.calls[turn.next_call as int];
        let announce = UiUpdateView::Status(Some(executing_status(call.name)));
        if turn.gateway_available {
            (
                TurnView { state: TurnState::ExecutingTools, ..turn },
                seq![announce],
                ActionView::ExecuteTool {
                    name: call.name,
                    arguments: arguments_of(call.arguments, json_kind(call.arguments)),
                },
            )
        } else {
            let output = "MCP Server not available"@;
            let (after, shown, action) = run_calls(with_result(turn, output));
            (after, seq![announce, UiUpdateView::Append(output_entry(output))] + shown, action)
        }
    }
}

/// The response is complete: the assistant's message goes into the history.
/// Without tool calls the turn is done. With tool calls they are executed in
/// the order of their indices.
pub open spec fn end_of_response(turn: TurnView) -> (TurnView, Seq<UiUpdateView>, ActionView) {
    let calls = finished_calls(turn.entries);
    let history = turn.history.push(assistant_message(turn.content, calls));
    let closed = TurnView { history, content: Seq::empty(), entries: Seq::empty(), ..turn };
    if calls.len() == 0 {
        (
            TurnView { state: TurnState::Done, ..closed },
            seq![UiUpdateView::Status(None)],
            ActionView::Finish,
        )
    } else {
        run_calls(TurnView { state: TurnState::ExecutingTools, calls, next_call: 0, ..closed })
    }
}

/// The text of a tool message for what the tool service answered: its text,
/// or the text of its failure.
pub open spec fn outcome_text(outcome: Result<Seq<char>, Seq<char>>) -> Seq<char> {
    match outcome {
        Ok(text) => text,
        Err(message) => message,
    }
}

/// The turn after a fragment of the response that is being read: text and
/// pieces of tool calls are taken in and the stream is read on; the end of
/// the response closes it.
pub open spec fn fragment_step(turn: TurnView, fragment: FragmentView) -> (
    TurnView,
    Seq<UiUpdateView>,
    ActionView,
) {
    match fragment {
        FragmentView::StreamEnd => end_of_response(turn),
        _ => (
            absorb_fragment(turn, fragment).0,
            absorb_fragment(turn, fragment).1,
            ActionView::ReadStream,
        ),
    }
}

/// The turn after a run of fragments, taken in order. A fragment after the
/// end of the response is dropped: nothing is taken in once something other
/// than reading on is to be done.
pub open spec fn fragments_step(turn: TurnView, fragments: Seq<FragmentView>) -> (
    TurnView,
    Seq<UiUpdateView>,
    ActionView,
)
    decreases fragments.len(),
{
    if fragments.len() == 0 {
        (turn, Seq::empty(), ActionView::ReadStream)
    } else {
        let (before, shown, action) = fragments_step(turn, fragments.drop_last());
        if action is ReadStream {
            let (after, more, next) = fragment_step(before, fragments.last());
            (after, shown + more, next)
        } else {
            (before, shown, action)
        }
    }
}

/// The turn after an event, with what is shown and what is done next; `None`
/// where the event cannot happen in the state in which the turn stands.
pub open spec fn transition(turn: TurnView, event: EventView) -> Option<
    (TurnView, Seq<UiUpdateView>, ActionView),
> {
    match turn.state {
        TurnState::AwaitingResponse => match event {
            EventView::ResponseOpened => Some(
                (
                    turn,
                    seq![
                        UiUpdateView::Append(
                            ChatMessageView { role: Role::Assistant, content: Seq::empty() },
                        ),
                    ],
                    ActionView::ReadStream,
                ),
            ),
            EventView::Payload(None) => Some((turn, Seq::empty(), ActionView::ReadStream)),
            EventView::Payload(Some(choices)) => Some(
                fragments_step(turn, chunk_fragments(choices)),
            ),
            EventView::Fragments(fragments) => Some(fragments_step(turn, fragments)),
            EventView::StreamEnd => Some(fragment_step(turn, FragmentView::StreamEnd)),
            EventView::TransportFailed(text) => Some(fail_with(turn, "Error: "@ + text)),
            EventView::ToolFinished(_) => None,
        },
        TurnState::ExecutingTools => match event {
            EventView::ToolFinished(outcome) => {
                let output = outcome_text(outcome);
                let (after, shown, action) = run_calls(with_result(turn, output));
                Some((after, seq![UiUpdateView::Append(output_entry(output))] + shown, action))
            },
            _ => None,
        },
        TurnState::Done => None,
        TurnState::Failed => None,
    }
}

} // verus!
