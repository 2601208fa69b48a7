//! The state machine of one turn: from the user's message, through the
//! streamed responses and the tool calls that they ask for, to the final
//! answer.
//!
//! The orchestrator decides; it performs nothing. Each step takes what
//! happened outside (a payload arrived, the stream ended, a tool finished)
//! and answers with the updates to show and the next thing to do outside.

use vstd::prelude::*;
use vstd::string::StringExecFns;
use crate::assembler::ToolCallAssembler;
use crate::delta::{fragments_view, ChatCompletionChunk, Fragment, FragmentView};
use crate::gateway::{ExecutionError, ToolArguments};
use crate::history::{call_ids, outstanding, settled, ConversationHistory};
use crate::message::{all_shaped, calls_view, clone_calls, Message, Role, ToolCall, ToolCallView};
use crate::request::{request_for, tools_view, ChatCompletionRequest, Tool};
use crate::turn::{
    end_of_response, executing_status, fail_with, fragments_step, next_round, output_entry,
    run_calls, transition, turn_start, with_result, ActionView, EventView, TurnView,
};
use crate::turn_laws::{
    lemma_end_of_response_acts, lemma_fragments_step_stops, lemma_transition_keeps_order,
    lemma_transition_keeps_shape, lemma_turn_start_is_orderly, orderly,
};
use crate::ui::{updates_view, ChatMessage, ChatMessageView, UiUpdate, UiUpdateView};

verus! {


/// Where a turn stands.
#[derive(Debug, Clone, Copy, PartialEq, Eq, Structural)]
pub enum TurnState {
    /// A completion request is out; its response is being read.
    AwaitingResponse,
    /// The tool calls of the last response are being executed, one by one.
    ExecutingTools,
    /// The assistant has answered without asking for tools.
    Done,
    /// The turn has ended on a failure.
    Failed,
}

/// What happened outside.
#[derive(Debug)]
pub enum TurnEvent {
    /// The backend has accepted the request and the response stream is open.
    ResponseOpened,
    /// A payload arrived: decoded, or `None` where it did not decode.
    Payload(Option<ChatCompletionChunk>),
    /// Fragments of the response arrived, in this order.
    Fragments(Vec<Fragment>),
    /// The response is complete: its end was announced, or the transport
    /// closed the stream.
    StreamEnd,
    /// The request or the stream failed; the text says how.
    TransportFailed(String),
    /// The tool service has answered the call that was handed to it.
    ToolFinished(Result<String, ExecutionError>),
}

/// What is to be done outside next.
#[derive(Debug)]
pub enum TurnAction {
    /// Send the request and open the response stream.
    RequestCompletion(ChatCompletionRequest),
    /// Go on reading the response stream.
    ReadStream,
    /// Hand the call to the tool service.
    ExecuteTool { name: String, arguments: ToolArguments },
    /// Nothing: the turn is over.
    Finish,
}

/// The answer to one event: what to show, and what to do next.
#[derive(Debug)]
pub struct TurnStep {
    pub updates: Vec<UiUpdate>,
    pub action: TurnAction,
}

/// Why the orchestrator refuses an event.
#[derive(Debug, Clone, Copy, PartialEq, Eq, Structural)]
pub enum TurnError {
    /// The event cannot happen in the state in which the turn stands.
    UnexpectedEvent,
}

impl View for TurnEvent {
    type V = EventView;

    open spec fn view(&self) -> EventView {
        match self {
            TurnEvent::ResponseOpened => EventView::ResponseOpened,
            TurnEvent::Payload(payload) => EventView::Payload(
                match payload {
                    Some(chunk) => Some(chunk@),
                    None => None,
                },
            ),
            TurnEvent::Fragments(fragments) => EventView::Fragments(fragments_view(fragments@)),
            TurnEvent::StreamEnd => EventView::StreamEnd,
            TurnEvent::TransportFailed(text) => EventView::TransportFailed(text@),
            TurnEvent::ToolFinished(outcome) => EventView::ToolFinished(
                match outcome {
                    Ok(text) => Ok(text@),
                    Err(error) => Err(error@),
                },
            ),
        }
    }
}

impl View for TurnAction {
    type V = ActionView;

    open spec fn view(&self) -> ActionView {
        match self {
            TurnAction::RequestCompletion(request) => ActionView::RequestCompletion(request@),
            TurnAction::ReadStream => ActionView::ReadStream,
            TurnAction::ExecuteTool { name, arguments } => ActionView::ExecuteTool {
                name: name@,
                arguments: arguments@,
            },
            TurnAction::Finish => ActionView::Finish,
        }
    }
}

/// Drives one turn of the conversation.
pub struct TurnOrchestrator {
    history: ConversationHistory,
    tools: Vec<Tool>,
    gateway_available: bool,
    round_limit: Option<u64>,
    rounds: u64,
    state: TurnState,
    content: String,
    assembler: ToolCallAssembler,
    calls: Vec<ToolCall>,
    next_call: usize,
}

impl View for TurnOrchestrator {
    type V = TurnView;

    closed spec fn view(&self) -> TurnView {
        TurnView {
            history: self.history@,
            tools: tools_view(self.tools@),
            gateway_available: self.gateway_available,
            round_limit: match self.round_limit {
                Some(limit) => Some(limit as nat),
                None => None,
            },
            rounds: self.rounds as nat,
            state: self.state,
            content: self.content@,
            entries: self.assembler@,
            calls: calls_view(self.calls@),
            next_call: self.next_call as nat,
        }
    }
}

impl TurnOrchestrator {
    /// The parts are well formed, and the results that the history waits
    /// for are those of the calls that have none yet.
    spec fn ready(&self) -> bool {
        &&& self.history.wf()
        &&& self.assembler.wf()
        &&& self.next_call <= self.calls@.len()
        &&& outstanding(self.history@) == call_ids(calls_view(self.calls@)).skip(
            self.next_call as int,
        )
    }

    /// The parts are well formed, and while tools are executed the results
    /// that the history waits for are those of the calls that have none yet.
    pub closed spec fn wf(&self) -> bool {
        &&& self.history.wf()
        &&& self.assembler.wf()
        &&& self.state == TurnState::ExecutingTools ==> self.ready() && self.next_call
            < self.calls@.len()
    }

    /// Begins a turn: appends the user's message to the history and asks
    /// for the first response. `round_limit` is the most responses that the
    /// turn may ask for, if there is to be a limit; the first response is
    /// asked for in any case. A turn that would go beyond its limit ends on
    /// a failure instead.
    pub fn begin_turn(
        history: ConversationHistory,
        tools: Vec<Tool>,
        gateway_available: bool,
        round_limit: Option<u64>,
        user_text: String,
    ) -> (started: (TurnOrchestrator, TurnStep))
        requires
            history.wf(),
        ensures
            started.0.wf(),
            started.0@ == turn_start(
                history@,
                tools_view(tools@),
                gateway_available,
                match round_limit {
                    Some(limit) => Some(limit as nat),
                    None => None,
                },
                user_text@,
            ),
            updates_view(started.1.updates@) == Seq::<UiUpdateView>::empty(),
            started.1.action@ == ActionView::RequestCompletion(
                request_for(started.0@.history, tools_view(tools@)),
            ),
            settled(history@) && outstanding(history@).len() == 0 ==> orderly(started.0@),
            all_shaped(history@) ==> all_shaped(started.0@.history),
    {
        proof {
            if settled(history@) && outstanding(history@).len() == 0 {
                lemma_turn_start_is_orderly(
                    history@,
                    tools_view(tools@),
                    gateway_available,
                    match round_limit {
                        Some(limit) => Some(limit as nat),
                        None => None,
                    },
                    user_text@,
                );
            }
        }
        let mut history = history;
        match history.append(Message::user(user_text)) {
            Ok(()) => {},
            Err(_) => {
                assert(false);
            },
        }
        let request = ChatCompletionRequest::new(history.snapshot(), &tools);
        let orchestrator = TurnOrchestrator {
            history,
            tools,
            gateway_available,
            round_limit,
            rounds: 1,
            state: TurnState::AwaitingResponse,
            content: String::new(),
            assembler: ToolCallAssembler::new(),
            calls: Vec::new(),
            next_call: 0,
        };
        let updates: Vec<UiUpdate> = Vec::new();
        assert(updates_view(updates@) =~= Seq::<UiUpdateView>::empty());
        assert(orchestrator@.calls =~= Seq::<ToolCallView>::empty());
        (orchestrator, TurnStep { updates, action: TurnAction::RequestCompletion(request) })
    }

    /// Where the turn stands.
    pub fn state(&self) -> (state: TurnState)
        ensures
            state == self@.state,
    {
        self.state
    }

    /// The conversation so far.
    pub fn history(&self) -> (history: &ConversationHistory)
        ensures
            history@ == self@.history,
            self.wf() ==> history.wf(),
    {
        &self.history
    }

    /// Gives the conversation back, for the next turn.
    pub fn into_history(self) -> (history: ConversationHistory)
        ensures
            history@ == self@.history,
            self.wf() ==> history.wf(),
            orderly(self@) ==> settled(history@),
            orderly(self@) && self@.state != TurnState::ExecutingTools ==> outstanding(
                history@,
            ).len() == 0,
    {
        self.history
    }

    /// Ends the turn on a failure.
    fn fail(&mut self, text: String, shown: Vec<UiUpdate>) -> (step: TurnStep)
        requires
            old(self).history.wf(),
            old(self).assembler.wf(),
        ensures
            final(self).wf(),
            final(self)@ == fail_with(old(self)@, text@).0,
            updates_view(step.updates@) == updates_view(shown@) + fail_with(old(self)@, text@).1,
            step.action@ == fail_with(old(self)@, text@).2,
    {
        let mut updates = shown;
        let entry = ChatMessage { role: Role::System, content: text.clone() };
        match self.history.append(Message::system(text)) {
            Ok(()) => {},
            Err(_) => {
                assert(false);
            },
        }
        self.state = TurnState::Failed;
        updates.push(UiUpdate::Append(entry));
        updates.push(UiUpdate::Status(None));
        assert(updates_view(updates@) =~= updates_view(shown@) + fail_with(old(self)@, text@).1);
        TurnStep { updates, action: TurnAction::Finish }
    }

    /// Records the result of the call that is due.
    fn record_result(&mut self, output: String) -> (update: UiUpdate)
        requires
            old(self).ready(),
            old(self).next_call < old(self).calls@.len(),
        ensures
            final(self).ready(),
            final(self)@ == with_result(old(self)@, output@),
            update@ == UiUpdateView::Append(output_entry(output@)),
    {
        let mut content = "output: ".to_owned();
        content.append(output.as_str());
        let message = Message::tool_result(&self.calls[self.next_call], output);
        proof {
            let ids = call_ids(calls_view(self.calls@));
            assert(ids.skip(self.next_call as int)[0] == ids[self.next_call as int]);
            assert(ids.skip(self.next_call as int).drop_first() =~= ids.skip(self.next_call + 1));
            assert(self.history@.push(message@).drop_last() =~= self.history@);
        }
        match self.history.append(message) {
            Ok(()) => {},
            Err(_) => {
                assert(false);
            },
        }
        let count: usize = self.calls.len();
        assert(self.next_call < count);
        self.next_call = self.next_call + 1;
        UiUpdate::Append(ChatMessage { role: Role::Tool, content })
    }

    /// Takes up the calls that have no result yet.
    fn advance(&mut self, shown: Vec<UiUpdate>) -> (step: TurnStep)
        requires
            old(self).ready(),
        ensures
            final(self).wf(),
            final(self)@ == run_calls(old(self)@).0,
            updates_view(step.updates@) == updates_view(shown@) + run_calls(old(self)@).1,
            step.action@ == run_calls(old(self)@).2,
    {
        let mut updates = shown;
        let ghost start = self@;
        proof {
            assert(updates_view(shown@) + run_calls(start).1 =~= updates_view(updates@)
                + run_calls(self@).1);
        }
        while self.next_call < self.calls.len()
            invariant
                self.ready(),
                start == old(self)@,
                run_calls(start).0 == run_calls(self@).0,
                run_calls(start).2 == run_calls(self@).2,
                updates_view(shown@) + run_calls(start).1 == updates_view(updates@) + run_calls(
                    self@,
                ).1,
            decreases self.calls@.len() - self.next_call,
        {
            let ghost before = self@;
            let ghost listed = updates_view(updates@);
            let mut status = "Executing ".to_owned();
            status.append(self.calls[self.next_call].function.name.as_str());
            status.append("...");
            updates.push(UiUpdate::Status(Some(status)));
            let ghost announce = UiUpdateView::Status(
                Some(executing_status(before.calls[before.next_call as int].name)),
            );
            assert(updates_view(updates@) =~= listed.push(announce));
            if self.gateway_available {
                let name = self.calls[self.next_call].function.name.clone();
                let arguments = ToolArguments::parse(
                    self.calls[self.next_call].function.arguments.as_str(),
                );
                self.state = TurnState::ExecutingTools;
                proof {
                    assert(listed + seq![announce] =~= listed.push(announce));
                }
                return TurnStep { updates, action: TurnAction::ExecuteTool { name, arguments } };
            }
            let update = self.record_result("MCP Server not available".to_owned());
            updates.push(update);
            proof {
                let output = "MCP Server not available"@;
                let entry = UiUpdateView::Append(output_entry(output));
                assert(updates_view(updates@) =~= listed.push(announce).push(entry));
                assert(listed + (seq![announce, entry] + run_calls(self@).1) =~= listed.push(
                    announce,
                ).push(entry) + run_calls(self@).1);
            }
        }
        let ghost listed = updates_view(updates@);
        let ghost before = self@;
        self.calls = Vec::new();
        self.next_call = 0;
        assert(calls_view(self.calls@) =~= Seq::<ToolCallView>::empty());
        let capped = match self.round_limit {
            Some(limit) => self.rounds >= limit,
            None => self.rounds == u64::MAX,
        };
        if capped {
            let step = self.fail("Error: tool round limit reached".to_owned(), updates);
            proof {
                assert(listed + next_round(before).1 =~= updates_view(step.updates@));
            }
            return step;
        }
        self.rounds = self.rounds + 1;
        self.state = TurnState::AwaitingResponse;
        self.content = String::new();
        self.assembler = ToolCallAssembler::new();
        let request = ChatCompletionRequest::new(self.history.snapshot(), &self.tools);
        updates.push(UiUpdate::Status(Some("Thinking...".to_owned())));
        proof {
            assert(updates_view(updates@) =~= listed + next_round(before).1);
        }
        TurnStep { updates, action: TurnAction::RequestCompletion(request) }
    }

    /// Closes the response that was read.
    fn finish_response(&mut self, shown: Vec<UiUpdate>) -> (step: TurnStep)
        requires
            old(self).wf(),
            old(self).state == TurnState::AwaitingResponse,
        ensures
            final(self).wf(),
            final(self)@ == end_of_response(old(self)@).0,
            updates_view(step.updates@) == updates_view(shown@) + end_of_response(old(self)@).1,
            step.action@ == end_of_response(old(self)@).2,
    {
        let mut text = String::new();
        std::mem::swap(&mut text, &mut self.content);
        let mut assembler = ToolCallAssembler::new();
        std::mem::swap(&mut assembler, &mut self.assembler);
        let calls = assembler.finalize();
        let message = Message::assistant(text, clone_calls(&calls));
        proof {
            assert(self.history@.push(message@).drop_last() =~= self.history@);
        }
        match self.history.append(message) {
            Ok(()) => {},
            Err(_) => {
                assert(false);
            },
        }
        let mut updates = shown;
        if calls.len() == 0 {
            self.state = TurnState::Done;
            updates.push(UiUpdate::Status(None));
            assert(updates_view(updates@) =~= updates_view(shown@) + seq![
                UiUpdateView::Status(None),
            ]);
            TurnStep { updates, action: TurnAction::Finish }
        } else {
            self.calls = calls;
            self.next_call = 0;
            self.state = TurnState::ExecutingTools;
            proof {
                let ids = call_ids(calls_view(self.calls@));
                assert(ids.skip(0) =~= ids);
            }
            self.advance(updates)
        }
    }

    /// Takes in a run of fragments, up to the end of the response.
    fn take_fragments(&mut self, fragments: &Vec<Fragment>) -> (step: TurnStep)
        requires
            old(self).wf(),
            old(self).state == TurnState::AwaitingResponse,
        ensures
            final(self).wf(),
            (final(self)@, updates_view(step.updates@), step.action@) == fragments_step(
                old(self)@,
                fragments_view(fragments@),
            ),
    {
        let mut updates: Vec<UiUpdate> = Vec::new();
        let ghost all = fragments_view(fragments@);
        let mut i: usize = 0;
        proof {
            assert(all.take(0) =~= Seq::<FragmentView>::empty());
            assert(updates_view(updates@) =~= Seq::<UiUpdateView>::empty());
        }
        while i < fragments.len()
            invariant
                i <= fragments.len(),
                all == fragments_view(fragments@),
                self.wf(),
                self.state == TurnState::AwaitingResponse,
                fragments_step(old(self)@, all.take(i as int)) == (
                    self@,
                    updates_view(updates@),
                    ActionView::ReadStream,
                ),
            decreases fragments.len() - i,
        {
            let ghost listed = updates_view(updates@);
            let ghost before = self@;
            proof {
                assert(all.take(i + 1).drop_last() =~= all.take(i as int));
                assert(all.take(i + 1).last() == fragments@[i as int]@);
            }
            match &fragments[i] {
                Fragment::Content(text) => {
                    self.content.append(text.as_str());
                    updates.push(UiUpdate::ExtendLast(text.clone()));
                    assert(updates_view(updates@) =~= listed + seq![
                        UiUpdateView::ExtendLast(text@),
                    ]);
                },
                Fragment::ToolCall(piece) => {
                    self.assembler.push(piece);
                    assert(updates_view(updates@) =~= listed + Seq::<UiUpdateView>::empty());
                },
                Fragment::StreamEnd => {
                    let step = self.finish_response(updates);
                    proof {
                        lemma_end_of_response_acts(before);
                        lemma_fragments_step_stops(old(self)@, all, i + 1);
                    }
                    return step;
                },
            }
            i += 1;
        }
        assert(all.take(fragments@.len() as int) =~= all);
        TurnStep { updates, action: TurnAction::ReadStream }
    }

    /// Takes in what happened outside, and says what to show and what to do
    /// next. An event that cannot happen in the state in which the turn
    /// stands is refused, and changes nothing.
    pub fn handle(&mut self, event: TurnEvent) -> (result: Result<TurnStep, TurnError>)
        requires
            old(self).wf(),
        ensures
            final(self).wf(),
            match result {
                Ok(step) => transition(old(self)@, event@) == Some(
                    (final(self)@, updates_view(step.updates@), step.action@),
                ),
                Err(_) => transition(old(self)@, event@) is None && final(self)@ == old(self)@,
            },
            orderly(old(self)@) ==> orderly(final(self)@),
            all_shaped(old(self)@.history) ==> all_shaped(final(self)@.history),
    {
        proof {
            if orderly(self@) && transition(self@, event@) is Some {
                lemma_transition_keeps_order(self@, event@);
            }
            if all_shaped(self@.history) && transition(self@, event@) is Some {
                lemma_transition_keeps_shape(self@, event@);
            }
        }
        match self.state {
            TurnState::AwaitingResponse => match event {
                TurnEvent::ResponseOpened => {
                    let mut updates: Vec<UiUpdate> = Vec::new();
                    updates.push(
                        UiUpdate::Append(
                            ChatMessage { role: Role::Assistant, content: String::new() },
                        ),
                    );
                    assert(updates_view(updates@) =~= seq![
                        UiUpdateView::Append(
                            ChatMessageView { role: Role::Assistant, content: Seq::empty() },
                        ),
                    ]);
                    Ok(TurnStep { updates, action: TurnAction::ReadStream })
                },
                TurnEvent::Payload(None) => {
                    let updates: Vec<UiUpdate> = Vec::new();
                    assert(updates_view(updates@) =~= Seq::<UiUpdateView>::empty());
                    Ok(TurnStep { updates, action: TurnAction::ReadStream })
                },
                TurnEvent::Payload(Some(chunk)) => {
                    let fragments = chunk.fragments();
                    Ok(self.take_fragments(&fragments))
                },
                TurnEvent::Fragments(fragments) => Ok(self.take_fragments(&fragments)),
                TurnEvent::StreamEnd => {
                    let shown: Vec<UiUpdate> = Vec::new();
                    let ghost before = self@;
                    let step = self.finish_response(shown);
                    proof {
                        assert(updates_view(shown@) + end_of_response(before).1
                            =~= end_of_response(before).1);
                    }
                    Ok(step)
                },
                TurnEvent::TransportFailed(text) => {
                    let mut message = "Error: ".to_owned();
                    message.append(text.as_str());
                    let shown: Vec<UiUpdate> = Vec::new();
                    assert(updates_view(shown@) =~= Seq::<UiUpdateView>::empty());
                    let ghost before = self@;
                    let step = self.fail(message, shown);
                    proof {
                        assert(Seq::<UiUpdateView>::empty() + fail_with(before, message@).1
                            =~= fail_with(before, message@).1);
                    }
                    Ok(step)
                },
                TurnEvent::ToolFinished(_) => Err(TurnError::UnexpectedEvent),
            },
            TurnState::ExecutingTools => match event {
                TurnEvent::ToolFinished(outcome) => {
                    let output = match outcome {
                        Ok(text) => text,
                        Err(error) => error.message,
                    };
                    let mut updates: Vec<UiUpdate> = Vec::new();
                    let update = self.record_result(output);
                    updates.push(update);
                    assert(updates_view(updates@) =~= seq![update@]);
                    Ok(self.advance(updates))
                },
                _ => Err(TurnError::UnexpectedEvent),
            },
            TurnState::Done => Err(TurnError::UnexpectedEvent),
            TurnState::Failed => Err(TurnError::UnexpectedEvent),
        }
    }
}

} // verus!
