//! The conversation history: an append-only sequence of messages in which
//! every tool message answers, in order, a call of the assistant message
//! before it.

use vstd::prelude::*;
use crate::message::{clone_messages, messages_view, Message, MessageView, Role, ToolCallView};

verus! {

/// Why the history refuses a message.
#[derive(Debug, Clone, Copy, PartialEq, Eq, Structural)]
pub enum StructureError {
    /// A tool message came while no call was waiting for its result: no
    /// assistant message with tool calls opened the round, or all its calls
    /// have their results.
    NoPendingCall,
    /// A tool message names another call than the one whose result is due
    /// next, or names none.
    CallMismatch,
}

/// The identifiers of a list of calls, in order.
pub open spec fn call_ids(calls: Seq<ToolCallView>) -> Seq<Seq<char>> {
    Seq::new(calls.len(), |i: int| calls[i].id)
}

/// The identifiers of the calls that still wait for their result at the end
/// of the history, in the order in which the results are due.
///
/// An assistant message opens a round with its calls. Each tool message
/// that answers the first waiting call takes it off. Any other message
/// closes the round.
pub open spec fn outstanding(history: Seq<MessageView>) -> Seq<Seq<char>>
    decreases history.len(),
{
    if history.len() == 0 {
        Seq::empty()
    } else {
        let last = history.last();
        let before = outstanding(history.drop_last());
        match last.role {
            Role::Assistant => call_ids(last.calls()),
            Role::Tool => if before.len() > 0 && last.tool_call_id == Some(before[0]) {
                before.drop_first()
            } else {
                Seq::empty()
            },
            _ => Seq::empty(),
        }
    }
}

/// The history takes the message: a tool message must answer the call whose
/// result is due next; every other message is taken.
pub open spec fn accepts(history: Seq<MessageView>, message: MessageView) -> bool {
    message.role == Role::Tool ==> outstanding(history).len() > 0 && message.tool_call_id == Some(
        outstanding(history)[0],
    )
}

/// Every message of the history was taken by the history before it.
pub open spec fn well_formed(history: Seq<MessageView>) -> bool
    decreases history.len(),
{
    history.len() == 0 || (well_formed(history.drop_last()) && accepts(
        history.drop_last(),
        history.last(),
    ))
}

/// The error with which the history refuses a message that it does not take.
pub open spec fn refusal(history: Seq<MessageView>) -> StructureError {
    if outstanding(history).len() == 0 {
        StructureError::NoPendingCall
    } else {
        StructureError::CallMismatch
    }
}

/// The history is well formed, and no message but a tool message was
/// appended while a call still waited for its result: no round was left
/// unfinished.
pub open spec fn settled(history: Seq<MessageView>) -> bool
    decreases history.len(),
{
    history.len() == 0 || {
        &&& settled(history.drop_last())
        &&& accepts(history.drop_last(), history.last())
        &&& history.last().role != Role::Tool ==> outstanding(history.drop_last()).len() == 0
    }
}

/// The number of tool messages that follow the message at `at` without a
/// break.
pub open spec fn results_after(history: Seq<MessageView>, at: int) -> nat
    decreases history.len() - at,
{
    if 0 <= at && at + 1 < history.len() && history[at + 1].role == Role::Tool {
        1 + results_after(history, at + 1)
    } else {
        0
    }
}

/// A settled history is well formed.
pub proof fn lemma_settled_is_well_formed(history: Seq<MessageView>)
    requires
        settled(history),
    ensures
        well_formed(history),
    decreases history.len(),
{
    if history.len() > 0 {
        lemma_settled_is_well_formed(history.drop_last());
    }
}

/// Every beginning of a settled history is settled.
pub proof fn lemma_settled_prefix(history: Seq<MessageView>, n: int)
    requires
        settled(history),
        0 <= n <= history.len(),
    ensures
        settled(history.take(n)),
    decreases history.len(),
{
    if n == history.len() {
        assert(history.take(n) =~= history);
    } else {
        lemma_settled_prefix(history.drop_last(), n);
        assert(history.drop_last().take(n) =~= history.take(n));
    }
}

/// The tool messages that follow a message without a break are tool
/// messages, and what comes after them is none.
proof fn lemma_results_after_bounds(history: Seq<MessageView>, at: int)
    requires
        0 <= at < history.len(),
    ensures
        at + 1 + results_after(history, at) <= history.len(),
        forall|j: int| at < j < at + 1 + results_after(history, at) ==> history[j].role == Role::Tool,
        at + 1 + results_after(history, at) < history.len() ==> history[at + 1 + results_after(
            history,
            at,
        )].role != Role::Tool,
    decreases history.len() - at,
{
    if at + 1 < history.len() && history[at + 1].role == Role::Tool {
        lemma_results_after_bounds(history, at + 1);
    }
}

/// In a well-formed history that ends with an assistant message's tool
/// calls and tool messages after it, the tool messages answer the first of
/// the calls, in order, and the others still wait.
pub proof fn lemma_round_shape(history: Seq<MessageView>, at: int)
    requires
        well_formed(history),
        0 <= at < history.len(),
        history[at].role == Role::Assistant,
        forall|j: int| at < j < history.len() ==> history[j].role == Role::Tool,
    ensures
        history.len() - 1 - at <= history[at].calls().len(),
        outstanding(history) == call_ids(history[at].calls()).skip(history.len() - 1 - at),
        forall|j: int|
            at < j < history.len() ==> (#[trigger] history[j]).tool_call_id == Some(
                history[at].calls()[j - at - 1].id,
            ),
    decreases history.len(),
{
    let ids = call_ids(history[at].calls());
    if at == history.len() - 1 {
        assert(ids.skip(0) =~= ids);
    } else {
        let earlier = history.drop_last();
        let answered = history.len() - 2 - at;
        lemma_round_shape(earlier, at);
        assert(outstanding(earlier) == ids.skip(answered));
        assert(accepts(earlier, history.last()));
        assert(ids.skip(answered)[0] == ids[answered]);
        assert(ids.skip(answered).drop_first() =~= ids.skip(answered + 1));
        assert forall|j: int| at < j < history.len() implies (#[trigger] history[j]).tool_call_id
            == Some(history[at].calls()[j - at - 1].id) by {
            if j < history.len() - 1 {
                assert(earlier[j] == history[j]);
            }
        }
    }
}

/// Every beginning of a well-formed history is well formed.
pub proof fn lemma_well_formed_prefix(history: Seq<MessageView>, n: int)
    requires
        well_formed(history),
        0 <= n <= history.len(),
    ensures
        well_formed(history.take(n)),
    decreases history.len(),
{
    if n == history.len() {
        assert(history.take(n) =~= history);
    } else {
        lemma_well_formed_prefix(history.drop_last(), n);
        assert(history.drop_last().take(n) =~= history.take(n));
    }
}

/// The place of the last message before `at` that is no tool message; -1
/// where there is none.
pub open spec fn round_start(history: Seq<MessageView>, at: int) -> int
    decreases at,
{
    if at <= 0 || at > history.len() {
        -1
    } else if history[at - 1].role != Role::Tool {
        at - 1
    } else {
        round_start(history, at - 1)
    }
}

/// Between the start of a round and a place in it stand tool messages only.
proof fn lemma_round_start(history: Seq<MessageView>, at: int)
    requires
        0 <= at <= history.len(),
    ensures
        -1 <= round_start(history, at) < at || at == 0,
        round_start(history, at) >= 0 ==> history[round_start(history, at)].role != Role::Tool,
        forall|j: int| round_start(history, at) < j < at ==> history[j].role == Role::Tool,
    decreases at,
{
    if at > 0 && history[at - 1].role == Role::Tool {
        lemma_round_start(history, at - 1);
    }
}

/// A well-formed history that holds tool messages only is empty.
proof fn lemma_results_need_a_round(history: Seq<MessageView>)
    requires
        well_formed(history),
        forall|j: int| 0 <= j < history.len() ==> history[j].role == Role::Tool,
    ensures
        history.len() == 0,
    decreases history.len(),
{
    if history.len() > 0 {
        let earlier = history.drop_last();
        assert forall|j: int| 0 <= j < earlier.len() implies earlier[j].role == Role::Tool by {
            assert(earlier[j] == history[j]);
        }
        lemma_results_need_a_round(earlier);
        assert(accepts(earlier, history.last()));
    }
}

/// In a well-formed history every tool message answers a call of the last
/// assistant message before it: between the two stand tool messages only,
/// and the tool message at the k-th place after the assistant message names
/// the k-th of its calls.
pub proof fn lemma_tool_message_answers(history: Seq<MessageView>, at: int)
    requires
        well_formed(history),
        0 <= at < history.len(),
        history[at].role == Role::Tool,
    ensures
        ({
            let asks = round_start(history, at);
            &&& 0 <= asks < at
            &&& history[asks].requests_tools()
            &&& forall|j: int| asks < j <= at ==> history[j].role == Role::Tool
            &&& at - asks <= history[asks].calls().len()
            &&& history[at].tool_call_id == Some(history[asks].calls()[at - asks - 1].id)
        }),
{
    let asks = round_start(history, at);
    lemma_round_start(history, at);
    let with = history.take(at + 1);
    let before = history.take(at);
    lemma_well_formed_prefix(history, at + 1);
    lemma_well_formed_prefix(history, at);
    assert(with.drop_last() =~= before);
    assert(with.last() == history[at]);
    assert(accepts(before, history[at]));
    if asks < 0 {
        assert forall|j: int| 0 <= j < before.len() implies before[j].role == Role::Tool by {
            assert(before[j] == history[j]);
        }
        lemma_results_need_a_round(before);
    } else {
        assert(before[asks] == history[asks]);
        assert forall|j: int| asks < j < before.len() implies before[j].role == Role::Tool by {
            assert(before[j] == history[j]);
        }
        if !history[asks].requests_tools() {
            lemma_no_round(before, asks);
        } else {
            assert(with[asks] == history[asks]);
            assert forall|j: int| asks < j < with.len() implies with[j].role == Role::Tool by {
                assert(with[j] == history[j]);
            }
            lemma_round_shape(with, asks);
            assert(with[at] == history[at]);
        }
    }
}

/// In a well-formed history whose last message that is no tool message asks
/// for no tool, no call waits and no tool message follows.
proof fn lemma_no_round(history: Seq<MessageView>, at: int)
    requires
        well_formed(history),
        0 <= at < history.len(),
        history[at].role != Role::Tool,
        !history[at].requests_tools(),
        forall|j: int| at < j < history.len() ==> history[j].role == Role::Tool,
    ensures
        at == history.len() - 1,
        outstanding(history).len() == 0,
    decreases history.len(),
{
    if at < history.len() - 1 {
        let earlier = history.drop_last();
        lemma_no_round(earlier, at);
        assert(accepts(earlier, history.last()));
    }
}

/// In a settled history, an assistant message with tool calls is followed,
/// before the next assistant message, by exactly as many tool messages as it
/// has calls: they follow it directly, and the identifier of each is that of
/// the call at its position.
pub proof fn lemma_calls_answered_in_order(history: Seq<MessageView>, asks: int, next: int)
    requires
        settled(history),
        0 <= asks < next < history.len(),
        history[asks].requests_tools(),
        history[next].role == Role::Assistant,
        forall|j: int| asks < j < next ==> history[j].role != Role::Assistant,
    ensures
        asks + history[asks].calls().len() < next,
        forall|k: int|
            0 <= k < history[asks].calls().len() ==> (#[trigger] history[asks + 1 + k]).role
                == Role::Tool && history[asks + 1 + k].tool_call_id == Some(
                history[asks].calls()[k].id,
            ),
        forall|j: int|
            asks + history[asks].calls().len() < j < next ==> (#[trigger] history[j]).role
                != Role::Tool,
{
    let calls = history[asks].calls();
    let stop = asks + 1 + results_after(history, asks);
    lemma_results_after_bounds(history, asks);
    assert(stop <= next) by {
        if stop > next {
            assert(history[next].role == Role::Tool);
        }
    }
    // The round up to the first message that is no tool message.
    let round = history.take(stop);
    lemma_settled_prefix(history, stop);
    lemma_settled_is_well_formed(round);
    assert forall|j: int| asks < j < round.len() implies round[j].role == Role::Tool by {
        assert(round[j] == history[j]);
    }
    assert(round[asks] == history[asks]);
    lemma_round_shape(round, asks);
    // That message closes the round, so nothing waited before it.
    let closing = history.take(stop + 1);
    lemma_settled_prefix(history, stop + 1);
    assert(closing.drop_last() =~= round);
    assert(closing.last() == history[stop]);
    assert(outstanding(round).len() == 0);
    assert(stop - 1 - asks == calls.len());
    assert forall|k: int| 0 <= k < calls.len() implies (#[trigger] history[asks + 1 + k]).role
        == Role::Tool && history[asks + 1 + k].tool_call_id == Some(calls[k].id) by {
        assert(round[asks + 1 + k] == history[asks + 1 + k]);
    }
    // No tool message stands between the round and the next assistant message.
    assert forall|j: int| stop <= j < next implies (#[trigger] history[j]).role
        != Role::Tool by {
        lemma_no_results_without_round(history, stop, j, next);
    }
}

/// After a message that is neither a tool message nor an assistant message,
/// no tool message comes before the next assistant message.
proof fn lemma_no_results_without_round(history: Seq<MessageView>, from: int, at: int, next: int)
    requires
        settled(history),
        0 <= from <= at < next <= history.len(),
        history[from].role != Role::Tool,
        forall|j: int| from <= j < next ==> history[j].role != Role::Assistant,
    ensures
        history[at].role != Role::Tool,
    decreases at - from,
{
    if at > from {
        lemma_no_results_without_round(history, from, at - 1, next);
        if history[at].role == Role::Tool {
            let before = history.take(at);
            lemma_settled_prefix(history, at);
            lemma_settled_is_well_formed(before);
            assert(before[at - 1] == history[at - 1]);
            lemma_no_round(before, at - 1);
            let with = history.take(at + 1);
            lemma_settled_prefix(history, at + 1);
            assert(with.drop_last() =~= before);
            assert(with.last() == history[at]);
            assert(accepts(before, history[at]));
        }
    }
}

/// The messages of one conversation, in order.
pub struct ConversationHistory {
    messages: Vec<Message>,
    awaited: Vec<String>,
}

impl View for ConversationHistory {
    type V = Seq<MessageView>;

    closed spec fn view(&self) -> Seq<MessageView> {
        messages_view(self.messages@)
    }
}

impl StructureError {
    /// What went wrong, in words.
    pub fn describe(&self) -> (text: String)
        ensures
            text@ == match *self {
                StructureError::NoPendingCall => "tool message without a pending tool call"@,
                StructureError::CallMismatch =>
                    "tool message does not answer the next pending tool call"@,
            },
    {
        match self {
            StructureError::NoPendingCall => "tool message without a pending tool call".to_owned(),
            StructureError::CallMismatch => {
                "tool message does not answer the next pending tool call".to_owned()
            },
        }
    }
}

impl ConversationHistory {
    /// The history is well formed, and knows which results are due.
    pub closed spec fn wf(&self) -> bool {
        &&& well_formed(self@)
        &&& Seq::new(self.awaited@.len(), |i: int| self.awaited@[i]@) == outstanding(self@)
    }

    /// The messages of a history in good order are well formed.
    pub proof fn lemma_wf(self)
        requires
            self.wf(),
        ensures
            well_formed(self@),
    {
    }

    /// An empty history.
    pub fn new() -> (history: ConversationHistory)
        ensures
            history.wf(),
            history@ == Seq::<MessageView>::empty(),
    {
        let history = ConversationHistory { messages: Vec::new(), awaited: Vec::new() };
        assert(history@ =~= Seq::<MessageView>::empty());
        assert(Seq::new(history.awaited@.len(), |i: int| history.awaited@[i]@) =~= outstanding(
            history@,
        ));
        history
    }

    /// The number of messages.
    pub fn len(&self) -> (n: usize)
        ensures
            n == self@.len(),
    {
        self.messages.len()
    }

    /// The number of calls that still wait for their result.
    pub fn pending_results(&self) -> (n: usize)
        requires
            self.wf(),
        ensures
            n == outstanding(self@).len(),
    {
        self.awaited.len()
    }

    /// The message at a position, if the history reaches that far.
    pub fn get(&self, i: usize) -> (message: Option<&Message>)
        ensures
            match message {
                Some(m) => i < self@.len() && m@ == self@[i as int],
                None => i >= self@.len(),
            },
    {
        if i < self.messages.len() {
            Some(&self.messages[i])
        } else {
            None
        }
    }

    /// A copy of the messages, in order. Later changes of the history do not
    /// reach the copy.
    pub fn snapshot(&self) -> (messages: Vec<Message>)
        ensures
            messages_view(messages@) == self@,
    {
        clone_messages(&self.messages)
    }

    /// Appends a message, if the history takes it.
    ///
    /// A tool message is taken only where it answers the call whose result
    /// is due next. The history stays as it was where the message is refused.
    pub fn append(&mut self, message: Message) -> (result: Result<(), StructureError>)
        requires
            old(self).wf(),
        ensures
            final(self).wf(),
            match result {
                Ok(()) => accepts(old(self)@, message@) && final(self)@ == old(self)@.push(
                    message@,
                ),
                Err(error) => !accepts(old(self)@, message@) && final(self)@ == old(self)@
                    && error == refusal(old(self)@),
            },
    {
        let ghost before = self@;
        let ghost due = outstanding(before);
        match message.role {
            Role::Tool => {
                if self.awaited.len() == 0 {
                    return Err(StructureError::NoPendingCall);
                }
                let answers = match &message.tool_call_id {
                    Some(id) => *id == self.awaited[0],
                    None => false,
                };
                if !answers {
                    return Err(StructureError::CallMismatch);
                }
                self.awaited.remove(0);
                assert(Seq::new(self.awaited@.len(), |i: int| self.awaited@[i]@)
                    =~= due.drop_first());
            },
            Role::Assistant => {
                let mut ids: Vec<String> = Vec::new();
                match &message.tool_calls {
                    Some(calls) => {
                        let mut i: usize = 0;
                        while i < calls.len()
                            invariant
                                i <= calls.len(),
                                ids@.len() == i,
                                forall|j: int| 0 <= j < i ==> ids@[j]@ == calls@[j]@.id,
                            decreases calls.len() - i,
                        {
                            ids.push(calls[i].id.clone());
                            i += 1;
                        }
                    },
                    None => {},
                }
                assert(Seq::new(ids@.len(), |i: int| ids@[i]@) =~= call_ids(message@.calls()));
                self.awaited = ids;
            },
            _ => {
                self.awaited = Vec::new();
                assert(Seq::new(self.awaited@.len(), |i: int| self.awaited@[i]@) =~= Seq::<
                    Seq<char>,
                >::empty());
            },
        }
        self.messages.push(message);
        proof {
            assert(self@ =~= before.push(message@));
            assert(self@.drop_last() =~= before);
        }
        Ok(())
    }
}

} // verus!
