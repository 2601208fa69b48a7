//! The conversation's data model: roles, tool calls and messages.

use vstd::prelude::*;

verus! {

/// Who speaks in a message.
#[derive(Debug, Clone, Copy, PartialEq, Eq, Structural)]
pub enum Role {
    User,
    Assistant,
    Tool,
    System,
}

/// The function part of a tool call: the tool's name and its arguments as
/// JSON text, which may be malformed.
#[derive(Debug)]
pub struct ToolCallFunction {
    pub name: String,
    pub arguments: String,
}

/// One invocation of a tool that the model asks for.
#[derive(Debug)]
pub struct ToolCall {
    pub id: String,
    pub kind: String,
    pub function: ToolCallFunction,
}

/// The mathematical value of a [`ToolCall`].
pub struct ToolCallView {
    pub id: Seq<char>,
    pub kind: Seq<char>,
    pub name: Seq<char>,
    pub arguments: Seq<char>,
}

/// One element of the conversation.
#[derive(Debug)]
pub struct Message {
    pub role: Role,
    pub content: Option<String>,
    pub tool_calls: Option<Vec<ToolCall>>,
    pub tool_call_id: Option<String>,
    pub name: Option<String>,
}

/// The mathematical value of a [`Message`].
pub struct MessageView {
    pub role: Role,
    pub content: Option<Seq<char>>,
    pub tool_calls: Option<Seq<ToolCallView>>,
    pub tool_call_id: Option<Seq<char>>,
    pub name: Option<Seq<char>>,
}

/// The characters of an optional text.
pub open spec fn text_view(text: Option<String>) -> Option<Seq<char>> {
    match text {
        Some(s) => Some(s@),
        None => None,
    }
}

/// The values of a list of tool calls, in order.
pub open spec fn calls_view(calls: Seq<ToolCall>) -> Seq<ToolCallView> {
    Seq::new(calls.len(), |i: int| calls[i]@)
}

/// The values of a list of messages, in order.
pub open spec fn messages_view(messages: Seq<Message>) -> Seq<MessageView> {
    Seq::new(messages.len(), |i: int| messages[i]@)
}

impl View for ToolCallFunction {
    type V = (Seq<char>, Seq<char>);

    open spec fn view(&self) -> (Seq<char>, Seq<char>) {
        (self.name@, self.arguments@)
    }
}

impl View for ToolCall {
    type V = ToolCallView;

    open spec fn view(&self) -> ToolCallView {
        ToolCallView {
            id: self.id@,
            kind: self.kind@,
            name: self.function.name@,
            arguments: self.function.arguments@,
        }
    }
}

impl View for Message {
    type V = MessageView;

    open spec fn view(&self) -> MessageView {
        MessageView {
            role: self.role,
            content: text_view(self.content),
            tool_calls: match self.tool_calls {
                Some(calls) => Some(calls_view(calls@)),
                None => None,
            },
            tool_call_id: text_view(self.tool_call_id),
            name: text_view(self.name),
        }
    }
}

impl MessageView {
    /// The text of the message, empty where the content is absent.
    pub open spec fn text(self) -> Seq<char> {
        match self.content {
            Some(t) => t,
            None => Seq::empty(),
        }
    }

    /// The tool calls that the message asks for, none where the field is absent.
    pub open spec fn calls(self) -> Seq<ToolCallView> {
        match self.tool_calls {
            Some(c) => c,
            None => Seq::empty(),
        }
    }

    /// An assistant message that asks for at least one tool call.
    pub open spec fn requests_tools(self) -> bool {
        self.role == Role::Assistant && self.calls().len() > 0
    }

    /// The message carries the fields of its role and no others: tool calls
    /// only as an assistant message that asks for some, the identifier of a
    /// call as a tool message and only as one, a tool's name only as a tool
    /// message; and its content is absent only where it is an assistant
    /// message that asks for tools.
    pub open spec fn well_shaped(self) -> bool {
        &&& self.tool_calls is Some ==> self.requests_tools()
        &&& self.tool_call_id is Some <==> self.role == Role::Tool
        &&& self.name is Some ==> self.role == Role::Tool
        &&& self.content is None ==> self.requests_tools()
    }
}

/// Every message of the list is well shaped.
pub open spec fn all_shaped(messages: Seq<MessageView>) -> bool {
    forall|i: int| 0 <= i < messages.len() ==> (#[trigger] messages[i]).well_shaped()
}

impl Clone for ToolCallFunction {
    fn clone(&self) -> (r: Self)
        ensures
            r@ == self@,
    {
        ToolCallFunction { name: self.name.clone(), arguments: self.arguments.clone() }
    }
}

impl Clone for ToolCall {
    fn clone(&self) -> (r: Self)
        ensures
            r@ == self@,
    {
        ToolCall { id: self.id.clone(), kind: self.kind.clone(), function: self.function.clone() }
    }
}

/// A copy of an optional text.
pub fn clone_text(text: &Option<String>) -> (r: Option<String>)
    ensures
        text_view(r) == text_view(*text),
{
    match text {
        Some(s) => Some(s.clone()),
        None => None,
    }
}

/// A copy of a list of tool calls.
pub fn clone_calls(calls: &Vec<ToolCall>) -> (r: Vec<ToolCall>)
    ensures
        calls_view(r@) == calls_view(calls@),
{
    let mut out: Vec<ToolCall> = Vec::new();
    let mut i: usize = 0;
    while i < calls.len()
        invariant
            i <= calls.len(),
            out@.len() == i,
            forall|j: int| 0 <= j < i ==> out@[j]@ == calls@[j]@,
        decreases calls.len() - i,
    {
        out.push(calls[i].clone());
        i += 1;
    }
    assert(calls_view(out@) =~= calls_view(calls@));
    out
}

impl Clone for Message {
    fn clone(&self) -> (r: Self)
        ensures
            r@ == self@,
    {
        let tool_calls = match &self.tool_calls {
            Some(calls) => Some(clone_calls(calls)),
            None => None,
        };
        Message {
            role: self.role,
            content: clone_text(&self.content),
            tool_calls,
            tool_call_id: clone_text(&self.tool_call_id),
            name: clone_text(&self.name),
        }
    }
}

/// A copy of a list of messages.
pub fn clone_messages(messages: &Vec<Message>) -> (r: Vec<Message>)
    ensures
        messages_view(r@) == messages_view(messages@),
{
    let mut out: Vec<Message> = Vec::new();
    let mut i: usize = 0;
    while i < messages.len()
        invariant
            i <= messages.len(),
            out@.len() == i,
            forall|j: int| 0 <= j < i ==> out@[j]@ == messages@[j]@,
        decreases messages.len() - i,
    {
        out.push(messages[i].clone());
        i += 1;
    }
    assert(messages_view(out@) =~= messages_view(messages@));
    out
}

impl Message {
    /// A message of the user with the given text.
    pub fn user(text: String) -> (m: Message)
        ensures
            m@ == (MessageView {
                role: Role::User,
                content: Some(text@),
                tool_calls: None,
                tool_call_id: None,
                name: None,
            }),
            m@.well_shaped(),
    {
        Message {
            role: Role::User,
            content: Some(text),
            tool_calls: None,
            tool_call_id: None,
            name: None,
        }
    }

    /// A diagnostic message of the system with the given text.
    pub fn system(text: String) -> (m: Message)
        ensures
            m@ == (MessageView {
                role: Role::System,
                content: Some(text@),
                tool_calls: None,
                tool_call_id: None,
                name: None,
            }),
            m@.well_shaped(),
    {
        Message {
            role: Role::System,
            content: Some(text),
            tool_calls: None,
            tool_call_id: None,
            name: None,
        }
    }

    /// The assistant's message that closes one streamed response.
    ///
    /// Without tool calls the message carries the text as it is, be it empty.
    /// With tool calls it carries them in the given order, and the text only
    /// where there is any.
    pub fn assistant(text: String, calls: Vec<ToolCall>) -> (m: Message)
        ensures
            m@ == assistant_message(text@, calls_view(calls@)),
            m@.well_shaped(),
    {
        if calls.len() == 0 {
            Message {
                role: Role::Assistant,
                content: Some(text),
                tool_calls: None,
                tool_call_id: None,
                name: None,
            }
        } else {
            let content = if text.as_str().is_empty() {
                None
            } else {
                Some(text)
            };
            Message {
                role: Role::Assistant,
                content,
                tool_calls: Some(calls),
                tool_call_id: None,
                name: None,
            }
        }
    }

    /// The message that carries a tool's output back to the model: it names
    /// the call that it answers and the tool that ran.
    pub fn tool_result(call: &ToolCall, output: String) -> (m: Message)
        ensures
            m@ == tool_message(call@, output@),
            m@.well_shaped(),
    {
        Message {
            role: Role::Tool,
            content: Some(output),
            tool_calls: None,
            tool_call_id: Some(call.id.clone()),
            name: Some(call.function.name.clone()),
        }
    }
}

/// The assistant's message for a response with the given text and tool calls.
pub open spec fn assistant_message(text: Seq<char>, calls: Seq<ToolCallView>) -> MessageView {
    if calls.len() == 0 {
        MessageView {
            role: Role::Assistant,
            content: Some(text),
            tool_calls: None,
            tool_call_id: None,
            name: None,
        }
    } else {
        MessageView {
            role: Role::Assistant,
            content: if text.len() == 0 {
                None
            } else {
                Some(text)
            },
            tool_calls: Some(calls),
            tool_call_id: None,
            name: None,
        }
    }
}

/// The tool message that answers `call` with `output`.
pub open spec fn tool_message(call: ToolCallView, output: Seq<char>) -> MessageView {
    MessageView {
        role: Role::Tool,
        content: Some(output),
        tool_calls: None,
        tool_call_id: Some(call.id),
        name: Some(call.name),
    }
}

} // verus!
