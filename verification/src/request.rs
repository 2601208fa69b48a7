//! The completion request: the conversation so far and the tools that the
//! model may ask for.

use vstd::prelude::*;
use crate::message::{clone_text, messages_view, text_view, Message, MessageView};

verus! {

/// A JSON value of `serde_json`. The crate carries such values and never
/// looks into them.
#[verifier::external_type_specification]
#[verifier::external_body]
pub struct ExJsonValue(serde_json::Value);

/// `Clone` of `serde_json::Value`, which the type derives: the copy equals
/// the value.
pub assume_specification[ <serde_json::Value as Clone>::clone ](value: &serde_json::Value) -> (copy:
    serde_json::Value)
    ensures
        copy == *value,
;

/// The description of a tool's function: its name, what it does, and the
/// JSON Schema of its parameters.
#[derive(Debug)]
pub struct ToolFunction {
    pub name: String,
    pub description: Option<String>,
    pub parameters: serde_json::Value,
}

/// A tool that the model may ask for.
#[derive(Debug)]
pub struct Tool {
    pub kind: String,
    pub function: ToolFunction,
}

/// The mathematical value of a [`Tool`].
pub struct ToolView {
    pub kind: Seq<char>,
    pub name: Seq<char>,
    pub description: Option<Seq<char>>,
    pub parameters: serde_json::Value,
}

/// What is sent to the chat backend for one response.
#[derive(Debug)]
pub struct ChatCompletionRequest {
    pub model: String,
    pub messages: Vec<Message>,
    pub stream: bool,
    pub tools: Option<Vec<Tool>>,
}

/// The mathematical value of a [`ChatCompletionRequest`].
pub struct RequestView {
    pub model: Seq<char>,
    pub messages: Seq<MessageView>,
    pub stream: bool,
    pub tools: Option<Seq<ToolView>>,
}

/// The values of a list of tools, in order.
pub open spec fn tools_view(tools: Seq<Tool>) -> Seq<ToolView> {
    Seq::new(tools.len(), |i: int| tools[i]@)
}

impl View for ToolFunction {
    type V = (Seq<char>, Option<Seq<char>>, serde_json::Value);

    open spec fn view(&self) -> (Seq<char>, Option<Seq<char>>, serde_json::Value) {
        (self.name@, text_view(self.description), self.parameters)
    }
}

impl View for Tool {
    type V = ToolView;

    open spec fn view(&self) -> ToolView {
        ToolView {
            kind: self.kind@,
            name: self.function.name@,
            description: text_view(self.function.description),
            parameters: self.function.parameters,
        }
    }
}

impl View for ChatCompletionRequest {
    type V = RequestView;

    open spec fn view(&self) -> RequestView {
        RequestView {
            model: self.model@,
            messages: messages_view(self.messages@),
            stream: self.stream,
            tools: match self.tools {
                Some(tools) => Some(tools_view(tools@)),
                None => None,
            },
        }
    }
}

/// The request for the next response: the whole conversation, streamed, with
/// the tools where there are any.
pub open spec fn request_for(messages: Seq<MessageView>, tools: Seq<ToolView>) -> RequestView {
    RequestView {
        model: "gpt-3.5-turbo"@,
        messages,
        stream: true,
        tools: if tools.len() == 0 {
            None
        } else {
            Some(tools)
        },
    }
}

impl Clone for ToolFunction {
    fn clone(&self) -> (r: Self)
        ensures
            r@ == self@,
    {
        ToolFunction {
            name: self.name.clone(),
            description: clone_text(&self.description),
            parameters: self.parameters.clone(),
        }
    }
}

impl Clone for Tool {
    fn clone(&self) -> (r: Self)
        ensures
            r@ == self@,
    {
        Tool { kind: self.kind.clone(), function: self.function.clone() }
    }
}

/// A copy of a list of tools.
pub fn clone_tools(tools: &Vec<Tool>) -> (r: Vec<Tool>)
    ensures
        tools_view(r@) == tools_view(tools@),
{
    let mut out: Vec<Tool> = Vec::new();
    let mut i: usize = 0;
    while i < tools.len()
        invariant
            i <= tools.len(),
            out@.len() == i,
            forall|j: int| 0 <= j < i ==> out@[j]@ == tools@[j]@,
        decreases tools.len() - i,
    {
        out.push(tools[i].clone());
        i += 1;
    }
    assert(tools_view(out@) =~= tools_view(tools@));
    out
}

impl Tool {
    /// A tool of the kind `function`.
    pub fn function(name: String, description: Option<String>, parameters: serde_json::Value) -> (tool:
        Tool)
        ensures
            tool@ == (ToolView {
                kind: "function"@,
                name: name@,
                description: text_view(description),
                parameters,
            }),
    {
        Tool {
            kind: "function".to_owned(),
            function: ToolFunction { name, description, parameters },
        }
    }
}

impl ChatCompletionRequest {
    /// The request for the next response to the given conversation.
    pub fn new(messages: Vec<Message>, tools: &Vec<Tool>) -> (request: ChatCompletionRequest)
        ensures
            request@ == request_for(messages_view(messages@), tools_view(tools@)),
    {
        let tools = if tools.len() == 0 {
            None
        } else {
            Some(clone_tools(tools))
        };
        ChatCompletionRequest { model: "gpt-3.5-turbo".to_owned(), messages, stream: true, tools }
    }
}

} // verus!
