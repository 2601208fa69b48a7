//! The rules around one execution of a tool: what is handed to the tool
//! service, and how its answer becomes the text of a tool message.
//!
//! The service itself is reached by the caller. What it is asked, and what is
//! made of its answer, is decided here.

use vstd::prelude::*;
use vstd::string::StringExecFns;

verus! {

/// What a text is when read as JSON.
#[derive(Debug, Clone, Copy, PartialEq, Eq, Structural)]
pub enum JsonKind {
    /// The text is not JSON.
    Malformed,
    Null,
    Bool,
    Number,
    String,
    Array,
    Object,
}

/// What `serde_json` makes of a text: the kind of the value that the text
/// parses to, or `Malformed` where it does not parse.
pub uninterp spec fn json_kind(text: Seq<char>) -> JsonKind;

/// Parses the text with `serde_json::from_str` into a `serde_json::Value`
/// and tells the variant of the value, or that the parse failed. The result
/// depends on the text alone.
#[verifier::external_body]
fn classify_json(text: &str) -> (kind: JsonKind)
    ensures
        kind == json_kind(text@),
{
    match serde_json::from_str::<serde_json::Value>(text) {
        Err(_) => JsonKind::Malformed,
        Ok(serde_json::Value::Null) => JsonKind::Null,
        Ok(serde_json::Value::Bool(_)) => JsonKind::Bool,
        Ok(serde_json::Value::Number(_)) => JsonKind::Number,
        Ok(serde_json::Value::String(_)) => JsonKind::String,
        Ok(serde_json::Value::Array(_)) => JsonKind::Array,
        Ok(serde_json::Value::Object(_)) => JsonKind::Object,
    }
}

/// The arguments of a tool call as they are handed to the tool service: a
/// JSON text and the kind of value that it holds.
#[derive(Debug)]
pub struct ToolArguments {
    json: String,
    kind: JsonKind,
}

/// The mathematical value of [`ToolArguments`].
pub struct ToolArgumentsView {
    pub json: Seq<char>,
    pub kind: JsonKind,
}

impl View for ToolArguments {
    type V = ToolArgumentsView;

    closed spec fn view(&self) -> ToolArgumentsView {
        ToolArgumentsView { json: self.json@, kind: self.kind }
    }
}

/// The arguments for a call whose argument text is of the given kind: the
/// text itself where it is JSON, and `null` in its place where it is not.
pub open spec fn arguments_of(text: Seq<char>, kind: JsonKind) -> ToolArgumentsView {
    if kind == JsonKind::Malformed {
        ToolArgumentsView { json: "null"@, kind: JsonKind::Null }
    } else {
        ToolArgumentsView { json: text, kind }
    }
}

/// The failure of a tool execution, with the text that describes it.
#[derive(Debug)]
pub struct ExecutionError {
    pub message: String,
}

impl View for ExecutionError {
    type V = Seq<char>;

    open spec fn view(&self) -> Seq<char> {
        self.message@
    }
}

/// One item of what a tool hands back.
#[derive(Debug)]
pub enum ToolContent {
    /// A text.
    Text(String),
    /// Anything that is not text: an image, a resource.
    Other,
}

/// The texts among the items, in order.
pub open spec fn texts_of(contents: Seq<ToolContent>) -> Seq<Seq<char>>
    decreases contents.len(),
{
    if contents.len() == 0 {
        Seq::empty()
    } else {
        match contents.last() {
            ToolContent::Text(text) => texts_of(contents.drop_last()).push(text@),
            ToolContent::Other => texts_of(contents.drop_last()),
        }
    }
}

/// The lines one after the other, with a line feed between each two.
pub open spec fn joined_lines(lines: Seq<Seq<char>>) -> Seq<char>
    decreases lines.len(),
{
    if lines.len() == 0 {
        Seq::empty()
    } else if lines.len() == 1 {
        lines[0]
    } else {
        joined_lines(lines.drop_last()) + seq!['\n'] + lines.last()
    }
}

/// The text that stands for what a tool handed back: a fixed sentence where
/// it handed back nothing, and else its texts, joined by line feeds.
pub open spec fn rendered_output(contents: Seq<ToolContent>) -> Seq<char> {
    if contents.len() == 0 {
        "Tool executed successfully with no output."@
    } else {
        joined_lines(texts_of(contents))
    }
}

/// The text of the failure to reach or run a tool.
pub open spec fn call_failure_text(name: Seq<char>, detail: Seq<char>) -> Seq<char> {
    "Failed to call tool '"@ + name + "': "@ + detail
}

impl ToolArguments {
    /// The arguments for a call whose argument text is of the given kind.
    pub fn from_kind(text: String, kind: JsonKind) -> (arguments: ToolArguments)
        ensures
            arguments@ == arguments_of(text@, kind),
    {
        match kind {
            JsonKind::Malformed => ToolArguments { json: "null".to_owned(), kind: JsonKind::Null },
            _ => ToolArguments { json: text, kind },
        }
    }

    /// Reads the argument text of a tool call. A text that is not JSON is
    /// not an error: `null` takes its place.
    pub fn parse(text: &str) -> (arguments: ToolArguments)
        ensures
            arguments@ == arguments_of(text@, json_kind(text@)),
    {
        let kind = classify_json(text);
        ToolArguments::from_kind(text.to_owned(), kind)
    }

    /// The JSON text of the arguments.
    pub fn json(&self) -> (text: &String)
        ensures
            text@ == self@.json,
    {
        &self.json
    }

    /// The kind of JSON value that the arguments hold.
    pub fn kind(&self) -> (kind: JsonKind)
        ensures
            kind == self@.kind,
    {
        self.kind
    }

    /// Whether the tool service takes the arguments: it takes a JSON object
    /// and nothing else.
    pub fn check(&self) -> (result: Result<(), ExecutionError>)
        ensures
            match result {
                Ok(()) => self@.kind == JsonKind::Object,
                Err(error) => self@.kind != JsonKind::Object && error@
                    == "Arguments must be a JSON object"@,
            },
    {
        match self.kind {
            JsonKind::Object => Ok(()),
            _ => Err(ExecutionError { message: "Arguments must be a JSON object".to_owned() }),
        }
    }
}

/// The failure to reach or run the tool `name`, of which `detail` tells
/// more.
pub fn call_failure(name: &str, detail: &str) -> (error: ExecutionError)
    ensures
        error@ == call_failure_text(name@, detail@),
{
    let mut message = "Failed to call tool '".to_owned();
    message.append(name);
    message.append("': ");
    message.append(detail);
    ExecutionError { message }
}

/// Joins the lines with a line feed between each two.
pub fn join_lines(lines: &Vec<String>) -> (text: String)
    ensures
        text@ == joined_lines(Seq::new(lines@.len(), |i: int| lines@[i]@)),
{
    let ghost all = Seq::new(lines@.len(), |i: int| lines@[i]@);
    let mut text = String::new();
    let mut i: usize = 0;
    while i < lines.len()
        invariant
            i <= lines.len(),
            all == Seq::new(lines@.len(), |i: int| lines@[i]@),
            text@ == joined_lines(all.take(i as int)),
        decreases lines.len() - i,
    {
        proof {
            assert(all.take(i + 1).drop_last() =~= all.take(i as int));
            assert(all.take(i + 1).last() == lines@[i as int]@);
            reveal_strlit("\n");
            assert("\n"@ =~= seq!['\n']);
        }
        if i > 0 {
            text.append("\n");
        } else {
            assert(all.take(0).len() == 0);
            assert(text@ =~= Seq::<char>::empty());
            assert(text@ + lines@[0]@ =~= lines@[0]@);
        }
        text.append(lines[i].as_str());
        i += 1;
    }
    assert(all.take(lines@.len() as int) =~= all);
    text
}

/// The text of a tool message for what the tool handed back.
pub fn render_output(contents: &Vec<ToolContent>) -> (text: String)
    ensures
        text@ == rendered_output(contents@),
{
    if contents.len() == 0 {
        return "Tool executed successfully with no output.".to_owned();
    }
    let mut texts: Vec<String> = Vec::new();
    let mut i: usize = 0;
    while i < contents.len()
        invariant
            i <= contents.len(),
            Seq::new(texts@.len(), |j: int| texts@[j]@) == texts_of(contents@.take(i as int)),
        decreases contents.len() - i,
    {
        proof {
            assert(contents@.take(i + 1).drop_last() =~= contents@.take(i as int));
            assert(contents@.take(i + 1).last() == contents@[i as int]);
        }
        let ghost before = Seq::new(texts@.len(), |j: int| texts@[j]@);
        match &contents[i] {
            ToolContent::Text(text) => {
                texts.push(text.clone());
                assert(Seq::new(texts@.len(), |j: int| texts@[j]@) =~= before.push(text@));
            },
            ToolContent::Other => {},
        }
        i += 1;
    }
    assert(contents@.take(contents@.len() as int) =~= contents@);
    join_lines(&texts)
}

} // verus!
