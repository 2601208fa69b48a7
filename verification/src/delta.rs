//! The shape of one decoded payload of a streamed response, and the
//! fragments that it stands for.

use vstd::prelude::*;
use crate::message::{clone_text, text_view};

verus! {

/// The function part of a streamed tool call: pieces of the name and of the
/// arguments.
#[derive(Debug)]
pub struct ToolCallFunctionChunk {
    pub name: Option<String>,
    pub arguments: Option<String>,
}

/// A streamed piece of the tool call at position `index` of the response.
#[derive(Debug)]
pub struct ToolCallChunk {
    pub index: i32,
    pub id: Option<String>,
    pub kind: Option<String>,
    pub function: Option<ToolCallFunctionChunk>,
}

/// What one payload adds to the response: text, tool-call pieces, or both.
#[derive(Debug)]
pub struct ChatCompletionDelta {
    pub content: Option<String>,
    pub tool_calls: Option<Vec<ToolCallChunk>>,
}

/// One alternative of a payload.
#[derive(Debug)]
pub struct ChatCompletionChoice {
    pub delta: ChatCompletionDelta,
}

/// One decoded payload of the response stream.
#[derive(Debug)]
pub struct ChatCompletionChunk {
    pub choices: Vec<ChatCompletionChoice>,
}

/// A piece of one tool call: the call's position in the response, and
/// whatever of its identifier, kind, name and arguments the piece carries.
#[derive(Debug)]
pub struct ToolCallFragment {
    pub index: i32,
    pub id: Option<String>,
    pub kind: Option<String>,
    pub name: Option<String>,
    pub arguments: Option<String>,
}

/// A partial piece of a streamed response.
#[derive(Debug)]
pub enum Fragment {
    /// Text of the assistant's answer.
    Content(String),
    /// A piece of a tool call.
    ToolCall(ToolCallFragment),
    /// The response is complete.
    StreamEnd,
}

/// The mathematical value of a [`ToolCallFragment`], and of a
/// [`ToolCallChunk`].
pub struct ToolCallFragmentView {
    pub index: int,
    pub id: Option<Seq<char>>,
    pub kind: Option<Seq<char>>,
    pub name: Option<Seq<char>>,
    pub arguments: Option<Seq<char>>,
}

/// The mathematical value of a [`Fragment`].
pub enum FragmentView {
    Content(Seq<char>),
    ToolCall(ToolCallFragmentView),
    StreamEnd,
}

/// The mathematical value of a [`ChatCompletionDelta`].
pub struct DeltaView {
    pub content: Option<Seq<char>>,
    pub tool_calls: Option<Seq<ToolCallFragmentView>>,
}

/// The values of a list of streamed tool-call pieces, in order.
pub open spec fn call_chunks_view(chunks: Seq<ToolCallChunk>) -> Seq<ToolCallFragmentView> {
    Seq::new(chunks.len(), |i: int| chunks[i]@)
}

/// The values of a list of fragments, in order.
pub open spec fn fragments_view(fragments: Seq<Fragment>) -> Seq<FragmentView> {
    Seq::new(fragments.len(), |i: int| fragments[i]@)
}

impl View for ToolCallFunctionChunk {
    type V = (Option<Seq<char>>, Option<Seq<char>>);

    open spec fn view(&self) -> (Option<Seq<char>>, Option<Seq<char>>) {
        (text_view(self.name), text_view(self.arguments))
    }
}

impl View for ToolCallChunk {
    type V = ToolCallFragmentView;

    open spec fn view(&self) -> ToolCallFragmentView {
        ToolCallFragmentView {
            index: self.index as int,
            id: text_view(self.id),
            kind: text_view(self.kind),
            name: match self.function {
                Some(f) => text_view(f.name),
                None => None,
            },
            arguments: match self.function {
                Some(f) => text_view(f.arguments),
                None => None,
            },
        }
    }
}

impl View for ChatCompletionDelta {
    type V = DeltaView;

    open spec fn view(&self) -> DeltaView {
        DeltaView {
            content: text_view(self.content),
            tool_calls: match self.tool_calls {
                Some(chunks) => Some(call_chunks_view(chunks@)),
                None => None,
            },
        }
    }
}

impl View for ChatCompletionChoice {
    type V = DeltaView;

    open spec fn view(&self) -> DeltaView {
        self.delta@
    }
}

impl View for ChatCompletionChunk {
    type V = Seq<DeltaView>;

    open spec fn view(&self) -> Seq<DeltaView> {
        Seq::new(self.choices@.len(), |i: int| self.choices@[i]@)
    }
}

impl View for ToolCallFragment {
    type V = ToolCallFragmentView;

    open spec fn view(&self) -> ToolCallFragmentView {
        ToolCallFragmentView {
            index: self.index as int,
            id: text_view(self.id),
            kind: text_view(self.kind),
            name: text_view(self.name),
            arguments: text_view(self.arguments),
        }
    }
}

impl View for Fragment {
    type V = FragmentView;

    open spec fn view(&self) -> FragmentView {
        match self {
            Fragment::Content(text) => FragmentView::Content(text@),
            Fragment::ToolCall(piece) => FragmentView::ToolCall(piece@),
            Fragment::StreamEnd => FragmentView::StreamEnd,
        }
    }
}

impl ToolCallFragmentView {
    /// The piece carries nothing but its index.
    pub open spec fn is_blank(self) -> bool {
        self.id is None && self.kind is None && self.name is None && self.arguments is None
    }
}

impl DeltaView {
    /// The fragment for the delta's text: one where the text is not empty.
    pub open spec fn text_fragments(self) -> Seq<FragmentView> {
        match self.content {
            Some(t) => if t.len() > 0 {
                seq![FragmentView::Content(t)]
            } else {
                Seq::empty()
            },
            None => Seq::empty(),
        }
    }

    /// One fragment for each tool-call piece, in the order of the list.
    pub open spec fn piece_fragments(self) -> Seq<FragmentView> {
        match self.tool_calls {
            Some(calls) => Seq::new(calls.len(), |i: int| FragmentView::ToolCall(calls[i])),
            None => Seq::empty(),
        }
    }

    /// The fragments of the delta: its text first, where it has any, then one
    /// fragment for each tool-call piece, in the order of the list.
    pub open spec fn fragments(self) -> Seq<FragmentView> {
        self.text_fragments() + self.piece_fragments()
    }

    /// The delta carries neither text nor tool-call pieces.
    pub open spec fn is_empty(self) -> bool {
        &&& match self.content {
            Some(t) => t.len() == 0,
            None => true,
        }
        &&& match self.tool_calls {
            Some(calls) => calls.len() == 0,
            None => true,
        }
    }
}

/// The text that the fragments carry, in order.
pub open spec fn content_of(fragments: Seq<FragmentView>) -> Seq<char>
    decreases fragments.len(),
{
    if fragments.len() == 0 {
        Seq::empty()
    } else {
        match fragments.last() {
            FragmentView::Content(text) => content_of(fragments.drop_last()) + text,
            _ => content_of(fragments.drop_last()),
        }
    }
}

/// The pieces of tool calls among the fragments, in order.
pub open spec fn pieces_of(fragments: Seq<FragmentView>) -> Seq<ToolCallFragmentView>
    decreases fragments.len(),
{
    if fragments.len() == 0 {
        Seq::empty()
    } else {
        match fragments.last() {
            FragmentView::ToolCall(piece) => pieces_of(fragments.drop_last()).push(piece),
            _ => pieces_of(fragments.drop_last()),
        }
    }
}

/// The fragments of a decoded payload: those of its first choice, and none
/// where it has no choice.
pub open spec fn chunk_fragments(choices: Seq<DeltaView>) -> Seq<FragmentView> {
    if choices.len() == 0 {
        Seq::empty()
    } else {
        choices[0].fragments()
    }
}

impl ToolCallChunk {
    /// The fragment that this piece of a tool call stands for.
    pub fn fragment(&self) -> (f: ToolCallFragment)
        ensures
            f@ == self@,
    {
        let (name, arguments) = match &self.function {
            Some(function) => (clone_text(&function.name), clone_text(&function.arguments)),
            None => (None, None),
        };
        ToolCallFragment {
            index: self.index,
            id: clone_text(&self.id),
            kind: clone_text(&self.kind),
            name,
            arguments,
        }
    }
}

impl ChatCompletionDelta {
    /// The fragments of the delta, in stream order.
    pub fn fragments(&self) -> (out: Vec<Fragment>)
        ensures
            fragments_view(out@) == self@.fragments(),
    {
        let mut out: Vec<Fragment> = Vec::new();
        match &self.content {
            Some(text) => {
                if !text.as_str().is_empty() {
                    out.push(Fragment::Content(text.clone()));
                }
            },
            None => {},
        }
        let ghost text_part = fragments_view(out@);
        assert(text_part =~= self@.text_fragments());
        match &self.tool_calls {
            Some(chunks) => {
                let mut i: usize = 0;
                while i < chunks.len()
                    invariant
                        i <= chunks.len(),
                        text_part == self@.text_fragments(),
                        self.tool_calls == Some(*chunks),
                        out@.len() == text_part.len() + i,
                        forall|j: int| 0 <= j < text_part.len() ==> out@[j]@ == text_part[j],
                        forall|j: int|
                            0 <= j < i ==> out@[text_part.len() + j]@ == FragmentView::ToolCall(
                                chunks@[j]@,
                            ),
                    decreases chunks.len() - i,
                {
                    out.push(Fragment::ToolCall(chunks[i].fragment()));
                    i += 1;
                }
            },
            None => {},
        }
        assert(fragments_view(out@) =~= self@.fragments());
        out
    }
}

impl ChatCompletionChunk {
    /// The fragments that the payload yields, in stream order: those of its
    /// first choice. A payload without choices yields none.
    pub fn fragments(&self) -> (out: Vec<Fragment>)
        ensures
            fragments_view(out@) == chunk_fragments(self@),
    {
        if self.choices.len() == 0 {
            let out: Vec<Fragment> = Vec::new();
            assert(fragments_view(out@) =~= chunk_fragments(self@));
            out
        } else {
            self.choices[0].delta.fragments()
        }
    }
}

/// None of the fragments is the end of the response.
pub open spec fn no_end(fragments: Seq<FragmentView>) -> bool {
    forall|i: int| 0 <= i < fragments.len() ==> !(fragments[i] is StreamEnd)
}

/// The fragments of a payload carry text and pieces of tool calls; the end
/// of the response is never among them.
pub proof fn lemma_payload_has_no_end(choices: Seq<DeltaView>)
    ensures
        no_end(chunk_fragments(choices)),
{
    if choices.len() > 0 {
        let delta = choices[0];
        let text = delta.text_fragments();
        let pieces = delta.piece_fragments();
        assert forall|i: int| 0 <= i < delta.fragments().len() implies !(delta.fragments()[i]
            is StreamEnd) by {
            if i < text.len() {
                assert(delta.fragments()[i] == text[i]);
            } else {
                assert(delta.fragments()[i] == pieces[i - text.len()]);
            }
        }
    }
}

/// A payload whose first choice carries neither text nor tool-call pieces,
/// or which has no choice at all, yields no fragment.
pub proof fn lemma_empty_delta_yields_nothing(choices: Seq<DeltaView>)
    requires
        choices.len() == 0 || choices[0].is_empty(),
    ensures
        chunk_fragments(choices) == Seq::<FragmentView>::empty(),
{
    if choices.len() > 0 {
        assert(choices[0].fragments() =~= Seq::<FragmentView>::empty());
    }
}

} // verus!
