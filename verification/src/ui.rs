//! What the presentation layer shows: the transcript, the input line, the
//! scroll position and the status line, and the updates that a turn feeds
//! into them.

use vstd::prelude::*;
use vstd::string::StringExecFns;
use crate::message::{text_view, Role};

verus! {

/// One entry of the transcript.
#[derive(Debug)]
pub struct ChatMessage {
    pub role: Role,
    pub content: String,
}

/// The state that the presentation layer draws.
#[derive(Debug)]
pub struct AppState {
    pub messages: Vec<ChatMessage>,
    pub input: String,
    pub scroll: u16,
    pub status: Option<String>,
}

/// One change of what is shown.
#[derive(Debug)]
pub enum UiUpdate {
    /// A new entry at the end of the transcript.
    Append(ChatMessage),
    /// More text for the last entry of the transcript.
    ExtendLast(String),
    /// The status line, or none.
    Status(Option<String>),
}

/// The mathematical value of a [`ChatMessage`].
pub struct ChatMessageView {
    pub role: Role,
    pub content: Seq<char>,
}

/// The mathematical value of an [`AppState`].
pub struct AppStateView {
    pub messages: Seq<ChatMessageView>,
    pub input: Seq<char>,
    pub scroll: int,
    pub status: Option<Seq<char>>,
}

/// The mathematical value of a [`UiUpdate`].
pub enum UiUpdateView {
    Append(ChatMessageView),
    ExtendLast(Seq<char>),
    Status(Option<Seq<char>>),
}

/// The values of a list of transcript entries, in order.
pub open spec fn entries_view(entries: Seq<ChatMessage>) -> Seq<ChatMessageView> {
    Seq::new(entries.len(), |i: int| entries[i]@)
}

/// The values of a list of updates, in order.
pub open spec fn updates_view(updates: Seq<UiUpdate>) -> Seq<UiUpdateView> {
    Seq::new(updates.len(), |i: int| updates[i]@)
}

impl View for ChatMessage {
    type V = ChatMessageView;

    open spec fn view(&self) -> ChatMessageView {
        ChatMessageView { role: self.role, content: self.content@ }
    }
}

impl View for AppState {
    type V = AppStateView;

    open spec fn view(&self) -> AppStateView {
        AppStateView {
            messages: entries_view(self.messages@),
            input: self.input@,
            scroll: self.scroll as int,
            status: text_view(self.status),
        }
    }
}

impl View for UiUpdate {
    type V = UiUpdateView;

    open spec fn view(&self) -> UiUpdateView {
        match self {
            UiUpdate::Append(entry) => UiUpdateView::Append(entry@),
            UiUpdate::ExtendLast(text) => UiUpdateView::ExtendLast(text@),
            UiUpdate::Status(status) => UiUpdateView::Status(text_view(*status)),
        }
    }
}

/// The state after one update. More text for the last entry is dropped where
/// the transcript is empty.
pub open spec fn updated(state: AppStateView, update: UiUpdateView) -> AppStateView {
    match update {
        UiUpdateView::Append(entry) => AppStateView {
            messages: state.messages.push(entry),
            ..state
        },
        UiUpdateView::ExtendLast(text) => if state.messages.len() == 0 {
            state
        } else {
            AppStateView {
                messages: state.messages.update(
                    state.messages.len() - 1,
                    ChatMessageView {
                        role: state.messages.last().role,
                        content: state.messages.last().content + text,
                    },
                ),
                ..state
            }
        },
        UiUpdateView::Status(status) => AppStateView { status, ..state },
    }
}

/// The state after a run of updates, taken in order.
pub open spec fn updated_all(state: AppStateView, updates: Seq<UiUpdateView>) -> AppStateView
    decreases updates.len(),
{
    if updates.len() == 0 {
        state
    } else {
        updated(updated_all(state, updates.drop_last()), updates.last())
    }
}

/// The state at the start: a transcript that holds the welcome, an empty
/// input line, no scrolling and no status.
pub open spec fn initial_state() -> AppStateView {
    AppStateView {
        messages: seq![
            ChatMessageView {
                role: Role::System,
                content: "Welcome to the Open WebUI TUI! Type your message below."@,
            },
        ],
        input: Seq::empty(),
        scroll: 0,
        status: None,
    }
}

impl AppState {
    /// The state at the start.
    pub fn new() -> (state: AppState)
        ensures
            state@ == initial_state(),
    {
        let mut messages: Vec<ChatMessage> = Vec::new();
        messages.push(
            ChatMessage {
                role: Role::System,
                content: "Welcome to the Open WebUI TUI! Type your message below.".to_owned(),
            },
        );
        let state = AppState { messages, input: String::new(), scroll: 0, status: None };
        assert(state@.messages =~= initial_state().messages);
        state
    }

    /// Applies one update.
    pub fn apply(&mut self, update: UiUpdate)
        ensures
            final(self)@ == updated(old(self)@, update@),
    {
        match update {
            UiUpdate::Append(entry) => {
                self.messages.push(entry);
                assert(self@.messages =~= old(self)@.messages.push(entry@));
            },
            UiUpdate::ExtendLast(text) => {
                match self.messages.pop() {
                    Some(last) => {
                        let mut last = last;
                        last.content.append(text.as_str());
                        self.messages.push(last);
                        assert(self@.messages =~= updated(old(self)@, update@).messages);
                    },
                    None => {
                        assert(self@.messages =~= old(self)@.messages);
                    },
                }
            },
            UiUpdate::Status(status) => {
                self.status = status;
            },
        }
    }

    /// Applies a run of updates, in order.
    pub fn apply_all(&mut self, updates: Vec<UiUpdate>)
        ensures
            final(self)@ == updated_all(old(self)@, updates_view(updates@)),
    {
        let ghost all = updates_view(updates@);
        let mut rest = updates;
        let ghost mut done: int = 0;
        assert(all.take(0) =~= Seq::<UiUpdateView>::empty());
        assert(all.skip(0) =~= all);
        while rest.len() > 0
            invariant
                0 <= done,
                done + rest@.len() == all.len(),
                self@ == updated_all(old(self)@, all.take(done)),
                updates_view(rest@) == all.skip(done),
            decreases rest@.len(),
        {
            let ghost waiting = rest@;
            let update = rest.remove(0);
            proof {
                assert(update@ == updates_view(waiting)[0]);
                assert(all.take(done + 1).drop_last() =~= all.take(done));
                assert(all.take(done + 1).last() == update@);
                assert forall|j: int| 0 <= j < rest@.len() implies updates_view(rest@)[j]
                    == all.skip(done + 1)[j] by {
                    assert(rest@[j] == waiting[j + 1]);
                    assert(updates_view(waiting)[j + 1] == all.skip(done)[j + 1]);
                }
                assert(updates_view(rest@) =~= all.skip(done + 1));
                done = done + 1;
            }
            self.apply(update);
        }
        assert(all.take(done) =~= all);
    }
}

/// A key that was pressed, as far as the state reacts to it.
#[derive(Debug, Clone, Copy, PartialEq, Eq, Structural)]
pub enum KeyInput {
    /// Scroll up by a page.
    PageUp,
    /// Scroll down by a page.
    PageDown,
    /// Scroll up by a line.
    LineUp,
    /// Scroll down by a line.
    LineDown,
    /// Leave.
    Escape,
    /// A character for the input line.
    Char(char),
    /// Take the last character off the input line.
    Backspace,
    /// Send the input line.
    Enter,
    /// Any other key.
    Other,
}

/// What follows from a key.
#[derive(Debug)]
pub enum UiAction {
    /// Nothing beyond the change of the state.
    Nothing,
    /// The program ends.
    Quit,
    /// A turn begins with the text.
    Submit(String),
}

/// The mathematical value of a [`UiAction`].
pub enum UiActionView {
    Nothing,
    Quit,
    Submit(Seq<char>),
}

impl View for UiAction {
    type V = UiActionView;

    open spec fn view(&self) -> UiActionView {
        match self {
            UiAction::Nothing => UiActionView::Nothing,
            UiAction::Quit => UiActionView::Quit,
            UiAction::Submit(text) => UiActionView::Submit(text@),
        }
    }
}

/// The lines that a page holds.
pub const PAGE_LINES: u16 = 10;

/// The rows of the canvas on which the transcript is laid out.
pub const CANVAS_ROWS: u16 = 5000;

/// The text without the white space at its start and at its end, as
/// `str::trim` gives it.
pub uninterp spec fn trimmed(text: Seq<char>) -> Seq<char>;

/// `str::trim`: the text without leading and trailing white space. The
/// result depends on the text alone.
#[verifier::external_body]
fn trim(text: &str) -> (inner: &str)
    ensures
        inner@ == trimmed(text@),
{
    text.trim()
}

/// `String::push`: the character is appended to the text.
#[verifier::external_body]
fn push_char(text: &mut String, c: char)
    ensures
        final(text)@ == old(text)@.push(c),
{
    text.push(c)
}

/// `String::pop`: the last character is taken off the text and handed back;
/// an empty text stays empty and hands back nothing.
#[verifier::external_body]
fn pop_char(text: &mut String) -> (last: Option<char>)
    ensures
        match last {
            Some(c) => old(text)@.len() > 0 && c == old(text)@.last() && final(text)@ == old(
                text,
            )@.drop_last(),
            None => old(text)@.len() == 0 && final(text)@ == old(text)@,
        },
{
    text.pop()
}

/// The scroll position moved up by some lines, not above the top.
pub open spec fn scrolled_up(scroll: int, lines: int) -> int {
    if scroll - lines < 0 {
        0
    } else {
        scroll - lines
    }
}

/// The scroll position moved down by some lines, not beyond the last
/// position that can be counted.
pub open spec fn scrolled_down(scroll: int, lines: int) -> int {
    if scroll + lines > u16::MAX {
        u16::MAX as int
    } else {
        scroll + lines
    }
}

/// The state after a key, and what follows from it; `blank` says whether
/// the input line holds nothing but white space.
///
/// The scroll keys always work. The other keys work only while no turn is
/// under way, that is, while there is no status. Enter empties the input
/// line; unless the line was blank, its text goes into the transcript as the
/// user's, the status says that the answer is awaited, the view scrolls back
/// to the top, and a turn begins.
pub open spec fn after_key(state: AppStateView, key: KeyInput, blank: bool) -> (
    AppStateView,
    UiActionView,
) {
    match key {
        KeyInput::PageUp => (
            AppStateView { scroll: scrolled_up(state.scroll, PAGE_LINES as int), ..state },
            UiActionView::Nothing,
        ),
        KeyInput::PageDown => (
            AppStateView { scroll: scrolled_down(state.scroll, PAGE_LINES as int), ..state },
            UiActionView::Nothing,
        ),
        KeyInput::LineUp => (
            AppStateView { scroll: scrolled_up(state.scroll, 1), ..state },
            UiActionView::Nothing,
        ),
        KeyInput::LineDown => (
            AppStateView { scroll: scrolled_down(state.scroll, 1), ..state },
            UiActionView::Nothing,
        ),
        _ => if state.status is Some {
            (state, UiActionView::Nothing)
        } else {
            match key {
                KeyInput::Escape => (state, UiActionView::Quit),
                KeyInput::Char(c) => (
                    AppStateView { input: state.input.push(c), ..state },
                    UiActionView::Nothing,
                ),
                KeyInput::Backspace => (
                    AppStateView {
                        input: if state.input.len() > 0 {
                            state.input.drop_last()
                        } else {
                            state.input
                        },
                        ..state
                    },
                    UiActionView::Nothing,
                ),
                KeyInput::Enter => if blank {
                    (AppStateView { input: Seq::empty(), ..state }, UiActionView::Nothing)
                } else {
                    (
                        AppStateView {
                            messages: state.messages.push(
                                ChatMessageView { role: Role::User, content: state.input },
                            ),
                            input: Seq::empty(),
                            scroll: 0,
                            status: Some("Thinking..."@),
                        },
                        UiActionView::Submit(state.input),
                    )
                },
                _ => (state, UiActionView::Nothing),
            }
        },
    }
}

/// The heading under which the transcript shows a message of the role.
pub open spec fn heading_of(role: Role) -> Seq<char> {
    match role {
        Role::User => "**User**:\n"@,
        Role::Assistant => "**Assistant**:\n"@,
        Role::Tool => "**Tool Output**:\n"@,
        Role::System => "**System**:\n"@,
    }
}

/// The transcript as Markdown: each entry under the heading of its role,
/// with a rule after it.
pub open spec fn transcript_of(entries: Seq<ChatMessageView>) -> Seq<char>
    decreases entries.len(),
{
    if entries.len() == 0 {
        Seq::empty()
    } else {
        transcript_of(entries.drop_last()) + heading_of(entries.last().role)
            + entries.last().content + "\n\n---\n\n"@
    }
}

/// The rows of the canvas that are shown in a window of `height` rows whose
/// first row is the row `scroll` of the canvas.
pub open spec fn rows_shown(scroll: int, height: int) -> int {
    if scroll >= CANVAS_ROWS {
        0
    } else if height <= CANVAS_ROWS - scroll {
        height
    } else {
        CANVAS_ROWS - scroll
    }
}

/// The heading under which the transcript shows a message of the role.
pub fn role_heading(role: Role) -> (heading: &'static str)
    ensures
        heading@ == heading_of(role),
{
    match role {
        Role::User => "**User**:\n",
        Role::Assistant => "**Assistant**:\n",
        Role::Tool => "**Tool Output**:\n",
        Role::System => "**System**:\n",
    }
}

/// The transcript as Markdown.
pub fn transcript_markdown(entries: &Vec<ChatMessage>) -> (text: String)
    ensures
        text@ == transcript_of(entries_view(entries@)),
{
    let ghost all = entries_view(entries@);
    let mut text = String::new();
    let mut i: usize = 0;
    assert(all.take(0) =~= Seq::<ChatMessageView>::empty());
    while i < entries.len()
        invariant
            i <= entries.len(),
            all == entries_view(entries@),
            text@ == transcript_of(all.take(i as int)),
        decreases entries.len() - i,
    {
        proof {
            assert(all.take(i + 1).drop_last() =~= all.take(i as int));
            assert(all.take(i + 1).last() == entries@[i as int]@);
        }
        text.append(role_heading(entries[i].role));
        text.append(entries[i].content.as_str());
        text.append("\n\n---\n\n");
        i += 1;
    }
    assert(all.take(entries@.len() as int) =~= all);
    text
}

/// How many rows of the canvas are shown in a window of `height` rows that
/// is scrolled down by `scroll` rows. Each shown row `y` of the window shows
/// the row `scroll + y` of the canvas.
pub fn visible_rows(scroll: u16, height: u16) -> (rows: u16)
    ensures
        rows == rows_shown(scroll as int, height as int),
        rows <= height,
        scroll + rows <= CANVAS_ROWS || rows == 0,
{
    if scroll >= CANVAS_ROWS {
        0
    } else if height <= CANVAS_ROWS - scroll {
        height
    } else {
        CANVAS_ROWS - scroll
    }
}

/// The length of the input line as the cursor counts it: modulo 65536.
pub open spec fn counted_length(input_len: int) -> int {
    input_len % 65536
}

/// The column of the cursor in an input box at column `x` that is `width`
/// columns wide: the border takes one column on each side, and the line
/// wraps at the inner width.
pub open spec fn cursor_column(x: int, width: int, input_len: int) -> int {
    x + 1 + counted_length(input_len) % (width - 2)
}

/// The row of the cursor in an input box at row `y` that is `width` columns
/// wide.
pub open spec fn cursor_row(y: int, width: int, input_len: int) -> int {
    y + 1 + counted_length(input_len) / (width - 2)
}

/// Where the cursor stands in the input box at column `x` and row `y`, which
/// is `width` columns wide, behind an input line of `input_len` bytes. The
/// box must be wider than its border, and the place must be one that can be
/// counted.
pub fn cursor_position(x: u16, y: u16, width: u16, input_len: usize) -> (at: (u16, u16))
    requires
        width > 2,
        cursor_column(x as int, width as int, input_len as int) <= u16::MAX,
        cursor_row(y as int, width as int, input_len as int) <= u16::MAX,
    ensures
        at.0 == cursor_column(x as int, width as int, input_len as int),
        at.1 == cursor_row(y as int, width as int, input_len as int),
{
    let inner: u16 = width - 2;
    let length: u16 = (input_len % 65536) as u16;
    (x + 1 + length % inner, y + 1 + length / inner)
}

impl AppState {
    /// Reacts to a key; `blank` says whether the input line holds nothing
    /// but white space.
    pub fn press(&mut self, key: KeyInput, blank: bool) -> (action: UiAction)
        ensures
            (final(self)@, action@) == after_key(old(self)@, key, blank),
    {
        match key {
            KeyInput::PageUp => {
                self.scroll = self.scroll.saturating_sub(PAGE_LINES);
                UiAction::Nothing
            },
            KeyInput::PageDown => {
                self.scroll = self.scroll.saturating_add(PAGE_LINES);
                UiAction::Nothing
            },
            KeyInput::LineUp => {
                self.scroll = self.scroll.saturating_sub(1);
                UiAction::Nothing
            },
            KeyInput::LineDown => {
                self.scroll = self.scroll.saturating_add(1);
                UiAction::Nothing
            },
            _ => {
                if self.status.is_some() {
                    return UiAction::Nothing;
                }
                match key {
                    KeyInput::Escape => UiAction::Quit,
                    KeyInput::Char(c) => {
                        push_char(&mut self.input, c);
                        UiAction::Nothing
                    },
                    KeyInput::Backspace => {
                        let _ = pop_char(&mut self.input);
                        UiAction::Nothing
                    },
                    KeyInput::Enter => {
                        let mut text = String::new();
                        std::mem::swap(&mut text, &mut self.input);
                        if blank {
                            UiAction::Nothing
                        } else {
                            self.messages.push(
                                ChatMessage { role: Role::User, content: text.clone() },
                            );
                            self.status = Some("Thinking...".to_owned());
                            self.scroll = 0;
                            assert(self@.messages =~= old(self)@.messages.push(
                                ChatMessageView { role: Role::User, content: text@ },
                            ));
                            UiAction::Submit(text)
                        }
                    },
                    _ => UiAction::Nothing,
                }
            },
        }
    }

    /// Whether the input line holds nothing but white space.
    pub fn input_is_blank(&self) -> (blank: bool)
        ensures
            blank == (trimmed(self@.input).len() == 0),
    {
        trim(self.input.as_str()).is_empty()
    }

    /// Reacts to a key.
    pub fn handle_key(&mut self, key: KeyInput) -> (action: UiAction)
        ensures
            (final(self)@, action@) == after_key(
                old(self)@,
                key,
                trimmed(old(self)@.input).len() == 0,
            ),
    {
        let blank = self.input_is_blank();
        self.press(key, blank)
    }
}

} // verus!
