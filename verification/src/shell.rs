//! The rules of the shell tool: which commands it runs, and how it reports
//! what a command printed.
//!
//! Running the command is the caller's part. What is run, and what is
//! refused with which words, is decided here.

use vstd::prelude::*;
use vstd::string::StringExecFns;

verus! {

/// The words that `shlex` splits a command line into, by the rules of the
/// POSIX shell; `None` where the line is erroneous, as with an open quote.
pub uninterp spec fn shell_words(command: Seq<char>) -> Option<Seq<Seq<char>>>;

/// The characters of each text of a list.
pub open spec fn texts_view(texts: Seq<String>) -> Seq<Seq<char>> {
    Seq::new(texts.len(), |i: int| texts[i]@)
}

/// Splits the command line with `shlex::split`. The result depends on the
/// line alone.
#[verifier::external_body]
fn split_words(command: &str) -> (words: Option<Vec<String>>)
    ensures
        match words {
            Some(list) => shell_words(command@) == Some(texts_view(list@)),
            None => shell_words(command@) is None,
        },
{
    shlex::split(command)
}

/// What is done with a command line.
#[derive(Debug)]
pub enum CommandPlan {
    /// Nothing is run; the text is the tool's answer.
    Refuse(String),
    /// The program is run with the arguments.
    Run { program: String, arguments: Vec<String> },
}

/// The mathematical value of a [`CommandPlan`].
pub enum CommandPlanView {
    Refuse(Seq<char>),
    Run { program: Seq<char>, arguments: Seq<Seq<char>> },
}

impl View for CommandPlan {
    type V = CommandPlanView;

    open spec fn view(&self) -> CommandPlanView {
        match self {
            CommandPlan::Refuse(text) => CommandPlanView::Refuse(text@),
            CommandPlan::Run { program, arguments } => CommandPlanView::Run {
                program: program@,
                arguments: texts_view(arguments@),
            },
        }
    }
}

/// Why a command line is not taken.
#[derive(Debug, Clone, Copy, PartialEq, Eq, Structural)]
pub enum CommandError {
    /// The line cannot be split into words.
    Unparsable,
}

/// The programs that the shell tool runs.
pub open spec fn allowed(program: Seq<char>) -> bool {
    ||| program == "ls"@
    ||| program == "cat"@
    ||| program == "grep"@
    ||| program == "pwd"@
    ||| program == "echo"@
    ||| program == "find"@
    ||| program == "whoami"@
}

/// What is done with the words of a command line: an empty line and a
/// program that is not allowed are refused, each with its answer; an allowed
/// program is run with the words after it.
pub open spec fn plan_for(words: Seq<Seq<char>>) -> CommandPlanView {
    if words.len() == 0 {
        CommandPlanView::Refuse("Empty command"@)
    } else if !allowed(words[0]) {
        CommandPlanView::Refuse("Command '"@ + words[0] + "' is not allowed."@)
    } else {
        CommandPlanView::Run { program: words[0], arguments: words.skip(1) }
    }
}

/// What a command printed, as one text: its output, then, where it wrote
/// errors, those, under a heading where there was output too.
pub open spec fn combined_output(stdout: Seq<char>, stderr: Seq<char>) -> Seq<char> {
    if stderr.len() == 0 {
        stdout
    } else if stdout.len() == 0 {
        stderr
    } else {
        stdout + "\n--- stderr ---\n"@ + stderr
    }
}

impl CommandError {
    /// What went wrong, in words.
    pub fn describe(&self) -> (text: String)
        ensures
            text@ == "Failed to parse command"@,
    {
        "Failed to parse command".to_owned()
    }
}

/// Whether two texts hold the same characters.
fn same_text(a: &str, b: &str) -> (same: bool)
    ensures
        same == (a@ == b@),
{
    a.to_owned() == b.to_owned()
}

/// Whether the shell tool runs the program.
pub fn is_allowed(program: &str) -> (yes: bool)
    ensures
        yes == allowed(program@),
{
    same_text(program, "ls") || same_text(program, "cat") || same_text(program, "grep")
        || same_text(program, "pwd") || same_text(program, "echo") || same_text(program, "find")
        || same_text(program, "whoami")
}

/// Decides what is done with the words of a command line.
pub fn plan_words(words: Vec<String>) -> (plan: CommandPlan)
    ensures
        plan@ == plan_for(texts_view(words@)),
{
    let mut words = words;
    if words.len() == 0 {
        return CommandPlan::Refuse("Empty command".to_owned());
    }
    let ghost all = texts_view(words@);
    let program = words.remove(0);
    assert(texts_view(words@) =~= all.skip(1));
    if !is_allowed(program.as_str()) {
        let mut text = "Command '".to_owned();
        text.append(program.as_str());
        text.append("' is not allowed.");
        return CommandPlan::Refuse(text);
    }
    CommandPlan::Run { program, arguments: words }
}

/// Decides what is done with a command line: it is split into words as a
/// POSIX shell would, and the words decide.
pub fn plan_command(command: &str) -> (result: Result<CommandPlan, CommandError>)
    ensures
        match result {
            Ok(plan) => shell_words(command@) is Some && plan@ == plan_for(
                shell_words(command@)->0,
            ),
            Err(error) => shell_words(command@) is None && error == CommandError::Unparsable,
        },
{
    match split_words(command) {
        Some(words) => Ok(plan_words(words)),
        None => Err(CommandError::Unparsable),
    }
}

/// Puts together what a command printed.
pub fn combine_output(stdout: &str, stderr: &str) -> (text: String)
    ensures
        text@ == combined_output(stdout@, stderr@),
{
    let mut text = String::new();
    assert(text@ + stdout@ =~= stdout@);
    assert(text@ + stderr@ =~= stderr@);
    if !stdout.is_empty() {
        text.append(stdout);
    }
    if !stderr.is_empty() {
        if !text.as_str().is_empty() {
            text.append("\n--- stderr ---\n");
        }
        text.append(stderr);
    }
    text
}

} // verus!
