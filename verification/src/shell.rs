//! What the host does with a line of input: the decisions of the command
//! line and of the interactive shell, without the reading and the printing.

use crate::chars::{contains, has, text_of, trim, trimmed};
use crate::text::to_chars;
use vstd::prelude::*;
use vstd::slice::slice_subrange;
use vstd::string::*;

verus! {

/// How the program is started.
#[derive(Debug, PartialEq)]
pub enum Launch {
    /// Enter the interactive shell.
    Shell,
    /// Run this chain and leave.
    Run(String),
    /// Nothing was asked for: show how the program is used.
    Usage,
}

/// The mathematical model of a [`Launch`].
pub ghost enum LaunchView {
    Shell,
    Run(Seq<char>),
    Usage,
}

impl View for Launch {
    type V = LaunchView;

    open spec fn view(&self) -> LaunchView {
        match self {
            Launch::Shell => LaunchView::Shell,
            Launch::Run(input) => LaunchView::Run(input@),
            Launch::Usage => LaunchView::Usage,
        }
    }
}

/// How the program is started with the given arguments, joined by blanks:
/// `shell`, or anything that holds `shell()`, enters the shell; any other
/// text is run as a chain; no text asks for the usage.
pub open spec fn launch_of(input: Seq<char>) -> LaunchView {
    if has(input, "shell()"@) || input == "shell"@ {
        LaunchView::Shell
    } else if input.len() > 0 {
        LaunchView::Run(input)
    } else {
        LaunchView::Usage
    }
}

/// Decides how the program is started with the given arguments, joined by
/// blanks.
pub fn launch(input: &str) -> (mode: Launch)
    ensures
        mode@ == launch_of(input@),
{
    let chars = to_chars(input);
    if contains(chars.as_slice(), to_chars("shell()").as_slice()) || crate::text::text_eq(
        input,
        "shell",
    ) {
        Launch::Shell
    } else if chars.len() > 0 {
        Launch::Run(input.to_owned())
    } else {
        Launch::Usage
    }
}

/// What a line that was typed into the shell asks for.
#[derive(Debug, PartialEq)]
pub enum ShellCommand {
    /// Leave the shell.
    Exit,
    /// Show the overview of all methods.
    Overview,
    /// Parse this chain and show its tree, without running it.
    ParseOnly(String),
    /// Run this chain.
    Run(String),
    /// An empty line: nothing.
    Nothing,
}

/// The mathematical model of a [`ShellCommand`].
pub ghost enum ShellCommandView {
    Exit,
    Overview,
    ParseOnly(Seq<char>),
    Run(Seq<char>),
    Nothing,
}

impl View for ShellCommand {
    type V = ShellCommandView;

    open spec fn view(&self) -> ShellCommandView {
        match self {
            ShellCommand::Exit => ShellCommandView::Exit,
            ShellCommand::Overview => ShellCommandView::Overview,
            ShellCommand::ParseOnly(input) => ShellCommandView::ParseOnly(input@),
            ShellCommand::Run(input) => ShellCommandView::Run(input@),
            ShellCommand::Nothing => ShellCommandView::Nothing,
        }
    }
}

/// The words that leave the shell.
pub open spec fn is_exit_word(word: Seq<char>) -> bool {
    word == "exit"@ || word == "quit"@ || word == "q"@ || word == "drop"@
}

/// What a line asks for, once the white space around it is dropped: a word
/// of leave leaves, `help` shows the overview, a line that begins with `?` is
/// parsed only, any other text is run, and an empty line is passed over.
pub open spec fn command_of(line: Seq<char>) -> ShellCommandView {
    let input = trimmed(line);
    if is_exit_word(input) {
        ShellCommandView::Exit
    } else if input == "help"@ {
        ShellCommandView::Overview
    } else if input.len() == 0 {
        ShellCommandView::Nothing
    } else if input[0] == '?' {
        ShellCommandView::ParseOnly(input.drop_first())
    } else {
        ShellCommandView::Run(input)
    }
}

/// Whether `word` is the text `text`.
fn is_word(word: &[char], text: &str) -> (yes: bool)
    ensures
        yes == (word@ == text@),
{
    let wanted = to_chars(text);
    if word.len() != wanted.len() {
        return false;
    }
    let mut i: usize = 0;
    while i < word.len()
        invariant
            i <= word.len(),
            word.len() == wanted.len(),
            wanted@ == text@,
            forall|k: int| 0 <= k < i ==> word@[k] == wanted@[k],
        decreases word.len() - i,
    {
        if word[i] != wanted[i] {
            return false;
        }
        i += 1;
    }
    assert(word@ =~= wanted@);
    true
}

/// Decides what a line that was typed into the shell asks for.
pub fn read_command(line: &str) -> (command: ShellCommand)
    ensures
        command@ == command_of(line@),
{
    let chars = to_chars(line);
    let input = trim(chars.as_slice());
    if is_word(input, "exit") || is_word(input, "quit") || is_word(input, "q") || is_word(
        input,
        "drop",
    ) {
        ShellCommand::Exit
    } else if is_word(input, "help") {
        ShellCommand::Overview
    } else if input.len() == 0 {
        ShellCommand::Nothing
    } else if input[0] == '?' {
        let rest = slice_subrange(input, 1, input.len());
        assert(rest@ =~= input@.drop_first());
        ShellCommand::ParseOnly(text_of(rest))
    } else {
        ShellCommand::Run(text_of(input))
    }
}

} // verus!
