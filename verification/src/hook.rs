//! The command that is run after the outputs were remapped.
//!
//! The command is configured as one line of shell words. The line is split
//! into a program and its arguments; starting the program is left to the
//! caller.

use vstd::prelude::*;

verus! {

/// A program and the arguments to start it with.
#[derive(Debug, PartialEq, Eq)]
pub struct HookCommand {
    pub program: String,
    pub args: Vec<String>,
}

/// The mathematical value of a [`HookCommand`].
pub struct HookCommandView {
    pub program: Seq<char>,
    pub args: Seq<Seq<char>>,
}

impl View for HookCommand {
    type V = HookCommandView;

    open spec fn view(&self) -> HookCommandView {
        HookCommandView { program: self.program@, args: self.args@.map_values(|arg: String| arg@) }
    }
}

/// The words of `line` as a shell would split it, or `None` where the line
/// cannot be split, as `shlex::split` computes them.
pub uninterp spec fn shell_words(line: Seq<char>) -> Option<Seq<Seq<char>>>;

/// A list of words as plain values.
pub open spec fn words_view(words: Option<Vec<String>>) -> Option<Seq<Seq<char>>> {
    match words {
        Some(list) => Some(list@.map_values(|word: String| word@)),
        None => None,
    }
}

/// A command as a plain value.
pub open spec fn command_view(command: Option<HookCommand>) -> Option<HookCommandView> {
    match command {
        Some(c) => Some(c@),
        None => None,
    }
}

/// The command that `words` stand for: the first word is the program, the
/// others are its arguments. A line that could not be split, or that holds
/// no word, stands for no command.
pub open spec fn command_of(words: Option<Seq<Seq<char>>>) -> Option<HookCommandView> {
    match words {
        Some(list) => if list.len() == 0 {
            None
        } else {
            Some(HookCommandView { program: list[0], args: list.skip(1) })
        },
        None => None,
    }
}

/// Calls `shlex::split`, which splits a line into words by the quoting
/// rules of a POSIX shell and gives `None` for a line that ends inside a
/// quotation or an escape. The result depends on the line alone.
#[verifier::external_body]
fn split_words(line: &str) -> (words: Option<Vec<String>>)
    ensures
        words_view(words) == shell_words(line@),
{
    shlex::split(line)
}

/// The command that the words of a split line stand for.
pub fn command_from_words(words: Option<Vec<String>>) -> (command: Option<HookCommand>)
    ensures
        command_view(command) == command_of(words_view(words)),
{
    match words {
        Some(list) => {
            if list.len() == 0 {
                None
            } else {
                let ghost given = list@.map_values(|word: String| word@);
                let mut args = list;
                let program = args.remove(0);
                assert(args@.map_values(|arg: String| arg@) =~= given.skip(1));
                Some(HookCommand { program, args })
            }
        },
        None => None,
    }
}

/// The command to run after a remap, where one is configured and its line
/// can be split into at least one word.
pub fn on_remap_command(on_remap: Option<&String>) -> (command: Option<HookCommand>)
    ensures
        command_view(command) == match on_remap {
            Some(line) => command_of(shell_words(line@)),
            None => None,
        },
{
    match on_remap {
        Some(line) => command_from_words(split_words(line.as_str())),
        None => None,
    }
}

} // verus!
