//! What the interactive client makes of the lines its user types: the name
//! it introduces itself with, and the lines it sends on.

use crate::protocol::{command_of, parse_command, Command};
use crate::text::{trim, trimmed};
use vstd::prelude::*;
use vstd::string::*;

verus! {

/// The name used when the user enters none.
pub open spec fn default_name() -> Seq<char> {
    "guest"@
}

/// The name line a client sends for what its user typed: the trimmed input,
/// or the default name where that is empty, with a newline.
pub open spec fn name_line(input: Seq<char>) -> Seq<char> {
    if trimmed(input).len() == 0 {
        default_name() + "\n"@
    } else {
        trimmed(input) + "\n"@
    }
}

/// What a client does with one line typed after the name.
#[derive(PartialEq, Eq, Debug)]
pub enum Outgoing {
    /// The line is empty after trimming: send nothing.
    Nothing,
    /// Send the line and go on reading.
    Send(String),
    /// Send the line, which asks to quit, and stop reading.
    SendLast(String),
}

/// An outgoing decision, as a mathematical value.
pub enum OutgoingView {
    Nothing,
    Send(Seq<char>),
    SendLast(Seq<char>),
}

impl View for Outgoing {
    type V = OutgoingView;

    open spec fn view(&self) -> OutgoingView {
        match *self {
            Outgoing::Nothing => OutgoingView::Nothing,
            Outgoing::Send(line) => OutgoingView::Send(line@),
            Outgoing::SendLast(line) => OutgoingView::SendLast(line@),
        }
    }
}

/// The decision on one typed line: blank lines are dropped, every other
/// line is sent trimmed with a newline, and `/quit` is the last line sent.
pub open spec fn outgoing_of(input: Seq<char>) -> OutgoingView {
    let text = trimmed(input);
    if text.len() == 0 {
        OutgoingView::Nothing
    } else if command_of(text) == Command::Quit {
        OutgoingView::SendLast(text + "\n"@)
    } else {
        OutgoingView::Send(text + "\n"@)
    }
}

/// The name line for what the user typed at the prompt.
pub fn introduce(input: &str) -> (line: String)
    ensures
        line@ == name_line(input@),
{
    let name = trim(input);
    let mut line = if name.is_empty() {
        String::from_str("guest")
    } else {
        String::from_str(name)
    };
    line.append("\n");
    line
}

/// The decision on one line the user typed after the name.
pub fn outgoing(input: &str) -> (decision: Outgoing)
    ensures
        decision@ == outgoing_of(input@),
{
    let text = trim(input);
    if text.is_empty() {
        Outgoing::Nothing
    } else {
        let mut line = String::from_str(text);
        line.append("\n");
        match parse_command(text) {
            Command::Quit => Outgoing::SendLast(line),
            _ => Outgoing::Send(line),
        }
    }
}

} // verus!
