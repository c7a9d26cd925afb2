//! The wire protocol: the lines the relay sends and the commands it
//! recognises in the lines it receives. Text is newline-delimited; every
//! line here that ends a message carries its own newline.

use crate::text::{eq_ignore_ascii_case, join, joined, same_ignoring_ascii_case};
use vstd::prelude::*;
use vstd::string::*;

verus! {

/// The prompt sent on connect. It has no trailing newline.
pub open spec fn prompt_text() -> Seq<char> {
    "Enter your name: "@
}

/// The reply to a name that is empty after trimming.
pub open spec fn name_rejection_text() -> Seq<char> {
    "Name cannot be empty\n"@
}

/// The private greeting sent once a name has been accepted.
pub open spec fn welcome_text(name: Seq<char>) -> Seq<char> {
    "[SERVER] Welcome, "@ + name + "! Use /quit to exit, /list to see users\n"@
}

/// The announcement that `name` has joined.
pub open spec fn arrival_text(name: Seq<char>) -> Seq<char> {
    "[SERVER] "@ + name + " has joined\n"@
}

/// The announcement that `name` has left.
pub open spec fn departure_text(name: Seq<char>) -> Seq<char> {
    "[SERVER] "@ + name + " has left\n"@
}

/// The private reply to `/quit`.
pub open spec fn farewell_text() -> Seq<char> {
    "[SERVER] Bye\n"@
}

/// The private reply to `/list`: the display names, comma-separated.
pub open spec fn users_text(names: Seq<Seq<char>>) -> Seq<char> {
    "[SERVER] Users: "@ + joined(names, ", "@) + "\n"@
}

/// A chat line as it is relayed: the sender's name, then the text.
pub open spec fn chat_text(name: Seq<char>, text: Seq<char>) -> Seq<char> {
    name + ": "@ + text + "\n"@
}

/// What a non-empty, trimmed line asks for.
#[derive(Clone, Copy, PartialEq, Eq, Debug, Structural)]
pub enum Command {
    /// `/quit`, in any ASCII case: leave.
    Quit,
    /// `/list`, in any ASCII case: name the connected users.
    List,
    /// Anything else: a chat message to relay.
    Say,
}

/// The command that a trimmed line stands for.
pub open spec fn command_of(text: Seq<char>) -> Command {
    if same_ignoring_ascii_case(text, "/quit"@) {
        Command::Quit
    } else if same_ignoring_ascii_case(text, "/list"@) {
        Command::List
    } else {
        Command::Say
    }
}

/// The command that a trimmed line stands for.
pub fn parse_command(text: &str) -> (command: Command)
    ensures
        command == command_of(text@),
{
    if eq_ignore_ascii_case(text, "/quit") {
        Command::Quit
    } else if eq_ignore_ascii_case(text, "/list") {
        Command::List
    } else {
        Command::Say
    }
}

/// The prompt sent on connect.
pub fn prompt() -> (line: String)
    ensures
        line@ == prompt_text(),
{
    String::from_str("Enter your name: ")
}

/// The reply to an empty name.
pub fn name_rejection() -> (line: String)
    ensures
        line@ == name_rejection_text(),
{
    String::from_str("Name cannot be empty\n")
}

/// The greeting for `name`.
pub fn welcome(name: &str) -> (line: String)
    ensures
        line@ == welcome_text(name@),
{
    let mut line = String::from_str("[SERVER] Welcome, ");
    line.append(name);
    line.append("! Use /quit to exit, /list to see users\n");
    line
}

/// The announcement that `name` has joined.
pub fn arrival(name: &str) -> (line: String)
    ensures
        line@ == arrival_text(name@),
{
    let mut line = String::from_str("[SERVER] ");
    line.append(name);
    line.append(" has joined\n");
    line
}

/// The announcement that `name` has left.
pub fn departure(name: &str) -> (line: String)
    ensures
        line@ == departure_text(name@),
{
    let mut line = String::from_str("[SERVER] ");
    line.append(name);
    line.append(" has left\n");
    line
}

/// The reply to `/quit`.
pub fn farewell() -> (line: String)
    ensures
        line@ == farewell_text(),
{
    String::from_str("[SERVER] Bye\n")
}

/// The reply to `/list` for these display names.
pub fn users(names: &Vec<String>) -> (line: String)
    ensures
        line@ == users_text(names.deep_view()),
{
    let mut line = String::from_str("[SERVER] Users: ");
    let listed = join(names, ", ");
    line.append(listed.as_str());
    line.append("\n");
    line
}

/// The line that relays `text` as said by `name`.
pub fn chat(name: &str, text: &str) -> (line: String)
    ensures
        line@ == chat_text(name@, text@),
{
    let mut line = String::from_str(name);
    line.append(": ");
    line.append(text);
    line.append("\n");
    line
}

} // verus!
