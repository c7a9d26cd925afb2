//! The lines the relay hands to its logging sink, one per notable event.
//! They are free text for a human reader. Error texts come from the
//! embedding program, which knows what the transport reported.

use crate::ids::ConnectionId;
use crate::text::{decimal, decimal_string};
use vstd::prelude::*;
use vstd::string::*;

verus! {

/// `label` followed by the decimal numeral of `id`.
pub open spec fn tagged(label: Seq<char>, id: ConnectionId) -> Seq<char> {
    label + decimal(id as nat)
}

/// A transport was accepted from `peer`.
pub open spec fn opened_entry(id: ConnectionId, peer: Seq<char>) -> Seq<char> {
    tagged("New connection: id="@, id) + " peer="@ + peer
}

/// The name prompt could not be sent.
pub open spec fn prompt_failed_entry(id: ConnectionId, error: Seq<char>) -> Seq<char> {
    tagged("Failed to prompt name for id="@, id) + " : "@ + error
}

/// The peer closed the transport before it sent a name.
pub open spec fn unnamed_close_entry(id: ConnectionId) -> Seq<char> {
    tagged("Client id="@, id) + " closed before sending name"@
}

/// Reading the name failed.
pub open spec fn name_read_failed_entry(id: ConnectionId, error: Seq<char>) -> Seq<char> {
    tagged("Error reading name from id="@, id) + " : "@ + error
}

/// A non-empty line arrived from a named connection.
pub open spec fn message_entry(name: Seq<char>, id: ConnectionId, text: Seq<char>) -> Seq<char> {
    "Message from "@ + name + tagged(" (id="@, id) + "): "@ + text
}

/// Reading from a named connection failed.
pub open spec fn read_failed_entry(name: Seq<char>, id: ConnectionId, error: Seq<char>) -> Seq<
    char,
> {
    "Error reading from "@ + name + tagged(" (id="@, id) + "): "@ + error
}

/// A named connection ended its session.
pub open spec fn disconnected_entry(name: Seq<char>, id: ConnectionId) -> Seq<char> {
    "[SERVER] "@ + name + tagged(" (id="@, id) + ") disconnected"@
}

/// Writing a broadcast to a connection failed.
pub open spec fn send_failed_entry(name: Seq<char>, id: ConnectionId, error: Seq<char>) -> Seq<
    char,
> {
    "Ошибка отправки "@ + name + tagged("(id="@, id) + ") : "@ + error
}

/// A connection was dropped from the registry after a failed write.
pub open spec fn pruned_entry(name: Seq<char>, id: ConnectionId) -> Seq<char> {
    "[SERVER] "@ + name + tagged(" (id="@, id) + ") disconnected (write error)"@
}

/// Accepting a transport failed.
pub open spec fn accept_failed_entry(error: Seq<char>) -> Seq<char> {
    "Accept error: "@ + error
}

/// Appends the decimal numeral of `id` to `line`.
fn append_id(line: &mut String, id: ConnectionId)
    ensures
        final(line)@ == old(line)@ + decimal(id as nat),
{
    let numeral = decimal_string(id);
    line.append(numeral.as_str());
}

/// The line for a transport accepted from `peer`.
pub fn opened(id: ConnectionId, peer: &str) -> (line: String)
    ensures
        line@ == opened_entry(id, peer@),
{
    let mut line = String::from_str("New connection: id=");
    append_id(&mut line, id);
    line.append(" peer=");
    line.append(peer);
    line
}

/// The line for a name prompt that could not be sent.
pub fn prompt_failed(id: ConnectionId, error: &str) -> (line: String)
    ensures
        line@ == prompt_failed_entry(id, error@),
{
    let mut line = String::from_str("Failed to prompt name for id=");
    append_id(&mut line, id);
    line.append(" : ");
    line.append(error);
    line
}

/// The line for a peer that closed before it sent a name.
pub fn unnamed_close(id: ConnectionId) -> (line: String)
    ensures
        line@ == unnamed_close_entry(id),
{
    let mut line = String::from_str("Client id=");
    append_id(&mut line, id);
    line.append(" closed before sending name");
    line
}

/// The line for a failed read of the name.
pub fn name_read_failed(id: ConnectionId, error: &str) -> (line: String)
    ensures
        line@ == name_read_failed_entry(id, error@),
{
    let mut line = String::from_str("Error reading name from id=");
    append_id(&mut line, id);
    line.append(" : ");
    line.append(error);
    line
}

/// The line for a non-empty line received from a named connection.
pub fn message(name: &str, id: ConnectionId, text: &str) -> (line: String)
    ensures
        line@ == message_entry(name@, id, text@),
{
    let mut line = String::from_str("Message from ");
    line.append(name);
    line.append(" (id=");
    append_id(&mut line, id);
    line.append("): ");
    line.append(text);
    assert(line@ =~= message_entry(name@, id, text@));
    line
}

/// The line for a failed read from a named connection.
pub fn read_failed(name: &str, id: ConnectionId, error: &str) -> (line: String)
    ensures
        line@ == read_failed_entry(name@, id, error@),
{
    let mut line = String::from_str("Error reading from ");
    line.append(name);
    line.append(" (id=");
    append_id(&mut line, id);
    line.append("): ");
    line.append(error);
    assert(line@ =~= read_failed_entry(name@, id, error@));
    line
}

/// The line for a named connection that ended its session.
pub fn disconnected(name: &str, id: ConnectionId) -> (line: String)
    ensures
        line@ == disconnected_entry(name@, id),
{
    let mut line = String::from_str("[SERVER] ");
    line.append(name);
    line.append(" (id=");
    append_id(&mut line, id);
    line.append(") disconnected");
    assert(line@ =~= disconnected_entry(name@, id));
    line
}

/// The line for a failed write of a broadcast.
pub fn send_failed(name: &str, id: ConnectionId, error: &str) -> (line: String)
    ensures
        line@ == send_failed_entry(name@, id, error@),
{
    let mut line = String::from_str("Ошибка отправки ");
    line.append(name);
    line.append("(id=");
    append_id(&mut line, id);
    line.append(") : ");
    line.append(error);
    assert(line@ =~= send_failed_entry(name@, id, error@));
    line
}

/// The line for a connection dropped after a failed write.
pub fn pruned(name: &str, id: ConnectionId) -> (line: String)
    ensures
        line@ == pruned_entry(name@, id),
{
    let mut line = String::from_str("[SERVER] ");
    line.append(name);
    line.append(" (id=");
    append_id(&mut line, id);
    line.append(") disconnected (write error)");
    assert(line@ =~= pruned_entry(name@, id));
    line
}

/// The line for a failed accept.
pub fn accept_failed(error: &str) -> (line: String)
    ensures
        line@ == accept_failed_entry(error@),
{
    let mut line = String::from_str("Accept error: ");
    line.append(error);
    line
}

} // verus!
