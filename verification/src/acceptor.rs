//! The acceptor's decisions: what to do with the outcome of one accept.
//!
//! The embedding program owns the listening endpoint and the accept loop.
//! For every outcome it asks `on_accept`, then either starts a session under
//! the identifier it is given or logs the line it is given, and goes on
//! accepting either way.

use crate::ids::{ConnectionId, IdAllocator};
use crate::journal::{accept_failed, accept_failed_entry};
use vstd::prelude::*;
use vstd::string::*;

verus! {

/// What becomes of one accept.
#[derive(PartialEq, Eq, Debug)]
pub enum Admission {
    /// Start a session for the transport, under this identifier.
    Serve(ConnectionId),
    /// Serve nothing; hand this line to the logging sink.
    Skip(String),
}

/// An admission, as a mathematical value.
pub enum AdmissionView {
    Serve(ConnectionId),
    Skip(Seq<char>),
}

impl View for Admission {
    type V = AdmissionView;

    open spec fn view(&self) -> AdmissionView {
        match *self {
            Admission::Serve(id) => AdmissionView::Serve(id),
            Admission::Skip(line) => AdmissionView::Skip(line@),
        }
    }
}

/// The error text logged for a transport that was accepted when no
/// identifier was left for it.
pub open spec fn exhausted_text() -> Seq<char> {
    "connection identifiers exhausted"@
}

/// The decision on one accept. A transport is served under the next
/// identifier; a failed accept is logged with its error text; a transport
/// for which no identifier is left is logged as an accept error too.
pub open spec fn admission(ids: IdAllocator, accepted: Result<(), Seq<char>>) -> AdmissionView {
    match accepted {
        Ok(_) => if ids.exhausted() {
            AdmissionView::Skip(accept_failed_entry(exhausted_text()))
        } else {
            AdmissionView::Serve(ids.upcoming())
        },
        Err(error) => AdmissionView::Skip(accept_failed_entry(error)),
    }
}

/// The outcome of an accept with its error text as a sequence of characters.
pub open spec fn accept_text(accepted: Result<(), String>) -> Result<(), Seq<char>> {
    match accepted {
        Ok(_) => Ok(()),
        Err(error) => Err(error@),
    }
}

/// Decides on one accept: `Ok` for an accepted transport, else the error
/// text. Only a served transport uses up an identifier, and each one served
/// gets an identifier larger than all that were issued before.
pub fn on_accept(ids: &mut IdAllocator, accepted: Result<(), String>) -> (decision: Admission)
    ensures
        decision@ == admission(*old(ids), accept_text(accepted)),
        match decision {
            Admission::Serve(id) => {
                &&& final(ids).upcoming() == id + 1
                &&& final(ids).issued() == old(ids).issued().insert(id)
                &&& !old(ids).issued().contains(id)
                &&& forall|earlier: ConnectionId| #[trigger]
                    old(ids).issued().contains(earlier) ==> earlier < id
            },
            Admission::Skip(_) => *final(ids) == *old(ids),
        },
{
    match accepted {
        Ok(_) => match ids.issue() {
            Some(id) => Admission::Serve(id),
            None => Admission::Skip(accept_failed("connection identifiers exhausted")),
        },
        Err(error) => Admission::Skip(accept_failed(error.as_str())),
    }
}

} // verus!
