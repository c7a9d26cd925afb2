//! A line-oriented chat relay core: the connection registry, the broadcast
//! engine, the per-connection session state machine and the identifier
//! source of the acceptor. All transport and logging I/O is left to the
//! embedding program, which drives the state machines with plain values.

pub mod acceptor;
pub mod broadcast;
pub mod client;
pub mod ids;
pub mod journal;
pub mod protocol;
pub mod registry;
pub mod session;
pub mod text;
