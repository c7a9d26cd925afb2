//! The session handler: the control flow of one connection, from accept to
//! close, as a state machine.
//!
//! The machine does no I/O. The embedding program performs the actions a
//! transition returns, in order, and then supplies what the new phase waits
//! for: in `Connecting` the outcome of sending the prompt, in `Naming` and
//! `Active` the next line read from the transport, in `Closing` nothing but
//! a call of `close`.

use crate::ids::ConnectionId;
use crate::journal::{
    disconnected, disconnected_entry, message, message_entry, name_read_failed,
    name_read_failed_entry, opened, opened_entry, prompt_failed, prompt_failed_entry, read_failed,
    read_failed_entry, unnamed_close, unnamed_close_entry,
};
use crate::protocol::{
    arrival, arrival_text, chat, chat_text, command_of, departure, departure_text, farewell,
    farewell_text, name_rejection, name_rejection_text, parse_command, prompt, prompt_text, users,
    users_text, welcome, welcome_text, Command,
};
use crate::registry::{
    distinct_ids, entry_of, has_id, lemma_remove_is_idempotent, lemma_with_entry_distinct,
    lemma_without_distinct, lemma_without_has_id, names, others, with_entry, without, Entry,
    Registry,
};
use crate::text::{lemma_trimmed, trim, trimmed};
use vstd::prelude::*;
use vstd::string::*;

verus! {

/// Where a session stands.
#[derive(Clone, Copy, PartialEq, Eq, Debug, Structural)]
pub enum Phase {
    /// The prompt is on its way; its outcome is awaited.
    Connecting,
    /// The prompt was sent; the line with the name is awaited.
    Naming,
    /// The connection is registered; its lines are awaited.
    Active,
    /// The read loop has ended; the departure is still to be carried out.
    Closing,
    /// Terminal.
    Closed,
}

/// What the embedding program saw happen on the session's transport.
#[derive(PartialEq, Eq, Debug)]
pub enum Event {
    /// The prompt was written in full.
    PromptSent,
    /// Writing the prompt failed, with the transport's error text.
    PromptFailed(String),
    /// A line was read; its line ending may still be attached.
    Line(String),
    /// The peer closed the transport.
    EndOfStream,
    /// Reading failed, with the transport's error text.
    ReadFailed(String),
}

/// An event, as a mathematical value.
pub enum EventView {
    PromptSent,
    PromptFailed(Seq<char>),
    Line(Seq<char>),
    EndOfStream,
    ReadFailed(Seq<char>),
}

impl View for Event {
    type V = EventView;

    open spec fn view(&self) -> EventView {
        match *self {
            Event::PromptSent => EventView::PromptSent,
            Event::PromptFailed(error) => EventView::PromptFailed(error@),
            Event::Line(line) => EventView::Line(line@),
            Event::EndOfStream => EventView::EndOfStream,
            Event::ReadFailed(error) => EventView::ReadFailed(error@),
        }
    }
}

/// What the embedding program is to do for the session.
#[derive(PartialEq, Eq, Debug)]
pub enum Action {
    /// Hand the line to the logging sink.
    Log(String),
    /// Write the text to the session's own transport. Only in `Connecting`
    /// does the outcome matter; elsewhere a failure is ignored.
    Send(String),
    /// Broadcast the message to every registered connection but `except`.
    Broadcast { message: String, except: Option<ConnectionId> },
    /// Shut the transport down in both directions.
    Close,
}

/// An action, as a mathematical value.
pub enum ActionView {
    Log(Seq<char>),
    Send(Seq<char>),
    Broadcast { message: Seq<char>, except: Option<ConnectionId> },
    Close,
}

impl View for Action {
    type V = ActionView;

    open spec fn view(&self) -> ActionView {
        match *self {
            Action::Log(line) => ActionView::Log(line@),
            Action::Send(text) => ActionView::Send(text@),
            Action::Broadcast { message, except } => ActionView::Broadcast {
                message: message@,
                except,
            },
            Action::Close => ActionView::Close,
        }
    }
}

impl DeepView for Action {
    type V = ActionView;

    open spec fn deep_view(&self) -> ActionView {
        self@
    }
}

/// A session, as a mathematical value.
pub struct SessionView<H> {
    pub id: ConnectionId,
    pub phase: Phase,
    /// The display name; empty until one has been accepted.
    pub name: Seq<char>,
    /// The handle that the registry is to hold for this connection; it is
    /// given up on registration.
    pub handle: Option<H>,
}

impl<H> SessionView<H> {
    /// What holds of every session that was opened and stepped: before
    /// registration the handle is at hand, and from registration on the name
    /// is non-empty and trimmed.
    pub open spec fn wf(self) -> bool {
        &&& self.phase is Connecting || self.phase is Naming ==> self.handle is Some
        &&& self.phase is Active || self.phase is Closing ==> self.name.len() > 0 && trimmed(
            self.name,
        ) == self.name
    }
}

/// The outcome of a transition: the session and the registry after it, and
/// the actions to perform, in order.
pub struct Step<H> {
    pub session: SessionView<H>,
    pub registry: Seq<Entry<H>>,
    pub actions: Seq<ActionView>,
}

/// A transition that changes nothing and asks for nothing.
pub open spec fn idle<H>(session: SessionView<H>, registry: Seq<Entry<H>>) -> Step<H> {
    Step { session, registry, actions: Seq::empty() }
}

/// A new session for an accepted transport: it logs the connection and
/// sends the name prompt.
pub open spec fn opening<H>(id: ConnectionId, peer: Seq<char>, handle: H) -> (SessionView<H>, Seq<
    ActionView,
>) {
    (
        SessionView { id, phase: Phase::Connecting, name: Seq::empty(), handle: Some(handle) },
        seq![ActionView::Log(opened_entry(id, peer)), ActionView::Send(prompt_text())],
    )
}

/// `Connecting`: a sent prompt leads to `Naming`; a failed one is logged and
/// ends the session with no registry entry.
pub open spec fn connecting<H>(
    session: SessionView<H>,
    event: EventView,
    registry: Seq<Entry<H>>,
) -> Step<H> {
    match event {
        EventView::PromptSent => Step {
            session: SessionView { phase: Phase::Naming, ..session },
            registry,
            actions: Seq::empty(),
        },
        EventView::PromptFailed(error) => Step {
            session: SessionView { phase: Phase::Closed, ..session },
            registry,
            actions: seq![
                ActionView::Log(prompt_failed_entry(session.id, error)),
                ActionView::Close,
            ],
        },
        _ => idle(session, registry),
    }
}

/// `Naming`: a line whose trimmed text is not empty registers the connection
/// under that name, greets it and announces it to the others. An empty name
/// is rejected with a message; the end of the stream and a read failure are
/// logged. All three end the session with no registry entry.
pub open spec fn naming<H>(
    session: SessionView<H>,
    event: EventView,
    registry: Seq<Entry<H>>,
) -> Step<H> {
    match event {
        EventView::Line(line) => {
            let name = trimmed(line);
            if name.len() == 0 {
                Step {
                    session: SessionView { phase: Phase::Closed, ..session },
                    registry,
                    actions: seq![ActionView::Send(name_rejection_text()), ActionView::Close],
                }
            } else {
                Step {
                    session: SessionView { phase: Phase::Active, name, handle: None, ..session },
                    registry: with_entry(
                        registry,
                        Entry { id: session.id, name, handle: session.handle->0 },
                    ),
                    actions: seq![
                        ActionView::Send(welcome_text(name)),
                        ActionView::Broadcast {
                            message: arrival_text(name),
                            except: Some(session.id),
                        },
                    ],
                }
            }
        },
        EventView::EndOfStream => Step {
            session: SessionView { phase: Phase::Closed, ..session },
            registry,
            actions: seq![ActionView::Log(unnamed_close_entry(session.id)), ActionView::Close],
        },
        EventView::ReadFailed(error) => Step {
            session: SessionView { phase: Phase::Closed, ..session },
            registry,
            actions: seq![
                ActionView::Log(name_read_failed_entry(session.id, error)),
                ActionView::Close,
            ],
        },
        _ => idle(session, registry),
    }
}

/// `Active`: a line that is empty after trimming is ignored. Any other line
/// is logged and then dispatched: `/quit` is answered and leads to `Closing`,
/// `/list` is answered with the registered names, and anything else is
/// broadcast to every registered connection, the sender included. The end of
/// the stream and a read failure lead to `Closing`.
pub open spec fn active<H>(
    session: SessionView<H>,
    event: EventView,
    registry: Seq<Entry<H>>,
) -> Step<H> {
    match event {
        EventView::Line(line) => {
            let text = trimmed(line);
            let logged = ActionView::Log(message_entry(session.name, session.id, text));
            if text.len() == 0 {
                idle(session, registry)
            } else {
                match command_of(text) {
                    Command::Quit => Step {
                        session: SessionView { phase: Phase::Closing, ..session },
                        registry,
                        actions: seq![logged, ActionView::Send(farewell_text())],
                    },
                    Command::List => Step {
                        session,
                        registry,
                        actions: seq![logged, ActionView::Send(users_text(names(registry)))],
                    },
                    Command::Say => Step {
                        session,
                        registry,
                        actions: seq![
                            logged,
                            ActionView::Broadcast {
                                message: chat_text(session.name, text),
                                except: None,
                            },
                        ],
                    },
                }
            }
        },
        EventView::EndOfStream => Step {
            session: SessionView { phase: Phase::Closing, ..session },
            registry,
            actions: Seq::empty(),
        },
        EventView::ReadFailed(error) => Step {
            session: SessionView { phase: Phase::Closing, ..session },
            registry,
            actions: seq![ActionView::Log(read_failed_entry(session.name, session.id, error))],
        },
        _ => idle(session, registry),
    }
}

/// The transition that an event causes. In `Closing` and `Closed` no event
/// is awaited and every event is ignored, as is an event that the phase does
/// not wait for.
pub open spec fn after_event<H>(
    session: SessionView<H>,
    event: EventView,
    registry: Seq<Entry<H>>,
) -> Step<H> {
    match session.phase {
        Phase::Connecting => connecting(session, event, registry),
        Phase::Naming => naming(session, event, registry),
        Phase::Active => active(session, event, registry),
        Phase::Closing => idle(session, registry),
        Phase::Closed => idle(session, registry),
    }
}

/// The departure. In `Closing` the connection's entry leaves the registry
/// (if it is still there), the disconnect is logged, the departure is
/// announced to the others, the transport is closed and the session is
/// `Closed`. In every other phase nothing happens.
pub open spec fn after_close<H>(session: SessionView<H>, registry: Seq<Entry<H>>) -> Step<H> {
    if session.phase is Closing {
        Step {
            session: SessionView { phase: Phase::Closed, ..session },
            registry: without(registry, session.id),
            actions: seq![
                ActionView::Log(disconnected_entry(session.name, session.id)),
                ActionView::Broadcast {
                    message: departure_text(session.name),
                    except: Some(session.id),
                },
                ActionView::Close,
            ],
        }
    } else {
        idle(session, registry)
    }
}

/// `wanted` stands at exactly one position of `actions`.
pub open spec fn occurs_once(actions: Seq<ActionView>, wanted: ActionView) -> bool {
    exists|at: int|
        0 <= at < actions.len() && actions[at] == wanted && forall|i: int|
            0 <= i < actions.len() && actions[i] == wanted ==> i == at
}

/// The announcement that a session's connection has left, sent to all but
/// itself.
pub open spec fn departure_of<H>(session: SessionView<H>) -> ActionView {
    ActionView::Broadcast { message: departure_text(session.name), except: Some(session.id) }
}

/// The event ends the read loop of an active session: `/quit`, the end of
/// the stream, or a read failure.
pub open spec fn ends_session(event: EventView) -> bool {
    match event {
        EventView::Line(line) => trimmed(line).len() > 0 && command_of(trimmed(line))
            == Command::Quit,
        EventView::EndOfStream => true,
        EventView::ReadFailed(_) => true,
        _ => false,
    }
}

/// Every transition keeps the session well formed and the registry free of
/// duplicate identifiers, and none changes the session's identifier.
pub proof fn lemma_transitions_keep_invariants<H>(
    session: SessionView<H>,
    event: EventView,
    registry: Seq<Entry<H>>,
)
    requires
        session.wf(),
        distinct_ids(registry),
    ensures
        after_event(session, event, registry).session.wf(),
        after_event(session, event, registry).session.id == session.id,
        distinct_ids(after_event(session, event, registry).registry),
        after_close(session, registry).session.wf(),
        after_close(session, registry).session.id == session.id,
        distinct_ids(after_close(session, registry).registry),
{
    lemma_without_distinct(registry, session.id);
    if session.phase is Naming {
        if let EventView::Line(line) = event {
            let name = trimmed(line);
            let _ = lemma_trimmed(line);
            lemma_with_entry_distinct(
                registry,
                Entry { id: session.id, name, handle: session.handle->0 },
            );
        }
    }
}

/// A connection enters the registry in one way only: by a non-empty name in
/// `Naming`, under the session's identifier, with the trimmed name and the
/// session's handle. Every other event leaves the registry as it is.
pub proof fn lemma_registration<H>(
    session: SessionView<H>,
    event: EventView,
    registry: Seq<Entry<H>>,
)
    requires
        session.wf(),
        distinct_ids(registry),
    ensures
        ({
            let next = after_event(session, event, registry);
            if session.phase is Naming && next.session.phase is Active {
                &&& event is Line
                &&& next.session.name == trimmed(event->Line_0)
                &&& next.session.name.len() > 0
                &&& entry_of(next.registry, session.id) == Some(
                    Entry {
                        id: session.id,
                        name: next.session.name,
                        handle: session.handle->0,
                    },
                )
                &&& !has_id(registry, session.id) ==> next.registry == registry.push(
                    Entry {
                        id: session.id,
                        name: next.session.name,
                        handle: session.handle->0,
                    },
                )
            } else {
                next.registry == registry
            }
        }),
{
    if session.phase is Naming {
        if let EventView::Line(line) = event {
            let name = trimmed(line);
            lemma_with_entry_distinct(
                registry,
                Entry { id: session.id, name, handle: session.handle->0 },
            );
        }
    }
}

/// After `/quit`, the end of the stream or a read failure, an active session
/// is `Closing`; once it is closed, its entry is absent from the registry and
/// its departure has been announced exactly once, to all that remain. Closing
/// it again removes nothing and announces nothing.
pub proof fn lemma_departure_is_announced_once<H>(
    session: SessionView<H>,
    event: EventView,
    registry: Seq<Entry<H>>,
)
    requires
        session.phase is Active,
        ends_session(event),
    ensures
        ({
            let left = after_event(session, event, registry);
            let closed = after_close(left.session, left.registry);
            let again = after_close(closed.session, closed.registry);
            &&& left.session.phase is Closing
            &&& left.registry == registry
            &&& closed.session.phase is Closed
            &&& !has_id(closed.registry, session.id)
            &&& closed.registry == without(registry, session.id)
            &&& occurs_once(left.actions + closed.actions, departure_of(session))
            &&& forall|i: int|
                0 <= i < (left.actions + closed.actions).len() && (#[trigger] (left.actions
                    + closed.actions)[i]) is Broadcast ==> (left.actions + closed.actions)[i]
                    == departure_of(session)
            &&& others(closed.registry, Some(session.id)) == closed.registry
            &&& again == idle(closed.session, closed.registry)
        }),
{
    let left = after_event(session, event, registry);
    let closed = after_close(left.session, left.registry);
    let all = left.actions + closed.actions;
    let wanted = departure_of(session);
    lemma_without_has_id(registry, session.id, session.id);
    lemma_remove_is_idempotent(registry, session.id);
    let at: int = left.actions.len() as int + 1;
    assert(all[at] == closed.actions[1]);
    assert forall|i: int| 0 <= i < all.len() implies (all[i] == wanted ==> i == at) && ((
    #[trigger] all[i]) is Broadcast ==> all[i] == wanted) by {
        if i < left.actions.len() {
            assert(all[i] == left.actions[i]);
        } else {
            assert(all[i] == closed.actions[i - left.actions.len()]);
        }
    }
}

/// A line that is empty after trimming changes nothing and asks for
/// nothing: no broadcast, no log line, no reply.
pub proof fn lemma_blank_line_is_ignored<H>(
    session: SessionView<H>,
    line: Seq<char>,
    registry: Seq<Entry<H>>,
)
    requires
        session.phase is Active,
        trimmed(line).len() == 0,
    ensures
        after_event(session, EventView::Line(line), registry) == idle(session, registry),
        idle(session, registry).actions.len() == 0,
{
}

/// The reply to `/list` names every connection registered at that moment,
/// one name for each, in registry order, and nothing else; the registry and
/// the session stay as they are.
pub proof fn lemma_list_names_the_registered<H>(
    session: SessionView<H>,
    line: Seq<char>,
    registry: Seq<Entry<H>>,
)
    requires
        session.phase is Active,
        trimmed(line).len() > 0,
        command_of(trimmed(line)) == Command::List,
    ensures
        ({
            let next = after_event(session, EventView::Line(line), registry);
            &&& next.session == session
            &&& next.registry == registry
            &&& next.actions.len() == 2
            &&& next.actions[1] == ActionView::Send(users_text(names(registry)))
            &&& names(registry).len() == registry.len()
            &&& forall|i: int|
                0 <= i < registry.len() ==> names(registry)[i] == (#[trigger] registry[i]).name
        }),
{
}

/// The session of one connection.
pub struct Session<H> {
    id: ConnectionId,
    phase: Phase,
    name: String,
    handle: Option<H>,
}

impl<H> View for Session<H> {
    type V = SessionView<H>;

    closed spec fn view(&self) -> SessionView<H> {
        SessionView { id: self.id, phase: self.phase, name: self.name@, handle: self.handle }
    }
}

impl<H> Session<H> {
    /// Holds of every session: it is well formed.
    #[verifier::type_invariant]
    pub open spec fn sound(&self) -> bool {
        self@.wf()
    }

    /// Opens the session of a transport that was accepted from `peer`.
    /// `handle` is what the registry will hold to write to this connection.
    pub fn open(id: ConnectionId, peer: &str, handle: H) -> (opened: (Session<H>, Vec<Action>))
        ensures
            (opened.0@, opened.1.deep_view()) == opening(id, peer@, handle),
            opened.0@.wf(),
    {
        let session = Session {
            id,
            phase: Phase::Connecting,
            name: String::new(),
            handle: Some(handle),
        };
        let mut actions: Vec<Action> = Vec::new();
        actions.push(Action::Log(opened(id, peer)));
        actions.push(Action::Send(prompt()));
        assert(actions.deep_view() =~= opening(id, peer@, handle).1);
        (session, actions)
    }

    /// The identifier under which the connection is known.
    pub fn id(&self) -> (id: ConnectionId)
        ensures
            id == self@.id,
    {
        self.id
    }

    /// Where the session stands.
    pub fn phase(&self) -> (phase: Phase)
        ensures
            phase == self@.phase,
    {
        self.phase
    }

    /// The display name; empty until one has been accepted.
    pub fn name(&self) -> (name: &str)
        ensures
            name@ == self@.name,
    {
        self.name.as_str()
    }

    /// Takes an event and makes the transition it causes. The registry must
    /// be held exclusively for the call, and no longer.
    pub fn step(&mut self, event: Event, registry: &mut Registry<H>) -> (actions: Vec<Action>)
        ensures
            final(self)@ == after_event(old(self)@, event@, old(registry)@).session,
            final(registry)@ == after_event(old(self)@, event@, old(registry)@).registry,
            actions.deep_view() == after_event(old(self)@, event@, old(registry)@).actions,
            final(self)@.wf(),
            distinct_ids(final(registry)@),
    {
        let ghost next = after_event(self@, event@, registry@);
        proof {
            use_type_invariant(&*self);
            use_type_invariant(&*registry);
        }
        let mut actions: Vec<Action> = Vec::new();
        match self.phase {
            Phase::Connecting => match event {
                Event::PromptSent => {
                    self.phase = Phase::Naming;
                },
                Event::PromptFailed(error) => {
                    actions.push(Action::Log(prompt_failed(self.id, error.as_str())));
                    actions.push(Action::Close);
                    self.phase = Phase::Closed;
                },
                _ => {},
            },
            Phase::Naming => match event {
                Event::Line(line) => {
                    let name = trim(line.as_str());
                    if name.is_empty() {
                        actions.push(Action::Send(name_rejection()));
                        actions.push(Action::Close);
                        self.phase = Phase::Closed;
                    } else {
                        proof {
                            let _ = lemma_trimmed(line@);
                        }
                        self.name = String::from_str(name);
                        self.phase = Phase::Active;
                        let mut handle: Option<H> = None;
                        core::mem::swap(&mut self.handle, &mut handle);
                        match handle {
                            Some(handle) => {
                                registry.insert(self.id, String::from_str(name), handle);
                            },
                            None => {},
                        }
                        actions.push(Action::Send(welcome(name)));
                        actions.push(
                            Action::Broadcast { message: arrival(name), except: Some(self.id) },
                        );
                    }
                },
                Event::EndOfStream => {
                    actions.push(Action::Log(unnamed_close(self.id)));
                    actions.push(Action::Close);
                    self.phase = Phase::Closed;
                },
                Event::ReadFailed(error) => {
                    actions.push(Action::Log(name_read_failed(self.id, error.as_str())));
                    actions.push(Action::Close);
                    self.phase = Phase::Closed;
                },
                _ => {},
            },
            Phase::Active => match event {
                Event::Line(line) => {
                    let text = trim(line.as_str());
                    if !text.is_empty() {
                        actions.push(Action::Log(message(self.name.as_str(), self.id, text)));
                        match parse_command(text) {
                            Command::Quit => {
                                actions.push(Action::Send(farewell()));
                                self.phase = Phase::Closing;
                            },
                            Command::List => {
                                let listed = registry.list_names();
                                actions.push(Action::Send(users(&listed)));
                            },
                            Command::Say => {
                                actions.push(
                                    Action::Broadcast {
                                        message: chat(self.name.as_str(), text),
                                        except: None,
                                    },
                                );
                            },
                        }
                    }
                },
                Event::EndOfStream => {
                    self.phase = Phase::Closing;
                },
                Event::ReadFailed(error) => {
                    actions.push(
                        Action::Log(read_failed(self.name.as_str(), self.id, error.as_str())),
                    );
                    self.phase = Phase::Closing;
                },
                _ => {},
            },
            Phase::Closing => {},
            Phase::Closed => {},
        }
        assert(actions.deep_view() =~= next.actions);
        actions
    }

    /// Carries out the departure of a session in `Closing`. The registry
    /// must be held exclusively for the call, and no longer.
    pub fn close(&mut self, registry: &mut Registry<H>) -> (actions: Vec<Action>)
        ensures
            final(self)@ == after_close(old(self)@, old(registry)@).session,
            final(registry)@ == after_close(old(self)@, old(registry)@).registry,
            actions.deep_view() == after_close(old(self)@, old(registry)@).actions,
            final(self)@.wf(),
            distinct_ids(final(registry)@),
    {
        let ghost next = after_close(self@, registry@);
        proof {
            use_type_invariant(&*self);
            use_type_invariant(&*registry);
        }
        let mut actions: Vec<Action> = Vec::new();
        match self.phase {
            Phase::Closing => {
                let _ = registry.remove(self.id);
                actions.push(Action::Log(disconnected(self.name.as_str(), self.id)));
                actions.push(
                    Action::Broadcast {
                        message: departure(self.name.as_str()),
                        except: Some(self.id),
                    },
                );
                actions.push(Action::Close);
                self.phase = Phase::Closed;
            },
            _ => {},
        }
        assert(actions.deep_view() =~= next.actions);
        actions
    }
}

} // verus!
