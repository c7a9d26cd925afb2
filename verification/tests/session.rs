use chat_relay::registry::Registry;
use chat_relay::session::{Action, Event, Phase, Session};

fn log(line: &str) -> Action {
    Action::Log(line.to_string())
}

fn send(text: &str) -> Action {
    Action::Send(text.to_string())
}

fn broadcast(message: &str, except: Option<u64>) -> Action {
    Action::Broadcast { message: message.to_string(), except }
}

fn line(text: &str) -> Event {
    Event::Line(text.to_string())
}

/// A session that has been named `name` and is registered under `id`.
fn active(registry: &mut Registry<u32>, id: u64, name: &str) -> Session<u32> {
    let (mut session, _) = Session::open(id, "peer", 0);
    let _ = session.step(Event::PromptSent, registry);
    let _ = session.step(line(name), registry);
    assert_eq!(session.phase(), Phase::Active);
    session
}

#[test]
fn open_logs_the_connection_and_prompts() {
    let (session, actions): (Session<u32>, _) = Session::open(7, "10.0.0.1:4000", 0);
    assert_eq!(session.phase(), Phase::Connecting);
    assert_eq!(session.id(), 7);
    assert_eq!(session.name(), "");
    assert_eq!(
        actions,
        vec![log("New connection: id=7 peer=10.0.0.1:4000"), send("Enter your name: ")]
    );
}

#[test]
fn sent_prompt_leads_to_naming() {
    let mut registry = Registry::new();
    let (mut session, _) = Session::open(1, "peer", 0u32);
    assert!(session.step(Event::PromptSent, &mut registry).is_empty());
    assert_eq!(session.phase(), Phase::Naming);
    assert_eq!(registry.len(), 0);
}

#[test]
fn failed_prompt_closes_without_registering() {
    let mut registry = Registry::new();
    let (mut session, _) = Session::open(1, "peer", 0u32);
    let actions = session.step(Event::PromptFailed("Broken pipe".to_string()), &mut registry);
    assert_eq!(actions, vec![log("Failed to prompt name for id=1 : Broken pipe"), Action::Close]);
    assert_eq!(session.phase(), Phase::Closed);
    assert_eq!(registry.len(), 0);
}

#[test]
fn name_is_trimmed_and_registered() {
    let mut registry = Registry::new();
    let (mut session, _) = Session::open(1, "peer", 5u32);
    let _ = session.step(Event::PromptSent, &mut registry);
    let actions = session.step(line("  alice \r\n"), &mut registry);
    assert_eq!(
        actions,
        vec![
            send("[SERVER] Welcome, alice! Use /quit to exit, /list to see users\n"),
            broadcast("[SERVER] alice has joined\n", Some(1)),
        ]
    );
    assert_eq!(session.phase(), Phase::Active);
    assert_eq!(session.name(), "alice");
    assert_eq!(registry.list_names(), vec!["alice"]);
    let copies = registry.snapshot(None);
    assert_eq!((copies[0].id, copies[0].handle), (1, 5));
}

#[test]
fn empty_name_is_rejected() {
    for blank in ["\n", "   \r\n", "", "\t"] {
        let mut registry = Registry::new();
        let (mut session, _) = Session::open(1, "peer", 0u32);
        let _ = session.step(Event::PromptSent, &mut registry);
        let actions = session.step(line(blank), &mut registry);
        assert_eq!(actions, vec![send("Name cannot be empty\n"), Action::Close]);
        assert_eq!(session.phase(), Phase::Closed);
        assert_eq!(registry.len(), 0);
    }
}

#[test]
fn close_before_name_is_logged() {
    let mut registry = Registry::new();
    let (mut session, _) = Session::open(3, "peer", 0u32);
    let _ = session.step(Event::PromptSent, &mut registry);
    let actions = session.step(Event::EndOfStream, &mut registry);
    assert_eq!(actions, vec![log("Client id=3 closed before sending name"), Action::Close]);
    assert_eq!(session.phase(), Phase::Closed);
    assert_eq!(registry.len(), 0);
}

#[test]
fn read_failure_before_name_is_logged() {
    let mut registry = Registry::new();
    let (mut session, _) = Session::open(3, "peer", 0u32);
    let _ = session.step(Event::PromptSent, &mut registry);
    let actions = session.step(Event::ReadFailed("reset".to_string()), &mut registry);
    assert_eq!(actions, vec![log("Error reading name from id=3 : reset"), Action::Close]);
    assert_eq!(session.phase(), Phase::Closed);
    assert_eq!(registry.len(), 0);
}

#[test]
fn chat_line_is_logged_and_broadcast_to_all() {
    let mut registry = Registry::new();
    let mut session = active(&mut registry, 2, "bob");
    let actions = session.step(line(" hello \n"), &mut registry);
    assert_eq!(
        actions,
        vec![log("Message from bob (id=2): hello"), broadcast("bob: hello\n", None)]
    );
    assert_eq!(session.phase(), Phase::Active);
}

#[test]
fn blank_line_is_a_no_op() {
    let mut registry = Registry::new();
    let mut session = active(&mut registry, 2, "bob");
    for blank in ["\n", "\r\n", "", "  \t \n", "\u{3000}\n"] {
        assert!(session.step(line(blank), &mut registry).is_empty());
        assert_eq!(session.phase(), Phase::Active);
        assert_eq!(session.name(), "bob");
        assert_eq!(registry.list_names(), vec!["bob"]);
    }
}

#[test]
fn list_is_answered_privately() {
    let mut registry = Registry::new();
    let _alice = active(&mut registry, 1, "alice");
    let mut bob = active(&mut registry, 2, "bob");
    let actions = bob.step(line("/LIST\n"), &mut registry);
    assert_eq!(
        actions,
        vec![log("Message from bob (id=2): /LIST"), send("[SERVER] Users: alice, bob\n")]
    );
    assert_eq!(bob.phase(), Phase::Active);
    assert_eq!(registry.len(), 2);
}

#[test]
fn list_names_nobody_who_has_left() {
    let mut registry = Registry::new();
    let mut alice = active(&mut registry, 1, "alice");
    let mut bob = active(&mut registry, 2, "bob");
    let _carol = active(&mut registry, 3, "carol");
    let _ = alice.step(Event::EndOfStream, &mut registry);
    let _ = alice.close(&mut registry);
    let actions = bob.step(line("/list\n"), &mut registry);
    assert_eq!(actions[1], send("[SERVER] Users: bob, carol\n"));
}

#[test]
fn quit_is_answered_and_leads_to_closing() {
    let mut registry = Registry::new();
    let mut session = active(&mut registry, 2, "bob");
    let actions = session.step(line("/Quit\n"), &mut registry);
    assert_eq!(actions, vec![log("Message from bob (id=2): /Quit"), send("[SERVER] Bye\n")]);
    assert_eq!(session.phase(), Phase::Closing);
    assert!(registry.contains(2));
}

#[test]
fn end_of_stream_leads_to_closing() {
    let mut registry = Registry::new();
    let mut session = active(&mut registry, 2, "bob");
    assert!(session.step(Event::EndOfStream, &mut registry).is_empty());
    assert_eq!(session.phase(), Phase::Closing);
}

#[test]
fn read_failure_is_logged_and_leads_to_closing() {
    let mut registry = Registry::new();
    let mut session = active(&mut registry, 2, "bob");
    let actions = session.step(Event::ReadFailed("reset".to_string()), &mut registry);
    assert_eq!(actions, vec![log("Error reading from bob (id=2): reset")]);
    assert_eq!(session.phase(), Phase::Closing);
}

#[test]
fn close_removes_the_entry_and_announces_the_departure() {
    let mut registry = Registry::new();
    let _alice = active(&mut registry, 1, "alice");
    let mut bob = active(&mut registry, 2, "bob");
    let _ = bob.step(line("/quit\n"), &mut registry);
    let actions = bob.close(&mut registry);
    assert_eq!(
        actions,
        vec![
            log("[SERVER] bob (id=2) disconnected"),
            broadcast("[SERVER] bob has left\n", Some(2)),
            Action::Close,
        ]
    );
    assert_eq!(bob.phase(), Phase::Closed);
    assert!(!registry.contains(2));
    assert_eq!(registry.list_names(), vec!["alice"]);
}

#[test]
fn closing_twice_announces_once() {
    let mut registry = Registry::new();
    let mut bob = active(&mut registry, 2, "bob");
    let _ = bob.step(Event::EndOfStream, &mut registry);
    assert_eq!(bob.close(&mut registry).len(), 3);
    assert!(bob.close(&mut registry).is_empty());
    assert!(bob.close(&mut registry).is_empty());
    assert_eq!(bob.phase(), Phase::Closed);
    assert_eq!(registry.len(), 0);
}

#[test]
fn close_after_the_entry_was_pruned_still_announces_once() {
    let mut registry = Registry::new();
    let mut bob = active(&mut registry, 2, "bob");
    assert!(registry.remove(2).is_some());
    let _ = bob.step(Event::ReadFailed("reset".to_string()), &mut registry);
    let actions = bob.close(&mut registry);
    assert_eq!(actions[1], broadcast("[SERVER] bob has left\n", Some(2)));
    assert_eq!(registry.len(), 0);
    assert!(bob.close(&mut registry).is_empty());
}

#[test]
fn close_does_nothing_before_closing() {
    let mut registry = Registry::new();
    let (mut fresh, _) = Session::open(1, "peer", 0u32);
    assert!(fresh.close(&mut registry).is_empty());
    assert_eq!(fresh.phase(), Phase::Connecting);
    let mut bob = active(&mut registry, 2, "bob");
    assert!(bob.close(&mut registry).is_empty());
    assert_eq!(bob.phase(), Phase::Active);
    assert!(registry.contains(2));
}

#[test]
fn events_that_are_not_awaited_are_ignored() {
    let mut registry = Registry::new();
    let (mut session, _) = Session::open(1, "peer", 0u32);
    assert!(session.step(line("alice\n"), &mut registry).is_empty());
    assert!(session.step(Event::EndOfStream, &mut registry).is_empty());
    assert_eq!(session.phase(), Phase::Connecting);
    let _ = session.step(Event::PromptSent, &mut registry);
    assert!(session.step(Event::PromptSent, &mut registry).is_empty());
    assert!(session.step(Event::PromptFailed("late".to_string()), &mut registry).is_empty());
    assert_eq!(session.phase(), Phase::Naming);
    let _ = session.step(line("alice\n"), &mut registry);
    assert!(session.step(Event::PromptSent, &mut registry).is_empty());
    assert_eq!(session.phase(), Phase::Active);
    let _ = session.step(Event::EndOfStream, &mut registry);
    assert!(session.step(line("hello\n"), &mut registry).is_empty());
    assert_eq!(session.phase(), Phase::Closing);
    let _ = session.close(&mut registry);
    assert!(session.step(line("hello\n"), &mut registry).is_empty());
    assert_eq!(session.phase(), Phase::Closed);
}
