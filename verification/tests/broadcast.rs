use chat_relay::broadcast::Broadcast;
use chat_relay::registry::Registry;
use std::cell::RefCell;
use std::rc::Rc;

struct Wire {
    received: String,
    broken: bool,
}

type Handle = Rc<RefCell<Wire>>;

fn wire(broken: bool) -> Handle {
    Rc::new(RefCell::new(Wire { received: String::new(), broken }))
}

fn write(handle: &Handle, text: &str) -> Result<(), String> {
    let mut wire = handle.borrow_mut();
    if wire.broken {
        Err("Broken pipe (os error 32)".to_string())
    } else {
        wire.received.push_str(text);
        Ok(())
    }
}

/// Runs one whole broadcast and returns the lines it logged.
fn run(registry: &mut Registry<Handle>, message: &str, except: Option<u64>) -> Vec<String> {
    let mut log = Vec::new();
    let mut broadcast = Broadcast::begin(registry, message.to_string(), except);
    loop {
        let outcome = match broadcast.pending() {
            Some(recipient) => write(&recipient.handle, broadcast.message()),
            None => break,
        };
        if let Some(line) = broadcast.record(outcome) {
            log.push(line);
        }
    }
    log.extend(broadcast.finish(registry));
    log
}

fn three(broken: [bool; 3]) -> (Registry<Handle>, [Handle; 3]) {
    let handles = [wire(broken[0]), wire(broken[1]), wire(broken[2])];
    let mut registry = Registry::new();
    registry.insert(1, "alice".to_string(), handles[0].clone());
    registry.insert(2, "bob".to_string(), handles[1].clone());
    registry.insert(3, "carol".to_string(), handles[2].clone());
    (registry, handles)
}

#[test]
fn broadcast_reaches_everyone_when_nobody_is_excluded() {
    let (mut registry, handles) = three([false, false, false]);
    let log = run(&mut registry, "bob: hello\n", None);
    assert!(log.is_empty());
    for handle in &handles {
        assert_eq!(handle.borrow().received, "bob: hello\n");
    }
    assert_eq!(registry.len(), 3);
}

#[test]
fn broadcast_never_reaches_the_excluded_connection() {
    let (mut registry, handles) = three([false, false, false]);
    let log = run(&mut registry, "[SERVER] bob has joined\n", Some(2));
    assert!(log.is_empty());
    assert_eq!(handles[0].borrow().received, "[SERVER] bob has joined\n");
    assert_eq!(handles[1].borrow().received, "");
    assert_eq!(handles[2].borrow().received, "[SERVER] bob has joined\n");
}

#[test]
fn each_recipient_is_written_to_once_in_registry_order() {
    let (registry, _handles) = three([false, false, false]);
    let mut broadcast = Broadcast::begin(&registry, "x\n".to_string(), Some(1));
    assert_eq!(broadcast.message(), "x\n");
    let mut turns = Vec::new();
    while let Some(id) = broadcast.pending().map(|recipient| recipient.id) {
        turns.push(id);
        assert_eq!(broadcast.record(Ok(())), None);
    }
    assert_eq!(turns, vec![2, 3]);
    assert!(broadcast.pending().is_none());
    assert_eq!(broadcast.record(Ok(())), None);
    assert_eq!(broadcast.record(Err("late".to_string())), None);
    assert!(broadcast.pending().is_none());
}

#[test]
fn a_failed_write_does_not_keep_the_others_from_delivery() {
    let (mut registry, handles) = three([true, false, false]);
    let log = run(&mut registry, "carol: hi\n", None);
    assert_eq!(handles[0].borrow().received, "");
    assert_eq!(handles[1].borrow().received, "carol: hi\n");
    assert_eq!(handles[2].borrow().received, "carol: hi\n");
    assert_eq!(
        log,
        vec![
            "Ошибка отправки alice(id=1) : Broken pipe (os error 32)",
            "[SERVER] alice (id=1) disconnected (write error)",
        ]
    );
}

#[test]
fn connections_whose_write_failed_are_removed() {
    let (mut registry, _handles) = three([false, true, true]);
    let log = run(&mut registry, "alice: hi\n", None);
    assert_eq!(registry.len(), 1);
    assert!(registry.contains(1));
    assert!(!registry.contains(2));
    assert!(!registry.contains(3));
    assert_eq!(
        log,
        vec![
            "Ошибка отправки bob(id=2) : Broken pipe (os error 32)",
            "Ошибка отправки carol(id=3) : Broken pipe (os error 32)",
            "[SERVER] bob (id=2) disconnected (write error)",
            "[SERVER] carol (id=3) disconnected (write error)",
        ]
    );
}

#[test]
fn the_registry_is_untouched_until_the_broadcast_is_finished() {
    let (mut registry, _handles) = three([true, false, false]);
    let mut broadcast = Broadcast::begin(&registry, "x\n".to_string(), None);
    let line = broadcast.record(Err("Broken pipe (os error 32)".to_string()));
    assert_eq!(line.as_deref(), Some("Ошибка отправки alice(id=1) : Broken pipe (os error 32)"));
    assert_eq!(broadcast.record(Ok(())), None);
    assert_eq!(broadcast.record(Ok(())), None);
    assert_eq!(registry.len(), 3);
    let notices = broadcast.finish(&mut registry);
    assert_eq!(notices, vec!["[SERVER] alice (id=1) disconnected (write error)"]);
    assert_eq!(registry.list_names(), vec!["bob", "carol"]);
}

#[test]
fn a_connection_that_left_meanwhile_gives_no_notice() {
    let (mut registry, _handles) = three([false, true, false]);
    let mut broadcast = Broadcast::begin(&registry, "x\n".to_string(), None);
    assert_eq!(broadcast.record(Ok(())), None);
    assert!(broadcast.record(Err("Broken pipe (os error 32)".to_string())).is_some());
    assert_eq!(broadcast.record(Ok(())), None);
    assert!(registry.remove(2).is_some());
    let notices = broadcast.finish(&mut registry);
    assert!(notices.is_empty());
    assert_eq!(registry.list_names(), vec!["alice", "carol"]);
}

#[test]
fn a_connection_that_joined_meanwhile_is_not_reached() {
    let (mut registry, handles) = three([false, false, false]);
    let mut broadcast = Broadcast::begin(&registry, "x\n".to_string(), None);
    let late = wire(false);
    registry.insert(4, "dave".to_string(), late.clone());
    loop {
        let outcome = match broadcast.pending() {
            Some(recipient) => write(&recipient.handle, broadcast.message()),
            None => break,
        };
        let _ = broadcast.record(outcome);
    }
    assert!(broadcast.finish(&mut registry).is_empty());
    assert_eq!(late.borrow().received, "");
    assert_eq!(handles[2].borrow().received, "x\n");
    assert_eq!(registry.len(), 4);
}

#[test]
fn broadcast_to_an_empty_registry_does_nothing() {
    let mut registry: Registry<Handle> = Registry::new();
    assert!(run(&mut registry, "x\n", None).is_empty());
    assert!(run(&mut registry, "x\n", Some(1)).is_empty());
    assert_eq!(registry.len(), 0);
}
