use chat_relay::acceptor::{on_accept, Admission};
use chat_relay::ids::{IdAllocator, FIRST_ID};

#[test]
fn identifiers_start_at_one_and_rise() {
    let mut ids = IdAllocator::new();
    assert_eq!(FIRST_ID, 1);
    let mut last = 0;
    for expected in 1..=1000u64 {
        let id = ids.issue().expect("an identifier");
        assert_eq!(id, expected);
        assert!(id > last);
        last = id;
    }
}

#[test]
fn accepted_transport_is_served_under_the_next_identifier() {
    let mut ids = IdAllocator::new();
    assert_eq!(on_accept(&mut ids, Ok(())), Admission::Serve(1));
    assert_eq!(on_accept(&mut ids, Ok(())), Admission::Serve(2));
    assert_eq!(on_accept(&mut ids, Ok(())), Admission::Serve(3));
}

#[test]
fn failed_accept_is_logged_and_uses_no_identifier() {
    let mut ids = IdAllocator::new();
    assert_eq!(on_accept(&mut ids, Ok(())), Admission::Serve(1));
    assert_eq!(
        on_accept(&mut ids, Err("Too many open files (os error 24)".to_string())),
        Admission::Skip("Accept error: Too many open files (os error 24)".to_string())
    );
    assert_eq!(
        on_accept(&mut ids, Err("Connection aborted".to_string())),
        Admission::Skip("Accept error: Connection aborted".to_string())
    );
    assert_eq!(on_accept(&mut ids, Ok(())), Admission::Serve(2));
}
