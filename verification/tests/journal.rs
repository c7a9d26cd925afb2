use chat_relay::journal::{
    accept_failed, disconnected, message, name_read_failed, opened, prompt_failed, pruned,
    read_failed, send_failed, unnamed_close,
};

#[test]
fn connection_is_logged_with_identifier_and_peer() {
    assert_eq!(opened(1, "127.0.0.1:50000"), "New connection: id=1 peer=127.0.0.1:50000");
    assert_eq!(opened(42, "?"), "New connection: id=42 peer=?");
}

#[test]
fn naming_failures_are_logged() {
    assert_eq!(
        prompt_failed(3, "Broken pipe (os error 32)"),
        "Failed to prompt name for id=3 : Broken pipe (os error 32)"
    );
    assert_eq!(unnamed_close(4), "Client id=4 closed before sending name");
    assert_eq!(
        name_read_failed(5, "stream did not contain valid UTF-8"),
        "Error reading name from id=5 : stream did not contain valid UTF-8"
    );
}

#[test]
fn received_lines_are_logged_with_their_sender() {
    assert_eq!(message("bob", 2, "hello"), "Message from bob (id=2): hello");
    assert_eq!(message("bob", 120, "/list"), "Message from bob (id=120): /list");
}

#[test]
fn read_failure_is_logged_with_the_name() {
    assert_eq!(
        read_failed("alice", 1, "Connection reset by peer (os error 104)"),
        "Error reading from alice (id=1): Connection reset by peer (os error 104)"
    );
}

#[test]
fn disconnects_are_logged() {
    assert_eq!(disconnected("bob", 2), "[SERVER] bob (id=2) disconnected");
    assert_eq!(pruned("bob", 2), "[SERVER] bob (id=2) disconnected (write error)");
}

#[test]
fn failed_write_is_logged() {
    assert_eq!(
        send_failed("bob", 2, "Broken pipe (os error 32)"),
        "Ошибка отправки bob(id=2) : Broken pipe (os error 32)"
    );
}

#[test]
fn accept_error_is_logged() {
    assert_eq!(accept_failed("Too many open files"), "Accept error: Too many open files");
}

#[test]
fn identifiers_are_written_in_decimal() {
    assert_eq!(
        unnamed_close(18446744073709551615),
        "Client id=18446744073709551615 closed before sending name"
    );
    assert_eq!(unnamed_close(1000), "Client id=1000 closed before sending name");
}
