use chat_relay::protocol::{
    arrival, chat, departure, farewell, name_rejection, parse_command, prompt, users, welcome,
    Command,
};

#[test]
fn prompt_has_no_newline() {
    assert_eq!(prompt(), "Enter your name: ");
}

#[test]
fn empty_name_is_rejected_with_a_line() {
    assert_eq!(name_rejection(), "Name cannot be empty\n");
}

#[test]
fn welcome_names_the_commands() {
    assert_eq!(
        welcome("alice"),
        "[SERVER] Welcome, alice! Use /quit to exit, /list to see users\n"
    );
}

#[test]
fn arrival_and_departure_lines() {
    assert_eq!(arrival("bob"), "[SERVER] bob has joined\n");
    assert_eq!(departure("bob"), "[SERVER] bob has left\n");
}

#[test]
fn farewell_line() {
    assert_eq!(farewell(), "[SERVER] Bye\n");
}

#[test]
fn users_line_is_comma_separated() {
    let names = vec!["alice".to_string(), "bob".to_string()];
    assert_eq!(users(&names), "[SERVER] Users: alice, bob\n");
    assert_eq!(users(&vec!["alice".to_string()]), "[SERVER] Users: alice\n");
    assert_eq!(users(&Vec::new()), "[SERVER] Users: \n");
}

#[test]
fn chat_line_carries_the_sender() {
    assert_eq!(chat("bob", "hello"), "bob: hello\n");
    assert_eq!(chat("bob", "a: b"), "bob: a: b\n");
}

#[test]
fn commands_are_matched_without_regard_to_ascii_case() {
    assert_eq!(parse_command("/quit"), Command::Quit);
    assert_eq!(parse_command("/QUIT"), Command::Quit);
    assert_eq!(parse_command("/Quit"), Command::Quit);
    assert_eq!(parse_command("/list"), Command::List);
    assert_eq!(parse_command("/LiSt"), Command::List);
}

#[test]
fn everything_else_is_said() {
    assert_eq!(parse_command("hello"), Command::Say);
    assert_eq!(parse_command("/quit now"), Command::Say);
    assert_eq!(parse_command("quit"), Command::Say);
    assert_eq!(parse_command("/lists"), Command::Say);
    assert_eq!(parse_command("/help"), Command::Say);
}
