use chippy::console::{database_key_bytes, is_space_char, trim, Console, ConsoleAction, Notice};
use chippy::swarm_dispatch::SwarmCommand;

fn send(c: SwarmCommand) -> ConsoleAction {
    ConsoleAction::Send(c)
}

#[test]
fn white_space_is_what_the_standard_library_says() {
    let mut c = 0u32;
    while c <= 0x10ffff {
        if let Some(ch) = char::from_u32(c) {
            assert_eq!(is_space_char(ch), ch.is_whitespace(), "U+{:04X}", c);
        }
        c += 1;
    }
}

#[test]
fn trim_agrees_with_the_standard_library() {
    let samples = [
        "",
        " ",
        "\t\n ",
        "exit",
        "  exit",
        "exit\r\n",
        " get providers a b ",
        "\u{a0}dial x\u{3000}",
        "a \u{2003} b",
        " \u{1f4d3} ",
    ];
    for s in samples {
        assert_eq!(trim(s), s.trim());
    }
}

#[test]
fn quit_words() {
    let mut c = Console::new();
    for line in ["exit", "quit", "q", "  q\n"] {
        assert_eq!(c.interpret(line), ConsoleAction::Quit);
    }
    assert_eq!(
        c.interpret("quit now"),
        ConsoleAction::Say(Notice::Unknown("quit now".to_string()))
    );
}

#[test]
fn promote_and_demote_alternate() {
    let mut c = Console::new();
    assert!(!c.is_db_provider);
    // stop without a prior begin is a safe no-op
    assert_eq!(c.interpret("demote db"), ConsoleAction::Say(Notice::NotProvider));
    assert!(!c.is_db_provider);
    assert_eq!(c.interpret("promote db"), send(SwarmCommand::BeginProviderRole(b"db".to_vec())));
    assert!(c.is_db_provider);
    assert_eq!(c.interpret(" promote db "), ConsoleAction::Say(Notice::AlreadyProvider));
    assert!(c.is_db_provider);
    assert_eq!(c.interpret("demote db"), send(SwarmCommand::StopProviderRole(b"db".to_vec())));
    assert!(!c.is_db_provider);
    assert_eq!(c.interpret("demote db"), ConsoleAction::Say(Notice::NotProvider));
    assert_eq!(database_key_bytes(), b"db".to_vec());
}

#[test]
fn provider_lookup() {
    let mut c = Console::new();
    assert_eq!(
        c.interpret("get providers db"),
        send(SwarmCommand::FindProviders(b"db".to_vec()))
    );
    assert_eq!(
        c.interpret("get providers a b  c"),
        send(SwarmCommand::FindProviders(b"a b  c".to_vec()))
    );
    assert_eq!(
        c.interpret("get providers n\u{f6}tes"),
        send(SwarmCommand::FindProviders("n\u{f6}tes".as_bytes().to_vec()))
    );
    // without a key the line is a test read of the key "providers"
    assert_eq!(
        c.interpret("get providers "),
        send(SwarmCommand::GetTestValue("providers".to_string()))
    );
}

#[test]
fn dialling() {
    let mut c = Console::new();
    assert_eq!(c.interpret("dial 12D3Koo"), ConsoleAction::DialThroughRelay("12D3Koo".to_string()));
    assert_eq!(c.interpret("dial  x y"), ConsoleAction::DialThroughRelay(" x y".to_string()));
    assert_eq!(c.interpret("dial"), ConsoleAction::Say(Notice::UsageDial));
    assert_eq!(c.interpret("dialling"), ConsoleAction::Say(Notice::UsageDial));
    assert_eq!(c.interpret("dial_id 12D3Koo"), ConsoleAction::DialPeer("12D3Koo".to_string()));
    assert_eq!(c.interpret("dial_id"), ConsoleAction::Say(Notice::UsageDialId));
}

#[test]
fn connections_and_test_values() {
    let mut c = Console::new();
    assert_eq!(c.interpret("connections"), send(SwarmCommand::ListConnections));
    assert_eq!(c.interpret("connections please"), send(SwarmCommand::ListConnections));
    assert_eq!(
        c.interpret("put colour deep blue"),
        send(SwarmCommand::PutTestValue("colour".to_string(), "deep blue".to_string()))
    );
    assert_eq!(c.interpret("put colour"), ConsoleAction::Say(Notice::UsagePut));
    assert_eq!(
        c.interpret("get colour"),
        send(SwarmCommand::GetTestValue("colour".to_string()))
    );
}

#[test]
fn unknown_lines_are_told() {
    let mut c = Console::new();
    assert_eq!(c.interpret(""), ConsoleAction::Say(Notice::Unknown(String::new())));
    assert_eq!(c.interpret("  help "), ConsoleAction::Say(Notice::Unknown("help".to_string())));
    assert_eq!(c.interpret("Exit"), ConsoleAction::Say(Notice::Unknown("Exit".to_string())));
    assert_eq!(c.interpret("put"), ConsoleAction::Say(Notice::Unknown("put".to_string())));
}
