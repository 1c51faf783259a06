use artichoke::commands::{
    parse_command, read_command, Command, Session, SessionAction, SessionEvent,
};

fn typed(line: &str) -> SessionEvent {
    SessionEvent::Typed { line: line.to_string() }
}

#[test]
fn commands_are_read_from_lines() {
    assert!(matches!(read_command("!uploads\n"), Command::Uploads));
    assert!(matches!(read_command("  !share\r\n"), Command::Share));
    assert!(matches!(read_command("quit"), Command::Quit));
    assert!(matches!(read_command("exit\n"), Command::Quit));
}

#[test]
fn files_are_asked_for_by_hash() {
    for line in ["!get abc\n", "!get   abc  ", "\t!get abc"] {
        match read_command(line) {
            Command::Get { hash } => assert_eq!(hash, "abc"),
            other => panic!("{:?}", other),
        }
    }
    match read_command("!get a b") {
        Command::Get { hash } => assert_eq!(hash, "a b"),
        other => panic!("{:?}", other),
    }
}

#[test]
fn a_get_without_hash() {
    assert!(matches!(parse_command("!get "), Command::GetNothing));
    assert!(matches!(parse_command("!get  \t"), Command::GetNothing));
    match read_command("!get   \n") {
        Command::Unknown { text } => assert_eq!(text, "!get"),
        other => panic!("{:?}", other),
    }
}

#[test]
fn capital_letters_matter() {
    for line in ["!Uploads", "!SHARE", "Quit", "!getabc", "uploads", "!uploads now", ""] {
        match read_command(line) {
            Command::Unknown { text } => assert_eq!(text, line),
            other => panic!("{:?}", other),
        }
    }
}

#[test]
fn a_session_acts_on_commands() {
    let mut session = Session::new();
    assert!(matches!(session.step(typed("!uploads\n")), SessionAction::ListUploads));
    assert!(matches!(session.step(typed("quit\n")), SessionAction::Leave));
    match session.step(typed("!get xyz\n")) {
        SessionAction::Download { hash } => assert_eq!(hash, "xyz"),
        other => panic!("{:?}", other),
    }
    match session.step(typed("hello\n")) {
        SessionAction::Complain { text } => assert_eq!(text, "Unknown command: hello"),
        other => panic!("{:?}", other),
    }
}

#[test]
fn sharing_is_started_once() {
    let mut session = Session::new();
    assert!(matches!(session.step(typed("!share\n")), SessionAction::StartSharing));
    let done = SessionEvent::ShareAttempted { done: true };
    assert!(matches!(session.step(done), SessionAction::Prompt));
    session.step(typed("!uploads\n"));
    assert!(matches!(session.step(typed("!share\n")), SessionAction::RefuseSharing));
    session.step(SessionEvent::ShareAttempted { done: false });
    assert!(matches!(session.step(typed("!share\n")), SessionAction::RefuseSharing));
}

#[test]
fn failed_sharing_can_be_retried() {
    let mut session = Session::new();
    for _ in 0..3 {
        assert!(matches!(session.step(typed("!share\n")), SessionAction::StartSharing));
        session.step(SessionEvent::ShareAttempted { done: false });
    }
}
