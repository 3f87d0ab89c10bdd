use pty_sandbox::pty::close_session;
use pty_sandbox::pty::create_session_plan;
use pty_sandbox::pty::choose_shell;
use pty_sandbox::pty::event_name;
use pty_sandbox::pty::lookup_session;
use pty_sandbox::pty::not_found_message;
use pty_sandbox::pty::relay_step;
use pty_sandbox::pty::split_whitespace_parts;
use pty_sandbox::pty::ReadEvent;
use pty_sandbox::pty::RelayAction;
use pty_sandbox::registry::SessionRegistry;

#[test]
fn whitespace_splitting_matches_the_standard_splitter() {
    assert_eq!(split_whitespace_parts("echo hi"), vec!["echo", "hi"]);
    assert_eq!(split_whitespace_parts("  a \t b  "), vec!["a", "b"]);
    assert_eq!(split_whitespace_parts(""), Vec::<String>::new());
    assert_eq!(split_whitespace_parts("   "), Vec::<String>::new());
    // Non-ASCII whitespace separates words as well.
    assert_eq!(split_whitespace_parts("a\u{00A0}b"), vec!["a", "b"]);
}

#[test]
fn session_plan_splits_command() {
    let plan = create_session_plan("/tmp".to_string(), Some("htop --delay 10"), None)
        .expect("a non-empty command yields a plan");
    assert_eq!(plan.program, "htop");
    assert_eq!(plan.args, vec!["--delay", "10"]);
    assert_eq!(plan.cwd, "/tmp");
    assert_eq!((plan.rows, plan.cols), (24, 80));
}

#[test]
fn session_plan_falls_back_to_shell() {
    let plan = create_session_plan("/tmp".to_string(), None, Some("/bin/bash".to_string()))
        .expect("no command means the configured shell");
    assert_eq!(plan.program, "/bin/bash");
    assert!(plan.args.is_empty());

    let plan = create_session_plan("/tmp".to_string(), None, None).unwrap();
    assert_eq!(plan.program, "/bin/zsh");
    assert_eq!(choose_shell(None), "/bin/zsh");
    assert_eq!(choose_shell(Some("/bin/sh".to_string())), "/bin/sh");
}

#[test]
fn session_plan_refuses_blank_command() {
    assert!(create_session_plan("/tmp".to_string(), Some("   "), None).is_none());
    assert!(create_session_plan("/tmp".to_string(), Some(""), None).is_none());
}

#[test]
fn registry_lookup_and_close() {
    let mut reg: SessionRegistry<u64> = SessionRegistry::new();
    reg.insert("s1", 11);
    reg.insert("s2", 22);
    assert_eq!(lookup_session(&reg, "s1").copied(), Ok(11));
    assert_eq!(lookup_session(&reg, "s2").copied(), Ok(22));
    assert_eq!(close_session(&mut reg, "s1"), Ok(11));
    // Close is strict, not idempotent: the second close is an error.
    assert_eq!(
        close_session(&mut reg, "s1"),
        Err("PTY session not found: s1".to_string())
    );
    // The other session is untouched.
    assert_eq!(lookup_session(&reg, "s2").copied(), Ok(22));
}

#[test]
fn resize_of_unknown_session_reports_not_found() {
    // A resize request starts with the same lookup as a write; on an
    // unknown identifier it returns the not-found error and touches
    // nothing.
    let reg: SessionRegistry<u64> = SessionRegistry::new();
    let r = lookup_session(&reg, "unknown-id");
    assert_eq!(r, Err("PTY session not found: unknown-id".to_string()));
    assert_eq!(not_found_message("unknown-id"), "PTY session not found: unknown-id");
}

#[test]
fn identifier_reuse_is_clean() {
    let mut reg: SessionRegistry<u64> = SessionRegistry::new();
    reg.insert("s1", 1);
    assert_eq!(close_session(&mut reg, "s1"), Ok(1));
    reg.insert("s1", 2);
    // Only the fresh session is visible under the reused identifier.
    assert_eq!(lookup_session(&reg, "s1").copied(), Ok(2));
    assert_eq!(close_session(&mut reg, "s1"), Ok(2));
}

#[test]
fn event_names_are_scoped_per_session() {
    assert_eq!(event_name("s1"), "pty-output-s1");
    assert_eq!(event_name("s2"), "pty-output-s2");
    assert_ne!(event_name("s1"), event_name("s2"));
}

#[test]
fn relay_emits_decoded_chunks() {
    match relay_step(false, ReadEvent::Data(b"hi".to_vec())) {
        RelayAction::Emit(text) => assert_eq!(text, "hi"),
        _ => panic!("data is forwarded"),
    }
    // Invalid byte sequences are replaced, never fatal.
    match relay_step(false, ReadEvent::Data(vec![0xff, b'h', b'i'])) {
        RelayAction::Emit(text) => assert_eq!(text, "\u{FFFD}hi"),
        _ => panic!("data is forwarded"),
    }
}

#[test]
fn relay_stops_after_shutdown_without_emitting() {
    // Once shutdown is requested, no event is emitted, whatever the
    // read returned, and a read error is not worth logging.
    for ev in [ReadEvent::Data(b"late".to_vec()), ReadEvent::Eof, ReadEvent::Failed] {
        match relay_step(true, ev) {
            RelayAction::Stop { log_read_error } => assert!(!log_read_error),
            _ => panic!("shutdown stops the relay"),
        }
    }
}

#[test]
fn relay_stops_on_eof_and_logs_errors() {
    assert!(matches!(
        relay_step(false, ReadEvent::Eof),
        RelayAction::Stop { log_read_error: false }
    ));
    assert!(matches!(
        relay_step(false, ReadEvent::Failed),
        RelayAction::Stop { log_read_error: true }
    ));
}
