use portable_pty::native_pty_system;
use portable_pty::CommandBuilder;
use portable_pty::PtySize;
use pty_sandbox::pty::create_session_plan;
use pty_sandbox::pty::event_name;
use pty_sandbox::pty::relay_step;
use pty_sandbox::pty::ReadEvent;
use pty_sandbox::pty::RelayAction;
use std::io::Read;
use std::io::Write;

/// Runs one complete shell session: spawns the planned program on a
/// fresh pseudo-terminal, writes `input`, and relays its output with
/// the library's step function until end of stream.
fn run_shell_session(input: &str) -> String {
    let plan = create_session_plan("/tmp".to_string(), None, Some("/bin/sh".to_string()))
        .expect("no command means the configured shell");
    let pty = native_pty_system();
    let pair = pty
        .openpty(PtySize {
            rows: plan.rows,
            cols: plan.cols,
            pixel_width: 0,
            pixel_height: 0,
        })
        .expect("openpty");
    let cmd = CommandBuilder::new(&plan.program);
    let mut child = pair.slave.spawn_command(cmd).expect("spawn");
    drop(pair.slave);
    let mut writer = pair.master.take_writer().expect("writer");
    let mut reader = pair.master.try_clone_reader().expect("reader");
    writer.write_all(input.as_bytes()).expect("write");
    writer.flush().expect("flush");
    drop(writer);
    let mut collected = String::new();
    let mut buf = [0u8; 4096];
    loop {
        let ev = match reader.read(&mut buf) {
            Ok(0) => ReadEvent::Eof,
            Ok(n) => ReadEvent::Data(buf[..n].to_vec()),
            Err(_) => ReadEvent::Failed,
        };
        match relay_step(false, ev) {
            RelayAction::Emit(text) => collected.push_str(&text),
            RelayAction::Stop { .. } => break,
        }
    }
    let _ = child.wait();
    collected
}

#[test]
fn distinct_sessions_do_not_cross_deliver() {
    // Two sessions with distinct identifiers, distinct input each: the
    // output events carry distinct names and neither payload holds the
    // other session's output.
    let out1 = run_shell_session("echo alpha_token; exit\n");
    let out2 = run_shell_session("echo beta_token; exit\n");
    assert!(out1.contains("alpha_token"));
    assert!(out2.contains("beta_token"));
    assert!(!out1.contains("beta_token"));
    assert!(!out2.contains("alpha_token"));
    assert_ne!(event_name("s1"), event_name("s2"));
}

#[test]
fn shell_session_echoes_written_input() {
    let plan = create_session_plan("/tmp".to_string(), None, Some("/bin/sh".to_string()))
        .expect("no command means the configured shell");
    let pty = native_pty_system();
    let pair = pty
        .openpty(PtySize {
            rows: plan.rows,
            cols: plan.cols,
            pixel_width: 0,
            pixel_height: 0,
        })
        .expect("openpty");
    let mut cmd = CommandBuilder::new(&plan.program);
    for a in &plan.args {
        cmd.arg(a);
    }
    cmd.cwd(&plan.cwd);
    let mut child = pair.slave.spawn_command(cmd).expect("spawn");
    drop(pair.slave);
    let mut writer = pair.master.take_writer().expect("writer");
    let mut reader = pair.master.try_clone_reader().expect("reader");
    writer.write_all(b"echo hi\n").expect("write");
    writer.flush().expect("flush");
    writer.write_all(b"exit\n").expect("write");
    writer.flush().expect("flush");
    drop(writer);

    // The relay loop of a session, with the verified step function
    // deciding what each read means; it ends at end of stream when the
    // shell exits.
    let mut collected = String::new();
    let mut buf = [0u8; 4096];
    loop {
        let ev = match reader.read(&mut buf) {
            Ok(0) => ReadEvent::Eof,
            Ok(n) => ReadEvent::Data(buf[..n].to_vec()),
            Err(_) => ReadEvent::Failed,
        };
        match relay_step(false, ev) {
            RelayAction::Emit(text) => collected.push_str(&text),
            RelayAction::Stop { .. } => break,
        }
    }
    let _ = child.wait();
    assert!(collected.contains("hi"), "output was: {:?}", collected);
}
