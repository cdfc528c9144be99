use remote_cmd::executor::{Channel, Session, SessionEvent, SPAWN_FAILED};
use remote_cmd::ResultMessage;

fn drive(events: Vec<SessionEvent>) -> (Vec<ResultMessage>, bool) {
    let mut s = Session::new();
    let mut out = Vec::new();
    for e in events {
        if let Some(m) = s.step(e) {
            out.push(m);
        }
    }
    (out, s.is_finished())
}

#[test]
fn exit_comes_last_after_both_streams() {
    let (out, done) = drive(vec![
        SessionEvent::Line(Channel::Stdout, "a".to_string()),
        SessionEvent::Line(Channel::Stderr, "e".to_string()),
        SessionEvent::Closed(Channel::Stdout),
        SessionEvent::Line(Channel::Stderr, "f".to_string()),
        SessionEvent::Closed(Channel::Stderr),
        SessionEvent::Exited(0),
    ]);
    assert!(done);
    assert_eq!(
        out,
        vec![
            ResultMessage::Stdout("a".to_string()),
            ResultMessage::Stderr("e".to_string()),
            ResultMessage::Stderr("f".to_string()),
            ResultMessage::Exit(0),
        ]
    );
}

#[test]
fn exit_waits_for_open_streams() {
    let (out, done) = drive(vec![
        SessionEvent::Exited(2),
        SessionEvent::Closed(Channel::Stderr),
        SessionEvent::Line(Channel::Stdout, "late".to_string()),
    ]);
    assert!(!done);
    assert_eq!(out, vec![ResultMessage::Stdout("late".to_string())]);
    let (out, done) = drive(vec![
        SessionEvent::Exited(2),
        SessionEvent::Closed(Channel::Stderr),
        SessionEvent::Line(Channel::Stdout, "late".to_string()),
        SessionEvent::Closed(Channel::Stdout),
    ]);
    assert!(done);
    assert_eq!(out.last(), Some(&ResultMessage::Exit(2)));
    assert_eq!(out.len(), 2);
}

#[test]
fn nothing_after_the_exit_record() {
    let (out, _) = drive(vec![
        SessionEvent::Closed(Channel::Stdout),
        SessionEvent::Closed(Channel::Stderr),
        SessionEvent::Exited(1),
        SessionEvent::Line(Channel::Stdout, "x".to_string()),
        SessionEvent::Exited(5),
    ]);
    assert_eq!(out, vec![ResultMessage::Exit(1)]);
}

#[test]
fn spawn_failure_is_one_exit_record() {
    let (out, done) = drive(vec![SessionEvent::SpawnFailed, SessionEvent::Exited(0)]);
    assert!(done);
    assert_eq!(out, vec![ResultMessage::Exit(SPAWN_FAILED)]);
}
