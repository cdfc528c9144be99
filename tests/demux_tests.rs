use remote_cmd::codec::{decode_message, encode_message};
use remote_cmd::demux::{
    demux_messages, demux_records, read_record, reads_on, route, wait_outcome, Route, WaitError,
};
use remote_cmd::executor::{Channel, Session, SessionEvent, SPAWN_FAILED};
use remote_cmd::framing::LineBuffer;
use remote_cmd::launch::plan_launch;
use remote_cmd::{RemoteCommand, ResultMessage};

/// The server's bytes for a session, as its writer would send them.
fn server_bytes(events: Vec<SessionEvent>) -> Vec<u8> {
    let mut s = Session::new();
    let mut wire = Vec::new();
    for e in events {
        if let Some(m) = s.step(e) {
            wire.extend_from_slice(encode_message(&m).as_bytes());
        }
    }
    wire
}

/// The client's reading of those bytes, fed in chunks of `chunk` bytes.
fn client_read(wire: &[u8], chunk: usize) -> remote_cmd::demux::Delivered {
    let mut buf = LineBuffer::new();
    let mut recs = Vec::new();
    for part in wire.chunks(chunk) {
        for line in buf.push(part) {
            recs.push(decode_message(&String::from_utf8_lossy(&line)));
        }
    }
    if let Some(line) = buf.finish() {
        recs.push(decode_message(&String::from_utf8_lossy(&line)));
    }
    demux_messages(recs)
}

#[test]
fn routes_by_tag() {
    assert!(matches!(route(None), Route::Skip));
    assert!(matches!(route(Some(ResultMessage::Stdout("a".to_string()))), Route::ToStdout(l) if l == "a"));
    assert!(matches!(route(Some(ResultMessage::Stderr("b".to_string()))), Route::ToStderr(l) if l == "b"));
    assert!(matches!(route(Some(ResultMessage::Exit(4))), Route::ToExit(4)));
}

#[test]
fn malformed_record_mid_stream_is_skipped() {
    let recs = vec![
        Some(ResultMessage::Stdout("1".to_string())),
        decode_message("{\"garbage"),
        Some(ResultMessage::Stdout("2".to_string())),
        Some(ResultMessage::Stderr("e".to_string())),
        Some(ResultMessage::Exit(0)),
    ];
    let d = demux_messages(recs);
    assert_eq!(d.stdout, vec!["1".to_string(), "2".to_string()]);
    assert_eq!(d.stderr, vec!["e".to_string()]);
    assert_eq!(d.exit, Some(0));
}

#[test]
fn reading_stops_at_exit() {
    let recs = vec![
        Some(ResultMessage::Exit(3)),
        Some(ResultMessage::Stdout("after".to_string())),
        Some(ResultMessage::Exit(4)),
    ];
    let d = demux_messages(recs);
    assert!(d.stdout.is_empty());
    assert_eq!(d.exit, Some(3));
}

#[test]
fn wait_outcomes() {
    assert_eq!(wait_outcome(Some(0)), Ok(0));
    assert_eq!(wait_outcome(Some(2)), Ok(2));
    assert_eq!(wait_outcome(None), Err(WaitError::ProtocolViolation));
    assert_eq!(wait_outcome(Some(SPAWN_FAILED)), Err(WaitError::SpawnFailed));
}

#[test]
fn stream_cut_before_exit_fails_wait() {
    let wire = server_bytes(vec![
        SessionEvent::Line(Channel::Stdout, "partial".to_string()),
        SessionEvent::Closed(Channel::Stdout),
    ]);
    let d = client_read(&wire, 7);
    assert_eq!(d.stdout, vec!["partial".to_string()]);
    assert_eq!(wait_outcome(d.exit), Err(WaitError::ProtocolViolation));
}

#[test]
fn echo_hi_scenario() {
    let req = RemoteCommand::new("bash").arg("-c").arg("echo hi").into_request();
    let plan = plan_launch(&req, &Vec::new());
    assert_eq!(plan.args, vec!["-c".to_string(), "echo hi".to_string()]);
    let wire = server_bytes(vec![
        SessionEvent::Line(Channel::Stdout, "hi".to_string()),
        SessionEvent::Closed(Channel::Stdout),
        SessionEvent::Closed(Channel::Stderr),
        SessionEvent::Exited(0),
    ]);
    for chunk in [1, 5, 1000] {
        let d = client_read(&wire, chunk);
        assert_eq!(d.stdout, vec!["hi".to_string()]);
        assert!(d.stderr.is_empty());
        assert_eq!(wait_outcome(d.exit), Ok(0));
    }
}

#[test]
fn env_name_scenario() {
    let req = RemoteCommand::new("bash")
        .arg("-c")
        .arg("echo $NAME")
        .env("NAME", "grok")
        .into_request();
    let plan = plan_launch(&req, &vec![("HOME".to_string(), "/root".to_string())]);
    let name = plan.env.iter().find(|(k, _)| k == "NAME").map(|(_, v)| v.clone());
    assert_eq!(name, Some("grok".to_string()));
    let wire = server_bytes(vec![
        SessionEvent::Line(Channel::Stdout, name.unwrap()),
        SessionEvent::Closed(Channel::Stderr),
        SessionEvent::Closed(Channel::Stdout),
        SessionEvent::Exited(0),
    ]);
    let d = client_read(&wire, 3);
    assert_eq!(d.stdout, vec!["grok".to_string()]);
    assert_eq!(wait_outcome(d.exit), Ok(0));
}

#[test]
fn unresolvable_host_scenario() {
    let wire = server_bytes(vec![
        SessionEvent::Closed(Channel::Stdout),
        SessionEvent::Line(
            Channel::Stderr,
            "ping: 8000.2.99.2: Name or service not known".to_string(),
        ),
        SessionEvent::Closed(Channel::Stderr),
        SessionEvent::Exited(2),
    ]);
    let d = client_read(&wire, 16);
    assert!(d.stderr.iter().any(|l| l.contains("Name or service not known")));
    let status = wait_outcome(d.exit).unwrap();
    assert_ne!(status, 0);
}

#[test]
fn spawn_failure_scenario() {
    let wire = server_bytes(vec![SessionEvent::SpawnFailed]);
    let d = client_read(&wire, 4);
    assert_eq!(wait_outcome(d.exit), Err(WaitError::SpawnFailed));
}

#[test]
fn unread_stderr_does_not_block_exit() {
    let mut events = Vec::new();
    for i in 0..250 {
        events.push(SessionEvent::Line(Channel::Stderr, format!("err {}", i)));
    }
    events.push(SessionEvent::Line(Channel::Stdout, "done".to_string()));
    events.push(SessionEvent::Closed(Channel::Stderr));
    events.push(SessionEvent::Closed(Channel::Stdout));
    events.push(SessionEvent::Exited(0));
    let d = client_read(&server_bytes(events), 64);
    assert_eq!(d.stdout, vec!["done".to_string()]);
    assert_eq!(d.stderr.len(), 250);
    assert_eq!(d.stderr[249], "err 249");
    assert_eq!(wait_outcome(d.exit), Ok(0));
}

#[test]
fn record_texts_are_routed() {
    assert!(matches!(read_record("{\"line\":\"a\",\"output_type\":\"Stdout\"}"), Route::ToStdout(l) if l == "a"));
    assert!(matches!(read_record("{\"line\":\"\",\"output_type\":\"Exit\",\"exit_code\":9}"), Route::ToExit(9)));
    assert!(matches!(read_record("{\"line\":\"\",\"output_type\":\"Exit\"}"), Route::Skip));
    assert!(matches!(read_record("garbage"), Route::Skip));
}

#[test]
fn reader_stops_after_exit_or_dropped_channel() {
    assert!(reads_on(&Route::Skip, true));
    assert!(reads_on(&Route::ToStdout("x".to_string()), true));
    assert!(!reads_on(&Route::ToStderr("x".to_string()), false));
    assert!(!reads_on(&Route::ToExit(0), true));
}

#[test]
fn whole_stream_of_record_texts() {
    let mut texts: Vec<String> = vec![
        ResultMessage::Stdout("one".to_string()),
        ResultMessage::Stderr("err".to_string()),
    ]
    .iter()
    .map(|m| encode_message(m).trim_end().to_string())
    .collect();
    texts.push("{not a record".to_string());
    texts.push(encode_message(&ResultMessage::Stdout("two".to_string())).trim_end().to_string());
    texts.push(encode_message(&ResultMessage::Exit(5)).trim_end().to_string());
    texts.push(encode_message(&ResultMessage::Stdout("late".to_string())).trim_end().to_string());
    let d = demux_records(texts);
    assert_eq!(d.stdout, vec!["one".to_string(), "two".to_string()]);
    assert_eq!(d.stderr, vec!["err".to_string()]);
    assert_eq!(d.exit, Some(5));
}
