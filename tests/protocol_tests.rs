use remote_cmd::{OutputType, RemoteCommand, ResultMessage, StreamLine};

#[test]
fn builder_starts_without_args_or_env() {
    let c = RemoteCommand::new("bash");
    assert_eq!(c.program, "bash");
    assert!(c.args.is_none());
    assert!(c.env.is_none());
}

#[test]
fn builder_keeps_argument_and_variable_order() {
    let c = RemoteCommand::new("bash")
        .arg("-c")
        .arg("echo Hello $NAME@$HOST")
        .env("NAME", "grok")
        .env("HOST", "remote.server")
        .env("NAME", "other");
    assert_eq!(c.args.clone().unwrap(), vec!["-c".to_string(), "echo Hello $NAME@$HOST".to_string()]);
    let env = c.env.clone().unwrap();
    assert_eq!(env.len(), 3);
    assert_eq!(env[0], ("NAME".to_string(), "grok".to_string()));
    assert_eq!(env[2], ("NAME".to_string(), "other".to_string()));
    let req = c.into_request();
    assert_eq!(req.program, "bash");
    assert_eq!(req.args.unwrap().len(), 2);
    assert_eq!(req.env.unwrap().len(), 3);
}

#[test]
fn message_to_record_and_back() {
    let msgs = vec![
        ResultMessage::Stdout("hi".to_string()),
        ResultMessage::Stderr("oops".to_string()),
        ResultMessage::Exit(3),
    ];
    for m in msgs {
        let r = m.to_stream_line();
        assert_eq!(r.to_message(), Some(m));
    }
}

#[test]
fn exit_record_shape() {
    let r = ResultMessage::Exit(0).to_stream_line();
    assert!(matches!(r.output_type, OutputType::Exit));
    assert!(r.is_final);
    assert_eq!(r.exit_code, Some(0));
    assert_eq!(r.line, "");
    let s = ResultMessage::Stdout("x".to_string()).to_stream_line();
    assert!(!s.is_final);
    assert_eq!(s.exit_code, None);
}

#[test]
fn inconsistent_records_stand_for_no_message() {
    let stdout_with_code = StreamLine {
        line: "x".to_string(),
        output_type: OutputType::Stdout,
        is_final: false,
        exit_code: Some(1),
    };
    assert_eq!(stdout_with_code.to_message(), None);
    let exit_without_code = StreamLine {
        line: String::new(),
        output_type: OutputType::Exit,
        is_final: true,
        exit_code: None,
    };
    assert_eq!(exit_without_code.to_message(), None);
    let unmarked_exit = StreamLine {
        line: String::new(),
        output_type: OutputType::Exit,
        is_final: false,
        exit_code: Some(7),
    };
    assert_eq!(unmarked_exit.to_message(), Some(ResultMessage::Exit(7)));
}
