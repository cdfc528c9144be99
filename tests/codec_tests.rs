use remote_cmd::codec::{
    decode_message, decode_request, decode_stream_line, encode_message, encode_request,
    exit_code_from_wire, output_type_named, request_from_members, stream_line_from_members,
    DecodeError, Member,
};
use remote_cmd::{CommandRequest, OutputType, RemoteCommand, ResultMessage};

#[test]
fn stdout_record_text() {
    let t = encode_message(&ResultMessage::Stdout("hi".to_string()));
    assert_eq!(t, "{\"line\":\"hi\",\"output_type\":\"Stdout\",\"is_final\":false,\"exit_code\":null}\n");
}

#[test]
fn stderr_record_text() {
    let t = encode_message(&ResultMessage::Stderr("bad".to_string()));
    assert_eq!(t, "{\"line\":\"bad\",\"output_type\":\"Stderr\",\"is_final\":false,\"exit_code\":null}\n");
}

#[test]
fn exit_record_text() {
    assert_eq!(
        encode_message(&ResultMessage::Exit(0)),
        "{\"line\":\"\",\"output_type\":\"Exit\",\"is_final\":true,\"exit_code\":0}\n"
    );
    assert_eq!(
        encode_message(&ResultMessage::Exit(-1)),
        "{\"line\":\"\",\"output_type\":\"Exit\",\"is_final\":true,\"exit_code\":-1}\n"
    );
    assert_eq!(
        encode_message(&ResultMessage::Exit(i32::MIN)),
        "{\"line\":\"\",\"output_type\":\"Exit\",\"is_final\":true,\"exit_code\":-2147483648}\n"
    );
    assert_eq!(
        encode_message(&ResultMessage::Exit(1234)),
        "{\"line\":\"\",\"output_type\":\"Exit\",\"is_final\":true,\"exit_code\":1234}\n"
    );
}

#[test]
fn escapes_keep_one_newline_per_record() {
    let t = encode_message(&ResultMessage::Stdout("a\"b\nc\\d".to_string()));
    assert_eq!(
        t,
        "{\"line\":\"a\\\"b\\nc\\\\d\",\"output_type\":\"Stdout\",\"is_final\":false,\"exit_code\":null}\n"
    );
    assert_eq!(t.matches('\n').count(), 1);
}

#[test]
fn records_decode_to_what_was_encoded() {
    let msgs = vec![
        ResultMessage::Stdout("hi there".to_string()),
        ResultMessage::Stderr("line \"quoted\"\twith tab".to_string()),
        ResultMessage::Stdout(String::new()),
        ResultMessage::Exit(0),
        ResultMessage::Exit(-1),
        ResultMessage::Exit(i32::MAX),
    ];
    for m in msgs {
        let t = encode_message(&m);
        assert_eq!(decode_message(t.trim_end_matches('\n')), Some(m));
    }
}

#[test]
fn malformed_records_decode_to_nothing() {
    assert_eq!(decode_message("not json"), None);
    assert_eq!(decode_message("{\"line\":\"x\"}"), None);
    assert_eq!(decode_message("{\"line\":\"x\",\"output_type\":\"Other\"}"), None);
    assert_eq!(decode_message("{\"line\":1,\"output_type\":\"Stdout\"}"), None);
    assert_eq!(
        decode_message("{\"line\":\"x\",\"output_type\":\"Stdout\",\"exit_code\":3}"),
        None
    );
    assert_eq!(decode_message("{\"line\":\"\",\"output_type\":\"Exit\",\"exit_code\":null}"), None);
    assert_eq!(
        decode_message("{\"line\":\"\",\"output_type\":\"Exit\",\"exit_code\":4294967296}"),
        None
    );
    assert_eq!(decode_message("{\"line\":\"\",\"output_type\":\"Exit\",\"is_final\":\"yes\",\"exit_code\":1}"), None);
}

#[test]
fn records_without_is_final_are_read() {
    let r = decode_stream_line("{\"output_type\":\"Stdout\",\"line\":\"x\"}").unwrap();
    assert!(matches!(r.output_type, OutputType::Stdout));
    assert!(!r.is_final);
    assert_eq!(r.exit_code, None);
    assert_eq!(
        decode_message("{\"line\":\"\",\"output_type\":\"Exit\",\"exit_code\":2}"),
        Some(ResultMessage::Exit(2))
    );
}

#[test]
fn tag_names() {
    assert!(matches!(output_type_named("Stdout"), Some(OutputType::Stdout)));
    assert!(matches!(output_type_named("Stderr"), Some(OutputType::Stderr)));
    assert!(matches!(output_type_named("Exit"), Some(OutputType::Exit)));
    assert!(output_type_named("stdout").is_none());
}

#[test]
fn wire_status_range() {
    assert_eq!(exit_code_from_wire(0), Some(0));
    assert_eq!(exit_code_from_wire(-2147483648), Some(i32::MIN));
    assert_eq!(exit_code_from_wire(2147483648), None);
    assert_eq!(exit_code_from_wire(-2147483649), None);
}

#[test]
fn request_record_text() {
    let req = RemoteCommand::new("bash")
        .arg("-c")
        .arg("echo $NAME")
        .env("NAME", "grok")
        .into_request();
    assert_eq!(
        encode_request(&req),
        "{\"program\":\"bash\",\"args\":[\"-c\",\"echo $NAME\"],\"env\":[[\"NAME\",\"grok\"]]}\n"
    );
    let bare = RemoteCommand::new("ls").into_request();
    assert_eq!(encode_request(&bare), "{\"program\":\"ls\",\"args\":null,\"env\":null}\n");
}

#[test]
fn request_decodes_to_what_was_encoded() {
    let req = RemoteCommand::new("bash")
        .arg("-c")
        .arg("echo \"$A\"\n")
        .env("A", "1")
        .env("B", "two words")
        .into_request();
    let t = encode_request(&req);
    let back: CommandRequest = decode_request(t.trim_end_matches('\n')).unwrap();
    assert_eq!(back.program, "bash");
    assert_eq!(back.args, req.args);
    assert_eq!(back.env, req.env);
}

#[test]
fn request_errors() {
    assert_eq!(decode_request("{").unwrap_err(), DecodeError::NotJson);
    assert_eq!(decode_request("{\"args\":null}").unwrap_err(), DecodeError::MissingProgram);
    assert_eq!(decode_request("{\"program\":5}").unwrap_err(), DecodeError::MissingProgram);
    assert_eq!(decode_request("{\"program\":\"\"}").unwrap_err(), DecodeError::EmptyProgram);
    assert_eq!(
        decode_request("{\"program\":\"ls\",\"args\":[1]}").unwrap_err(),
        DecodeError::BadArgs
    );
    assert_eq!(
        decode_request("{\"program\":\"ls\",\"args\":\"-l\"}").unwrap_err(),
        DecodeError::BadArgs
    );
    assert_eq!(
        decode_request("{\"program\":\"ls\",\"env\":[[\"A\"]]}").unwrap_err(),
        DecodeError::BadEnv
    );
    let ok = decode_request("{\"program\":\"ls\"}").unwrap();
    assert!(ok.args.is_none() && ok.env.is_none());
}

#[test]
fn record_members() {
    let r = stream_line_from_members(
        Member::Present("x".to_string()),
        Member::Present("Exit".to_string()),
        Member::Absent,
        Member::Present(7),
    )
    .unwrap();
    assert!(matches!(r.output_type, OutputType::Exit));
    assert!(!r.is_final);
    assert_eq!(r.exit_code, Some(7));
    assert_eq!(r.line, "x");
    assert!(stream_line_from_members(
        Member::Absent,
        Member::Present("Stdout".to_string()),
        Member::Absent,
        Member::Absent
    )
    .is_none());
    assert!(stream_line_from_members(
        Member::Present("x".to_string()),
        Member::Present("Stdout".to_string()),
        Member::WrongType,
        Member::Absent
    )
    .is_none());
    assert!(stream_line_from_members(
        Member::Present("x".to_string()),
        Member::Present("Exit".to_string()),
        Member::Present(true),
        Member::Present(1i64 << 40)
    )
    .is_none());
    assert!(stream_line_from_members(
        Member::Present("x".to_string()),
        Member::Present("Exit".to_string()),
        Member::Present(true),
        Member::WrongType
    )
    .is_none());
}

#[test]
fn request_members() {
    let r = request_from_members(
        Member::Present("ls".to_string()),
        Member::Present(vec!["-l".to_string()]),
        Member::Absent,
    )
    .unwrap();
    assert_eq!(r.program, "ls");
    assert_eq!(r.args, Some(vec!["-l".to_string()]));
    assert_eq!(r.env, None);
    assert_eq!(
        request_from_members(Member::Absent, Member::Absent, Member::Absent).unwrap_err(),
        DecodeError::MissingProgram
    );
    assert_eq!(
        request_from_members(Member::WrongType, Member::Absent, Member::Absent).unwrap_err(),
        DecodeError::MissingProgram
    );
    assert_eq!(
        request_from_members(Member::Present(String::new()), Member::Absent, Member::Absent)
            .unwrap_err(),
        DecodeError::EmptyProgram
    );
    assert_eq!(
        request_from_members(Member::Present("ls".to_string()), Member::WrongType, Member::WrongType)
            .unwrap_err(),
        DecodeError::BadArgs
    );
    assert_eq!(
        request_from_members(Member::Present("ls".to_string()), Member::Absent, Member::WrongType)
            .unwrap_err(),
        DecodeError::BadEnv
    );
}

#[test]
fn control_characters_are_escaped() {
    let t = encode_message(&ResultMessage::Stderr("\u{1}\u{8}\u{c}\r\t\u{1f}é/".to_string()));
    assert_eq!(
        t,
        "{\"line\":\"\\u0001\\b\\f\\r\\t\\u001fé/\",\"output_type\":\"Stderr\",\"is_final\":false,\"exit_code\":null}\n"
    );
}
