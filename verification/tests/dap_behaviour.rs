use mirrorscope::dap::backend::{BackendError, DebugBackend, ResumeKind, StopInfo, StubBackend};
use mirrorscope::dap::protocol::{event, failure, success, Request};
use mirrorscope::dap::server::{requested_trace, Opened, Server};
use mirrorscope::dap::transport::{
    read_frame, read_payload, write_frame, HeaderStep, Headers, TransportError,
};
use serde_json::Value;

fn parse(text: &str) -> Value {
    serde_json::from_str(text).expect("valid JSON")
}

fn request(seq: u64, command: &str, arguments: &str) -> Request {
    Request {
        seq,
        command: command.to_string(),
        arguments: parse(arguments),
    }
}

fn frame(text: &str) -> Vec<u8> {
    format!("Content-Length: {}\r\n\r\n{text}", text.len()).into_bytes()
}

/// A target that moves and then ends.
struct Ending {
    steps: u32,
}

impl DebugBackend for Ending {
    fn launch(&mut self, _arguments: &Value) -> Result<StopInfo, BackendError> {
        Ok(StopInfo::stopped("entry"))
    }
    fn threads(&mut self) -> Result<Value, BackendError> {
        Ok(Value::from(self.steps))
    }
    fn stack_trace(&mut self, _arguments: &Value) -> Result<Value, BackendError> {
        Err(BackendError::Engine("diverged at event 7".to_string()))
    }
    fn scopes(&mut self, _arguments: &Value) -> Result<Value, BackendError> {
        Err(BackendError::NoTracee)
    }
    fn variables(&mut self, arguments: &Value) -> Result<Value, BackendError> {
        Ok(arguments.clone())
    }
    fn resume(&mut self, kind: ResumeKind) -> Result<StopInfo, BackendError> {
        self.steps += 1;
        if kind == ResumeKind::Continue {
            Ok(StopInfo::Exited { code: 137 })
        } else {
            Ok(StopInfo::stopped("step"))
        }
    }
    fn list_checkpoints(&mut self) -> Result<Value, BackendError> {
        Ok(Value::Null)
    }
    fn task_timeline(&mut self) -> Result<Value, BackendError> {
        Ok(Value::Null)
    }
    fn jump_to_event(&mut self, _arguments: &Value) -> Result<StopInfo, BackendError> {
        Err(BackendError::BadArgs("no seq".to_string()))
    }
}

fn launched() -> Server {
    let mut server = Server::new();
    let launch = request(1, "launch", r#"{ "trace": "t.mscope" }"#);
    assert_eq!(requested_trace(&launch).as_deref(), Some("t.mscope"));
    let messages = server.respond(&launch, Opened::Backend(Box::new(Ending { steps: 0 })));
    assert_eq!(messages.len(), 2);
    assert_eq!(messages[0]["success"], true);
    assert_eq!(messages[1]["body"]["reason"], "entry");
    server
}

#[test]
fn a_recording_that_was_opened_serves_what_follows() {
    let mut server = launched();
    server.respond(&request(2, "next", "{}"), Opened::Unavailable);
    let messages = server.respond(&request(3, "threads", "{}"), Opened::Unavailable);
    assert_eq!(messages[0]["body"], 1);
    assert_eq!(messages[0]["seq"], 5);
    let messages = server.respond(
        &request(4, "variables", r#"{ "variablesReference": 7 }"#),
        Opened::Unavailable,
    );
    assert_eq!(messages[0]["body"]["variablesReference"], 7);
}

#[test]
fn the_end_of_the_target_is_told() {
    let mut server = launched();
    let messages = server.respond(&request(9, "continue", "{}"), Opened::Unavailable);
    assert_eq!(messages.len(), 3);
    assert_eq!(messages[0]["body"], parse(r#"{ "allThreadsContinued": true }"#));
    assert_eq!(messages[1]["event"], "exited");
    assert_eq!(messages[1]["body"], parse(r#"{ "exitCode": 137 }"#));
    assert_eq!(messages[2]["event"], "terminated");
    assert_eq!(messages[2]["body"], parse("{}"));
}

#[test]
fn failures_are_shown_and_told() {
    let mut server = launched();
    for (command, text) in [
        ("stackTrace", "diverged at event 7"),
        (
            "scopes",
            "no live replay tracee: the target has exited or was not launched from a trace",
        ),
        ("jumpToEvent", "invalid request arguments: no seq"),
    ] {
        let messages = server.respond(&request(2, command, "{}"), Opened::Unavailable);
        assert_eq!(messages.len(), 2);
        assert_eq!(messages[0]["event"], "output");
        assert_eq!(messages[0]["body"]["category"], "stderr");
        assert_eq!(messages[0]["body"]["output"], format!("{text}\n"));
        assert_eq!(messages[1]["success"], false);
        assert_eq!(messages[1]["message"], text);
        assert_eq!(messages[1]["command"], command);
    }
}

#[test]
fn a_recording_that_cannot_be_opened_leaves_the_target() {
    let mut server = Server::new();
    let launch = request(5, "attach", r#"{ "trace": "gone.mscope" }"#);
    let messages = server.respond(&launch, Opened::Failed("no such file".to_string()));
    assert_eq!(messages.len(), 2);
    assert_eq!(messages[0]["body"]["output"], "no such file\n");
    assert_eq!(messages[1]["message"], "no such file");
    let messages = server.respond(&request(6, "threads", "{}"), Opened::Unavailable);
    assert_eq!(messages[0]["body"]["threads"][0]["name"], "main");
}

#[test]
fn a_recording_without_replay_is_said_to_be_stubbed() {
    let mut server = Server::new();
    let launch = request(5, "launch", r#"{ "trace": "t.mscope" }"#);
    let messages = server.respond(&launch, Opened::Unavailable);
    assert_eq!(messages.len(), 3);
    assert_eq!(
        messages[0]["body"]["output"],
        "replay backend unavailable on this platform; serving the stub target\n"
    );
    assert_eq!(messages[1]["success"], true);
    assert_eq!(messages[2]["event"], "stopped");
}

#[test]
fn only_a_launch_asks_for_a_recording() {
    let with_trace = r#"{ "trace": "t.mscope" }"#;
    assert_eq!(requested_trace(&request(1, "threads", with_trace)), None);
    assert_eq!(requested_trace(&request(1, "launch", r#"{ "trace": 7 }"#)), None);
    assert_eq!(requested_trace(&request(1, "launch", "[]")), None);
    assert!(requested_trace(&request(1, "attach", with_trace)).is_some());
}

#[test]
fn every_request_is_answered_once_and_in_order() {
    let commands = [
        "initialize",
        "launch",
        "configurationDone",
        "setBreakpoints",
        "setExceptionBreakpoints",
        "threads",
        "stackTrace",
        "scopes",
        "variables",
        "continue",
        "stepBack",
        "jumpToEvent",
        "nonsense",
        "disconnect",
    ];
    let mut input = Vec::new();
    for (i, command) in commands.iter().enumerate() {
        input.extend_from_slice(&frame(&format!(
            r#"{{ "seq": {}, "command": "{command}" }}"#,
            i + 10
        )));
    }
    // What follows a disconnect is not read.
    let rest = frame(r#"{ "seq": 99, "command": "threads" }"#);
    input.extend_from_slice(&rest);
    let mut reader = input.as_slice();
    let mut output = Vec::new();
    Server::new()
        .run(&mut reader, &mut output, |_| Opened::Unavailable)
        .expect("served");
    assert_eq!(reader, rest.as_slice());

    let mut written = output.as_slice();
    let mut answered = Vec::new();
    let mut count = 0;
    while let Some(message) = read_frame(&mut written).expect("framed") {
        count += 1;
        assert_eq!(message["seq"], count);
        if message["type"] == "response" {
            answered.push(message["request_seq"].as_u64().expect("number"));
        }
    }
    let asked: Vec<u64> = (10..10 + commands.len() as u64).collect();
    assert_eq!(answered, asked);
}

#[test]
fn messages_that_are_no_requests_are_passed_over() {
    let mut input = Vec::new();
    for text in [
        r#"{ "seq": 1, "type": "response" }"#,
        r#"{ "seq": -1, "command": "threads" }"#,
        r#"{ "seq": 1, "command": 5 }"#,
        "null",
        "[1]",
        r#"[7, "threads"]"#,
        r#"[8, "variables", {}]"#,
    ] {
        input.extend_from_slice(&frame(text));
    }
    let mut output = Vec::new();
    Server::new()
        .run(&mut input.as_slice(), &mut output, |_| Opened::Unavailable)
        .expect("served");
    let mut written = output.as_slice();
    let first = read_frame(&mut written).expect("framed").expect("a message");
    assert_eq!(first["request_seq"], 7);
    let second = read_frame(&mut written).expect("framed").expect("a message");
    assert_eq!(second["request_seq"], 8);
    assert!(written.is_empty());
}

#[test]
fn what_was_answered_before_an_error_is_written() {
    let mut input = frame(r#"{ "seq": 1, "command": "threads" }"#);
    input.extend_from_slice(b"Content-Length: 3\r\n\r\n{}?");
    let mut output = Vec::new();
    let error = Server::new()
        .run(&mut input.as_slice(), &mut output, |_| Opened::Unavailable)
        .expect_err("malformed");
    assert!(matches!(error, TransportError::MalformedJson(_)));
    let mut written = output.as_slice();
    assert!(read_frame(&mut written).expect("framed").is_some());
    assert!(written.is_empty());
}

#[test]
fn frames_count_bytes_and_pass_over_other_headers() {
    let mut message = parse("{}");
    message["text"] = Value::from("größer „≥“ 𝔰");
    let mut written = b"before".to_vec();
    write_frame(&mut written, &message).expect("written");
    assert!(written.starts_with(b"beforeContent-Length: "));
    let read = read_frame(&mut &written[6..]).expect("framed");
    assert_eq!(read, Some(message));

    let input = b"X-Other: 1\nContent-Length:  2 \r\nContent-Type: x\r\n\r\n[]left";
    let mut reader = &input[..];
    assert_eq!(read_frame(&mut reader).expect("framed"), Some(parse("[]")));
    assert_eq!(reader, b"left");
}

#[test]
fn broken_frames_are_errors() {
    let read = |input: &[u8]| read_frame(&mut &*input).expect_err("broken");
    assert_eq!(
        read(b"Content-Length: 5\r\n").message(),
        "missing Content-Length header"
    );
    assert_eq!(
        read(b"Content-Length: -5\r\n\r\n").message(),
        "invalid Content-Length header: -5"
    );
    assert_eq!(
        read(b"Content-Length: 5\r\n\r\n{}").message(),
        "transport I/O error: failed to fill whole buffer"
    );
    assert_eq!(
        read(b"\xff\xfe\r\n").message(),
        "transport I/O error: stream did not contain valid UTF-8"
    );
    assert!(read(b"Content-Length: 1\r\n\r\n{")
        .message()
        .starts_with("malformed JSON payload: "));
    assert!(matches!(
        read_payload(b"{\"a\": \xff}"),
        Err(TransportError::MalformedJson(_))
    ));
}

#[test]
fn headers_are_read_line_by_line() {
    let mut headers = Headers::new();
    assert_eq!(headers.read_line(b"A: b\r\n").expect("a header"), HeaderStep::More);
    assert_eq!(
        headers.read_line(b"Content-Length: 12\r\n").expect("the length"),
        HeaderStep::More
    );
    assert_eq!(headers.content_length, Some(12));
    assert_eq!(headers.read_line(b"\r\n").expect("the end"), HeaderStep::Payload(12));
    let mut headers = Headers::new();
    assert_eq!(headers.read_line(b"").expect("hung up"), HeaderStep::HungUp);
    headers.read_line(b"A: b\r\n").expect("a header");
    assert!(matches!(
        headers.read_line(b""),
        Err(TransportError::MissingContentLength)
    ));
}

#[test]
fn messages_have_their_shapes() {
    let r = request(3, "threads", "{}");
    assert_eq!(
        success(8, &r, parse("[1]")),
        parse(r#"{ "seq": 8, "type": "response", "request_seq": 3, "command": "threads", "success": true, "body": [1] }"#)
    );
    assert_eq!(
        failure(9, &r, "no"),
        parse(r#"{ "seq": 9, "type": "response", "request_seq": 3, "command": "threads", "success": false, "message": "no" }"#)
    );
    assert_eq!(
        event(10, "output", Value::Null),
        parse(r#"{ "seq": 10, "type": "event", "event": "output", "body": null }"#)
    );
}

#[test]
fn a_request_is_read_out_of_a_message() {
    let r = Request::from_message(&parse(r#"{ "seq": 4, "command": "next", "x": 1 }"#))
        .expect("a request");
    assert_eq!(r.seq, 4);
    assert_eq!(r.command, "next");
    assert_eq!(r.arguments, Value::Null);
    assert!(Request::from_message(&parse(r#"{ "seq": 1.5, "command": "next" }"#)).is_none());
    assert!(Request::from_message(&parse(r#"{ "command": "next" }"#)).is_none());
    assert!(Request::from_message(&parse(r#""next""#)).is_none());
}

#[test]
fn the_static_target_does_not_move() {
    let mut stub = StubBackend::new();
    assert_eq!(
        stub.launch(&Value::Null).expect("a stop"),
        StopInfo::stopped("entry")
    );
    assert_eq!(
        stub.resume(ResumeKind::StepIn).expect("a stop"),
        StopInfo::Stopped {
            reason: "step".to_string(),
            thread_id: 1
        }
    );
    let error = stub.resume(ResumeKind::StepBack).expect_err("no recording");
    assert!(matches!(error, BackendError::NotSupported(_)));
    assert_eq!(
        stub.scopes(&Value::Null).expect("scopes"),
        parse(r#"{ "scopes": [{ "name": "Locals", "variablesReference": 1, "expensive": false }] }"#)
    );
}

#[test]
fn a_session_with_a_changing_target_answers_every_request_once() {
    let commands = ["next", "threads", "stackTrace", "stepBack", "continue", "jumpToEvent"];
    let mut input = Vec::new();
    for (i, command) in commands.iter().enumerate() {
        input.extend_from_slice(&frame(&format!(
            r#"{{ "seq": {}, "command": "{command}" }}"#,
            i + 20
        )));
    }
    let mut server = Server {
        next_seq: 100,
        backend: Box::new(Ending { steps: 0 }),
    };
    let mut output = Vec::new();
    server
        .run(&mut input.as_slice(), &mut output, |_| Opened::Unavailable)
        .expect("served");
    let mut written = output.as_slice();
    let mut answered = Vec::new();
    let mut count = 100;
    while let Some(message) = read_frame(&mut written).expect("framed") {
        count += 1;
        assert_eq!(message["seq"], count);
        if message["type"] == "response" {
            answered.push(message["request_seq"].as_u64().expect("number"));
        }
    }
    assert_eq!(answered, (20..26).collect::<Vec<u64>>());
    assert_eq!(server.next_seq, count);
}

#[test]
fn a_session_opens_the_recordings_that_it_is_asked_for() {
    let mut input = Vec::new();
    for text in [
        r#"{ "seq": 1, "command": "launch", "arguments": { "trace": "gone" } }"#,
        r#"{ "seq": 2, "command": "launch", "arguments": { "trace": "there" } }"#,
        r#"{ "seq": 3, "command": "next" }"#,
        r#"{ "seq": 4, "command": "threads", "arguments": { "trace": "gone" } }"#,
    ] {
        input.extend_from_slice(&frame(text));
    }
    let open = |path: String| {
        if path == "there" {
            Opened::Backend(Box::new(Ending { steps: 4 }))
        } else {
            Opened::Failed(format!("no {path}"))
        }
    };
    let mut output = Vec::new();
    Server::new()
        .run(&mut input.as_slice(), &mut output, open)
        .expect("served");
    let mut written = output.as_slice();
    let mut messages = Vec::new();
    while let Some(message) = read_frame(&mut written).expect("framed") {
        messages.push(message);
    }
    assert_eq!(messages.len(), 7);
    assert_eq!(messages[0]["body"]["output"], "no gone\n");
    assert_eq!(messages[1]["message"], "no gone");
    assert_eq!(messages[2]["success"], true);
    assert_eq!(messages[3]["body"]["reason"], "entry");
    assert_eq!(messages[5]["body"]["reason"], "step");
    assert_eq!(messages[6]["body"], 5);
    assert_eq!(messages[6]["seq"], 7);
}
