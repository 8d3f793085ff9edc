use mirrorscope::dap::server::{Opened, Server};
use mirrorscope::dap::transport::{read_frame, write_frame};
use serde_json::Value;

/// Drive the server over in-memory pipes and return every message it emitted.
fn drive(requests: &[Value]) -> Vec<Value> {
    let mut input = Vec::new();
    for req in requests {
        write_frame(&mut input, req).expect("encode request");
    }
    let mut output = Vec::new();
    Server::new()
        .run(&mut input.as_slice(), &mut output, |_| Opened::Unavailable)
        .expect("server run");

    let mut cursor = output.as_slice();
    let mut messages = Vec::new();
    while let Some(msg) = read_frame(&mut cursor).expect("decode server output") {
        messages.push(msg);
    }
    messages
}

fn parse(text: &str) -> Value {
    serde_json::from_str(text).expect("valid JSON")
}

fn request(seq: u64, command: &str, arguments: Value) -> Value {
    let mut message = parse(r#"{ "type": "request" }"#);
    message["seq"] = Value::from(seq);
    message["command"] = Value::from(command);
    message["arguments"] = arguments;
    message
}

fn response_for<'a>(messages: &'a [Value], command: &str) -> &'a Value {
    messages
        .iter()
        .find(|m| m["type"] == "response" && m["command"] == command)
        .unwrap_or_else(|| panic!("no response for {command} in {messages:?}"))
}

fn events_named<'a>(messages: &'a [Value], event: &str) -> Vec<&'a Value> {
    messages
        .iter()
        .filter(|m| m["type"] == "event" && m["event"] == event)
        .collect()
}

fn session(extra: &[Value]) -> Vec<Value> {
    let mut requests = vec![
        request(1, "initialize", parse(r#"{}"#)),
        request(2, "launch", parse(r#"{ "program": "/bin/true" }"#)),
    ];
    requests.extend_from_slice(extra);
    requests.push(request(99, "disconnect", parse(r#"{}"#)));
    drive(&requests)
}

#[test]
fn continue_responds_and_emits_a_stop() {
    let messages = session(&[request(3, "continue", parse(r#"{ "threadId": 1 }"#))]);
    let resp = response_for(&messages, "continue");
    assert_eq!(resp["success"], true);
    assert_eq!(resp["body"]["allThreadsContinued"], true);
    // A stop event must follow (launch also emits one, so expect at least two).
    assert!(events_named(&messages, "stopped").len() >= 2);
}

#[test]
fn forward_steps_succeed_and_stop_on_the_stub() {
    for command in ["next", "stepIn", "stepOut"] {
        let messages = session(&[request(3, command, parse(r#"{ "threadId": 1 }"#))]);
        let resp = response_for(&messages, command);
        assert_eq!(resp["success"], true, "{command} must succeed on the stub");
        let stopped = events_named(&messages, "stopped");
        assert_eq!(
            stopped.last().expect("a stop event")["body"]["reason"],
            "step",
            "{command} should report a step stop"
        );
    }
}

#[test]
fn reverse_and_jump_fail_politely_pointing_at_replay() {
    let messages = session(&[
        request(3, "stepBack", parse(r#"{ "threadId": 1 }"#)),
        request(4, "reverseContinue", parse(r#"{ "threadId": 1 }"#)),
        request(5, "jumpToEvent", parse(r#"{ "seq": 10 }"#)),
    ]);
    for command in ["stepBack", "reverseContinue", "jumpToEvent"] {
        let resp = response_for(&messages, command);
        assert_eq!(resp["success"], false, "{command} must be a polite stub");
        assert!(
            resp["message"]
                .as_str()
                .expect("message")
                .contains("replay"),
            "{command} should point at the replay engine"
        );
    }
}

#[test]
fn backend_errors_surface_as_a_visible_output_event() {
    // A failing reverse request on the stub must also emit an output event so
    // the client sees the reason, not just a bare failure response.
    let messages = session(&[request(3, "stepBack", parse(r#"{ "threadId": 1 }"#))]);
    let outputs = events_named(&messages, "output");
    assert!(
        outputs.iter().any(|e| e["body"]["output"]
            .as_str()
            .unwrap_or("")
            .contains("replay")),
        "a failing backend op must emit a visible output event mentioning replay"
    );
}

#[test]
fn list_checkpoints_and_task_timeline_return_real_shapes() {
    let messages = session(&[
        request(3, "listCheckpoints", parse(r#"{}"#)),
        request(4, "taskTimeline", parse(r#"{}"#)),
    ]);
    assert!(response_for(&messages, "listCheckpoints")["body"]["checkpoints"].is_array());
    assert!(response_for(&messages, "taskTimeline")["body"]["tasks"].is_array());
}
