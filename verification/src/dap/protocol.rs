//! The protocol's messages: the requests that come in, and the responses and
//! events that go out.
use serde_json::Value;
use vstd::prelude::*;

use crate::json::{self, Json};

verus! {

/// A request.
#[derive(Debug)]
pub struct Request {
    /// The client's sequence number, echoed in the response.
    pub seq: u64,
    /// The command, such as `initialize` or `threads`.
    pub command: String,
    /// The command's arguments; null where there are none.
    pub arguments: Value,
}

/// The value of a `Request`.
#[verifier::ext_equal]
pub struct RequestSpec {
    pub seq: u64,
    pub command: Seq<char>,
    pub arguments: Json,
}

impl DeepView for Request {
    type V = RequestSpec;

    open spec fn deep_view(&self) -> RequestSpec {
        RequestSpec {
            seq: self.seq,
            command: self.command@,
            arguments: json::json(self.arguments),
        }
    }
}

/// A request out of its three parts, where the first is a sequence number and
/// the second a command.
pub open spec fn request_of(seq: Json, command: Json, arguments: Json) -> Option<RequestSpec> {
    match (seq, command) {
        (Json::Integer(n), Json::Text(command)) if 0 <= n <= u64::MAX => Some(
            RequestSpec { seq: n as u64, command, arguments },
        ),
        _ => None,
    }
}

/// The request in a message: an object with a sequence number, a command and
/// perhaps arguments, or a list of these in this order. Anything else is no
/// request.
pub open spec fn request_in(message: Json) -> Option<RequestSpec> {
    match message {
        Json::Object(m) => if m.contains_key("seq"@) && m.contains_key("command"@) {
            request_of(
                m["seq"@],
                m["command"@],
                if m.contains_key("arguments"@) {
                    m["arguments"@]
                } else {
                    Json::Null
                },
            )
        } else {
            None
        },
        Json::List(s) => if s.len() == 2 {
            request_of(s[0], s[1], Json::Null)
        } else if s.len() == 3 {
            request_of(s[0], s[1], s[2])
        } else {
            None
        },
        _ => None,
    }
}

fn build_request(seq: &Value, command: &Value, arguments: Value) -> (r: Option<Request>)
    ensures
        r.deep_view() == request_of(
            json::json(*seq),
            json::json(*command),
            json::json(arguments),
        ),
{
    match (seq.as_u64(), command.as_str()) {
        (Some(seq), Some(command)) => Some(
            Request { seq, command: command.to_owned(), arguments },
        ),
        _ => None,
    }
}

impl Request {
    /// The request in a message; `None` for a message that is no request.
    #[must_use]
    pub fn from_message(message: &Value) -> (r: Option<Self>)
        ensures
            r.deep_view() == request_in(json::json(*message)),
    {
        if let Some(items) = message.as_array() {
            assert(json::jsons(items@).len() == items@.len());
            if items.len() == 2 {
                return build_request(&items[0], &items[1], json::null());
            }
            if items.len() == 3 {
                return build_request(&items[0], &items[1], json::copy(&items[2]));
            }
            return None;
        }
        let seq = json::get(message, "seq")?;
        let command = json::get(message, "command")?;
        let arguments = match json::get(message, "arguments") {
            Some(arguments) => json::copy(arguments),
            None => json::null(),
        };
        build_request(seq, command, arguments)
    }
}

/// A successful response.
pub open spec fn success_of(seq: u64, request: RequestSpec, body: Json) -> Json {
    json::object_of(
        seq![
            ("seq"@, Json::Integer(seq as int)),
            ("type"@, Json::Text("response"@)),
            ("request_seq"@, Json::Integer(request.seq as int)),
            ("command"@, Json::Text(request.command)),
            ("success"@, Json::Bool(true)),
            ("body"@, body),
        ],
    )
}

/// A failure response.
pub open spec fn failure_of(seq: u64, request: RequestSpec, message: Seq<char>) -> Json {
    json::object_of(
        seq![
            ("seq"@, Json::Integer(seq as int)),
            ("type"@, Json::Text("response"@)),
            ("request_seq"@, Json::Integer(request.seq as int)),
            ("command"@, Json::Text(request.command)),
            ("success"@, Json::Bool(false)),
            ("message"@, Json::Text(message)),
        ],
    )
}

/// An event.
pub open spec fn event_of(seq: u64, name: Seq<char>, body: Json) -> Json {
    json::object_of(
        seq![
            ("seq"@, Json::Integer(seq as int)),
            ("type"@, Json::Text("event"@)),
            ("event"@, Json::Text(name)),
            ("body"@, body),
        ],
    )
}

/// Build a successful response with a body.
#[must_use]
pub fn success(seq: u64, request: &Request, body: Value) -> (r: Value)
    ensures
        json::json(r) == success_of(seq, request.deep_view(), json::json(body)),
{
    let ghost b = json::json(body);
    let entries: Vec<(&str, Value)> = vec![
        ("seq", json::number(seq)),
        ("type", json::string("response")),
        ("request_seq", json::number(request.seq)),
        ("command", json::string(request.command.as_str())),
        ("success", json::truth(true)),
        ("body", body),
    ];
    assert(json::named(entries@) =~= seq![
        ("seq"@, Json::Integer(seq as int)),
        ("type"@, Json::Text("response"@)),
        ("request_seq"@, Json::Integer(request.seq as int)),
        ("command"@, Json::Text(request.command@)),
        ("success"@, Json::Bool(true)),
        ("body"@, b),
    ]);
    json::object(entries)
}

/// Build a failure response with a message for the user.
#[must_use]
pub fn failure(seq: u64, request: &Request, message: &str) -> (r: Value)
    ensures
        json::json(r) == failure_of(seq, request.deep_view(), message@),
{
    let entries: Vec<(&str, Value)> = vec![
        ("seq", json::number(seq)),
        ("type", json::string("response")),
        ("request_seq", json::number(request.seq)),
        ("command", json::string(request.command.as_str())),
        ("success", json::truth(false)),
        ("message", json::string(message)),
    ];
    assert(json::named(entries@) =~= seq![
        ("seq"@, Json::Integer(seq as int)),
        ("type"@, Json::Text("response"@)),
        ("request_seq"@, Json::Integer(request.seq as int)),
        ("command"@, Json::Text(request.command@)),
        ("success"@, Json::Bool(false)),
        ("message"@, Json::Text(message@)),
    ]);
    json::object(entries)
}

/// Build an event.
#[must_use]
pub fn event(seq: u64, name: &str, body: Value) -> (r: Value)
    ensures
        json::json(r) == event_of(seq, name@, json::json(body)),
{
    let ghost b = json::json(body);
    let entries: Vec<(&str, Value)> = vec![
        ("seq", json::number(seq)),
        ("type", json::string("event")),
        ("event", json::string(name)),
        ("body", body),
    ];
    assert(json::named(entries@) =~= seq![
        ("seq"@, Json::Integer(seq as int)),
        ("type"@, Json::Text("event"@)),
        ("event"@, Json::Text(name@)),
        ("body"@, b),
    ]);
    json::object(entries)
}

} // verus!
