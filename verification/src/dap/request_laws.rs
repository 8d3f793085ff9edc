//! What a request asks for, what is sent for it, and what the messages hold.
use vstd::prelude::*;

use super::backend::{Answer, Ask, BackendErrorSpec, ResumeKind, StopSpec};
use super::protocol::{self, RequestSpec};
use super::server::{self, Opened, Opening, Out, Target};
use super::transport::{self, TransportErrorSpec};
use crate::json::{self, Json};

verus! {

// ---------------------------------------------------------------------------
// What is asked
// ---------------------------------------------------------------------------

/// No two of the commands have one name.
proof fn lemma_commands()
    ensures
        "initialize"@.len() == 10 && "initialize"@[0] == 'i',
        "launch"@.len() == 6 && "launch"@[0] == 'l',
        "attach"@.len() == 6 && "attach"@[0] == 'a',
        "configurationDone"@.len() == 17,
        "disconnect"@.len() == 10 && "disconnect"@[0] == 'd',
        "setBreakpoints"@.len() == 14,
        "setExceptionBreakpoints"@.len() == 23,
        "threads"@.len() == 7 && "threads"@[0] == 't',
        "stackTrace"@.len() == 10 && "stackTrace"@[0] == 's',
        "scopes"@.len() == 6 && "scopes"@[0] == 's' && "scopes"@[1] == 'c',
        "variables"@.len() == 9,
        "listCheckpoints"@.len() == 15 && "listCheckpoints"@[0] == 'l',
        "taskTimeline"@.len() == 12,
        "continue"@.len() == 8 && "continue"@[0] == 'c',
        "reverseContinue"@.len() == 15 && "reverseContinue"@[0] == 'r',
        "stepBack"@.len() == 8 && "stepBack"@[0] == 's',
        "next"@.len() == 4,
        "stepIn"@.len() == 6 && "stepIn"@[0] == 's' && "stepIn"@[1] == 't',
        "stepOut"@.len() == 7 && "stepOut"@[0] == 's',
        "jumpToEvent"@.len() == 11,
{
    reveal_strlit("initialize");
    reveal_strlit("launch");
    reveal_strlit("attach");
    reveal_strlit("configurationDone");
    reveal_strlit("disconnect");
    reveal_strlit("setBreakpoints");
    reveal_strlit("setExceptionBreakpoints");
    reveal_strlit("threads");
    reveal_strlit("stackTrace");
    reveal_strlit("scopes");
    reveal_strlit("variables");
    reveal_strlit("listCheckpoints");
    reveal_strlit("taskTimeline");
    reveal_strlit("continue");
    reveal_strlit("reverseContinue");
    reveal_strlit("stepBack");
    reveal_strlit("next");
    reveal_strlit("stepIn");
    reveal_strlit("stepOut");
    reveal_strlit("jumpToEvent");
}

/// What a command asks of the target, by its name.
pub proof fn law_each_command_asks_its_own_question(request: RequestSpec)
    ensures
        request.command == "continue"@ ==> server::question_of(request) == Some(
            Ask::Resume(ResumeKind::Continue),
        ),
        request.command == "reverseContinue"@ ==> server::question_of(request) == Some(
            Ask::Resume(ResumeKind::ReverseContinue),
        ),
        request.command == "stepBack"@ ==> server::question_of(request) == Some(
            Ask::Resume(ResumeKind::StepBack),
        ),
        request.command == "next"@ ==> server::question_of(request) == Some(
            Ask::Resume(ResumeKind::Next),
        ),
        request.command == "stepIn"@ ==> server::question_of(request) == Some(
            Ask::Resume(ResumeKind::StepIn),
        ),
        request.command == "stepOut"@ ==> server::question_of(request) == Some(
            Ask::Resume(ResumeKind::StepOut),
        ),
        request.command == "jumpToEvent"@ ==> server::question_of(request) == Some(
            Ask::Jump(request.arguments),
        ),
        request.command == "launch"@ || request.command == "attach"@ ==> server::question_of(
            request,
        ) == Some(Ask::Launch(request.arguments)),
        request.command == "threads"@ ==> server::question_of(request) == Some(Ask::Threads),
        request.command == "stackTrace"@ ==> server::question_of(request) == Some(
            Ask::StackTrace(request.arguments),
        ),
        request.command == "scopes"@ ==> server::question_of(request) == Some(
            Ask::Scopes(request.arguments),
        ),
        request.command == "variables"@ ==> server::question_of(request) == Some(
            Ask::Variables(request.arguments),
        ),
        request.command == "listCheckpoints"@ ==> server::question_of(request) == Some(
            Ask::Checkpoints,
        ),
        request.command == "taskTimeline"@ ==> server::question_of(request) == Some(Ask::Timeline),
        request.command == "initialize"@ || request.command == "configurationDone"@
            || request.command == "disconnect"@ || request.command == "setBreakpoints"@
            || request.command == "setExceptionBreakpoints"@ ==> server::question_of(
            request,
        ) is None,
{
    lemma_commands();
}

// ---------------------------------------------------------------------------
// What is sent
// ---------------------------------------------------------------------------

/// A message is shown to the user: an `output` event to the error stream, with a
/// line of the message.
pub open spec fn is_shown(out: Out, message: Seq<char>) -> bool {
    &&& out matches Out::Event(name, body) && name == "output"@ && json::member(
        body,
        "category"@,
    ) == Some(Json::Text("stderr"@)) && json::member(body, "output"@) == Some(
        Json::Text(message + "\n"@),
    )
}

/// The events of a stop: where the target rests, which thread to look at; or that
/// it has ended, with its code, and that the session is over.
pub open spec fn tell_of_stop(outs: Seq<Out>, stop: StopSpec) -> bool {
    match stop {
        StopSpec::Stopped { reason, thread_id } => {
            &&& outs.len() == 1
            &&& outs[0] matches Out::Event(name, body) && name == "stopped"@ && json::member(
                body,
                "reason"@,
            ) == Some(Json::Text(reason)) && json::member(body, "threadId"@) == Some(
                Json::Integer(thread_id as int),
            ) && json::member(body, "allThreadsStopped"@) == Some(Json::Bool(true))
        },
        StopSpec::Exited { code } => {
            &&& outs.len() == 2
            &&& outs[0] matches Out::Event(name, body) && name == "exited"@ && json::member(
                body,
                "exitCode"@,
            ) == Some(Json::Integer(code as int))
            &&& outs[1] matches Out::Event(name, _) && name == "terminated"@
        },
    }
}

/// What is sent tells an answer: a body in the response; a stop in the events
/// behind it; a failure to the user, and then in the response.
pub open spec fn tell_answer(outs: Seq<Out>, answer: Answer) -> bool {
    match answer {
        Answer::Body(body) => outs.len() == 1 && outs[0] == Out::Success(body),
        Answer::Stop(stop) => outs.len() > 0 && outs[0] is Success && tell_of_stop(
            outs.skip(1),
            stop,
        ),
        Answer::Failed(e) => outs.len() == 2 && is_shown(outs[0], e.message()) && outs[1]
            == Out::Failure(e.message()),
    }
}

proof fn lemma_shown(message: Seq<char>)
    ensures
        is_shown(server::shown(message), message),
{
    reveal_strlit("category");
    reveal_strlit("output");
    let s = seq![
        ("category"@, Json::Text("stderr"@)),
        ("output"@, Json::Text(message + "\n"@)),
    ];
    assert("category"@.len() == 8 && "output"@.len() == 6);
    assert(json::have_distinct_names(s));
    json::law_an_object_holds_its_fields(s);
    assert(s[0].0 == "category"@ && s[1].0 == "output"@);
}

proof fn lemma_stop(stop: StopSpec)
    ensures
        tell_of_stop(server::stop_events(stop), stop),
{
    match stop {
        StopSpec::Stopped { reason, thread_id } => {
            reveal_strlit("reason");
            reveal_strlit("threadId");
            reveal_strlit("allThreadsStopped");
            let s = seq![
                ("reason"@, Json::Text(reason)),
                ("threadId"@, Json::Integer(thread_id as int)),
                ("allThreadsStopped"@, Json::Bool(true)),
            ];
            assert("reason"@.len() == 6 && "threadId"@.len() == 8 && "allThreadsStopped"@.len()
                == 17);
            assert(json::have_distinct_names(s));
            json::law_an_object_holds_its_fields(s);
            assert(s[0].0 == "reason"@ && s[1].0 == "threadId"@ && s[2].0
                == "allThreadsStopped"@);
        },
        StopSpec::Exited { code } => {
            let s = seq![("exitCode"@, Json::Integer(code as int))];
            assert(json::have_distinct_names(s));
            json::law_an_object_holds_its_fields(s);
            assert(s[0].0 == "exitCode"@);
        },
    }
}

/// What is sent for a request is made of the target's answer to the question that
/// the request asks, and of no other answer.
pub proof fn law_what_is_sent_tells_the_answer(
    request: RequestSpec,
    opening: Opening,
    answers: spec_fn(Ask) -> Answer,
    ask: Ask,
)
    requires
        server::question_of(request) == Some(ask),
        server::fits(ask, answers(ask)),
        server::trace_of(request) is None || opening is Ready,
    ensures
        tell_answer(server::outs_for(request, opening, answers), answers(ask)),
        ask == Ask::Resume(ResumeKind::Continue) && answers(ask) is Stop ==> (server::outs_for(
            request,
            opening,
            answers,
        )[0] matches Out::Success(body) && json::member(body, "allThreadsContinued"@) == Some(
            Json::Bool(true),
        )),
{
    lemma_commands();
    let outs = server::outs_for(request, opening, answers);
    match answers(ask) {
        Answer::Stop(stop) => {
            lemma_stop(stop);
            assert(outs.skip(1) =~= server::stop_events(stop));
        },
        Answer::Failed(e) => {
            lemma_shown(e.message());
        },
        Answer::Body(_) => {},
    }
    let s = seq![("allThreadsContinued"@, Json::Bool(true))];
    assert(json::have_distinct_names(s));
    json::law_an_object_holds_its_fields(s);
    assert(s[0].0 == "allThreadsContinued"@);
}

/// A launch on a platform that cannot replay says so, and then goes on with the
/// present target.
pub proof fn law_a_platform_without_replay_says_so(
    request: RequestSpec,
    answers: spec_fn(Ask) -> Answer,
)
    requires
        server::trace_of(request) is Some,
        server::fits(Ask::Launch(request.arguments), answers(Ask::Launch(request.arguments))),
    ensures
        ({
            let outs = server::outs_for(request, Opening::Unavailable, answers);
            &&& outs.len() > 0
            &&& is_shown(
                outs[0],
                "replay backend unavailable on this platform; serving the stub target"@,
            )
            &&& tell_answer(outs.skip(1), answers(Ask::Launch(request.arguments)))
        }),
{
    lemma_commands();
    let ask = Ask::Launch(request.arguments);
    let outs = server::outs_for(request, Opening::Unavailable, answers);
    lemma_shown("replay backend unavailable on this platform; serving the stub target"@);
    let rest = server::stop_outs(answers(ask), json::empty_object());
    assert(outs.skip(1) =~= rest);
    match answers(ask) {
        Answer::Stop(stop) => {
            lemma_stop(stop);
            assert(rest.skip(1) =~= server::stop_events(stop));
        },
        Answer::Failed(e) => {
            lemma_shown(e.message());
        },
        Answer::Body(_) => {},
    }
}

/// Commands that ask nothing are answered with success, whatever the target: the
/// first with what the server can do, and then the session begins. Any other
/// command is refused by its name.
pub proof fn law_commands_without_a_question(
    request: RequestSpec,
    opening: Opening,
    answers: spec_fn(Ask) -> Answer,
)
    requires
        server::question_of(request) is None,
    ensures
        ({
            let outs = server::outs_for(request, opening, answers);
            let command = request.command;
            if command == "initialize"@ {
                &&& outs.len() == 2
                &&& outs[0] matches Out::Success(body) && json::member(
                    body,
                    "supportsStepBack"@,
                ) == Some(Json::Bool(true)) && json::member(
                    body,
                    "supportsConfigurationDoneRequest"@,
                ) == Some(Json::Bool(true)) && json::member(body, "supportsRestartRequest"@)
                    == Some(Json::Bool(false)) && json::member(body, "supportsSetVariable"@)
                    == Some(Json::Bool(false))
                &&& outs[1] matches Out::Event(name, _) && name == "initialized"@
            } else if command == "configurationDone"@ || command == "disconnect"@ || command
                == "setBreakpoints"@ || command == "setExceptionBreakpoints"@ {
                outs.len() == 1 && outs[0] is Success
            } else {
                outs.len() == 1 && outs[0] == Out::Failure("unsupported request: "@ + command)
            }
        }),
{
    lemma_commands();
    reveal_strlit("supportsConfigurationDoneRequest");
    reveal_strlit("supportsStepBack");
    reveal_strlit("supportsRestartRequest");
    reveal_strlit("supportsSetVariable");
    let s = seq![
        ("supportsConfigurationDoneRequest"@, Json::Bool(true)),
        ("supportsStepBack"@, Json::Bool(true)),
        ("supportsRestartRequest"@, Json::Bool(false)),
        ("supportsSetVariable"@, Json::Bool(false)),
    ];
    assert("supportsConfigurationDoneRequest"@.len() == 32 && "supportsStepBack"@.len() == 16
        && "supportsRestartRequest"@.len() == 22 && "supportsSetVariable"@.len() == 19);
    assert(json::have_distinct_names(s));
    json::law_an_object_holds_its_fields(s);
    assert(s[0].0 == "supportsConfigurationDoneRequest"@ && s[1].0 == "supportsStepBack"@ && s[2].0
        == "supportsRestartRequest"@ && s[3].0 == "supportsSetVariable"@);
}

/// The recording that a launch asks for is the text under `trace` in its arguments;
/// no other request asks for one.
pub proof fn law_a_launch_names_its_recording(request: RequestSpec)
    ensures
        server::trace_of(request) == (if request.command == "launch"@ || request.command
            == "attach"@ {
            match json::member(request.arguments, "trace"@) {
                Some(Json::Text(path)) => Some(path),
                _ => None,
            }
        } else {
            None
        }),
{
}

// ---------------------------------------------------------------------------
// Messages
// ---------------------------------------------------------------------------

/// What a message holds: a response echoes the request's number and command and
/// says whether it succeeded, with a body or with a message; an event has a name
/// and a body.
pub proof fn law_a_message_holds_what_it_tells(seq: u64, request: RequestSpec, out: Out)
    ensures
        ({
            let message = server::message_of(seq, request, out);
            &&& json::member(message, "seq"@) == Some(Json::Integer(seq as int))
            &&& match out {
                Out::Success(body) => {
                    &&& json::member(message, "type"@) == Some(Json::Text("response"@))
                    &&& json::member(message, "request_seq"@) == Some(
                        Json::Integer(request.seq as int),
                    )
                    &&& json::member(message, "command"@) == Some(Json::Text(request.command))
                    &&& json::member(message, "success"@) == Some(Json::Bool(true))
                    &&& json::member(message, "body"@) == Some(body)
                    &&& json::member(message, "message"@) is None
                },
                Out::Failure(text) => {
                    &&& json::member(message, "type"@) == Some(Json::Text("response"@))
                    &&& json::member(message, "request_seq"@) == Some(
                        Json::Integer(request.seq as int),
                    )
                    &&& json::member(message, "command"@) == Some(Json::Text(request.command))
                    &&& json::member(message, "success"@) == Some(Json::Bool(false))
                    &&& json::member(message, "message"@) == Some(Json::Text(text))
                },
                Out::Event(name, body) => {
                    &&& json::member(message, "type"@) == Some(Json::Text("event"@))
                    &&& json::member(message, "event"@) == Some(Json::Text(name))
                    &&& json::member(message, "body"@) == Some(body)
                },
            }
        }),
{
    reveal_strlit("seq");
    reveal_strlit("type");
    reveal_strlit("request_seq");
    reveal_strlit("command");
    reveal_strlit("success");
    reveal_strlit("message");
    reveal_strlit("event");
    reveal_strlit("body");
    assert("type"@[0] == 't' && "body"@[0] == 'b');
    assert("command"@[0] == 'c' && "success"@[0] == 's' && "message"@[0] == 'm');
    assert("seq"@.len() == 3 && "type"@.len() == 4 && "request_seq"@.len() == 11);
    assert("command"@.len() == 7 && "success"@.len() == 7 && "message"@.len() == 7);
    assert("event"@.len() == 5 && "body"@.len() == 4);
    match out {
        Out::Success(body) => {
            let s = seq![
                ("seq"@, Json::Integer(seq as int)),
                ("type"@, Json::Text("response"@)),
                ("request_seq"@, Json::Integer(request.seq as int)),
                ("command"@, Json::Text(request.command)),
                ("success"@, Json::Bool(true)),
                ("body"@, body),
            ];
            assert(json::have_distinct_names(s));
            json::law_an_object_holds_its_fields(s);
            assert(s[0].0 == "seq"@ && s[1].0 == "type"@ && s[2].0 == "request_seq"@ && s[3].0
                == "command"@ && s[4].0 == "success"@ && s[5].0 == "body"@);
            if json::member(json::object_of(s), "message"@) is Some {
                let i = choose|i: int| 0 <= i < s.len() && (#[trigger] s[i]).0 == "message"@;
                assert(s[i].0 != "message"@);
            }
        },
        Out::Failure(text) => {
            let s = seq![
                ("seq"@, Json::Integer(seq as int)),
                ("type"@, Json::Text("response"@)),
                ("request_seq"@, Json::Integer(request.seq as int)),
                ("command"@, Json::Text(request.command)),
                ("success"@, Json::Bool(false)),
                ("message"@, Json::Text(text)),
            ];
            assert(json::have_distinct_names(s));
            json::law_an_object_holds_its_fields(s);
            assert(s[0].0 == "seq"@ && s[1].0 == "type"@ && s[2].0 == "request_seq"@ && s[3].0
                == "command"@ && s[4].0 == "success"@ && s[5].0 == "message"@);
        },
        Out::Event(name, body) => {
            let s = seq![
                ("seq"@, Json::Integer(seq as int)),
                ("type"@, Json::Text("event"@)),
                ("event"@, Json::Text(name)),
                ("body"@, body),
            ];
            assert(json::have_distinct_names(s));
            json::law_an_object_holds_its_fields(s);
            assert(s[0].0 == "seq"@ && s[1].0 == "type"@ && s[2].0 == "event"@ && s[3].0
                == "body"@);
        },
    }
}

/// A request is an object with a number and a command, and perhaps arguments.
pub proof fn law_a_request_is_read_by_its_members(message: Json, n: u64, command: Seq<char>)
    requires
        message is Object,
    ensures
        json::member(message, "seq"@) == Some(Json::Integer(n as int)) && json::member(
            message,
            "command"@,
        ) == Some(Json::Text(command)) ==> protocol::request_in(message) == Some(
            RequestSpec {
                seq: n,
                command,
                arguments: match json::member(message, "arguments"@) {
                    Some(arguments) => arguments,
                    None => Json::Null,
                },
            },
        ),
        !(json::member(message, "command"@) matches Some(Json::Text(_))) ==> protocol::request_in(
            message,
        ) is None,
        !(json::member(message, "seq"@) matches Some(Json::Integer(_))) ==> protocol::request_in(
            message,
        ) is None,
{
}

/// A request may also be written as a list: its number, its command and, if there
/// are any, its arguments.
pub proof fn law_a_request_is_read_from_a_list(n: u64, command: Seq<char>, arguments: Json)
    ensures
        protocol::request_in(
            Json::List(seq![Json::Integer(n as int), Json::Text(command), arguments]),
        ) == Some(RequestSpec { seq: n, command, arguments }),
        protocol::request_in(Json::List(seq![Json::Integer(n as int), Json::Text(command)]))
            == Some(RequestSpec { seq: n, command, arguments: Json::Null }),
        protocol::request_in(Json::List(seq![Json::Integer(n as int)])) is None,
        protocol::request_in(Json::List(seq![Json::Text(command), Json::Integer(n as int)])) is None,
{
}

/// What is said of an error: what an engine or a target says is passed on as it is.
pub proof fn law_errors_are_passed_on(s: Seq<char>)
    ensures
        BackendErrorSpec::NotSupported(s).message() == s,
        BackendErrorSpec::Engine(s).message() == s,
        BackendErrorSpec::BadArgs(s).message() == "invalid request arguments: "@ + s,
{
}

/// Requests are read one by one, in their order: a message that is no request is
/// passed over, the one that disconnects is the last, and what follows it is
/// left. Without an input there is none.
pub proof fn law_requests_are_read_in_order(message: Json, rest: Seq<u8>)
    requires
        transport::frame_read(transport::frame_of(message) + rest) == (
            Ok::<Option<Json>, TransportErrorSpec>(Some(message)),
            transport::frame_of(message).len() as int,
        ),
    ensures
        ({
            let (requests, result, left) = server::requests_read(
                transport::frame_of(message) + rest,
            );
            let (more, end, over) = server::requests_read(rest);
            &&& protocol::request_in(message) is None ==> requests == more && result == end && left
                == over
            &&& protocol::request_in(message) matches Some(request) ==> {
                &&& requests.len() > 0 && requests[0] == request
                &&& request.command == "disconnect"@ ==> requests.len() == 1 && result is Ok && left
                    == rest
                &&& request.command != "disconnect"@ ==> requests.skip(1) == more && result == end
                    && left == over
            }
        }),
        server::requests_read(Seq::empty()).0.len() == 0,
        server::requests_read(Seq::empty()).1 is Ok,
{
    let input = transport::frame_of(message) + rest;
    let at = transport::frame_of(message).len() as int;
    assert(input.skip(at) =~= rest);
    let more = server::requests_read(rest).0;
    if let Some(request) = protocol::request_in(message) {
        assert((seq![request] + more).skip(1) =~= more);
    }
    transport::law_a_message_has_the_length_it_is_given(Seq::empty());
}

/// A recording that a launch names takes over once it is open; any other request,
/// and a recording that cannot be opened, leave the target as it is.
pub proof fn law_an_opened_recording_takes_over(
    target: Target,
    request: RequestSpec,
    open: Opened,
)
    ensures
        server::trace_of(request) is None ==> server::serving(target, request, open) == target,
        !(open is Backend) ==> server::serving(target, request, open) == target,
        match open {
            Opened::Backend(recording) => server::trace_of(request) is Some ==> server::serving(
                target,
                request,
                open,
            ) == server::target_of(&*recording),
            _ => true,
        },
{
}

} // verus!
