//! The server: it turns requests into questions to a debug target, and answers
//! into responses and events. What a target fails at is always shown.
use serde_json::Value;
use vstd::prelude::*;

use super::backend::{
    self, Answer, Ask, BackendError, BackendErrorSpec, DebugBackend, ResumeKind, StopInfo,
    StopSpec, StubBackend,
};
use super::protocol::{self, Request, RequestSpec};
use super::stub;
use super::transport::{self, TransportError, TransportErrorSpec};
use crate::json::{self, Json};
use crate::text;

verus! {

/// One session with a client.
pub struct Server {
    /// The number of the last message that was sent.
    pub next_seq: u64,
    /// The debug target.
    pub backend: Box<dyn DebugBackend>,
}

/// What came of opening the recording that a launch asks for.
pub enum Opened {
    /// Recordings cannot be replayed on this platform.
    Unavailable,
    /// It failed.
    Failed(String),
    /// The recording, under replay.
    Backend(Box<dyn DebugBackend>),
}

/// What came of opening a recording.
pub enum Opening {
    Unavailable,
    Failed(Seq<char>),
    Ready,
}

/// What came of opening a recording.
pub open spec fn opening_of(open: Opened) -> Opening {
    match open {
        Opened::Unavailable => Opening::Unavailable,
        Opened::Failed(message) => Opening::Failed(message@),
        Opened::Backend(_) => Opening::Ready,
    }
}

/// What is sent for a request, apart from its number.
#[verifier::ext_equal]
pub enum Out {
    Success(Json),
    Failure(Seq<char>),
    Event(Seq<char>, Json),
}

enum Outgoing {
    Success(Value),
    Failure(String),
    Event(String, Value),
}

impl DeepView for Outgoing {
    type V = Out;

    closed spec fn deep_view(&self) -> Out {
        match self {
            Outgoing::Success(body) => Out::Success(json::json(*body)),
            Outgoing::Failure(message) => Out::Failure(message@),
            Outgoing::Event(name, body) => Out::Event(name@, json::json(*body)),
        }
    }
}

// ---------------------------------------------------------------------------
// What is sent
// ---------------------------------------------------------------------------

/// What the server can do.
pub open spec fn capabilities_body() -> Json {
    json::object_of(
        seq![
            ("supportsConfigurationDoneRequest"@, Json::Bool(true)),
            ("supportsStepBack"@, Json::Bool(true)),
            ("supportsRestartRequest"@, Json::Bool(false)),
            ("supportsSetVariable"@, Json::Bool(false)),
        ],
    )
}

/// A message that the user sees.
pub open spec fn shown(message: Seq<char>) -> Out {
    Out::Event(
        "output"@,
        json::object_of(
            seq![
                ("category"@, Json::Text("stderr"@)),
                ("output"@, Json::Text(message + "\n"@)),
            ],
        ),
    )
}

/// A failure is shown, and then told in the response.
pub open spec fn failed(message: Seq<char>) -> Seq<Out> {
    seq![shown(message), Out::Failure(message)]
}

/// The events of a stop.
pub open spec fn stop_events(stop: StopSpec) -> Seq<Out> {
    match stop {
        StopSpec::Stopped { reason, thread_id } => seq![
            Out::Event(
                "stopped"@,
                json::object_of(
                    seq![
                        ("reason"@, Json::Text(reason)),
                        ("threadId"@, Json::Integer(thread_id as int)),
                        ("allThreadsStopped"@, Json::Bool(true)),
                    ],
                ),
            ),
        ],
        StopSpec::Exited { code } => seq![
            Out::Event(
                "exited"@,
                json::object_of(seq![("exitCode"@, Json::Integer(code as int))]),
            ),
            Out::Event("terminated"@, json::empty_object()),
        ],
    }
}

/// What is sent for an answer with a body.
pub open spec fn body_outs(answer: Answer) -> Seq<Out> {
    match answer {
        Answer::Body(body) => seq![Out::Success(body)],
        Answer::Failed(e) => failed(e.message()),
        Answer::Stop(_) => Seq::empty(),
    }
}

/// What is sent for an answer that is a stop: a response with a body, then the
/// events.
pub open spec fn stop_outs(answer: Answer, body: Json) -> Seq<Out> {
    match answer {
        Answer::Stop(stop) => seq![Out::Success(body)] + stop_events(stop),
        Answer::Failed(e) => failed(e.message()),
        Answer::Body(_) => Seq::empty(),
    }
}

/// The body of the response to a request to go on.
pub open spec fn resume_body(kind: ResumeKind) -> Json {
    if kind == ResumeKind::Continue {
        json::object_of(seq![("allThreadsContinued"@, Json::Bool(true))])
    } else {
        json::empty_object()
    }
}

/// A request to begin a session.
pub open spec fn is_launch(request: RequestSpec) -> bool {
    request.command == "launch"@ || request.command == "attach"@
}

/// The recording that a launch asks for.
pub open spec fn trace_of(request: RequestSpec) -> Option<Seq<char>> {
    match request.arguments {
        Json::Object(m) => if is_launch(request) && m.contains_key("trace"@) {
            match m["trace"@] {
                Json::Text(path) => Some(path),
                _ => None,
            }
        } else {
            None
        },
        _ => None,
    }
}

/// What is said where recordings cannot be replayed.
pub open spec fn unavailable_message() -> Seq<char> {
    "replay backend unavailable on this platform; serving the stub target"@
}

/// What is sent for a launch.
pub open spec fn launch_outs(
    request: RequestSpec,
    opening: Opening,
    answers: spec_fn(Ask) -> Answer,
) -> Seq<Out> {
    let launched = stop_outs(answers(Ask::Launch(request.arguments)), json::empty_object());
    if trace_of(request) is None {
        launched
    } else {
        match opening {
            Opening::Failed(message) => failed(message),
            Opening::Unavailable => seq![shown(unavailable_message())] + launched,
            Opening::Ready => launched,
        }
    }
}

/// What is sent for a request, given what the target answers.
pub open spec fn outs_for(
    request: RequestSpec,
    opening: Opening,
    answers: spec_fn(Ask) -> Answer,
) -> Seq<Out> {
    let command = request.command;
    let arguments = request.arguments;
    let resumed = |kind: ResumeKind| stop_outs(answers(Ask::Resume(kind)), resume_body(kind));
    if command == "initialize"@ {
        seq![
            Out::Success(capabilities_body()),
            Out::Event("initialized"@, json::empty_object()),
        ]
    } else if is_launch(request) {
        launch_outs(request, opening, answers)
    } else if command == "configurationDone"@ || command == "disconnect"@ || command
        == "setBreakpoints"@ || command == "setExceptionBreakpoints"@ {
        seq![Out::Success(json::empty_object())]
    } else if command == "threads"@ {
        body_outs(answers(Ask::Threads))
    } else if command == "stackTrace"@ {
        body_outs(answers(Ask::StackTrace(arguments)))
    } else if command == "scopes"@ {
        body_outs(answers(Ask::Scopes(arguments)))
    } else if command == "variables"@ {
        body_outs(answers(Ask::Variables(arguments)))
    } else if command == "listCheckpoints"@ {
        body_outs(answers(Ask::Checkpoints))
    } else if command == "taskTimeline"@ {
        body_outs(answers(Ask::Timeline))
    } else if command == "continue"@ {
        resumed(ResumeKind::Continue)
    } else if command == "reverseContinue"@ {
        resumed(ResumeKind::ReverseContinue)
    } else if command == "stepBack"@ {
        resumed(ResumeKind::StepBack)
    } else if command == "next"@ {
        resumed(ResumeKind::Next)
    } else if command == "stepIn"@ {
        resumed(ResumeKind::StepIn)
    } else if command == "stepOut"@ {
        resumed(ResumeKind::StepOut)
    } else if command == "jumpToEvent"@ {
        stop_outs(answers(Ask::Jump(arguments)), json::empty_object())
    } else {
        seq![Out::Failure("unsupported request: "@ + command)]
    }
}

/// The question that a request puts to the target, if it puts one.
pub open spec fn question_of(request: RequestSpec) -> Option<Ask> {
    let command = request.command;
    let arguments = request.arguments;
    if command == "initialize"@ {
        None
    } else if is_launch(request) {
        Some(Ask::Launch(arguments))
    } else if command == "configurationDone"@ || command == "disconnect"@ || command
        == "setBreakpoints"@ || command == "setExceptionBreakpoints"@ {
        None
    } else if command == "threads"@ {
        Some(Ask::Threads)
    } else if command == "stackTrace"@ {
        Some(Ask::StackTrace(arguments))
    } else if command == "scopes"@ {
        Some(Ask::Scopes(arguments))
    } else if command == "variables"@ {
        Some(Ask::Variables(arguments))
    } else if command == "listCheckpoints"@ {
        Some(Ask::Checkpoints)
    } else if command == "taskTimeline"@ {
        Some(Ask::Timeline)
    } else if command == "continue"@ {
        Some(Ask::Resume(ResumeKind::Continue))
    } else if command == "reverseContinue"@ {
        Some(Ask::Resume(ResumeKind::ReverseContinue))
    } else if command == "stepBack"@ {
        Some(Ask::Resume(ResumeKind::StepBack))
    } else if command == "next"@ {
        Some(Ask::Resume(ResumeKind::Next))
    } else if command == "stepIn"@ {
        Some(Ask::Resume(ResumeKind::StepIn))
    } else if command == "stepOut"@ {
        Some(Ask::Resume(ResumeKind::StepOut))
    } else if command == "jumpToEvent"@ {
        Some(Ask::Jump(arguments))
    } else {
        None
    }
}

/// An answer fits its question: what asks for a body gets a body, what asks the
/// target to move gets a stop; or it fails.
pub open spec fn fits(ask: Ask, answer: Answer) -> bool {
    match ask {
        Ask::Launch(_) | Ask::Resume(_) | Ask::Jump(_) => !(answer is Body),
        _ => !(answer is Stop),
    }
}

/// The target is asked what the request needs: not where a recording was to be
/// opened and could not be.
pub open spec fn is_asked(request: RequestSpec, opening: Opening) -> bool {
    !(trace_of(request) is Some && opening is Failed)
}

/// What the request needs of the target is answered in kind.
pub open spec fn is_answered_in_kind(
    request: RequestSpec,
    opening: Opening,
    answers: spec_fn(Ask) -> Answer,
) -> bool {
    is_asked(request, opening) ==> (question_of(request) matches Some(ask) ==> fits(
        ask,
        answers(ask),
    ))
}

/// A message with its number.
pub open spec fn message_of(seq: u64, request: RequestSpec, out: Out) -> Json {
    match out {
        Out::Success(body) => protocol::success_of(seq, request, body),
        Out::Failure(message) => protocol::failure_of(seq, request, message),
        Out::Event(name, body) => protocol::event_of(seq, name, body),
    }
}

/// Messages numbered on after those that were sent.
pub open spec fn numbered(sent: u64, request: RequestSpec, outs: Seq<Out>) -> Seq<Json> {
    Seq::new(outs.len(), |i: int| message_of((sent + i + 1) as u64, request, outs[i]))
}

/// No request takes more messages than this.
pub const MAX_MESSAGES: usize = 4;

proof fn lemma_few_messages()
    ensures
        forall|request: RequestSpec, opening: Opening, answers: spec_fn(Ask) -> Answer|
            (#[trigger] outs_for(request, opening, answers)).len() <= MAX_MESSAGES,
{
}

/// The requests of an input up to a disconnect, the end or an error; how the
/// reading ended; and what was not read. A message that is no request is passed
/// over.
pub open spec fn requests_read(input: Seq<u8>) -> (
    Seq<RequestSpec>,
    Result<(), TransportErrorSpec>,
    Seq<u8>,
)
    decreases input.len(),
{
    let (frame, at) = transport::frame_read(input);
    let rest = input.skip(at);
    match frame {
        Err(e) => (Seq::empty(), Err(e), rest),
        Ok(None) => (Seq::empty(), Ok(()), rest),
        Ok(Some(message)) => {
            proof {
                lemma_frame_advances(input);
            }
            match protocol::request_in(message) {
                None => requests_read(rest),
                Some(request) => if request.command == "disconnect"@ {
                    (seq![request], Ok(()), rest)
                } else {
                    let (more, result, left) = requests_read(rest);
                    (seq![request] + more, result, left)
                },
            }
        },
    }
}

/// A message that is read takes some of the input.
pub proof fn lemma_frame_advances(input: Seq<u8>)
    ensures
        transport::frame_read(input).0 matches Ok(Some(_)) ==> 0 < transport::frame_read(input).1
            <= input.len(),
{
    transport::lemma_headers_advance(input, 0, transport::no_headers());
}

/// What is sent for requests, in order, by a target that stays as it is.
pub open spec fn dialogue(
    requests: Seq<RequestSpec>,
    sent: u64,
    answers: spec_fn(Ask) -> Answer,
) -> Seq<Json>
    decreases requests.len(),
{
    if requests.len() == 0 {
        Seq::empty()
    } else {
        let before = dialogue(requests.drop_last(), sent, answers);
        before + numbered(
            (sent + before.len()) as u64,
            requests.last(),
            outs_for(requests.last(), Opening::Unavailable, answers),
        )
    }
}

/// A debug target, by what it answers in its present state.
#[verifier::ext_equal]
pub struct Target {
    /// What it answers.
    pub answers: spec_fn(Ask) -> Answer,
    /// It answers alike forever.
    pub is_static: bool,
}

/// The target that a backend is in its present state.
pub open spec fn target_of<B: DebugBackend + ?Sized>(b: &B) -> Target {
    Target { answers: |ask: Ask| b.answer(ask), is_static: b.is_static() }
}

/// The target that serves a request: the recording that was opened for it, else
/// the present one.
pub open spec fn serving(target: Target, request: RequestSpec, open: Opened) -> Target {
    match open {
        Opened::Backend(b) if trace_of(request) is Some => target_of(&*b),
        _ => target,
    }
}

/// The messages are what is sent for a request, where `target` is the target
/// before it, `open` what came of opening the recording that it asks for, and
/// `next` the target after it.
pub open spec fn is_turn(
    request: RequestSpec,
    sent: u64,
    messages: Seq<Json>,
    target: Target,
    open: Opened,
    next: Target,
) -> bool {
    let t = serving(target, request, open);
    &&& is_answered_in_kind(request, opening_of(open), t.answers)
    &&& messages == numbered(sent, request, outs_for(request, opening_of(open), t.answers))
    &&& t.is_static ==> next == t
}

/// A session: what came of opening the recording that each request asks for, the
/// targets before and after each request, the messages that are sent, and where
/// those for each request begin and end.
pub struct Session {
    pub openings: Seq<Opened>,
    pub targets: Seq<Target>,
    pub messages: Seq<Json>,
    pub cuts: Seq<int>,
}

/// The messages from one cut to the next are what is sent for a request.
pub open spec fn is_turn_at(requests: Seq<RequestSpec>, sent: u64, s: Session, i: int) -> bool {
    &&& 0 <= s.cuts[i] <= s.cuts[i + 1] <= s.messages.len()
    &&& is_turn(
        requests[i],
        (sent + s.cuts[i]) as u64,
        s.messages.subrange(s.cuts[i], s.cuts[i + 1]),
        s.targets[i],
        s.openings[i],
        s.targets[i + 1],
    )
}

/// The messages are what is sent for requests, in order, each by the target that
/// the one before has left.
pub open spec fn is_session(requests: Seq<RequestSpec>, sent: u64, s: Session) -> bool {
    &&& s.openings.len() == requests.len()
    &&& s.targets.len() == requests.len() + 1
    &&& s.cuts.len() == requests.len() + 1
    &&& s.cuts[0] == 0
    &&& s.cuts.last() == s.messages.len()
    &&& forall|i: int| 0 <= i < requests.len() ==> #[trigger] is_turn_at(requests, sent, s, i)
}

/// A session with one more turn.
spec fn with_turn(s: Session, open: Opened, messages: Seq<Json>, next: Target) -> Session {
    Session {
        openings: s.openings.push(open),
        targets: s.targets.push(next),
        messages: s.messages + messages,
        cuts: s.cuts.push((s.messages.len() + messages.len()) as int),
    }
}

proof fn lemma_session_goes_on(
    requests: Seq<RequestSpec>,
    sent: u64,
    s: Session,
    request: RequestSpec,
    open: Opened,
    messages: Seq<Json>,
    next: Target,
)
    requires
        is_session(requests, sent, s),
        is_turn(
            request,
            (sent + s.messages.len()) as u64,
            messages,
            s.targets.last(),
            open,
            next,
        ),
    ensures
        is_session(requests.push(request), sent, with_turn(s, open, messages, next)),
{
    let t = with_turn(s, open, messages, next);
    assert forall|i: int| 0 <= i < requests.push(request).len() implies #[trigger] is_turn_at(
        requests.push(request),
        sent,
        t,
        i,
    ) by {
        if i < requests.len() {
            assert(is_turn_at(requests, sent, s, i));
            assert(t.messages.subrange(s.cuts[i], s.cuts[i + 1]) =~= s.messages.subrange(
                s.cuts[i],
                s.cuts[i + 1],
            ));
        } else {
            assert(t.messages.subrange(s.messages.len() as int, t.messages.len() as int)
                =~= messages);
        }
    }
}

/// What can come of opening the recording that a request asks for; a request that
/// asks for none opens none.
pub open spec fn can_open<F: Fn(String) -> Opened>(
    open: F,
    request: RequestSpec,
    opened: Opened,
) -> bool {
    match trace_of(request) {
        Some(path) => exists|p: String| p@ == path && #[trigger] open.ensures((p,), opened),
        None => opened is Unavailable,
    }
}

/// No recording can be opened.
pub open spec fn cannot_open<F: Fn(String) -> Opened>(open: F) -> bool {
    forall|p: String, opened: Opened| #[trigger] open.ensures((p,), opened) ==> opened is Unavailable
}

/// Messages as they are sent.
pub open spec fn frames_of(messages: Seq<Json>) -> Seq<u8>
    decreases messages.len(),
{
    if messages.len() == 0 {
        Seq::empty()
    } else {
        frames_of(messages.drop_last()) + transport::frame_of(messages.last())
    }
}

proof fn lemma_frames_concat(a: Seq<Json>, b: Seq<Json>)
    ensures
        frames_of(a + b) == frames_of(a) + frames_of(b),
    decreases b.len(),
{
    if b.len() == 0 {
        assert(a + b =~= a);
        assert(frames_of(a) + frames_of(b) =~= frames_of(a));
    } else {
        assert((a + b).drop_last() =~= a + b.drop_last());
        lemma_frames_concat(a, b.drop_last());
        assert((a + b).last() == b.last());
        assert(frames_of(a + b) =~= frames_of(a) + frames_of(b));
    }
}

fn write_all(writer: &mut Vec<u8>, messages: &Vec<Value>)
    ensures
        final(writer)@ == old(writer)@ + frames_of(json::jsons(messages@)),
{
    let ghost ms = json::jsons(messages@);
    let mut i: usize = 0;
    assert(ms.take(0) =~= Seq::empty());
    assert(writer@ =~= old(writer)@ + frames_of(ms.take(0)));
    while i < messages.len()
        invariant
            i <= messages.len(),
            ms == json::jsons(messages@),
            writer@ == old(writer)@ + frames_of(ms.take(i as int)),
        decreases messages.len() - i,
    {
        let _ = transport::write_frame(writer, &messages[i]);
        proof {
            let t = ms.take(i + 1);
            assert(t.drop_last() =~= ms.take(i as int));
            assert(t.last() == json::json(messages@[i as int]));
            assert(writer@ =~= old(writer)@ + frames_of(t));
        }
        i += 1;
    }
    assert(ms.take(ms.len() as int) =~= ms);
}

// ---------------------------------------------------------------------------
// Making it
// ---------------------------------------------------------------------------

fn output(message: &str) -> (r: Outgoing)
    ensures
        r.deep_view() == shown(message@),
{
    let mut line = message.to_owned();
    line.append("\n");
    let entries: Vec<(&str, Value)> = vec![
        ("category", json::string("stderr")),
        ("output", json::string(line.as_str())),
    ];
    assert(json::named(entries@) =~= seq![
        ("category"@, Json::Text("stderr"@)),
        ("output"@, Json::Text(message@ + "\n"@)),
    ]);
    Outgoing::Event("output".to_owned(), json::object(entries))
}

fn fail(message: String) -> (r: Vec<Outgoing>)
    ensures
        r.deep_view() == failed(message@),
{
    let ghost m = message@;
    let event = output(message.as_str());
    let outs: Vec<Outgoing> = vec![event, Outgoing::Failure(message)];
    assert(outs.deep_view() =~= failed(m));
    outs
}

fn succeed(body: Value) -> (r: Vec<Outgoing>)
    ensures
        r.deep_view() == seq![Out::Success(json::json(body))],
{
    let ghost b = json::json(body);
    let outs: Vec<Outgoing> = vec![Outgoing::Success(body)];
    assert(outs.deep_view() =~= seq![Out::Success(b)]);
    outs
}

fn emit_stop(stop: StopInfo) -> (r: Vec<Outgoing>)
    ensures
        r.deep_view() == stop_events(stop.deep_view()),
{
    match stop {
        StopInfo::Stopped { reason, thread_id } => {
            let entries: Vec<(&str, Value)> = vec![
                ("reason", json::string(reason.as_str())),
                ("threadId", json::number(thread_id)),
                ("allThreadsStopped", json::truth(true)),
            ];
            assert(json::named(entries@) =~= seq![
                ("reason"@, Json::Text(reason@)),
                ("threadId"@, Json::Integer(thread_id as int)),
                ("allThreadsStopped"@, Json::Bool(true)),
            ]);
            let outs: Vec<Outgoing> = vec![
                Outgoing::Event("stopped".to_owned(), json::object(entries)),
            ];
            assert(outs.deep_view() =~= stop_events(stop.deep_view()));
            outs
        },
        StopInfo::Exited { code } => {
            let outs: Vec<Outgoing> = vec![
                Outgoing::Event(
                    "exited".to_owned(),
                    stub::single("exitCode", json::signed_number(code)),
                ),
                Outgoing::Event("terminated".to_owned(), stub::nothing()),
            ];
            assert(outs.deep_view() =~= stop_events(stop.deep_view()));
            outs
        },
    }
}

/// Send a body, or show why there is none.
fn answer_body(body: Result<Value, BackendError>) -> (r: Vec<Outgoing>)
    ensures
        r.deep_view() == body_outs(backend::body_answer(body)),
{
    match body {
        Ok(body) => succeed(body),
        Err(e) => fail(e.message()),
    }
}

/// Respond and tell of a stop, or show why there is none.
fn answer_stop(stop: Result<StopInfo, BackendError>, body: Value) -> (r: Vec<Outgoing>)
    ensures
        r.deep_view() == stop_outs(backend::stop_answer(stop), json::json(body)),
{
    match stop {
        Ok(stop) => {
            let mut outs = succeed(body);
            let mut events = emit_stop(stop);
            let ghost (a, b) = (outs.deep_view(), events.deep_view());
            outs.append(&mut events);
            assert(outs.deep_view() =~= a + b);
            outs
        },
        Err(e) => fail(e.message()),
    }
}

fn capabilities() -> (r: Value)
    ensures
        json::json(r) == capabilities_body(),
{
    let entries: Vec<(&str, Value)> = vec![
        ("supportsConfigurationDoneRequest", json::truth(true)),
        ("supportsStepBack", json::truth(true)),
        ("supportsRestartRequest", json::truth(false)),
        ("supportsSetVariable", json::truth(false)),
    ];
    assert(json::named(entries@) =~= seq![
        ("supportsConfigurationDoneRequest"@, Json::Bool(true)),
        ("supportsStepBack"@, Json::Bool(true)),
        ("supportsRestartRequest"@, Json::Bool(false)),
        ("supportsSetVariable"@, Json::Bool(false)),
    ]);
    json::object(entries)
}

/// Whether the request begins a session.
fn begins_session(request: &Request) -> (r: bool)
    ensures
        r == is_launch(request.deep_view()),
{
    text::same(request.command.as_str(), "launch") || text::same(
        request.command.as_str(),
        "attach",
    )
}

/// The recording that a launch asks for, to be opened before it is answered.
#[must_use]
pub fn requested_trace(request: &Request) -> (r: Option<String>)
    ensures
        r.deep_view() == trace_of(request.deep_view()),
{
    if begins_session(request) {
        if let Some(trace) = json::get(&request.arguments, "trace") {
            if let Some(path) = trace.as_str() {
                return Some(path.to_owned());
            }
        }
    }
    None
}

impl Default for Server {
    fn default() -> (r: Self)
        ensures
            r.next_seq == 0,
            r.backend.is_static(),
            forall|ask: Ask| #[trigger] r.backend.answer(ask) == backend::stub_answer(ask),
    {
        Server { next_seq: 0, backend: Box::new(StubBackend::new()) }
    }
}

impl Server {
    /// A session that serves the static target until a launch brings another.
    #[must_use]
    pub fn new() -> (r: Self)
        ensures
            r.next_seq == 0,
            r.backend.is_static(),
            forall|ask: Ask| #[trigger] r.backend.answer(ask) == backend::stub_answer(ask),
    {
        Server { next_seq: 0, backend: Box::new(StubBackend::new()) }
    }

    fn on_resume(&mut self, kind: ResumeKind) -> (r: Vec<Outgoing>)
        ensures
            r.deep_view() == stop_outs(
                old(self).backend.answer(Ask::Resume(kind)),
                resume_body(kind),
            ),
            fits(Ask::Resume(kind), old(self).backend.answer(Ask::Resume(kind))),
            final(self).next_seq == old(self).next_seq,
            old(self).backend.is_static() ==> {
                &&& final(self).backend.is_static()
                &&& forall|a: Ask| #[trigger]
                    final(self).backend.answer(a) == old(self).backend.answer(a)
            },
    {
        let body = if kind == ResumeKind::Continue {
            stub::single("allThreadsContinued", json::truth(true))
        } else {
            stub::nothing()
        };
        let stop = self.backend.resume(kind);
        answer_stop(stop, body)
    }

    /// Launch the target. One that was opened takes the place of the present.
    fn on_launch(&mut self, request: &Request, open: Opened) -> (r: Vec<Outgoing>)
        ensures
            r.deep_view() == launch_outs(
                request.deep_view(),
                opening_of(open),
                match open {
                    Opened::Backend(b) if trace_of(request.deep_view()) is Some => {
                        |ask: Ask| b.answer(ask)
                    },
                    _ => |ask: Ask| old(self).backend.answer(ask),
                },
            ),
            is_asked(request.deep_view(), opening_of(open)) ==> fits(
                Ask::Launch(json::json(request.arguments)),
                match open {
                    Opened::Backend(b) if trace_of(request.deep_view()) is Some => b.answer(
                        Ask::Launch(json::json(request.arguments)),
                    ),
                    _ => old(self).backend.answer(Ask::Launch(json::json(request.arguments))),
                },
            ),
            final(self).next_seq == old(self).next_seq,
            match open {
                Opened::Backend(b) if trace_of(request.deep_view()) is Some => b.is_static() ==> {
                    &&& final(self).backend.is_static()
                    &&& forall|a: Ask| #[trigger] final(self).backend.answer(a) == b.answer(a)
                },
                _ => old(self).backend.is_static() ==> {
                    &&& final(self).backend.is_static()
                    &&& forall|a: Ask| #[trigger]
                        final(self).backend.answer(a) == old(self).backend.answer(a)
                },
            },
    {
        if requested_trace(request).is_some() {
            match open {
                Opened::Backend(mut b) => {
                    let stop = b.launch(&request.arguments);
                    std::mem::swap(&mut self.backend, &mut b);
                    answer_stop(stop, stub::nothing())
                },
                Opened::Unavailable => {
                    let mut outs: Vec<Outgoing> = vec![
                        output(
                            "replay backend unavailable on this platform; serving the stub target",
                        ),
                    ];
                    assert(outs.deep_view() =~= seq![shown(unavailable_message())]);
                    let stop = self.backend.launch(&request.arguments);
                    let mut more = answer_stop(stop, stub::nothing());
                    let ghost (a, b) = (outs.deep_view(), more.deep_view());
                    outs.append(&mut more);
                    assert(outs.deep_view() =~= a + b);
                    outs
                },
                Opened::Failed(message) => fail(message),
            }
        } else {
            let stop = self.backend.launch(&request.arguments);
            answer_stop(stop, stub::nothing())
        }
    }

    /// Ask the target what the request needs, and make what is sent of it.
    fn dispatch(&mut self, request: &Request, open: Opened) -> (r: Vec<Outgoing>)
        ensures
            r.deep_view() == outs_for(
                request.deep_view(),
                opening_of(open),
                match open {
                    Opened::Backend(b) if trace_of(request.deep_view()) is Some => {
                        |ask: Ask| b.answer(ask)
                    },
                    _ => |ask: Ask| old(self).backend.answer(ask),
                },
            ),
            is_answered_in_kind(
                request.deep_view(),
                opening_of(open),
                match open {
                    Opened::Backend(b) if trace_of(request.deep_view()) is Some => {
                        |ask: Ask| b.answer(ask)
                    },
                    _ => |ask: Ask| old(self).backend.answer(ask),
                },
            ),
            final(self).next_seq == old(self).next_seq,
            match open {
                Opened::Backend(b) if trace_of(request.deep_view()) is Some => b.is_static() ==> {
                    &&& final(self).backend.is_static()
                    &&& forall|a: Ask| #[trigger] final(self).backend.answer(a) == b.answer(a)
                },
                _ => old(self).backend.is_static() ==> {
                    &&& final(self).backend.is_static()
                    &&& forall|a: Ask| #[trigger]
                        final(self).backend.answer(a) == old(self).backend.answer(a)
                },
            },
    {
        let command = request.command.as_str();
        if text::same(command, "initialize") {
            proof {
                reveal_strlit("initialize");
                reveal_strlit("launch");
                reveal_strlit("attach");
            }
            assert("initialize"@.len() != "launch"@.len());
            assert("initialize"@.len() != "attach"@.len());
            let outs: Vec<Outgoing> = vec![
                Outgoing::Success(capabilities()),
                Outgoing::Event("initialized".to_owned(), stub::nothing()),
            ];
            assert(outs.deep_view() =~= seq![
                Out::Success(capabilities_body()),
                Out::Event("initialized"@, json::empty_object()),
            ]);
            outs
        } else if begins_session(request) {
            self.on_launch(request, open)
        } else if text::same(command, "configurationDone") || text::same(command, "disconnect")
            || text::same(command, "setBreakpoints") || text::same(
            command,
            "setExceptionBreakpoints",
        ) {
            succeed(stub::nothing())
        } else if text::same(command, "threads") {
            let body = self.backend.threads();
            answer_body(body)
        } else if text::same(command, "stackTrace") {
            let body = self.backend.stack_trace(&request.arguments);
            answer_body(body)
        } else if text::same(command, "scopes") {
            let body = self.backend.scopes(&request.arguments);
            answer_body(body)
        } else if text::same(command, "variables") {
            let body = self.backend.variables(&request.arguments);
            answer_body(body)
        } else if text::same(command, "listCheckpoints") {
            let body = self.backend.list_checkpoints();
            answer_body(body)
        } else if text::same(command, "taskTimeline") {
            let body = self.backend.task_timeline();
            answer_body(body)
        } else if text::same(command, "continue") {
            self.on_resume(ResumeKind::Continue)
        } else if text::same(command, "reverseContinue") {
            self.on_resume(ResumeKind::ReverseContinue)
        } else if text::same(command, "stepBack") {
            self.on_resume(ResumeKind::StepBack)
        } else if text::same(command, "next") {
            self.on_resume(ResumeKind::Next)
        } else if text::same(command, "stepIn") {
            self.on_resume(ResumeKind::StepIn)
        } else if text::same(command, "stepOut") {
            self.on_resume(ResumeKind::StepOut)
        } else if text::same(command, "jumpToEvent") {
            let stop = self.backend.jump_to_event(&request.arguments);
            answer_stop(stop, stub::nothing())
        } else {
            let mut message = "unsupported request: ".to_owned();
            message.append(command);
            let outs: Vec<Outgoing> = vec![Outgoing::Failure(message)];
            assert(outs.deep_view() =~= seq![Out::Failure("unsupported request: "@ + command@)]);
            outs
        }
    }

    fn number(&mut self, request: &Request, outs: Vec<Outgoing>) -> (r: Vec<Value>)
        requires
            old(self).next_seq + outs@.len() <= u64::MAX,
        ensures
            json::jsons(r@) == numbered(
                old(self).next_seq,
                request.deep_view(),
                outs.deep_view(),
            ),
            final(self).next_seq == old(self).next_seq + outs@.len(),
            final(self).backend == old(self).backend,
    {
        let ghost sent = self.next_seq;
        let ghost want = numbered(sent, request.deep_view(), outs.deep_view());
        let mut messages: Vec<Value> = Vec::new();
        let mut i: usize = 0;
        while i < outs.len()
            invariant
                i <= outs.len(),
                sent == old(self).next_seq,
                sent + outs@.len() <= u64::MAX,
                self.next_seq == sent + i,
                self.backend == old(self).backend,
                want == numbered(sent, request.deep_view(), outs.deep_view()),
                messages.len() == i,
                forall|k: int|
                    0 <= k < i ==> json::json(#[trigger] messages@[k]) == want[k],
            decreases outs.len() - i,
        {
            self.next_seq = self.next_seq + 1;
            let seq: u64 = self.next_seq;
            assert(outs.deep_view()[i as int] == outs@[i as int].deep_view());
            let message = match &outs[i] {
                Outgoing::Success(body) => protocol::success(seq, request, json::copy(body)),
                Outgoing::Failure(message) => protocol::failure(seq, request, message.as_str()),
                Outgoing::Event(name, body) => {
                    protocol::event(seq, name.as_str(), json::copy(body))
                },
            };
            assert(json::json(message) == want[i as int]);
            messages.push(message);
            i += 1;
        }
        assert(json::jsons(messages@) =~= want);
        messages
    }

    /// Answer a request: the messages to send, in order. `open` is what came of
    /// opening the recording that `requested_trace` gives for the request; it
    /// matters only where there is one.
    pub fn respond(&mut self, request: &Request, open: Opened) -> (r: Vec<Value>)
        requires
            old(self).next_seq + MAX_MESSAGES <= u64::MAX,
        ensures
            is_turn(
                request.deep_view(),
                old(self).next_seq,
                json::jsons(r@),
                target_of(&*old(self).backend),
                open,
                target_of(&*final(self).backend),
            ),
            final(self).next_seq == old(self).next_seq + r@.len(),
            r@.len() <= MAX_MESSAGES,
    {
        proof {
            lemma_few_messages();
        }
        let ghost t = serving(target_of(&*self.backend), request.deep_view(), open);
        let outs = self.dispatch(request, open);
        let messages = self.number(request, outs);
        assert(json::jsons(messages@).len() == messages@.len());
        assert(t.is_static ==> target_of(&*self.backend).answers =~= t.answers);
        messages
    }

    /// Serve the requests of an input until the client disconnects or hangs up.
    /// `open` opens the recording that a launch asks for.
    ///
    /// # Errors
    /// Fails where the input is not framed as it should be. What was answered
    /// before is written.
    pub fn run<F: Fn(String) -> Opened>(
        &mut self,
        reader: &mut &[u8],
        writer: &mut Vec<u8>,
        open: F,
    ) -> (r: Result<(), TransportError>)
        requires
            old(self).next_seq + MAX_MESSAGES * (*old(reader))@.len() <= u64::MAX,
            forall|path: String| open.requires((path,)),
        ensures
            ({
                let (requests, result, rest) = requests_read((*old(reader))@);
                &&& match r {
                    Ok(()) => result is Ok,
                    Err(e) => result == Err::<(), TransportErrorSpec>(e.deep_view()),
                }
                &&& (*final(reader))@ == rest
                &&& exists|s: Session|
                    {
                        &&& #[trigger] is_session(requests, old(self).next_seq, s)
                        &&& s.targets[0] == target_of(&*old(self).backend)
                        &&& s.targets.last() == target_of(&*final(self).backend)
                        &&& forall|i: int|
                            0 <= i < requests.len() ==> #[trigger] can_open(
                                open,
                                requests[i],
                                s.openings[i],
                            )
                        &&& final(writer)@ == old(writer)@ + frames_of(s.messages)
                        &&& final(self).next_seq == old(self).next_seq + s.messages.len()
                        &&& old(self).backend.is_static() && cannot_open(open) ==> s.messages
                            == dialogue(
                            requests,
                            old(self).next_seq,
                            |ask: Ask| old(self).backend.answer(ask),
                        )
                    }
            }),
    {
        let ghost input = (*reader)@;
        let ghost all = requests_read(input);
        let ghost first = target_of(&*self.backend);
        let ghost is_alike = self.backend.is_static() && cannot_open(open);
        let ghost mut done: Seq<RequestSpec> = Seq::empty();
        let ghost mut s = Session {
            openings: Seq::empty(),
            targets: seq![first],
            messages: Seq::empty(),
            cuts: seq![0],
        };
        assert(s.messages =~= dialogue(done, self.next_seq, first.answers));
        assert(writer@ =~= old(writer)@ + frames_of(s.messages));
        assert(done + all.0 =~= all.0);
        loop
            invariant
                input == (*old(reader))@,
                all == requests_read(input),
                first == target_of(&*old(self).backend),
                is_alike == (old(self).backend.is_static() && cannot_open(open)),
                forall|path: String| open.requires((path,)),
                (*reader)@.len() <= input.len(),
                self.next_seq + MAX_MESSAGES * (*reader)@.len() <= u64::MAX,
                all == (
                    done + requests_read((*reader)@).0,
                    requests_read((*reader)@).1,
                    requests_read((*reader)@).2,
                ),
                is_session(done, old(self).next_seq, s),
                s.targets[0] == first,
                s.targets.last() == target_of(&*self.backend),
                forall|i: int|
                    0 <= i < done.len() ==> #[trigger] can_open(open, done[i], s.openings[i]),
                is_alike ==> {
                    &&& target_of(&*self.backend) == first
                    &&& s.messages == dialogue(done, old(self).next_seq, first.answers)
                },
                writer@ == old(writer)@ + frames_of(s.messages),
                self.next_seq == old(self).next_seq + s.messages.len(),
            decreases (*reader)@.len(),
        {
            let ghost here = (*reader)@;
            proof {
                lemma_frame_advances(here);
            }
            assert(done + Seq::<RequestSpec>::empty() =~= done);
            let message = match transport::read_frame(reader)? {
                None => {
                    return Ok(());
                },
                Some(message) => message,
            };
            let ghost rest = (*reader)@;
            let request = match Request::from_message(&message) {
                None => {
                    assert(requests_read(here) == requests_read(rest));
                    continue ;
                },
                Some(request) => request,
            };
            let ghost req = request.deep_view();
            let opened = match requested_trace(&request) {
                Some(path) => open(path),
                None => Opened::Unavailable,
            };
            let ghost came = opened;
            assert(can_open(open, req, came));
            let ghost sent = self.next_seq;
            let messages = self.respond(&request, opened);
            let ghost ms = json::jsons(messages@);
            let ghost next = target_of(&*self.backend);
            write_all(writer, &messages);
            proof {
                if is_alike {
                    let now = done.push(req);
                    assert(now.drop_last() =~= done);
                    assert(now.last() == req);
                    assert(dialogue(now, old(self).next_seq, first.answers) == s.messages + ms);
                }
                lemma_session_goes_on(done, old(self).next_seq, s, req, came, ms, next);
                lemma_frames_concat(s.messages, ms);
                assert(done.push(req) + requests_read(rest).0 =~= done + (seq![req]
                    + requests_read(rest).0));
                assert(done.push(req) =~= done + seq![req]);
                s = with_turn(s, came, ms, next);
                assert(writer@ =~= old(writer)@ + frames_of(s.messages));
                done = done.push(req);
            }
            if text::same(request.command.as_str(), "disconnect") {
                assert(all.0 =~= done);
                return Ok(());
            }
        }
    }
}

} // verus!
