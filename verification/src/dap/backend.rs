//! The debug target that the server drives, and the static one that is served
//! without a recording.
use serde_json::Value;
use vstd::prelude::*;

use super::stub::{self, MAIN_THREAD_ID};
use crate::json::{self, Json};
use crate::text::IntoText;

verus! {

/// How a resumed target came to rest.
#[derive(Debug, PartialEq, Eq)]
pub enum StopInfo {
    /// The target is paused and can be inspected.
    Stopped {
        /// Why it stopped: `entry`, `step` and so on.
        reason: String,
        /// The thread that stopped.
        thread_id: u64,
    },
    /// The target ran to its end.
    Exited {
        /// Its exit code, or 128 and the signal that killed it.
        code: i32,
    },
}

/// The value of a `StopInfo`.
#[verifier::ext_equal]
pub enum StopSpec {
    Stopped { reason: Seq<char>, thread_id: u64 },
    Exited { code: i32 },
}

impl DeepView for StopInfo {
    type V = StopSpec;

    open spec fn deep_view(&self) -> StopSpec {
        match self {
            StopInfo::Stopped { reason, thread_id } => StopSpec::Stopped {
                reason: reason@,
                thread_id: *thread_id,
            },
            StopInfo::Exited { code } => StopSpec::Exited { code: *code },
        }
    }
}

impl StopInfo {
    /// A stop of the main thread.
    #[must_use]
    pub fn stopped<N: IntoText>(reason: N) -> (r: Self)
        ensures
            r.deep_view() == (StopSpec::Stopped {
                reason: reason.text(),
                thread_id: MAIN_THREAD_ID,
            }),
    {
        StopInfo::Stopped { reason: reason.into_text(), thread_id: MAIN_THREAD_ID }
    }
}

/// How the client asked the target to go on.
#[derive(Debug, Clone, Copy, PartialEq, Eq, Structural)]
pub enum ResumeKind {
    /// Forward to the next stop or the end.
    Continue,
    /// Backward to the earliest recorded point.
    ReverseContinue,
    /// To the previous recorded event.
    StepBack,
    /// Forward by one event.
    Next,
    /// Forward by one event.
    StepIn,
    /// Forward by one event.
    StepOut,
}

/// Why a target could not answer.
#[derive(Debug)]
pub enum BackendError {
    /// This target cannot do it. The message says what could.
    NotSupported(String),
    /// The replay engine, the decoder or the unwinder failed.
    Engine(String),
    /// There is no live process to inspect.
    NoTracee,
    /// The request's arguments are missing or malformed.
    BadArgs(String),
}

/// The value of a `BackendError`.
#[verifier::ext_equal]
pub enum BackendErrorSpec {
    NotSupported(Seq<char>),
    Engine(Seq<char>),
    NoTracee,
    BadArgs(Seq<char>),
}

impl DeepView for BackendError {
    type V = BackendErrorSpec;

    open spec fn deep_view(&self) -> BackendErrorSpec {
        match self {
            BackendError::NotSupported(s) => BackendErrorSpec::NotSupported(s@),
            BackendError::Engine(s) => BackendErrorSpec::Engine(s@),
            BackendError::NoTracee => BackendErrorSpec::NoTracee,
            BackendError::BadArgs(s) => BackendErrorSpec::BadArgs(s@),
        }
    }
}

impl BackendErrorSpec {
    /// The message that describes the error. What an engine says is passed on
    /// as it is.
    pub open spec fn message(self) -> Seq<char> {
        match self {
            BackendErrorSpec::NotSupported(s) => s,
            BackendErrorSpec::Engine(s) => s,
            BackendErrorSpec::NoTracee => {
                "no live replay tracee: the target has exited or was not launched from a trace"@
            },
            BackendErrorSpec::BadArgs(s) => "invalid request arguments: "@ + s,
        }
    }
}

impl BackendError {
    /// The message that describes the error.
    #[must_use]
    pub fn message(&self) -> (r: String)
        ensures
            r@ == self.deep_view().message(),
    {
        match self {
            BackendError::NotSupported(s) => s.clone(),
            BackendError::Engine(s) => s.clone(),
            BackendError::NoTracee => {
                "no live replay tracee: the target has exited or was not launched from a trace".to_owned()
            },
            BackendError::BadArgs(s) => {
                let mut out = "invalid request arguments: ".to_owned();
                out.append(s.as_str());
                out
            },
        }
    }
}

/// What a target is asked.
pub enum Ask {
    /// Begin a session.
    Launch(Json),
    /// The threads.
    Threads,
    /// A stack.
    StackTrace(Json),
    /// The scopes of a frame.
    Scopes(Json),
    /// Variables.
    Variables(Json),
    /// Go on.
    Resume(ResumeKind),
    /// The checkpoints.
    Checkpoints,
    /// The tasks.
    Timeline,
    /// Go to a recorded event.
    Jump(Json),
}

/// What a target answers.
pub enum Answer {
    /// The body of a response.
    Body(Json),
    /// Where it came to rest.
    Stop(StopSpec),
    /// Why it could not.
    Failed(BackendErrorSpec),
}

/// The answer that a body is.
pub open spec fn body_answer(r: Result<Value, BackendError>) -> Answer {
    match r {
        Ok(body) => Answer::Body(json::json(body)),
        Err(e) => Answer::Failed(e.deep_view()),
    }
}

/// The answer that a stop is.
pub open spec fn stop_answer(r: Result<StopInfo, BackendError>) -> Answer {
    match r {
        Ok(stop) => Answer::Stop(stop.deep_view()),
        Err(e) => Answer::Failed(e.deep_view()),
    }
}

/// A debug target: it can be launched, inspected and stepped.
///
/// `answer` names what a target in its present state answers; each method gives
/// that answer, and may leave the target in another state. Nothing is promised
/// of what an answer is. A target that is static stays as it is.
pub trait DebugBackend {
    /// What the target in its present state answers.
    open spec fn answer(&self, ask: Ask) -> Answer {
        arbitrary()
    }

    /// The target answers alike forever.
    open spec fn is_static(&self) -> bool {
        false
    }

    /// Begin a session; where the target first comes to rest.
    fn launch(&mut self, arguments: &Value) -> (r: Result<StopInfo, BackendError>)
        ensures
            stop_answer(r) == old(self).answer(Ask::Launch(json::json(*arguments))),
            old(self).is_static() ==> final(self).is_static() && forall|a: Ask|
                final(self).answer(a) == old(self).answer(a),
    ;

    /// The body of the `threads` response.
    fn threads(&mut self) -> (r: Result<Value, BackendError>)
        ensures
            body_answer(r) == old(self).answer(Ask::Threads),
            old(self).is_static() ==> final(self).is_static() && forall|a: Ask|
                final(self).answer(a) == old(self).answer(a),
    ;

    /// The body of the `stackTrace` response.
    fn stack_trace(&mut self, arguments: &Value) -> (r: Result<Value, BackendError>)
        ensures
            body_answer(r) == old(self).answer(Ask::StackTrace(json::json(*arguments))),
            old(self).is_static() ==> final(self).is_static() && forall|a: Ask|
                final(self).answer(a) == old(self).answer(a),
    ;

    /// The body of the `scopes` response.
    fn scopes(&mut self, arguments: &Value) -> (r: Result<Value, BackendError>)
        ensures
            body_answer(r) == old(self).answer(Ask::Scopes(json::json(*arguments))),
            old(self).is_static() ==> final(self).is_static() && forall|a: Ask|
                final(self).answer(a) == old(self).answer(a),
    ;

    /// The body of the `variables` response.
    fn variables(&mut self, arguments: &Value) -> (r: Result<Value, BackendError>)
        ensures
            body_answer(r) == old(self).answer(Ask::Variables(json::json(*arguments))),
            old(self).is_static() ==> final(self).is_static() && forall|a: Ask|
                final(self).answer(a) == old(self).answer(a),
    ;

    /// Go on; where the target comes to rest.
    fn resume(&mut self, kind: ResumeKind) -> (r: Result<StopInfo, BackendError>)
        ensures
            stop_answer(r) == old(self).answer(Ask::Resume(kind)),
            old(self).is_static() ==> final(self).is_static() && forall|a: Ask|
                final(self).answer(a) == old(self).answer(a),
    ;

    /// The body of the `listCheckpoints` response.
    fn list_checkpoints(&mut self) -> (r: Result<Value, BackendError>)
        ensures
            body_answer(r) == old(self).answer(Ask::Checkpoints),
            old(self).is_static() ==> final(self).is_static() && forall|a: Ask|
                final(self).answer(a) == old(self).answer(a),
    ;

    /// The body of the `taskTimeline` response.
    fn task_timeline(&mut self) -> (r: Result<Value, BackendError>)
        ensures
            body_answer(r) == old(self).answer(Ask::Timeline),
            old(self).is_static() ==> final(self).is_static() && forall|a: Ask|
                final(self).answer(a) == old(self).answer(a),
    ;

    /// Go to a recorded event; where the target comes to rest.
    fn jump_to_event(&mut self, arguments: &Value) -> (r: Result<StopInfo, BackendError>)
        ensures
            stop_answer(r) == old(self).answer(Ask::Jump(json::json(*arguments))),
            old(self).is_static() ==> final(self).is_static() && forall|a: Ask|
                final(self).answer(a) == old(self).answer(a),
    ;
}

/// What the static target says when asked to go backward.
pub open spec fn reverse_stub_message() -> Seq<char> {
    "not wired to the replay engine: reverse execution needs a recording (launch with a \"trace\" argument)"@
}

/// What the static target says when asked to go to an event.
pub open spec fn jump_stub_message() -> Seq<char> {
    "jumpToEvent needs the replay engine: launch with a \"trace\" argument"@
}

/// What the static target answers. It does not move: going forward stops at
/// once, going backward or to an event needs a recording.
pub open spec fn stub_answer(ask: Ask) -> Answer {
    match ask {
        Ask::Launch(_) => Answer::Stop(
            StopSpec::Stopped { reason: "entry"@, thread_id: MAIN_THREAD_ID },
        ),
        Ask::Threads => Answer::Body(stub::threads_body()),
        Ask::StackTrace(_) => Answer::Body(stub::stack_body()),
        Ask::Scopes(_) => Answer::Body(stub::one_scope("Locals"@, 1)),
        Ask::Variables(_) => Answer::Body(stub::variables_body()),
        Ask::Resume(kind) => match kind {
            ResumeKind::StepBack | ResumeKind::ReverseContinue => Answer::Failed(
                BackendErrorSpec::NotSupported(reverse_stub_message()),
            ),
            _ => Answer::Stop(
                StopSpec::Stopped { reason: "step"@, thread_id: MAIN_THREAD_ID },
            ),
        },
        Ask::Checkpoints => Answer::Body(
            json::object_of(seq![("checkpoints"@, Json::List(Seq::empty()))]),
        ),
        Ask::Timeline => Answer::Body(
            json::object_of(seq![("tasks"@, Json::List(Seq::empty()))]),
        ),
        Ask::Jump(_) => Answer::Failed(BackendErrorSpec::NotSupported(jump_stub_message())),
    }
}

/// The static target: one thread, a canned stack, canned locals.
#[derive(Debug, Clone, Copy)]
pub struct StubBackend;

impl Default for StubBackend {
    fn default() -> (r: Self)
        ensures
            r == StubBackend,
    {
        StubBackend
    }
}

impl StubBackend {
    /// The static target.
    #[must_use]
    pub fn new() -> (r: Self)
        ensures
            r == StubBackend,
    {
        StubBackend
    }
}

impl DebugBackend for StubBackend {
    open spec fn answer(&self, ask: Ask) -> Answer {
        stub_answer(ask)
    }

    open spec fn is_static(&self) -> bool {
        true
    }

    fn launch(&mut self, _arguments: &Value) -> (r: Result<StopInfo, BackendError>) {
        Ok(StopInfo::stopped("entry"))
    }

    fn threads(&mut self) -> (r: Result<Value, BackendError>) {
        Ok(stub::threads())
    }

    fn stack_trace(&mut self, _arguments: &Value) -> (r: Result<Value, BackendError>) {
        Ok(stub::stack_trace())
    }

    fn scopes(&mut self, _arguments: &Value) -> (r: Result<Value, BackendError>) {
        Ok(stub::scopes())
    }

    fn variables(&mut self, _arguments: &Value) -> (r: Result<Value, BackendError>) {
        Ok(stub::variables())
    }

    fn resume(&mut self, kind: ResumeKind) -> (r: Result<StopInfo, BackendError>) {
        match kind {
            ResumeKind::StepBack | ResumeKind::ReverseContinue => Err(
                BackendError::NotSupported(
                    "not wired to the replay engine: reverse execution needs a recording (launch with a \"trace\" argument)".to_owned(),
                ),
            ),
            ResumeKind::Continue | ResumeKind::Next | ResumeKind::StepIn | ResumeKind::StepOut => {
                Ok(StopInfo::stopped("step"))
            },
        }
    }

    fn list_checkpoints(&mut self) -> (r: Result<Value, BackendError>) {
        Ok(stub::single("checkpoints", stub::empty_list()))
    }

    fn task_timeline(&mut self) -> (r: Result<Value, BackendError>) {
        Ok(stub::single("tasks", stub::empty_list()))
    }

    fn jump_to_event(&mut self, _arguments: &Value) -> (r: Result<StopInfo, BackendError>) {
        Err(
            BackendError::NotSupported(
                "jumpToEvent needs the replay engine: launch with a \"trace\" argument".to_owned(),
            ),
        )
    }
}

} // verus!
