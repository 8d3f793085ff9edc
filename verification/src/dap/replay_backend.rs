//! A recording under replay: where to drive the target for each request, and
//! where it then stands.
//!
//! The unit of stepping is the recorded exit of a syscall. The replay engine
//! does the driving; here is decided where to, and what is made of how it ended.
use serde_json::Value;
use vstd::prelude::*;

use super::backend::{BackendError, BackendErrorSpec, ResumeKind, StopInfo, StopSpec};
use super::stub::MAIN_THREAD_ID;
use crate::error::outcome;
use crate::json::{self, Json};
use crate::ptrace_view;
use crate::text;
use crate::text::parts;

verus! {

/// How the target is after being driven.
#[derive(Debug, Clone, Copy, PartialEq, Eq, Structural)]
pub enum ExitOutcome {
    /// It stands at an event.
    Running,
    /// It exited with a code.
    Exited(i32),
    /// A signal killed it.
    Signaled(i32),
}

/// Where to drive the target.
#[derive(Debug, Clone, Copy, PartialEq, Eq, Structural)]
pub enum Drive {
    /// To its end.
    ToEnd,
    /// To a recorded event.
    To {
        /// Which event of the timeline.
        index: usize,
        /// Its number in the recording.
        seq: u64,
    },
}

impl DeepView for Drive {
    type V = Drive;

    open spec fn deep_view(&self) -> Drive {
        *self
    }
}

/// The timeline of a recording, and where the target stands on it.
#[derive(Debug)]
pub struct Timeline {
    events: Vec<u64>,
    cursor: usize,
    exited: Option<i32>,
}

/// The value of a `Timeline`.
#[verifier::ext_equal]
pub struct TimelineSpec {
    /// The numbers of the recorded events.
    pub events: Seq<u64>,
    /// Which event the target stands at; one past the last after its end.
    pub cursor: int,
    /// The exit code, once the target has run to its end.
    pub exited: Option<i32>,
}

impl DeepView for Timeline {
    type V = TimelineSpec;

    closed spec fn deep_view(&self) -> TimelineSpec {
        TimelineSpec {
            events: self.events@,
            cursor: self.cursor as int,
            exited: self.exited,
        }
    }
}

// ---------------------------------------------------------------------------
// Where to
// ---------------------------------------------------------------------------

/// A drive that the timeline has room for.
pub open spec fn is_drive_of(t: TimelineSpec, drive: Drive) -> bool {
    drive matches Drive::To { index, seq } ==> index < t.events.len() && seq == t.events[index as int]
}

/// The target stands at one of the events, or past the last.
pub open spec fn is_on_timeline(t: TimelineSpec) -> bool {
    0 <= t.cursor <= t.events.len()
}

/// To an event of the timeline.
pub open spec fn to_event(events: Seq<u64>, index: int) -> Drive {
    Drive::To { index: index as usize, seq: events[index] }
}

/// Where a launch drives: to the first event, or to the end without one.
pub open spec fn launch_drive(t: TimelineSpec) -> Drive {
    if t.events.len() == 0 {
        Drive::ToEnd
    } else {
        to_event(t.events, 0)
    }
}

/// Where a request to go on drives: `continue` to the end, `reverseContinue` to
/// the first event, a step to the next event or, after the last, to the end, and
/// a step back to the event before, or the first.
pub open spec fn resume_drive(t: TimelineSpec, kind: ResumeKind) -> Result<Drive, BackendErrorSpec> {
    match kind {
        ResumeKind::Continue => Ok(Drive::ToEnd),
        ResumeKind::ReverseContinue => Ok(launch_drive(t)),
        ResumeKind::StepBack => if t.events.len() == 0 {
            Err(BackendErrorSpec::NotSupported("no recorded events to step back over"@))
        } else {
            Ok(
                to_event(
                    t.events,
                    if t.cursor > 0 {
                        t.cursor - 1
                    } else {
                        0
                    },
                ),
            )
        },
        _ => Ok(
            if t.cursor + 1 >= t.events.len() {
                Drive::ToEnd
            } else {
                to_event(t.events, t.cursor + 1)
            },
        ),
    }
}

/// How a drive ended, as a stop.
pub open spec fn stop_of(ended: ExitOutcome, reason: Seq<char>) -> StopSpec {
    match ended {
        ExitOutcome::Running => StopSpec::Stopped { reason, thread_id: MAIN_THREAD_ID },
        ExitOutcome::Exited(code) => StopSpec::Exited { code },
        ExitOutcome::Signaled(signal) => StopSpec::Exited { code: (128 + signal) as i32 },
    }
}

/// The exit code after a drive, if the target has ended.
pub open spec fn exit_of(ended: ExitOutcome) -> Option<i32> {
    match ended {
        ExitOutcome::Running => None,
        ExitOutcome::Exited(code) => Some(code),
        ExitOutcome::Signaled(signal) => Some((128 + signal) as i32),
    }
}

/// Why the target stops after a drive: at its entry, where a launch drove it to
/// an event, else after a step.
pub open spec fn reason_of(drive: Drive, launching: bool) -> Seq<char> {
    if launching && drive is To {
        "entry"@
    } else {
        "step"@
    }
}

/// Where the target stands after a drive that ended so.
pub open spec fn driven(t: TimelineSpec, drive: Drive, ended: ExitOutcome) -> TimelineSpec {
    TimelineSpec {
        events: t.events,
        cursor: match drive {
            Drive::ToEnd => t.events.len() as int,
            Drive::To { index, .. } => index as int,
        },
        exited: exit_of(ended),
    }
}

/// The last event among the first `n` that is no later than `seq`; the first
/// without one.
pub open spec fn last_until(events: Seq<u64>, seq: u64, n: int) -> int
    decreases n,
{
    if n <= 0 {
        0
    } else if events[n - 1] <= seq {
        n - 1
    } else {
        last_until(events, seq, n - 1)
    }
}

/// The event that a jump asks for.
pub open spec fn jump_seq(arguments: Json) -> Result<u64, BackendErrorSpec> {
    match arguments {
        Json::Object(m) => if m.contains_key("seq"@) {
            match m["seq"@] {
                Json::Integer(n) if 0 <= n <= u64::MAX => Ok(n as u64),
                _ => Err(BackendErrorSpec::BadArgs("jumpToEvent requires a numeric \"seq\""@)),
            }
        } else {
            Err(BackendErrorSpec::BadArgs("jumpToEvent requires a numeric \"seq\""@))
        },
        _ => Err(BackendErrorSpec::BadArgs("jumpToEvent requires a numeric \"seq\""@)),
    }
}

/// The event that a jump asks for.
///
/// # Errors
/// Fails where the arguments name none.
pub fn jump_target(arguments: &Value) -> (r: Result<u64, BackendError>)
    ensures
        outcome(r) == jump_seq(json::json(*arguments)),
{
    if let Some(value) = json::get(arguments, "seq") {
        if let Some(seq) = value.as_u64() {
            return Ok(seq);
        }
    }
    Err(BackendError::BadArgs("jumpToEvent requires a numeric \"seq\"".to_owned()))
}

fn classify(ended: ExitOutcome, reason: &str) -> (r: (StopInfo, Option<i32>))
    requires
        ended matches ExitOutcome::Signaled(signal) ==> 128 + signal <= i32::MAX,
    ensures
        r.0.deep_view() == stop_of(ended, reason@),
        r.1 == exit_of(ended),
{
    match ended {
        ExitOutcome::Running => (StopInfo::stopped(reason), None),
        ExitOutcome::Exited(code) => (StopInfo::Exited { code }, Some(code)),
        ExitOutcome::Signaled(signal) => {
            let code: i32 = 128 + signal;
            (StopInfo::Exited { code }, Some(code))
        },
    }
}

// ---------------------------------------------------------------------------
// The timeline
// ---------------------------------------------------------------------------

/// A record of a recording, as far as the timeline goes by it.
#[derive(Debug, Clone, Copy, PartialEq, Eq, Structural)]
pub struct Recorded {
    /// Its number.
    pub seq: u64,
    /// It is the exit of a syscall.
    pub is_exit: bool,
}

/// The numbers of the exits among the first `n` records.
pub open spec fn exits_among(records: Seq<Recorded>, n: int) -> Seq<u64>
    decreases n,
{
    if n <= 0 {
        Seq::empty()
    } else if records[n - 1].is_exit {
        exits_among(records, n - 1).push(records[n - 1].seq)
    } else {
        exits_among(records, n - 1)
    }
}

/// The numbers of the exits of syscalls, in the order of the recording.
#[must_use]
pub fn exit_seqs(records: &Vec<Recorded>) -> (r: Vec<u64>)
    ensures
        r@ == exits_among(records@, records@.len() as int),
{
    let mut seqs: Vec<u64> = Vec::new();
    let mut i: usize = 0;
    while i < records.len()
        invariant
            i <= records.len(),
            seqs@ == exits_among(records@, i as int),
        decreases records.len() - i,
    {
        if records[i].is_exit {
            seqs.push(records[i].seq);
        }
        i += 1;
    }
    seqs
}

impl Timeline {
    #[verifier::type_invariant]
    closed spec fn is_within(self) -> bool {
        self.cursor <= self.events@.len()
    }

    /// A timeline of which nothing was driven yet.
    #[must_use]
    pub fn new(events: Vec<u64>) -> (r: Self)
        ensures
            r.deep_view() == (TimelineSpec { events: events@, cursor: 0, exited: None }),
            is_on_timeline(r.deep_view()),
    {
        Timeline { events, cursor: 0, exited: None }
    }

    /// Where a launch drives.
    #[must_use]
    pub fn plan_launch(&self) -> (r: Drive)
        ensures
            r == launch_drive(self.deep_view()),
            is_drive_of(self.deep_view(), r),
    {
        if self.events.len() == 0 {
            Drive::ToEnd
        } else {
            Drive::To { index: 0, seq: self.events[0] }
        }
    }

    /// Where a request to go on drives.
    ///
    /// # Errors
    /// Fails where there is nothing to step back over.
    pub fn plan_resume(&self, kind: ResumeKind) -> (r: Result<Drive, BackendError>)
        ensures
            outcome(r) == resume_drive(self.deep_view(), kind),
            r matches Ok(drive) ==> is_drive_of(self.deep_view(), drive),
    {
        proof {
            use_type_invariant(self);
        }
        match kind {
            ResumeKind::Continue => Ok(Drive::ToEnd),
            ResumeKind::ReverseContinue => Ok(self.plan_launch()),
            ResumeKind::StepBack => {
                if self.events.len() == 0 {
                    return Err(
                        BackendError::NotSupported(
                            "no recorded events to step back over".to_owned(),
                        ),
                    );
                }
                let index: usize = if self.cursor > 0 {
                    self.cursor - 1
                } else {
                    0
                };
                Ok(Drive::To { index, seq: self.events[index] })
            },
            ResumeKind::Next | ResumeKind::StepIn | ResumeKind::StepOut => {
                if self.cursor >= self.events.len() || self.cursor + 1 >= self.events.len() {
                    Ok(Drive::ToEnd)
                } else {
                    let index: usize = self.cursor + 1;
                    Ok(Drive::To { index, seq: self.events[index] })
                }
            },
        }
    }

    /// Note where the target stands after a drive, and tell of the stop.
    /// `launching` says that the drive was that of a launch.
    pub fn settle(&mut self, drive: Drive, ended: ExitOutcome, launching: bool) -> (r: StopInfo)
        requires
            is_drive_of(old(self).deep_view(), drive),
            ended matches ExitOutcome::Signaled(signal) ==> 128 + signal <= i32::MAX,
        ensures
            r.deep_view() == stop_of(ended, reason_of(drive, launching)),
            final(self).deep_view() == driven(old(self).deep_view(), drive, ended),
            is_on_timeline(final(self).deep_view()),
    {
        let reason = match drive {
            Drive::ToEnd => {
                self.cursor = self.events.len();
                "step"
            },
            Drive::To { index, .. } => {
                self.cursor = index;
                if launching {
                    "entry"
                } else {
                    "step"
                }
            },
        };
        let (stop, exited) = classify(ended, reason);
        self.exited = exited;
        stop
    }

    /// Note where the target stands after a jump, and tell of the stop.
    /// `reached` is the event that the engine says it is at.
    pub fn settle_jump(&mut self, reached: Option<u64>, ended: ExitOutcome) -> (r: StopInfo)
        requires
            ended matches ExitOutcome::Signaled(signal) ==> 128 + signal <= i32::MAX,
        ensures
            r.deep_view() == stop_of(ended, "step"@),
            final(self).deep_view() == (TimelineSpec {
                events: old(self).deep_view().events,
                cursor: last_until(
                    old(self).deep_view().events,
                    match reached {
                        Some(seq) => seq,
                        None => 0,
                    },
                    old(self).deep_view().events.len() as int,
                ),
                exited: exit_of(ended),
            }),
            is_on_timeline(final(self).deep_view()),
    {
        let seq: u64 = match reached {
            Some(seq) => seq,
            None => 0,
        };
        let mut n: usize = self.events.len();
        while n > 0 && self.events[n - 1] > seq
            invariant
                n <= self.events@.len(),
                last_until(self.events@, seq, self.events@.len() as int) == last_until(
                    self.events@,
                    seq,
                    n as int,
                ),
            decreases n,
        {
            n -= 1;
        }
        let (stop, exited) = classify(ended, "step");
        self.cursor = if n > 0 {
            n - 1
        } else {
            0
        };
        self.exited = exited;
        stop
    }

    /// The target has run to its end.
    #[must_use]
    pub fn has_exited(&self) -> (r: bool)
        ensures
            r == (self.deep_view().exited is Some),
    {
        self.exited.is_some()
    }

    /// The process to inspect: the only child, as the list of the tracer's
    /// children tells.
    ///
    /// # Errors
    /// Fails after the target's end, without a child, and with more than one.
    pub fn tracee_pid(&self, children: &str) -> (r: Result<i32, BackendError>)
        ensures
            outcome(r) == (if self.deep_view().exited is Some {
                Err(BackendErrorSpec::NoTracee)
            } else {
                only_child(children@)
            }),
    {
        if self.exited.is_some() {
            return Err(BackendError::NoTracee);
        }
        let chars = text::chars_of(children);
        let words = parts::words(chars.as_slice());
        let ghost ws = words.deep_view();
        let mut first: Option<i32> = None;
        let mut i: usize = 0;
        while i < words.len()
            invariant
                i <= words.len(),
                ws == words.deep_view(),
                ws == parts::words_of(children@),
                self.exited is None,
                pids_among(ws, i as int) == (match first {
                    Some(pid) => seq![pid],
                    None => Seq::<i32>::empty(),
                }),
            decreases words.len() - i,
        {
            assert(ws[i as int] =~= words@[i as int]@);
            if let Some(pid) = parts::parse_signed(words[i].as_slice()) {
                if let Some(_) = first {
                    proof {
                        lemma_more_pids(ws, i + 1, ws.len() as int);
                    }
                    return Err(
                        BackendError::Engine(
                            "more than one traced child found; the DAP replay backend requires exactly one (periodic checkpointing is disabled — see replay_backend docs)".to_owned(),
                        ),
                    );
                }
                first = Some(pid);
                assert(pids_among(ws, i + 1) =~= seq![pid]);
            }
            i += 1;
        }
        match first {
            Some(pid) => Ok(pid),
            None => Err(BackendError::NoTracee),
        }
    }
}

/// The numbers among the first `n` words.
pub open spec fn pids_among(words: Seq<Seq<char>>, n: int) -> Seq<i32>
    decreases n,
{
    if n <= 0 {
        Seq::empty()
    } else {
        match parts::signed(words[n - 1]) {
            Some(pid) => pids_among(words, n - 1).push(pid),
            None => pids_among(words, n - 1),
        }
    }
}

proof fn lemma_more_pids(words: Seq<Seq<char>>, n: int, m: int)
    requires
        n <= m,
    ensures
        pids_among(words, n).len() <= pids_among(words, m).len(),
    decreases m - n,
{
    if n < m {
        lemma_more_pids(words, n, m - 1);
    }
}

/// The only process in a list of children.
pub open spec fn only_child(children: Seq<char>) -> Result<i32, BackendErrorSpec> {
    let words = parts::words_of(children);
    let pids = pids_among(words, words.len() as int);
    if pids.len() == 0 {
        Err(BackendErrorSpec::NoTracee)
    } else if pids.len() == 1 {
        Ok(pids[0])
    } else {
        Err(
            BackendErrorSpec::Engine(
                "more than one traced child found; the DAP replay backend requires exactly one (periodic checkpointing is disabled — see replay_backend docs)"@,
            ),
        )
    }
}

// ---------------------------------------------------------------------------
// Laws
// ---------------------------------------------------------------------------

/// A step back undoes a step: it drives to the event that the step started from.
pub proof fn law_step_back_undoes_a_step(t: TimelineSpec, kind: ResumeKind, ended: ExitOutcome)
    requires
        kind == ResumeKind::Next || kind == ResumeKind::StepIn || kind == ResumeKind::StepOut,
        is_on_timeline(t),
        t.cursor < t.events.len() <= usize::MAX,
    ensures
        resume_drive(t, kind) matches Ok(forward) && resume_drive(
            driven(t, forward, ended),
            ResumeKind::StepBack,
        ) == Ok::<Drive, BackendErrorSpec>(to_event(t.events, t.cursor)),
{
}

/// However it got there, the target goes back to the first recorded event by
/// `reverseContinue`, which is where a launch drives it.
pub proof fn law_reverse_continue_returns_to_the_launch(t: TimelineSpec, drive: Drive, ended:
    ExitOutcome)
    ensures
        resume_drive(driven(t, drive, ended), ResumeKind::ReverseContinue) == Ok::<
            Drive,
            BackendErrorSpec,
        >(launch_drive(t)),
{
}

/// Where a request to go on leaves the target, from wherever it stands:
/// `reverseContinue` at the first event, `continue` past the last, a step at the
/// next event or past the last, a step back at the event before or at the first.
/// Without events there is nothing to step back over, and the rest runs to the end.
pub proof fn law_where_each_request_leaves_the_target(
    t: TimelineSpec,
    kind: ResumeKind,
    ended: ExitOutcome,
)
    requires
        is_on_timeline(t),
        t.events.len() <= usize::MAX,
    ensures
        kind == ResumeKind::StepBack && t.events.len() == 0 ==> (resume_drive(
            t,
            kind,
        ) matches Err(BackendErrorSpec::NotSupported(_))),
        kind != ResumeKind::StepBack || t.events.len() > 0 ==> (resume_drive(
            t,
            kind,
        ) matches Ok(drive) && {
            let after = driven(t, drive, ended);
            &&& is_on_timeline(after)
            &&& after.events == t.events
            &&& drive is ToEnd <==> after.cursor == t.events.len()
            &&& drive matches Drive::To { index, seq } ==> index == after.cursor && seq
                == t.events[after.cursor]
            &&& match kind {
                ResumeKind::Continue => after.cursor == t.events.len(),
                ResumeKind::ReverseContinue => after.cursor == 0,
                ResumeKind::StepBack => after.cursor == (if t.cursor == 0 {
                    0
                } else {
                    t.cursor - 1
                }),
                _ => after.cursor == (if t.cursor < t.events.len() {
                    t.cursor + 1
                } else {
                    t.cursor
                }),
            }
        }),
{
}

/// A launch leaves the target at the first event; without events it runs to the
/// end.
pub proof fn law_where_a_launch_leaves_the_target(t: TimelineSpec, ended: ExitOutcome)
    requires
        t.events.len() <= usize::MAX,
    ensures
        driven(t, launch_drive(t), ended).cursor == 0,
        launch_drive(t) is ToEnd <==> t.events.len() == 0,
        launch_drive(t) matches Drive::To { index, seq } ==> index == 0 && seq == t.events[0],
{
}

/// How a drive ended is told, and kept: a target that rests is stopped, for `entry`
/// at the event that a launch drove to and for a `step` else; one that exited is
/// over with its code, one that a signal killed with 128 and the signal's number.
pub proof fn law_how_a_drive_ended_is_told(
    t: TimelineSpec,
    drive: Drive,
    ended: ExitOutcome,
    launching: bool,
)
    requires
        ended matches ExitOutcome::Signaled(signal) ==> 0 <= signal <= 127,
    ensures
        ({
            let stop = stop_of(ended, reason_of(drive, launching));
            match ended {
                ExitOutcome::Running => driven(t, drive, ended).exited is None && stop == (
                StopSpec::Stopped {
                    reason: if launching && drive is To {
                        "entry"@
                    } else {
                        "step"@
                    },
                    thread_id: 1,
                }),
                ExitOutcome::Exited(code) => driven(t, drive, ended).exited == Some(code) && stop
                    == (StopSpec::Exited { code }),
                ExitOutcome::Signaled(signal) => driven(t, drive, ended).exited matches Some(
                    code,
                ) && code == 128 + signal && stop == (StopSpec::Exited { code }),
            }
        }),
{
}

/// The events of a timeline are the exits of syscalls, in the order of the
/// recording: every one of them, and nothing else.
pub proof fn law_a_timeline_holds_every_exit(records: Seq<Recorded>, n: int)
    requires
        0 <= n <= records.len(),
    ensures
        exists|picks: Seq<int>| are_exits(exits_among(records, n), records, n, picks),
{
    let picks = lemma_exits(records, n);
    assert(are_exits(exits_among(records, n), records, n, picks));
}

/// The events are the numbers of the picked records, which are the exits among the
/// first `n`, in order.
pub open spec fn are_exits(
    events: Seq<u64>,
    records: Seq<Recorded>,
    n: int,
    picks: Seq<int>,
) -> bool {
    &&& picks.len() == events.len()
    &&& forall|i: int|
        0 <= i < picks.len() ==> 0 <= (#[trigger] picks[i]) < n && records[picks[i]].is_exit
            && events[i] == records[picks[i]].seq
    &&& forall|i: int, j: int| 0 <= i < j < picks.len() ==> picks[i] < picks[j]
    &&& forall|k: int| 0 <= k < n && (#[trigger] records[k]).is_exit ==> picks.contains(k)
}

proof fn lemma_exits(records: Seq<Recorded>, n: int) -> (picks: Seq<int>)
    requires
        0 <= n <= records.len(),
    ensures
        are_exits(exits_among(records, n), records, n, picks),
    decreases n,
{
    if n == 0 {
        Seq::empty()
    } else {
        let before = lemma_exits(records, n - 1);
        let had = exits_among(records, n - 1);
        if records[n - 1].is_exit {
            let picks = before.push(n - 1);
            let events = exits_among(records, n);
            assert forall|i: int| 0 <= i < picks.len() implies 0 <= (#[trigger] picks[i]) < n
                && records[picks[i]].is_exit && events[i] == records[picks[i]].seq by {
                if i < before.len() {
                    assert(picks[i] == before[i]);
                    assert(events[i] == had[i]);
                }
            }
            assert forall|i: int, j: int| 0 <= i < j < picks.len() implies picks[i] < picks[j] by {
                assert(picks[i] == before[i]);
                if j < before.len() {
                    assert(picks[j] == before[j]);
                }
            }
            assert forall|k: int| 0 <= k < n && (
            #[trigger] records[k]).is_exit implies picks.contains(k) by {
                if k == n - 1 {
                    assert(picks[before.len() as int] == k);
                } else {
                    let i = before.index_of(k);
                    assert(picks[i] == k);
                }
            }
            picks
        } else {
            before
        }
    }
}

/// The event that a jump asks for is the number under `seq`; without one the
/// arguments are refused.
pub proof fn law_a_jump_names_its_event(arguments: Json)
    ensures
        match json::member(arguments, "seq"@) {
            Some(Json::Integer(n)) if 0 <= n <= u64::MAX => jump_seq(arguments) matches Ok(seq)
                && seq == n,
            _ => jump_seq(arguments) matches Err(BackendErrorSpec::BadArgs(_)),
        },
{
}

/// On a timeline in ascending order a jump lands on the last event that is no
/// later than the one reached.
pub proof fn law_a_jump_lands_on_the_last_event_until_then(events: Seq<u64>, seq: u64, n: int)
    requires
        0 < n <= events.len(),
        forall|i: int, j: int| 0 <= i < j < events.len() ==> events[i] < events[j],
        events[0] <= seq,
    ensures
        0 <= last_until(events, seq, n) < n,
        events[last_until(events, seq, n)] <= seq,
        forall|i: int| last_until(events, seq, n) < i < n ==> (#[trigger] events[i]) > seq,
    decreases n,
{
    if events[n - 1] > seq {
        law_a_jump_lands_on_the_last_event_until_then(events, seq, n - 1);
    }
}

/// A jump to before the first event lands on the first.
pub proof fn law_a_jump_to_before_all_lands_on_the_first(events: Seq<u64>, seq: u64, n: int)
    requires
        0 <= n <= events.len(),
        forall|i: int| 0 <= i < n ==> (#[trigger] events[i]) > seq,
    ensures
        last_until(events, seq, n) == 0,
    decreases n,
{
    if n > 0 {
        law_a_jump_to_before_all_lands_on_the_first(events, seq, n - 1);
    }
}

/// The traced child is the one whose number is listed: with one number among the
/// words it is that, with none there is no child, with more it is not told which.
pub proof fn law_the_child_is_the_only_number_listed(children: Seq<char>) -> (picks: Seq<int>)
    ensures
        ({
            let words = parts::words_of(children);
            let n = words.len() as int;
            &&& forall|j: int|
                0 <= j < picks.len() ==> 0 <= (#[trigger] picks[j]) < n && parts::signed(
                    words[picks[j]],
                ) is Some
            &&& forall|j: int, k: int|
                0 <= j < k < picks.len() ==> (#[trigger] picks[j]) < (#[trigger] picks[k])
            &&& forall|i: int|
                0 <= i < n && parts::signed(#[trigger] words[i]) is Some ==> picks.contains(i)
            &&& picks.len() == 1 ==> (only_child(children) matches Ok(pid) && parts::signed(
                words[picks[0]],
            ) == Some(pid))
            &&& picks.len() == 0 ==> only_child(children) == Err::<i32, _>(
                BackendErrorSpec::NoTracee,
            )
            &&& picks.len() > 1 ==> (only_child(children) matches Err(e) && e is Engine)
        }),
{
    let words = parts::words_of(children);
    lemma_pids_are_numbers(words, words.len() as int);
    ptrace_view::law_every_number_is_a_thread(words, words.len() as int)
}

proof fn lemma_pids_are_numbers(words: Seq<Seq<char>>, n: int)
    ensures
        pids_among(words, n) == ptrace_view::numbers_among(words, n),
    decreases n,
{
    if n > 0 {
        lemma_pids_are_numbers(words, n - 1);
    }
}

} // verus!
