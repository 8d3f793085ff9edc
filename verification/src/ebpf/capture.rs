//! From raw records to trace events, and when a capture is over.
//!
//! A record of a syscall's exit does not hold the syscall's number: it is that
//! of the last entry of the same thread.
use std::collections::BTreeMap;

use vstd::prelude::*;

use super::event::{RawSyscallEvent, KIND_ENTER, KIND_EXIT, RAW_EVENT_LEN};

verus! {

/// What a record becomes in the trace. No memory that the kernel wrote is
/// captured, so an exit carries no data.
#[derive(Debug, Clone, Copy, PartialEq, Eq)]
pub enum CapturedEvent {
    /// A syscall was entered.
    Enter {
        /// When.
        timestamp_ns: u64,
        /// In which thread.
        tid: u32,
        /// Its number.
        nr: u64,
        /// Its raw arguments.
        args: [u64; 6],
    },
    /// A syscall returned.
    Exit {
        /// When.
        timestamp_ns: u64,
        /// In which thread.
        tid: u32,
        /// The number of the thread's last entry; 0 where none is known.
        nr: u64,
        /// What it returned.
        ret: i64,
    },
}

/// How the target fares, as waiting for it tells.
#[derive(Debug, Clone, Copy, PartialEq, Eq, Structural)]
pub enum TargetStatus {
    /// It runs.
    Alive,
    /// It exited with a code.
    Exited(i32),
    /// A signal killed it.
    Signaled,
    /// Something else, such as a stop.
    Other,
}

/// What to do after a look at the target.
#[derive(Debug, Clone, Copy, PartialEq, Eq, Structural)]
pub enum DrainStep {
    /// Wait a little, drain, look again.
    Wait,
    /// Drain and look again.
    Again,
    /// Drain once more; the capture is over, and the target's exit code is this.
    Finish(Option<i32>),
}

/// The syscall that each thread is in, if one was seen to be entered.
pub type PendingMap = Map<u32, u64>;

/// A capture under way: which syscall each thread is in.
#[derive(Debug)]
pub struct Capture {
    pending_nr: BTreeMap<u32, u64>,
}

/// What a record becomes, and the syscalls that threads are in after it.
pub open spec fn recorded(raw: RawSyscallEvent, pending: PendingMap) -> (
    Option<CapturedEvent>,
    PendingMap,
) {
    if raw.kind == KIND_ENTER {
        (
            Some(
                CapturedEvent::Enter {
                    timestamp_ns: raw.timestamp_ns,
                    tid: raw.tid,
                    nr: raw.nr,
                    args: raw.args,
                },
            ),
            pending.insert(raw.tid, raw.nr),
        )
    } else if raw.kind == KIND_EXIT {
        (
            Some(
                CapturedEvent::Exit {
                    timestamp_ns: raw.timestamp_ns,
                    tid: raw.tid,
                    nr: if pending.contains_key(raw.tid) {
                        pending[raw.tid]
                    } else {
                        0
                    },
                    ret: raw.ret,
                },
            ),
            pending.remove(raw.tid),
        )
    } else {
        (None, pending)
    }
}

impl Capture {
    /// The syscalls that threads are in.
    pub closed spec fn pending(&self) -> PendingMap {
        self.pending_nr@
    }

    /// A capture in which nothing was seen yet.
    #[must_use]
    pub fn new() -> (r: Self)
        ensures
            r.pending() == PendingMap::empty(),
    {
        Capture { pending_nr: BTreeMap::new() }
    }

    /// What a decoded record becomes: an entry is remembered, an exit is paired
    /// with its thread's last entry, and a record of another kind is skipped.
    pub fn record(&mut self, raw: RawSyscallEvent) -> (r: Option<CapturedEvent>)
        ensures
            (r, final(self).pending()) == recorded(raw, old(self).pending()),
    {
        if raw.kind == KIND_ENTER {
            self.pending_nr.insert(raw.tid, raw.nr);
            Some(
                CapturedEvent::Enter {
                    timestamp_ns: raw.timestamp_ns,
                    tid: raw.tid,
                    nr: raw.nr,
                    args: raw.args,
                },
            )
        } else if raw.kind == KIND_EXIT {
            let nr: u64 = match self.pending_nr.remove(&raw.tid) {
                Some(nr) => nr,
                None => 0,
            };
            Some(
                CapturedEvent::Exit {
                    timestamp_ns: raw.timestamp_ns,
                    tid: raw.tid,
                    nr,
                    ret: raw.ret,
                },
            )
        } else {
            None
        }
    }

    /// What the bytes of an item of the ring buffer become: one that is too
    /// short for a record is skipped.
    pub fn take_item(&mut self, item: &[u8]) -> (r: Option<CapturedEvent>)
        ensures
            if item@.len() < RAW_EVENT_LEN {
                r is None && final(self).pending() == old(self).pending()
            } else {
                exists|raw: RawSyscallEvent|
                    raw.is_read_from(item@) && (r, final(self).pending()) == #[trigger] recorded(
                        raw,
                        old(self).pending(),
                    )
            },
    {
        match RawSyscallEvent::decode(item) {
            Some(raw) => self.record(raw),
            None => None,
        }
    }
}

/// What to do after a look at the target: a capture ends with its target.
#[must_use]
pub fn next_step(status: TargetStatus) -> (r: DrainStep)
    ensures
        r == (match status {
            TargetStatus::Alive => DrainStep::Wait,
            TargetStatus::Exited(code) => DrainStep::Finish(Some(code)),
            TargetStatus::Signaled => DrainStep::Finish(None),
            TargetStatus::Other => DrainStep::Again,
        }),
{
    match status {
        TargetStatus::Alive => DrainStep::Wait,
        TargetStatus::Exited(code) => DrainStep::Finish(Some(code)),
        TargetStatus::Signaled => DrainStep::Finish(None),
        TargetStatus::Other => DrainStep::Again,
    }
}

/// An exit that follows an entry of its thread, with whatever other threads do
/// in between, carries the entry's syscall number; a second exit does not.
pub proof fn law_an_exit_carries_the_number_of_its_entry(
    enter: RawSyscallEvent,
    other: RawSyscallEvent,
    exit: RawSyscallEvent,
    pending: PendingMap,
)
    requires
        enter.kind == KIND_ENTER,
        exit.kind == KIND_EXIT,
        exit.tid == enter.tid,
        other.tid != enter.tid,
    ensures
        ({
            let entered = recorded(enter, pending).1;
            let between = recorded(other, entered).1;
            let (event, after) = recorded(exit, between);
            &&& event == Some(
                CapturedEvent::Exit {
                    timestamp_ns: exit.timestamp_ns,
                    tid: exit.tid,
                    nr: enter.nr,
                    ret: exit.ret,
                },
            )
            &&& recorded(exit, after).0 == Some(
                CapturedEvent::Exit {
                    timestamp_ns: exit.timestamp_ns,
                    tid: exit.tid,
                    nr: 0,
                    ret: exit.ret,
                },
            )
        }),
{
}

/// An entry (kind 0) and an exit (kind 1) keep the time and the thread of their
/// record, an entry its number and arguments, an exit its result; a record of
/// any other kind is passed over. Only the record's own thread enters or leaves
/// a syscall by it.
pub proof fn law_a_record_keeps_what_it_tells(raw: RawSyscallEvent, pending: PendingMap)
    ensures
        recorded(raw, pending).0 is Some <==> raw.kind == 0 || raw.kind == 1,
        raw.kind == 0 ==> (recorded(raw, pending).0 matches Some(
            CapturedEvent::Enter { timestamp_ns, tid, nr, args },
        ) && timestamp_ns == raw.timestamp_ns && tid == raw.tid && nr == raw.nr && args
            == raw.args),
        raw.kind == 1 ==> (recorded(raw, pending).0 matches Some(
            CapturedEvent::Exit { timestamp_ns, tid, nr, ret },
        ) && timestamp_ns == raw.timestamp_ns && tid == raw.tid && ret == raw.ret && (
        pending.contains_key(raw.tid) ==> nr == pending[raw.tid]) && (!pending.contains_key(raw.tid)
            ==> nr == 0)),
        recorded(raw, pending).1.contains_key(raw.tid) <==> raw.kind == 0 || (raw.kind != 1
            && pending.contains_key(raw.tid)),
        raw.kind == 0 ==> recorded(raw, pending).1[raw.tid] == raw.nr,
        forall|tid: u32| #[trigger]
            recorded(raw, pending).1.contains_key(tid) && (tid != raw.tid || raw.kind > 1)
                ==> pending.contains_key(tid) && recorded(raw, pending).1[tid] == pending[tid],
        forall|tid: u32| #[trigger]
            pending.contains_key(tid) && (tid != raw.tid || raw.kind > 1) ==> recorded(
                raw,
                pending,
            ).1.contains_key(tid),
{
}

} // verus!
