//! Goroutine status and wait-reason constants, vendored from the Go runtime
//! (`go1.24.0`, `src/runtime/runtime2.go`), and their mapping onto the portable
//! model.
//!
//! The status values have been stable since Go 1.5. The wait-reason indices
//! shift between releases: an index outside the table reads `"?"` and blocks
//! for an unknown reason.
use vstd::prelude::*;

use crate::model::{BlockReason, BlockReasonSpec, IoWakeDetail, IoWakeDetailSpec};
use crate::model::{TaskState, TaskStateSpec, WakeCause, WakeCauseSpec};

verus! {

/// The `_Gscan` bit, set while the garbage collector scans a goroutine's stack;
/// masked off before the status is interpreted.
pub const G_SCAN: u32 = 0x1000;

/// A decoded goroutine run status.
#[derive(Debug, Clone, Copy, PartialEq, Eq, Structural)]
#[non_exhaustive]
pub enum GoStatus {
    /// `_Gidle` (0): just allocated.
    Idle,
    /// `_Grunnable` (1): on a run queue, not executing.
    Runnable,
    /// `_Grunning` (2): executing on an M.
    Running,
    /// `_Gsyscall` (3): executing a syscall.
    Syscall,
    /// `_Gwaiting` (4): blocked in the runtime.
    Waiting,
    /// `_Gdead` (6): unused.
    Dead,
    /// `_Gcopystack` (8): the stack is being moved.
    Copystack,
    /// `_Gpreempted` (9): stopped by preemption.
    Preempted,
    /// A reserved or unrecognized status value.
    Other(u32),
}

impl GoStatus {
    /// The status with the given value, the `_Gscan` bit aside.
    pub open spec fn of_base(base: u32) -> GoStatus {
        match base {
            0u32 => GoStatus::Idle,
            1u32 => GoStatus::Runnable,
            2u32 => GoStatus::Running,
            3u32 => GoStatus::Syscall,
            4u32 => GoStatus::Waiting,
            6u32 => GoStatus::Dead,
            8u32 => GoStatus::Copystack,
            9u32 => GoStatus::Preempted,
            other => GoStatus::Other(other),
        }
    }

    /// The status that a raw `atomicstatus` value stands for.
    pub open spec fn of_raw(raw: u32) -> GoStatus {
        Self::of_base(raw & !G_SCAN)
    }

    /// A free-list or never-live slot: dead, or one of the two reserved states.
    pub open spec fn dead(self) -> bool {
        self == GoStatus::Dead || self == GoStatus::Other(5) || self == GoStatus::Other(7)
    }

    /// The portable lifecycle state.
    pub open spec fn task_state(self, wait_reason: u8) -> TaskStateSpec {
        match self {
            GoStatus::Running | GoStatus::Syscall => TaskStateSpec::Running,
            GoStatus::Runnable | GoStatus::Copystack | GoStatus::Preempted | GoStatus::Idle => {
                TaskStateSpec::Runnable
            },
            GoStatus::Waiting => TaskStateSpec::Blocked { on: block_reason_of(wait_reason) },
            GoStatus::Dead | GoStatus::Other(_) => TaskStateSpec::Completed,
        }
    }

    /// Decode a raw `atomicstatus` value, masking off the `_Gscan` bit.
    #[must_use]
    pub fn from_raw(raw: u32) -> (r: Self)
        ensures
            r == Self::of_raw(raw),
    {
        let base: u32 = raw & !G_SCAN;
        match base {
            0 => Self::Idle,
            1 => Self::Runnable,
            2 => Self::Running,
            3 => Self::Syscall,
            4 => Self::Waiting,
            6 => Self::Dead,
            8 => Self::Copystack,
            9 => Self::Preempted,
            other => Self::Other(other),
        }
    }

    /// Whether the status denotes a slot to omit from the task tree. Idle
    /// goroutines are kept.
    #[must_use]
    pub fn is_dead(self) -> (r: bool)
        ensures
            r == self.dead(),
    {
        match self {
            Self::Dead => true,
            Self::Other(n) => n == 5 || n == 7,
            _ => false,
        }
    }

    /// The portable lifecycle state of this status, with the wait reason of a
    /// waiting goroutine.
    #[must_use]
    pub fn to_task_state(self, wait_reason: u8) -> (r: TaskState)
        ensures
            r.deep_view() == self.task_state(wait_reason),
    {
        match self {
            Self::Running | Self::Syscall => TaskState::Running,
            Self::Runnable | Self::Copystack | Self::Preempted | Self::Idle => TaskState::Runnable,
            Self::Waiting => TaskState::Blocked { on: block_reason(wait_reason) },
            Self::Dead | Self::Other(_) => TaskState::Completed,
        }
    }
}

/// The `_Gscan` bit of a raw status does not change what it decodes to.
pub proof fn law_scan_bit_is_ignored(raw: u32)
    ensures
        GoStatus::of_raw(raw | G_SCAN) == GoStatus::of_raw(raw),
        GoStatus::of_raw(raw & !G_SCAN) == GoStatus::of_raw(raw),
{
    assert((raw | 0x1000u32) & !0x1000u32 == raw & !0x1000u32) by (bit_vector);
    assert((raw & !0x1000u32) & !0x1000u32 == raw & !0x1000u32) by (bit_vector);
}

/// The runtime's phrases for the wait reasons: the table of `go1.24.0`.
pub const WAIT_REASON_STRINGS: [&'static str; 44] = [
    "",
    "GC assist marking",
    "IO wait",
    "chan receive (nil chan)",
    "chan send (nil chan)",
    "dumping heap",
    "garbage collection",
    "garbage collection scan",
    "panicwait",
    "select",
    "select (no cases)",
    "GC assist wait",
    "GC sweep wait",
    "GC scavenge wait",
    "chan receive",
    "chan send",
    "finalizer wait",
    "force gc (idle)",
    "semacquire",
    "sleep",
    "sync.Cond.Wait",
    "sync.Mutex.Lock",
    "sync.RWMutex.RLock",
    "sync.RWMutex.Lock",
    "sync.WaitGroup.Wait",
    "trace reader (blocked)",
    "wait for GC cycle",
    "GC worker (idle)",
    "GC worker (active)",
    "preempted",
    "debug call",
    "GC mark termination",
    "stopping the world",
    "flushing proc caches",
    "trace goroutine status",
    "trace proc status",
    "page trace flush",
    "coroutine",
    "GC weak to strong wait",
    "synctest.Run",
    "synctest.Wait",
    "chan receive (synctest)",
    "chan send (synctest)",
    "select (synctest)",
];

/// The runtime's phrase for a wait reason, and `"?"` outside the vendored table.
pub open spec fn wait_reason_text(wait_reason: u8) -> Seq<char> {
    if wait_reason < 44 {
        WAIT_REASON_STRINGS@[wait_reason as int]@
    } else {
        "?"@
    }
}

/// The runtime's phrase for a wait reason, or `"?"` outside the vendored table.
#[must_use]
pub fn wait_reason_str(wait_reason: u8) -> (r: &'static str)
    ensures
        r@ == wait_reason_text(wait_reason),
{
    if wait_reason < 44 {
        WAIT_REASON_STRINGS[wait_reason as usize]
    } else {
        "?"
    }
}

/// Channel operations, the nil-channel and synctest forms, and selects.
pub open spec fn is_channel_wait(n: u8) -> bool {
    n == 3 || n == 4 || n == 9 || n == 10 || n == 14 || n == 15 || n == 41 || n == 42 || n == 43
}

/// Semaphores, condition variables and mutexes.
pub open spec fn is_lock_wait(n: u8) -> bool {
    n == 18 || 20 <= n <= 23
}

/// What a waiting goroutine is blocked on.
pub open spec fn block_reason_of(n: u8) -> BlockReasonSpec {
    let detail = Some(wait_reason_text(n));
    if is_channel_wait(n) {
        BlockReasonSpec::Channel { detail }
    } else if n == 2 {
        BlockReasonSpec::Io { detail }
    } else if is_lock_wait(n) {
        BlockReasonSpec::Lock { detail }
    } else if n == 24 {
        BlockReasonSpec::Join { on: None }
    } else if n == 19 {
        BlockReasonSpec::Timer
    } else {
        BlockReasonSpec::Unknown
    }
}

/// What kind of event will unblock a waiting goroutine.
pub open spec fn wake_cause_of(n: u8) -> WakeCauseSpec {
    let detail = Some(wait_reason_text(n));
    if is_channel_wait(n) {
        WakeCauseSpec::Channel { detail }
    } else if n == 2 {
        WakeCauseSpec::Io { detail: IoWakeDetailSpec { fd: None, description: detail } }
    } else if n == 19 {
        WakeCauseSpec::Timer
    } else if is_lock_wait(n) || n == 24 {
        WakeCauseSpec::Manual
    } else {
        WakeCauseSpec::Unknown
    }
}

/// Classify a waiting goroutine's wait reason, carrying the runtime's phrase as
/// detail.
#[must_use]
pub fn block_reason(wait_reason: u8) -> (r: BlockReason)
    ensures
        r.deep_view() == block_reason_of(wait_reason),
{
    let detail = Some(wait_reason_str(wait_reason).to_owned());
    match wait_reason {
        3 | 4 | 9 | 10 | 14 | 15 | 41 | 42 | 43 => BlockReason::Channel { detail },
        2 => BlockReason::Io { detail },
        18 | 20 | 21 | 22 | 23 => BlockReason::Lock { detail },
        24 => BlockReason::Join { on: None },
        19 => BlockReason::Timer,
        _ => BlockReason::Unknown,
    }
}

/// Best-effort wake cause of a blocked goroutine, from its wait reason.
#[must_use]
pub fn wake_cause(wait_reason: u8) -> (r: WakeCause)
    ensures
        r.deep_view() == wake_cause_of(wait_reason),
{
    let detail = Some(wait_reason_str(wait_reason).to_owned());
    match wait_reason {
        3 | 4 | 9 | 10 | 14 | 15 | 41 | 42 | 43 => WakeCause::Channel { detail },
        2 => WakeCause::Io { detail: IoWakeDetail { fd: None, description: detail } },
        19 => WakeCause::Timer,
        18 | 20 | 21 | 22 | 23 | 24 => WakeCause::Manual,
        _ => WakeCause::Unknown,
    }
}

/// A raw status without its scan bit.
pub open spec fn unscanned(raw: u32) -> int {
    if (raw / 0x1000) % 2 == 1 {
        raw - 0x1000
    } else {
        raw as int
    }
}

proof fn lemma_unscanned(raw: u32)
    ensures
        (raw & !G_SCAN) == unscanned(raw),
{
    assert((raw & !0x1000u32) == (if (raw / 0x1000) % 2 == 1 {
        (raw - 0x1000) as u32
    } else {
        raw
    })) by (bit_vector);
}

/// What a raw status says, by the number that is left without the scan bit: 2 runs
/// and 3 runs in a syscall; 0, 1, 8 and 9 can run; 4 waits, for its reason; any
/// other is over, and 5, 6 and 7 are no live goroutines.
pub proof fn law_a_status_goes_by_its_number(raw: u32, wait_reason: u8)
    ensures
        ({
            let n = unscanned(raw);
            let status = GoStatus::of_raw(raw);
            &&& status == GoStatus::Running <==> n == 2
            &&& status == GoStatus::Syscall <==> n == 3
            &&& status == GoStatus::Waiting <==> n == 4
            &&& status.dead() <==> 5 <= n <= 7
            &&& status.task_state(wait_reason) == TaskStateSpec::Running <==> n == 2 || n == 3
            &&& status.task_state(wait_reason) == TaskStateSpec::Runnable <==> n == 0 || n == 1 || n
                == 8 || n == 9
            &&& status.task_state(wait_reason) is Blocked <==> n == 4
            &&& n == 4 ==> status.task_state(wait_reason) == (TaskStateSpec::Blocked {
                on: block_reason_of(wait_reason),
            })
            &&& status.task_state(wait_reason) == TaskStateSpec::Completed <==> 5 <= n <= 7 || n
                > 9
        }),
{
    lemma_unscanned(raw);
}

/// The runtime's phrases, by their numbers.
pub proof fn law_wait_reasons_have_their_phrases()
    ensures
        wait_reason_text(0) == ""@,
        wait_reason_text(1) == "GC assist marking"@,
        wait_reason_text(2) == "IO wait"@,
        wait_reason_text(3) == "chan receive (nil chan)"@,
        wait_reason_text(4) == "chan send (nil chan)"@,
        wait_reason_text(5) == "dumping heap"@,
        wait_reason_text(6) == "garbage collection"@,
        wait_reason_text(7) == "garbage collection scan"@,
        wait_reason_text(8) == "panicwait"@,
        wait_reason_text(9) == "select"@,
        wait_reason_text(10) == "select (no cases)"@,
        wait_reason_text(11) == "GC assist wait"@,
        wait_reason_text(12) == "GC sweep wait"@,
        wait_reason_text(13) == "GC scavenge wait"@,
        wait_reason_text(14) == "chan receive"@,
        wait_reason_text(15) == "chan send"@,
        wait_reason_text(16) == "finalizer wait"@,
        wait_reason_text(17) == "force gc (idle)"@,
        wait_reason_text(18) == "semacquire"@,
        wait_reason_text(19) == "sleep"@,
        wait_reason_text(20) == "sync.Cond.Wait"@,
        wait_reason_text(21) == "sync.Mutex.Lock"@,
        wait_reason_text(22) == "sync.RWMutex.RLock"@,
        wait_reason_text(23) == "sync.RWMutex.Lock"@,
        wait_reason_text(24) == "sync.WaitGroup.Wait"@,
        wait_reason_text(25) == "trace reader (blocked)"@,
        wait_reason_text(26) == "wait for GC cycle"@,
        wait_reason_text(27) == "GC worker (idle)"@,
        wait_reason_text(28) == "GC worker (active)"@,
        wait_reason_text(29) == "preempted"@,
        wait_reason_text(30) == "debug call"@,
        wait_reason_text(31) == "GC mark termination"@,
        wait_reason_text(32) == "stopping the world"@,
        wait_reason_text(33) == "flushing proc caches"@,
        wait_reason_text(34) == "trace goroutine status"@,
        wait_reason_text(35) == "trace proc status"@,
        wait_reason_text(36) == "page trace flush"@,
        wait_reason_text(37) == "coroutine"@,
        wait_reason_text(38) == "GC weak to strong wait"@,
        wait_reason_text(39) == "synctest.Run"@,
        wait_reason_text(40) == "synctest.Wait"@,
        wait_reason_text(41) == "chan receive (synctest)"@,
        wait_reason_text(42) == "chan send (synctest)"@,
        wait_reason_text(43) == "select (synctest)"@,
{
}

/// The phrase for a wait reason begins with these characters.
pub open spec fn phrase_begins(n: u8, start: Seq<char>) -> bool {
    &&& wait_reason_text(n).len() >= start.len()
    &&& forall|i: int| 0 <= i < start.len() ==> #[trigger] wait_reason_text(n)[i] == start[i]
}

/// What a waiting goroutine is blocked on, and what will wake it, is what the
/// runtime's phrase says.
pub open spec fn agrees_with_phrase(n: u8) -> bool {
    let channel = phrase_begins(n, "chan "@) || phrase_begins(n, "select"@);
    let lock = phrase_begins(n, "semacquire"@) || phrase_begins(n, "sync.Cond"@) || phrase_begins(
        n,
        "sync.Mutex"@,
    ) || phrase_begins(n, "sync.RWMutex"@);
    let join = phrase_begins(n, "sync.WaitGroup"@);
    let timer = phrase_begins(n, "sleep"@);
    let io = phrase_begins(n, "IO wait"@);
    let detail = Some(wait_reason_text(n));
    &&& channel ==> block_reason_of(n) == (BlockReasonSpec::Channel { detail }) && wake_cause_of(n)
        == (WakeCauseSpec::Channel { detail })
    &&& lock ==> block_reason_of(n) == (BlockReasonSpec::Lock { detail }) && wake_cause_of(n)
        == WakeCauseSpec::Manual
    &&& join ==> block_reason_of(n) == (BlockReasonSpec::Join { on: None }) && wake_cause_of(n)
        == WakeCauseSpec::Manual
    &&& timer ==> block_reason_of(n) == BlockReasonSpec::Timer && wake_cause_of(n)
        == WakeCauseSpec::Timer
    &&& io ==> block_reason_of(n) == (BlockReasonSpec::Io { detail }) && wake_cause_of(n) == (
    WakeCauseSpec::Io { detail: IoWakeDetailSpec { fd: None, description: detail } })
    &&& !channel && !lock && !join && !timer && !io ==> block_reason_of(n)
        == BlockReasonSpec::Unknown && wake_cause_of(n) == WakeCauseSpec::Unknown
}

proof fn lemma_phrase_begins(n: u8, start: Seq<char>)
    requires
        0 < start.len() <= 14,
        wait_reason_text(n).len() >= start.len(),
        start.len() > 0 ==> wait_reason_text(n)[0] == start[0],
        start.len() > 1 ==> wait_reason_text(n)[1] == start[1],
        start.len() > 2 ==> wait_reason_text(n)[2] == start[2],
        start.len() > 3 ==> wait_reason_text(n)[3] == start[3],
        start.len() > 4 ==> wait_reason_text(n)[4] == start[4],
        start.len() > 5 ==> wait_reason_text(n)[5] == start[5],
        start.len() > 6 ==> wait_reason_text(n)[6] == start[6],
        start.len() > 7 ==> wait_reason_text(n)[7] == start[7],
        start.len() > 8 ==> wait_reason_text(n)[8] == start[8],
        start.len() > 9 ==> wait_reason_text(n)[9] == start[9],
        start.len() > 10 ==> wait_reason_text(n)[10] == start[10],
        start.len() > 11 ==> wait_reason_text(n)[11] == start[11],
        start.len() > 12 ==> wait_reason_text(n)[12] == start[12],
        start.len() > 13 ==> wait_reason_text(n)[13] == start[13],
    ensures
        phrase_begins(n, start),
{
    assert forall|i: int| 0 <= i < start.len() implies #[trigger] wait_reason_text(n)[i]
        == start[i] by {
        assert(i < 14);
        if i == 0 {
        } else if i == 1 {
        } else if i == 2 {
        } else if i == 3 {
        } else if i == 4 {
        } else if i == 5 {
        } else if i == 6 {
        } else if i == 7 {
        } else if i == 8 {
        } else if i == 9 {
        } else if i == 10 {
        } else if i == 11 {
        } else if i == 12 {
        } else if i == 13 {
        }
    }
}

/// What a waiting goroutine is blocked on goes by the runtime's phrase: one for a
/// channel or a select says so at its beginning, a lock is a semaphore, a condition
/// or a mutex, a wait group is joined, a sleep is a timer, `IO wait` is I/O, and
/// of any other phrase nothing is known. What will wake it is of the same kind.
pub proof fn law_a_wait_is_what_its_phrase_says(n: u8)
    ensures
        agrees_with_phrase(n),
{
    reveal_strlit("GC assist marking");
    reveal_strlit("IO wait");
    reveal_strlit("chan receive (nil chan)");
    reveal_strlit("chan send (nil chan)");
    reveal_strlit("dumping heap");
    reveal_strlit("garbage collection");
    reveal_strlit("garbage collection scan");
    reveal_strlit("panicwait");
    reveal_strlit("select");
    reveal_strlit("select (no cases)");
    reveal_strlit("GC assist wait");
    reveal_strlit("GC sweep wait");
    reveal_strlit("GC scavenge wait");
    reveal_strlit("chan receive");
    reveal_strlit("chan send");
    reveal_strlit("finalizer wait");
    reveal_strlit("force gc (idle)");
    reveal_strlit("semacquire");
    reveal_strlit("sleep");
    reveal_strlit("sync.Cond.Wait");
    reveal_strlit("sync.Mutex.Lock");
    reveal_strlit("sync.RWMutex.RLock");
    reveal_strlit("sync.RWMutex.Lock");
    reveal_strlit("sync.WaitGroup.Wait");
    reveal_strlit("trace reader (blocked)");
    reveal_strlit("wait for GC cycle");
    reveal_strlit("GC worker (idle)");
    reveal_strlit("GC worker (active)");
    reveal_strlit("preempted");
    reveal_strlit("debug call");
    reveal_strlit("GC mark termination");
    reveal_strlit("stopping the world");
    reveal_strlit("flushing proc caches");
    reveal_strlit("trace goroutine status");
    reveal_strlit("trace proc status");
    reveal_strlit("page trace flush");
    reveal_strlit("coroutine");
    reveal_strlit("GC weak to strong wait");
    reveal_strlit("synctest.Run");
    reveal_strlit("synctest.Wait");
    reveal_strlit("chan receive (synctest)");
    reveal_strlit("chan send (synctest)");
    reveal_strlit("select (synctest)");
    reveal_strlit("");
    reveal_strlit("?");
    reveal_strlit("chan ");
    reveal_strlit("sync.Cond");
    reveal_strlit("sync.Mutex");
    reveal_strlit("sync.RWMutex");
    reveal_strlit("sync.WaitGroup");
    law_wait_reasons_have_their_phrases();
    let s = wait_reason_text(n);
    if n >= 44 {
        assert(s.len() == 1);
        assert(agrees_with_phrase(n));
    } else if n == 0 {
        assert(agrees_with_phrase(n));
    } else if n == 1 {
        assert(s[0] == 'G');
        assert(agrees_with_phrase(n));
    } else if n == 2 {
        lemma_phrase_begins(n, "IO wait"@);
        assert(s[0] == 'I');
        assert(agrees_with_phrase(n));
    } else if n == 3 {
        lemma_phrase_begins(n, "chan "@);
        assert(s[0] == 'c');
        assert(agrees_with_phrase(n));
    } else if n == 4 {
        lemma_phrase_begins(n, "chan "@);
        assert(s[0] == 'c');
        assert(agrees_with_phrase(n));
    } else if n == 5 {
        assert(s[0] == 'd');
        assert(agrees_with_phrase(n));
    } else if n == 6 {
        assert(s[0] == 'g');
        assert(agrees_with_phrase(n));
    } else if n == 7 {
        assert(s[0] == 'g');
        assert(agrees_with_phrase(n));
    } else if n == 8 {
        assert(s[0] == 'p');
        assert(agrees_with_phrase(n));
    } else if n == 9 {
        lemma_phrase_begins(n, "select"@);
        assert(s[0] == 's');
        assert(s[1] == 'e');
        assert(s[2] == 'l');
        assert(agrees_with_phrase(n));
    } else if n == 10 {
        lemma_phrase_begins(n, "select"@);
        assert(s[0] == 's');
        assert(s[1] == 'e');
        assert(s[2] == 'l');
        assert(agrees_with_phrase(n));
    } else if n == 11 {
        assert(s[0] == 'G');
        assert(agrees_with_phrase(n));
    } else if n == 12 {
        assert(s[0] == 'G');
        assert(agrees_with_phrase(n));
    } else if n == 13 {
        assert(s[0] == 'G');
        assert(agrees_with_phrase(n));
    } else if n == 14 {
        lemma_phrase_begins(n, "chan "@);
        assert(s[0] == 'c');
        assert(agrees_with_phrase(n));
    } else if n == 15 {
        lemma_phrase_begins(n, "chan "@);
        assert(s[0] == 'c');
        assert(agrees_with_phrase(n));
    } else if n == 16 {
        assert(s[0] == 'f');
        assert(agrees_with_phrase(n));
    } else if n == 17 {
        assert(s[0] == 'f');
        assert(agrees_with_phrase(n));
    } else if n == 18 {
        lemma_phrase_begins(n, "semacquire"@);
        assert(s[0] == 's');
        assert(s[1] == 'e');
        assert(s[2] == 'm');
        assert(agrees_with_phrase(n));
    } else if n == 19 {
        lemma_phrase_begins(n, "sleep"@);
        assert(s[0] == 's');
        assert(s[1] == 'l');
        assert(agrees_with_phrase(n));
    } else if n == 20 {
        lemma_phrase_begins(n, "sync.Cond"@);
        assert(s[0] == 's');
        assert(s[1] == 'y');
        assert(s[5] == 'C');
        assert(agrees_with_phrase(n));
    } else if n == 21 {
        lemma_phrase_begins(n, "sync.Mutex"@);
        assert(s[0] == 's');
        assert(s[1] == 'y');
        assert(s[5] == 'M');
        assert(agrees_with_phrase(n));
    } else if n == 22 {
        lemma_phrase_begins(n, "sync.RWMutex"@);
        assert(s[0] == 's');
        assert(s[1] == 'y');
        assert(s[5] == 'R');
        assert(agrees_with_phrase(n));
    } else if n == 23 {
        lemma_phrase_begins(n, "sync.RWMutex"@);
        assert(s[0] == 's');
        assert(s[1] == 'y');
        assert(s[5] == 'R');
        assert(agrees_with_phrase(n));
    } else if n == 24 {
        lemma_phrase_begins(n, "sync.WaitGroup"@);
        assert(s[0] == 's');
        assert(s[1] == 'y');
        assert(s[5] == 'W');
        assert(agrees_with_phrase(n));
    } else if n == 25 {
        assert(s[0] == 't');
        assert(agrees_with_phrase(n));
    } else if n == 26 {
        assert(s[0] == 'w');
        assert(agrees_with_phrase(n));
    } else if n == 27 {
        assert(s[0] == 'G');
        assert(agrees_with_phrase(n));
    } else if n == 28 {
        assert(s[0] == 'G');
        assert(agrees_with_phrase(n));
    } else if n == 29 {
        assert(s[0] == 'p');
        assert(agrees_with_phrase(n));
    } else if n == 30 {
        assert(s[0] == 'd');
        assert(agrees_with_phrase(n));
    } else if n == 31 {
        assert(s[0] == 'G');
        assert(agrees_with_phrase(n));
    } else if n == 32 {
        assert(s[0] == 's');
        assert(s[1] == 't');
        assert(agrees_with_phrase(n));
    } else if n == 33 {
        assert(s[0] == 'f');
        assert(agrees_with_phrase(n));
    } else if n == 34 {
        assert(s[0] == 't');
        assert(agrees_with_phrase(n));
    } else if n == 35 {
        assert(s[0] == 't');
        assert(agrees_with_phrase(n));
    } else if n == 36 {
        assert(s[0] == 'p');
        assert(agrees_with_phrase(n));
    } else if n == 37 {
        assert(s[0] == 'c');
        assert(s[1] == 'o');
        assert(agrees_with_phrase(n));
    } else if n == 38 {
        assert(s[0] == 'G');
        assert(agrees_with_phrase(n));
    } else if n == 39 {
        assert(s[0] == 's');
        assert(s[1] == 'y');
        assert(s[4] == 't');
        assert(agrees_with_phrase(n));
    } else if n == 40 {
        assert(s[0] == 's');
        assert(s[1] == 'y');
        assert(s[4] == 't');
        assert(agrees_with_phrase(n));
    } else if n == 41 {
        lemma_phrase_begins(n, "chan "@);
        assert(s[0] == 'c');
        assert(agrees_with_phrase(n));
    } else if n == 42 {
        lemma_phrase_begins(n, "chan "@);
        assert(s[0] == 'c');
        assert(agrees_with_phrase(n));
    } else if n == 43 {
        lemma_phrase_begins(n, "select"@);
        assert(s[0] == 's');
        assert(s[1] == 'e');
        assert(s[2] == 'l');
        assert(agrees_with_phrase(n));
    }
}

/// A wait reason outside the table reads `"?"`, blocks for an unknown reason and
/// has no known wake cause.
pub proof fn law_foreign_wait_reasons_are_unknown(n: u8)
    requires
        n >= 44,
    ensures
        wait_reason_text(n) == "?"@,
        block_reason_of(n) == BlockReasonSpec::Unknown,
        wake_cause_of(n) == WakeCauseSpec::Unknown,
{
}

} // verus!
