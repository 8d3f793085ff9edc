//! Task lifecycle and suspend-point classification for async Rust.
use vstd::prelude::*;

use super::layout::VariantKind;
use crate::model::{BlockReason, BlockReasonSpec, IoWakeDetail, IoWakeDetailSpec, SuspendKind};
use crate::model::{TaskState, TaskStateSpec, WakeCause, WakeCauseSpec};
use crate::text;

pub mod bits;

verus! {

/// The lifecycle state that a Tokio task's state word stands for. A completed
/// or cancelled task is over; one being polled runs; one with a pending
/// notification is runnable; any other is parked.
pub open spec fn header_state(state: usize) -> TaskStateSpec {
    if state & bits::COMPLETE != 0 || state & bits::CANCELLED != 0 {
        TaskStateSpec::Completed
    } else if state & bits::RUNNING != 0 {
        TaskStateSpec::Running
    } else if state & bits::NOTIFIED != 0 {
        TaskStateSpec::Runnable
    } else {
        TaskStateSpec::Blocked { on: BlockReasonSpec::Unknown }
    }
}

/// Portable interpretation of a Tokio task's state word.
#[must_use]
pub fn classify_header_state(state: usize) -> (r: TaskState)
    ensures
        r.deep_view() == header_state(state),
{
    if state & bits::COMPLETE != 0 || state & bits::CANCELLED != 0 {
        TaskState::Completed
    } else if state & bits::RUNNING != 0 {
        TaskState::Running
    } else if state & bits::NOTIFIED != 0 {
        TaskState::Runnable
    } else {
        TaskState::Blocked { on: BlockReason::Unknown }
    }
}

/// The task reference count in the high bits of the state word.
#[must_use]
pub fn ref_count(state: usize) -> (r: usize)
    ensures
        r == state / 64,
{
    assert(state >> 6usize == state / 64) by (bit_vector);
    state >> 6usize
}

/// The join and reference-count bits of a state word do not change the
/// lifecycle state.
pub proof fn law_only_lifecycle_bits_matter(a: usize, b: usize)
    requires
        a & 0x27 == b & 0x27,
    ensures
        header_state(a) == header_state(b),
{
    assert(a & 0x27 == b & 0x27 ==> (a & 1 == b & 1) && (a & 2 == b & 2) && (a & 4 == b & 4) && (a
        & 32 == b & 32)) by (bit_vector);
}

/// The lifecycle state of a coroutine, from its own active variant.
pub open spec fn variant_state(kind: VariantKind) -> TaskStateSpec {
    match kind {
        VariantKind::Unresumed => TaskStateSpec::Runnable,
        VariantKind::Returned | VariantKind::Panicked => TaskStateSpec::Completed,
        VariantKind::Suspend(_) => TaskStateSpec::Blocked { on: BlockReasonSpec::Unknown },
    }
}

/// The lifecycle state of a coroutine, from its own active variant: the
/// fallback where no task header is available.
#[must_use]
pub fn state_from_variant(kind: VariantKind) -> (r: TaskState)
    ensures
        r.deep_view() == variant_state(kind),
{
    match kind {
        VariantKind::Unresumed => TaskState::Runnable,
        VariantKind::Returned | VariantKind::Panicked => TaskState::Completed,
        VariantKind::Suspend(_) => TaskState::Blocked { on: BlockReason::Unknown },
    }
}

/// The classification of one leaf (innermost) awaited future.
#[derive(Debug, Clone, PartialEq, Eq)]
pub struct LeafClass {
    /// How to render the suspend point on the logical frame.
    pub suspend: SuspendKind,
    /// The best-effort wake cause for the parked task.
    pub wake: WakeCause,
    /// The portable block reason for the task's state.
    pub block: BlockReason,
}

/// The value of a `LeafClass`.
#[verifier::ext_equal]
pub struct LeafClassSpec {
    pub suspend: SuspendKind,
    pub wake: WakeCauseSpec,
    pub block: BlockReasonSpec,
}

impl DeepView for LeafClass {
    type V = LeafClassSpec;

    open spec fn deep_view(&self) -> LeafClassSpec {
        LeafClassSpec {
            suspend: self.suspend,
            wake: self.wake.deep_view(),
            block: self.block.deep_view(),
        }
    }
}

/// Some of the needles stands in the text.
pub open spec fn holds_any(s: Seq<char>, needles: Seq<Seq<char>>) -> bool {
    exists|i: int| 0 <= i < needles.len() && text::contains(s, #[trigger] needles[i])
}

/// A character that can be part of an identifier.
pub open spec fn is_identifier_part(c: char) -> bool {
    'a' <= c <= 'z' || 'A' <= c <= 'Z' || '0' <= c <= '9' || c == '_' || c as int >= 0x80
}

/// The needle stands at a position where a component of a path starts.
pub open spec fn starts_component(s: Seq<char>, needle: Seq<char>, at: int) -> bool {
    text::occurs_at(s, needle, at) && (at == 0 || !is_identifier_part(s[at - 1]))
}

/// The needle stands in the text, from the start of a component of a path on.
pub open spec fn holds_path(s: Seq<char>, needle: Seq<char>) -> bool {
    exists|at: int| starts_component(s, needle, at)
}

/// Names of timer futures.
pub open spec fn is_timer_name(s: Seq<char>) -> bool {
    holds_any(s, seq!["time::sleep::Sleep"@, "time::Sleep"@, "Timeout"@])
}

/// Names of channel futures.
pub open spec fn is_channel_name(s: Seq<char>) -> bool {
    holds_any(
        s,
        seq!["Recv"@, "channel"@, "mpsc"@, "oneshot"@, "broadcast"@, "watch"@],
    )
}

/// Names of lock futures.
pub open spec fn is_lock_name(s: Seq<char>) -> bool {
    holds_any(s, seq!["Mutex"@, "RwLock"@, "Semaphore"@, "Barrier"@])
}

/// Names of I/O futures. The module `io` is a whole component of the path: `io::`
/// does not count where it stands in `tokio::`.
pub open spec fn is_io_name(s: Seq<char>) -> bool {
    holds_any(s, seq!["TcpStream"@, "net::"@, "AsyncFd"@, "poll_read"@]) || holds_path(s, "io::"@)
}

/// The last `::`-separated component of a type path, generic arguments aside.
pub open spec fn short_name_of(type_path: Seq<char>) -> Seq<char> {
    text::after_last(text::before(type_path, "<"@), "::"@)
}

/// What a future of this type waits for. The first kind that fits wins: timer,
/// channel, lock, I/O.
pub open spec fn leaf_class(type_path: Seq<char>) -> LeafClassSpec {
    let detail = Some(short_name_of(type_path));
    if is_timer_name(type_path) {
        LeafClassSpec {
            suspend: SuspendKind::Timer,
            wake: WakeCauseSpec::Timer,
            block: BlockReasonSpec::Timer,
        }
    } else if is_channel_name(type_path) {
        LeafClassSpec {
            suspend: SuspendKind::ChannelRecv,
            wake: WakeCauseSpec::Channel { detail },
            block: BlockReasonSpec::Channel { detail },
        }
    } else if is_lock_name(type_path) {
        LeafClassSpec {
            suspend: SuspendKind::Lock,
            wake: WakeCauseSpec::Manual,
            block: BlockReasonSpec::Lock { detail },
        }
    } else if is_io_name(type_path) {
        LeafClassSpec {
            suspend: SuspendKind::Io,
            wake: WakeCauseSpec::Io { detail: IoWakeDetailSpec { fd: None, description: detail } },
            block: BlockReasonSpec::Io { detail },
        }
    } else {
        LeafClassSpec {
            suspend: SuspendKind::Other,
            wake: WakeCauseSpec::Unknown,
            block: BlockReasonSpec::Unknown,
        }
    }
}

fn contains_any(haystack: &[char], needles: &Vec<&str>) -> (r: bool)
    ensures
        r == holds_any(haystack@, needles.deep_view()),
{
    let mut i: usize = 0;
    let ghost all = needles.deep_view();
    while i < needles.len()
        invariant
            i <= needles.len(),
            all == needles.deep_view(),
            forall|j: int| 0 <= j < i ==> !text::contains(haystack@, #[trigger] all[j]),
        decreases needles.len() - i,
    {
        assert(all[i as int] == needles@[i as int]@);
        if text::contains_chars(haystack, needles[i]) {
            return true;
        }
        i += 1;
    }
    false
}

/// Whether a character can be part of an identifier.
fn continues_identifier(c: char) -> (r: bool)
    ensures
        r == is_identifier_part(c),
{
    ('a' <= c && c <= 'z') || ('A' <= c && c <= 'Z') || ('0' <= c && c <= '9') || c == '_' || c
        as u32 >= 0x80
}

fn contains_path(haystack: &[char], needle: &str) -> (r: bool)
    ensures
        r == holds_path(haystack@, needle@),
{
    let needle_chars = text::chars_of(needle);
    let mut from: usize = 0;
    loop
        invariant
            needle_chars@ == needle@,
            from <= haystack@.len(),
            forall|at: int| 0 <= at < from ==> !starts_component(haystack@, needle@, at),
        decreases haystack@.len() - from,
    {
        proof {
            text::lemma_find(haystack@, needle@, from as int);
        }
        match text::find_chars(haystack, needle_chars.as_slice(), from) {
            None => {
                return false;
            },
            Some(at) => {
                if at == 0 || !continues_identifier(haystack[at - 1]) {
                    assert(starts_component(haystack@, needle@, at as int));
                    return true;
                }
                if at >= haystack.len() {
                    return false;
                }
                from = at + 1;
            },
        }
    }
}

/// Classify a parked task's leaf future by its type name. An unrecognized type
/// is honestly unknown.
#[must_use]
pub fn classify_leaf(type_path: &str) -> (r: LeafClass)
    ensures
        r.deep_view() == leaf_class(type_path@),
{
    let chars = text::chars_of(type_path);
    let name = chars.as_slice();
    let timers: Vec<&str> = vec!["time::sleep::Sleep", "time::Sleep", "Timeout"];
    let channels: Vec<&str> = vec!["Recv", "channel", "mpsc", "oneshot", "broadcast", "watch"];
    let locks: Vec<&str> = vec!["Mutex", "RwLock", "Semaphore", "Barrier"];
    let ios: Vec<&str> = vec!["TcpStream", "net::", "AsyncFd", "poll_read"];
    assert(timers.deep_view() =~= seq!["time::sleep::Sleep"@, "time::Sleep"@, "Timeout"@]);
    assert(channels.deep_view() =~= seq![
        "Recv"@,
        "channel"@,
        "mpsc"@,
        "oneshot"@,
        "broadcast"@,
        "watch"@,
    ]);
    assert(locks.deep_view() =~= seq!["Mutex"@, "RwLock"@, "Semaphore"@, "Barrier"@]);
    assert(ios.deep_view() =~= seq!["TcpStream"@, "net::"@, "AsyncFd"@, "poll_read"@]);
    if contains_any(name, &timers) {
        LeafClass {
            suspend: SuspendKind::Timer,
            wake: WakeCause::Timer,
            block: BlockReason::Timer,
        }
    } else if contains_any(name, &channels) {
        LeafClass {
            suspend: SuspendKind::ChannelRecv,
            wake: WakeCause::Channel { detail: Some(short_name(type_path)) },
            block: BlockReason::Channel { detail: Some(short_name(type_path)) },
        }
    } else if contains_any(name, &locks) {
        LeafClass {
            suspend: SuspendKind::Lock,
            wake: WakeCause::Manual,
            block: BlockReason::Lock { detail: Some(short_name(type_path)) },
        }
    } else if contains_any(name, &ios) || contains_path(name, "io::") {
        LeafClass {
            suspend: SuspendKind::Io,
            wake: WakeCause::Io {
                detail: IoWakeDetail { fd: None, description: Some(short_name(type_path)) },
            },
            block: BlockReason::Io { detail: Some(short_name(type_path)) },
        }
    } else {
        LeafClass {
            suspend: SuspendKind::Other,
            wake: WakeCause::Unknown,
            block: BlockReason::Unknown,
        }
    }
}

/// The last `::`-separated component of a type path, generic arguments aside.
#[must_use]
pub fn short_name(type_path: &str) -> (r: String)
    ensures
        r@ == short_name_of(type_path@),
{
    let chars = text::chars_of(type_path);
    let open = text::chars_of("<");
    let sep = text::chars_of("::");
    let head = text::cut_before(chars.as_slice(), open.as_slice());
    text::text_of(text::cut_after_last(head, sep.as_slice()))
}

} // verus!
