//! What type names say of futures.
use vstd::prelude::*;

use super::layout;
use super::state;
use crate::model::{BlockReasonSpec, IoWakeDetailSpec, SuspendKind, WakeCauseSpec};
use crate::text;

verus! {

/// A text with these characters somewhere in it.
pub open spec fn has(s: Seq<char>, part: Seq<char>) -> bool {
    exists|before: Seq<char>, after: Seq<char>| s == #[trigger] (before + part + after)
}

/// A text with these characters somewhere in it, not directly behind a letter, a
/// digit, an underscore or a character beyond ASCII.
pub open spec fn has_component(s: Seq<char>, part: Seq<char>) -> bool {
    exists|before: Seq<char>, after: Seq<char>|
        s == #[trigger] (before + part + after) && (before.len() == 0 || !(('a' <= before.last()
            <= 'z') || ('A' <= before.last() <= 'Z') || ('0' <= before.last() <= '9')
            || before.last() == '_' || before.last() as int >= 0x80))
}

proof fn lemma_has(s: Seq<char>, part: Seq<char>)
    ensures
        has(s, part) <==> text::contains(s, part),
        has_component(s, part) <==> state::holds_path(s, part),
{
    assert forall|before: Seq<char>, after: Seq<char>|
        s == #[trigger] (before + part + after) implies text::occurs_at(
        s,
        part,
        before.len() as int,
    ) by {
        assert(s.subrange(before.len() as int, (before.len() + part.len()) as int) =~= part);
    }
    assert forall|at: int| text::occurs_at(s, part, at) implies s == s.take(at) + part + s.skip(
        at + part.len(),
    ) by {
        assert forall|i: int| 0 <= i < part.len() implies s[at + i] == part[i] by {
            assert(s.subrange(at, at + part.len())[i] == s[at + i]);
        }
        assert(s =~= s.take(at) + part + s.skip(at + part.len()));
    }
    if has(s, part) {
        let (before, after) = choose|before: Seq<char>, after: Seq<char>|
            s == #[trigger] (before + part + after);
        assert(text::occurs_at(s, part, before.len() as int));
    }
    if text::contains(s, part) {
        let at = choose|at: int| text::occurs_at(s, part, at);
        assert(s == s.take(at) + part + s.skip(at + part.len()));
    }
    if has_component(s, part) {
        let (before, after) = choose|before: Seq<char>, after: Seq<char>|
            s == #[trigger] (before + part + after) && (before.len() == 0 || !(('a'
                <= before.last() <= 'z') || ('A' <= before.last() <= 'Z') || ('0' <= before.last()
                <= '9') || before.last() == '_' || before.last() as int >= 0x80));
        let at = before.len() as int;
        assert(text::occurs_at(s, part, at));
        if at > 0 {
            assert(s[at - 1] == before.last());
        }
        assert(state::starts_component(s, part, at));
    }
    if state::holds_path(s, part) {
        let at = choose|at: int| state::starts_component(s, part, at);
        let before = s.take(at);
        assert(s == before + part + s.skip(at + part.len()));
        if at > 0 {
            assert(before.last() == s[at - 1]);
        }
    }
}

/// The name of a timer.
pub open spec fn names_timer(s: Seq<char>) -> bool {
    has(s, "time::sleep::Sleep"@) || has(s, "time::Sleep"@) || has(s, "Timeout"@)
}

/// The name of a channel's future.
pub open spec fn names_channel(s: Seq<char>) -> bool {
    has(s, "Recv"@) || has(s, "channel"@) || has(s, "mpsc"@) || has(s, "oneshot"@) || has(
        s,
        "broadcast"@,
    ) || has(s, "watch"@)
}

/// The name of a lock's future.
pub open spec fn names_lock(s: Seq<char>) -> bool {
    has(s, "Mutex"@) || has(s, "RwLock"@) || has(s, "Semaphore"@) || has(s, "Barrier"@)
}

/// The name of an I/O future.
pub open spec fn names_io(s: Seq<char>) -> bool {
    has(s, "TcpStream"@) || has(s, "net::"@) || has_component(s, "io::"@) || has(s, "AsyncFd"@)
        || has(s, "poll_read"@)
}

/// A future waits for what its name says. Where more than one kind is named, a timer
/// goes before a channel, a channel before a lock, a lock before I/O. Of a name that
/// says nothing, nothing is claimed.
pub proof fn law_a_future_waits_for_what_its_name_says(s: Seq<char>)
    ensures
        ({
            let class = state::leaf_class(s);
            let detail = Some(state::short_name_of(s));
            if names_timer(s) {
                class.suspend == SuspendKind::Timer && class.wake == WakeCauseSpec::Timer
                    && class.block == BlockReasonSpec::Timer
            } else if names_channel(s) {
                class.suspend == SuspendKind::ChannelRecv && class.wake == (
                WakeCauseSpec::Channel { detail }) && class.block == (BlockReasonSpec::Channel {
                    detail,
                })
            } else if names_lock(s) {
                class.suspend == SuspendKind::Lock && class.wake == WakeCauseSpec::Manual
                    && class.block == (BlockReasonSpec::Lock { detail })
            } else if names_io(s) {
                class.suspend == SuspendKind::Io && class.wake == (WakeCauseSpec::Io {
                    detail: IoWakeDetailSpec { fd: None, description: detail },
                }) && class.block == (BlockReasonSpec::Io { detail })
            } else {
                class.suspend == SuspendKind::Other && class.wake == WakeCauseSpec::Unknown
                    && class.block == BlockReasonSpec::Unknown
            }
        }),
{
    lemma_has(s, "time::sleep::Sleep"@);
    lemma_has(s, "time::Sleep"@);
    lemma_has(s, "Timeout"@);
    let timers = seq!["time::sleep::Sleep"@, "time::Sleep"@, "Timeout"@];
    assert(timers[0] == "time::sleep::Sleep"@ && timers[1] == "time::Sleep"@ && timers[2]
        == "Timeout"@);
    assert(state::is_timer_name(s) == names_timer(s));
    lemma_has(s, "Recv"@);
    lemma_has(s, "channel"@);
    lemma_has(s, "mpsc"@);
    lemma_has(s, "oneshot"@);
    lemma_has(s, "broadcast"@);
    lemma_has(s, "watch"@);
    let channels = seq!["Recv"@, "channel"@, "mpsc"@, "oneshot"@, "broadcast"@, "watch"@];
    assert(channels[0] == "Recv"@ && channels[1] == "channel"@ && channels[2] == "mpsc"@
        && channels[3] == "oneshot"@ && channels[4] == "broadcast"@ && channels[5] == "watch"@);
    assert(state::is_channel_name(s) == names_channel(s));
    lemma_has(s, "Mutex"@);
    lemma_has(s, "RwLock"@);
    lemma_has(s, "Semaphore"@);
    lemma_has(s, "Barrier"@);
    let locks = seq!["Mutex"@, "RwLock"@, "Semaphore"@, "Barrier"@];
    assert(locks[0] == "Mutex"@ && locks[1] == "RwLock"@ && locks[2] == "Semaphore"@ && locks[3]
        == "Barrier"@);
    assert(state::is_lock_name(s) == names_lock(s));
    lemma_has(s, "TcpStream"@);
    lemma_has(s, "net::"@);
    lemma_has(s, "AsyncFd"@);
    lemma_has(s, "poll_read"@);
    lemma_has(s, "io::"@);
    let ios = seq!["TcpStream"@, "net::"@, "AsyncFd"@, "poll_read"@];
    assert(ios[0] == "TcpStream"@ && ios[1] == "net::"@ && ios[2] == "AsyncFd"@ && ios[3]
        == "poll_read"@);
    assert(state::is_io_name(s) == names_io(s));
}

// ---------------------------------------------------------------------------
// Short names
// ---------------------------------------------------------------------------

/// A character does not occur in a text.
pub open spec fn lacks(s: Seq<char>, c: char) -> bool {
    forall|i: int| 0 <= i < s.len() ==> #[trigger] s[i] != c
}

proof fn lemma_before(head: Seq<char>, mark: Seq<char>, tail: Seq<char>, c: char, at: int)
    requires
        0 <= at < mark.len(),
        mark[at] == c,
        lacks(head, c),
        forall|i: int| 0 <= i < at ==> #[trigger] mark[i] != c,
    ensures
        text::before(head + mark + tail, mark) == head,
{
    let s = head + mark + tail;
    text::lemma_find(s, mark, 0);
    assert(s.subrange(head.len() as int, (head.len() + mark.len()) as int) =~= mark);
    assert(text::occurs_at(s, mark, head.len() as int));
    if let Some(found) = text::find(s, mark, 0) {
        if found < head.len() {
            assert(s.subrange(found, found + mark.len())[at] == s[found + at]);
            assert(s[found + at] == c);
            if found + at < head.len() {
                assert(head[found + at] == c);
            } else {
                assert(mark[found + at - head.len()] == c);
            }
        }
        assert(s.take(found) =~= head);
    }
}

proof fn lemma_no_mark(s: Seq<char>, mark: Seq<char>, c: char, at: int)
    requires
        0 <= at < mark.len(),
        mark[at] == c,
        lacks(s, c),
    ensures
        text::before(s, mark) == s,
        text::after_last(s, mark) == s,
{
    text::lemma_find(s, mark, 0);
    text::lemma_rfind(s, mark, s.len() - mark.len());
    if let Some(found) = text::find(s, mark, 0) {
        assert(s.subrange(found, found + mark.len())[at] == s[found + at]);
    }
    if let Some(found) = text::rfind(s, mark, s.len() - mark.len()) {
        assert(s.subrange(found, found + mark.len())[at] == s[found + at]);
    }
}

proof fn lemma_after_last(path: Seq<char>, name: Seq<char>)
    requires
        lacks(name, ':'),
    ensures
        text::after_last(path + "::"@ + name, "::"@) == name,
{
    reveal_strlit("::");
    let s = path + "::"@ + name;
    let mark = "::"@;
    text::lemma_rfind(s, mark, s.len() - mark.len());
    let at = path.len() as int;
    assert(s.subrange(at, at + 2) =~= mark);
    assert(text::occurs_at(s, mark, at));
    if let Some(found) = text::rfind(s, mark, s.len() - mark.len()) {
        if found > at {
            assert(s.subrange(found, found + 2)[1] == s[found + 1]);
            assert(s[found + 1] == name[found + 1 - at - 2]);
        }
        assert(s.skip(found + 2) =~= name);
    }
}

/// The short name of a type is the last component of its path, without generic
/// arguments.
pub proof fn law_a_short_name_is_the_last_component(
    path: Seq<char>,
    name: Seq<char>,
    arguments: Seq<char>,
)
    requires
        lacks(path, '<'),
        lacks(name, '<'),
        lacks(name, ':'),
    ensures
        state::short_name_of(path + "::"@ + name) == name,
        state::short_name_of(path + "::"@ + name + "<"@ + arguments) == name,
        state::short_name_of(name) == name,
        state::short_name_of(name + "<"@ + arguments) == name,
{
    reveal_strlit("<");
    reveal_strlit("::");
    let whole = path + "::"@ + name;
    assert(lacks(whole, '<')) by {
        assert forall|i: int| 0 <= i < whole.len() implies #[trigger] whole[i] != '<' by {
            if i < path.len() {
                assert(whole[i] == path[i]);
            } else if i >= path.len() + 2 {
                assert(whole[i] == name[i - path.len() - 2]);
            }
        }
    }
    lemma_no_mark(whole, "<"@, '<', 0);
    lemma_before(whole, "<"@, arguments, '<', 0);
    lemma_no_mark(name, "<"@, '<', 0);
    lemma_no_mark(name, "::"@, ':', 0);
    lemma_before(name, "<"@, arguments, '<', 0);
    lemma_after_last(path, name);
}

/// A coroutine is named after its function: the last component before the mark of
/// its type.
pub proof fn law_a_coroutine_is_named_after_its_function(
    path: Seq<char>,
    name: Seq<char>,
    rest: Seq<char>,
)
    requires
        lacks(path, '{'),
        lacks(name, '{'),
        lacks(name, ':'),
    ensures
        layout::fn_name_of(path + "::"@ + name + "::{async_fn_env"@ + rest) == name,
        layout::fn_name_of(name + "::{async_fn_env"@ + rest) == name,
        layout::fn_name_of(path + "::"@ + name) == name,
{
    reveal_strlit("::");
    reveal_strlit("::{async_fn_env");
    let mark = "::{async_fn_env"@;
    let whole = path + "::"@ + name;
    assert(lacks(whole, '{')) by {
        assert forall|i: int| 0 <= i < whole.len() implies #[trigger] whole[i] != '{' by {
            if i < path.len() {
                assert(whole[i] == path[i]);
            } else if i >= path.len() + 2 {
                assert(whole[i] == name[i - path.len() - 2]);
            }
        }
    }
    assert forall|i: int| 0 <= i < 2 implies #[trigger] mark[i] != '{' by {
        if i == 0 {
        } else {
            assert(i == 1);
        }
    }
    lemma_before(whole, mark, rest, '{', 2);
    lemma_before(name, mark, rest, '{', 2);
    lemma_no_mark(whole, mark, '{', 2);
    lemma_no_mark(name, "::"@, ':', 0);
    lemma_after_last(path, name);
}

} // verus!
