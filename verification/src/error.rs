//! Errors surfaced by decoders and process views.
//!
//! A decoder that cannot make sense of a process says so rather than guessing:
//! `NotApplicable` is that refusal.
use vstd::prelude::*;

use crate::model::TaskId;
use crate::process_view::ThreadId;
use crate::text::{self, laws};

verus! {

/// Failure modes for decoding logical concurrency structure out of a paused
/// process image.
#[derive(Debug)]
#[non_exhaustive]
pub enum DecoderError {
    /// This decoder does not understand the target process at all.
    NotApplicable {
        /// Why the decoder declined.
        reason: String,
    },
    /// A task that does not exist in the current task tree.
    UnknownTask(TaskId),
    /// A thread that the process view does not know about.
    UnknownThread(ThreadId),
    /// A memory read failed.
    MemoryReadFailed {
        /// The address the read was attempted at.
        addr: u64,
        /// The number of bytes requested.
        len: usize,
        /// The underlying failure.
        reason: String,
    },
    /// A list of nodes that does not form a valid tree.
    InvalidTaskTree {
        /// What made the tree invalid.
        reason: String,
    },
    /// A register read against an attached thread failed.
    RegisterReadFailed {
        /// The thread the register read targeted.
        thread: ThreadId,
        /// The underlying failure.
        reason: String,
    },
    /// Unwinding the physical call stack of an attached thread failed.
    PhysicalFramesFailed {
        /// The thread the unwind targeted.
        thread: ThreadId,
        /// The underlying failure.
        reason: String,
    },
}

/// The value of a `DecoderError`.
#[verifier::ext_equal]
pub enum DecoderErrorSpec {
    NotApplicable { reason: Seq<char> },
    UnknownTask(TaskId),
    UnknownThread(ThreadId),
    MemoryReadFailed { addr: u64, len: usize, reason: Seq<char> },
    InvalidTaskTree { reason: Seq<char> },
    RegisterReadFailed { thread: ThreadId, reason: Seq<char> },
    PhysicalFramesFailed { thread: ThreadId, reason: Seq<char> },
}

impl DeepView for DecoderError {
    type V = DecoderErrorSpec;

    open spec fn deep_view(&self) -> DecoderErrorSpec {
        match self {
            DecoderError::NotApplicable { reason } => DecoderErrorSpec::NotApplicable {
                reason: reason@,
            },
            DecoderError::UnknownTask(task) => DecoderErrorSpec::UnknownTask(*task),
            DecoderError::UnknownThread(thread) => DecoderErrorSpec::UnknownThread(*thread),
            DecoderError::MemoryReadFailed { addr, len, reason } => {
                DecoderErrorSpec::MemoryReadFailed { addr: *addr, len: *len, reason: reason@ }
            },
            DecoderError::InvalidTaskTree { reason } => DecoderErrorSpec::InvalidTaskTree {
                reason: reason@,
            },
            DecoderError::RegisterReadFailed { thread, reason } => {
                DecoderErrorSpec::RegisterReadFailed { thread: *thread, reason: reason@ }
            },
            DecoderError::PhysicalFramesFailed { thread, reason } => {
                DecoderErrorSpec::PhysicalFramesFailed { thread: *thread, reason: reason@ }
            },
        }
    }
}

/// The value of a result.
pub open spec fn outcome<T: DeepView, E: DeepView>(r: Result<T, E>) -> Result<T::V, E::V> {
    match r {
        Ok(t) => Ok(t.deep_view()),
        Err(e) => Err(e.deep_view()),
    }
}

impl DecoderErrorSpec {
    /// The message that describes the error.
    pub open spec fn message(self) -> Seq<char> {
        match self {
            DecoderErrorSpec::NotApplicable { reason } => {
                "decoder does not apply to this process: "@ + reason
            },
            DecoderErrorSpec::UnknownTask(task) => {
                "unknown task TaskId("@ + text::decimal(task.0 as nat) + ")"@
            },
            DecoderErrorSpec::UnknownThread(thread) => {
                "unknown thread ThreadId("@ + text::decimal(thread.0 as nat) + ")"@
            },
            DecoderErrorSpec::MemoryReadFailed { addr, len, reason } => {
                "failed to read "@ + text::decimal(len as nat) + " byte(s) at address 0x"@
                    + text::hex(addr as nat) + ": "@ + reason
            },
            DecoderErrorSpec::InvalidTaskTree { reason } => "invalid task tree: "@ + reason,
            DecoderErrorSpec::RegisterReadFailed { thread, reason } => {
                "failed to read registers for thread ThreadId("@ + text::decimal(thread.0 as nat)
                    + "): "@ + reason
            },
            DecoderErrorSpec::PhysicalFramesFailed { thread, reason } => {
                "failed to unwind physical frames for thread ThreadId("@ + text::decimal(
                    thread.0 as nat,
                ) + "): "@ + reason
            },
        }
    }
}

impl DecoderError {
    /// The message that describes the error.
    #[must_use]
    pub fn message(&self) -> (r: String)
        ensures
            r@ == self.deep_view().message(),
    {
        match self {
            DecoderError::NotApplicable { reason } => {
                let mut s = "decoder does not apply to this process: ".to_owned();
                s.append(reason.as_str());
                s
            },
            DecoderError::UnknownTask(task) => {
                let mut s = "unknown task TaskId(".to_owned();
                text::push_decimal(&mut s, task.0);
                s.append(")");
                s
            },
            DecoderError::UnknownThread(thread) => {
                let mut s = "unknown thread ThreadId(".to_owned();
                text::push_decimal(&mut s, thread.0);
                s.append(")");
                s
            },
            DecoderError::MemoryReadFailed { addr, len, reason } => {
                let mut s = "failed to read ".to_owned();
                text::push_decimal(&mut s, *len as u64);
                s.append(" byte(s) at address 0x");
                text::push_hex(&mut s, *addr);
                s.append(": ");
                s.append(reason.as_str());
                s
            },
            DecoderError::InvalidTaskTree { reason } => {
                let mut s = "invalid task tree: ".to_owned();
                s.append(reason.as_str());
                s
            },
            DecoderError::RegisterReadFailed { thread, reason } => {
                let mut s = "failed to read registers for thread ThreadId(".to_owned();
                text::push_decimal(&mut s, thread.0);
                s.append("): ");
                s.append(reason.as_str());
                s
            },
            DecoderError::PhysicalFramesFailed { thread, reason } => {
                let mut s = "failed to unwind physical frames for thread ThreadId(".to_owned();
                text::push_decimal(&mut s, thread.0);
                s.append("): ");
                s.append(reason.as_str());
                s
            },
        }
    }
}

/// A message ends with the reason that the error gives, and names the task, the
/// thread or the bytes that it is about.
pub proof fn law_a_message_tells_what_failed(e: DecoderErrorSpec)
    ensures
        match e {
            DecoderErrorSpec::NotApplicable { reason } => text::contains(e.message(), reason),
            DecoderErrorSpec::InvalidTaskTree { reason } => text::contains(e.message(), reason),
            DecoderErrorSpec::UnknownTask(task) => text::contains(
                e.message(),
                text::decimal(task.0 as nat),
            ),
            DecoderErrorSpec::UnknownThread(thread) => text::contains(
                e.message(),
                text::decimal(thread.0 as nat),
            ),
            DecoderErrorSpec::MemoryReadFailed { addr, len, reason } => text::contains(
                e.message(),
                reason,
            ) && text::contains(e.message(), text::hex(addr as nat)) && text::contains(
                e.message(),
                text::decimal(len as nat),
            ),
            DecoderErrorSpec::RegisterReadFailed { thread, reason } => text::contains(
                e.message(),
                reason,
            ) && text::contains(e.message(), text::decimal(thread.0 as nat)),
            DecoderErrorSpec::PhysicalFramesFailed { thread, reason } => text::contains(
                e.message(),
                reason,
            ) && text::contains(e.message(), text::decimal(thread.0 as nat)),
        },
{
    match e {
        DecoderErrorSpec::NotApplicable { reason } => {
            laws::law_a_text_stands_in_what_holds_it(
                "decoder does not apply to this process: "@,
                reason,
                Seq::empty(),
            );
        },
        DecoderErrorSpec::InvalidTaskTree { reason } => {
            laws::law_a_text_stands_in_what_holds_it("invalid task tree: "@, reason, Seq::empty());
        },
        DecoderErrorSpec::UnknownTask(task) => {
            laws::law_a_text_stands_in_what_holds_it(
                "unknown task TaskId("@,
                text::decimal(task.0 as nat),
                ")"@,
            );
        },
        DecoderErrorSpec::UnknownThread(thread) => {
            laws::law_a_text_stands_in_what_holds_it(
                "unknown thread ThreadId("@,
                text::decimal(thread.0 as nat),
                ")"@,
            );
        },
        DecoderErrorSpec::MemoryReadFailed { addr, len, reason } => {
            let a = "failed to read "@;
            let n = text::decimal(len as nat);
            let b = " byte(s) at address 0x"@;
            let x = text::hex(addr as nat);
            let c = ": "@;
            assert(e.message() =~= a + n + (b + x + c + reason));
            laws::law_a_text_stands_in_what_holds_it(a, n, b + x + c + reason);
            assert(e.message() =~= (a + n + b) + x + (c + reason));
            laws::law_a_text_stands_in_what_holds_it(a + n + b, x, c + reason);
            laws::law_a_text_stands_in_what_holds_it(a + n + b + x + c, reason, Seq::empty());
        },
        DecoderErrorSpec::RegisterReadFailed { thread, reason } => {
            let a = "failed to read registers for thread ThreadId("@;
            let n = text::decimal(thread.0 as nat);
            assert(e.message() =~= a + n + ("): "@ + reason));
            laws::law_a_text_stands_in_what_holds_it(a, n, "): "@ + reason);
            laws::law_a_text_stands_in_what_holds_it(a + n + "): "@, reason, Seq::empty());
        },
        DecoderErrorSpec::PhysicalFramesFailed { thread, reason } => {
            let a = "failed to unwind physical frames for thread ThreadId("@;
            let n = text::decimal(thread.0 as nat);
            assert(e.message() =~= a + n + ("): "@ + reason));
            laws::law_a_text_stands_in_what_holds_it(a, n, "): "@ + reason);
            laws::law_a_text_stands_in_what_holds_it(a + n + "): "@, reason, Seq::empty());
        },
    }
}

} // verus!
