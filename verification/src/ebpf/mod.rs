//! Syscall capture in the kernel: the wire format of its records, what the
//! kernel side decides, and how the user side turns records into trace events.
pub mod capture;
pub mod event;
pub mod program;

pub use event::{RawSyscallEvent, KIND_ENTER, KIND_EXIT, RAW_EVENT_LEN};
