//! The abstract, read-only view of a paused target that a decoder works over.
use vstd::prelude::*;

use crate::bytes;
use crate::error::{DecoderError, DecoderErrorSpec};
use crate::model::{SourceLocation, SourceLocationSpec};
use crate::text::clone_optional;

verus! {

/// Identifier for one OS thread.
///
/// Distinct from a task identifier: a thread is a resource that the OS
/// schedules, a task is what a decoder reconstructs.
#[derive(Debug, Clone, Copy, PartialEq, Eq, PartialOrd, Ord, Hash, Structural)]
pub struct ThreadId(pub u64);

impl ThreadId {
    /// Build a `ThreadId` from a raw number.
    #[must_use]
    pub fn new(raw: u64) -> (r: Self)
        ensures
            r == ThreadId(raw),
    {
        Self(raw)
    }
}

/// Minimal register snapshot for one thread: what an unwinder starts from.
#[derive(Debug, Clone, Copy, PartialEq, Eq, Structural)]
pub struct Registers {
    /// Program counter.
    pub pc: u64,
    /// Stack pointer.
    pub sp: u64,
}

/// One already-unwound physical stack frame.
#[derive(Debug, PartialEq, Eq)]
pub struct PhysicalFrame {
    /// Program counter this frame was executing at.
    pub pc: u64,
    /// Stack pointer at this frame.
    pub sp: u64,
    /// Resolved function name, when debug info covers this address.
    pub function_name: Option<String>,
    /// Resolved source location, when debug info covers this address.
    pub location: Option<SourceLocation>,
}

/// The value of a `PhysicalFrame`.
#[verifier::ext_equal]
pub struct PhysicalFrameSpec {
    pub pc: u64,
    pub sp: u64,
    pub function_name: Option<Seq<char>>,
    pub location: Option<SourceLocationSpec>,
}

impl DeepView for PhysicalFrame {
    type V = PhysicalFrameSpec;

    open spec fn deep_view(&self) -> PhysicalFrameSpec {
        PhysicalFrameSpec {
            pc: self.pc,
            sp: self.sp,
            function_name: self.function_name.deep_view(),
            location: self.location.deep_view(),
        }
    }
}

impl Clone for PhysicalFrame {
    fn clone(&self) -> (r: Self)
        ensures
            r == *self,
    {
        PhysicalFrame {
            pc: self.pc,
            sp: self.sp,
            function_name: clone_optional(&self.function_name),
            location: match &self.location {
                Some(l) => Some(l.clone()),
                None => None,
            },
        }
    }
}

/// A read-only view of a paused target process, abstract over how it was
/// obtained.
///
/// The target stays paused for as long as the view is read, so a view has one
/// answer to each question. The spec functions name the answers; the methods
/// give them. Nothing is promised of what an answer is: a view may fail any
/// question.
pub trait ProcessView {
    /// All thread ids live in the target.
    open spec fn threads(&self) -> Seq<ThreadId> {
        arbitrary()
    }

    /// The answer to `registers`.
    open spec fn register_reply(&self, thread: ThreadId) -> Result<Registers, DecoderErrorSpec> {
        arbitrary()
    }

    /// The answer to `read_memory`.
    open spec fn memory(&self, addr: u64, len: usize) -> Result<Seq<u8>, DecoderErrorSpec> {
        arbitrary()
    }

    /// The answer to `physical_frames`.
    open spec fn frames(&self, thread: ThreadId) -> Result<Seq<PhysicalFrameSpec>, DecoderErrorSpec> {
        arbitrary()
    }

    /// All thread ids currently live in the target.
    fn thread_ids(&self) -> (r: Vec<ThreadId>)
        ensures
            r@ == self.threads(),
    ;

    /// The register snapshot for `thread`.
    fn registers(&self, thread: ThreadId) -> (r: Result<Registers, DecoderError>)
        ensures
            match r {
                Ok(regs) => self.register_reply(thread) == Ok::<Registers, DecoderErrorSpec>(regs),
                Err(e) => self.register_reply(thread) == Err::<Registers, DecoderErrorSpec>(
                    e.deep_view(),
                ),
            },
    ;

    /// Read `len` bytes of the target's memory at `addr`.
    fn read_memory(&self, addr: u64, len: usize) -> (r: Result<Vec<u8>, DecoderError>)
        ensures
            match r {
                Ok(bytes) => self.memory(addr, len) == Ok::<Seq<u8>, DecoderErrorSpec>(bytes@),
                Err(e) => self.memory(addr, len) == Err::<Seq<u8>, DecoderErrorSpec>(
                    e.deep_view(),
                ),
            },
    ;

    /// The already-unwound physical call stack for `thread`, innermost frame
    /// first.
    fn physical_frames(&self, thread: ThreadId) -> (r: Result<Vec<PhysicalFrame>, DecoderError>)
        ensures
            match r {
                Ok(frames) => self.frames(thread) == Ok::<
                    Seq<PhysicalFrameSpec>,
                    DecoderErrorSpec,
                >(frames.deep_view()),
                Err(e) => self.frames(thread) == Err::<Seq<PhysicalFrameSpec>, DecoderErrorSpec>(
                    e.deep_view(),
                ),
            },
    ;
}

/// A view shows a number of `len` bytes at an address, the lowest byte first.
pub open spec fn shows<V: ProcessView + ?Sized>(view: &V, addr: u64, len: usize, n: int) -> bool {
    view.memory(addr, len) matches Ok(data) && data.len() == len && bytes::spells(data, n)
}

/// A view shows no more than one number in a place.
pub proof fn law_one_number_is_shown<V: ProcessView + ?Sized>(
    view: &V,
    addr: u64,
    len: usize,
    a: int,
    b: int,
)
    requires
        shows(view, addr, len, a),
        shows(view, addr, len, b),
    ensures
        a == b,
{
    let data = view.memory(addr, len)->Ok_0;
    bytes::law_bytes_read_as_what_they_spell(data, a);
    bytes::law_bytes_read_as_what_they_spell(data, b);
}

/// A process view that can also say where thread-local storage and the main
/// executable lie.
pub trait LiveProcessView: ProcessView {
    /// The answer to `thread_pointer`.
    open spec fn thread_pointer_reply(&self, thread: ThreadId) -> Result<Option<u64>, DecoderErrorSpec> {
        arbitrary()
    }

    /// The answer to `executable_base`.
    open spec fn load_base(&self) -> Option<u64> {
        arbitrary()
    }

    /// The thread pointer register of `thread`; `None` where the view has no
    /// way to read it.
    fn thread_pointer(&self, thread: ThreadId) -> (r: Result<Option<u64>, DecoderError>)
        ensures
            match r {
                Ok(tp) => self.thread_pointer_reply(thread) == Ok::<Option<u64>, DecoderErrorSpec>(
                    tp,
                ),
                Err(e) => self.thread_pointer_reply(thread) == Err::<
                    Option<u64>,
                    DecoderErrorSpec,
                >(e.deep_view()),
            },
    ;

    /// The address that the main executable is loaded at, if known.
    fn executable_base(&self) -> (r: Option<u64>)
        ensures
            r == self.load_base(),
    ;
}

/// A process view that has no way to say where thread-local storage and the main
/// executable lie.
pub struct Unplaced<'a, V: ProcessView + ?Sized> {
    /// What it shows.
    pub view: &'a V,
}

impl<'a, V: ProcessView + ?Sized> ProcessView for Unplaced<'a, V> {
    open spec fn threads(&self) -> Seq<ThreadId> {
        self.view.threads()
    }

    open spec fn register_reply(&self, thread: ThreadId) -> Result<Registers, DecoderErrorSpec> {
        self.view.register_reply(thread)
    }

    open spec fn memory(&self, addr: u64, len: usize) -> Result<Seq<u8>, DecoderErrorSpec> {
        self.view.memory(addr, len)
    }

    open spec fn frames(&self, thread: ThreadId) -> Result<Seq<PhysicalFrameSpec>, DecoderErrorSpec> {
        self.view.frames(thread)
    }

    fn thread_ids(&self) -> Vec<ThreadId> {
        self.view.thread_ids()
    }

    fn registers(&self, thread: ThreadId) -> Result<Registers, DecoderError> {
        self.view.registers(thread)
    }

    fn read_memory(&self, addr: u64, len: usize) -> Result<Vec<u8>, DecoderError> {
        self.view.read_memory(addr, len)
    }

    fn physical_frames(&self, thread: ThreadId) -> Result<Vec<PhysicalFrame>, DecoderError> {
        self.view.physical_frames(thread)
    }
}

impl<'a, V: ProcessView + ?Sized> LiveProcessView for Unplaced<'a, V> {
    open spec fn thread_pointer_reply(&self, thread: ThreadId) -> Result<Option<u64>, DecoderErrorSpec> {
        Ok(None)
    }

    open spec fn load_base(&self) -> Option<u64> {
        None
    }

    fn thread_pointer(&self, _thread: ThreadId) -> Result<Option<u64>, DecoderError> {
        Ok(None)
    }

    fn executable_base(&self) -> Option<u64> {
        None
    }
}

} // verus!
