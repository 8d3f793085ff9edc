//! One frame of a task's logical stack, as opposed to the physical call stack
//! that an unwinder produces.
use vstd::prelude::*;

use crate::process_view::{PhysicalFrame, PhysicalFrameSpec};
use crate::text;

verus! {

/// A source location.
#[derive(Debug, PartialEq, Eq)]
pub struct SourceLocation {
    /// Path to the source file, as recorded in debug info.
    pub path: String,
    /// One-based line number.
    pub line: u32,
    /// One-based column number.
    pub column: u32,
}

/// The value of a `SourceLocation`.
#[verifier::ext_equal]
pub struct SourceLocationSpec {
    pub path: Seq<char>,
    pub line: u32,
    pub column: u32,
}

impl DeepView for SourceLocation {
    type V = SourceLocationSpec;

    open spec fn deep_view(&self) -> SourceLocationSpec {
        SourceLocationSpec { path: self.path@, line: self.line, column: self.column }
    }
}

impl Clone for SourceLocation {
    fn clone(&self) -> (r: Self)
        ensures
            r == *self,
    {
        SourceLocation { path: self.path.clone(), line: self.line, column: self.column }
    }
}

/// What kind of thing a task is suspended waiting for.
#[derive(Debug, Clone, Copy, PartialEq, Eq, Structural)]
#[non_exhaustive]
pub enum SuspendKind {
    /// Awaiting a channel receive.
    ChannelRecv,
    /// Awaiting a channel send.
    ChannelSend,
    /// Awaiting a timer or sleep.
    Timer,
    /// Awaiting I/O readiness.
    Io,
    /// Awaiting another task.
    Join,
    /// Awaiting the first ready branch of a select.
    Select,
    /// Awaiting a lock.
    Lock,
    /// A suspend point that cannot be classified further.
    Other,
}

/// Structured detail for one suspend point.
#[derive(Debug, PartialEq, Eq)]
pub struct SuspendPoint {
    /// The category of thing being awaited.
    pub kind: SuspendKind,
    /// Specifics (a channel name, a file descriptor).
    pub detail: Option<String>,
}

/// The value of a `SuspendPoint`.
#[verifier::ext_equal]
pub struct SuspendPointSpec {
    pub kind: SuspendKind,
    pub detail: Option<Seq<char>>,
}

impl DeepView for SuspendPoint {
    type V = SuspendPointSpec;

    open spec fn deep_view(&self) -> SuspendPointSpec {
        SuspendPointSpec { kind: self.kind, detail: self.detail.deep_view() }
    }
}

impl Clone for SuspendPoint {
    fn clone(&self) -> (r: Self)
        ensures
            r == *self,
    {
        SuspendPoint { kind: self.kind, detail: text::clone_optional(&self.detail) }
    }
}

/// Whether a logical frame came off the physical call stack or was synthesized
/// by a decoder.
#[derive(Debug, Clone, Copy, PartialEq, Eq, Structural)]
pub enum FrameOrigin {
    /// Copied from an unwound physical frame.
    Physical,
    /// Synthesized from runtime or compiler metadata.
    Synthesized,
}

/// One frame of a task's logical stack.
#[derive(Debug, PartialEq, Eq)]
pub struct LogicalFrame {
    /// Frame label (function name, task label).
    pub display_name: String,
    /// Source location, when known.
    pub location: Option<SourceLocation>,
    /// The suspend point this frame represents, if any.
    pub suspend: Option<SuspendPoint>,
    /// Whether this frame is a physical-stack copy or synthesized.
    pub origin: FrameOrigin,
}

/// The value of a `LogicalFrame`.
#[verifier::ext_equal]
pub struct LogicalFrameSpec {
    pub display_name: Seq<char>,
    pub location: Option<SourceLocationSpec>,
    pub suspend: Option<SuspendPointSpec>,
    pub origin: FrameOrigin,
}

impl DeepView for LogicalFrame {
    type V = LogicalFrameSpec;

    open spec fn deep_view(&self) -> LogicalFrameSpec {
        LogicalFrameSpec {
            display_name: self.display_name@,
            location: self.location.deep_view(),
            suspend: self.suspend.deep_view(),
            origin: self.origin,
        }
    }
}

/// A copy of an optional location.
pub fn clone_location(location: &Option<SourceLocation>) -> (r: Option<SourceLocation>)
    ensures
        r == *location,
{
    match location {
        Some(l) => Some(l.clone()),
        None => None,
    }
}

impl Clone for LogicalFrame {
    fn clone(&self) -> (r: Self)
        ensures
            r == *self,
    {
        LogicalFrame {
            display_name: self.display_name.clone(),
            location: clone_location(&self.location),
            suspend: match &self.suspend {
                Some(s) => Some(s.clone()),
                None => None,
            },
            origin: self.origin,
        }
    }
}

impl LogicalFrameSpec {
    /// The frame that copies a physical frame: its function's name or, without
    /// one, its program counter in hexadecimal.
    pub open spec fn of_physical(frame: PhysicalFrameSpec) -> LogicalFrameSpec {
        LogicalFrameSpec {
            display_name: match frame.function_name {
                Some(name) => name,
                None => "0x"@ + text::hex(frame.pc as nat),
            },
            location: frame.location,
            suspend: None,
            origin: FrameOrigin::Physical,
        }
    }
}

/// The logical stack that copies a physical stack.
pub open spec fn physical_stack(frames: Seq<PhysicalFrameSpec>) -> Seq<LogicalFrameSpec> {
    frames.map_values(|frame: PhysicalFrameSpec| LogicalFrameSpec::of_physical(frame))
}

/// A logical stack shows a physical one: as many frames, and in each place the
/// function and location of the frame in the same place. A frame without a
/// function is named by its program counter, in hexadecimal.
pub open spec fn shows_stack(stack: Seq<LogicalFrameSpec>, frames: Seq<PhysicalFrameSpec>) -> bool {
    &&& stack.len() == frames.len()
    &&& forall|i: int|
        0 <= i < frames.len() ==> {
            &&& (#[trigger] frames[i]).function_name matches Some(name) ==> stack[i].display_name
                == name
            &&& frames[i].function_name is None ==> {
                &&& stack[i].display_name.len() > 2
                &&& stack[i].display_name.take(2) == "0x"@
                &&& text::digits_value(stack[i].display_name.skip(2), 16) == frames[i].pc
            }
            &&& stack[i].location == frames[i].location
            &&& stack[i].suspend is None
            &&& stack[i].origin == FrameOrigin::Physical
        }
}

/// A physical stack is shown frame by frame: the innermost stays first.
pub proof fn law_a_physical_stack_is_shown_frame_by_frame(frames: Seq<PhysicalFrameSpec>)
    ensures
        shows_stack(physical_stack(frames), frames),
{
    reveal_strlit("0x");
    let stack = physical_stack(frames);
    assert forall|i: int| 0 <= i < frames.len() && (
    #[trigger] frames[i]).function_name is None implies {
        &&& stack[i].display_name.len() > 2
        &&& stack[i].display_name.take(2) == "0x"@
        &&& text::digits_value(stack[i].display_name.skip(2), 16) == frames[i].pc
    } by {
        let digits = text::hex(frames[i].pc as nat);
        text::lemma_hex(frames[i].pc as nat);
        assert(stack[i].display_name == "0x"@ + digits);
        assert(("0x"@ + digits).take(2) =~= "0x"@);
        assert(("0x"@ + digits).skip(2) =~= digits);
    }
}

/// Copy a physical stack into a logical one, frame by frame.
pub fn copy_stack(frames: &Vec<PhysicalFrame>) -> (r: Vec<LogicalFrame>)
    ensures
        r.deep_view() == physical_stack(frames.deep_view()),
        shows_stack(r.deep_view(), frames.deep_view()),
{
    let mut out: Vec<LogicalFrame> = Vec::new();
    let mut i: usize = 0;
    while i < frames.len()
        invariant
            i <= frames.len(),
            out.len() == i,
            forall|j: int|
                0 <= j < i ==> (#[trigger] out@[j]).deep_view() == LogicalFrameSpec::of_physical(
                    frames@[j].deep_view(),
                ),
        decreases frames.len() - i,
    {
        out.push(LogicalFrame::from_physical(&frames[i]));
        i += 1;
    }
    assert(out.deep_view() =~= physical_stack(frames.deep_view()));
    proof {
        law_a_physical_stack_is_shown_frame_by_frame(frames.deep_view());
    }
    out
}

/// The words for a kind of suspend point.
pub open spec fn suspend_words(kind: SuspendKind) -> Seq<char> {
    match kind {
        SuspendKind::ChannelRecv => "recv on channel"@,
        SuspendKind::ChannelSend => "send on channel"@,
        SuspendKind::Timer => "timer"@,
        SuspendKind::Io => "I/O"@,
        SuspendKind::Join => "join"@,
        SuspendKind::Select => "select"@,
        SuspendKind::Lock => "lock"@,
        SuspendKind::Other => "unknown suspend point"@,
    }
}

impl SuspendPointSpec {
    /// The suspend point in prose.
    pub open spec fn prose(self) -> Seq<char> {
        match self.detail {
            Some(detail) => "awaiting: "@ + suspend_words(self.kind) + " "@ + detail,
            None => "awaiting: "@ + suspend_words(self.kind),
        }
    }
}

impl LogicalFrame {
    /// The logical frame that is an unannotated copy of a physical frame.
    #[must_use]
    pub fn from_physical(frame: &PhysicalFrame) -> (r: Self)
        ensures
            r.deep_view() == LogicalFrameSpec::of_physical(frame.deep_view()),
    {
        let display_name = match &frame.function_name {
            Some(name) => name.clone(),
            None => {
                let mut s = "0x".to_owned();
                text::push_hex(&mut s, frame.pc);
                s
            },
        };
        Self {
            display_name,
            location: clone_location(&frame.location),
            suspend: None,
            origin: FrameOrigin::Physical,
        }
    }

    /// This frame's suspend point as prose, such as `"awaiting: recv on
    /// channel #4"`; `None` if the frame has no suspend point.
    #[must_use]
    pub fn describe_suspend(&self) -> (r: Option<String>)
        ensures
            r.deep_view() == (match self.deep_view().suspend {
                Some(suspend) => Some(suspend.prose()),
                None => None,
            }),
    {
        match &self.suspend {
            None => None,
            Some(suspend) => {
                let kind = match suspend.kind {
                    SuspendKind::ChannelRecv => "recv on channel",
                    SuspendKind::ChannelSend => "send on channel",
                    SuspendKind::Timer => "timer",
                    SuspendKind::Io => "I/O",
                    SuspendKind::Join => "join",
                    SuspendKind::Select => "select",
                    SuspendKind::Lock => "lock",
                    SuspendKind::Other => "unknown suspend point",
                };
                let mut s = "awaiting: ".to_owned();
                s.append(kind);
                if let Some(detail) = &suspend.detail {
                    s.append(" ");
                    s.append(detail.as_str());
                }
                Some(s)
            },
        }
    }
}

} // verus!
