//! Turning a coroutine instance in target memory into an async backtrace and a
//! lifecycle state, by reading its `__state` discriminant and following the
//! chain of awaited futures.
//!
//! Addresses wrap around at 64 bits.
use vstd::prelude::*;

use super::layout::{self, AsyncFnLayout, AsyncFnLayoutSpec, AsyncLayouts, ChildRef};
use super::layout::{ChildRefSpec, VariantInfo, VariantInfoSpec};
use super::state::{self, LeafClass};
use crate::bytes;
use crate::error::{self, DecoderError, DecoderErrorSpec};
use crate::model::frame;
use crate::model::{BlockReason, BlockReasonSpec, FrameOrigin, LogicalFrame, LogicalFrameSpec};
use crate::model::{SuspendKind, SuspendPoint, SuspendPointSpec, TaskState, TaskStateSpec};
use crate::model::{WakeCause, WakeCauseSpec};
use crate::process_view::ProcessView;
use crate::text;

verus! {

/// Cap on the length of a chain of awaited futures, against a cyclic one.
pub const MAX_AWAIT_DEPTH: usize = 64;

/// Every layout of a binary, by type name.
pub type LayoutMap = Map<Seq<char>, AsyncFnLayoutSpec>;

// ---------------------------------------------------------------------------
// What the memory says
// ---------------------------------------------------------------------------

/// The first bytes of `data`, eight at most, as a little-endian integer.
pub open spec fn leading_word(data: Seq<u8>, width: nat) -> nat {
    bytes::le(
        data.take(
            if data.len() < width {
                data.len() as int
            } else {
                width as int
            },
        ),
    )
}

/// The discriminant of the coroutine at `base`.
pub open spec fn discriminant<V: ProcessView + ?Sized>(
    view: &V,
    base: u64,
    layout: AsyncFnLayoutSpec,
) -> Result<u64, DecoderErrorSpec> {
    match view.memory(base.wrapping_add(layout.discr_offset), layout.discr_size as usize) {
        Ok(data) => Ok(leading_word(data, 8) as u64),
        Err(e) => Err(e),
    }
}

/// The active variant of the coroutine at `base`, with its discriminant.
pub open spec fn active<V: ProcessView + ?Sized>(
    view: &V,
    base: u64,
    layout: AsyncFnLayoutSpec,
) -> Result<(u64, VariantInfoSpec), DecoderErrorSpec> {
    match discriminant(view, base, layout) {
        Ok(discr) => if layout.variants.contains_key(discr) {
            Ok((discr, layout.variants[discr]))
        } else {
            Err(
                DecoderErrorSpec::NotApplicable {
                    reason: "coroutine "@ + layout.type_path + " has discriminant "@
                        + text::decimal(discr as nat) + " matching no variant"@,
                },
            )
        },
        Err(e) => Err(e),
    }
}

/// The innermost awaited future that is no coroutine, looking through at most
/// `left` coroutines. `None` where a coroutine on the way is not suspended or
/// awaits nothing.
pub open spec fn leaf<V: ProcessView + ?Sized>(
    view: &V,
    base: u64,
    layout: AsyncFnLayoutSpec,
    layouts: LayoutMap,
    left: nat,
) -> Result<Option<Seq<char>>, DecoderErrorSpec>
    decreases left,
{
    if left == 0 {
        Ok(None)
    } else {
        match active(view, base, layout) {
            Err(e) => Err(e),
            Ok((_, variant)) => match variant.awaitee {
                Some(child) if variant.kind.suspended() => {
                    if layouts.contains_key(child.type_path) {
                        leaf(
                            view,
                            base.wrapping_add(child.offset),
                            layouts[child.type_path],
                            layouts,
                            (left - 1) as nat,
                        )
                    } else {
                        Ok(Some(child.type_path))
                    }
                },
                _ => Ok(None),
            },
        }
    }
}

/// The number of bytes in a machine word.
pub open spec fn word_bytes() -> usize {
    (usize::BITS / 8) as usize
}

/// The state that comes before the block reason is known: from the task header
/// where there is one, else from the active variant.
pub open spec fn raw_state<V: ProcessView + ?Sized>(
    view: &V,
    variant: VariantInfoSpec,
    header_addr: Option<u64>,
) -> Result<TaskStateSpec, DecoderErrorSpec> {
    match header_addr {
        Some(addr) => match view.memory(addr, word_bytes()) {
            Ok(data) => Ok(state::header_state(leading_word(data, word_bytes() as nat) as usize)),
            Err(e) => Err(e),
        },
        None => Ok(state::variant_state(variant.kind)),
    }
}

/// The lifecycle state of the coroutine at `base`; a blocked one is blocked on
/// what its leaf future waits for.
pub open spec fn coroutine_state<V: ProcessView + ?Sized>(
    view: &V,
    base: u64,
    layout: AsyncFnLayoutSpec,
    layouts: LayoutMap,
    header_addr: Option<u64>,
) -> Result<TaskStateSpec, DecoderErrorSpec> {
    match active(view, base, layout) {
        Err(e) => Err(e),
        Ok((_, variant)) => match raw_state(view, variant, header_addr) {
            Err(e) => Err(e),
            Ok(TaskStateSpec::Blocked { .. }) => match leaf(
                view,
                base,
                layout,
                layouts,
                MAX_AWAIT_DEPTH as nat,
            ) {
                Err(e) => Err(e),
                Ok(Some(type_path)) => Ok(
                    TaskStateSpec::Blocked { on: state::leaf_class(type_path).block },
                ),
                Ok(None) => Ok(TaskStateSpec::Blocked { on: BlockReasonSpec::Unknown }),
            },
            Ok(other) => Ok(other),
        },
    }
}

/// What will wake the coroutine at `base`: known from its leaf future.
pub open spec fn coroutine_wake<V: ProcessView + ?Sized>(
    view: &V,
    base: u64,
    layout: AsyncFnLayoutSpec,
    layouts: LayoutMap,
) -> Result<WakeCauseSpec, DecoderErrorSpec> {
    match leaf(view, base, layout, layouts, MAX_AWAIT_DEPTH as nat) {
        Err(e) => Err(e),
        Ok(Some(type_path)) => Ok(state::leaf_class(type_path).wake),
        Ok(None) => Ok(WakeCauseSpec::Unknown),
    }
}

/// The inline child coroutines of the active variant, with their addresses.
pub open spec fn branches<V: ProcessView + ?Sized>(
    view: &V,
    base: u64,
    layout: AsyncFnLayoutSpec,
) -> Result<Seq<(u64, Seq<char>)>, DecoderErrorSpec> {
    match active(view, base, layout) {
        Err(e) => Err(e),
        Ok((_, variant)) => Ok(
            variant.children.map_values(
                |c: ChildRefSpec| (base.wrapping_add(c.offset), c.type_path),
            ),
        ),
    }
}

/// The frame of one coroutine on the chain.
pub open spec fn frame_of(
    layout: AsyncFnLayoutSpec,
    variant: VariantInfoSpec,
    suspend: Option<SuspendPointSpec>,
) -> LogicalFrameSpec {
    LogicalFrameSpec {
        display_name: layout::fn_name_of(layout.type_path),
        location: variant.await_location,
        suspend,
        origin: FrameOrigin::Synthesized,
    }
}

/// The suspend point of waiting for a leaf future.
pub open spec fn leaf_suspend_of(child: ChildRefSpec) -> SuspendPointSpec {
    SuspendPointSpec {
        kind: state::leaf_class(child.type_path).suspend,
        detail: Some(state::short_name_of(child.type_path)),
    }
}

/// The frame of a leaf future.
pub open spec fn leaf_frame_of(child: ChildRefSpec) -> LogicalFrameSpec {
    LogicalFrameSpec {
        display_name: state::short_name_of(child.type_path),
        location: None,
        suspend: Some(leaf_suspend_of(child)),
        origin: FrameOrigin::Synthesized,
    }
}

/// A frame, followed by the frames below it.
pub open spec fn above(
    top: LogicalFrameSpec,
    rest: Result<Seq<LogicalFrameSpec>, DecoderErrorSpec>,
) -> Result<Seq<LogicalFrameSpec>, DecoderErrorSpec> {
    match rest {
        Ok(frames) => Ok(seq![top] + frames),
        Err(e) => Err(e),
    }
}

/// The async backtrace of the coroutine at `base`, through at most `left`
/// coroutines: one frame for each, ending with the leaf future's frame where
/// the innermost coroutine awaits one.
pub open spec fn backtrace<V: ProcessView + ?Sized>(
    view: &V,
    base: u64,
    type_path: Seq<char>,
    layouts: LayoutMap,
    left: nat,
) -> Result<Seq<LogicalFrameSpec>, DecoderErrorSpec>
    decreases left,
{
    if left == 0 {
        Ok(Seq::empty())
    } else if !layouts.contains_key(type_path) {
        Err(
            DecoderErrorSpec::NotApplicable {
                reason: "no layout for coroutine type "@ + type_path,
            },
        )
    } else {
        let layout = layouts[type_path];
        match active(view, base, layout) {
            Err(e) => Err(e),
            Ok((_, variant)) => match variant.awaitee {
                Some(child) if variant.kind.suspended() => {
                    if layouts.contains_key(child.type_path) {
                        above(
                            frame_of(
                                layout,
                                variant,
                                Some(
                                    SuspendPointSpec {
                                        kind: SuspendKind::Other,
                                        detail: Some(state::short_name_of(child.type_path)),
                                    },
                                ),
                            ),
                            backtrace(
                                view,
                                base.wrapping_add(child.offset),
                                child.type_path,
                                layouts,
                                (left - 1) as nat,
                            ),
                        )
                    } else {
                        Ok(
                            seq![
                                frame_of(layout, variant, Some(leaf_suspend_of(child))),
                                leaf_frame_of(child),
                            ],
                        )
                    }
                },
                _ => Ok(seq![frame_of(layout, variant, None)]),
            },
        }
    }
}

// ---------------------------------------------------------------------------
// Reading it
// ---------------------------------------------------------------------------

/// Read the leading bytes of `data`, `width` at most, as an integer.
fn read_leading(data: &Vec<u8>, width: usize) -> (r: u64)
    requires
        width <= 8,
    ensures
        r == leading_word(data@, width as nat),
{
    let n: usize = if data.len() < width {
        data.len()
    } else {
        width
    };
    let lead = vstd::slice::slice_subrange(data.as_slice(), 0, n);
    assert(lead@ =~= data@.take(n as int));
    bytes::read_le(lead)
}

/// Read the little-endian discriminant of the coroutine at `base`.
fn read_discriminant<V: ProcessView + ?Sized>(view: &V, base: u64, layout: &AsyncFnLayout) -> (r:
    Result<u64, DecoderError>)
    ensures
        error::outcome(r) == discriminant(view, base, layout.deep_view()),
{
    let addr: u64 = base.wrapping_add(layout.discr_offset);
    let data = view.read_memory(addr, layout.discr_size as usize)?;
    Ok(read_leading(&data, 8))
}

/// The active variant of the coroutine at `base`, selected by its discriminant.
/// A discriminant that matches no variant is declined.
pub fn active_variant<'a, V: ProcessView + ?Sized>(
    view: &V,
    base: u64,
    layout: &'a AsyncFnLayout,
) -> (r: Result<(u64, &'a VariantInfo), DecoderError>)
    ensures
        match r {
            Ok((discr, variant)) => active(view, base, layout.deep_view()) == Ok::<
                (u64, VariantInfoSpec),
                DecoderErrorSpec,
            >((discr, variant.deep_view())),
            Err(e) => active(view, base, layout.deep_view()) == Err::<
                (u64, VariantInfoSpec),
                DecoderErrorSpec,
            >(e.deep_view()),
        },
{
    let discr: u64 = read_discriminant(view, base, layout)?;
    match layout.variant_for(discr) {
        Some(variant) => Ok((discr, variant)),
        None => {
            let mut reason = "coroutine ".to_owned();
            reason.append(layout.type_path.as_str());
            reason.append(" has discriminant ");
            text::push_decimal(&mut reason, discr);
            reason.append(" matching no variant");
            Err(DecoderError::NotApplicable { reason })
        },
    }
}

/// Follow the chain of awaited futures to the innermost one that is no
/// coroutine: what the whole task is parked on. `None` if the task is not
/// suspended or awaits nothing recorded.
pub fn leaf_type<V: ProcessView + ?Sized>(
    view: &V,
    base: u64,
    layout: &AsyncFnLayout,
    layouts: &AsyncLayouts,
) -> (r: Result<Option<String>, DecoderError>)
    ensures
        error::outcome(r) == leaf(
            view,
            base,
            layout.deep_view(),
            layouts.deep_view(),
            MAX_AWAIT_DEPTH as nat,
        ),
{
    let ghost want = leaf(
        view,
        base,
        layout.deep_view(),
        layouts.deep_view(),
        MAX_AWAIT_DEPTH as nat,
    );
    let mut cur_base: u64 = base;
    let mut cur_layout: &AsyncFnLayout = layout;
    let mut left: usize = MAX_AWAIT_DEPTH;
    while left > 0
        invariant
            want == leaf(
                view,
                base,
                layout.deep_view(),
                layouts.deep_view(),
                MAX_AWAIT_DEPTH as nat,
            ),
            want == leaf(
                view,
                cur_base,
                cur_layout.deep_view(),
                layouts.deep_view(),
                left as nat,
            ),
        decreases left,
    {
        let (_, variant) = active_variant(view, cur_base, cur_layout)?;
        if !variant.kind.is_suspend() {
            return Ok(None);
        }
        match &variant.awaitee {
            None => {
                return Ok(None);
            },
            Some(child) => match layouts.get(child.type_path.as_str()) {
                Some(next) => {
                    cur_base = cur_base.wrapping_add(child.offset);
                    cur_layout = next;
                },
                None => {
                    return Ok(Some(child.type_path.clone()));
                },
            },
        }
        left -= 1;
    }
    Ok(None)
}

/// Read a native-width word from a little-endian byte slice (zero-extended if
/// short).
fn read_usize(data: &Vec<u8>) -> (r: usize)
    ensures
        r == leading_word(data@, word_bytes() as nat) as usize,
{
    read_leading(data, (usize::BITS / 8) as usize) as usize
}

/// The lifecycle state of the coroutine at `base`: from the task header where
/// its address is known, else from the coroutine's own variant. A blocked
/// task's reason is that of its leaf future.
pub fn task_state<V: ProcessView + ?Sized>(
    view: &V,
    base: u64,
    layout: &AsyncFnLayout,
    layouts: &AsyncLayouts,
    header_addr: Option<u64>,
) -> (r: Result<TaskState, DecoderError>)
    ensures
        error::outcome(r) == coroutine_state(
            view,
            base,
            layout.deep_view(),
            layouts.deep_view(),
            header_addr,
        ),
{
    let (_, variant) = active_variant(view, base, layout)?;
    let base_state = match header_addr {
        Some(addr) => {
            let data = view.read_memory(addr, (usize::BITS / 8) as usize)?;
            state::classify_header_state(read_usize(&data))
        },
        None => state::state_from_variant(variant.kind),
    };
    match base_state {
        TaskState::Blocked { .. } => {
            let on = match leaf_type(view, base, layout, layouts)? {
                Some(name) => state::classify_leaf(name.as_str()).block,
                None => BlockReason::Unknown,
            };
            Ok(TaskState::Blocked { on })
        },
        other => Ok(other),
    }
}

/// The best-effort wake cause of the coroutine at `base`: that of its leaf
/// future when suspended, else unknown.
pub fn wake_cause<V: ProcessView + ?Sized>(
    view: &V,
    base: u64,
    layout: &AsyncFnLayout,
    layouts: &AsyncLayouts,
) -> (r: Result<WakeCause, DecoderError>)
    ensures
        error::outcome(r) == coroutine_wake(view, base, layout.deep_view(), layouts.deep_view()),
{
    match leaf_type(view, base, layout, layouts)? {
        Some(name) => Ok(state::classify_leaf(name.as_str()).wake),
        None => Ok(WakeCause::Unknown),
    }
}

/// The branches (such as those of a `join!`) of the coroutine at `base`: the
/// inline child coroutines of its active variant, each with its absolute
/// address and type name.
pub fn fan_out_children<V: ProcessView + ?Sized>(view: &V, base: u64, layout: &AsyncFnLayout) -> (r:
    Result<Vec<(u64, String)>, DecoderError>)
    ensures
        error::outcome(r) == branches(view, base, layout.deep_view()),
{
    let (_, variant) = active_variant(view, base, layout)?;
    let mut out: Vec<(u64, String)> = Vec::new();
    let mut i: usize = 0;
    while i < variant.children.len()
        invariant
            i <= variant.children.len(),
            out.len() == i,
            forall|j: int|
                0 <= j < i ==> (#[trigger] out@[j]).deep_view() == (
                    base.wrapping_add(variant.children@[j].offset),
                    variant.children@[j].type_path@,
                ),
        decreases variant.children.len() - i,
    {
        let child = &variant.children[i];
        out.push((base.wrapping_add(child.offset), child.type_path.clone()));
        i += 1;
    }
    proof {
        let children = variant.deep_view().children;
        assert(out.deep_view() =~= children.map_values(
            |c: ChildRefSpec| (base.wrapping_add(c.offset), c.type_path),
        ));
    }
    Ok(out)
}

/// The async backtrace of the coroutine at `base`: one synthesized frame per
/// coroutine along the chain of awaited futures, outermost first, terminated by
/// a frame for the leaf future where the innermost coroutine awaits one.
pub fn logical_stack<V: ProcessView + ?Sized>(
    view: &V,
    base: u64,
    type_path: &str,
    layouts: &AsyncLayouts,
) -> (r: Result<Vec<LogicalFrame>, DecoderError>)
    ensures
        error::outcome(r) == backtrace(
            view,
            base,
            type_path@,
            layouts.deep_view(),
            MAX_AWAIT_DEPTH as nat,
        ),
{
    let ghost want = backtrace(
        view,
        base,
        type_path@,
        layouts.deep_view(),
        MAX_AWAIT_DEPTH as nat,
    );
    let mut frames: Vec<LogicalFrame> = Vec::new();
    let mut cur_base: u64 = base;
    let mut cur_type = type_path.to_owned();
    let mut left: usize = MAX_AWAIT_DEPTH;
    assert(behind(frames.deep_view(), want) == want) by {
        if let Ok(more) = want {
            assert(frames.deep_view() + more =~= more);
        }
    }
    while left > 0
        invariant
            want == backtrace(
                view,
                base,
                type_path@,
                layouts.deep_view(),
                MAX_AWAIT_DEPTH as nat,
            ),
            want == behind(
                frames.deep_view(),
                backtrace(view, cur_base, cur_type@, layouts.deep_view(), left as nat),
            ),
        decreases left,
    {
        let ghost before = frames.deep_view();
        let layout = match layouts.get(cur_type.as_str()) {
            Some(layout) => layout,
            None => {
                let mut reason = "no layout for coroutine type ".to_owned();
                reason.append(cur_type.as_str());
                return Err(DecoderError::NotApplicable { reason });
            },
        };
        let (_, variant) = active_variant(view, cur_base, layout)?;
        if !variant.kind.is_suspend() {
            let top = coroutine_frame(layout, variant, None);
            frames.push(top);
            assert(frames.deep_view() =~= before + seq![top.deep_view()]);
            return Ok(frames);
        }
        match &variant.awaitee {
            None => {
                let top = coroutine_frame(layout, variant, None);
                frames.push(top);
                assert(frames.deep_view() =~= before + seq![top.deep_view()]);
                return Ok(frames);
            },
            Some(child) => {
                if layouts.is_coroutine(child.type_path.as_str()) {
                    let suspend = SuspendPoint {
                        kind: SuspendKind::Other,
                        detail: Some(state::short_name(child.type_path.as_str())),
                    };
                    let top = coroutine_frame(layout, variant, Some(suspend));
                    frames.push(top);
                    cur_base = cur_base.wrapping_add(child.offset);
                    cur_type = child.type_path.clone();
                    proof {
                        assert(frames.deep_view() =~= before + seq![top.deep_view()]);
                        let rest = backtrace(
                            view,
                            cur_base,
                            cur_type@,
                            layouts.deep_view(),
                            (left - 1) as nat,
                        );
                        if let Ok(more) = rest {
                            assert(before + (seq![top.deep_view()] + more) =~= frames.deep_view()
                                + more);
                        }
                    }
                } else {
                    let leaf = state::classify_leaf(child.type_path.as_str());
                    let top = coroutine_frame(layout, variant, Some(leaf_suspend(&leaf, child)));
                    let last = leaf_frame(child, &leaf);
                    frames.push(top);
                    frames.push(last);
                    assert(frames.deep_view() =~= before + seq![top.deep_view(), last.deep_view()]);
                    return Ok(frames);
                }
            },
        }
        left -= 1;
    }
    assert(frames.deep_view() + Seq::<LogicalFrameSpec>::empty() =~= frames.deep_view());
    Ok(frames)
}

/// Frames found already, followed by what the rest of a chain gives.
spec fn behind(
    found: Seq<LogicalFrameSpec>,
    rest: Result<Seq<LogicalFrameSpec>, DecoderErrorSpec>,
) -> Result<Seq<LogicalFrameSpec>, DecoderErrorSpec> {
    match rest {
        Ok(more) => Ok(found + more),
        Err(e) => Err(e),
    }
}

/// A synthesized frame for one coroutine in the chain.
fn coroutine_frame(
    layout: &AsyncFnLayout,
    variant: &VariantInfo,
    suspend: Option<SuspendPoint>,
) -> (r: LogicalFrame)
    ensures
        r.deep_view() == frame_of(layout.deep_view(), variant.deep_view(), suspend.deep_view()),
{
    LogicalFrame {
        display_name: layout.short_name(),
        location: frame::clone_location(&variant.await_location),
        suspend,
        origin: FrameOrigin::Synthesized,
    }
}

/// A synthesized terminal frame naming the leaf future being awaited.
fn leaf_frame(child: &ChildRef, leaf: &LeafClass) -> (r: LogicalFrame)
    requires
        leaf.deep_view() == state::leaf_class(child.type_path@),
    ensures
        r.deep_view() == leaf_frame_of(child.deep_view()),
{
    LogicalFrame {
        display_name: state::short_name(child.type_path.as_str()),
        location: None,
        suspend: Some(leaf_suspend(leaf, child)),
        origin: FrameOrigin::Synthesized,
    }
}

fn leaf_suspend(leaf: &LeafClass, child: &ChildRef) -> (r: SuspendPoint)
    requires
        leaf.deep_view() == state::leaf_class(child.type_path@),
    ensures
        r.deep_view() == leaf_suspend_of(child.deep_view()),
{
    SuspendPoint {
        kind: leaf.suspend,
        detail: Some(state::short_name(child.type_path.as_str())),
    }
}

} // verus!
