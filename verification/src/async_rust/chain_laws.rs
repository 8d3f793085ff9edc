//! What a decoded coroutine shows, in terms of the target's memory and of the
//! layouts of its coroutines.
use vstd::prelude::*;

use super::decode::{self, LayoutMap};
use super::layout::{self, AsyncFnLayoutSpec, ChildRefSpec, VariantInfoSpec, VariantKind};
use super::state;
use crate::bytes;
use crate::error::DecoderErrorSpec;
use crate::model::{BlockReasonSpec, FrameOrigin, LogicalFrameSpec, SuspendKind};
use crate::model::{TaskStateSpec, WakeCauseSpec};
use crate::process_view::ProcessView;

verus! {

// ---------------------------------------------------------------------------
// The state that a coroutine is in
// ---------------------------------------------------------------------------

/// A coroutine at `base` is in the variant with number `discr`: the bytes of its
/// discriminant, the first eight of them at most, spell that number.
pub open spec fn is_in_variant<V: ProcessView + ?Sized>(
    view: &V,
    base: u64,
    layout: AsyncFnLayoutSpec,
    discr: u64,
    variant: VariantInfoSpec,
) -> bool {
    &&& view.memory(
        base.wrapping_add(layout.discr_offset),
        layout.discr_size as usize,
    ) matches Ok(data) && bytes::spells(
        data.take(
            if data.len() <= 8 {
                data.len() as int
            } else {
                8
            },
        ),
        discr as int,
    )
    &&& layout.variants.contains_key(discr)
    &&& variant == layout.variants[discr]
}

/// The active variant is read if and only if the discriminant names it.
pub proof fn law_the_discriminant_names_the_active_variant<V: ProcessView + ?Sized>(
    view: &V,
    base: u64,
    layout: AsyncFnLayoutSpec,
    discr: u64,
    variant: VariantInfoSpec,
)
    ensures
        decode::active(view, base, layout) == Ok::<(u64, VariantInfoSpec), DecoderErrorSpec>(
            (discr, variant),
        ) <==> is_in_variant(view, base, layout, discr, variant),
{
    if let Ok(data) = view.memory(
        base.wrapping_add(layout.discr_offset),
        layout.discr_size as usize,
    ) {
        let n: int = if data.len() < 8 {
            data.len() as int
        } else {
            8
        };
        let lead = data.take(n);
        bytes::law_bytes_read_as_what_they_spell(lead, discr as int);
        bytes::law_bytes_read_as_what_they_spell(lead, bytes::le(lead) as int);
        bytes::lemma_le_bound(lead);
        bytes::lemma_pow256_grows(lead.len(), 8);
        bytes::lemma_pow256_values();
    }
}

// ---------------------------------------------------------------------------
// Chains of awaited futures
// ---------------------------------------------------------------------------

/// One coroutine of a chain.
pub struct Link {
    pub base: u64,
    pub type_path: Seq<char>,
    pub discr: u64,
    pub variant: VariantInfoSpec,
}

/// A coroutine of a chain is where and what the link says.
pub open spec fn is_link<V: ProcessView + ?Sized>(view: &V, layouts: LayoutMap, link: Link) -> bool {
    &&& layouts.contains_key(link.type_path)
    &&& is_in_variant(view, link.base, layouts[link.type_path], link.discr, link.variant)
}

/// A coroutine is suspended on a future of this type, that many bytes into it.
pub open spec fn awaits(link: Link, child: ChildRefSpec) -> bool {
    link.variant.kind is Suspend && link.variant.awaitee == Some(child)
}

/// One link of a chain awaits the next.
pub open spec fn is_awaited_by(next: Link, link: Link) -> bool {
    exists|child: ChildRefSpec| #[trigger]
        awaits(link, child) && next.type_path == child.type_path && next.base
            == link.base.wrapping_add(child.offset)
}

/// Coroutines that await one another, the outermost first.
pub open spec fn is_chain<V: ProcessView + ?Sized>(
    view: &V,
    layouts: LayoutMap,
    links: Seq<Link>,
) -> bool {
    &&& forall|i: int| 0 <= i < links.len() ==> is_link(view, layouts, #[trigger] links[i])
    &&& forall|i: int|
        0 <= i < links.len() - 1 ==> is_awaited_by(links[i + 1], #[trigger] links[i])
}

/// A coroutine awaits a future that is no coroutine: the leaf of the chain.
pub open spec fn awaits_leaf(layouts: LayoutMap, link: Link, leaf: ChildRefSpec) -> bool {
    awaits(link, leaf) && !layouts.contains_key(leaf.type_path)
}

/// A coroutine awaits nothing that is known: it is not suspended, or its variant
/// names nothing.
pub open spec fn awaits_nothing(link: Link) -> bool {
    !(link.variant.kind is Suspend) || link.variant.awaitee is None
}

/// A frame is that of a coroutine: named after its function, at its await.
pub open spec fn is_frame_of(frame: LogicalFrameSpec, layouts: LayoutMap, link: Link) -> bool {
    &&& frame.display_name == layout::fn_name_of(layouts[link.type_path].type_path)
    &&& frame.location == link.variant.await_location
    &&& frame.origin == FrameOrigin::Synthesized
}

/// The frames of the coroutines of a chain, each saying which coroutine it awaits,
/// but for the last.
pub open spec fn are_frames_of(
    frames: Seq<LogicalFrameSpec>,
    layouts: LayoutMap,
    links: Seq<Link>,
) -> bool {
    &&& frames.len() >= links.len()
    &&& forall|i: int| 0 <= i < links.len() ==> is_frame_of(frames[i], layouts, #[trigger] links[i])
    &&& forall|i: int|
        0 <= i < links.len() - 1 ==> {
            &&& (#[trigger] frames[i]).suspend matches Some(point)
            &&& frames[i].suspend->Some_0.kind == SuspendKind::Other
            &&& frames[i].suspend->Some_0.detail == Some(
                state::short_name_of(links[i + 1].type_path),
            )
        }
}

proof fn lemma_chain_tail<V: ProcessView + ?Sized>(view: &V, layouts: LayoutMap, links: Seq<Link>)
    requires
        is_chain(view, layouts, links),
        links.len() > 1,
    ensures
        is_chain(view, layouts, links.skip(1)),
        is_link(view, layouts, links[0]),
        is_awaited_by(links.skip(1)[0], links[0]),
{
    let rest = links.skip(1);
    assert forall|i: int| 0 <= i < rest.len() implies is_link(
        view,
        layouts,
        #[trigger] rest[i],
    ) by {
        assert(rest[i] == links[i + 1]);
    }
    assert forall|i: int| 0 <= i < rest.len() - 1 implies is_awaited_by(
        rest[i + 1],
        #[trigger] rest[i],
    ) by {
        assert(rest[i] == links[i + 1] && rest[i + 1] == links[i + 2]);
        assert(is_awaited_by(links[i + 1 + 1], links[i + 1]));
    }
    assert(is_awaited_by(links[1], links[0]));
}

/// A backtrace unfolds: the frame of the coroutine, and below it the backtrace of
/// the coroutine that it awaits, whatever depth is left.
pub proof fn law_a_backtrace_unfolds<V: ProcessView + ?Sized>(
    view: &V,
    layouts: LayoutMap,
    link: Link,
    next: Link,
    left: nat,
)
    requires
        is_link(view, layouts, link),
        is_awaited_by(next, link),
        layouts.contains_key(next.type_path),
        left > 0,
    ensures
        match decode::backtrace(view, next.base, next.type_path, layouts, (left - 1) as nat) {
            Ok(below) => decode::backtrace(
                view,
                link.base,
                link.type_path,
                layouts,
                left,
            ) matches Ok(frames) && {
                &&& frames.len() == below.len() + 1
                &&& frames.skip(1) == below
                &&& is_frame_of(frames[0], layouts, link)
                &&& frames[0].suspend matches Some(point) && point.kind == SuspendKind::Other
                    && point.detail == Some(state::short_name_of(next.type_path))
            },
            Err(e) => decode::backtrace(view, link.base, link.type_path, layouts, left) == Err::<
                Seq<LogicalFrameSpec>,
                DecoderErrorSpec,
            >(e),
        },
{
    law_the_discriminant_names_the_active_variant(
        view,
        link.base,
        layouts[link.type_path],
        link.discr,
        link.variant,
    );
    let child = choose|child: ChildRefSpec| #[trigger]
        awaits(link, child) && next.type_path == child.type_path && next.base
            == link.base.wrapping_add(child.offset);
    if let Ok(below) = decode::backtrace(
        view,
        next.base,
        next.type_path,
        layouts,
        (left - 1) as nat,
    ) {
        let frames = decode::backtrace(view, link.base, link.type_path, layouts, left)->Ok_0;
        assert(frames.skip(1) =~= below);
    }
}

/// The backtrace of a chain that ends in a leaf future shows all of it: a frame for
/// every coroutine, the outermost first, and one for the leaf. The innermost
/// coroutine's frame and the leaf's say what is waited for.
pub proof fn law_a_backtrace_shows_the_whole_chain<V: ProcessView + ?Sized>(
    view: &V,
    layouts: LayoutMap,
    links: Seq<Link>,
    leaf: ChildRefSpec,
    left: nat,
)
    requires
        is_chain(view, layouts, links),
        0 < links.len() <= left,
        awaits_leaf(layouts, links.last(), leaf),
    ensures
        decode::backtrace(view, links[0].base, links[0].type_path, layouts, left) matches Ok(frames)
            && {
            &&& frames.len() == links.len() + 1
            &&& are_frames_of(frames, layouts, links)
            &&& frames.last().display_name == state::short_name_of(leaf.type_path)
            &&& frames.last().location is None
            &&& frames.last().origin == FrameOrigin::Synthesized
            &&& frames[links.len() - 1].suspend == frames.last().suspend
            &&& frames.last().suspend matches Some(point) && point.kind == state::leaf_class(
                leaf.type_path,
            ).suspend && point.detail == Some(state::short_name_of(leaf.type_path))
        },
    decreases links.len(),
{
    let link = links[0];
    assert(is_link(view, layouts, links[0]));
    if links.len() == 1 {
        law_the_discriminant_names_the_active_variant(
            view,
            link.base,
            layouts[link.type_path],
            link.discr,
            link.variant,
        );
    } else {
        let rest = links.skip(1);
        lemma_chain_tail(view, layouts, links);
        assert(is_link(view, layouts, rest[0]));
        law_a_backtrace_shows_the_whole_chain(view, layouts, rest, leaf, (left - 1) as nat);
        law_a_backtrace_unfolds(view, layouts, link, rest[0], left);
        lemma_frames_go_on(view, layouts, links, left);
    }
}

proof fn lemma_frames_go_on<V: ProcessView + ?Sized>(
    view: &V,
    layouts: LayoutMap,
    links: Seq<Link>,
    left: nat,
)
    requires
        is_chain(view, layouts, links),
        links.len() > 1,
        left > 0,
        decode::backtrace(
            view,
            links[1].base,
            links[1].type_path,
            layouts,
            (left - 1) as nat,
        ) matches Ok(below) && are_frames_of(below, layouts, links.skip(1)),
    ensures
        decode::backtrace(view, links[0].base, links[0].type_path, layouts, left) matches Ok(frames)
            && are_frames_of(frames, layouts, links),
{
    let rest = links.skip(1);
    lemma_chain_tail(view, layouts, links);
    assert(is_link(view, layouts, rest[0]));
    law_a_backtrace_unfolds(view, layouts, links[0], rest[0], left);
    let below = decode::backtrace(
        view,
        links[1].base,
        links[1].type_path,
        layouts,
        (left - 1) as nat,
    )->Ok_0;
    let frames = decode::backtrace(view, links[0].base, links[0].type_path, layouts, left)->Ok_0;
    assert forall|i: int| 0 <= i < links.len() implies is_frame_of(
        frames[i],
        layouts,
        #[trigger] links[i],
    ) by {
        if i > 0 {
            assert(frames[i] == below[i - 1]);
            assert(links[i] == rest[i - 1]);
        }
    }
    assert forall|i: int| 0 <= i < links.len() - 1 implies {
        &&& (#[trigger] frames[i]).suspend matches Some(point)
        &&& frames[i].suspend->Some_0.kind == SuspendKind::Other
        &&& frames[i].suspend->Some_0.detail == Some(state::short_name_of(links[i + 1].type_path))
    } by {
        if i > 0 {
            assert(frames[i] == below[i - 1]);
            assert(links[i + 1] == rest[i]);
        }
    }
}

/// The backtrace of a chain whose innermost coroutine awaits nothing that is known
/// has a frame for every coroutine, and the innermost one's claims no await.
pub proof fn law_a_backtrace_without_a_leaf_ends_with_the_chain<V: ProcessView + ?Sized>(
    view: &V,
    layouts: LayoutMap,
    links: Seq<Link>,
    left: nat,
)
    requires
        is_chain(view, layouts, links),
        0 < links.len() <= left,
        awaits_nothing(links.last()),
    ensures
        decode::backtrace(view, links[0].base, links[0].type_path, layouts, left) matches Ok(frames)
            && {
            &&& frames.len() == links.len()
            &&& are_frames_of(frames, layouts, links)
            &&& frames.last().suspend is None
        },
    decreases links.len(),
{
    let link = links[0];
    assert(is_link(view, layouts, links[0]));
    if links.len() == 1 {
        law_the_discriminant_names_the_active_variant(
            view,
            link.base,
            layouts[link.type_path],
            link.discr,
            link.variant,
        );
    } else {
        let rest = links.skip(1);
        lemma_chain_tail(view, layouts, links);
        assert(is_link(view, layouts, rest[0]));
        law_a_backtrace_without_a_leaf_ends_with_the_chain(
            view,
            layouts,
            rest,
            (left - 1) as nat,
        );
        law_a_backtrace_unfolds(view, layouts, link, rest[0], left);
        lemma_frames_go_on(view, layouts, links, left);
    }
}

/// A chain that is longer than the depth that is left is cut: a frame for each of
/// the first coroutines, as many as the depth allows.
pub proof fn law_a_long_chain_is_cut<V: ProcessView + ?Sized>(
    view: &V,
    layouts: LayoutMap,
    links: Seq<Link>,
    left: nat,
)
    requires
        is_chain(view, layouts, links),
        links.len() == left + 1,
    ensures
        decode::backtrace(view, links[0].base, links[0].type_path, layouts, left) matches Ok(frames)
            && frames.len() == left && forall|i: int|
            0 <= i < left ==> is_frame_of(#[trigger] frames[i], layouts, links[i]),
    decreases left,
{
    if left > 0 {
        let rest = links.skip(1);
        lemma_chain_tail(view, layouts, links);
        assert(is_link(view, layouts, rest[0]));
        law_a_long_chain_is_cut(view, layouts, rest, (left - 1) as nat);
        law_a_backtrace_unfolds(view, layouts, links[0], rest[0], left);
        let below = decode::backtrace(
            view,
            rest[0].base,
            rest[0].type_path,
            layouts,
            (left - 1) as nat,
        )->Ok_0;
        let frames = decode::backtrace(
            view,
            links[0].base,
            links[0].type_path,
            layouts,
            left,
        )->Ok_0;
        assert forall|i: int| 0 <= i < left implies is_frame_of(
            #[trigger] frames[i],
            layouts,
            links[i],
        ) by {
            if i > 0 {
                assert(frames[i] == below[i - 1]);
                assert(links[i] == rest[i - 1]);
            }
        }
    }
}

/// What a chain waits for is what its leaf waits for, however many coroutines are
/// between.
pub proof fn law_a_chain_waits_for_its_leaf<V: ProcessView + ?Sized>(
    view: &V,
    layouts: LayoutMap,
    links: Seq<Link>,
    leaf: ChildRefSpec,
    left: nat,
)
    requires
        is_chain(view, layouts, links),
        0 < links.len() <= left,
        awaits_leaf(layouts, links.last(), leaf),
    ensures
        decode::leaf(view, links[0].base, layouts[links[0].type_path], layouts, left) == Ok::<
            Option<Seq<char>>,
            DecoderErrorSpec,
        >(Some(leaf.type_path)),
    decreases links.len(),
{
    let link = links[0];
    assert(is_link(view, layouts, links[0]));
    law_the_discriminant_names_the_active_variant(
        view,
        link.base,
        layouts[link.type_path],
        link.discr,
        link.variant,
    );
    if links.len() > 1 {
        let rest = links.skip(1);
        lemma_chain_tail(view, layouts, links);
        assert(is_link(view, layouts, rest[0]));
        law_a_chain_waits_for_its_leaf(view, layouts, rest, leaf, (left - 1) as nat);
    }
}

/// A chain whose innermost coroutine awaits nothing that is known waits for nothing
/// that is known.
pub proof fn law_a_chain_without_a_leaf_waits_for_nothing<V: ProcessView + ?Sized>(
    view: &V,
    layouts: LayoutMap,
    links: Seq<Link>,
    left: nat,
)
    requires
        is_chain(view, layouts, links),
        0 < links.len() <= left,
        awaits_nothing(links.last()),
    ensures
        decode::leaf(view, links[0].base, layouts[links[0].type_path], layouts, left) == Ok::<
            Option<Seq<char>>,
            DecoderErrorSpec,
        >(None),
    decreases links.len(),
{
    let link = links[0];
    assert(is_link(view, layouts, links[0]));
    law_the_discriminant_names_the_active_variant(
        view,
        link.base,
        layouts[link.type_path],
        link.discr,
        link.variant,
    );
    if links.len() > 1 {
        let rest = links.skip(1);
        lemma_chain_tail(view, layouts, links);
        assert(is_link(view, layouts, rest[0]));
        law_a_chain_without_a_leaf_waits_for_nothing(view, layouts, rest, (left - 1) as nat);
    }
}

// ---------------------------------------------------------------------------
// States and causes
// ---------------------------------------------------------------------------

/// A word of flags has the flag of this weight.
pub open spec fn has_flag(word: int, weight: int) -> bool {
    (word / weight) % 2 == 1
}

/// What a task's state word says: with flag 2 (complete) or 32 (cancelled) the task
/// is over; else with flag 1 it runs; else with flag 4 it is notified, and can run;
/// else it is parked. No other bit counts.
pub proof fn law_a_state_word_goes_by_its_flags(word: usize)
    ensures
        ({
            let over = has_flag(word as int, 2) || has_flag(word as int, 32);
            let runs = has_flag(word as int, 1);
            let notified = has_flag(word as int, 4);
            &&& over ==> state::header_state(word) == TaskStateSpec::Completed
            &&& !over && runs ==> state::header_state(word) == TaskStateSpec::Running
            &&& !over && !runs && notified ==> state::header_state(word) == TaskStateSpec::Runnable
            &&& !over && !runs && !notified ==> state::header_state(word) is Blocked
        }),
{
    assert((word & 2 != 0) == ((word / 2) % 2 == 1)) by (bit_vector);
    assert((word & 32 != 0) == ((word / 32) % 2 == 1)) by (bit_vector);
    assert((word & 1 != 0) == ((word / 1) % 2 == 1)) by (bit_vector);
    assert((word & 4 != 0) == ((word / 4) % 2 == 1)) by (bit_vector);
}

/// A task has a state word: that many bytes of it as a machine word has, or fewer
/// where fewer are shown.
pub open spec fn is_state_word<V: ProcessView + ?Sized>(view: &V, addr: u64, word: usize) -> bool {
    view.memory(addr, decode::word_bytes()) matches Ok(data) && bytes::spells(
        data.take(
            if data.len() <= decode::word_bytes() {
                data.len() as int
            } else {
                decode::word_bytes() as int
            },
        ),
        word as int,
    )
}

/// The state of a task with a header goes by its state word, wherever its coroutine
/// stands; a parked one is blocked on what its chain waits for.
pub proof fn law_the_header_tells_the_state<V: ProcessView + ?Sized>(
    view: &V,
    layouts: LayoutMap,
    links: Seq<Link>,
    leaf: ChildRefSpec,
    addr: u64,
    word: usize,
)
    requires
        is_chain(view, layouts, links),
        0 < links.len() <= 64,
        awaits_leaf(layouts, links.last(), leaf),
        is_state_word(view, addr, word),
    ensures
        ({
            let over = has_flag(word as int, 2) || has_flag(word as int, 32);
            let runs = has_flag(word as int, 1);
            let notified = has_flag(word as int, 4);
            decode::coroutine_state(
                view,
                links[0].base,
                layouts[links[0].type_path],
                layouts,
                Some(addr),
            ) == Ok::<TaskStateSpec, DecoderErrorSpec>(
                if over {
                    TaskStateSpec::Completed
                } else if runs {
                    TaskStateSpec::Running
                } else if notified {
                    TaskStateSpec::Runnable
                } else {
                    TaskStateSpec::Blocked { on: state::leaf_class(leaf.type_path).block }
                },
            )
        }),
{
    law_a_chain_waits_for_its_leaf(view, layouts, links, leaf, decode::MAX_AWAIT_DEPTH as nat);
    assert(is_link(view, layouts, links[0]));
    law_the_discriminant_names_the_active_variant(
        view,
        links[0].base,
        layouts[links[0].type_path],
        links[0].discr,
        links[0].variant,
    );
    lemma_state_word(view, addr, word);
    law_a_state_word_goes_by_its_flags(word);
}

proof fn lemma_state_word<V: ProcessView + ?Sized>(view: &V, addr: u64, word: usize)
    requires
        is_state_word(view, addr, word),
    ensures
        view.memory(addr, decode::word_bytes()) matches Ok(data) && decode::leading_word(
            data,
            decode::word_bytes() as nat,
        ) == word,
{
    let data = view.memory(addr, decode::word_bytes())->Ok_0;
    let n: int = if data.len() <= decode::word_bytes() {
        data.len() as int
    } else {
        decode::word_bytes() as int
    };
    bytes::law_bytes_read_as_what_they_spell(data.take(n), word as int);
}

/// Without a header the state goes by the variant that the coroutine is in: one
/// that was never polled can run, one that returned or panicked is over, one at an
/// await is blocked on what its chain waits for.
pub proof fn law_without_a_header_the_variant_tells_the_state<V: ProcessView + ?Sized>(
    view: &V,
    layouts: LayoutMap,
    links: Seq<Link>,
    leaf: ChildRefSpec,
)
    requires
        is_chain(view, layouts, links),
        0 < links.len() <= 64,
        awaits_leaf(layouts, links.last(), leaf) || (links.len() == 1 && !(
        links[0].variant.kind is Suspend)),
    ensures
        decode::coroutine_state(
            view,
            links[0].base,
            layouts[links[0].type_path],
            layouts,
            None,
        ) == Ok::<TaskStateSpec, DecoderErrorSpec>(
            match links[0].variant.kind {
                VariantKind::Unresumed => TaskStateSpec::Runnable,
                VariantKind::Returned => TaskStateSpec::Completed,
                VariantKind::Panicked => TaskStateSpec::Completed,
                VariantKind::Suspend(_) => TaskStateSpec::Blocked {
                    on: state::leaf_class(leaf.type_path).block,
                },
            },
        ),
{
    assert(is_link(view, layouts, links[0]));
    law_the_discriminant_names_the_active_variant(
        view,
        links[0].base,
        layouts[links[0].type_path],
        links[0].discr,
        links[0].variant,
    );
    if awaits_leaf(layouts, links.last(), leaf) {
        law_a_chain_waits_for_its_leaf(view, layouts, links, leaf, decode::MAX_AWAIT_DEPTH as nat);
        if links.len() > 1 {
            lemma_chain_tail(view, layouts, links);
        }
    }
}

/// A coroutine that waits for nothing that is known is blocked, where it is parked,
/// for an unknown reason, and nothing is claimed of what will wake it.
pub proof fn law_an_unknown_wait_is_not_guessed<V: ProcessView + ?Sized>(
    view: &V,
    layouts: LayoutMap,
    links: Seq<Link>,
    header_addr: Option<u64>,
)
    requires
        is_chain(view, layouts, links),
        0 < links.len() <= 64,
        awaits_nothing(links.last()),
    ensures
        decode::coroutine_state(
            view,
            links[0].base,
            layouts[links[0].type_path],
            layouts,
            header_addr,
        ) matches Ok(TaskStateSpec::Blocked { on }) ==> on == BlockReasonSpec::Unknown,
        decode::coroutine_wake(view, links[0].base, layouts[links[0].type_path], layouts) == Ok::<
            WakeCauseSpec,
            DecoderErrorSpec,
        >(WakeCauseSpec::Unknown),
{
    law_a_chain_without_a_leaf_waits_for_nothing(
        view,
        layouts,
        links,
        decode::MAX_AWAIT_DEPTH as nat,
    );
}

/// A chain is woken by what its leaf waits for.
pub proof fn law_a_chain_is_woken_by_its_leaf<V: ProcessView + ?Sized>(
    view: &V,
    layouts: LayoutMap,
    links: Seq<Link>,
    leaf: ChildRefSpec,
)
    requires
        is_chain(view, layouts, links),
        0 < links.len() <= 64,
        awaits_leaf(layouts, links.last(), leaf),
    ensures
        decode::coroutine_wake(view, links[0].base, layouts[links[0].type_path], layouts) == Ok::<
            WakeCauseSpec,
            DecoderErrorSpec,
        >(state::leaf_class(leaf.type_path).wake),
{
    law_a_chain_waits_for_its_leaf(view, layouts, links, leaf, decode::MAX_AWAIT_DEPTH as nat);
}

/// A coroutine fans out to every inline child of the variant that it is in, in
/// order, each at its place in it.
pub proof fn law_every_inline_child_is_a_branch<V: ProcessView + ?Sized>(
    view: &V,
    base: u64,
    layout: AsyncFnLayoutSpec,
    discr: u64,
    variant: VariantInfoSpec,
)
    requires
        is_in_variant(view, base, layout, discr, variant),
    ensures
        decode::branches(view, base, layout) matches Ok(found) && found.len()
            == variant.children.len() && forall|i: int|
            0 <= i < found.len() ==> (#[trigger] found[i]).0 == base.wrapping_add(
                variant.children[i].offset,
            ) && found[i].1 == variant.children[i].type_path,
{
    law_the_discriminant_names_the_active_variant(view, base, layout, discr, variant);
}

} // verus!
