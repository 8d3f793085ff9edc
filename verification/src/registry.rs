//! Picks a decoder for a target: the seam that every language's decoder plugs
//! into. Recording, replay and the debug adapter never learn which one they got.
use vstd::prelude::*;

use crate::async_rust::dwarf as tokio_dwarf;
use crate::async_rust::TokioDecoder;
use crate::decoder_trait::{self, Reading, SemanticDecoder};
use crate::go::dwarf as go_dwarf;
use crate::go::error::GoDecodeErrorSpec;
use crate::go::GoroutineDecoder;
use crate::model::tree;
use crate::model::TaskId;
use crate::native::{self, NativeThreadsDecoder};
use crate::process_view::ProcessView;

verus! {

/// The decoder that was picked for a target.
pub struct Selected {
    /// The decoder.
    pub decoder: Box<dyn SemanticDecoder>,
}

/// What the best decoder for a binary reads with: the layout of the Go runtime,
/// else the layouts of coroutines and no roots yet, else nothing.
pub open spec fn best_reading(image: Seq<u8>) -> Reading {
    match go_dwarf::loaded_layout(image) {
        Ok(layout) => Reading::Goroutines(layout),
        Err(_) => match tokio_dwarf::extracted(image) {
            Ok(found) => Reading::Coroutines(found.layouts, Seq::empty()),
            Err(_) => Reading::Threads,
        },
    }
}

/// Select the universal fallback: one task per native thread.
#[must_use]
pub fn select_decoder() -> (r: Selected)
    ensures
        r.decoder.reading() == Reading::Threads,
{
    Selected { decoder: Box::new(NativeThreadsDecoder::new()) }
}

/// Select the best decoder for a target given its binary: Go, else Tokio, else
/// native threads. A binary whose layout cannot be resolved is not guessed at.
///
/// A Tokio decoder has no task roots yet, and declines until it is given some.
#[must_use]
pub fn select_decoder_for_binary(image: &[u8]) -> (r: Selected)
    ensures
        r.decoder.reading() == best_reading(image@),
{
    if let Ok(decoder) = GoroutineDecoder::from_binary(image) {
        return Selected { decoder: Box::new(decoder) };
    }
    if let Ok(decoder) = TokioDecoder::from_binary(image) {
        return Selected { decoder: Box::new(decoder) };
    }
    select_decoder()
}

/// Where neither the layout of the Go runtime nor those of coroutines can be
/// resolved, the decoder that is selected gives in every method what the native
/// one gives, whatever the view and the task: one root task per thread, its
/// physical stack, no known cause of waking and no locals.
pub proof fn law_the_fallback_decodes_native_threads<V: ProcessView + ?Sized>(
    image: Seq<u8>,
    view: &V,
    task: TaskId,
)
    requires
        go_dwarf::loaded_layout(image) is Err,
        tokio_dwarf::extracted(image) is Err,
    ensures
        best_reading(image) == NativeThreadsDecoder.reading(),
        decoder_trait::tasks_read(best_reading(image), view) == Some(
            tree::assembled(native::thread_nodes(view.threads())),
        ),
        decoder_trait::stack_read(best_reading(image), view, task) == Some(
            native::thread_stack(view, task),
        ),
        decoder_trait::wake_read(best_reading(image), view, task) == Some(
            native::thread_wake(view, task),
        ),
        decoder_trait::locals_read(best_reading(image), view, task) == Some(
            native::thread_locals(view, task),
        ),
{
}

/// Go is preferred to Tokio and Tokio to native threads: a binary in which the
/// layout of the Go runtime can be resolved is read with that layout whatever
/// else it holds; one with coroutines and without such a layout by them, with
/// no root yet; any other by its threads.
pub proof fn law_the_most_telling_reading_is_picked(image: Seq<u8>)
    ensures
        best_reading(image) matches Reading::Goroutines(layout) ==> go_dwarf::loaded_layout(image)
            == Ok::<_, GoDecodeErrorSpec>(layout),
        go_dwarf::loaded_layout(image) is Ok <==> best_reading(image) is Goroutines,
        best_reading(image) matches Reading::Coroutines(layouts, roots) ==> roots.len() == 0
            && tokio_dwarf::extracted(image) is Ok && tokio_dwarf::extracted(image)->Ok_0.layouts
            == layouts,
        best_reading(image) is Coroutines <==> go_dwarf::loaded_layout(image) is Err
            && tokio_dwarf::extracted(image) is Ok,
        best_reading(image) is Threads <==> go_dwarf::loaded_layout(image) is Err
            && tokio_dwarf::extracted(image) is Err,
{
}

} // verus!
