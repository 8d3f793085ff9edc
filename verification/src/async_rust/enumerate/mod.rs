//! Live Tokio task enumeration: from each stopped thread's runtime context to
//! the list of spawned tasks.
//!
//! The walk needs no cooperation of the target: from a thread's `CONTEXT` it
//! follows the scheduler handle into the sharded list of owned tasks, reads
//! each task's header, and maps the poll function in its vtable back to the
//! future type that the decoder has a layout of. A target that cannot be walked
//! (another Tokio version, no context symbol, a view without thread pointers)
//! is declined.
pub mod dwarf;
pub mod error;
pub mod fact_laws;
pub mod laws;
pub mod layout;
pub mod tls;
pub mod walk;

use vstd::prelude::*;

use super::decode::LayoutMap;
use super::layout::AsyncLayouts;
use super::roots::{TaskRoot, TaskRootSpec};
use crate::error::outcome;
use crate::process_view::{LiveProcessView, ThreadId};
use dwarf::BinaryFactsSpec;
use error::EnumerateErrorSpec;
use tls::TlsVariant;

pub use dwarf::BinaryFacts;
pub use error::EnumerateError;
pub use layout::{TokioRuntimeLayout, TokioVersion};
pub use walk::RawTask;

verus! {

/// A plan for enumerating one Tokio binary's tasks: the runtime's layout and
/// the binary's facts. Made once, and used on every stop.
#[derive(Debug, Clone)]
pub struct EnumerationPlan {
    /// The binary's facts.
    pub facts: BinaryFacts,
    /// The runtime's layout.
    pub layout: TokioRuntimeLayout,
}

/// The value of an `EnumerationPlan`.
#[verifier::ext_equal]
pub struct EnumerationPlanSpec {
    pub facts: BinaryFactsSpec,
    pub layout: TokioRuntimeLayout,
}

impl DeepView for EnumerationPlan {
    type V = EnumerationPlanSpec;

    open spec fn deep_view(&self) -> EnumerationPlanSpec {
        EnumerationPlanSpec { facts: self.facts.deep_view(), layout: self.layout }
    }
}

// ---------------------------------------------------------------------------
// The tasks of all threads
// ---------------------------------------------------------------------------

/// Tasks in the order of their headers, with one more put in its place; one with
/// the same header is replaced.
pub open spec fn put(tasks: Seq<RawTask>, task: RawTask) -> Seq<RawTask>
    decreases tasks.len(),
{
    if tasks.len() == 0 {
        seq![task]
    } else if tasks.last().header < task.header {
        tasks.push(task)
    } else if tasks.last().header == task.header {
        tasks.drop_last().push(task)
    } else {
        put(tasks.drop_last(), task).push(tasks.last())
    }
}

/// Tasks in the order of their headers, with all of `more` put in their places.
pub open spec fn put_all(tasks: Seq<RawTask>, more: Seq<RawTask>) -> Seq<RawTask>
    decreases more.len(),
{
    if more.len() == 0 {
        tasks
    } else {
        put(put_all(tasks, more.drop_last()), more.last())
    }
}

/// What some threads led to.
#[verifier::ext_equal]
pub struct Gathered {
    /// The tasks, in the order of their headers.
    pub tasks: Seq<RawTask>,
    /// Some thread had a thread pointer.
    pub any_thread_pointer: bool,
    /// Some thread held a runtime handle.
    pub any_runtime: bool,
}

/// What the first `n` threads led to.
pub open spec fn gathered<V: LiveProcessView + ?Sized>(
    plan: EnumerationPlanSpec,
    view: &V,
    variant: TlsVariant,
    threads: Seq<ThreadId>,
    n: int,
) -> Result<Gathered, EnumerateErrorSpec>
    decreases n,
{
    if n <= 0 {
        Ok(Gathered { tasks: Seq::empty(), any_thread_pointer: false, any_runtime: false })
    } else {
        match gathered(plan, view, variant, threads, n - 1) {
            Err(e) => Err(e),
            Ok(so_far) => match view.thread_pointer_reply(threads[n - 1]) {
                Err(e) => Err(EnumerateErrorSpec::Implausible(e.message())),
                Ok(None) => Ok(so_far),
                Ok(Some(tp)) => with_thread(plan, view, variant, tp, so_far),
            },
        }
    }
}

/// Where the context of a thread lies.
pub open spec fn context_address(facts: BinaryFactsSpec, variant: TlsVariant, tp: u64) -> u64 {
    tls::tls_address(
        variant,
        tp,
        facts.context_tls_offset,
        facts.tls_align,
        facts.tls_block_size,
    )
}

/// What a thread with a thread pointer adds.
pub open spec fn with_thread<V: LiveProcessView + ?Sized>(
    plan: EnumerationPlanSpec,
    view: &V,
    variant: TlsVariant,
    tp: u64,
    so_far: Gathered,
) -> Result<Gathered, EnumerateErrorSpec> {
    match walk::context_walk(
        view,
        context_address(plan.facts, variant, tp),
        plan.layout,
        Seq::empty(),
    ) {
        (_, Err(e)) => Err(e),
        (_, Ok(false)) => Ok(
            Gathered {
                tasks: so_far.tasks,
                any_thread_pointer: true,
                any_runtime: so_far.any_runtime,
            },
        ),
        (found, Ok(true)) => Ok(
            Gathered {
                tasks: put_all(so_far.tasks, found),
                any_thread_pointer: true,
                any_runtime: true,
            },
        ),
    }
}

/// The tasks of all threads, in the order of their headers.
pub open spec fn raw_tasks<V: LiveProcessView + ?Sized>(
    plan: EnumerationPlanSpec,
    view: &V,
    variant: TlsVariant,
) -> Result<Seq<RawTask>, EnumerateErrorSpec> {
    match gathered(plan, view, variant, view.threads(), view.threads().len() as int) {
        Err(e) => Err(e),
        Ok(all) => if !all.any_thread_pointer {
            Err(EnumerateErrorSpec::ThreadPointerUnavailable)
        } else if !all.any_runtime {
            Err(EnumerateErrorSpec::NoRuntimeHandle)
        } else {
            Ok(all.tasks)
        },
    }
}

proof fn lemma_gathered_error<V: LiveProcessView + ?Sized>(
    plan: EnumerationPlanSpec,
    view: &V,
    variant: TlsVariant,
    threads: Seq<ThreadId>,
    n: int,
    m: int,
)
    requires
        n <= m,
        gathered(plan, view, variant, threads, n) is Err,
    ensures
        gathered(plan, view, variant, threads, m) == gathered(plan, view, variant, threads, n),
    decreases m - n,
{
    if n < m {
        lemma_gathered_error(plan, view, variant, threads, n, m - 1);
    }
}

/// Tasks stand in the order of their headers, no header twice.
pub open spec fn is_ordered(tasks: Seq<RawTask>) -> bool {
    forall|i: int, j: int|
        0 <= i < j < tasks.len() ==> (#[trigger] tasks[i]).header < (#[trigger] tasks[j]).header
}

proof fn lemma_put(tasks: Seq<RawTask>, task: RawTask)
    requires
        is_ordered(tasks),
    ensures
        is_ordered(put(tasks, task)),
        put(tasks, task).contains(task),
        forall|i: int|
            0 <= i < put(tasks, task).len() ==> (#[trigger] put(tasks, task)[i]) == task
                || tasks.contains(put(tasks, task)[i]),
        forall|i: int|
            0 <= i < tasks.len() ==> (#[trigger] tasks[i]).header == task.header || put(
                tasks,
                task,
            ).contains(tasks[i]),
    decreases tasks.len(),
{
    let after = put(tasks, task);
    if tasks.len() == 0 {
        assert(after[0] == task);
    } else if tasks.last().header <= task.header {
        assert(after[after.len() - 1] == task);
        assert forall|i: int| 0 <= i < after.len() implies (#[trigger] after[i]) == task
            || tasks.contains(after[i]) by {
            if i < after.len() - 1 {
                assert(after[i] == tasks[i]);
            }
        }
        assert forall|i: int| 0 <= i < tasks.len() implies (#[trigger] tasks[i]).header
            == task.header || after.contains(tasks[i]) by {
            if i < tasks.len() - 1 || tasks.last().header < task.header {
                assert(after[i] == tasks[i]);
            }
        }
        assert forall|i: int, j: int| 0 <= i < j < after.len() implies (#[trigger] after[i]).header
            < (#[trigger] after[j]).header by {
            assert(after[i] == tasks[i]);
            if j < after.len() - 1 {
                assert(after[j] == tasks[j]);
            } else if i < tasks.len() - 1 {
                assert(tasks[i].header < tasks[tasks.len() - 1].header);
            }
        }
    } else {
        let shorter = tasks.drop_last();
        let inner = put(shorter, task);
        assert forall|i: int, j: int| 0 <= i < j < shorter.len() implies (
        #[trigger] shorter[i]).header < (#[trigger] shorter[j]).header by {
            assert(shorter[i] == tasks[i] && shorter[j] == tasks[j]);
        }
        lemma_put(shorter, task);
        let k = inner.index_of(task);
        assert(after[k] == task);
        assert forall|i: int| 0 <= i < after.len() implies (#[trigger] after[i]) == task
            || tasks.contains(after[i]) by {
            if i < inner.len() {
                assert(after[i] == inner[i]);
                if inner[i] != task {
                    let j = shorter.index_of(inner[i]);
                    assert(tasks[j] == inner[i]);
                }
            } else {
                assert(after[i] == tasks[tasks.len() - 1]);
            }
        }
        assert forall|i: int| 0 <= i < tasks.len() implies (#[trigger] tasks[i]).header
            == task.header || after.contains(tasks[i]) by {
            if i < shorter.len() {
                assert(tasks[i] == shorter[i]);
                if shorter[i].header != task.header {
                    let j = inner.index_of(shorter[i]);
                    assert(after[j] == tasks[i]);
                }
            } else {
                assert(after[inner.len() as int] == tasks[i]);
            }
        }
        assert forall|i: int, j: int| 0 <= i < j < after.len() implies (#[trigger] after[i]).header
            < (#[trigger] after[j]).header by {
            assert(after[i] == inner[i]);
            if j < inner.len() {
                assert(after[j] == inner[j]);
            } else {
                assert(after[j] == tasks.last());
                if inner[i] != task {
                    let p = shorter.index_of(inner[i]);
                    assert(tasks[p] == shorter[p]);
                    assert(tasks[p].header < tasks[tasks.len() - 1].header);
                }
            }
        }
    }
}

proof fn lemma_put_all(tasks: Seq<RawTask>, more: Seq<RawTask>)
    requires
        is_ordered(tasks),
    ensures
        is_ordered(put_all(tasks, more)),
    decreases more.len(),
{
    if more.len() > 0 {
        lemma_put_all(tasks, more.drop_last());
        lemma_put(put_all(tasks, more.drop_last()), more.last());
    }
}

proof fn lemma_gathered_is_ordered<V: LiveProcessView + ?Sized>(
    plan: EnumerationPlanSpec,
    view: &V,
    variant: TlsVariant,
    threads: Seq<ThreadId>,
    n: int,
)
    ensures
        gathered(plan, view, variant, threads, n) matches Ok(g) ==> is_ordered(g.tasks),
    decreases n,
{
    if n > 0 {
        lemma_gathered_is_ordered(plan, view, variant, threads, n - 1);
        if let Ok(so_far) = gathered(plan, view, variant, threads, n - 1) {
            if let Ok(Some(tp)) = view.thread_pointer_reply(threads[n - 1]) {
                let found = walk::context_walk(
                    view,
                    context_address(plan.facts, variant, tp),
                    plan.layout,
                    Seq::empty(),
                ).0;
                lemma_put_all(so_far.tasks, found);
            }
        }
    }
}

/// However many threads lead to a task, it is enumerated once: the tasks of all
/// threads stand in the order of their headers, and no header stands twice.
pub proof fn law_no_task_is_enumerated_twice<V: LiveProcessView + ?Sized>(
    plan: EnumerationPlanSpec,
    view: &V,
    variant: TlsVariant,
)
    ensures
        raw_tasks(plan, view, variant) matches Ok(tasks) ==> is_ordered(tasks),
{
    lemma_gathered_is_ordered(
        plan,
        view,
        variant,
        view.threads(),
        view.threads().len() as int,
    );
}

/// Put a task in its place.
fn put_task(tasks: &mut Vec<RawTask>, task: RawTask)
    ensures
        final(tasks)@ == put(old(tasks)@, task),
{
    let ghost was = tasks@;
    let mut at: usize = tasks.len();
    assert(was.take(at as int) =~= was);
    assert(was.skip(at as int) =~= Seq::empty());
    while at > 0 && tasks[at - 1].header > task.header
        invariant
            at <= tasks.len(),
            was == tasks@,
            put(was, task) == put(was.take(at as int), task) + was.skip(at as int),
        decreases at,
    {
        proof {
            let head = was.take(at as int);
            assert(head.drop_last() =~= was.take(at - 1));
            assert(head.last() == was[at - 1]);
            let t = put(head.drop_last(), task);
            assert(t.push(head.last()) + was.skip(at as int) =~= t + was.skip(at - 1));
        }
        at -= 1;
    }
    proof {
        let head = was.take(at as int);
        if at > 0 {
            assert(head.last() == was[at - 1]);
            assert(head.drop_last() =~= was.take(at - 1));
        }
    }
    if at > 0 && tasks[at - 1].header == task.header {
        tasks.set(at - 1, task);
        assert(tasks@ =~= was.take(at - 1).push(task) + was.skip(at as int));
    } else {
        tasks.insert(at, task);
        assert(tasks@ =~= was.take(at as int).push(task) + was.skip(at as int));
    }
}

// ---------------------------------------------------------------------------
// From tasks to roots
// ---------------------------------------------------------------------------

/// The future type of a task, if the decoder can read it: the binary's poll
/// function belongs to it, and there is a layout of it.
pub open spec fn decodable_type(
    facts: BinaryFactsSpec,
    task: RawTask,
    load_bias: u64,
    layouts: LayoutMap,
) -> Option<Seq<char>> {
    match dwarf::type_of_poll(facts.poll_types, task.poll_runtime.wrapping_sub(load_bias), 0) {
        Some(type_path) if layouts.contains_key(type_path) => Some(type_path),
        _ => None,
    }
}

/// The roots that the first `n` tasks make: those that can be decoded, numbered
/// from 1.
pub open spec fn roots_among(
    facts: BinaryFactsSpec,
    raw: Seq<RawTask>,
    n: int,
    load_bias: u64,
    layouts: LayoutMap,
) -> Seq<TaskRootSpec>
    decreases n,
{
    if n <= 0 {
        Seq::empty()
    } else {
        let before = roots_among(facts, raw, n - 1, load_bias, layouts);
        match decodable_type(facts, raw[n - 1], load_bias, layouts) {
            Some(type_path) => before.push(
                TaskRootSpec {
                    id: (before.len() + 1) as u64,
                    base: raw[n - 1].future,
                    type_path,
                    header_addr: Some(raw[n - 1].header),
                },
            ),
            None => before,
        }
    }
}

proof fn lemma_roots_len(
    facts: BinaryFactsSpec,
    raw: Seq<RawTask>,
    n: int,
    load_bias: u64,
    layouts: LayoutMap,
)
    requires
        0 <= n,
    ensures
        roots_among(facts, raw, n, load_bias, layouts).len() <= n,
    decreases n,
{
    if n > 0 {
        lemma_roots_len(facts, raw, n - 1, load_bias, layouts);
    }
}

/// The roots that a stopped process has.
pub open spec fn roots_of<V: LiveProcessView + ?Sized>(
    plan: EnumerationPlanSpec,
    view: &V,
    layouts: LayoutMap,
    variant: TlsVariant,
) -> Result<Seq<TaskRootSpec>, EnumerateErrorSpec> {
    match view.load_base() {
        None => Err(EnumerateErrorSpec::LoadBaseUnavailable),
        Some(base) => match raw_tasks(plan, view, variant) {
            Err(e) => Err(e),
            Ok(raw) => Ok(
                roots_among(
                    plan.facts,
                    raw,
                    raw.len() as int,
                    base.wrapping_sub(plan.facts.min_load_vaddr),
                    layouts,
                ),
            ),
        },
    }
}

/// Roots are numbered 1, 2, 3 and so on, and the decoder has a layout of each.
pub proof fn law_roots_are_numbered_and_decodable(
    facts: BinaryFactsSpec,
    raw: Seq<RawTask>,
    n: int,
    load_bias: u64,
    layouts: LayoutMap,
)
    requires
        0 <= n <= raw.len(),
        n < u64::MAX,
    ensures
        forall|i: int|
            0 <= i < roots_among(facts, raw, n, load_bias, layouts).len() ==> (
            #[trigger] roots_among(facts, raw, n, load_bias, layouts)[i]).id == i + 1
                && layouts.contains_key(
                roots_among(facts, raw, n, load_bias, layouts)[i].type_path,
            ),
    decreases n,
{
    if n > 0 {
        law_roots_are_numbered_and_decodable(facts, raw, n - 1, load_bias, layouts);
        lemma_roots_len(facts, raw, n - 1, load_bias, layouts);
        let before = roots_among(facts, raw, n - 1, load_bias, layouts);
        let after = roots_among(facts, raw, n, load_bias, layouts);
        assert forall|i: int| 0 <= i < after.len() implies (#[trigger] after[i]).id == i + 1
            && layouts.contains_key(after[i].type_path) by {
            if i < before.len() {
                assert(after[i] == before[i]);
            }
        }
    }
}

impl EnumerationPlan {
    /// The plan for a binary with the given facts.
    ///
    /// # Errors
    /// Declines a Tokio version whose layout is not known.
    pub fn from_facts(facts: BinaryFacts) -> (r: Result<Self, EnumerateError>)
        ensures
            outcome(r) == (match TokioRuntimeLayout::table(facts.version) {
                Some(layout) => Ok(EnumerationPlanSpec { facts: facts.deep_view(), layout }),
                None => Err(EnumerateErrorSpec::UnsupportedTokioVersion(facts.version)),
            }),
    {
        let layout = TokioRuntimeLayout::vendored(facts.version)?;
        Ok(Self { facts, layout })
    }

    /// The plan for a Tokio binary.
    ///
    /// # Errors
    /// Declines where the version is unknown or its layout is not known, the
    /// context's symbol or the debug information is missing, or the image
    /// cannot be read.
    pub fn resolve(image: &[u8]) -> (r: Result<Self, EnumerateError>)
        ensures
            outcome(r) == (match dwarf::facts_of(image@) {
                Err(e) => Err(e),
                Ok(facts) => match TokioRuntimeLayout::table(facts.version) {
                    Some(layout) => Ok(EnumerationPlanSpec { facts, layout }),
                    None => Err(EnumerateErrorSpec::UnsupportedTokioVersion(facts.version)),
                },
            }),
    {
        let facts = dwarf::resolve(image)?;
        Self::from_facts(facts)
    }

    /// Enumerate the live spawned tasks: those whose future type is a coroutine
    /// that `layouts` has, in the order of their headers. `variant` is how the
    /// target places thread-local storage.
    ///
    /// # Errors
    /// Declines where no load base or thread pointer is available, no thread
    /// holds a runtime handle, or what is read is implausible.
    pub fn enumerate_roots<V: LiveProcessView + ?Sized>(
        &self,
        view: &V,
        layouts: &AsyncLayouts,
        variant: TlsVariant,
    ) -> (r: Result<Vec<TaskRoot>, EnumerateError>)
        ensures
            outcome(r) == roots_of(self.deep_view(), view, layouts.deep_view(), variant),
    {
        let load_bias: u64 = self.load_bias(view)?;
        let raw = self.collect_raw(view, variant)?;
        Ok(self.roots_from_raw(raw.as_slice(), load_bias, layouts))
    }

    /// How far from its static addresses the executable is loaded.
    fn load_bias<V: LiveProcessView + ?Sized>(&self, view: &V) -> (r: Result<u64, EnumerateError>)
        ensures
            outcome(r) == (match view.load_base() {
                Some(base) => Ok(base.wrapping_sub(self.facts.min_load_vaddr)),
                None => Err(EnumerateErrorSpec::LoadBaseUnavailable),
            }),
    {
        match view.executable_base() {
            Some(base) => Ok(base.wrapping_sub(self.facts.min_load_vaddr)),
            None => Err(EnumerateError::LoadBaseUnavailable),
        }
    }

    /// The tasks of all threads, in the order of their headers.
    fn collect_raw<V: LiveProcessView + ?Sized>(&self, view: &V, variant: TlsVariant) -> (r: Result<
        Vec<RawTask>,
        EnumerateError,
    >)
        ensures
            match r {
                Ok(tasks) => raw_tasks(self.deep_view(), view, variant) == Ok::<
                    Seq<RawTask>,
                    EnumerateErrorSpec,
                >(tasks@),
                Err(e) => raw_tasks(self.deep_view(), view, variant) == Err::<
                    Seq<RawTask>,
                    EnumerateErrorSpec,
                >(e.deep_view()),
            },
    {
        let ghost plan = self.deep_view();
        let threads = view.thread_ids();
        let mut tasks: Vec<RawTask> = Vec::new();
        let mut any_thread_pointer = false;
        let mut any_runtime = false;
        let mut i: usize = 0;
        while i < threads.len()
            invariant
                i <= threads.len(),
                plan == self.deep_view(),
                threads@ == view.threads(),
                gathered(plan, view, variant, threads@, i as int) == Ok::<_, EnumerateErrorSpec>(
                    Gathered { tasks: tasks@, any_thread_pointer, any_runtime },
                ),
            decreases threads.len() - i,
        {
            match view.thread_pointer(threads[i]) {
                Err(e) => {
                    proof {
                        lemma_gathered_error(
                            plan,
                            view,
                            variant,
                            threads@,
                            i + 1,
                            threads.len() as int,
                        );
                    }
                    return Err(EnumerateError::Implausible(e.message()));
                },
                Ok(None) => {},
                Ok(Some(tp)) => {
                    any_thread_pointer = true;
                    let context: u64 = tls::static_tls_address(
                        variant,
                        tp,
                        self.facts.context_tls_offset,
                        self.facts.tls_align,
                        self.facts.tls_block_size,
                    );
                    let mut raw: Vec<RawTask> = Vec::new();
                    match walk::walk_context(view, context, &self.layout, &mut raw) {
                        Err(e) => {
                            proof {
                                lemma_gathered_error(
                                    plan,
                                    view,
                                    variant,
                                    threads@,
                                    i + 1,
                                    threads.len() as int,
                                );
                            }
                            return Err(e);
                        },
                        Ok(found) => if found {
                            any_runtime = true;
                            put_tasks(&mut tasks, &raw);
                        },
                    }
                },
            }
            i += 1;
        }
        if !any_thread_pointer {
            return Err(EnumerateError::ThreadPointerUnavailable);
        }
        if !any_runtime {
            return Err(EnumerateError::NoRuntimeHandle);
        }
        Ok(tasks)
    }

    /// The roots that tasks make: those whose poll function belongs to a
    /// coroutine that `layouts` has.
    pub fn roots_from_raw(&self, raw: &[RawTask], load_bias: u64, layouts: &AsyncLayouts) -> (r: Vec<
        TaskRoot,
    >)
        ensures
            r.deep_view() == roots_among(
                self.deep_view().facts,
                raw@,
                raw@.len() as int,
                load_bias,
                layouts.deep_view(),
            ),
    {
        let ghost facts = self.deep_view().facts;
        let mut roots: Vec<TaskRoot> = Vec::new();
        assert(roots.deep_view() =~= Seq::empty());
        let mut i: usize = 0;
        while i < raw.len()
            invariant
                i <= raw.len(),
                roots.len() <= i,
                facts == self.deep_view().facts,
                roots.deep_view() == roots_among(
                    facts,
                    raw@,
                    i as int,
                    load_bias,
                    layouts.deep_view(),
                ),
            decreases raw.len() - i,
        {
            let task = &raw[i];
            let static_poll: u64 = task.poll_runtime.wrapping_sub(load_bias);
            if let Some(type_path) = self.facts.future_type_for(static_poll) {
                if layouts.is_coroutine(type_path) {
                    let ghost before = roots.deep_view();
                    let id: u64 = roots.len() as u64 + 1;
                    let root = TaskRoot::new(id, task.future, type_path).with_header(task.header);
                    let ghost added = root.deep_view();
                    roots.push(root);
                    assert(roots.deep_view() =~= before.push(added));
                }
            }
            i += 1;
        }
        roots
    }
}

/// Put all of `raw` in their places.
fn put_tasks(tasks: &mut Vec<RawTask>, raw: &Vec<RawTask>)
    ensures
        final(tasks)@ == put_all(old(tasks)@, raw@),
{
    let mut i: usize = 0;
    assert(raw@.take(0) =~= Seq::empty());
    while i < raw.len()
        invariant
            i <= raw.len(),
            tasks@ == put_all(old(tasks)@, raw@.take(i as int)),
        decreases raw.len() - i,
    {
        proof {
            assert(raw@.take(i + 1).drop_last() =~= raw@.take(i as int));
            assert(raw@.take(i + 1).last() == raw@[i as int]);
        }
        put_task(tasks, raw[i]);
        i += 1;
    }
    assert(raw@.take(raw.len() as int) =~= raw@);
}

} // verus!
