//! The resolved layout of one `async fn` coroutine, and the registry of all such
//! layouts in a target binary.
//!
//! rustc compiles an `async fn` to a struct with one variant part. Its
//! discriminant is the artificial `__state` member; each variant holds that
//! state's live locals. A suspend variant's `__awaitee` is the future being
//! awaited; other inline coroutines are the branches of a fan-out.
use std::collections::BTreeMap;

use vstd::prelude::*;

use crate::model::{SourceLocation, SourceLocationSpec};
use crate::text::{self, IntoText};

verus! {

/// Which of rustc's fixed coroutine states a variant is.
#[derive(Debug, Clone, Copy, PartialEq, Eq, Structural)]
pub enum VariantKind {
    /// Constructed but never polled.
    Unresumed,
    /// The future completed and returned a value.
    Returned,
    /// The future panicked.
    Panicked,
    /// Parked at the numbered `.await` point.
    Suspend(u16),
}

impl VariantKind {
    /// The kind that a variant struct's name stands for.
    pub open spec fn of_name(name: Seq<char>) -> Option<VariantKind> {
        if name == "Unresumed"@ {
            Some(VariantKind::Unresumed)
        } else if name == "Returned"@ {
            Some(VariantKind::Returned)
        } else if name == "Panicked"@ {
            Some(VariantKind::Panicked)
        } else if text::starts_with(name, "Suspend"@) {
            match text::unsigned(name.skip(7), 10, 0xffff) {
                Some(n) => Some(VariantKind::Suspend(n as u16)),
                None => None,
            }
        } else {
            None
        }
    }

    /// The variant is a live `.await` point.
    pub open spec fn suspended(self) -> bool {
        self is Suspend
    }

    /// Parse a variant struct's name; `None` for an unrecognized one.
    #[must_use]
    pub fn from_struct_name(name: &str) -> (r: Option<Self>)
        ensures
            r == Self::of_name(name@),
    {
        if text::same(name, "Unresumed") {
            Some(Self::Unresumed)
        } else if text::same(name, "Returned") {
            Some(Self::Returned)
        } else if text::same(name, "Panicked") {
            Some(Self::Panicked)
        } else {
            let chars = text::chars_of(name);
            let whole = chars.as_slice();
            proof {
                reveal_strlit("Suspend");
            }
            if text::begins_with(whole, "Suspend") {
                let end: usize = whole.len();
                let rest = vstd::slice::slice_subrange(whole, 7, end);
                assert(rest@ =~= name@.skip(7));
                match text::parse_unsigned(rest, 10, 0xffff) {
                    Some(n) => Some(Self::Suspend(n as u16)),
                    None => None,
                }
            } else {
                None
            }
        }
    }

    /// Whether the variant is a live `.await` point.
    #[must_use]
    pub fn is_suspend(self) -> (r: bool)
        ensures
            r == self.suspended(),
    {
        match self {
            Self::Suspend(_) => true,
            _ => false,
        }
    }
}

/// A reference from a variant to a child future stored inline within it.
#[derive(Debug, PartialEq, Eq)]
pub struct ChildRef {
    /// Byte offset of the child from the parent coroutine's base.
    pub offset: u64,
    /// Fully-qualified type name of the child.
    pub type_path: String,
}

/// The value of a `ChildRef`.
#[verifier::ext_equal]
pub struct ChildRefSpec {
    pub offset: u64,
    pub type_path: Seq<char>,
}

impl DeepView for ChildRef {
    type V = ChildRefSpec;

    open spec fn deep_view(&self) -> ChildRefSpec {
        ChildRefSpec { offset: self.offset, type_path: self.type_path@ }
    }
}

impl Clone for ChildRef {
    fn clone(&self) -> (r: Self)
        ensures
            r == *self,
    {
        ChildRef { offset: self.offset, type_path: self.type_path.clone() }
    }
}

impl ChildRef {
    /// Construct a child reference.
    #[must_use]
    pub fn new<N: IntoText>(offset: u64, type_path: N) -> (r: Self)
        ensures
            r.deep_view() == (ChildRefSpec { offset, type_path: type_path.text() }),
    {
        Self { offset, type_path: type_path.into_text() }
    }
}

/// One variant of a coroutine's state machine.
#[derive(Debug, Clone, PartialEq, Eq)]
pub struct VariantInfo {
    /// Which fixed rustc state this is.
    pub kind: VariantKind,
    /// Source location of the `.await` this variant parks at, if known.
    pub await_location: Option<SourceLocation>,
    /// The future this variant is directly awaiting, if any.
    pub awaitee: Option<ChildRef>,
    /// Further inline child coroutines (the branches of a `join!`).
    pub children: Vec<ChildRef>,
}

/// The value of a `VariantInfo`.
#[verifier::ext_equal]
pub struct VariantInfoSpec {
    pub kind: VariantKind,
    pub await_location: Option<SourceLocationSpec>,
    pub awaitee: Option<ChildRefSpec>,
    pub children: Seq<ChildRefSpec>,
}

impl DeepView for VariantInfo {
    type V = VariantInfoSpec;

    open spec fn deep_view(&self) -> VariantInfoSpec {
        VariantInfoSpec {
            kind: self.kind,
            await_location: self.await_location.deep_view(),
            awaitee: self.awaitee.deep_view(),
            children: self.children.deep_view(),
        }
    }
}

impl VariantInfoSpec {
    /// A variant with nothing inside.
    pub open spec fn bare(kind: VariantKind) -> VariantInfoSpec {
        VariantInfoSpec { kind, await_location: None, awaitee: None, children: Seq::empty() }
    }
}

impl VariantInfo {
    /// A variant with nothing inside (unresumed, returned, panicked).
    #[must_use]
    pub fn terminal(kind: VariantKind) -> (r: Self)
        ensures
            r.deep_view() == VariantInfoSpec::bare(kind),
    {
        let r = Self { kind, await_location: None, awaitee: None, children: Vec::new() };
        assert(r.children.deep_view() =~= Seq::empty());
        r
    }
}

/// The resolved layout of one coroutine type.
#[derive(Debug, PartialEq, Eq)]
pub struct AsyncFnLayout {
    /// Fully-qualified type name, such as `probe::sleeper::{async_fn_env#0}`.
    pub type_path: String,
    /// Size of the coroutine struct in bytes.
    pub byte_size: u64,
    /// Byte offset of the `__state` discriminant.
    pub discr_offset: u64,
    /// Width of the discriminant in bytes.
    pub discr_size: u8,
    /// Variants keyed by their discriminant value.
    pub variants: BTreeMap<u64, VariantInfo>,
}

/// The value of an `AsyncFnLayout`.
#[verifier::ext_equal]
pub struct AsyncFnLayoutSpec {
    pub type_path: Seq<char>,
    pub byte_size: u64,
    pub discr_offset: u64,
    pub discr_size: u8,
    pub variants: Map<u64, VariantInfoSpec>,
}

impl DeepView for AsyncFnLayout {
    type V = AsyncFnLayoutSpec;

    open spec fn deep_view(&self) -> AsyncFnLayoutSpec {
        AsyncFnLayoutSpec {
            type_path: self.type_path@,
            byte_size: self.byte_size,
            discr_offset: self.discr_offset,
            discr_size: self.discr_size,
            variants: self.variants@.map_values(|v: VariantInfo| v.deep_view()),
        }
    }
}

impl Clone for AsyncFnLayout {
    fn clone(&self) -> (r: Self)
        ensures
            r.deep_view() == self.deep_view(),
    {
        AsyncFnLayout {
            type_path: self.type_path.clone(),
            byte_size: self.byte_size,
            discr_offset: self.discr_offset,
            discr_size: self.discr_size,
            variants: self.variants.clone(),
        }
    }
}

/// The name of the `async fn` that a coroutine type belongs to: the last path
/// component before the `{async_fn_env#N}` marker.
pub open spec fn fn_name_of(type_path: Seq<char>) -> Seq<char> {
    text::after_last(text::before(type_path, "::{async_fn_env"@), "::"@)
}

/// The name of the `async fn` that a coroutine type belongs to.
#[must_use]
pub fn fn_name(type_path: &str) -> (r: String)
    ensures
        r@ == fn_name_of(type_path@),
{
    let chars = text::chars_of(type_path);
    let mark = text::chars_of("::{async_fn_env");
    let sep = text::chars_of("::");
    let head = text::cut_before(chars.as_slice(), mark.as_slice());
    text::text_of(text::cut_after_last(head, sep.as_slice()))
}

impl AsyncFnLayout {
    /// The variant that a discriminant value selects, if any.
    #[must_use]
    pub fn variant_for(&self, discr: u64) -> (r: Option<&VariantInfo>)
        ensures
            match r {
                Some(variant) => self.deep_view().variants.contains_key(discr)
                    && self.deep_view().variants[discr] == variant.deep_view(),
                None => !self.deep_view().variants.contains_key(discr),
            },
    {
        self.variants.get(&discr)
    }

    /// A short display name, such as `sleeper` for
    /// `probe::sleeper::{async_fn_env#0}`.
    #[must_use]
    pub fn short_name(&self) -> (r: String)
        ensures
            r@ == fn_name_of(self.type_path@),
    {
        fn_name(self.type_path.as_str())
    }
}

/// Every coroutine layout of a target binary, keyed by type name.
#[derive(Debug)]
pub struct AsyncLayouts {
    entries: Vec<AsyncFnLayout>,
}

/// The layouts as a map from type names.
spec fn by_name(s: Seq<AsyncFnLayoutSpec>) -> Map<Seq<char>, AsyncFnLayoutSpec>
    decreases s.len(),
{
    if s.len() == 0 {
        Map::empty()
    } else {
        by_name(s.drop_last()).insert(s.last().type_path, s.last())
    }
}

spec fn distinct_names(s: Seq<AsyncFnLayoutSpec>) -> bool {
    forall|i: int, j: int|
        #![trigger s[i], s[j]]
        0 <= i < s.len() && 0 <= j < s.len() && s[i].type_path == s[j].type_path ==> i == j
}

proof fn lemma_by_name(s: Seq<AsyncFnLayoutSpec>)
    requires
        distinct_names(s),
    ensures
        forall|i: int|
            0 <= i < s.len() ==> by_name(s).contains_key((#[trigger] s[i]).type_path) && by_name(
                s,
            )[s[i].type_path] == s[i],
        forall|n: Seq<char>| #[trigger]
            by_name(s).contains_key(n) ==> exists|i: int|
                0 <= i < s.len() && (#[trigger] s[i]).type_path == n,
        by_name(s).dom().finite(),
        by_name(s).dom().len() == s.len(),
    decreases s.len(),
{
    if s.len() > 0 {
        let t = s.drop_last();
        assert(s[s.len() - 1] == s.last());
        assert forall|i: int, j: int|
            #![trigger t[i], t[j]]
            0 <= i < t.len() && 0 <= j < t.len() && t[i].type_path == t[j].type_path implies i
            == j by {
            assert(s[i] == t[i] && s[j] == t[j]);
        }
        lemma_by_name(t);
        assert forall|i: int| 0 <= i < s.len() implies by_name(s).contains_key(
            (#[trigger] s[i]).type_path,
        ) && by_name(s)[s[i].type_path] == s[i] by {
            if i < t.len() {
                assert(t[i] == s[i]);
            }
        }
        assert forall|n: Seq<char>| #[trigger] by_name(s).contains_key(n) implies exists|i: int|
            0 <= i < s.len() && (#[trigger] s[i]).type_path == n by {
            if n != s.last().type_path {
                let i = choose|i: int| 0 <= i < t.len() && (#[trigger] t[i]).type_path == n;
                assert(s[i] == t[i]);
            }
        }
        if by_name(t).contains_key(s.last().type_path) {
            let i = choose|i: int|
                0 <= i < t.len() && (#[trigger] t[i]).type_path == s.last().type_path;
            assert(s[i] == t[i]);
        }
        assert(by_name(s).dom() =~= by_name(t).dom().insert(s.last().type_path));
    }
}

impl DeepView for AsyncLayouts {
    type V = Map<Seq<char>, AsyncFnLayoutSpec>;

    closed spec fn deep_view(&self) -> Map<Seq<char>, AsyncFnLayoutSpec> {
        by_name(self.entries.deep_view())
    }
}

impl Clone for AsyncLayouts {
    fn clone(&self) -> (r: Self)
        ensures
            r.deep_view() == self.deep_view(),
    {
        proof {
            use_type_invariant(self);
        }
        let mut entries: Vec<AsyncFnLayout> = Vec::new();
        let mut i: usize = 0;
        while i < self.entries.len()
            invariant
                i <= self.entries.len(),
                entries.len() == i,
                forall|j: int|
                    0 <= j < i ==> (#[trigger] entries@[j]).deep_view()
                        == self.entries@[j].deep_view(),
            decreases self.entries.len() - i,
        {
            entries.push(self.entries[i].clone());
            i += 1;
        }
        assert(entries.deep_view() =~= self.entries.deep_view());
        AsyncLayouts { entries }
    }
}

impl Default for AsyncLayouts {
    fn default() -> (r: Self)
        ensures
            r.deep_view() == Map::<Seq<char>, AsyncFnLayoutSpec>::empty(),
    {
        AsyncLayouts::new()
    }
}

impl AsyncLayouts {
    #[verifier::type_invariant]
    closed spec fn is_keyed(self) -> bool {
        distinct_names(self.entries.deep_view())
    }

    /// Where a name stands among the entries.
    fn position(&self, type_path: &str) -> (r: Option<usize>)
        ensures
            match r {
                Some(i) => i < self.entries.len() && self.entries@[i as int].type_path@
                    == type_path@,
                None => forall|i: int|
                    0 <= i < self.entries.len() ==> (#[trigger] self.entries@[i]).type_path@
                        != type_path@,
            },
    {
        let mut i: usize = 0;
        while i < self.entries.len()
            invariant
                i <= self.entries.len(),
                forall|j: int|
                    0 <= j < i ==> (#[trigger] self.entries@[j]).type_path@ != type_path@,
            decreases self.entries.len() - i,
        {
            if text::same(self.entries[i].type_path.as_str(), type_path) {
                return Some(i);
            }
            i += 1;
        }
        None
    }

    /// An empty registry.
    #[must_use]
    pub fn new() -> (r: Self)
        ensures
            r.deep_view() == Map::<Seq<char>, AsyncFnLayoutSpec>::empty(),
    {
        let r = AsyncLayouts { entries: Vec::new() };
        assert(r.entries.deep_view() =~= Seq::empty());
        r
    }

    /// Insert a layout under its type name, replacing any other of that name.
    pub fn insert(&mut self, layout: AsyncFnLayout)
        ensures
            final(self).deep_view() == old(self).deep_view().insert(
                layout.type_path@,
                layout.deep_view(),
            ),
            old(self).deep_view().dom().finite(),
            final(self).deep_view().dom().len() == old(self).deep_view().dom().len() + (if old(
                self,
            ).deep_view().contains_key(layout.type_path@) {
                0int
            } else {
                1int
            }),
    {
        proof {
            use_type_invariant(&*self);
            lemma_by_name(self.entries.deep_view());
        }
        let ghost before = self.entries.deep_view();
        let ghost added = layout.deep_view();
        let at = self.position(layout.type_path.as_str());
        let mut entries: Vec<AsyncFnLayout> = Vec::new();
        std::mem::swap(&mut entries, &mut self.entries);
        match at {
            Some(i) => {
                entries.set(i, layout);
                proof {
                    let s = entries.deep_view();
                    assert(s =~= before.update(i as int, added));
                    assert(before[i as int].type_path == added.type_path);
                    assert forall|a: int, b: int|
                        #![trigger s[a], s[b]]
                        0 <= a < s.len() && 0 <= b < s.len() && s[a].type_path
                            == s[b].type_path implies a == b by {
                        assert(before[a].type_path == s[a].type_path);
                        assert(before[b].type_path == s[b].type_path);
                    }
                    lemma_by_name(before);
                    lemma_by_name(s);
                    lemma_replaced(before, s, i as int);
                }
            },
            None => {
                entries.push(layout);
                proof {
                    let s = entries.deep_view();
                    assert(s =~= before.push(added));
                    assert(s.drop_last() =~= before);
                    assert forall|a: int, b: int|
                        #![trigger s[a], s[b]]
                        0 <= a < s.len() && 0 <= b < s.len() && s[a].type_path
                            == s[b].type_path implies a == b by {
                        if a < before.len() {
                            assert(before[a] == s[a]);
                        }
                        if b < before.len() {
                            assert(before[b] == s[b]);
                        }
                    }
                }
            },
        }
        self.entries = entries;
    }

    /// Look up a coroutine layout by type name.
    #[must_use]
    pub fn get(&self, type_path: &str) -> (r: Option<&AsyncFnLayout>)
        ensures
            match r {
                Some(layout) => self.deep_view().contains_key(type_path@)
                    && self.deep_view()[type_path@] == layout.deep_view(),
                None => !self.deep_view().contains_key(type_path@),
            },
    {
        proof {
            use_type_invariant(self);
            lemma_by_name(self.entries.deep_view());
        }
        match self.position(type_path) {
            Some(i) => {
                assert(self.entries.deep_view()[i as int].type_path == type_path@);
                Some(&self.entries[i])
            },
            None => {
                proof {
                    let s = self.entries.deep_view();
                    assert forall|i: int| 0 <= i < s.len() implies (#[trigger] s[i]).type_path
                        != type_path@ by {
                        assert(self.entries@[i].type_path@ != type_path@);
                    }
                }
                None
            },
        }
    }

    /// Whether a type name refers to a known coroutine.
    #[must_use]
    pub fn is_coroutine(&self, type_path: &str) -> (r: bool)
        ensures
            r == self.deep_view().contains_key(type_path@),
    {
        match self.get(type_path) {
            Some(_) => true,
            None => false,
        }
    }

    /// Number of coroutine layouts.
    #[must_use]
    pub fn len(&self) -> (r: usize)
        ensures
            self.deep_view().dom().finite(),
            r == self.deep_view().dom().len(),
    {
        proof {
            use_type_invariant(self);
            lemma_by_name(self.entries.deep_view());
        }
        self.entries.len()
    }

    /// Whether there are no coroutine layouts.
    #[must_use]
    pub fn is_empty(&self) -> (r: bool)
        ensures
            r == (self.deep_view().dom() == Set::<Seq<char>>::empty()),
    {
        proof {
            use_type_invariant(self);
            lemma_by_name(self.entries.deep_view());
        }
        self.entries.len() == 0
    }
}

/// A layout that is inserted is found under its name, whatever stood there; what
/// is found under other names stays; and there is one more layout, unless one of
/// that name was there.
pub proof fn law_an_insertion_adds_or_replaces(
    layouts: Map<Seq<char>, AsyncFnLayoutSpec>,
    layout: AsyncFnLayoutSpec,
    other: Seq<char>,
)
    requires
        layouts.dom().finite(),
    ensures
        ({
            let after = layouts.insert(layout.type_path, layout);
            &&& after.contains_key(layout.type_path) && after[layout.type_path] == layout
            &&& other != layout.type_path ==> (after.contains_key(other) <==> layouts.contains_key(
                other,
            )) && (layouts.contains_key(other) ==> after[other] == layouts[other])
            &&& after.dom().finite()
            &&& after.dom().len() == layouts.dom().len() + (if layouts.contains_key(
                layout.type_path,
            ) {
                0int
            } else {
                1int
            })
        }),
{
    let after = layouts.insert(layout.type_path, layout);
    assert(after.dom() =~= layouts.dom().insert(layout.type_path));
}

proof fn lemma_replaced(before: Seq<AsyncFnLayoutSpec>, s: Seq<AsyncFnLayoutSpec>, i: int)
    requires
        0 <= i < before.len(),
        s == before.update(i, s[i]),
        before[i].type_path == s[i].type_path,
        distinct_names(before),
        distinct_names(s),
    ensures
        by_name(s) == by_name(before).insert(s[i].type_path, s[i]),
{
    lemma_by_name(before);
    lemma_by_name(s);
    let want = by_name(before).insert(s[i].type_path, s[i]);
    assert forall|n: Seq<char>| by_name(s).contains_key(n) <==> want.contains_key(n) by {
        if by_name(s).contains_key(n) {
            let k = choose|k: int| 0 <= k < s.len() && (#[trigger] s[k]).type_path == n;
            assert(by_name(before).contains_key(before[k].type_path));
        }
        if by_name(before).contains_key(n) {
            let k = choose|k: int| 0 <= k < before.len() && (#[trigger] before[k]).type_path == n;
            assert(by_name(s).contains_key(s[k].type_path));
        }
        assert(by_name(s).contains_key(s[i].type_path));
    }
    assert forall|n: Seq<char>| #[trigger] by_name(s).contains_key(n) implies by_name(s)[n]
        == want[n] by {
        let k = choose|k: int| 0 <= k < s.len() && (#[trigger] s[k]).type_path == n;
        if k != i {
            assert(s[k] == before[k]);
            assert(by_name(before)[before[k].type_path] == before[k]);
        }
    }
    assert(by_name(s) =~= want);
}

} // verus!
