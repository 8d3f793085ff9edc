//! The qualified names of the types of a unit, and which of them are
//! coroutines.
use vstd::prelude::*;

use crate::debug_info::unit::{
    self, EntrySpec, Unit, TAG_ENUMERATION_TYPE, TAG_NAMESPACE, TAG_STRUCTURE_TYPE,
};
use crate::error::outcome;
use crate::text;

verus! {

/// A local name within a path of enclosing names.
pub open spec fn qualified(path: Seq<Seq<char>>, name: Seq<char>) -> Seq<char>
    decreases path.len(),
{
    if path.len() == 0 {
        name
    } else {
        path[0] + "::"@ + qualified(path.skip(1), name)
    }
}

/// Join a path of enclosing names and a local name.
#[must_use]
pub fn qualify(path: &[String], name: &str) -> (r: String)
    ensures
        r@ == qualified(path.deep_view(), name@),
{
    let ghost p = path.deep_view();
    let mut out = String::new();
    let mut i: usize = 0;
    assert(p.skip(0) =~= p);
    while i < path.len()
        invariant
            i <= path.len(),
            p == path.deep_view(),
            qualified(p, name@) == out@ + qualified(p.skip(i as int), name@),
        decreases path.len() - i,
    {
        let ghost rest = p.skip(i as int);
        let ghost done = out@;
        out.append(path[i].as_str());
        out.append("::");
        proof {
            assert(rest[0] == path@[i as int]@);
            assert(rest.skip(1) =~= p.skip(i + 1));
            assert(done + (rest[0] + "::"@ + qualified(p.skip(i + 1), name@)) =~= out@ + qualified(
                p.skip(i + 1),
                name@,
            ));
        }
        i += 1;
    }
    out.append(name);
    out
}

/// A tag of a type that layouts are read of.
pub open spec fn is_type(tag: u16) -> bool {
    tag == TAG_STRUCTURE_TYPE || tag == TAG_ENUMERATION_TYPE
}

/// The entry's name encloses those below it.
pub open spec fn opens_scope(e: EntrySpec) -> bool {
    (e.tag == TAG_NAMESPACE || is_type(e.tag)) && (e.name matches Ok(Some(_)))
}

/// The name of an entry that has one.
pub open spec fn local_name(e: EntrySpec) -> Seq<char> {
    e.name->Ok_0->Some_0
}

/// The namespaces and types that enclose the entry at `k`, outermost first:
/// those that enclose the one before it, and that one itself, as far as they
/// are less deep.
pub open spec fn scopes(s: Seq<EntrySpec>, k: int) -> Seq<int>
    decreases k,
{
    if k <= 0 {
        Seq::empty()
    } else {
        candidates(s, k).filter(|j: int| s[j].depth < s[k].depth)
    }
}

/// The entries that may enclose the entry at `k`.
pub open spec fn candidates(s: Seq<EntrySpec>, k: int) -> Seq<int>
    decreases k, 0int,
    when k > 0
{
    if opens_scope(s[k - 1]) {
        scopes(s, k - 1).push(k - 1)
    } else {
        scopes(s, k - 1)
    }
}

/// The names of what encloses the entry at `k`.
pub open spec fn path_of(s: Seq<EntrySpec>, k: int) -> Seq<Seq<char>> {
    scopes(s, k).map_values(|j: int| local_name(s[j]))
}

/// The qualified name of the type at `k`, if it is a named type.
pub open spec fn full_name(s: Seq<EntrySpec>, k: int) -> Option<Seq<char>> {
    if is_type(s[k].tag) && (s[k].name matches Ok(Some(_))) {
        Some(qualified(path_of(s, k), local_name(s[k])))
    } else {
        None
    }
}

/// The entry is a coroutine: a type whose own name starts as rustc names the
/// environment of an `async fn` or an async block. (Its being mentioned in the
/// generic arguments of another type does not count.)
pub open spec fn is_coroutine(e: EntrySpec) -> bool {
    is_type(e.tag) && (e.name matches Ok(Some(name)) && (text::starts_with(
        name,
        "{async_fn_env#"@,
    ) || text::starts_with(name, "{async_block_env#"@)))
}

/// The qualified name of the type at an offset, if a named type starts there.
pub open spec fn name_at(s: Seq<EntrySpec>, offset: u64) -> Option<Seq<char>> {
    match unit::position(s, offset) {
        Some(k) if k < unit::root_end(s) => full_name(s, k as int),
        _ => None,
    }
}

/// A coroutine starts at an offset.
pub open spec fn coroutine_at(s: Seq<EntrySpec>, offset: u64) -> bool {
    unit::position(s, offset) matches Some(k) && k < unit::root_end(s) && is_coroutine(s[k as int])
}

/// The first name from `from` on that cannot be read.
pub open spec fn unreadable_name(s: Seq<EntrySpec>, from: int, end: int) -> Option<Seq<char>>
    decreases end - from,
{
    if from >= end {
        None
    } else {
        match s[from].name {
            Err(e) => Some(e),
            Ok(_) => unreadable_name(s, from + 1, end),
        }
    }
}

/// The qualified names of the unit's types by position, or why some name cannot
/// be read.
pub open spec fn index_of(s: Seq<EntrySpec>) -> Result<Seq<Option<Seq<char>>>, Seq<char>> {
    match unreadable_name(s, 0, unit::root_end(s)) {
        Some(e) => Err(e),
        None => Ok(Seq::new(unit::root_end(s) as nat, |k: int| full_name(s, k))),
    }
}

proof fn lemma_filter_is_prefix(a: Seq<int>, keep: spec_fn(int) -> bool, n: int)
    requires
        0 <= n <= a.len(),
        forall|i: int| 0 <= i < n ==> keep(#[trigger] a[i]),
        forall|i: int| n <= i < a.len() ==> !keep(#[trigger] a[i]),
    ensures
        a.filter(keep) == a.take(n),
    decreases a.len(),
{
    reveal(Seq::filter);
    if a.len() > 0 {
        let b = a.drop_last();
        assert(a.last() == a[a.len() - 1]);
        if n == a.len() {
            lemma_filter_is_prefix(b, keep, n - 1);
            assert(a.take(n) =~= b.take(n - 1).push(a.last()));
        } else {
            lemma_filter_is_prefix(b, keep, n);
            assert(a.take(n) =~= b.take(n));
        }
    } else {
        assert(a.take(n) =~= a);
    }
}

spec fn is_rising(s: Seq<EntrySpec>, a: Seq<int>, k: int) -> bool {
    &&& forall|i: int|
        0 <= i < a.len() ==> 0 <= (#[trigger] a[i]) < k && opens_scope(s[a[i]])
    &&& forall|i: int, j: int|
        0 <= i < j < a.len() ==> s[#[trigger] a[i]].depth < s[#[trigger] a[j]].depth
}

/// What encloses an entry gets deeper from scope to scope, and is less deep
/// than the entry.
proof fn lemma_scopes_rise(s: Seq<EntrySpec>, k: int)
    requires
        0 <= k < s.len(),
    ensures
        is_rising(s, scopes(s, k), k),
        forall|i: int|
            0 <= i < scopes(s, k).len() ==> s[#[trigger] scopes(s, k)[i]].depth < s[k].depth,
    decreases k,
{
    if k > 0 {
        lemma_scopes_rise(s, k - 1);
        let a = candidates(s, k);
        let keep = |j: int| s[j].depth < s[k].depth;
        assert(is_rising(s, a, k));
        let n = prefix_kept(s, a, s[k].depth, 0);
        lemma_prefix_kept(s, a, s[k].depth, 0);
        assert forall|i: int| n <= i < a.len() implies !keep(#[trigger] a[i]) by {
            if i > n {
                assert(s[a[n]].depth < s[a[i]].depth);
            }
        }
        lemma_filter_is_prefix(a, keep, n);
        assert(scopes(s, k) == a.take(n));
    }
}

spec fn prefix_kept(s: Seq<EntrySpec>, a: Seq<int>, depth: i64, from: int) -> int
    decreases a.len() - from,
{
    if from >= a.len() || s[a[from]].depth >= depth {
        from
    } else {
        prefix_kept(s, a, depth, from + 1)
    }
}

proof fn lemma_prefix_kept(s: Seq<EntrySpec>, a: Seq<int>, depth: i64, from: int)
    requires
        0 <= from <= a.len(),
        forall|i: int| 0 <= i < from ==> s[#[trigger] a[i]].depth < depth,
    ensures
        from <= prefix_kept(s, a, depth, from) <= a.len(),
        forall|i: int|
            0 <= i < prefix_kept(s, a, depth, from) ==> s[#[trigger] a[i]].depth < depth,
        prefix_kept(s, a, depth, from) < a.len() ==> s[a[prefix_kept(s, a, depth, from)]].depth
            >= depth,
    decreases a.len() - from,
{
    if from >= a.len() || s[a[from]].depth >= depth {
    } else {
        lemma_prefix_kept(s, a, depth, from + 1);
    }
}

proof fn lemma_unreadable(s: Seq<EntrySpec>, from: int, k: int, end: int)
    requires
        from <= k < end,
        unreadable_name(s, from, k) is None,
        s[k].name is Err,
    ensures
        unreadable_name(s, from, end) == Some(s[k].name->Err_0),
    decreases k - from,
{
    if from < k {
        lemma_unreadable(s, from + 1, k, end);
    }
}

proof fn lemma_readable(s: Seq<EntrySpec>, from: int, k: int)
    requires
        from <= k,
        unreadable_name(s, from, k) is None,
        s[k].name is Ok,
    ensures
        unreadable_name(s, from, k + 1) is None,
    decreases k - from,
{
    reveal_with_fuel(unreadable_name, 2);
    if from < k {
        lemma_readable(s, from + 1, k);
    }
}

/// Whether the entry's tag is that of a type.
fn is_type_tag(tag: u16) -> (r: bool)
    ensures
        r == is_type(tag),
{
    tag == TAG_STRUCTURE_TYPE || tag == TAG_ENUMERATION_TYPE
}

/// Whether the name starts as rustc names a coroutine.
fn names_coroutine(name: &str) -> (r: bool)
    ensures
        r == (text::starts_with(name@, "{async_fn_env#"@) || text::starts_with(
            name@,
            "{async_block_env#"@,
        )),
{
    let chars = text::chars_of(name);
    text::begins_with(chars.as_slice(), "{async_fn_env#") || text::begins_with(
        chars.as_slice(),
        "{async_block_env#",
    )
}

/// The index of a unit: the qualified name of each named type below the root,
/// by position.
pub struct UnitIndex {
    names: Vec<Option<String>>,
}

impl DeepView for UnitIndex {
    type V = Seq<Option<Seq<char>>>;

    closed spec fn deep_view(&self) -> Seq<Option<Seq<char>>> {
        self.names.deep_view()
    }
}

/// Build the name index of a unit.
pub fn build_index(u: &Unit) -> (r: Result<UnitIndex, String>)
    ensures
        outcome(r) == index_of(u.deep_view().entries),
{
    let ghost s = u.deep_view().entries;
    let end: usize = if u.len() == 0 {
        0
    } else {
        u.end_below(0, u.len())
    };
    let mut names: Vec<Option<String>> = Vec::new();
    // The scopes that are open, outermost first: how deep each is, and its name.
    let mut depths: Vec<i64> = Vec::new();
    let mut path: Vec<String> = Vec::new();
    let ghost mut open: Seq<int> = Seq::empty();
    let mut k: usize = 0;
    while k < end
        invariant
            k <= end <= s.len(),
            s == u.deep_view().entries,
            end == unit::root_end(s),
            unreadable_name(s, 0, k as int) is None,
            names.len() == k,
            forall|i: int|
                0 <= i < k ==> (#[trigger] names@[i]).deep_view() == full_name(s, i),
            open == (if k == 0 {
                Seq::empty()
            } else {
                candidates(s, k as int)
            }),
            depths.len() == open.len(),
            path.len() == open.len(),
            is_rising(s, open, k as int),
            forall|i: int|
                0 <= i < open.len() ==> (#[trigger] depths@[i]) == s[open[i]].depth,
            forall|i: int|
                0 <= i < open.len() ==> (#[trigger] path@[i])@ == local_name(s[open[i]]),
        decreases end - k,
    {
        let entry = u.entry(k);
        let ghost a = open;
        while depths.len() > 0 && depths[depths.len() - 1] >= entry.depth
            invariant
                k < end <= s.len(),
                entry.deep_view() == s[k as int],
                is_rising(s, a, k as int),
                open.len() <= a.len(),
                open == a.take(open.len() as int),
                depths.len() == open.len(),
                path.len() == open.len(),
                forall|i: int|
                    0 <= i < open.len() ==> (#[trigger] depths@[i]) == s[open[i]].depth,
                forall|i: int|
                    0 <= i < open.len() ==> (#[trigger] path@[i])@ == local_name(s[open[i]]),
                forall|i: int|
                    open.len() <= i < a.len() ==> s[#[trigger] a[i]].depth >= s[k as int].depth,
            decreases depths.len(),
        {
            let ghost was = open;
            let _ = depths.pop();
            let _ = path.pop();
            proof {
                open = was.drop_last();
                assert(open =~= a.take(open.len() as int));
                assert(was[was.len() - 1] == a[was.len() - 1]);
                assert forall|i: int| 0 <= i < open.len() implies (#[trigger] depths@[i])
                    == s[open[i]].depth by {
                    assert(open[i] == was[i]);
                }
                assert forall|i: int| 0 <= i < open.len() implies (#[trigger] path@[i])@
                    == local_name(s[open[i]]) by {
                    assert(open[i] == was[i]);
                }
            }
        }
        proof {
            let keep = |j: int| s[j].depth < s[k as int].depth;
            let n = open.len() as int;
            assert forall|i: int| 0 <= i < n implies keep(#[trigger] a[i]) by {
                assert(open[i] == a[i]);
                assert(depths@[n - 1] < s[k as int].depth);
                if i < n - 1 {
                    assert(s[a[i]].depth < s[a[n - 1]].depth);
                }
                assert(open[n - 1] == a[n - 1]);
            }
            if k > 0 {
                lemma_filter_is_prefix(a, keep, n);
                assert(scopes(s, k as int) =~= open);
            }
            assert(path.deep_view() =~= path_of(s, k as int));
        }
        match &entry.name {
            Err(e) => {
                proof {
                    lemma_unreadable(s, 0, k as int, end as int);
                }
                return Err(e.clone());
            },
            Ok(local) => {
                proof {
                    lemma_readable(s, 0, k as int);
                }
                match local {
                    None => {
                        names.push(None);
                    },
                    Some(name) => {
                        let is_type = is_type_tag(entry.tag);
                        if is_type {
                            names.push(Some(qualify(path.as_slice(), name.as_str())));
                        } else {
                            names.push(None);
                        }
                        if is_type || entry.tag == TAG_NAMESPACE {
                            depths.push(entry.depth);
                            path.push(name.clone());
                        }
                    },
                }
            },
        }
        proof {
            let before = open;
            if opens_scope(s[k as int]) {
                open = before.push(k as int);
            }
            assert(scopes(s, k as int) =~= before);
            assert(open == candidates(s, k + 1));
        }
        k += 1;
    }
    assert(names.deep_view() =~= Seq::new(unit::root_end(s) as nat, |k: int| full_name(s, k)));
    Ok(UnitIndex { names })
}

impl UnitIndex {
    /// How many entries stand below the unit's root, the root included.
    pub fn len(&self) -> (r: usize)
        ensures
            r == self.deep_view().len(),
    {
        self.names.len()
    }

    /// Whether there are no entries.
    pub fn is_empty(&self) -> (r: bool)
        ensures
            r == (self.deep_view().len() == 0),
    {
        self.names.len() == 0
    }

    /// The qualified name at a position, if a named type stands there.
    pub fn name(&self, k: usize) -> (r: Option<String>)
        requires
            k < self.deep_view().len(),
        ensures
            r.deep_view() == self.deep_view()[k as int],
    {
        text::clone_optional(&self.names[k])
    }

    /// The qualified name of the type at an offset, if a named type starts
    /// there.
    pub fn find_name(&self, u: &Unit, offset: u64) -> (r: Option<String>)
        requires
            index_of(u.deep_view().entries) == Ok::<_, Seq<char>>(self.deep_view()),
        ensures
            r.deep_view() == name_at(u.deep_view().entries, offset),
    {
        proof {
            unit::lemma_root_end(u.deep_view().entries);
        }
        let ghost s = u.deep_view().entries;
        assert(self.deep_view() == Seq::new(unit::root_end(s) as nat, |k: int| full_name(s, k)));
        match u.find(offset) {
            Some(k) if k < self.len() => self.name(k),
            _ => None,
        }
    }
}

/// Whether the entry at a position is a coroutine.
pub fn stands_for_coroutine(u: &Unit, k: usize) -> (r: bool)
    requires
        k < u.deep_view().entries.len(),
    ensures
        r == is_coroutine(u.deep_view().entries[k as int]),
{
    let entry = u.entry(k);
    if is_type_tag(entry.tag) {
        match &entry.name {
            Ok(Some(name)) => names_coroutine(name.as_str()),
            _ => false,
        }
    } else {
        false
    }
}

/// Whether a coroutine starts at an offset.
pub fn find_coroutine(u: &Unit, index: &UnitIndex, offset: u64) -> (r: bool)
    requires
        index_of(u.deep_view().entries) == Ok::<_, Seq<char>>(index.deep_view()),
    ensures
        r == coroutine_at(u.deep_view().entries, offset),
{
    proof {
        unit::lemma_root_end(u.deep_view().entries);
    }
    match u.find(offset) {
        Some(k) => k < index.len() && stands_for_coroutine(u, k),
        None => false,
    }
}

} // verus!
