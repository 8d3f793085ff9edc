//! Laws of how the layouts of coroutines are recovered from debug information:
//! what a type is called, what its variants say, and which layouts a binary
//! gives.
use vstd::prelude::*;

use super::decode::LayoutMap;
use super::dwarf::members::{self, MemberSpec};
use super::dwarf::{self, names, variants, DwarfExtractSpec, Findings};
use super::error::AsyncDecodeErrorSpec;
use super::layout::{AsyncFnLayoutSpec, ChildRefSpec, VariantInfoSpec, VariantKind};
use crate::debug_info::laws as entry_laws;
use crate::debug_info::object_file;
use crate::debug_info::unit::{self, EntrySpec, UnitSpec};
use crate::text;

verus! {

// ---------------------------------------------------------------------------
// Names
// ---------------------------------------------------------------------------

/// The entry is a named namespace (tag 0x39), structure (0x13) or enumeration
/// (0x04).
pub open spec fn is_scope(e: EntrySpec, name: Seq<char>) -> bool {
    (e.tag == 0x39 || e.tag == 0x13 || e.tag == 0x04) && e.name == Ok::<_, Seq<char>>(Some(name))
}

/// The entries that enclose another are all the scopes that it stands below, the
/// outermost first.
pub proof fn law_every_scope_above_encloses(s: Seq<EntrySpec>, k: int)
    requires
        0 <= k < s.len(),
    ensures
        forall|j: int|
            #![trigger names::scopes(s, k).contains(j)]
            names::scopes(s, k).contains(j) <==> 0 <= j < k && entry_laws::is_below(s, j, k)
                && exists|name: Seq<char>| is_scope(s[j], name),
        forall|i: int, j: int|
            0 <= i < j < names::scopes(s, k).len() ==> (#[trigger] names::scopes(s, k)[i]) < (
            #[trigger] names::scopes(s, k)[j]),
    decreases k,
{
    if k > 0 {
        law_every_scope_above_encloses(s, k - 1);
        let before = names::scopes(s, k - 1);
        let some = names::candidates(s, k);
        let keep = |j: int| s[j].depth < s[k].depth;
        let all = some.filter(keep);
        assert(names::scopes(s, k) == all);
        assert forall|j: int| some.contains(j) <==> before.contains(j) || (j == k - 1
            && names::opens_scope(s[j])) by {
            if before.contains(j) {
                let i = choose|i: int| 0 <= i < before.len() && before[i] == j;
                assert(some[i] == j);
            }
            if names::opens_scope(s[k - 1]) {
                assert(some.last() == k - 1);
            }
            if some.contains(j) {
                let i = choose|i: int| 0 <= i < some.len() && some[i] == j;
                if i < before.len() {
                    assert(before[i] == j);
                }
            }
        }
        assert forall|i: int, j: int| 0 <= i < j < some.len() implies (#[trigger] some[i]) < (
        #[trigger] some[j]) by {
            assert(i < before.len());
            assert(before.contains(before[i]));
        }
        lemma_filter_rises(some, keep);
        assert forall|j: int| all.contains(j) <==> 0 <= j < k && entry_laws::is_below(s, j, k)
            && exists|name: Seq<char>| is_scope(s[j], name) by {
            if 0 <= j < k - 1 {
                if entry_laws::is_below(s, j, k - 1) && s[j].depth < s[k].depth {
                    assert forall|i: int| j < i <= k implies (#[trigger] s[i]).depth
                        > s[j].depth by {
                        if i <= k - 1 {
                        }
                    }
                }
                if entry_laws::is_below(s, j, k) {
                    assert(s[k].depth > s[j].depth);
                    assert(entry_laws::is_below(s, j, k - 1));
                }
            }
            if j == k - 1 {
                if names::opens_scope(s[j]) {
                    assert(is_scope(s[j], names::local_name(s[j])));
                }
                if s[j].depth < s[k].depth {
                    assert(entry_laws::is_below(s, j, k));
                }
                if entry_laws::is_below(s, j, k) {
                    assert(s[k].depth > s[j].depth);
                }
            }
            assert(all.contains(j) <==> some.contains(j) && keep(j));
        }
    }
}

proof fn lemma_filter_rises(s: Seq<int>, keep: spec_fn(int) -> bool)
    requires
        forall|i: int, j: int| 0 <= i < j < s.len() ==> (#[trigger] s[i]) < (#[trigger] s[j]),
    ensures
        forall|i: int, j: int|
            0 <= i < j < s.filter(keep).len() ==> (#[trigger] s.filter(keep)[i]) < (
            #[trigger] s.filter(keep)[j]),
        forall|x: int|
            #![trigger s.filter(keep).contains(x)]
            #![trigger s.contains(x)]
            s.filter(keep).contains(x) <==> s.contains(x) && keep(x),
    decreases s.len(),
{
    reveal(Seq::filter);
    if s.len() > 0 {
        let t = s.drop_last();
        assert forall|i: int, j: int| 0 <= i < j < t.len() implies (#[trigger] t[i]) < (
        #[trigger] t[j]) by {
            assert(s[i] < s[j]);
        }
        lemma_filter_rises(t, keep);
        let (a, b) = (t.filter(keep), s.filter(keep));
        assert forall|x: int| s.contains(x) <==> t.contains(x) || x == s.last() by {
            if t.contains(x) {
                let i = choose|i: int| 0 <= i < t.len() && t[i] == x;
                assert(s[i] == x);
            }
            if s.contains(x) {
                let i = choose|i: int| 0 <= i < s.len() && s[i] == x;
                if i < t.len() {
                    assert(t[i] == x);
                }
            }
            assert(s[s.len() - 1] == s.last());
        }
        if keep(s.last()) {
            assert(b == a.push(s.last()));
            assert forall|x: int| b.contains(x) <==> a.contains(x) || x == s.last() by {
                if a.contains(x) {
                    let i = choose|i: int| 0 <= i < a.len() && a[i] == x;
                    assert(b[i] == x);
                }
                assert(b[a.len() as int] == s.last());
                if b.contains(x) {
                    let i = choose|i: int| 0 <= i < b.len() && b[i] == x;
                    if i < a.len() {
                        assert(a[i] == x);
                    }
                }
            }
            assert forall|i: int, j: int| 0 <= i < j < b.len() implies (#[trigger] b[i]) < (
            #[trigger] b[j]) by {
                assert(b[i] == a[i]);
                if j == a.len() {
                    assert(a.contains(a[i]));
                    let m = choose|m: int| 0 <= m < t.len() && t[m] == a[i];
                    assert(s[m] < s[s.len() - 1]);
                } else {
                    assert(b[j] == a[j]);
                }
            }
        } else {
            assert(b == a);
        }
    }
}

/// A name is qualified from the innermost scope outwards: that scope's name, two
/// colons, and the name itself are one name within the other scopes.
pub proof fn law_scopes_qualify_inside_out(
    path: Seq<Seq<char>>,
    innermost: Seq<char>,
    name: Seq<char>,
)
    ensures
        names::qualified(Seq::empty(), name) == name,
        names::qualified(path.push(innermost), name) == names::qualified(
            path,
            innermost + seq![':', ':'] + name,
        ),
    decreases path.len(),
{
    reveal_strlit("::");
    assert("::"@ =~= seq![':', ':']);
    let whole = path.push(innermost);
    if path.len() == 0 {
        assert(whole.skip(1) =~= Seq::empty());
    } else {
        law_scopes_qualify_inside_out(path.skip(1), innermost, name);
        assert(whole.skip(1) =~= path.skip(1).push(innermost));
        assert(whole[0] == path[0]);
    }
}

/// A type has a full name if, and only if, it is a structure (tag 0x13) or an
/// enumeration (0x04) with a name of its own: that name, within those of what
/// encloses it.
pub proof fn law_a_named_type_has_a_full_name(s: Seq<EntrySpec>, k: int)
    requires
        0 <= k < s.len(),
    ensures
        names::full_name(s, k) is Some <==> (s[k].tag == 0x13 || s[k].tag == 0x04) && (
        s[k].name matches Ok(Some(_))),
        names::full_name(s, k) matches Some(full) ==> {
            &&& s[k].name matches Ok(Some(name))
            &&& full == names::qualified(names::path_of(s, k), name)
            &&& names::path_of(s, k).len() == names::scopes(s, k).len()
            &&& forall|i: int|
                0 <= i < names::scopes(s, k).len() ==> is_scope(
                    s[#[trigger] names::scopes(s, k)[i]],
                    names::path_of(s, k)[i],
                )
        },
{
    law_every_scope_above_encloses(s, k);
    let all = names::scopes(s, k);
    assert forall|i: int| 0 <= i < all.len() implies is_scope(
        s[#[trigger] all[i]],
        names::path_of(s, k)[i],
    ) by {
        assert(all.contains(all[i]));
        let name = choose|name: Seq<char>| is_scope(s[all[i]], name);
        assert(is_scope(s[all[i]], name));
    }
}

/// The name is the start and some rest.
pub open spec fn begins(name: Seq<char>, start: Seq<char>) -> bool {
    exists|rest: Seq<char>| name == #[trigger] (start + rest)
}

/// A type is a coroutine if, and only if, it is a structure or an enumeration
/// whose own name starts with that of the environment of an async function or
/// an async block.
pub proof fn law_a_coroutine_goes_by_its_own_name(e: EntrySpec, name: Seq<char>)
    requires
        e.name == Ok::<_, Seq<char>>(Some(name)),
    ensures
        names::is_coroutine(e) <==> (e.tag == 0x13 || e.tag == 0x04) && (begins(
            name,
            "{async_fn_env#"@,
        ) || begins(name, "{async_block_env#"@)),
{
    lemma_begins(name, "{async_fn_env#"@);
    lemma_begins(name, "{async_block_env#"@);
}

proof fn lemma_begins(name: Seq<char>, start: Seq<char>)
    ensures
        text::starts_with(name, start) <==> begins(name, start),
{
    if text::starts_with(name, start) {
        let n = start.len() as int;
        assert(name.subrange(0, n) == start);
        assert(name =~= start + name.skip(n));
    }
    if begins(name, start) {
        let rest = choose|rest: Seq<char>| name == #[trigger] (start + rest);
        assert(name.subrange(0, start.len() as int) =~= start);
    }
}

// ---------------------------------------------------------------------------
// Variants
// ---------------------------------------------------------------------------

/// A coroutine of that name lies at an offset within the members, some of whose
/// types are looked into, no more than `left` deep: a member is one, or holds
/// one and is none itself.
pub open spec fn holds(
    u: UnitSpec,
    all: Seq<MemberSpec>,
    base: u64,
    left: nat,
    child: ChildRefSpec,
) -> bool
    decreases left,
{
    left > 0 && exists|i: int|
        0 <= i < all.len() && is_or_holds(u, #[trigger] all[i], base, left, child)
}

/// The member at its place from `base` is that coroutine, or it is none and
/// holds it.
pub open spec fn is_or_holds(
    u: UnitSpec,
    m: MemberSpec,
    base: u64,
    left: nat,
    child: ChildRefSpec,
) -> bool
    decreases left, 0nat,
    when left > 0
{
    let at = base.wrapping_add(m.offset);
    if names::coroutine_at(u.entries, m.type_ref) {
        child.offset == at && names::name_at(u.entries, m.type_ref) == Some(child.type_path)
    } else {
        members::struct_at(u, m.type_ref) is Ok && holds(
            u,
            members::struct_at(u, m.type_ref)->Ok_0.members,
            at,
            (left - 1) as nat,
            child,
        )
    }
}

/// The inline coroutines among some members are all that these hold, but for
/// the one at `skip`.
pub proof fn law_every_coroutine_held_is_a_child(
    u: UnitSpec,
    all: Seq<MemberSpec>,
    base: u64,
    skip: Option<u64>,
    left: nat,
    child: ChildRefSpec,
)
    requires
        variants::member_coroutines(u, all, base, skip, left) is Ok,
    ensures
        variants::member_coroutines(u, all, base, skip, left)->Ok_0.contains(child) <==> holds(
            u,
            all,
            base,
            left,
            child,
        ) && skip != Some(child.offset),
    decreases left, all.len(),
{
    let found = variants::member_coroutines(u, all, base, skip, left)->Ok_0;
    if all.len() == 0 {
        assert(!found.contains(child));
    } else {
        let less = all.drop_last();
        let m = all.last();
        let at = base.wrapping_add(m.offset);
        law_every_coroutine_held_is_a_child(u, less, base, skip, left, child);
        let before = variants::member_coroutines(u, less, base, skip, left)->Ok_0;
        let more = variants::inline_coroutines(u, m.type_ref, at, skip, left)->Ok_0;
        assert(found == before + more);
        lemma_contains_sum(before, more, child);
        if left > 0 {
            if names::coroutine_at(u.entries, m.type_ref) {
                if more.len() > 0 {
                    assert(more[0] == more[0]);
                    assert(more.contains(child) <==> child == more[0]) by {
                        assert(more.len() == 1);
                    }
                }
            } else {
                law_every_coroutine_held_is_a_child(
                    u,
                    members::struct_at(u, m.type_ref)->Ok_0.members,
                    at,
                    skip,
                    (left - 1) as nat,
                    child,
                );
            }
            assert(more.contains(child) <==> is_or_holds(u, m, base, left, child) && skip != Some(
                child.offset,
            ));
            if holds(u, less, base, left, child) {
                let i = choose|i: int|
                    0 <= i < less.len() && is_or_holds(u, #[trigger] less[i], base, left, child);
                assert(all[i] == less[i]);
            }
            if holds(u, all, base, left, child) {
                let i = choose|i: int|
                    0 <= i < all.len() && is_or_holds(u, #[trigger] all[i], base, left, child);
                if i < less.len() {
                    assert(less[i] == all[i]);
                } else {
                    assert(all[i] == m);
                }
            }
            if is_or_holds(u, m, base, left, child) {
                assert(all[all.len() - 1] == m);
            }
        }
    }
}

proof fn lemma_contains_sum<T>(a: Seq<T>, b: Seq<T>, x: T)
    ensures
        (a + b).contains(x) <==> a.contains(x) || b.contains(x),
{
    if a.contains(x) {
        let i = choose|i: int| 0 <= i < a.len() && a[i] == x;
        assert((a + b)[i] == x);
    }
    if b.contains(x) {
        let i = choose|i: int| 0 <= i < b.len() && b[i] == x;
        assert((a + b)[a.len() + i] == x);
    }
    if (a + b).contains(x) {
        let i = choose|i: int| 0 <= i < (a + b).len() && (a + b)[i] == x;
        if i < a.len() {
            assert(a[i] == x);
        } else {
            assert(b[i - a.len()] == x);
        }
    }
}

/// The state awaits that future: its first member `__awaitee` lies there and has
/// a type of that full name.
pub open spec fn awaits(s: Seq<EntrySpec>, all: Seq<MemberSpec>, child: ChildRefSpec) -> bool {
    exists|i: int|
        0 <= i < all.len() && (#[trigger] all[i]).name == "__awaitee"@ && (forall|j: int|
            0 <= j < i ==> (#[trigger] all[j]).name != "__awaitee"@) && child.offset
            == all[i].offset && names::name_at(s, all[i].type_ref) == Some(child.type_path)
}

/// A state awaits the future in its first member `__awaitee`, if that has a named
/// type, and nothing else.
pub proof fn law_a_state_awaits_its_awaitee(
    s: Seq<EntrySpec>,
    all: Seq<MemberSpec>,
    child: ChildRefSpec,
)
    ensures
        variants::awaitee_of(s, all) == Some(child) <==> awaits(s, all, child),
{
    let i = lemma_member_named(all, "__awaitee"@, 0);
    if variants::member_named(all, "__awaitee"@, 0) is Some {
        assert(all[i].name == "__awaitee"@);
        if awaits(s, all, child) {
            let j = choose|j: int|
                0 <= j < all.len() && (#[trigger] all[j]).name == "__awaitee"@ && (forall|k: int|
                    0 <= k < j ==> (#[trigger] all[k]).name != "__awaitee"@) && child.offset
                    == all[j].offset && names::name_at(s, all[j].type_ref) == Some(child.type_path);
            assert(i == j);
        }
    }
}

proof fn lemma_member_named(all: Seq<MemberSpec>, name: Seq<char>, from: nat) -> (i: int)
    ensures
        match variants::member_named(all, name, from) {
            Some(m) => from <= i < all.len() && all[i] == m && m.name == name && forall|k: int|
                from <= k < i ==> (#[trigger] all[k]).name != name,
            None => forall|k: int| from <= k < all.len() ==> (#[trigger] all[k]).name != name,
        },
    decreases all.len() - from,
{
    if from < all.len() && all[from as int].name != name {
        lemma_member_named(all, name, from + 1)
    } else {
        from as int
    }
}

/// What a variant entry says of a state whose structure is the type of its first
/// child: the state under the variant's value, 0 where it has none, of the kind
/// that the structure's name gives. Of a suspended one it also says where the
/// await stands, by the declaration of that child, the future that is awaited,
/// and each other coroutine that the structure holds, no more than nine types
/// deep.
pub open spec fn is_state(
    u: UnitSpec,
    v: int,
    member: int,
    state: members::StructSpec,
    value: u64,
    info: VariantInfoSpec,
) -> bool {
    let s = u.entries;
    let e = s[member];
    &&& entry_laws::is_child(s, v, member)
    &&& forall|c: int| v < c < member ==> !(#[trigger] entry_laws::is_child(s, v, c))
    &&& e.type_ref matches Ok(Some(type_ref)) && members::struct_at(u, type_ref) == Ok::<
        _,
        Seq<char>,
    >(state)
    &&& s[v].discr_value matches Some(n) ==> value == n
    &&& s[v].discr_value is None ==> value == 0
    &&& VariantKind::of_name(state.local_name) == Some(info.kind)
    &&& !(info.kind is Suspend) ==> info.await_location is None && info.awaitee is None
        && info.children.len() == 0
    &&& info.kind is Suspend ==> {
        &&& info.await_location is Some <==> e.decl_line is Some
        &&& info.await_location matches Some(at) ==> at.column == 0 && (e.decl_line->Some_0
            <= u32::MAX ==> at.line == e.decl_line->Some_0) && (e.decl_path matches Some(path)
            ==> at.path == path) && (e.decl_path is None ==> at.path.len() == 0)
        &&& forall|child: ChildRefSpec|
            info.awaitee == Some(child) <==> #[trigger] awaits(s, state.members, child)
        &&& forall|child: ChildRefSpec|
            #![trigger info.children.contains(child)]
            info.children.contains(child) <==> holds(u, state.members, 0, 9, child) && !(
            info.awaitee matches Some(a) && a.offset == child.offset)
    }
}

/// A variant describes the state that its first child leads to, with all that
/// the state awaits and holds.
pub proof fn law_a_variant_describes_its_state(u: UnitSpec, v: int) -> (r: (
    int,
    members::StructSpec,
))
    requires
        0 <= v < u.entries.len(),
        variants::variant_of(u, v) matches Ok(Some(_)),
    ensures
        is_state(
            u,
            v,
            r.0,
            r.1,
            variants::variant_of(u, v)->Ok_0->Some_0.0,
            variants::variant_of(u, v)->Ok_0->Some_0.1,
        ),
{
    let s = u.entries;
    let kids = unit::children(s, v);
    entry_laws::law_children_stand_directly_below(s, v);
    let member = kids[0];
    assert(kids.contains(member));
    assert forall|c: int| v < c < member implies !(#[trigger] entry_laws::is_child(s, v, c)) by {
        if entry_laws::is_child(s, v, c) {
            assert(kids.contains(c));
            let i = choose|i: int| 0 <= i < kids.len() && kids[i] == c;
            assert(i > 0 ==> kids[0] < kids[i]);
        }
    }
    let state = members::struct_at(u, s[member].type_ref->Ok_0->Some_0)->Ok_0;
    let info = variants::variant_of(u, v)->Ok_0->Some_0.1;
    if info.kind is Suspend {
        assert forall|child: ChildRefSpec| info.awaitee == Some(child) <==> #[trigger] awaits(
            s,
            state.members,
            child,
        ) by {
            law_a_state_awaits_its_awaitee(s, state.members, child);
        }
        let skip = match info.awaitee {
            Some(a) => Some(a.offset),
            None => None,
        };
        assert forall|child: ChildRefSpec| #[trigger]
            info.children.contains(child) <==> holds(u, state.members, 0, 9, child) && !(
            info.awaitee matches Some(a) && a.offset == child.offset) by {
            law_every_coroutine_held_is_a_child(u, state.members, 0, skip, 9, child);
        }
        if let Some(line) = s[member].decl_line {
            assert(line <= u32::MAX ==> line as u32 == line);
        }
    }
    (member, state)
}

/// A variant describes no state if, and only if, it has no child, the first one
/// has no type, or the type's name is no state's; that is no error.
pub proof fn law_a_variant_without_a_state_is_passed_over(u: UnitSpec, v: int)
    requires
        0 <= v < u.entries.len(),
    ensures
        variants::variant_of(u, v) == Ok::<Option<(u64, VariantInfoSpec)>, Seq<char>>(None) <==> {
            let s = u.entries;
            let kids = unit::children(s, v);
            ||| forall|c: int| v < c < s.len() ==> !(#[trigger] entry_laws::is_child(s, v, c))
            ||| kids.len() > 0 && s[kids[0]].type_ref == Ok::<Option<u64>, Seq<char>>(None)
            ||| kids.len() > 0 && (s[kids[0]].type_ref matches Ok(Some(_))) && (members::struct_at(
                u,
                s[kids[0]].type_ref->Ok_0->Some_0,
            ) matches Ok(state) && VariantKind::of_name(state.local_name) is None)
        },
{
    entry_laws::law_children_stand_directly_below(u.entries, v);
    let kids = unit::children(u.entries, v);
    assert forall|c: int|
        v < c < u.entries.len() && kids.len() == 0 implies !(#[trigger] entry_laws::is_child(
        u.entries,
        v,
        c,
    )) by {
        assert(!kids.contains(c));
    }
    if kids.len() > 0 {
        assert(kids.contains(kids[0]));
        assert(entry_laws::is_child(u.entries, v, kids[0]));
    }
}

/// The types of some members can be looked into, as deep as `left`.
pub open spec fn can_look_into(u: UnitSpec, all: Seq<MemberSpec>, left: nat) -> bool
    decreases left,
{
    left == 0 || forall|i: int|
        0 <= i < all.len() ==> is_coroutine_or_readable(u, #[trigger] all[i], left)
}

/// The member's type is a coroutine, or can be read and looked into.
pub open spec fn is_coroutine_or_readable(u: UnitSpec, m: MemberSpec, left: nat) -> bool
    decreases left, 0nat,
    when left > 0
{
    names::coroutine_at(u.entries, m.type_ref) || (members::struct_at(u, m.type_ref) is Ok
        && can_look_into(u, members::struct_at(u, m.type_ref)->Ok_0.members, (left - 1) as nat))
}

/// The inline coroutines of some members are told if, and only if, the members'
/// types can be looked into.
pub proof fn law_readable_members_are_looked_into(
    u: UnitSpec,
    all: Seq<MemberSpec>,
    base: u64,
    skip: Option<u64>,
    left: nat,
)
    ensures
        variants::member_coroutines(u, all, base, skip, left) is Ok <==> can_look_into(
            u,
            all,
            left,
        ),
    decreases left, all.len(),
{
    if all.len() > 0 {
        let less = all.drop_last();
        let m = all.last();
        law_readable_members_are_looked_into(u, less, base, skip, left);
        let here = variants::inline_coroutines(
            u,
            m.type_ref,
            base.wrapping_add(m.offset),
            skip,
            left,
        );
        assert(variants::member_coroutines(u, all, base, skip, left) is Ok
            <==> variants::member_coroutines(u, less, base, skip, left) is Ok && here is Ok);
        if left == 0 {
            assert(here is Ok);
        }
        if left > 0 {
            if !names::coroutine_at(u.entries, m.type_ref) && members::struct_at(
                u,
                m.type_ref,
            ) is Ok {
                law_readable_members_are_looked_into(
                    u,
                    members::struct_at(u, m.type_ref)->Ok_0.members,
                    base.wrapping_add(m.offset),
                    skip,
                    (left - 1) as nat,
                );
            }
            assert(here is Ok <==> is_coroutine_or_readable(u, m, left));
            assert(can_look_into(u, all, left) <==> can_look_into(u, less, left)
                && is_coroutine_or_readable(u, m, left)) by {
                if can_look_into(u, all, left) {
                    assert forall|i: int| 0 <= i < less.len() implies is_coroutine_or_readable(
                        u,
                        #[trigger] less[i],
                        left,
                    ) by {
                        assert(all[i] == less[i]);
                    }
                    assert(all[all.len() - 1] == m);
                }
                if can_look_into(u, less, left) && is_coroutine_or_readable(u, m, left) {
                    assert forall|i: int| 0 <= i < all.len() implies is_coroutine_or_readable(
                        u,
                        #[trigger] all[i],
                        left,
                    ) by {
                        if i < less.len() {
                            assert(less[i] == all[i]);
                        }
                    }
                }
            }
        }
    }
}

/// A state that can be read and looked into is described.
pub proof fn law_a_readable_state_is_described(u: UnitSpec, v: int)
    requires
        0 <= v < u.entries.len(),
        unit::children(u.entries, v).len() > 0,
        u.entries[unit::children(u.entries, v)[0]].type_ref matches Ok(Some(_)),
        members::struct_at(
            u,
            u.entries[unit::children(u.entries, v)[0]].type_ref->Ok_0->Some_0,
        ) matches Ok(state) && VariantKind::of_name(state.local_name) is Some && can_look_into(
            u,
            state.members,
            9,
        ),
    ensures
        variants::variant_of(u, v) matches Ok(Some(_)),
{
    let state = members::struct_at(
        u,
        u.entries[unit::children(u.entries, v)[0]].type_ref->Ok_0->Some_0,
    )->Ok_0;
    let awaitee = variants::awaitee_of(u.entries, state.members);
    let skip = match awaitee {
        Some(a) => Some(a.offset),
        None => None,
    };
    law_readable_members_are_looked_into(u, state.members, 0, skip, 9);
}

/// The name is `Suspend` and that number.
pub open spec fn is_suspend(name: Seq<char>, n: u16) -> bool {
    exists|digits: Seq<char>|
        name == "Suspend"@ + digits && #[trigger] text::unsigned(digits, 10, 0xffff) == Some(
            n as nat,
        )
}

/// A state's name gives its kind: the three that are over or not begun by their
/// names, one that is suspended by its number.
pub proof fn law_a_state_goes_by_its_name(name: Seq<char>, n: u16)
    ensures
        VariantKind::of_name(name) == Some(VariantKind::Unresumed) <==> name == "Unresumed"@,
        VariantKind::of_name(name) == Some(VariantKind::Returned) <==> name == "Returned"@,
        VariantKind::of_name(name) == Some(VariantKind::Panicked) <==> name == "Panicked"@,
        VariantKind::of_name(name) == Some(VariantKind::Suspend(n)) <==> is_suspend(name, n),
{
    reveal_strlit("Unresumed");
    reveal_strlit("Returned");
    reveal_strlit("Panicked");
    reveal_strlit("Suspend");
    assert("Unresumed"@[0] == 'U' && "Returned"@[0] == 'R' && "Panicked"@[0] == 'P');
    assert("Suspend"@[0] == 'S' && "Suspend"@.len() == 7);
    if VariantKind::of_name(name) == Some(VariantKind::Suspend(n)) {
        let digits = name.skip(7);
        assert(name.subrange(0, 7) == "Suspend"@);
        assert(name =~= "Suspend"@ + digits);
        assert(text::unsigned(digits, 10, 0xffff) == Some(n as nat));
    }
    if is_suspend(name, n) {
        let digits = choose|digits: Seq<char>|
            name == "Suspend"@ + digits && #[trigger] text::unsigned(digits, 10, 0xffff) == Some(
                n as nat,
            );
        assert(name[0] == 'S');
        assert(name.subrange(0, 7) =~= "Suspend"@);
        assert(name.skip(7) =~= digits);
    }
}

// ---------------------------------------------------------------------------
// Layouts
// ---------------------------------------------------------------------------

/// The entry is a variant (tag 0x19) that describes a state under a value.
pub open spec fn describes(u: UnitSpec, c: int, value: u64) -> bool {
    u.entries[c].tag == 0x19 && (variants::variant_of(u, c) matches Ok(Some(state)) && state.0
        == value)
}

/// The entry is the discriminant: the member (tag 0x0d) at an offset.
pub open spec fn is_discriminant(s: Seq<EntrySpec>, c: int, offset: u64) -> bool {
    s[c].tag == 0x0d && s[c].offset == offset
}

/// What the first `n` children of a variant part say.
spec fn is_part(
    u: UnitSpec,
    kids: Seq<int>,
    discr_ref: u64,
    n: int,
    part: variants::PartSpec,
) -> bool {
    &&& forall|value: u64| #[trigger]
        part.variants.contains_key(value) ==> exists|i: int|
            0 <= i < n && describes(u, #[trigger] kids[i], value) && variants::variant_of(
                u,
                kids[i],
            ) == Ok::<_, Seq<char>>(Some((value, part.variants[value]))) && forall|j: int|
                i < j < n ==> !describes(u, #[trigger] kids[j], value)
    &&& forall|value: u64, i: int|
        0 <= i < n && #[trigger] describes(u, kids[i], value) ==> part.variants.contains_key(value)
    &&& part.discr_offset is None && part.discr_size == 1 && (forall|j: int|
        0 <= j < n ==> !is_discriminant(u.entries, #[trigger] kids[j], discr_ref)) || exists|i: int|
        0 <= i < n && is_discriminant(u.entries, #[trigger] kids[i], discr_ref) && (forall|j: int|
            i < j < n ==> !is_discriminant(u.entries, #[trigger] kids[j], discr_ref))
            && part.discr_offset == members::place_of(u.entries[kids[i]])
            && variants::discr_size_of(u, u.entries[kids[i]]) is Ok && part.discr_size == (
        match variants::discr_size_of(u, u.entries[kids[i]])->Ok_0 {
            Some(size) => size,
            None => 1,
        })
}

proof fn lemma_part(u: UnitSpec, kids: Seq<int>, discr_ref: u64, n: int)
    requires
        0 <= n <= kids.len(),
        variants::part_of(u, kids, discr_ref, n) is Ok,
    ensures
        is_part(u, kids, discr_ref, n, variants::part_of(u, kids, discr_ref, n)->Ok_0),
    decreases n,
{
    if n > 0 {
        lemma_part(u, kids, discr_ref, n - 1);
        let before = variants::part_of(u, kids, discr_ref, n - 1)->Ok_0;
        let part = variants::part_of(u, kids, discr_ref, n)->Ok_0;
        let c = kids[n - 1];
        assert forall|value: u64| #[trigger] part.variants.contains_key(value) implies exists|i: int|
            0 <= i < n && describes(u, #[trigger] kids[i], value) && variants::variant_of(
                u,
                kids[i],
            ) == Ok::<_, Seq<char>>(Some((value, part.variants[value]))) && forall|j: int|
                i < j < n ==> !describes(u, #[trigger] kids[j], value) by {
            if describes(u, c, value) {
                assert(kids[n - 1] == c);
            } else {
                assert(before.variants.contains_key(value));
                let i = choose|i: int|
                    0 <= i < n - 1 && describes(u, #[trigger] kids[i], value)
                        && variants::variant_of(u, kids[i]) == Ok::<_, Seq<char>>(
                        Some((value, before.variants[value])),
                    ) && forall|j: int|
                        i < j < n - 1 ==> !describes(u, #[trigger] kids[j], value);
                assert(kids[i] == kids[i]);
                assert forall|j: int| i < j < n implies !describes(u, #[trigger] kids[j], value) by {
                    if j == n - 1 {
                        assert(kids[j] == c);
                    }
                }
            }
        }
        if is_discriminant(u.entries, c, discr_ref) {
            assert(kids[n - 1] == c);
        } else if before.discr_offset is None && before.discr_size == 1 && (forall|j: int|
            0 <= j < n - 1 ==> !is_discriminant(u.entries, #[trigger] kids[j], discr_ref)) {
            assert forall|j: int| 0 <= j < n implies !is_discriminant(
                u.entries,
                #[trigger] kids[j],
                discr_ref,
            ) by {
                if j == n - 1 {
                    assert(kids[j] == c);
                }
            }
        } else {
            let i = choose|i: int|
                0 <= i < n - 1 && is_discriminant(u.entries, #[trigger] kids[i], discr_ref) && (
                forall|j: int|
                    i < j < n - 1 ==> !is_discriminant(u.entries, #[trigger] kids[j], discr_ref))
                    && before.discr_offset == members::place_of(u.entries[kids[i]])
                    && variants::discr_size_of(u, u.entries[kids[i]]) is Ok && before.discr_size
                    == (match variants::discr_size_of(u, u.entries[kids[i]])->Ok_0 {
                    Some(size) => size,
                    None => 1,
                });
            assert(is_discriminant(u.entries, kids[i], discr_ref));
            assert forall|j: int| i < j < n implies !is_discriminant(
                u.entries,
                #[trigger] kids[j],
                discr_ref,
            ) by {
                if j == n - 1 {
                    assert(kids[j] == c);
                }
            }
        }
    }
}

/// The size of a discriminant: that of its type in bytes, 1 where that is not
/// known.
pub open spec fn is_sized(u: UnitSpec, e: EntrySpec, size: u8) -> bool {
    &&& e.type_ref == Ok::<Option<u64>, Seq<char>>(None) ==> size == 1
    &&& e.type_ref matches Ok(Some(type_ref)) ==> forall|k: int|
        unit::position(u.entries, type_ref) == Some(k as nat) && 0 <= k < u.entries.len() ==> {
            &&& (#[trigger] u.entries[k]).byte_size is None ==> size == 1
            &&& u.entries[k].byte_size matches Some(n) ==> n < 256 ==> size == n
        }
}

/// The layout is that of the coroutine at `k`: under its full name and with its
/// size, 0 where that is not known; by the first variant part (tag 0x33) directly
/// below it, which is at `vp`; with the discriminant that the part names, which
/// is the last such member directly below it, at `c`; and with the state of each
/// value that a variant directly below the part describes, the last one of that
/// value.
pub open spec fn is_layout_of(u: UnitSpec, k: int, l: AsyncFnLayoutSpec, vp: int, c: int) -> bool {
    let s = u.entries;
    &&& names::full_name(s, k) == Some(l.type_path)
    &&& s[k].byte_size matches Some(size) ==> l.byte_size == size
    &&& s[k].byte_size is None ==> l.byte_size == 0
    &&& entry_laws::is_child(s, k, vp) && k < vp < s.len() && s[vp].tag == 0x33
    &&& forall|p: int|
        k < p < vp && (#[trigger] entry_laws::is_child(s, k, p)) ==> s[p].tag != 0x33
    &&& s[vp].discr_ref matches Ok(Some(discr_ref)) && {
        &&& entry_laws::is_child(s, vp, c) && vp < c < s.len()
        &&& is_discriminant(s, c, discr_ref)
        &&& forall|d: int|
            c < d < s.len() && (#[trigger] entry_laws::is_child(s, vp, d)) ==> !is_discriminant(
                s,
                d,
                discr_ref,
            )
        &&& s[c].member_location == Ok::<_, Seq<char>>(Some(l.discr_offset))
        &&& is_sized(u, s[c], l.discr_size)
    }
    &&& forall|value: u64| #[trigger]
        l.variants.contains_key(value) ==> is_last_state(u, vp, value, l.variants[value])
    &&& forall|v: int, value: u64|
        vp < v < s.len() && entry_laws::is_child(s, vp, v) && #[trigger] describes(u, v, value)
            ==> l.variants.contains_key(value)
}

/// The last variant directly below the entry at `vp` that describes a state under
/// a value describes that state.
pub open spec fn is_last_state(u: UnitSpec, vp: int, value: u64, info: VariantInfoSpec) -> bool {
    exists|v: int|
        vp < v < u.entries.len() && #[trigger] describes(u, v, value) && entry_laws::is_child(
            u.entries,
            vp,
            v,
        ) && variants::variant_of(u, v) == Ok::<_, Seq<char>>(Some((value, info))) && forall|w: int|
            v < w < u.entries.len() && entry_laws::is_child(u.entries, vp, w) ==> !(
            #[trigger] describes(u, w, value))
}

/// The layout of a coroutine says what its variant part says.
pub proof fn law_a_layout_says_what_its_variant_part_says(u: UnitSpec, k: int) -> (r: (int, int))
    requires
        0 <= k < u.entries.len(),
        variants::layout_of(u, k) matches Ok(Some(_)),
    ensures
        is_layout_of(u, k, variants::layout_of(u, k)->Ok_0->Some_0, r.0, r.1),
{
    let s = u.entries;
    let l = variants::layout_of(u, k)->Ok_0->Some_0;
    let below = unit::children(s, k);
    entry_laws::law_children_stand_directly_below(s, k);
    entry_laws::law_the_first_with_a_tag_is_found(s, below, unit::TAG_VARIANT_PART, 0);
    let vp = unit::first_tagged(s, below, unit::TAG_VARIANT_PART, 0)->Some_0;
    let at = choose|i: int|
        0 <= i < below.len() && #[trigger] below[i] == vp && s[vp].tag == unit::TAG_VARIANT_PART
            && forall|j: int| 0 <= j < i ==> s[#[trigger] below[j]].tag != unit::TAG_VARIANT_PART;
    assert(below.contains(vp));
    assert forall|p: int|
        k < p < vp && (#[trigger] entry_laws::is_child(s, k, p)) implies s[p].tag != 0x33 by {
        assert(below.contains(p));
        let j = choose|j: int| 0 <= j < below.len() && below[j] == p;
        assert(j < at) by {
            assert(at < j ==> below[at] < below[j]);
        }
        assert(s[below[j]].tag != unit::TAG_VARIANT_PART);
    }
    let discr_ref = s[vp].discr_ref->Ok_0->Some_0;
    let kids = unit::children(s, vp);
    entry_laws::law_children_stand_directly_below(s, vp);
    let part = variants::part_of(u, kids, discr_ref, kids.len() as int)->Ok_0;
    lemma_part(u, kids, discr_ref, kids.len() as int);
    let n = kids.len() as int;
    let m = choose|i: int|
        0 <= i < n && is_discriminant(s, #[trigger] kids[i], discr_ref) && (forall|j: int|
            i < j < n ==> !is_discriminant(s, #[trigger] kids[j], discr_ref)) && part.discr_offset
            == members::place_of(s[kids[i]]) && variants::discr_size_of(u, s[kids[i]]) is Ok
            && part.discr_size == (match variants::discr_size_of(u, s[kids[i]])->Ok_0 {
            Some(size) => size,
            None => 1,
        });
    let c = kids[m];
    assert(kids.contains(c));
    assert forall|d: int|
        c < d < s.len() && (#[trigger] entry_laws::is_child(
            s,
            vp,
            d,
        )) implies !is_discriminant(s, d, discr_ref) by {
        assert(kids.contains(d));
        let j = choose|j: int| 0 <= j < kids.len() && kids[j] == d;
        assert(m < j) by {
            assert(j < m ==> kids[j] < kids[m]);
        }
    }
    assert forall|value: u64| #[trigger] l.variants.contains_key(value) implies is_last_state(
        u,
        vp,
        value,
        l.variants[value],
    ) by {
        let i = choose|i: int|
            0 <= i < n && describes(u, #[trigger] kids[i], value) && variants::variant_of(
                u,
                kids[i],
            ) == Ok::<_, Seq<char>>(Some((value, l.variants[value]))) && forall|j: int|
                i < j < n ==> !describes(u, #[trigger] kids[j], value);
        let v = kids[i];
        assert(kids.contains(v));
        assert forall|w: int|
            v < w < s.len() && entry_laws::is_child(s, vp, w) implies !(#[trigger] describes(
            u,
            w,
            value,
        )) by {
            assert(kids.contains(w));
            let j = choose|j: int| 0 <= j < kids.len() && kids[j] == w;
            assert(i < j) by {
                assert(j < i ==> kids[j] < kids[i]);
            }
        }
        assert(describes(u, v, value));
    }
    assert forall|v: int, value: u64|
        vp < v < s.len() && entry_laws::is_child(s, vp, v) && #[trigger] describes(
            u,
            v,
            value,
        ) implies l.variants.contains_key(value) by {
        assert(kids.contains(v));
        let j = choose|j: int| 0 <= j < kids.len() && kids[j] == v;
        assert(describes(u, kids[j], value));
    }
    if let Ok(Some(type_ref)) = s[c].type_ref {
        assert forall|p: int|
            unit::position(s, type_ref) == Some(p as nat) && 0 <= p < s.len() implies {
            &&& (#[trigger] s[p]).byte_size is None ==> part.discr_size == 1
            &&& s[p].byte_size matches Some(size) ==> size < 256 ==> part.discr_size == size
        } by {
            if let Some(size) = s[p].byte_size {
                assert(size < 256 ==> size as u8 == size);
            }
        }
    }
    (vp, c)
}

/// A coroutine without a full name, without a variant part, or with one that names
/// no discriminant, has no layout; that is no error.
pub proof fn law_a_niche_coroutine_has_no_layout(u: UnitSpec, k: int, vp: int)
    requires
        0 <= k < u.entries.len(),
    ensures
        names::full_name(u.entries, k) is None || (forall|c: int|
            k < c < u.entries.len() && (#[trigger] entry_laws::is_child(u.entries, k, c))
                ==> u.entries[c].tag != 0x33) ==> variants::layout_of(u, k) == Ok::<
            Option<AsyncFnLayoutSpec>,
            Seq<char>,
        >(None),
        unit::first_tagged(u.entries, unit::children(u.entries, k), 0x33, 0) == Some(vp)
            && u.entries[vp].discr_ref == Ok::<Option<u64>, Seq<char>>(None)
            ==> variants::layout_of(u, k) == Ok::<Option<AsyncFnLayoutSpec>, Seq<char>>(None),
{
    let s = u.entries;
    let kids = unit::children(s, k);
    entry_laws::law_children_stand_directly_below(s, k);
    entry_laws::law_the_first_with_a_tag_is_found(s, kids, unit::TAG_VARIANT_PART, 0);
    if forall|c: int|
        k < c < s.len() && (#[trigger] entry_laws::is_child(s, k, c)) ==> s[c].tag != 0x33 {
        if let Some(c) = unit::first_tagged(s, kids, unit::TAG_VARIANT_PART, 0) {
            assert(kids.contains(c));
            assert(entry_laws::is_child(s, k, c));
        }
    }
}

/// A coroutine whose variant part names its discriminant, where the size of the
/// discriminant can be read and every variant can, is never refused.
pub proof fn law_a_readable_coroutine_is_never_refused(u: UnitSpec, k: int)
    requires
        0 <= k < u.entries.len(),
        unit::first_tagged(u.entries, unit::children(u.entries, k), 0x33, 0) matches Some(vp)
            && u.entries[vp].discr_ref is Ok && forall|i: int|
            0 <= i < unit::children(u.entries, vp).len() ==> {
                let c = #[trigger] unit::children(u.entries, vp)[i];
                &&& u.entries[c].tag == 0x0d ==> variants::discr_size_of(u, u.entries[c]) is Ok
                &&& u.entries[c].tag == 0x19 ==> variants::variant_of(u, c) is Ok
            },
    ensures
        variants::layout_of(u, k) is Ok,
{
    let s = u.entries;
    let vp = unit::first_tagged(s, unit::children(s, k), 0x33, 0)->Some_0;
    let kids = unit::children(s, vp);
    if let Ok(Some(discr_ref)) = s[vp].discr_ref {
        lemma_part_is_read(u, kids, discr_ref, kids.len() as int);
    }
}

proof fn lemma_part_is_read(u: UnitSpec, kids: Seq<int>, discr_ref: u64, n: int)
    requires
        0 <= n <= kids.len(),
        forall|i: int|
            0 <= i < kids.len() ==> {
                let c = #[trigger] kids[i];
                &&& u.entries[c].tag == 0x0d ==> variants::discr_size_of(u, u.entries[c]) is Ok
                &&& u.entries[c].tag == 0x19 ==> variants::variant_of(u, c) is Ok
            },
    ensures
        variants::part_of(u, kids, discr_ref, n) is Ok,
    decreases n,
{
    if n > 0 {
        lemma_part_is_read(u, kids, discr_ref, n - 1);
        let c = kids[n - 1];
        assert(u.entries[c].tag == 0x0d ==> variants::discr_size_of(u, u.entries[c]) is Ok);
    }
}

/// A coroutine gives a layout.
pub open spec fn gives(u: UnitSpec, k: int, layout: AsyncFnLayoutSpec) -> bool {
    names::is_coroutine(u.entries[k]) && variants::layout_of(u, k) == Ok::<_, Seq<char>>(
        Some(layout),
    )
}

/// A layout under a name: of the last of the first `n` entries that gives one,
/// else the one that was known.
pub open spec fn is_latest(
    u: UnitSpec,
    n: int,
    known: LayoutMap,
    name: Seq<char>,
    layout: AsyncFnLayoutSpec,
) -> bool {
    ||| exists|k: int|
        0 <= k < n && #[trigger] gives(u, k, layout) && layout.type_path == name && forall|
            j: int,
            other: AsyncFnLayoutSpec,
        |
            k < j < n && #[trigger] gives(u, j, other) ==> other.type_path != name
    ||| known.contains_key(name) && known[name] == layout && forall|
        j: int,
        other: AsyncFnLayoutSpec,
    |
        0 <= j < n && #[trigger] gives(u, j, other) ==> other.type_path != name
}

/// The layouts of a unit are those of all its coroutines that have one, under
/// their names, and those known before; of two under one name the last counts.
pub proof fn law_every_coroutine_gives_its_layout(u: UnitSpec, n: int, known: LayoutMap)
    requires
        dwarf::layouts_among(u, n, known) is Ok,
    ensures
        forall|name: Seq<char>| #[trigger]
            dwarf::layouts_among(u, n, known)->Ok_0.contains_key(name) ==> is_latest(
                u,
                n,
                known,
                name,
                dwarf::layouts_among(u, n, known)->Ok_0[name],
            ),
        forall|name: Seq<char>| #[trigger]
            known.contains_key(name) ==> dwarf::layouts_among(u, n, known)->Ok_0.contains_key(name),
        forall|k: int, layout: AsyncFnLayoutSpec|
            0 <= k < n && #[trigger] gives(u, k, layout) ==> dwarf::layouts_among(
                u,
                n,
                known,
            )->Ok_0.contains_key(layout.type_path),
    decreases n,
{
    if n > 0 {
        law_every_coroutine_gives_its_layout(u, n - 1, known);
        let before = dwarf::layouts_among(u, n - 1, known)->Ok_0;
        let after = dwarf::layouts_among(u, n, known)->Ok_0;
        assert forall|name: Seq<char>| #[trigger] after.contains_key(name) implies is_latest(
            u,
            n,
            known,
            name,
            after[name],
        ) by {
            let layout = after[name];
            if gives(u, n - 1, layout) && layout.type_path == name {
            } else {
                assert(before.contains_key(name));
                assert(before[name] == layout);
                assert(is_latest(u, n - 1, known, name, layout));
                assert forall|other: AsyncFnLayoutSpec| #[trigger]
                    gives(u, n - 1, other) implies other.type_path != name by {}
                if exists|k: int|
                    0 <= k < n - 1 && #[trigger] gives(u, k, layout) && layout.type_path == name
                        && forall|j: int, other: AsyncFnLayoutSpec|
                        k < j < n - 1 && #[trigger] gives(u, j, other) ==> other.type_path
                            != name {
                    let k = choose|k: int|
                        0 <= k < n - 1 && #[trigger] gives(u, k, layout) && layout.type_path == name
                            && forall|j: int, other: AsyncFnLayoutSpec|
                            k < j < n - 1 && #[trigger] gives(u, j, other) ==> other.type_path
                                != name;
                    assert(gives(u, k, layout));
                }
            }
        }
    }
}

/// The rustc version is that of the first unit that tells one; every unit adds
/// the layouts of the coroutines below its root.
pub proof fn law_a_unit_adds_to_what_is_known(u: UnitSpec, known: Findings)
    requires
        dwarf::with_unit(u, known) is Ok,
    ensures
        ({
            let found = dwarf::with_unit(u, known)->Ok_0;
            &&& known.version is Some ==> found.version == known.version
            &&& known.version is None ==> dwarf::version_of_unit(u.entries) == Ok::<_, Seq<char>>(
                found.version,
            )
            &&& dwarf::layouts_among(u, unit::root_end(u.entries), known.layouts) == Ok::<
                _,
                Seq<char>,
            >(found.layouts)
            &&& forall|k: int|
                0 <= k < unit::root_end(u.entries) ==> (#[trigger] u.entries[k]).name is Ok
        }),
{
    lemma_names_are_readable(u.entries, 0, unit::root_end(u.entries));
}

proof fn lemma_names_are_readable(s: Seq<EntrySpec>, from: int, end: int)
    requires
        0 <= from,
        names::unreadable_name(s, from, end) is None,
    ensures
        forall|k: int| from <= k < end ==> (#[trigger] s[k]).name is Ok,
    decreases end - from,
{
    if from < end {
        lemma_names_are_readable(s, from + 1, end);
    }
}

/// The unit at `at[i]` adds to what is known before it, and the next starts where
/// it ends.
pub open spec fn is_step(
    d: Seq<(Seq<char>, Seq<u8>)>,
    little_endian: bool,
    at: Seq<int>,
    known: Seq<Findings>,
    i: int,
) -> bool {
    unit::loaded(d, little_endian, at[i] as nat, false) matches Ok((u, length))
        && dwarf::with_unit(u, known[i]) == Ok::<_, Seq<char>>(known[i + 1]) && at[i + 1] == at[i]
        + length
}

/// Units are read one after the other.
pub open spec fn is_run(
    d: Seq<(Seq<char>, Seq<u8>)>,
    little_endian: bool,
    at: Seq<int>,
    known: Seq<Findings>,
) -> bool {
    &&& at.len() == known.len()
    &&& at.len() > 0
    &&& forall|i: int|
        0 <= i < at.len() - 1 ==> #[trigger] is_step(d, little_endian, at, known, i)
}

/// Every unit from a place to the end of `.debug_info` is read, each adding to
/// what those before it told. (A unit without a length, or with one that goes
/// beyond the end, is the last.)
#[verifier::rlimit(40)]
#[verifier::spinoff_prover]
pub proof fn law_every_unit_is_read(
    d: Seq<(Seq<char>, Seq<u8>)>,
    little_endian: bool,
    from: nat,
    known: Findings,
) -> (r: (Seq<int>, Seq<Findings>))
    requires
        dwarf::findings_from(d, little_endian, from, known) is Ok,
    ensures
        is_run(d, little_endian, r.0, r.1),
        r.0[0] == from,
        r.1[0] == known,
        r.1.last() == dwarf::findings_from(d, little_endian, from, known)->Ok_0,
        r.0.last() >= object_file::section_named(d, ".debug_info"@, 0).len() || (r.0.len() > 1
            && r.0.last() == r.0[r.0.len() - 2]),
    decreases object_file::section_named(d, ".debug_info"@, 0).len() - from,
{
    let end = object_file::section_named(d, ".debug_info"@, 0).len();
    if from >= end {
        (seq![from as int], seq![known])
    } else {
        let (u, length) = unit::loaded(d, little_endian, from, false)->Ok_0;
        let more = dwarf::with_unit(u, known)->Ok_0;
        if length == 0 || from + length > end {
            let r = (seq![from as int, from + length], seq![known, more]);
            assert(is_step(d, little_endian, r.0, r.1, 0));
            r
        } else {
            let rest = law_every_unit_is_read(d, little_endian, from + length as nat, more);
            let at = seq![from as int] + rest.0;
            let all = seq![known] + rest.1;
            assert forall|i: int| 0 <= i < at.len() - 1 implies #[trigger] is_step(
                d,
                little_endian,
                at,
                all,
                i,
            ) by {
                if i > 0 {
                    assert(is_step(d, little_endian, rest.0, rest.1, i - 1));
                    assert(all[i] == rest.1[i - 1] && all[i + 1] == rest.1[i]);
                    assert(at[i] == rest.0[i - 1] && at[i + 1] == rest.0[i]);
                } else {
                    assert(all[1] == rest.1[0] && at[1] == rest.0[0]);
                }
            }
            assert(all.last() == rest.1.last());
            assert(at.last() == rest.0.last());
            if rest.0.len() > 1 {
                assert(at[at.len() - 2] == rest.0[rest.0.len() - 2]);
            }
            (at, all)
        }
    }
}

/// Layouts are used if, and only if, a rustc version from 1.63 to 1.94 is known
/// and there is at least one layout; the version is asked for first.
pub proof fn law_only_validated_layouts_are_used(found: Findings)
    ensures
        dwarf::judged(found) is Ok <==> (found.version matches Some(v) && v.major == 1 && 63
            <= v.minor <= 94) && exists|name: Seq<char>| #[trigger] found.layouts.contains_key(name),
        dwarf::judged(found) matches Ok(extract) ==> Some(extract.version) == found.version
            && extract.layouts == found.layouts,
        !(found.version matches Some(v) && v.major == 1 && 63 <= v.minor <= 94) ==> (dwarf::judged(
            found,
        ) matches Err(e) && e is UnsupportedLayout),
        (found.version matches Some(v) && v.major == 1 && 63 <= v.minor <= 94) && dwarf::judged(
            found,
        ) is Err ==> dwarf::judged(found)->Err_0 is NoCoroutines,
{
    if found.layouts.dom() != Set::<Seq<char>>::empty() {
        assert(exists|name: Seq<char>| #[trigger] found.layouts.contains_key(name)) by {
            if forall|name: Seq<char>| !(#[trigger] found.layouts.contains_key(name)) {
                assert(found.layouts.dom() =~= Set::<Seq<char>>::empty());
            }
        }
    } else {
        assert forall|name: Seq<char>| !(#[trigger] found.layouts.contains_key(name)) by {
            assert(!found.layouts.dom().contains(name));
        }
    }
}

/// A binary is refused for the first of these that holds: it is no object, links
/// no Tokio runtime, has no debug information, or debug information that cannot
/// be read; else what its units say is judged.
pub proof fn law_a_binary_is_refused_for_its_first_lack(image: Seq<u8>)
    ensures
        dwarf::extracted(image) == Err::<DwarfExtractSpec, _>(
            AsyncDecodeErrorSpec::NotTokioBinary,
        ) <==> object_file::object_shape(image) is Ok && !dwarf::links_tokio(image),
        dwarf::extracted(image) == Err::<DwarfExtractSpec, _>(
            AsyncDecodeErrorSpec::NoDebugInfo,
        ) <==> object_file::object_shape(image) is Ok && dwarf::links_tokio(image)
            && !object_file::has_section(image, ".debug_info"@),
        object_file::object_shape(image) matches Err(e) ==> dwarf::extracted(image) == Err::<
            DwarfExtractSpec,
            _,
        >(AsyncDecodeErrorSpec::Object(e)),
        object_file::object_shape(image) is Ok && dwarf::links_tokio(image)
            && object_file::has_section(image, ".debug_info"@) ==> match dwarf::findings_from(
            object_file::debug_sections_of(image),
            object_file::object_shape(image)->Ok_0.little_endian,
            0,
            dwarf::no_findings(),
        ) {
            Ok(found) => dwarf::extracted(image) == dwarf::judged(found),
            Err(e) => dwarf::extracted(image) == Err::<DwarfExtractSpec, _>(
                AsyncDecodeErrorSpec::Dwarf(e),
            ),
        },
{
}

} // verus!
