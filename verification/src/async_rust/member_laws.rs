//! Laws of which members a structure has, by its debug information.
use vstd::prelude::*;

use super::dwarf::members::{self, MemberSpec};
use crate::debug_info::laws as entry_laws;
use crate::debug_info::unit::{self, EntrySpec};

verus! {

/// The entry is a member (tag 0x0d) with a type. Without a name its name is
/// empty; without a place that can be read it lies at 0.
pub open spec fn is_member(e: EntrySpec, m: MemberSpec) -> bool {
    &&& e.tag == 0x0d
    &&& e.type_ref == Ok::<_, Seq<char>>(Some(m.type_ref))
    &&& e.name is Ok
    &&& e.name->Ok_0 matches Some(name) ==> m.name == name
    &&& e.name->Ok_0 is None ==> m.name.len() == 0
    &&& e.member_location matches Ok(Some(at)) ==> m.offset == at
    &&& !(e.member_location matches Ok(Some(_))) ==> m.offset == 0
}

/// The entry is a member with a type.
pub open spec fn is_typed(e: EntrySpec) -> bool {
    e.tag == 0x0d && (e.type_ref matches Ok(Some(_)))
}

/// The members are those of the entries at `picks`, in their order.
pub open spec fn are_members(s: Seq<EntrySpec>, all: Seq<MemberSpec>, picks: Seq<int>) -> bool {
    &&& all.len() == picks.len()
    &&& forall|j: int|
        0 <= j < picks.len() ==> 0 <= #[trigger] picks[j] < s.len() && is_member(
            s[picks[j]],
            all[j],
        )
    &&& forall|i: int, j: int|
        0 <= i < j < picks.len() ==> (#[trigger] picks[i]) < (#[trigger] picks[j])
}

/// The members directly below an entry are all the typed members there, in their
/// order.
pub proof fn law_every_typed_child_is_a_direct_member(s: Seq<EntrySpec>, k: int) -> (picks: Seq<
    int,
>)
    requires
        0 <= k < s.len(),
        members::direct_members(s, k) is Ok,
    ensures
        are_members(s, members::direct_members(s, k)->Ok_0, picks),
        forall|c: int|
            #![trigger picks.contains(c)]
            picks.contains(c) <==> k < c < s.len() && entry_laws::is_child(s, k, c) && is_typed(
                s[c],
            ),
{
    let kids = unit::children(s, k);
    let parts = kids.map_values(|c: int| members::member_of(s[c]));
    let all = unit::gathered(parts)->Ok_0;
    entry_laws::law_children_stand_directly_below(s, k);
    entry_laws::law_nothing_is_gathered_by_halves(parts);
    let at = entry_laws::law_each_part_gives_its_value(parts);
    let picks = Seq::new(at.len(), |j: int| kids[at[j]]);
    assert forall|j: int| 0 <= j < picks.len() implies k < #[trigger] picks[j] < s.len()
        && entry_laws::is_child(s, k, picks[j]) && is_member(s[picks[j]], all[j]) by {
        let i = at[j];
        assert(kids.contains(kids[i]));
        assert(parts[i] == members::member_of(s[kids[i]]));
        assert(parts[i]->Ok_0[0] == all[j]);
    }
    assert forall|c: int|
        k < c < s.len() && entry_laws::is_child(s, k, c) && is_typed(
            s[c],
        ) implies picks.contains(c) by {
        assert(kids.contains(c));
        let i = choose|i: int| 0 <= i < kids.len() && kids[i] == c;
        assert(parts[i] == members::member_of(s[c]));
        assert(parts[i]->Ok_0.len() == 1);
        let j = choose|j: int| 0 <= j < at.len() && at[j] == i;
        assert(picks[j] == c);
    }
    picks
}

/// The entry is a member of a variant (tag 0x19) directly below a variant part.
pub open spec fn is_payload(s: Seq<EntrySpec>, k: int, c: int) -> bool {
    exists|v: int|
        k < v < c && #[trigger] entry_laws::is_child(s, k, v) && s[v].tag == 0x19
            && entry_laws::is_child(s, v, c) && is_typed(s[c])
}

/// The entry is a member of a structure: directly below it, or a payload of a
/// variant part (tag 0x33) directly below it.
pub open spec fn is_member_of(s: Seq<EntrySpec>, k: int, c: int) -> bool {
    (entry_laws::is_child(s, k, c) && is_typed(s[c])) || exists|p: int|
        k < p < c && #[trigger] entry_laws::is_child(s, k, p) && s[p].tag == 0x33 && is_payload(
            s,
            p,
            c,
        )
}

spec fn payload_part(s: Seq<EntrySpec>, c: int) -> members::Members {
    if s[c].tag == unit::TAG_VARIANT {
        members::direct_members(s, c)
    } else {
        Ok(Seq::empty())
    }
}

spec fn member_part(s: Seq<EntrySpec>, c: int) -> members::Members {
    if s[c].tag == unit::TAG_VARIANT_PART {
        members::payload_members(s, c)
    } else {
        members::member_of(s[c])
    }
}

spec fn fits(s: Seq<EntrySpec>, sub: Seq<int>, part: members::Members, k: int, c: int) -> bool {
    &&& are_members(s, part->Ok_0, sub)
    &&& forall|j: int|
        0 <= j < sub.len() ==> k < c <= #[trigger] sub[j] && (sub[j] == c || entry_laws::is_below(
            s,
            c,
            sub[j],
        ))
}

proof fn lemma_joined_members(
    s: Seq<EntrySpec>,
    k: int,
    parts: Seq<members::Members>,
    subs: Seq<Seq<int>>,
)
    requires
        0 <= k < s.len(),
        unit::gathered(parts) is Ok,
        parts.len() == unit::children(s, k).len(),
        subs.len() == parts.len(),
        forall|i: int|
            0 <= i < subs.len() ==> fits(
                s,
                #[trigger] subs[i],
                parts[i],
                k,
                unit::children(s, k)[i],
            ),
    ensures
        are_members(s, unit::gathered(parts)->Ok_0, entry_laws::joined(subs)),
        forall|c: int|
            #![trigger entry_laws::joined(subs).contains(c)]
            entry_laws::joined(subs).contains(c) <==> entry_laws::is_of_some(subs, c),
{
    let kids = unit::children(s, k);
    entry_laws::law_children_stand_directly_below(s, k);
    let belongs = |m: MemberSpec, c: int| 0 <= c < s.len() && is_member(s[c], m);
    assert forall|i: int| #![auto] 0 <= i < parts.len() implies subs[i].len()
        == parts[i]->Ok_0.len() by {
        assert(fits(s, subs[i], parts[i], k, kids[i]));
    }
    assert forall|i: int, m: int|
        #![trigger subs[i][m]]
        0 <= i < parts.len() && 0 <= m < subs[i].len() implies belongs(
        parts[i]->Ok_0[m],
        subs[i][m],
    ) by {
        assert(fits(s, subs[i], parts[i], k, kids[i]));
    }
    assert forall|i: int, m: int, n: int|
        #![trigger subs[i][m], subs[i][n]]
        0 <= i < parts.len() && 0 <= m < n < subs[i].len() implies subs[i][m] < subs[i][n] by {
        assert(fits(s, subs[i], parts[i], k, kids[i]));
    }
    assert forall|i: int, j: int, m: int, n: int|
        #![trigger subs[i][m], subs[j][n]]
        0 <= i < j < parts.len() && 0 <= m < subs[i].len() && 0 <= n
            < subs[j].len() implies subs[i][m] < subs[j][n] by {
        assert(fits(s, subs[i], parts[i], k, kids[i]));
        assert(fits(s, subs[j], parts[j], k, kids[j]));
        assert(kids.contains(kids[i]) && kids.contains(kids[j]));
        assert(kids[i] < kids[j]);
        if subs[i][m] != kids[i] {
            entry_laws::law_what_is_below_a_sibling_lies_before_the_next(
                s,
                k,
                kids[i],
                kids[j],
                subs[i][m],
            );
        }
    }
    entry_laws::law_gathered_values_keep_their_positions(parts, subs, belongs);
    let all = entry_laws::joined(subs);
    assert forall|j: int| 0 <= j < all.len() implies 0 <= #[trigger] all[j] < s.len() && is_member(
        s[all[j]],
        unit::gathered(parts)->Ok_0[j],
    ) by {
        assert(belongs(unit::gathered(parts)->Ok_0[j], all[j]));
    }
}

proof fn lemma_is_below_twice(s: Seq<EntrySpec>, a: int, b: int, c: int)
    requires
        entry_laws::is_below(s, a, b),
        entry_laws::is_below(s, b, c),
    ensures
        entry_laws::is_below(s, a, c),
{
    assert forall|j: int| a < j <= c implies (#[trigger] s[j]).depth > s[a].depth by {
        if j > b {
            assert(s[j].depth > s[b].depth && s[b].depth > s[a].depth);
        }
    }
}

proof fn lemma_payload_picks(s: Seq<EntrySpec>, k: int) -> (picks: Seq<int>)
    requires
        0 <= k < s.len(),
        members::payload_members(s, k) is Ok,
    ensures
        are_members(s, members::payload_members(s, k)->Ok_0, picks),
        forall|c: int|
            #![trigger picks.contains(c)]
            picks.contains(c) <==> c < s.len() && is_payload(s, k, c),
        forall|j: int|
            0 <= j < picks.len() ==> entry_laws::is_below(s, k, #[trigger] picks[j]),
{
    let kids = unit::children(s, k);
    let parts = kids.map_values(
        |c: int|
            if s[c].tag == unit::TAG_VARIANT {
                members::direct_members(s, c)
            } else {
                Ok(Seq::empty())
            },
    );
    entry_laws::law_children_stand_directly_below(s, k);
    entry_laws::law_nothing_is_gathered_by_halves(parts);
    let subs = lemma_payload_subs(s, k, kids.len() as int);
    assert forall|i: int| 0 <= i < subs.len() implies fits(
        s,
        #[trigger] subs[i],
        parts[i],
        k,
        kids[i],
    ) by {
        assert(parts[i] == payload_part(s, kids[i]));
    }
    lemma_joined_members(s, k, parts, subs);
    let picks = entry_laws::joined(subs);
    assert forall|c: int| picks.contains(c) implies c < s.len() && is_payload(s, k, c)
        && entry_laws::is_below(s, k, c) by {
        let (i, m) = choose|i: int, m: int|
            0 <= i < subs.len() && 0 <= m < subs[i].len() && #[trigger] subs[i][m] == c;
        assert(subs[i].contains(c));
        assert(kids.contains(kids[i]));
        assert(entry_laws::is_child(s, k, kids[i]));
        lemma_is_below_twice(s, k, kids[i], c);
    }
    assert forall|j: int| 0 <= j < picks.len() implies entry_laws::is_below(
        s,
        k,
        #[trigger] picks[j],
    ) by {
        assert(picks.contains(picks[j]));
    }
    assert forall|c: int| c < s.len() && is_payload(s, k, c) implies picks.contains(c) by {
        let v = choose|v: int|
            k < v < c && #[trigger] entry_laws::is_child(s, k, v) && s[v].tag == 0x19
                && entry_laws::is_child(s, v, c) && is_typed(s[c]);
        assert(kids.contains(v));
        let i = choose|i: int| 0 <= i < kids.len() && kids[i] == v;
        assert(subs[i].contains(c));
        let m = choose|m: int| 0 <= m < subs[i].len() && subs[i][m] == c;
        assert(subs[i][m] == c);
        assert(entry_laws::is_of_some(subs, c));
    }
    picks
}

proof fn lemma_payload_subs(s: Seq<EntrySpec>, k: int, n: int) -> (subs: Seq<Seq<int>>)
    requires
        0 <= k < s.len(),
        0 <= n <= unit::children(s, k).len(),
        members::payload_members(s, k) is Ok,
    ensures
        subs.len() == n,
        forall|i: int|
            0 <= i < n ==> fits(
                s,
                #[trigger] subs[i],
                payload_part(s, unit::children(s, k)[i]),
                k,
                unit::children(s, k)[i],
            ) && forall|c: int|
                #![trigger subs[i].contains(c)]
                subs[i].contains(c) <==> s[unit::children(s, k)[i]].tag == 0x19 && unit::children(
                    s,
                    k,
                )[i] < c < s.len() && entry_laws::is_child(s, unit::children(s, k)[i], c)
                    && is_typed(s[c]),
    decreases n,
{
    if n == 0 {
        Seq::empty()
    } else {
        let before = lemma_payload_subs(s, k, n - 1);
        let kids = unit::children(s, k);
        let parts = kids.map_values(
            |c: int|
                if s[c].tag == unit::TAG_VARIANT {
                    members::direct_members(s, c)
                } else {
                    Ok(Seq::empty())
                },
        );
        entry_laws::law_children_stand_directly_below(s, k);
        entry_laws::law_nothing_is_gathered_by_halves(parts);
        let c = kids[n - 1];
        assert(kids.contains(c));
        assert(parts[n - 1] is Ok);
        let here = if s[c].tag == 0x19 {
            law_every_typed_child_is_a_direct_member(s, c)
        } else {
            Seq::empty()
        };
        assert forall|j: int| 0 <= j < here.len() implies k < c <= #[trigger] here[j] && (here[j]
            == c || entry_laws::is_below(s, c, here[j])) by {
            assert(here.contains(here[j]));
        }
        assert(fits(s, here, payload_part(s, c), k, c));
        let subs = before.push(here);
        assert forall|i: int| 0 <= i < n implies fits(
            s,
            #[trigger] subs[i],
            payload_part(s, kids[i]),
            k,
            kids[i],
        ) && forall|x: int|
            #![trigger subs[i].contains(x)]
            subs[i].contains(x) <==> s[kids[i]].tag == 0x19 && kids[i] < x < s.len()
                && entry_laws::is_child(s, kids[i], x) && is_typed(s[x]) by {
            if i < n - 1 {
                assert(subs[i] == before[i]);
            }
        }
        subs
    }
}

/// The members of a structure are all the typed members directly below it and
/// those of the variants of its variant parts, in their order.
pub proof fn law_every_member_is_listed(s: Seq<EntrySpec>, k: int) -> (picks: Seq<int>)
    requires
        0 <= k < s.len(),
        members::members_of(s, k) is Ok,
    ensures
        are_members(s, members::members_of(s, k)->Ok_0, picks),
        forall|c: int|
            #![trigger picks.contains(c)]
            picks.contains(c) <==> k < c < s.len() && is_member_of(s, k, c),
{
    let kids = unit::children(s, k);
    let parts = kids.map_values(
        |c: int|
            if s[c].tag == unit::TAG_VARIANT_PART {
                members::payload_members(s, c)
            } else {
                members::member_of(s[c])
            },
    );
    entry_laws::law_children_stand_directly_below(s, k);
    entry_laws::law_nothing_is_gathered_by_halves(parts);
    let subs = lemma_member_subs(s, k, kids.len() as int);
    assert forall|i: int| 0 <= i < subs.len() implies fits(
        s,
        #[trigger] subs[i],
        parts[i],
        k,
        kids[i],
    ) by {
        assert(parts[i] == member_part(s, kids[i]));
    }
    lemma_joined_members(s, k, parts, subs);
    let picks = entry_laws::joined(subs);
    assert forall|c: int| picks.contains(c) implies k < c < s.len() && is_member_of(s, k, c) by {
        let (i, m) = choose|i: int, m: int|
            0 <= i < subs.len() && 0 <= m < subs[i].len() && #[trigger] subs[i][m] == c;
        assert(subs[i].contains(c));
        assert(kids.contains(kids[i]));
        assert(entry_laws::is_child(s, k, kids[i]));
        assert(is_member_below(s, kids[i], c));
    }
    assert forall|c: int| k < c < s.len() && is_member_of(s, k, c) implies picks.contains(c) by {
        if entry_laws::is_child(s, k, c) && is_typed(s[c]) {
            assert(kids.contains(c));
            let i = choose|i: int| 0 <= i < kids.len() && kids[i] == c;
            assert(is_member_below(s, kids[i], c));
            assert(subs[i].contains(c));
            let m = choose|m: int| 0 <= m < subs[i].len() && subs[i][m] == c;
            assert(subs[i][m] == c);
        } else {
            let p = choose|p: int|
                k < p < c && #[trigger] entry_laws::is_child(s, k, p) && s[p].tag == 0x33
                    && is_payload(s, p, c);
            assert(kids.contains(p));
            let i = choose|i: int| 0 <= i < kids.len() && kids[i] == p;
            assert(is_member_below(s, kids[i], c));
            assert(subs[i].contains(c));
            let m = choose|m: int| 0 <= m < subs[i].len() && subs[i][m] == c;
            assert(subs[i][m] == c);
        }
        assert(entry_laws::is_of_some(subs, c));
    }
    picks
}

spec fn is_member_below(s: Seq<EntrySpec>, kid: int, c: int) -> bool {
    if s[kid].tag == 0x33 {
        c < s.len() && is_payload(s, kid, c)
    } else {
        c == kid && is_typed(s[c])
    }
}

proof fn lemma_member_subs(s: Seq<EntrySpec>, k: int, n: int) -> (subs: Seq<Seq<int>>)
    requires
        0 <= k < s.len(),
        0 <= n <= unit::children(s, k).len(),
        members::members_of(s, k) is Ok,
    ensures
        subs.len() == n,
        forall|i: int|
            0 <= i < n ==> fits(
                s,
                #[trigger] subs[i],
                member_part(s, unit::children(s, k)[i]),
                k,
                unit::children(s, k)[i],
            ) && forall|c: int|
                #![trigger subs[i].contains(c)]
                subs[i].contains(c) <==> is_member_below(s, unit::children(s, k)[i], c),
    decreases n,
{
    if n == 0 {
        Seq::empty()
    } else {
        let before = lemma_member_subs(s, k, n - 1);
        let kids = unit::children(s, k);
        let parts = kids.map_values(
            |c: int|
                if s[c].tag == unit::TAG_VARIANT_PART {
                    members::payload_members(s, c)
                } else {
                    members::member_of(s[c])
                },
        );
        entry_laws::law_children_stand_directly_below(s, k);
        entry_laws::law_nothing_is_gathered_by_halves(parts);
        let c = kids[n - 1];
        assert(kids.contains(c));
        assert(parts[n - 1] is Ok);
        let here = if s[c].tag == 0x33 {
            lemma_payload_picks(s, c)
        } else if is_typed(s[c]) {
            seq![c]
        } else {
            Seq::empty()
        };
        assert(seq![c].contains(c)) by {
            assert(seq![c][0] == c);
        }
        assert(fits(s, here, member_part(s, c), k, c));
        let subs = before.push(here);
        assert forall|i: int| 0 <= i < n implies fits(
            s,
            #[trigger] subs[i],
            member_part(s, kids[i]),
            k,
            kids[i],
        ) && forall|x: int|
            #![trigger subs[i].contains(x)]
            subs[i].contains(x) <==> is_member_below(s, kids[i], x) by {
            if i < n - 1 {
                assert(subs[i] == before[i]);
            }
        }
        subs
    }
}

} // verus!
