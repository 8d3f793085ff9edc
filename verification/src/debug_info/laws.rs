//! What it means to stand below an entry, and laws of how entries are gathered
//! and found.
use vstd::prelude::*;

use super::reader::{self, Head, RawUnit};
use super::unit::{self, EntrySpec};

verus! {

/// The entry at `c` stands below the one at `p`: it follows it, and it and all
/// that lies between are deeper.
pub open spec fn is_below(s: Seq<EntrySpec>, p: int, c: int) -> bool {
    p < c && forall|j: int| p < j <= c ==> (#[trigger] s[j]).depth > s[p].depth
}

/// The entry at `c` stands directly below the one at `p`: below it, and below
/// none that lies between.
pub open spec fn is_child(s: Seq<EntrySpec>, p: int, c: int) -> bool {
    is_below(s, p, c) && forall|q: int| p < q < c ==> !(#[trigger] is_below(s, q, c))
}

/// What stands below an entry ends at the first that follows it and is not
/// deeper, or at the end.
pub proof fn law_what_is_below_ends_at_the_first_that_is_not(
    s: Seq<EntrySpec>,
    k: int,
    end: int,
    c: int,
)
    requires
        0 <= k < end <= s.len(),
        k < c < end,
    ensures
        c < unit::below_end(s, k, end) <==> is_below(s, k, c),
        k < unit::below_end(s, k, end) <= end,
{
    lemma_end_from(s, k, k + 1, end);
    let e = unit::below_end(s, k, end);
    if c >= e {
        assert(s[e].depth <= s[k].depth);
    }
}

proof fn lemma_end_from(s: Seq<EntrySpec>, k: int, from: int, end: int)
    requires
        0 <= k < from <= end <= s.len(),
    ensures
        from <= unit::end_from(s, k, from, end) <= end,
        forall|j: int|
            from <= j < unit::end_from(s, k, from, end) ==> (#[trigger] s[j]).depth > s[k].depth,
        unit::end_from(s, k, from, end) < end ==> s[unit::end_from(s, k, from, end)].depth
            <= s[k].depth,
    decreases end - from,
{
    if from < end && s[from].depth > s[k].depth {
        lemma_end_from(s, k, from + 1, end);
    }
}

/// The children of an entry are all those that stand directly below it, in
/// their order.
pub proof fn law_children_stand_directly_below(s: Seq<EntrySpec>, k: int)
    requires
        0 <= k < s.len(),
    ensures
        forall|c: int|
            #![trigger unit::children(s, k).contains(c)]
            #![trigger is_child(s, k, c)]
            unit::children(s, k).contains(c) <==> k < c < s.len() && is_child(s, k, c),
        forall|i: int, j: int|
            0 <= i < j < unit::children(s, k).len() ==> (#[trigger] unit::children(s, k)[i]) < (
            #[trigger] unit::children(s, k)[j]),
{
    let stop = unit::below_end(s, k, s.len() as int);
    lemma_end_from(s, k, k + 1, s.len() as int);
    lemma_siblings_are_topmost(s, k + 1, stop);
    assert forall|c: int| unit::children(s, k).contains(c) <==> k < c < s.len() && is_child(
        s,
        k,
        c,
    ) by {
        if k < c < stop {
            assert(is_below(s, k, c));
            assert(unit::siblings(s, k + 1, stop).contains(c) <==> is_topmost(s, k + 1, c));
        } else if stop <= c < s.len() {
            assert(s[stop].depth <= s[k].depth);
            assert(!is_below(s, k, c));
        }
    }
}

spec fn is_topmost(s: Seq<EntrySpec>, from: int, c: int) -> bool {
    forall|q: int| from <= q < c ==> !(#[trigger] is_below(s, q, c))
}

proof fn lemma_siblings_are_topmost(s: Seq<EntrySpec>, c: int, stop: int)
    requires
        0 <= c,
        stop <= s.len(),
    ensures
        forall|x: int|
            #![trigger unit::siblings(s, c, stop).contains(x)]
            unit::siblings(s, c, stop).contains(x) ==> c <= x < stop,
        forall|x: int|
            #![trigger is_topmost(s, c, x)]
            c <= x < stop ==> (unit::siblings(s, c, stop).contains(x) <==> is_topmost(s, c, x)),
        forall|i: int, j: int|
            0 <= i < j < unit::siblings(s, c, stop).len() ==> (#[trigger] unit::siblings(
                s,
                c,
                stop,
            )[i]) < (#[trigger] unit::siblings(s, c, stop)[j]),
    decreases stop - c,
{
    if c < stop {
        lemma_end_from(s, c, c + 1, stop);
        let next = unit::below_end(s, c, stop);
        let all = unit::siblings(s, c, stop);
        let rest = unit::siblings(s, next, stop);
        lemma_siblings_are_topmost(s, next, stop);
        assert(all == seq![c] + rest);
        assert forall|x: int| all.contains(x) <==> x == c || rest.contains(x) by {
            if rest.contains(x) {
                let i = choose|i: int| 0 <= i < rest.len() && rest[i] == x;
                assert(all[i + 1] == x);
            }
            if all.contains(x) {
                let i = choose|i: int| 0 <= i < all.len() && all[i] == x;
                assert(i > 0 ==> rest[i - 1] == x);
            }
            assert(all[0] == c);
        }
        assert forall|x: int| c <= x < stop implies (all.contains(x) <==> #[trigger] is_topmost(
            s,
            c,
            x,
        )) by {
            if c < x < next {
                assert(is_below(s, c, x));
                assert(!rest.contains(x));
            } else if x >= next {
                assert(s[next].depth <= s[c].depth);
                assert(is_topmost(s, next, x) <==> rest.contains(x));
                assert forall|q: int| c <= q < next implies !(#[trigger] is_below(s, q, x)) by {
                    assert(q == c || s[q].depth > s[c].depth);
                }
            }
        }
        assert forall|i: int, j: int| 0 <= i < j < all.len() implies (#[trigger] all[i]) < (
        #[trigger] all[j]) by {
            assert(all[j] == rest[j - 1]);
            assert(rest.contains(rest[j - 1]));
            if i > 0 {
                assert(all[i] == rest[i - 1]);
            }
        }
    }
}

/// The entry at an offset is the first that starts there.
pub proof fn law_an_offset_leads_to_the_first_entry_there(s: Seq<EntrySpec>, offset: u64, k: nat)
    ensures
        unit::position(s, offset) == Some(k) <==> k < s.len() && s[k as int].offset == offset && (
        forall|j: int| 0 <= j < k ==> (#[trigger] s[j]).offset != offset),
        unit::position(s, offset) is None <==> forall|j: int|
            0 <= j < s.len() ==> (#[trigger] s[j]).offset != offset,
{
    lemma_position_from(s, offset, 0);
}

proof fn lemma_position_from(s: Seq<EntrySpec>, offset: u64, from: nat)
    ensures
        match unit::position_from(s, offset, from) {
            Some(k) => from <= k < s.len() && s[k as int].offset == offset && forall|j: int|
                from <= j < k ==> (#[trigger] s[j]).offset != offset,
            None => forall|j: int| from <= j < s.len() ==> (#[trigger] s[j]).offset != offset,
        },
    decreases s.len() - from,
{
    if from < s.len() && s[from as int].offset != offset {
        lemma_position_from(s, offset, from + 1);
    }
}

/// The first of some entries with a tag is one of them, has the tag, and none
/// before it does.
pub proof fn law_the_first_with_a_tag_is_found(
    s: Seq<EntrySpec>,
    among: Seq<int>,
    tag: u16,
    from: nat,
)
    ensures
        match unit::first_tagged(s, among, tag, from) {
            Some(c) => exists|i: int|
                from <= i < among.len() && #[trigger] among[i] == c && s[c].tag == tag && forall|
                    j: int,
                |
                    from <= j < i ==> s[#[trigger] among[j]].tag != tag,
            None => forall|j: int| from <= j < among.len() ==> s[#[trigger] among[j]].tag != tag,
        },
    decreases among.len() - from,
{
    if from < among.len() {
        if s[among[from as int]].tag != tag {
            law_the_first_with_a_tag_is_found(s, among, tag, from + 1);
            if let Some(c) = unit::first_tagged(s, among, tag, from) {
                let i = choose|i: int|
                    from + 1 <= i < among.len() && #[trigger] among[i] == c && s[c].tag == tag
                        && forall|j: int| from + 1 <= j < i ==> s[#[trigger] among[j]].tag != tag;
                assert(among[i] == c);
            }
        } else {
            assert(among[from as int] == unit::first_tagged(s, among, tag, from)->Some_0);
        }
    }
}

/// What is gathered is whole or nothing: it is there if, and only if, every
/// part is, and the first part that is not tells why.
pub proof fn law_nothing_is_gathered_by_halves<T>(parts: Seq<Result<Seq<T>, Seq<char>>>)
    ensures
        unit::gathered(parts) is Ok <==> forall|i: int|
            0 <= i < parts.len() ==> (#[trigger] parts[i]) is Ok,
        unit::gathered(parts) matches Err(e) ==> exists|i: int|
            0 <= i < parts.len() && #[trigger] parts[i] == Err::<Seq<T>, Seq<char>>(e) && forall|
                j: int,
            |
                0 <= j < i ==> (#[trigger] parts[j]) is Ok,
    decreases parts.len(),
{
    if parts.len() > 0 {
        let before = parts.drop_last();
        law_nothing_is_gathered_by_halves(before);
        if unit::gathered(before) is Ok {
            assert forall|i: int| 0 <= i < parts.len() - 1 implies (#[trigger] parts[i]) is Ok by {
                assert(before[i] == parts[i]);
            }
            assert(parts[parts.len() - 1] == parts.last());
        } else {
            let e = unit::gathered(before)->Err_0;
            let i = choose|i: int|
                0 <= i < before.len() && #[trigger] before[i] == Err::<Seq<T>, Seq<char>>(e)
                    && forall|j: int| 0 <= j < i ==> (#[trigger] before[j]) is Ok;
            assert(parts[i] == before[i]);
            assert forall|j: int| 0 <= j < i implies (#[trigger] parts[j]) is Ok by {
                assert(before[j] == parts[j]);
            }
        }
    }
}

/// The parts are gathered in their order: what is gathered of two runs of parts
/// is what is gathered of the first, then of the second; one part alone is what
/// is gathered of it.
pub proof fn law_parts_are_gathered_in_order<T>(
    a: Seq<Result<Seq<T>, Seq<char>>>,
    b: Seq<Result<Seq<T>, Seq<char>>>,
)
    requires
        unit::gathered(a) is Ok,
        unit::gathered(b) is Ok,
    ensures
        unit::gathered(a + b) == Ok::<Seq<T>, Seq<char>>(
            unit::gathered(a)->Ok_0 + unit::gathered(b)->Ok_0,
        ),
        b.len() == 1 ==> unit::gathered(b) == b[0],
    decreases b.len(),
{
    if b.len() == 0 {
        assert(a + b =~= a);
        assert(unit::gathered(a)->Ok_0 + unit::gathered(b)->Ok_0 =~= unit::gathered(a)->Ok_0);
    } else {
        let c = b.drop_last();
        law_parts_are_gathered_in_order(a, c);
        assert((a + b).drop_last() =~= a + c);
        assert((a + b).last() == b.last());
        let (x, y, z) = (unit::gathered(a)->Ok_0, unit::gathered(c)->Ok_0, b.last()->Ok_0);
        assert(x + y + z =~= x + (y + z));
        if b.len() == 1 {
            assert(c.len() == 0);
            assert(y + z =~= z);
        }
    }
}

/// The values are those of the parts at `picks`, in their order, and every
/// other part is empty.
pub open spec fn are_gathered<T>(
    all: Seq<T>,
    parts: Seq<Result<Seq<T>, Seq<char>>>,
    picks: Seq<int>,
) -> bool {
    &&& all.len() == picks.len()
    &&& forall|j: int|
        0 <= j < picks.len() ==> 0 <= #[trigger] picks[j] < parts.len() && parts[picks[j]] == Ok::<
            Seq<T>,
            Seq<char>,
        >(seq![all[j]])
    &&& forall|j: int, k: int|
        0 <= j < k < picks.len() ==> (#[trigger] picks[j]) < (#[trigger] picks[k])
    &&& forall|i: int|
        0 <= i < parts.len() && (#[trigger] parts[i])->Ok_0.len() > 0 ==> picks.contains(i)
}

/// Where no part holds more than one value, each value that is gathered is that
/// of one part, and each part that holds one gives it once, in order.
pub proof fn law_each_part_gives_its_value<T>(parts: Seq<Result<Seq<T>, Seq<char>>>) -> (picks: Seq<
    int,
>)
    requires
        unit::gathered(parts) is Ok,
        forall|i: int| 0 <= i < parts.len() ==> (#[trigger] parts[i])->Ok_0.len() <= 1,
    ensures
        are_gathered(unit::gathered(parts)->Ok_0, parts, picks),
    decreases parts.len(),
{
    law_nothing_is_gathered_by_halves(parts);
    if parts.len() == 0 {
        Seq::empty()
    } else {
        let before = parts.drop_last();
        assert forall|i: int| 0 <= i < before.len() implies (#[trigger] before[i])->Ok_0.len()
            <= 1 by {
            assert(before[i] == parts[i]);
        }
        let some = law_each_part_gives_its_value(before);
        let n = parts.len() - 1;
        let all = unit::gathered(parts)->Ok_0;
        let picks = if parts[n]->Ok_0.len() > 0 {
            some.push(n)
        } else {
            some
        };
        if parts[n]->Ok_0.len() > 0 {
            assert(seq![all.last()] =~= parts[n]->Ok_0);
        }
        assert forall|j: int| 0 <= j < picks.len() implies 0 <= #[trigger] picks[j] < parts.len()
            && parts[picks[j]] == Ok::<Seq<T>, Seq<char>>(seq![all[j]]) by {
            if j < some.len() {
                assert(picks[j] == some[j]);
                assert(before[some[j]] == parts[some[j]]);
            }
        }
        assert forall|i: int|
            0 <= i < parts.len() && (#[trigger] parts[i])->Ok_0.len()
                > 0 implies picks.contains(i) by {
            if i < n {
                assert(before[i] == parts[i]);
                let k = choose|k: int| 0 <= k < some.len() && some[k] == i;
                assert(picks[k] == i);
            } else {
                assert(picks.last() == i);
            }
        }
        picks
    }
}

/// The positions of all the parts, one part after the other.
pub open spec fn joined(subs: Seq<Seq<int>>) -> Seq<int>
    decreases subs.len(),
{
    if subs.len() == 0 {
        Seq::empty()
    } else {
        joined(subs.drop_last()) + subs.last()
    }
}

/// The position is one of some part's.
pub open spec fn is_of_some(subs: Seq<Seq<int>>, x: int) -> bool {
    exists|i: int, m: int|
        0 <= i < subs.len() && 0 <= m < subs[i].len() && #[trigger] subs[i][m] == x
}

/// Where each value of each part belongs to a position, each value that is
/// gathered belongs to the position at its place among all of them; these are
/// the positions of the parts, and rise where the parts' do.
pub proof fn law_gathered_values_keep_their_positions<T>(
    parts: Seq<Result<Seq<T>, Seq<char>>>,
    subs: Seq<Seq<int>>,
    belongs: spec_fn(T, int) -> bool,
)
    requires
        unit::gathered(parts) is Ok,
        subs.len() == parts.len(),
        forall|i: int| #![auto] 0 <= i < parts.len() ==> subs[i].len() == parts[i]->Ok_0.len(),
        forall|i: int, m: int|
            #![trigger subs[i][m]]
            0 <= i < parts.len() && 0 <= m < subs[i].len() ==> belongs(
                parts[i]->Ok_0[m],
                subs[i][m],
            ),
        forall|i: int, m: int, n: int|
            #![trigger subs[i][m], subs[i][n]]
            0 <= i < parts.len() && 0 <= m < n < subs[i].len() ==> subs[i][m] < subs[i][n],
        forall|i: int, j: int, m: int, n: int|
            #![trigger subs[i][m], subs[j][n]]
            0 <= i < j < parts.len() && 0 <= m < subs[i].len() && 0 <= n < subs[j].len()
                ==> subs[i][m] < subs[j][n],
    ensures
        joined(subs).len() == unit::gathered(parts)->Ok_0.len(),
        forall|j: int|
            0 <= j < joined(subs).len() ==> belongs(
                unit::gathered(parts)->Ok_0[j],
                #[trigger] joined(subs)[j],
            ),
        forall|j: int, k: int|
            0 <= j < k < joined(subs).len() ==> (#[trigger] joined(subs)[j]) < (#[trigger] joined(
                subs,
            )[k]),
        forall|j: int|
            0 <= j < joined(subs).len() ==> is_of_some(subs, #[trigger] joined(subs)[j]),
        forall|i: int, m: int|
            0 <= i < subs.len() && 0 <= m < subs[i].len() ==> joined(subs).contains(
                #[trigger] subs[i][m],
            ),
    decreases parts.len(),
{
    law_nothing_is_gathered_by_halves(parts);
    if parts.len() > 0 {
        let (before, least) = (parts.drop_last(), subs.drop_last());
        let n = parts.len() - 1;
        assert forall|i: int| 0 <= i < n implies before[i] == #[trigger] parts[i] && least[i]
            == subs[i] by {}
        assert forall|i: int, m: int|
            #![trigger least[i][m]]
            0 <= i < n && 0 <= m < least[i].len() implies belongs(
            before[i]->Ok_0[m],
            least[i][m],
        ) by {
            assert(least[i][m] == subs[i][m]);
            assert(before[i] == parts[i]);
        }
        assert forall|i: int, m: int, k: int|
            #![trigger least[i][m], least[i][k]]
            0 <= i < n && 0 <= m < k < least[i].len() implies least[i][m] < least[i][k] by {
            assert(subs[i][m] < subs[i][k]);
        }
        assert forall|i: int, j: int, m: int, k: int|
            #![trigger least[i][m], least[j][k]]
            0 <= i < j < n && 0 <= m < least[i].len() && 0 <= k < least[j].len() implies least[i][m]
            < least[j][k] by {
            assert(subs[i][m] < subs[j][k]);
        }
        law_gathered_values_keep_their_positions(before, least, belongs);
        let (a, b) = (joined(least), subs[n]);
        let all = joined(subs);
        assert(all == a + b);
        let (x, y) = (unit::gathered(before)->Ok_0, parts[n]->Ok_0);
        assert(unit::gathered(parts)->Ok_0 == x + y);
        assert forall|j: int| 0 <= j < all.len() implies is_of_some(subs, #[trigger] all[j]) by {
            if j < a.len() {
                assert(is_of_some(least, a[j]));
                let (i, m) = choose|i: int, m: int|
                    0 <= i < least.len() && 0 <= m < least[i].len() && #[trigger] least[i][m]
                        == a[j];
                assert(subs[i][m] == all[j]);
            } else {
                assert(subs[n][j - a.len()] == all[j]);
            }
        }
        assert forall|j: int| 0 <= j < all.len() implies belongs(
            unit::gathered(parts)->Ok_0[j],
            #[trigger] all[j],
        ) by {
            if j < a.len() {
                assert(all[j] == a[j]);
            } else {
                assert(subs[n][j - a.len()] == all[j]);
            }
        }
        assert forall|j: int, k: int| 0 <= j < k < all.len() implies (#[trigger] all[j]) < (
        #[trigger] all[k]) by {
            if k < a.len() {
                assert(a[j] < a[k]);
            } else if j < a.len() {
                assert(is_of_some(least, a[j]));
                let (i, m) = choose|i: int, m: int|
                    0 <= i < least.len() && 0 <= m < least[i].len() && #[trigger] least[i][m]
                        == a[j];
                assert(subs[i][m] == all[j]);
                assert(subs[n][k - a.len()] == all[k]);
            } else {
                assert(subs[n][j - a.len()] == all[j]);
                assert(subs[n][k - a.len()] == all[k]);
            }
        }
        assert forall|i: int, m: int| 0 <= i < subs.len() && 0 <= m < subs[i].len() implies all.contains(
            #[trigger] subs[i][m],
        ) by {
            if i < n {
                assert(a.contains(least[i][m]));
                let j = choose|j: int| 0 <= j < a.len() && a[j] == least[i][m];
                assert(all[j] == subs[i][m]);
            } else {
                assert(all[a.len() + m] == subs[i][m]);
            }
        }
    }
}

/// Of two entries directly below a third, what stands below the first lies
/// before the second.
pub proof fn law_what_is_below_a_sibling_lies_before_the_next(
    s: Seq<EntrySpec>,
    k: int,
    a: int,
    b: int,
    x: int,
)
    requires
        is_child(s, k, a),
        is_child(s, k, b),
        a < b,
        is_below(s, a, x),
    ensures
        x < b,
{
    if x >= b {
        assert(is_below(s, a, b));
    }
}

/// An entry holds the attributes of its head: name 0x03, producer 0x25, type
/// 0x49, discriminant 0x15, place 0x38, location 0x02, first address 0x11, size
/// 0x0b, discriminant value 0x16, and the line 0x3b and the file 0x3a of its
/// declaration. The last five count as absent where they cannot be read.
pub proof fn law_an_entry_holds_its_attributes(raw: RawUnit, head: Head, depth: i64)
    ensures
        ({
            let e = unit::entry_of(raw, head, depth);
            let all = raw.entries[head.1];
            &&& e.offset == head.1
            &&& e.tag == head.2
            &&& e.depth == depth
            &&& reader::index_fits(all.indices, 0x03u16) ==> e.name == reader::attribute(
                all.texts,
                0x03u16,
            )
            &&& reader::index_fits(all.indices, 0x25u16) ==> e.producer == reader::attribute(
                all.texts,
                0x25u16,
            )
            &&& reader::index_fits(all.indices, 0x11u16) ==> e.low_pc == reader::attribute(
                all.addresses,
                0x11u16,
            )
            &&& !reader::index_fits(all.indices, 0x03u16) ==> e.name is Err
            &&& !reader::index_fits(all.indices, 0x25u16) ==> e.producer is Err
            &&& !reader::index_fits(all.indices, 0x11u16) ==> e.low_pc is Err
            &&& e.type_ref == reader::attribute(all.references, 0x49u16)
            &&& e.discr_ref == reader::attribute(all.references, 0x15u16)
            &&& e.member_location == reader::attribute(all.constants, 0x38u16)
            &&& e.location == reader::attribute(all.expressions, 0x02u16)
            &&& reader::attribute(all.constants, 0x0bu16) is Ok ==> e.byte_size
                == reader::attribute(all.constants, 0x0bu16)->Ok_0
            &&& reader::attribute(all.constants, 0x0bu16) is Err ==> e.byte_size is None
            &&& reader::attribute(all.constants, 0x16u16) is Ok ==> e.discr_value
                == reader::attribute(all.constants, 0x16u16)->Ok_0
            &&& reader::attribute(all.constants, 0x16u16) is Err ==> e.discr_value is None
            &&& reader::attribute(all.constants, 0x3bu16) is Ok ==> e.decl_line
                == reader::attribute(all.constants, 0x3bu16)->Ok_0
            &&& reader::attribute(all.constants, 0x3bu16) is Err ==> e.decl_line is None
            &&& e.decl_path is Some ==> (reader::attribute(all.constants, 0x3au16) matches Ok(
                Some(number),
            ) && raw.files.contains_key(number) && e.decl_path == Some(raw.files[number]))
        }),
{
}

/// An entry is as deep as the one before it and its own step together, the first
/// as deep as its step.
pub proof fn law_depths_add_up(heads: Seq<Head>, i: int)
    requires
        0 <= i < heads.len(),
    ensures
        i == 0 ==> unit::depth_at(heads, i) == heads[i].0,
        i > 0 && i64::MIN <= unit::depth_at(heads, i - 1) + heads[i].0 <= i64::MAX
            ==> unit::depth_at(heads, i) == unit::depth_at(heads, i - 1) + heads[i].0,
{
    assert(unit::depth_at(heads, -1) == 0);
}

} // verus!
