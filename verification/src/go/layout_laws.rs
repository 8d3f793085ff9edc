//! Laws of how the layout of the Go runtime is resolved: from the fields of the
//! runtime's own structures, else from what is vendored for its version.
use vstd::prelude::*;

use super::dwarf::{self, DwarfExtract, Findings, Named, Structure};
use super::error::GoDecodeErrorSpec;
use super::offsets::{self, GStructOffsets, GoLayout, LayoutSource};
use super::version::GoVersion;
use crate::bytes;
use crate::debug_info::laws as entry_laws;
use crate::debug_info::object_file;
use crate::debug_info::unit::{self, EntrySpec, UnitSpec};

verus! {

// ---------------------------------------------------------------------------
// Fields and variables
// ---------------------------------------------------------------------------

/// The entry is a member (tag 0x0d) with that name and place.
pub open spec fn is_field(e: EntrySpec, name: Seq<char>, at: u64) -> bool {
    e.tag == 0x0d && e.name == Ok::<_, Seq<char>>(Some(name)) && e.member_location == Ok::<
        _,
        Seq<char>,
    >(Some(at))
}

/// The fields are those of the entries at `picks`, which stand directly below
/// the one at `k`, in their order; no other entry there is a field.
pub open spec fn are_fields(s: Seq<EntrySpec>, k: int, fields: Named, picks: Seq<int>) -> bool {
    &&& fields.len() == picks.len()
    &&& forall|j: int|
        0 <= j < picks.len() ==> k < #[trigger] picks[j] < s.len() && entry_laws::is_child(
            s,
            k,
            picks[j],
        ) && is_field(s[picks[j]], fields[j].0, fields[j].1)
    &&& forall|i: int, j: int|
        0 <= i < j < picks.len() ==> (#[trigger] picks[i]) < (#[trigger] picks[j])
    &&& forall|c: int, name: Seq<char>, at: u64|
        k < c < s.len() && entry_laws::is_child(s, k, c) && #[trigger] is_field(s[c], name, at)
            ==> picks.contains(c)
}

/// The fields of a structure are all the members directly below it that have a
/// name and a place, with that name and at that place, in their order.
pub proof fn law_every_named_member_is_a_field(s: Seq<EntrySpec>, k: int) -> (picks: Seq<int>)
    requires
        0 <= k < s.len(),
        dwarf::fields_of(s, k) is Ok,
    ensures
        are_fields(s, k, dwarf::fields_of(s, k)->Ok_0, picks),
{
    let kids = unit::children(s, k);
    let parts = kids.map_values(|c: int| dwarf::field_of(s[c]));
    let fields = unit::gathered(parts)->Ok_0;
    entry_laws::law_children_stand_directly_below(s, k);
    entry_laws::law_nothing_is_gathered_by_halves(parts);
    let at = entry_laws::law_each_part_gives_its_value(parts);
    let picks = Seq::new(at.len(), |j: int| kids[at[j]]);
    assert forall|j: int| 0 <= j < picks.len() implies k < #[trigger] picks[j] < s.len()
        && entry_laws::is_child(s, k, picks[j]) && is_field(
        s[picks[j]],
        fields[j].0,
        fields[j].1,
    ) by {
        let i = at[j];
        assert(kids.contains(kids[i]));
        assert(parts[i] == dwarf::field_of(s[kids[i]]));
        assert(parts[i]->Ok_0[0] == fields[j]);
    }
    assert forall|c: int, name: Seq<char>, place: u64|
        k < c < s.len() && entry_laws::is_child(s, k, c) && #[trigger] is_field(
            s[c],
            name,
            place,
        ) implies picks.contains(c) by {
        assert(kids.contains(c));
        let i = choose|i: int| 0 <= i < kids.len() && kids[i] == c;
        assert(parts[i] == dwarf::field_of(s[c]));
        assert(parts[i]->Ok_0.len() == 1);
        let j = choose|j: int| 0 <= j < at.len() && at[j] == i;
        assert(picks[j] == c);
    }
    picks
}

/// The fields of a structure can be read if, and only if, the name and the place
/// of every member directly below it can be read; the lack of either is no error.
pub proof fn law_fields_are_read_or_refused(s: Seq<EntrySpec>, k: int)
    requires
        0 <= k < s.len(),
    ensures
        dwarf::fields_of(s, k) is Ok <==> forall|c: int|
            k < c < s.len() && (#[trigger] entry_laws::is_child(s, k, c)) && s[c].tag == 0x0d
                ==> s[c].name is Ok && s[c].member_location is Ok,
{
    let kids = unit::children(s, k);
    let parts = kids.map_values(|c: int| dwarf::field_of(s[c]));
    entry_laws::law_children_stand_directly_below(s, k);
    entry_laws::law_nothing_is_gathered_by_halves(parts);
    if dwarf::fields_of(s, k) is Ok {
        assert forall|c: int|
            k < c < s.len() && (#[trigger] entry_laws::is_child(s, k, c)) && s[c].tag
                == 0x0d implies s[c].name is Ok && s[c].member_location is Ok by {
            assert(kids.contains(c));
            let i = choose|i: int| 0 <= i < kids.len() && kids[i] == c;
            assert(parts[i] == dwarf::field_of(s[c]));
            assert(parts[i] is Ok);
        }
    }
    if forall|c: int|
        k < c < s.len() && (#[trigger] entry_laws::is_child(s, k, c)) && s[c].tag == 0x0d
            ==> s[c].name is Ok && s[c].member_location is Ok {
        assert forall|i: int| 0 <= i < parts.len() implies (#[trigger] parts[i]) is Ok by {
            assert(kids.contains(kids[i]));
            assert(entry_laws::is_child(s, k, kids[i]));
        }
    }
}

/// A location expression gives an address if, and only if, it is the operation
/// 0x03 with an address of one, two, four or eight bytes: the number that they
/// spell, the least significant byte first or last as the file orders them.
pub proof fn law_an_address_is_what_its_bytes_spell(
    expr: Seq<u8>,
    size: u8,
    little_endian: bool,
    addr: u64,
)
    ensures
        dwarf::static_address(expr, size, little_endian) == Some(addr) <==> (size == 1 || size == 2
            || size == 4 || size == 8) && expr.len() > size && expr[0] == 0x03 && (if little_endian {
            bytes::spells(expr.subrange(1, 1 + size), addr as int)
        } else {
            bytes::spells(expr.subrange(1, 1 + size).reverse(), addr as int)
        }),
        dwarf::static_address(expr, size, little_endian) is Some <==> (size == 1 || size == 2 || size
            == 4 || size == 8) && expr.len() > size && expr[0] == 0x03,
{
    if (size == 1 || size == 2 || size == 4 || size == 8) && expr.len() > size {
        let field = expr.subrange(1, 1 + size);
        bytes::law_bytes_read_as_what_they_spell(field, addr as int);
        bytes::law_turned_bytes_spell_the_number(field, addr as int);
        bytes::lemma_pow256_values();
        bytes::lemma_le_bound(field);
        bytes::lemma_le_bound(field.reverse());
    }
}

/// The entry is one of the four structures whose fields are wanted.
pub open spec fn is_wanted(e: EntrySpec, name: Seq<char>) -> bool {
    e.tag == 0x13 && e.name == Ok::<_, Seq<char>>(Some(name)) && (name == "runtime.g"@ || name
        == "runtime.gobuf"@ || name == "runtime.stack"@ || name == "runtime.m"@)
}

/// The entry is one of the two variables whose address is wanted, and gives it.
pub open spec fn is_variable(u: UnitSpec, e: EntrySpec, name: Seq<char>, addr: u64) -> bool {
    &&& e.tag == 0x34
    &&& e.name == Ok::<_, Seq<char>>(Some(name))
    &&& name == "runtime.allgs"@ || name == "runtime.allglen"@
    &&& e.location matches Ok(Some(expr)) && dwarf::static_address(
        expr,
        u.address_size,
        u.little_endian,
    ) == Some(addr)
}

/// The entry stands below a structure whose fields are wanted.
pub open spec fn is_inside(s: Seq<EntrySpec>, from: int, c: int) -> bool {
    exists|p: int|
        from <= p < c && #[trigger] entry_laws::is_below(s, p, c) && dwarf::is_target(s[p])
}

/// What was found among the entries from `from` to `end`: the structures at
/// `structs` with their fields and the variables at `vars` with their addresses,
/// in order, and no other that stands outside those structures.
pub open spec fn are_findings(
    u: UnitSpec,
    from: int,
    end: int,
    known: Findings,
    found: Findings,
    structs: Seq<int>,
    vars: Seq<int>,
) -> bool {
    let s = u.entries;
    &&& found.structs.len() == known.structs.len() + structs.len()
    &&& found.structs.take(known.structs.len() as int) == known.structs
    &&& found.vars.len() == known.vars.len() + vars.len()
    &&& found.vars.take(known.vars.len() as int) == known.vars
    &&& forall|j: int|
        0 <= j < structs.len() ==> from <= #[trigger] structs[j] < end && is_wanted(
            s[structs[j]],
            found.structs[known.structs.len() + j].0,
        ) && dwarf::fields_of(s, structs[j]) == Ok::<_, Seq<char>>(
            found.structs[known.structs.len() + j].1,
        )
    &&& forall|j: int|
        0 <= j < vars.len() ==> from <= #[trigger] vars[j] < end && is_variable(
            u,
            s[vars[j]],
            found.vars[known.vars.len() + j].0,
            found.vars[known.vars.len() + j].1,
        )
    &&& forall|i: int, j: int|
        0 <= i < j < structs.len() ==> (#[trigger] structs[i]) < (#[trigger] structs[j])
    &&& forall|i: int, j: int| 0 <= i < j < vars.len() ==> (#[trigger] vars[i]) < (#[trigger] vars[j])
    &&& forall|c: int, name: Seq<char>|
        from <= c < end && #[trigger] is_wanted(s[c], name) && !is_inside(s, from, c)
            ==> structs.contains(c)
    &&& forall|c: int, name: Seq<char>, addr: u64|
        from <= c < end && #[trigger] is_variable(u, s[c], name, addr) && !is_inside(s, from, c)
            ==> vars.contains(c)
}

/// A unit adds each wanted structure with its fields and each wanted variable
/// with its static address, in order and after what was known, and nothing else;
/// what stands inside a wanted structure is not looked at.
pub proof fn law_every_wanted_entry_is_found(
    u: UnitSpec,
    from: int,
    end: int,
    known: Findings,
) -> (picks: (Seq<int>, Seq<int>))
    requires
        0 <= from,
        end <= u.entries.len(),
        dwarf::findings_among(u, from, end, known) is Ok,
    ensures
        are_findings(
            u,
            from,
            end,
            known,
            dwarf::findings_among(u, from, end, known)->Ok_0,
            picks.0,
            picks.1,
        ),
    decreases end - from,
{
    let s = u.entries;
    let found = dwarf::findings_among(u, from, end, known)->Ok_0;
    if from >= end {
        assert(found.structs.take(known.structs.len() as int) =~= known.structs);
        assert(found.vars.take(known.vars.len() as int) =~= known.vars);
        (Seq::empty(), Seq::empty())
    } else {
        let e = s[from];
        let more = dwarf::with_entry(u, from, known)->Ok_0;
        unit::lemma_below_end(s, from, from + 1, end);
        let next = if dwarf::is_target(e) {
            unit::below_end(s, from, end)
        } else {
            from + 1
        };
        let rest = law_every_wanted_entry_is_found(u, next, end, more);
        let is_struct = dwarf::is_target(e);
        let is_var = more.vars.len() > known.vars.len();
        let structs = if is_struct {
            seq![from] + rest.0
        } else {
            rest.0
        };
        let vars = if is_var {
            seq![from] + rest.1
        } else {
            rest.1
        };
        let (m, v) = (known.structs.len(), known.vars.len());
        if is_struct {
            assert(more.structs.last().0 == e.name->Ok_0->Some_0);
            assert(more.structs.take(m as int) =~= known.structs);
            assert(found.structs.take(m as int) =~= found.structs.take((m + 1) as int).take(
                m as int,
            ));
            assert(found.structs[m as int] == found.structs.take((m + 1) as int)[m as int]);
        }
        if is_var {
            assert(more.vars.take(v as int) =~= known.vars);
            assert(found.vars.take(v as int) =~= found.vars.take((v + 1) as int).take(v as int));
            assert(found.vars[v as int] == found.vars.take((v + 1) as int)[v as int]);
        }
        assert forall|j: int| 0 <= j < structs.len() implies from <= #[trigger] structs[j] < end
            && is_wanted(s[structs[j]], found.structs[m + j].0) && dwarf::fields_of(s, structs[j])
            == Ok::<_, Seq<char>>(found.structs[m + j].1) by {
            if is_struct {
                if j > 0 {
                    assert(structs[j] == rest.0[j - 1]);
                }
            } else {
                assert(structs[j] == rest.0[j]);
            }
        }
        assert forall|j: int| 0 <= j < vars.len() implies from <= #[trigger] vars[j] < end
            && is_variable(u, s[vars[j]], found.vars[v + j].0, found.vars[v + j].1) by {
            if is_var {
                if j > 0 {
                    assert(vars[j] == rest.1[j - 1]);
                }
            } else {
                assert(vars[j] == rest.1[j]);
            }
        }
        assert forall|i: int, j: int| 0 <= i < j < structs.len() implies (#[trigger] structs[i]) < (
        #[trigger] structs[j]) by {
            if is_struct {
                assert(structs[j] == rest.0[j - 1]);
                assert(i > 0 ==> structs[i] == rest.0[i - 1]);
            }
        }
        assert forall|i: int, j: int| 0 <= i < j < vars.len() implies (#[trigger] vars[i]) < (
        #[trigger] vars[j]) by {
            if is_var {
                assert(vars[j] == rest.1[j - 1]);
                assert(i > 0 ==> vars[i] == rest.1[i - 1]);
            }
        }
        assert forall|c: int| from <= c < end && !is_inside(s, from, c) implies c == from || (next
            <= c && !is_inside(s, next, c)) by {
            if from < c < next {
                entry_laws::law_what_is_below_ends_at_the_first_that_is_not(s, from, end, c);
            }
            if next <= c && is_inside(s, next, c) {
                let p = choose|p: int|
                    next <= p < c && #[trigger] entry_laws::is_below(s, p, c) && dwarf::is_target(
                        s[p],
                    );
                assert(entry_laws::is_below(s, p, c));
            }
        }
        assert forall|c: int, name: Seq<char>|
            from <= c < end && #[trigger] is_wanted(s[c], name) && !is_inside(
                s,
                from,
                c,
            ) implies structs.contains(c) by {
            if c == from {
                assert(structs[0] == from);
            } else {
                let k = choose|k: int| 0 <= k < rest.0.len() && rest.0[k] == c;
                if is_struct {
                    assert(structs[k + 1] == c);
                } else {
                    assert(structs[k] == c);
                }
            }
        }
        assert forall|c: int, name: Seq<char>, addr: u64|
            from <= c < end && #[trigger] is_variable(u, s[c], name, addr) && !is_inside(
                s,
                from,
                c,
            ) implies vars.contains(c) by {
            if c == from {
                assert(is_var);
                assert(vars[0] == from);
            } else {
                let k = choose|k: int| 0 <= k < rest.1.len() && rest.1[k] == c;
                if is_var {
                    assert(vars[k + 1] == c);
                } else {
                    assert(vars[k] == c);
                }
            }
        }
        (structs, vars)
    }
}

/// Entries whose names can be read, whose wanted structures have fields that can
/// be read, and whose variables have a location that can be read or none, are
/// never refused: a variable without a static address is passed over.
pub proof fn law_readable_entries_are_never_refused(
    u: UnitSpec,
    from: int,
    end: int,
    known: Findings,
)
    requires
        0 <= from,
        end <= u.entries.len(),
        forall|k: int|
            from <= k < end ==> (#[trigger] u.entries[k]).name is Ok && (u.entries[k].tag == 0x34
                ==> u.entries[k].location is Ok),
        forall|k: int|
            from <= k < end && dwarf::is_target(#[trigger] u.entries[k]) ==> dwarf::fields_of(
                u.entries,
                k,
            ) is Ok,
    ensures
        dwarf::findings_among(u, from, end, known) is Ok,
    decreases end - from,
{
    if from < end {
        let e = u.entries[from];
        let more = dwarf::with_entry(u, from, known);
        assert(more is Ok);
        unit::lemma_below_end(u.entries, from, from + 1, end);
        law_readable_entries_are_never_refused(
            u,
            if dwarf::is_target(e) {
                unit::below_end(u.entries, from, end)
            } else {
                from + 1
            },
            end,
            more->Ok_0,
        );
    }
}

/// The unit at `at[i]` adds to what is known before it, and the next starts where
/// it ends.
pub open spec fn is_step(
    d: Seq<(Seq<char>, Seq<u8>)>,
    little_endian: bool,
    at: Seq<int>,
    known: Seq<Findings>,
    i: int,
) -> bool {
    unit::loaded(d, little_endian, at[i] as nat, false) matches Ok((u, length))
        && dwarf::with_unit(u, known[i]) == Ok::<_, Seq<char>>(known[i + 1]) && at[i + 1] == at[i]
        + length
}

/// Units are read one after the other.
pub open spec fn is_run(
    d: Seq<(Seq<char>, Seq<u8>)>,
    little_endian: bool,
    at: Seq<int>,
    known: Seq<Findings>,
) -> bool {
    &&& at.len() == known.len()
    &&& at.len() > 0
    &&& forall|i: int|
        0 <= i < at.len() - 1 ==> #[trigger] is_step(d, little_endian, at, known, i)
}

/// Every unit from a place to the end of `.debug_info` is read, each adding to
/// what those before it told. (A unit without a length, or with one that goes
/// beyond the end, is the last.)
#[verifier::rlimit(40)]
#[verifier::spinoff_prover]
pub proof fn law_every_unit_is_read(
    d: Seq<(Seq<char>, Seq<u8>)>,
    little_endian: bool,
    from: nat,
    known: Findings,
) -> (r: (Seq<int>, Seq<Findings>))
    requires
        dwarf::findings_from(d, little_endian, from, known) is Ok,
    ensures
        is_run(d, little_endian, r.0, r.1),
        r.0[0] == from,
        r.1[0] == known,
        r.1.last() == dwarf::findings_from(d, little_endian, from, known)->Ok_0,
        r.0.last() >= object_file::section_named(d, ".debug_info"@, 0).len() || (r.0.len() > 1
            && r.0.last() == r.0[r.0.len() - 2]),
    decreases object_file::section_named(d, ".debug_info"@, 0).len() - from,
{
    let end = object_file::section_named(d, ".debug_info"@, 0).len();
    if from >= end {
        (seq![from as int], seq![known])
    } else {
        let (u, length) = unit::loaded(d, little_endian, from, false)->Ok_0;
        let more = dwarf::with_unit(u, known)->Ok_0;
        if length == 0 || from + length > end {
            let r = (seq![from as int, from + length], seq![known, more]);
            assert(is_step(d, little_endian, r.0, r.1, 0));
            r
        } else {
            let rest = law_every_unit_is_read(d, little_endian, from + length as nat, more);
            let at = seq![from as int] + rest.0;
            let all = seq![known] + rest.1;
            assert forall|i: int| 0 <= i < at.len() - 1 implies #[trigger] is_step(
                d,
                little_endian,
                at,
                all,
                i,
            ) by {
                if i > 0 {
                    assert(is_step(d, little_endian, rest.0, rest.1, i - 1));
                    assert(all[i] == rest.1[i - 1] && all[i + 1] == rest.1[i]);
                    assert(at[i] == rest.0[i - 1] && at[i + 1] == rest.0[i]);
                } else {
                    assert(all[1] == rest.1[0] && at[1] == rest.0[0]);
                }
            }
            assert(all.last() == rest.1.last());
            assert(at.last() == rest.0.last());
            if rest.0.len() > 1 {
                assert(at[at.len() - 2] == rest.0[rest.0.len() - 2]);
            }
            (at, all)
        }
    }
}

// ---------------------------------------------------------------------------
// Offsets
// ---------------------------------------------------------------------------

/// The field at `j` of the structure at `i` is the one that counts under those
/// names: the last of its name in the first structure of its name.
pub open spec fn is_placed_at(
    structs: Seq<Structure>,
    of: Seq<char>,
    name: Seq<char>,
    at: u64,
    i: int,
    j: int,
) -> bool {
    &&& 0 <= i < structs.len()
    &&& structs[i].0 == of
    &&& forall|k: int| 0 <= k < i ==> (#[trigger] structs[k]).0 != of
    &&& 0 <= j < structs[i].1.len()
    &&& structs[i].1[j] == (name, at)
    &&& forall|k: int| j < k < structs[i].1.len() ==> (#[trigger] structs[i].1[k]).0 != name
}

/// A structure has a field at a place.
pub open spec fn is_placed(structs: Seq<Structure>, of: Seq<char>, name: Seq<char>, at: u64) -> bool {
    exists|i: int, j: int| #[trigger] is_placed_at(structs, of, name, at, i, j)
}

/// A structure has a field.
pub open spec fn has_field(structs: Seq<Structure>, of: Seq<char>, name: Seq<char>) -> bool {
    exists|at: u64| #[trigger] is_placed(structs, of, name, at)
}

/// A field counts where the first structure of its structure's name has it, at
/// the place of the last such field.
pub proof fn law_a_field_has_one_place(
    structs: Seq<Structure>,
    of: Seq<char>,
    name: Seq<char>,
    at: u64,
)
    ensures
        dwarf::field_place(structs, of, name) == Some(at) <==> is_placed(structs, of, name, at),
        dwarf::field_place(structs, of, name) is Some <==> has_field(structs, of, name),
{
    lemma_field_place(structs, of, name, at);
    if let Some(found) = dwarf::field_place(structs, of, name) {
        lemma_field_place(structs, of, name, found);
    }
    if has_field(structs, of, name) {
        let any = choose|any: u64| #[trigger] is_placed(structs, of, name, any);
        lemma_field_place(structs, of, name, any);
    }
}

proof fn lemma_field_place(structs: Seq<Structure>, of: Seq<char>, name: Seq<char>, at: u64)
    ensures
        dwarf::field_place(structs, of, name) == Some(at) <==> is_placed(structs, of, name, at),
{
    let i = lemma_struct_named(structs, of, 0);
    if dwarf::struct_named(structs, of, 0) is Some {
        let fields = structs[i].1;
        let j = lemma_last_named(fields, name);
        if dwarf::field_place(structs, of, name) == Some(at) {
            assert(is_placed_at(structs, of, name, at, i, j));
        }
        if is_placed(structs, of, name, at) {
            let (x, y) = choose|x: int, y: int| #[trigger]
                is_placed_at(structs, of, name, at, x, y);
            assert(x == i) by {
                assert(x < i ==> structs[x].0 != of);
                assert(i < x ==> structs[i].0 != of);
            }
            assert(fields[y].0 == name);
            assert(j == y);
        }
    } else if is_placed(structs, of, name, at) {
        let (x, y) = choose|x: int, y: int| #[trigger] is_placed_at(structs, of, name, at, x, y);
        assert(structs[x].0 == of);
    }
}

proof fn lemma_struct_named(structs: Seq<Structure>, of: Seq<char>, from: nat) -> (i: int)
    ensures
        match dwarf::struct_named(structs, of, from) {
            Some(fields) => from <= i < structs.len() && structs[i] == (of, fields) && forall|k: int|
                from <= k < i ==> (#[trigger] structs[k]).0 != of,
            None => forall|k: int| from <= k < structs.len() ==> (#[trigger] structs[k]).0 != of,
        },
    decreases structs.len() - from,
{
    if from < structs.len() && structs[from as int].0 != of {
        lemma_struct_named(structs, of, from + 1)
    } else {
        from as int
    }
}

proof fn lemma_last_named(s: Named, name: Seq<char>) -> (j: int)
    ensures
        match dwarf::last_named(s, name) {
            Some(at) => 0 <= j < s.len() && s[j] == (name, at) && forall|k: int|
                j < k < s.len() ==> (#[trigger] s[k]).0 != name,
            None => forall|k: int| 0 <= k < s.len() ==> (#[trigger] s[k]).0 != name,
        },
    decreases s.len(),
{
    if s.len() > 0 && s.last().0 != name {
        let j = lemma_last_named(s.drop_last(), name);
        assert forall|k: int| 0 <= k < s.len() - 1 implies s.drop_last()[k] == #[trigger] s[k] by {}
        j
    } else {
        s.len() - 1
    }
}

/// The offset is that of a field within a nested structure: the sum of the two
/// places, without what does not fit in 64 bits.
pub open spec fn is_nested(
    structs: Seq<Structure>,
    outer: Seq<char>,
    inner: Seq<char>,
    name: Seq<char>,
    at: u64,
) -> bool {
    exists|a: u64, b: u64|
        #![trigger is_placed(structs, "runtime.g"@, outer, a), is_placed(structs, inner, name, b)]
        is_placed(structs, "runtime.g"@, outer, a) && is_placed(structs, inner, name, b) && at == (
        if a + b < 0x1_0000_0000_0000_0000 {
            a + b
        } else {
            a + b - 0x1_0000_0000_0000_0000
        })
}

/// The fields that the offsets need are all there.
pub open spec fn has_all_fields(structs: Seq<Structure>) -> bool {
    let g = "runtime.g"@;
    &&& has_field(structs, g, "goid"@)
    &&& has_field(structs, g, "atomicstatus"@)
    &&& has_field(structs, g, "waitreason"@)
    &&& has_field(structs, g, "stack"@)
    &&& has_field(structs, g, "sched"@)
    &&& has_field(structs, g, "gopc"@)
    &&& has_field(structs, g, "startpc"@)
    &&& has_field(structs, g, "m"@)
    &&& has_field(structs, "runtime.stack"@, "lo"@)
    &&& has_field(structs, "runtime.stack"@, "hi"@)
    &&& has_field(structs, "runtime.gobuf"@, "pc"@)
    &&& has_field(structs, "runtime.gobuf"@, "sp"@)
}

/// The offsets are the places of the fields of their names, those of the stack
/// and of the saved registers within the structures nested in `runtime.g`. The
/// parent's id and the thread's number may be missing, no other field may.
pub proof fn law_offsets_are_the_places_of_their_fields(structs: Seq<Structure>)
    ensures
        dwarf::offsets_of(structs) is Some <==> has_all_fields(structs),
        dwarf::offsets_of(structs) matches Some((g, procid)) ==> {
            let of = "runtime.g"@;
            &&& is_placed(structs, of, "goid"@, g.goid)
            &&& is_placed(structs, of, "atomicstatus"@, g.atomicstatus)
            &&& is_placed(structs, of, "waitreason"@, g.waitreason)
            &&& is_placed(structs, of, "gopc"@, g.gopc)
            &&& is_placed(structs, of, "startpc"@, g.startpc)
            &&& is_placed(structs, of, "m"@, g.m)
            &&& is_nested(structs, "stack"@, "runtime.stack"@, "lo"@, g.stack_lo)
            &&& is_nested(structs, "stack"@, "runtime.stack"@, "hi"@, g.stack_hi)
            &&& is_nested(structs, "sched"@, "runtime.gobuf"@, "pc"@, g.sched_pc)
            &&& is_nested(structs, "sched"@, "runtime.gobuf"@, "sp"@, g.sched_sp)
            &&& has_field(structs, of, "parentGoid"@) <==> g.parent_goid is Some
            &&& g.parent_goid matches Some(at) ==> is_placed(structs, of, "parentGoid"@, at)
            &&& has_field(structs, "runtime.m"@, "procid"@) <==> procid is Some
            &&& procid matches Some(at) ==> is_placed(structs, "runtime.m"@, "procid"@, at)
        },
{
    let of = "runtime.g"@;
    lemma_place(structs, of, "goid"@);
    lemma_place(structs, of, "atomicstatus"@);
    lemma_place(structs, of, "waitreason"@);
    lemma_place(structs, of, "stack"@);
    lemma_place(structs, of, "sched"@);
    lemma_place(structs, of, "gopc"@);
    lemma_place(structs, of, "startpc"@);
    lemma_place(structs, of, "m"@);
    lemma_place(structs, "runtime.stack"@, "lo"@);
    lemma_place(structs, "runtime.stack"@, "hi"@);
    lemma_place(structs, "runtime.gobuf"@, "pc"@);
    lemma_place(structs, "runtime.gobuf"@, "sp"@);
    lemma_place(structs, of, "parentGoid"@);
    lemma_place(structs, "runtime.m"@, "procid"@);
}

proof fn lemma_place(structs: Seq<Structure>, of: Seq<char>, name: Seq<char>)
    ensures
        match dwarf::field_place(structs, of, name) {
            Some(at) => is_placed(structs, of, name, at) && has_field(structs, of, name),
            None => !has_field(structs, of, name),
        },
{
    match dwarf::field_place(structs, of, name) {
        Some(at) => law_a_field_has_one_place(structs, of, name, at),
        None => law_a_field_has_one_place(structs, of, name, 0),
    }
}

/// Of the versions of Go, 1.24 alone is vendored, whatever its patch.
pub proof fn law_one_version_is_vendored(version: GoVersion)
    ensures
        GStructOffsets::table(version) is Some <==> version.major == 1 && version.minor == 24,
        offsets::procid_table(version) is Some <==> GStructOffsets::table(version) is Some,
        offsets::procid_table(version) matches Some(at) ==> at == 72,
        GStructOffsets::table(version) matches Some(g) ==> {
            &&& g.stack_lo == 0 && g.stack_hi == 8
            &&& g.m == 48
            &&& g.sched_sp == 56 && g.sched_pc == 64
            &&& g.atomicstatus == 152 && g.goid == 160 && g.waitreason == 184
            &&& g.parent_goid == Some(280u64) && g.gopc == 288 && g.startpc == 304
        },
{
}

/// A layout needs the address of `runtime.allgs`. The offsets of the binary's
/// own debug information are used where there are any; only else those that are
/// vendored for the version that the binary embeds, and none are guessed.
pub proof fn law_own_offsets_are_preferred(extract: DwarfExtract, image: Seq<u8>)
    ensures
        extract.allgs_addr is None ==> dwarf::layout_of(extract, image) == Err::<GoLayout, _>(
            GoDecodeErrorSpec::AllgsNotFound,
        ),
        dwarf::layout_of(extract, image) matches Ok(layout) ==> {
            &&& extract.allgs_addr == Some(layout.allgs_addr)
            &&& layout.allglen_addr == extract.allglen_addr
            &&& layout.ptr_size == extract.ptr_size
            &&& layout.load_bias == 0
            &&& extract.offsets is Some <==> layout.source is Dwarf
            &&& extract.offsets matches Some((g, procid)) ==> layout.g == g && layout.m_procid
                == procid
            &&& layout.source matches LayoutSource::Vendored(version) ==> GoVersion::first_in(
                image,
                0,
            ) == Some(version) && version.major == 1 && version.minor == 24 && Some(layout.g)
                == GStructOffsets::table(version) && layout.m_procid == Some(72u64)
        },
        extract.allgs_addr is Some && extract.offsets is Some ==> dwarf::layout_of(
            extract,
            image,
        ) is Ok,
        extract.allgs_addr is Some && extract.offsets is None ==> {
            &&& dwarf::layout_of(extract, image) is Ok <==> (GoVersion::first_in(
                image,
                0,
            ) matches Some(version) && version.major == 1 && version.minor == 24)
            &&& dwarf::layout_of(extract, image) is Err ==> dwarf::layout_of(
                extract,
                image,
            )->Err_0 is LayoutUnresolved
        },
{
}

/// The address of a symbol is preferred to that of the variable that the debug
/// information describes; of two such variables the first counts.
pub proof fn law_a_symbol_is_preferred_to_a_variable(image: Seq<u8>, vars: Named, name: Seq<char>)
    ensures
        object_file::named_address(image, name) matches Some(addr) ==> dwarf::address_named(
            image,
            vars,
            name,
        ) == Some(addr),
        object_file::named_address(image, name) is None ==> match dwarf::address_named(
            image,
            vars,
            name,
        ) {
            Some(addr) => exists|i: int|
                0 <= i < vars.len() && #[trigger] vars[i] == (name, addr) && forall|k: int|
                    0 <= k < i ==> (#[trigger] vars[k]).0 != name,
            None => forall|k: int| 0 <= k < vars.len() ==> (#[trigger] vars[k]).0 != name,
        },
{
    let i = lemma_first_named(vars, name, 0);
    if object_file::named_address(image, name) is None && dwarf::first_named(
        vars,
        name,
        0,
    ) is Some {
        assert(vars[i] == (name, dwarf::first_named(vars, name, 0)->Some_0));
    }
}

proof fn lemma_first_named(s: Named, name: Seq<char>, from: nat) -> (i: int)
    ensures
        match dwarf::first_named(s, name, from) {
            Some(at) => from <= i < s.len() && s[i] == (name, at) && forall|k: int|
                from <= k < i ==> (#[trigger] s[k]).0 != name,
            None => forall|k: int| from <= k < s.len() ==> (#[trigger] s[k]).0 != name,
        },
    decreases s.len() - from,
{
    if from < s.len() && s[from as int].0 != name {
        lemma_first_named(s, name, from + 1)
    } else {
        from as int
    }
}

/// A binary is read as one of Go if it is an object that was linked by Go, has
/// debug information that can be read or none, and gives a layout: with pointers
/// of eight bytes in a 64-bit object and of four in any other, the addresses of
/// `runtime.allgs` and `runtime.allglen`, and the offsets of its structures.
pub proof fn law_a_go_binary_tells_its_layout(image: Seq<u8>)
    ensures
        object_file::object_shape(image) matches Err(e) ==> dwarf::loaded_layout(image) == Err::<
            GoLayout,
            _,
        >(GoDecodeErrorSpec::Object(e)),
        object_file::object_shape(image) is Ok && !dwarf::is_go(image) ==> dwarf::loaded_layout(
            image,
        ) == Err::<GoLayout, _>(GoDecodeErrorSpec::NotGoBinary),
        dwarf::loaded_layout(image) matches Ok(layout) ==> {
            &&& object_file::object_shape(image) matches Ok(shape)
            &&& dwarf::is_go(image)
            &&& shape.is_64 ==> layout.ptr_size == 8
            &&& !shape.is_64 ==> layout.ptr_size == 4
            &&& dwarf::findings_from(
                object_file::debug_sections_of(image),
                shape.little_endian,
                0,
                dwarf::no_findings(),
            ) matches Ok(found)
            &&& dwarf::address_named(image, found.vars, "runtime.allgs"@) == Some(layout.allgs_addr)
            &&& dwarf::address_named(image, found.vars, "runtime.allglen"@) == layout.allglen_addr
            &&& layout.source is Dwarf <==> has_all_fields(found.structs)
        },
{
    if let Ok(extract) = dwarf::extracted(image) {
        law_own_offsets_are_preferred(extract, image);
        let shape = object_file::object_shape(image)->Ok_0;
        let found = dwarf::findings_from(
            object_file::debug_sections_of(image),
            shape.little_endian,
            0,
            dwarf::no_findings(),
        )->Ok_0;
        law_offsets_are_the_places_of_their_fields(found.structs);
    }
}

} // verus!
