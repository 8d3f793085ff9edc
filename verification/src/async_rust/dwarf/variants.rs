//! The states of a coroutine: its discriminant, and what each variant awaits
//! and holds.
use std::collections::BTreeMap;

use vstd::prelude::*;

use super::members::{self, MemberInfo, MemberSpec};
use super::names::{self, UnitIndex};
use crate::async_rust::layout::{
    AsyncFnLayout, AsyncFnLayoutSpec, ChildRef, ChildRefSpec, VariantInfo, VariantInfoSpec,
    VariantKind,
};
use crate::debug_info::unit::{
    self, Entry, EntrySpec, Unit, UnitSpec, TAG_MEMBER, TAG_VARIANT, TAG_VARIANT_PART,
};
use crate::error::outcome;
use crate::model::{SourceLocation, SourceLocationSpec};
use crate::text;

verus! {

/// How deep the search for inline child coroutines goes through wrapper types
/// (tuples, `MaybeDone`, and the like).
pub const MAX_CHILD_DEPTH: usize = 8;

/// The source location that an entry is declared at, if its line is known.
pub open spec fn declared_at(e: EntrySpec) -> Option<SourceLocationSpec> {
    match e.decl_line {
        Some(line) => Some(
            SourceLocationSpec {
                path: members::name_or_empty(e.decl_path),
                line: #[verifier::truncate] (line as u32),
                column: 0,
            },
        ),
        None => None,
    }
}

fn decl_location(entry: &Entry) -> (r: Option<SourceLocation>)
    ensures
        r.deep_view() == declared_at(entry.deep_view()),
{
    match entry.decl_line {
        Some(line) => {
            let path = match &entry.decl_path {
                Some(path) => path.clone(),
                None => String::new(),
            };
            Some(SourceLocation { path, line: #[verifier::truncate] (line as u32), column: 0 })
        },
        None => None,
    }
}

/// A reference to a member's type, if that is a named type.
pub open spec fn child_of(s: Seq<EntrySpec>, m: MemberSpec) -> Option<ChildRefSpec> {
    match names::name_at(s, m.type_ref) {
        Some(type_path) => Some(ChildRefSpec { offset: m.offset, type_path }),
        None => None,
    }
}

fn child_ref(u: &Unit, index: &UnitIndex, member: &MemberInfo) -> (r: Option<ChildRef>)
    requires
        names::index_of(u.deep_view().entries) == Ok::<_, Seq<char>>(index.deep_view()),
    ensures
        r.deep_view() == child_of(u.deep_view().entries, member.deep_view()),
{
    match index.find_name(u, member.type_ref) {
        Some(name) => Some(ChildRef { offset: member.offset, type_path: name }),
        None => None,
    }
}

/// The coroutines stored inline within a value of a type that lies at `base`:
/// the value itself where its type is a coroutine, else those within its
/// members, no more than `left` types deep. The one at `skip` does not count.
pub open spec fn inline_coroutines(
    u: UnitSpec,
    type_ref: u64,
    base: u64,
    skip: Option<u64>,
    left: nat,
) -> Result<Seq<ChildRefSpec>, Seq<char>>
    decreases left, 0nat,
{
    if left == 0 {
        Ok(Seq::empty())
    } else if names::coroutine_at(u.entries, type_ref) {
        match names::name_at(u.entries, type_ref) {
            Some(type_path) if Some(base) != skip => Ok(
                seq![ChildRefSpec { offset: base, type_path }],
            ),
            _ => Ok(Seq::empty()),
        }
    } else {
        match members::struct_at(u, type_ref) {
            Err(e) => Err(e),
            Ok(info) => member_coroutines(u, info.members, base, skip, (left - 1) as nat),
        }
    }
}

/// The inline coroutines of some members, each at its place from `base`.
pub open spec fn member_coroutines(
    u: UnitSpec,
    members: Seq<MemberSpec>,
    base: u64,
    skip: Option<u64>,
    left: nat,
) -> Result<Seq<ChildRefSpec>, Seq<char>>
    decreases left, members.len() + 1,
{
    if members.len() == 0 {
        Ok(Seq::empty())
    } else {
        match member_coroutines(u, members.drop_last(), base, skip, left) {
            Err(e) => Err(e),
            Ok(before) => {
                let m = members.last();
                match inline_coroutines(
                    u,
                    m.type_ref,
                    base.wrapping_add(m.offset),
                    skip,
                    left,
                ) {
                    Err(e) => Err(e),
                    Ok(more) => Ok(before + more),
                }
            },
        }
    }
}

proof fn lemma_member_error(
    u: UnitSpec,
    members: Seq<MemberSpec>,
    base: u64,
    skip: Option<u64>,
    left: nat,
    n: int,
)
    requires
        0 <= n <= members.len(),
        member_coroutines(u, members.take(n), base, skip, left) is Err,
    ensures
        member_coroutines(u, members, base, skip, left) == member_coroutines(
            u,
            members.take(n),
            base,
            skip,
            left,
        ),
    decreases members.len() - n,
{
    if n == members.len() {
        assert(members.take(n) =~= members);
    } else {
        assert(members.take(n + 1).drop_last() =~= members.take(n));
        lemma_member_error(u, members, base, skip, left, n + 1);
    }
}

/// Find the coroutines stored inline within a value.
fn collect_children(
    u: &Unit,
    index: &UnitIndex,
    type_ref: u64,
    base: u64,
    skip: Option<u64>,
    left: usize,
) -> (r: Result<Vec<ChildRef>, String>)
    requires
        names::index_of(u.deep_view().entries) == Ok::<_, Seq<char>>(index.deep_view()),
    ensures
        outcome(r) == inline_coroutines(u.deep_view(), type_ref, base, skip, left as nat),
    decreases left, 0int,
{
    let mut out: Vec<ChildRef> = Vec::new();
    assert(out.deep_view() =~= Seq::empty());
    if left == 0 {
        return Ok(out);
    }
    if names::find_coroutine(u, index, type_ref) {
        let skipped = match skip {
            Some(offset) => offset == base,
            None => false,
        };
        if !skipped {
            if let Some(name) = index.find_name(u, type_ref) {
                let ghost n = name@;
                out.push(ChildRef { offset: base, type_path: name });
                assert(out.deep_view() =~= seq![ChildRefSpec { offset: base, type_path: n }]);
            }
        }
        return Ok(out);
    }
    let info = members::read_struct(u, type_ref)?;
    collect_of_members(u, index, &info.members, base, skip, left - 1)
}

/// Find the coroutines stored inline within some members.
fn collect_of_members(
    u: &Unit,
    index: &UnitIndex,
    members: &Vec<MemberInfo>,
    base: u64,
    skip: Option<u64>,
    left: usize,
) -> (r: Result<Vec<ChildRef>, String>)
    requires
        names::index_of(u.deep_view().entries) == Ok::<_, Seq<char>>(index.deep_view()),
    ensures
        outcome(r) == member_coroutines(
            u.deep_view(),
            members.deep_view(),
            base,
            skip,
            left as nat,
        ),
    decreases left, 1int,
{
    let ghost s = u.deep_view().entries;
    let ghost ms = members.deep_view();
    let mut out: Vec<ChildRef> = Vec::new();
    let mut i: usize = 0;
    proof {
        assert(ms.take(0) =~= Seq::empty());
        assert(out.deep_view() =~= Seq::empty());
    }
    while i < members.len()
        invariant
            i <= members.len(),
            s == u.deep_view().entries,
            ms == members.deep_view(),
            names::index_of(s) == Ok::<_, Seq<char>>(index.deep_view()),
            member_coroutines(u.deep_view(), ms.take(i as int), base, skip, left as nat) == Ok::<
                _,
                Seq<char>,
            >(out.deep_view()),
        decreases members.len() - i,
    {
        let m = &members[i];
        proof {
            assert(ms.take(i + 1).drop_last() =~= ms.take(i as int));
            assert(ms.take(i + 1).last() == m.deep_view());
        }
        match collect_children(u, index, m.type_ref, base.wrapping_add(m.offset), skip, left) {
            Err(e) => {
                proof {
                    lemma_member_error(u.deep_view(), ms, base, skip, left as nat, i + 1);
                }
                return Err(e);
            },
            Ok(mut more) => {
                let ghost before = out.deep_view();
                let ghost added = more.deep_view();
                out.append(&mut more);
                assert(out.deep_view() =~= before + added);
            },
        }
        i += 1;
    }
    assert(ms.take(i as int) =~= ms);
    Ok(out)
}

/// The first member with a name, at or after `from`.
pub open spec fn member_named(members: Seq<MemberSpec>, name: Seq<char>, from: nat) -> Option<
    MemberSpec,
>
    decreases members.len() - from,
{
    if from >= members.len() {
        None
    } else if members[from as int].name == name {
        Some(members[from as int])
    } else {
        member_named(members, name, from + 1)
    }
}

/// The future that a state awaits: its member `__awaitee`, if that has a named
/// type.
pub open spec fn awaitee_of(s: Seq<EntrySpec>, members: Seq<MemberSpec>) -> Option<ChildRefSpec> {
    match member_named(members, "__awaitee"@, 0) {
        Some(m) => child_of(s, m),
        None => None,
    }
}

fn find_awaitee(u: &Unit, index: &UnitIndex, members: &Vec<MemberInfo>) -> (r: Option<ChildRef>)
    requires
        names::index_of(u.deep_view().entries) == Ok::<_, Seq<char>>(index.deep_view()),
    ensures
        r.deep_view() == awaitee_of(u.deep_view().entries, members.deep_view()),
{
    let ghost ms = members.deep_view();
    let mut i: usize = 0;
    while i < members.len()
        invariant
            i <= members.len(),
            ms == members.deep_view(),
            names::index_of(u.deep_view().entries) == Ok::<_, Seq<char>>(index.deep_view()),
            member_named(ms, "__awaitee"@, 0) == member_named(ms, "__awaitee"@, i as nat),
        decreases members.len() - i,
    {
        assert(ms[i as int] == members@[i as int].deep_view());
        if text::same(members[i].name.as_str(), "__awaitee") {
            return child_ref(u, index, &members[i]);
        }
        i += 1;
    }
    None
}

/// What a suspended state holds: the await's location, what is awaited, and the
/// other inline coroutines.
pub open spec fn suspended_variant(
    u: UnitSpec,
    kind: VariantKind,
    await_location: Option<SourceLocationSpec>,
    members: Seq<MemberSpec>,
) -> Result<VariantInfoSpec, Seq<char>> {
    let awaitee = awaitee_of(u.entries, members);
    let skip = match awaitee {
        Some(a) => Some(a.offset),
        None => None,
    };
    match member_coroutines(u, members, 0, skip, (MAX_CHILD_DEPTH + 1) as nat) {
        Err(e) => Err(e),
        Ok(children) => Ok(VariantInfoSpec { kind, await_location, awaitee, children }),
    }
}

/// The variant that the entry at `v` describes, under its discriminant value:
/// by its first member, whose type is the state's structure. None without one,
/// or where the structure's name is no state's.
pub open spec fn variant_of(u: UnitSpec, v: int) -> Result<
    Option<(u64, VariantInfoSpec)>,
    Seq<char>,
> {
    let s = u.entries;
    let value = match s[v].discr_value {
        Some(value) => value,
        None => 0,
    };
    if unit::children(s, v).len() == 0 {
        Ok(None)
    } else {
        let member = s[unit::children(s, v)[0]];
        match member.type_ref {
            Err(e) => Err(e),
            Ok(None) => Ok(None),
            Ok(Some(state_ref)) => match members::struct_at(u, state_ref) {
                Err(e) => Err(e),
                Ok(state) => match VariantKind::of_name(state.local_name) {
                    None => Ok(None),
                    Some(kind) => if !kind.suspended() {
                        Ok(Some((value, VariantInfoSpec::bare(kind))))
                    } else {
                        match suspended_variant(u, kind, declared_at(member), state.members) {
                            Err(e) => Err(e),
                            Ok(info) => Ok(Some((value, info))),
                        }
                    },
                },
            },
        }
    }
}

/// Read one variant: its discriminant value and, by its first member, its kind,
/// await location, awaitee and children.
fn read_variant(u: &Unit, index: &UnitIndex, v: usize) -> (r: Result<
    Option<(u64, VariantInfo)>,
    String,
>)
    requires
        v < u.deep_view().entries.len(),
        names::index_of(u.deep_view().entries) == Ok::<_, Seq<char>>(index.deep_view()),
    ensures
        outcome(r) == variant_of(u.deep_view(), v as int),
{
    let ghost s = u.deep_view().entries;
    let entry = u.entry(v);
    let value: u64 = match entry.discr_value {
        Some(value) => value,
        None => 0,
    };
    let kids = u.children(v);
    assert(kids.len() == unit::children(s, v as int).len());
    if kids.len() == 0 {
        return Ok(None);
    }
    assert(unit::children(s, v as int)[0] == kids@[0]);
    let member = u.entry(kids[0]);
    let state_ref: u64 = match &member.type_ref {
        Err(e) => return Err(e.clone()),
        Ok(None) => return Ok(None),
        Ok(Some(state_ref)) => *state_ref,
    };
    let await_location = decl_location(member);
    let state = members::read_struct(u, state_ref)?;
    let kind = match VariantKind::from_struct_name(state.local_name.as_str()) {
        None => return Ok(None),
        Some(kind) => kind,
    };
    if !kind.is_suspend() {
        return Ok(Some((value, VariantInfo::terminal(kind))));
    }
    let awaitee = find_awaitee(u, index, &state.members);
    let skip = match &awaitee {
        Some(a) => Some(a.offset),
        None => None,
    };
    let children = collect_of_members(u, index, &state.members, 0, skip, MAX_CHILD_DEPTH + 1)?;
    Ok(Some((value, VariantInfo { kind, await_location, awaitee, children })))
}

/// The size of a discriminant member's type in bytes, if known.
pub open spec fn discr_size_of(u: UnitSpec, e: EntrySpec) -> Result<Option<u8>, Seq<char>> {
    match e.type_ref {
        Err(why) => Err(why),
        Ok(None) => Ok(None),
        Ok(Some(type_ref)) => match unit::position(u.entries, type_ref) {
            Some(k) => Ok(low_byte(u.entries[k as int].byte_size)),
            None => match u.stray_at(type_ref) {
                Err(why) => Err(why),
                Ok(stray) => Ok(low_byte(stray.entries[0].byte_size)),
            },
        },
    }
}

/// The low byte of a size, if that is known.
pub open spec fn low_byte(size: Option<u64>) -> Option<u8> {
    match size {
        Some(size) => Some(#[verifier::truncate] (size as u8)),
        None => None,
    }
}

fn to_low_byte(size: Option<u64>) -> (r: Option<u8>)
    ensures
        r == low_byte(size),
{
    match size {
        Some(size) => Some(#[verifier::truncate] (size as u8)),
        None => None,
    }
}

fn discr_member_size(u: &Unit, entry: &Entry) -> (r: Result<Option<u8>, String>)
    ensures
        outcome(r) == discr_size_of(u.deep_view(), entry.deep_view()),
{
    match &entry.type_ref {
        Err(e) => Err(e.clone()),
        Ok(None) => Ok(None),
        Ok(Some(type_ref)) => match u.find(*type_ref) {
            Some(k) => Ok(to_low_byte(u.entry(k).byte_size)),
            None => {
                let stray = u.read_stray(*type_ref)?;
                Ok(to_low_byte(stray.entries[0].byte_size))
            },
        },
    }
}

/// What a variant part says.
struct Part {
    discr_offset: Option<u64>,
    discr_size: u8,
    variants: BTreeMap<u64, VariantInfo>,
}

/// What a variant part says: where the discriminant lies and how wide it is,
/// and the variants by discriminant value.
#[verifier::ext_equal]
pub struct PartSpec {
    pub discr_offset: Option<u64>,
    pub discr_size: u8,
    pub variants: Map<u64, VariantInfoSpec>,
}

impl DeepView for Part {
    type V = PartSpec;

    closed spec fn deep_view(&self) -> PartSpec {
        PartSpec {
            discr_offset: self.discr_offset,
            discr_size: self.discr_size,
            variants: self.variants@.map_values(|v: VariantInfo| v.deep_view()),
        }
    }
}

/// What the child at `c` adds to what a variant part says, where the
/// discriminant is the member at `discr_ref`. Of two variants with one value
/// the later counts.
pub open spec fn part_with(u: UnitSpec, part: PartSpec, discr_ref: u64, c: int) -> Result<
    PartSpec,
    Seq<char>,
> {
    let s = u.entries;
    if s[c].tag == TAG_MEMBER && s[c].offset == discr_ref {
        match discr_size_of(u, s[c]) {
            Err(e) => Err(e),
            Ok(size) => Ok(
                PartSpec {
                    discr_offset: members::place_of(s[c]),
                    discr_size: match size {
                        Some(n) => n,
                        None => 1,
                    },
                    variants: part.variants,
                },
            ),
        }
    } else if s[c].tag == TAG_VARIANT {
        match variant_of(u, c) {
            Err(e) => Err(e),
            Ok(None) => Ok(part),
            Ok(Some((value, info))) => Ok(
                PartSpec {
                    discr_offset: part.discr_offset,
                    discr_size: part.discr_size,
                    variants: part.variants.insert(value, info),
                },
            ),
        }
    } else {
        Ok(part)
    }
}

/// What the first `n` children of a variant part say.
pub open spec fn part_of(u: UnitSpec, kids: Seq<int>, discr_ref: u64, n: int) -> Result<
    PartSpec,
    Seq<char>,
>
    decreases n,
{
    if n <= 0 {
        Ok(PartSpec { discr_offset: None, discr_size: 1, variants: Map::empty() })
    } else {
        match part_of(u, kids, discr_ref, n - 1) {
            Err(e) => Err(e),
            Ok(part) => part_with(u, part, discr_ref, kids[n - 1]),
        }
    }
}

proof fn lemma_part_error(u: UnitSpec, kids: Seq<int>, discr_ref: u64, n: int, m: int)
    requires
        n <= m,
        part_of(u, kids, discr_ref, n) is Err,
    ensures
        part_of(u, kids, discr_ref, m) == part_of(u, kids, discr_ref, n),
    decreases m - n,
{
    if n < m {
        lemma_part_error(u, kids, discr_ref, n, m - 1);
    }
}

fn add_to_part(u: &Unit, index: &UnitIndex, part: Part, discr_ref: u64, c: usize) -> (r: Result<
    Part,
    String,
>)
    requires
        c < u.deep_view().entries.len(),
        names::index_of(u.deep_view().entries) == Ok::<_, Seq<char>>(index.deep_view()),
    ensures
        outcome(r) == part_with(u.deep_view(), part.deep_view(), discr_ref, c as int),
{
    let child = u.entry(c);
    let mut part = part;
    if child.tag == TAG_MEMBER && child.offset == discr_ref {
        let size = discr_member_size(u, child)?;
        part.discr_offset = match &child.member_location {
            Ok(place) => *place,
            Err(_) => None,
        };
        part.discr_size = match size {
            Some(size) => size,
            None => 1,
        };
    } else if child.tag == TAG_VARIANT {
        if let Some((value, info)) = read_variant(u, index, c)? {
            let ghost known = part.variants@.map_values(|v: VariantInfo| v.deep_view());
            let ghost added = info.deep_view();
            part.variants.insert(value, info);
            assert(part.variants@.map_values(|v: VariantInfo| v.deep_view()) =~= known.insert(
                value,
                added,
            ));
        }
    }
    Ok(part)
}

/// The layout that a variant part gives; none where it names no discriminant
/// (a niche layout), or the discriminant has no place.
pub open spec fn layout_of_part(
    u: UnitSpec,
    vp: int,
    type_path: Seq<char>,
    byte_size: u64,
) -> Result<Option<AsyncFnLayoutSpec>, Seq<char>> {
    let s = u.entries;
    match s[vp].discr_ref {
        Err(e) => Err(e),
        Ok(None) => Ok(None),
        Ok(Some(discr_ref)) => {
            let kids = unit::children(s, vp);
            match part_of(u, kids, discr_ref, kids.len() as int) {
                Err(e) => Err(e),
                Ok(part) => match part.discr_offset {
                    None => Ok(None),
                    Some(discr_offset) => Ok(
                        Some(
                            AsyncFnLayoutSpec {
                                type_path,
                                byte_size,
                                discr_offset,
                                discr_size: part.discr_size,
                                variants: part.variants,
                            },
                        ),
                    ),
                },
            }
        },
    }
}

fn build_from_variant_part(
    u: &Unit,
    index: &UnitIndex,
    vp: usize,
    type_path: String,
    byte_size: u64,
) -> (r: Result<Option<AsyncFnLayout>, String>)
    requires
        vp < u.deep_view().entries.len(),
        names::index_of(u.deep_view().entries) == Ok::<_, Seq<char>>(index.deep_view()),
    ensures
        outcome(r) == layout_of_part(u.deep_view(), vp as int, type_path@, byte_size),
{
    let ghost s = u.deep_view().entries;
    let discr_ref: u64 = match &u.entry(vp).discr_ref {
        Err(e) => return Err(e.clone()),
        Ok(None) => return Ok(None),
        Ok(Some(discr_ref)) => *discr_ref,
    };
    let mut part = Part { discr_offset: None, discr_size: 1, variants: BTreeMap::new() };
    let kids = u.children(vp);
    let ghost places = unit::children(s, vp as int);
    let mut i: usize = 0;
    assert(part.deep_view().variants =~= Map::empty());
    while i < kids.len()
        invariant
            i <= kids.len(),
            s == u.deep_view().entries,
            names::index_of(s) == Ok::<_, Seq<char>>(index.deep_view()),
            places == unit::children(s, vp as int),
            s[vp as int].discr_ref == Ok::<_, Seq<char>>(Some(discr_ref)),
            kids@.map_values(|c: usize| c as int) == places,
            forall|j: int| 0 <= j < kids.len() ==> (#[trigger] kids@[j]) < s.len(),
            part_of(u.deep_view(), places, discr_ref, i as int) == Ok::<_, Seq<char>>(part.deep_view()),
        decreases kids.len() - i,
    {
        let c: usize = kids[i];
        assert(places[i as int] == c);
        match add_to_part(u, index, part, discr_ref, c) {
            Err(e) => {
                proof {
                    lemma_part_error(u.deep_view(), places, discr_ref, i + 1, places.len() as int);
                }
                return Err(e);
            },
            Ok(more) => {
                part = more;
            },
        }
        i += 1;
    }
    assert(kids.len() == places.len());
    match part.discr_offset {
        None => Ok(None),
        Some(discr_offset) => Ok(
            Some(
                AsyncFnLayout {
                    type_path,
                    byte_size,
                    discr_offset,
                    discr_size: part.discr_size,
                    variants: part.variants,
                },
            ),
        ),
    }
}

/// The layout of the coroutine at `k`; none where its representation is not
/// one that can be decoded.
pub open spec fn layout_of(u: UnitSpec, k: int) -> Result<
    Option<AsyncFnLayoutSpec>,
    Seq<char>,
> {
    let s = u.entries;
    match names::full_name(s, k) {
        None => Ok(None),
        Some(type_path) => match unit::first_tagged(
            s,
            unit::children(s, k),
            TAG_VARIANT_PART,
            0,
        ) {
            None => Ok(None),
            Some(vp) => layout_of_part(
                u,
                vp,
                type_path,
                match s[k].byte_size {
                    Some(size) => size,
                    None => 0,
                },
            ),
        },
    }
}

/// Build the layout of the coroutine at a position; `None` where its
/// representation is not one that can be decoded (such as a niche
/// discriminant).
pub fn build_layout(u: &Unit, index: &UnitIndex, k: usize) -> (r: Result<
    Option<AsyncFnLayout>,
    String,
>)
    requires
        k < index.deep_view().len(),
        names::index_of(u.deep_view().entries) == Ok::<_, Seq<char>>(index.deep_view()),
    ensures
        outcome(r) == layout_of(u.deep_view(), k as int),
{
    let ghost s = u.deep_view().entries;
    proof {
        unit::lemma_root_end(s);
        assert(index.deep_view() == Seq::new(
            unit::root_end(s) as nat,
            |k: int| names::full_name(s, k),
        ));
    }
    let type_path = match index.name(k) {
        None => return Ok(None),
        Some(name) => name,
    };
    let byte_size: u64 = match u.entry(k).byte_size {
        Some(size) => size,
        None => 0,
    };
    let kids = u.children(k);
    match u.find_tagged(&kids, TAG_VARIANT_PART) {
        None => Ok(None),
        Some(vp) => build_from_variant_part(u, index, vp, type_path, byte_size),
    }
}

} // verus!
