//! The members of a structure, seen through the variants of enum-like types.
use vstd::prelude::*;

use crate::debug_info::unit::{
    self, Entry, EntrySpec, Unit, UnitSpec, TAG_MEMBER, TAG_VARIANT, TAG_VARIANT_PART,
};
use crate::error::outcome;

verus! {

/// One member of a structure or of a variant.
pub struct MemberInfo {
    /// The name; empty without one.
    pub name: String,
    /// Byte offset in the structure.
    pub offset: u64,
    /// The offset of the member's type.
    pub type_ref: u64,
}

/// The value of a `MemberInfo`.
#[verifier::ext_equal]
pub struct MemberSpec {
    pub name: Seq<char>,
    pub offset: u64,
    pub type_ref: u64,
}

impl DeepView for MemberInfo {
    type V = MemberSpec;

    open spec fn deep_view(&self) -> MemberSpec {
        MemberSpec { name: self.name@, offset: self.offset, type_ref: self.type_ref }
    }
}

/// Members, or why they cannot be read.
pub type Members = Result<Seq<MemberSpec>, Seq<char>>;

/// What a name is read as: empty where there is none.
pub open spec fn name_or_empty(name: Option<Seq<char>>) -> Seq<char> {
    match name {
        Some(n) => n,
        None => Seq::empty(),
    }
}

/// What a location is read as: zero where there is none, or none that can be
/// read.
pub open spec fn place_of(e: EntrySpec) -> Option<u64> {
    unit::if_readable(e.member_location)
}

/// The member that an entry stands for: none unless it is tagged as one and
/// refers to its type.
pub open spec fn member_of(e: EntrySpec) -> Members {
    if e.tag != TAG_MEMBER {
        Ok(Seq::empty())
    } else {
        match e.name {
            Err(why) => Err(why),
            Ok(name) => match e.type_ref {
                Err(why) => Err(why),
                Ok(None) => Ok(Seq::empty()),
                Ok(Some(type_ref)) => Ok(
                    seq![
                        MemberSpec {
                            name: name_or_empty(name),
                            offset: match place_of(e) {
                                Some(offset) => offset,
                                None => 0,
                            },
                            type_ref,
                        },
                    ],
                ),
            },
        }
    }
}

/// The members directly below an entry.
pub open spec fn direct_members(s: Seq<EntrySpec>, k: int) -> Members {
    unit::gathered(unit::children(s, k).map_values(|c: int| member_of(s[c])))
}

/// The members of the variants below a variant part.
pub open spec fn payload_members(s: Seq<EntrySpec>, k: int) -> Members {
    unit::gathered(
        unit::children(s, k).map_values(
            |c: int|
                if s[c].tag == TAG_VARIANT {
                    direct_members(s, c)
                } else {
                    Ok(Seq::empty())
                },
        ),
    )
}

/// The members of a structure: those directly below it, and those of the
/// variants of its variant parts.
pub open spec fn members_of(s: Seq<EntrySpec>, k: int) -> Members {
    unit::gathered(
        unit::children(s, k).map_values(
            |c: int|
                if s[c].tag == TAG_VARIANT_PART {
                    payload_members(s, c)
                } else {
                    member_of(s[c])
                },
        ),
    )
}

/// A structure's own name, and its members.
pub struct StructInfo {
    /// The name; empty without one.
    pub local_name: String,
    /// The members.
    pub members: Vec<MemberInfo>,
}

/// The value of a `StructInfo`.
#[verifier::ext_equal]
pub struct StructSpec {
    pub local_name: Seq<char>,
    pub members: Seq<MemberSpec>,
}

impl DeepView for StructInfo {
    type V = StructSpec;

    open spec fn deep_view(&self) -> StructSpec {
        StructSpec { local_name: self.local_name@, members: self.members.deep_view() }
    }
}

/// The structure that the entry at `k` stands for, or why it cannot be read,
/// where `trouble` ends what is below the entry.
pub open spec fn struct_of(s: Seq<EntrySpec>, k: int, trouble: Option<Seq<char>>) -> Result<
    StructSpec,
    Seq<char>,
> {
    match s[k].name {
        Err(e) => Err(e),
        Ok(name) => match members_of(s, k) {
            Err(e) => Err(e),
            Ok(members) => match trouble {
                Some(e) => Err(e),
                None => Ok(StructSpec { local_name: name_or_empty(name), members }),
            },
        },
    }
}

/// The structure at an offset, or why it cannot be read.
pub open spec fn struct_at(u: UnitSpec, offset: u64) -> Result<StructSpec, Seq<char>> {
    match unit::position(u.entries, offset) {
        Some(k) => struct_of(u.entries, k as int, None),
        None => match u.stray_at(offset) {
            Err(e) => Err(e),
            Ok(stray) => struct_of(stray.entries, 0, stray.trouble),
        },
    }
}

fn read_member(entry: &Entry) -> (r: Result<Vec<MemberInfo>, String>)
    ensures
        outcome(r) == member_of(entry.deep_view()),
{
    let mut out: Vec<MemberInfo> = Vec::new();
    assert(out.deep_view() =~= Seq::empty());
    if entry.tag != TAG_MEMBER {
        return Ok(out);
    }
    let name = match &entry.name {
        Err(e) => return Err(e.clone()),
        Ok(Some(name)) => name.clone(),
        Ok(None) => String::new(),
    };
    let offset: u64 = match &entry.member_location {
        Ok(Some(offset)) => *offset,
        _ => 0,
    };
    match &entry.type_ref {
        Err(e) => Err(e.clone()),
        Ok(None) => Ok(out),
        Ok(Some(type_ref)) => {
            let ghost n = name@;
            out.push(MemberInfo { name, offset, type_ref: *type_ref });
            assert(out.deep_view() =~= seq![
                MemberSpec { name: n, offset, type_ref: *type_ref },
            ]);
            Ok(out)
        },
    }
}

fn read_direct(u: &Unit, k: usize) -> (r: Result<Vec<MemberInfo>, String>)
    requires
        k < u.deep_view().entries.len(),
    ensures
        outcome(r) == direct_members(u.deep_view().entries, k as int),
{
    let ghost s = u.deep_view().entries;
    let kids = u.children(k);
    let ghost parts = unit::children(s, k as int).map_values(|c: int| member_of(s[c]));
    let mut out: Vec<MemberInfo> = Vec::new();
    let mut i: usize = 0;
    proof {
        assert(parts.take(0) =~= Seq::empty());
        assert(out.deep_view() =~= Seq::empty());
    }
    while i < kids.len()
        invariant
            i <= kids.len(),
            s == u.deep_view().entries,
            kids@.map_values(|c: usize| c as int) == unit::children(s, k as int),
            forall|j: int| 0 <= j < kids.len() ==> (#[trigger] kids@[j]) < s.len(),
            parts == unit::children(s, k as int).map_values(|c: int| member_of(s[c])),
            unit::gathered(parts.take(i as int)) == Ok::<_, Seq<char>>(out.deep_view()),
        decreases kids.len() - i,
    {
        let c: usize = kids[i];
        let entry = u.entry(c);
        proof {
            assert(unit::children(s, k as int)[i as int] == c);
            unit::lemma_gathered_step(parts, i as int);
        }
        match read_member(entry) {
            Err(e) => {
                proof {
                    unit::lemma_gathered_error(parts, i + 1);
                }
                return Err(e);
            },
            Ok(mut more) => {
                let ghost before = out.deep_view();
                let ghost added = more.deep_view();
                out.append(&mut more);
                assert(out.deep_view() =~= before + added);
            },
        }
        i += 1;
    }
    assert(parts.take(i as int) =~= parts);
    Ok(out)
}

/// The members of the variants below a variant part, in order.
pub fn read_variant_payloads(u: &Unit, k: usize) -> (r: Result<Vec<MemberInfo>, String>)
    requires
        k < u.deep_view().entries.len(),
    ensures
        outcome(r) == payload_members(u.deep_view().entries, k as int),
{
    let ghost s = u.deep_view().entries;
    let kids = u.children(k);
    let ghost part = |c: int|
        if s[c].tag == TAG_VARIANT {
            direct_members(s, c)
        } else {
            Ok(Seq::empty())
        };
    let ghost parts = unit::children(s, k as int).map_values(part);
    let mut out: Vec<MemberInfo> = Vec::new();
    let mut i: usize = 0;
    proof {
        assert(parts.take(0) =~= Seq::empty());
        assert(out.deep_view() =~= Seq::empty());
    }
    while i < kids.len()
        invariant
            i <= kids.len(),
            s == u.deep_view().entries,
            kids@.map_values(|c: usize| c as int) == unit::children(s, k as int),
            forall|j: int| 0 <= j < kids.len() ==> (#[trigger] kids@[j]) < s.len(),
            part == (|c: int|
                if s[c].tag == TAG_VARIANT {
                    direct_members(s, c)
                } else {
                    Ok(Seq::empty())
                }),
            parts == unit::children(s, k as int).map_values(part),
            unit::gathered(parts.take(i as int)) == Ok::<_, Seq<char>>(out.deep_view()),
        decreases kids.len() - i,
    {
        let c: usize = kids[i];
        let entry = u.entry(c);
        proof {
            assert(unit::children(s, k as int)[i as int] == c);
            assert(parts[i as int] == part(c as int));
            unit::lemma_gathered_step(parts, i as int);
        }
        if entry.tag == TAG_VARIANT {
            match read_direct(u, c) {
                Err(e) => {
                    proof {
                        unit::lemma_gathered_error(parts, i + 1);
                    }
                    return Err(e);
                },
                Ok(mut more) => {
                    let ghost before = out.deep_view();
                    let ghost added = more.deep_view();
                    out.append(&mut more);
                    assert(out.deep_view() =~= before + added);
                },
            }
        } else {
            assert(out.deep_view() =~= out.deep_view() + Seq::empty());
        }
        i += 1;
    }
    assert(parts.take(i as int) =~= parts);
    Ok(out)
}

/// The members of a structure, in order.
pub fn read_members(u: &Unit, k: usize) -> (r: Result<Vec<MemberInfo>, String>)
    requires
        k < u.deep_view().entries.len(),
    ensures
        outcome(r) == members_of(u.deep_view().entries, k as int),
{
    let ghost s = u.deep_view().entries;
    let kids = u.children(k);
    let ghost part = |c: int|
        if s[c].tag == TAG_VARIANT_PART {
            payload_members(s, c)
        } else {
            member_of(s[c])
        };
    let ghost parts = unit::children(s, k as int).map_values(part);
    let mut out: Vec<MemberInfo> = Vec::new();
    let mut i: usize = 0;
    proof {
        assert(parts.take(0) =~= Seq::empty());
        assert(out.deep_view() =~= Seq::empty());
    }
    while i < kids.len()
        invariant
            i <= kids.len(),
            s == u.deep_view().entries,
            kids@.map_values(|c: usize| c as int) == unit::children(s, k as int),
            forall|j: int| 0 <= j < kids.len() ==> (#[trigger] kids@[j]) < s.len(),
            part == (|c: int|
                if s[c].tag == TAG_VARIANT_PART {
                    payload_members(s, c)
                } else {
                    member_of(s[c])
                }),
            parts == unit::children(s, k as int).map_values(part),
            unit::gathered(parts.take(i as int)) == Ok::<_, Seq<char>>(out.deep_view()),
        decreases kids.len() - i,
    {
        let c: usize = kids[i];
        let entry = u.entry(c);
        proof {
            assert(unit::children(s, k as int)[i as int] == c);
            assert(parts[i as int] == part(c as int));
            unit::lemma_gathered_step(parts, i as int);
        }
        let found = if entry.tag == TAG_VARIANT_PART {
            read_variant_payloads(u, c)
        } else {
            read_member(entry)
        };
        match found {
            Err(e) => {
                proof {
                    unit::lemma_gathered_error(parts, i + 1);
                }
                return Err(e);
            },
            Ok(mut more) => {
                let ghost before = out.deep_view();
                let ghost added = more.deep_view();
                out.append(&mut more);
                assert(out.deep_view() =~= before + added);
            },
        }
        i += 1;
    }
    assert(parts.take(i as int) =~= parts);
    Ok(out)
}

fn read_struct_of(u: &Unit<'_>, k: usize) -> (r: Result<StructInfo, String>)
    requires
        k < u.deep_view().entries.len(),
    ensures
        outcome(r) == struct_of(u.deep_view().entries, k as int, None),
{
    let local_name = match &u.entry(k).name {
        Err(e) => return Err(e.clone()),
        Ok(Some(name)) => name.clone(),
        Ok(None) => String::new(),
    };
    let members = read_members(u, k)?;
    Ok(StructInfo { local_name, members })
}

/// Read the structure at an offset: its own name and its members. Enum-like
/// types are transparent: the members of their variants count as theirs.
pub fn read_struct(u: &Unit<'_>, offset: u64) -> (r: Result<StructInfo, String>)
    ensures
        outcome(r) == struct_at(u.deep_view(), offset),
{
    if let Some(k) = u.find(offset) {
        return read_struct_of(u, k);
    }
    let stray = u.read_stray(offset)?;
    let info = read_struct_of(&Unit::new(stray.entries, 0, false), 0)?;
    match stray.trouble {
        Some(e) => Err(e),
        None => Ok(info),
    }
}

} // verus!
