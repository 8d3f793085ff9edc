//! The Go runtime's layout out of a binary.
//!
//! The addresses of `runtime.allgs` and `runtime.allglen` come from the symbol
//! table or, where that is stripped, from the debug information's variables;
//! the member offsets of `runtime.g` and its parts from the debug information
//! or, where that is stripped, from the vendored table.
use vstd::prelude::*;

use super::error::{GoDecodeError, GoDecodeErrorSpec};
use super::offsets::{self, GStructOffsets, GoLayout, LayoutSource};
use super::version::GoVersion;
use crate::bytes;
use crate::debug_info::object_file::{self, DebugSections};
use crate::debug_info::unit::{
    self, Entry, EntrySpec, Unit, UnitSpec, TAG_MEMBER, TAG_STRUCTURE_TYPE, TAG_VARIABLE,
};
use crate::error::outcome;
use crate::text;

verus! {

/// Everything that one binary's symbols and debug information tell.
#[derive(Debug, Clone, Copy, PartialEq, Eq)]
pub struct DwarfExtract {
    /// Target pointer width in bytes.
    pub ptr_size: u8,
    /// Address of the `runtime.allgs` slice header, if found.
    pub allgs_addr: Option<u64>,
    /// Address of `runtime.allglen`, if found.
    pub allglen_addr: Option<u64>,
    /// The offsets of the fields of `g`, and that of `m.procid`; `None` where
    /// the debug information is absent or incomplete.
    pub offsets: Option<(GStructOffsets, Option<u64>)>,
}

impl DeepView for DwarfExtract {
    type V = DwarfExtract;

    open spec fn deep_view(&self) -> DwarfExtract {
        *self
    }
}

impl DeepView for GoLayout {
    type V = GoLayout;

    open spec fn deep_view(&self) -> GoLayout {
        *self
    }
}

/// The binary was linked by Go: it has the build information that the linker
/// emits, or the symbol `runtime.allgs`.
pub open spec fn is_go(image: Seq<u8>) -> bool {
    object_file::has_section(image, ".go.buildinfo"@) || object_file::named_symbol(
        object_file::object_symbols(image),
        "runtime.allgs"@,
        0,
    ) is Some
}

/// Whether the binary was linked by Go.
#[must_use]
pub fn is_go_object(image: &[u8]) -> (r: bool)
    ensures
        r == is_go(image@),
{
    if object_file::is_section(image, ".go.buildinfo") {
        return true;
    }
    object_file::find_symbol(&object_file::symbols(image), "runtime.allgs").is_some()
}

// ---------------------------------------------------------------------------
// Named numbers
// ---------------------------------------------------------------------------

/// Numbers under names.
pub type Named = Seq<(Seq<char>, u64)>;

/// The first number under a name, at or after `from`.
pub open spec fn first_named(s: Named, name: Seq<char>, from: nat) -> Option<u64>
    decreases s.len() - from,
{
    if from >= s.len() {
        None
    } else if s[from as int].0 == name {
        Some(s[from as int].1)
    } else {
        first_named(s, name, from + 1)
    }
}

/// The last number under a name.
pub open spec fn last_named(s: Named, name: Seq<char>) -> Option<u64>
    decreases s.len(),
{
    if s.len() == 0 {
        None
    } else if s.last().0 == name {
        Some(s.last().1)
    } else {
        last_named(s.drop_last(), name)
    }
}

fn find_first(s: &Vec<(String, u64)>, name: &str) -> (r: Option<u64>)
    ensures
        r == first_named(s.deep_view(), name@, 0),
{
    let ghost d = s.deep_view();
    let mut i: usize = 0;
    while i < s.len()
        invariant
            i <= s.len(),
            d == s.deep_view(),
            first_named(d, name@, 0) == first_named(d, name@, i as nat),
        decreases s.len() - i,
    {
        assert(d[i as int] == s@[i as int].deep_view());
        if text::same(s[i].0.as_str(), name) {
            return Some(s[i].1);
        }
        i += 1;
    }
    None
}

fn find_last(s: &Vec<(String, u64)>, name: &str) -> (r: Option<u64>)
    ensures
        r == last_named(s.deep_view(), name@),
{
    let ghost d = s.deep_view();
    let mut i: usize = s.len();
    assert(d.take(i as int) =~= d);
    while i > 0
        invariant
            i <= s.len(),
            d == s.deep_view(),
            last_named(d, name@) == last_named(d.take(i as int), name@),
        decreases i,
    {
        proof {
            assert(d.take(i as int).last() == s@[i - 1].deep_view());
            assert(d.take(i as int).drop_last() =~= d.take(i - 1));
        }
        i -= 1;
        if text::same(s[i].0.as_str(), name) {
            return Some(s[i].1);
        }
    }
    None
}

// ---------------------------------------------------------------------------
// What a unit tells
// ---------------------------------------------------------------------------

/// A structure's fields, under the structure's name.
pub type Structure = (Seq<char>, Named);

/// What is known of the runtime: structures with their fields, and variables
/// with their addresses. Of two of one name the first counts.
#[verifier::ext_equal]
pub struct Findings {
    pub structs: Seq<Structure>,
    pub vars: Named,
}

/// Nothing known.
pub open spec fn no_findings() -> Findings {
    Findings { structs: Seq::empty(), vars: Seq::empty() }
}

/// A structure whose fields are wanted.
pub open spec fn is_target_struct(name: Seq<char>) -> bool {
    name == "runtime.g"@ || name == "runtime.gobuf"@ || name == "runtime.stack"@ || name
        == "runtime.m"@
}

/// A variable whose address is wanted.
pub open spec fn is_target_var(name: Seq<char>) -> bool {
    name == "runtime.allgs"@ || name == "runtime.allglen"@
}

fn names_target_struct(name: &str) -> (r: bool)
    ensures
        r == is_target_struct(name@),
{
    text::same(name, "runtime.g") || text::same(name, "runtime.gobuf") || text::same(
        name,
        "runtime.stack",
    ) || text::same(name, "runtime.m")
}

fn names_target_var(name: &str) -> (r: bool)
    ensures
        r == is_target_var(name@),
{
    text::same(name, "runtime.allgs") || text::same(name, "runtime.allglen")
}

/// The field that an entry stands for: none unless it is a member with a name
/// and a place.
pub open spec fn field_of(e: EntrySpec) -> Result<Named, Seq<char>> {
    if e.tag != TAG_MEMBER {
        Ok(Seq::empty())
    } else {
        match e.name {
            Err(why) => Err(why),
            Ok(name) => match e.member_location {
                Err(why) => Err(why),
                Ok(place) => match (name, place) {
                    (Some(name), Some(offset)) => Ok(seq![(name, offset)]),
                    _ => Ok(Seq::empty()),
                },
            },
        }
    }
}

/// The fields of a structure.
pub open spec fn fields_of(s: Seq<EntrySpec>, k: int) -> Result<Named, Seq<char>> {
    unit::gathered(unit::children(s, k).map_values(|c: int| field_of(s[c])))
}

fn read_field(entry: &Entry) -> (r: Result<Vec<(String, u64)>, String>)
    ensures
        outcome(r) == field_of(entry.deep_view()),
{
    let mut out: Vec<(String, u64)> = Vec::new();
    assert(out.deep_view() =~= Seq::empty());
    if entry.tag != TAG_MEMBER {
        return Ok(out);
    }
    match &entry.name {
        Err(e) => Err(e.clone()),
        Ok(name) => match &entry.member_location {
            Err(e) => Err(e.clone()),
            Ok(place) => {
                if let Some(name) = name {
                    if let Some(offset) = place {
                        out.push((name.clone(), *offset));
                        assert(out.deep_view() =~= seq![(name@, *offset)]);
                    }
                }
                Ok(out)
            },
        },
    }
}

/// The fields of a structure, in order.
pub fn read_members(u: &Unit, k: usize) -> (r: Result<Vec<(String, u64)>, String>)
    requires
        k < u.deep_view().entries.len(),
    ensures
        outcome(r) == fields_of(u.deep_view().entries, k as int),
{
    let ghost s = u.deep_view().entries;
    let kids = u.children(k);
    let ghost parts = unit::children(s, k as int).map_values(|c: int| field_of(s[c]));
    let mut out: Vec<(String, u64)> = Vec::new();
    let mut i: usize = 0;
    proof {
        assert(parts.take(0) =~= Seq::empty());
        assert(out.deep_view() =~= Seq::empty());
    }
    while i < kids.len()
        invariant
            i <= kids.len(),
            s == u.deep_view().entries,
            kids@.map_values(|c: usize| c as int) == unit::children(s, k as int),
            forall|j: int| 0 <= j < kids.len() ==> (#[trigger] kids@[j]) < s.len(),
            parts == unit::children(s, k as int).map_values(|c: int| field_of(s[c])),
            unit::gathered(parts.take(i as int)) == Ok::<_, Seq<char>>(out.deep_view()),
        decreases kids.len() - i,
    {
        let c: usize = kids[i];
        proof {
            assert(unit::children(s, k as int)[i as int] == c);
            unit::lemma_gathered_step(parts, i as int);
        }
        match read_field(u.entry(c)) {
            Err(e) => {
                proof {
                    unit::lemma_gathered_error(parts, i + 1);
                }
                return Err(e);
            },
            Ok(mut more) => {
                let ghost before = out.deep_view();
                let ghost added = more.deep_view();
                out.append(&mut more);
                assert(out.deep_view() =~= before + added);
            },
        }
        i += 1;
    }
    assert(parts.take(i as int) =~= parts);
    Ok(out)
}

/// The address that a location expression gives, where it is `DW_OP_addr`
/// (0x03) with an address of one, two, four or eight bytes in the file's byte
/// order. Any other expression is no static address.
pub open spec fn static_address(expr: Seq<u8>, size: u8, little_endian: bool) -> Option<u64> {
    if expr.len() == 0 || expr[0] != 3 || !(size == 1 || size == 2 || size == 4 || size == 8)
        || expr.len() < 1 + size {
        None
    } else {
        let field = expr.subrange(1, 1 + size);
        Some(
            if little_endian {
                bytes::le(field) as u64
            } else {
                bytes::be(field) as u64
            },
        )
    }
}

fn read_address(expr: &Vec<u8>, size: u8, little_endian: bool) -> (r: Option<u64>)
    ensures
        r == static_address(expr@, size, little_endian),
{
    if expr.len() == 0 || expr[0] != 3 {
        return None;
    }
    if !(size == 1 || size == 2 || size == 4 || size == 8) {
        return None;
    }
    let end: usize = 1 + size as usize;
    if expr.len() < end {
        return None;
    }
    let field = vstd::slice::slice_subrange(expr.as_slice(), 1, end);
    if little_endian {
        Some(bytes::read_le(field))
    } else {
        Some(bytes::read_be(field))
    }
}

/// The static address of a variable, if it has one.
pub open spec fn address_of(e: EntrySpec, size: u8, little_endian: bool) -> Result<
    Option<u64>,
    Seq<char>,
> {
    match e.location {
        Err(why) => Err(why),
        Ok(None) => Ok(None),
        Ok(Some(expr)) => Ok(static_address(expr, size, little_endian)),
    }
}

/// The static address of a variable. A location that is no static address (a
/// register, a frame offset, a list) is no error.
pub fn variable_addr(entry: &Entry, size: u8, little_endian: bool) -> (r: Result<
    Option<u64>,
    String,
>)
    ensures
        outcome(r) == address_of(entry.deep_view(), size, little_endian),
{
    match &entry.location {
        Err(e) => Err(e.clone()),
        Ok(None) => Ok(None),
        Ok(Some(expr)) => {
            assert(expr.deep_view() =~= expr@);
            Ok(read_address(expr, size, little_endian))
        },
    }
}

/// The entry is a structure whose fields are wanted.
pub open spec fn is_target(e: EntrySpec) -> bool {
    e.tag == TAG_STRUCTURE_TYPE && (e.name matches Ok(Some(name)) && is_target_struct(name))
}

/// What the entry at `k` adds to what is known.
pub open spec fn with_entry(u: UnitSpec, k: int, known: Findings) -> Result<Findings, Seq<char>> {
    let e = u.entries[k];
    match e.name {
        Err(why) => Err(why),
        Ok(name) => if is_target(e) {
            match fields_of(u.entries, k) {
                Err(why) => Err(why),
                Ok(fields) => Ok(
                    Findings {
                        structs: known.structs.push((name->Some_0, fields)),
                        vars: known.vars,
                    },
                ),
            }
        } else if e.tag == TAG_VARIABLE {
            match address_of(e, u.address_size, u.little_endian) {
                Err(why) => Err(why),
                Ok(addr) => match (name, addr) {
                    (Some(name), Some(addr)) if is_target_var(name) => Ok(
                        Findings { structs: known.structs, vars: known.vars.push((name, addr)) },
                    ),
                    _ => Ok(known),
                },
            }
        } else {
            Ok(known)
        },
    }
}

/// What the entries from `k` to `end` add, in depth-first order; what stands
/// below a wanted structure is not looked at further.
pub open spec fn findings_among(u: UnitSpec, k: int, end: int, known: Findings) -> Result<
    Findings,
    Seq<char>,
>
    decreases end - k,
{
    if k >= end {
        Ok(known)
    } else {
        match with_entry(u, k, known) {
            Err(e) => Err(e),
            Ok(more) => {
                proof {
                    unit::lemma_below_end(u.entries, k, k + 1, end);
                }
                findings_among(
                    u,
                    if is_target(u.entries[k]) {
                        unit::below_end(u.entries, k, end)
                    } else {
                        k + 1
                    },
                    end,
                    more,
                )
            },
        }
    }
}

/// What a unit adds to what is known.
pub open spec fn with_unit(u: UnitSpec, known: Findings) -> Result<Findings, Seq<char>> {
    findings_among(u, 0, unit::root_end(u.entries), known)
}

/// What is known of the runtime.
#[derive(Debug)]
pub struct RuntimeInfo {
    /// Structures with their fields.
    pub structs: Vec<(String, Vec<(String, u64)>)>,
    /// Variables with their addresses.
    pub vars: Vec<(String, u64)>,
}

impl DeepView for RuntimeInfo {
    type V = Findings;

    open spec fn deep_view(&self) -> Findings {
        Findings { structs: self.structs.deep_view(), vars: self.vars.deep_view() }
    }
}

impl RuntimeInfo {
    /// Nothing known.
    #[must_use]
    pub fn new() -> (r: Self)
        ensures
            r.deep_view() == no_findings(),
    {
        let r = RuntimeInfo { structs: Vec::new(), vars: Vec::new() };
        assert(r.structs.deep_view() =~= Seq::empty());
        assert(r.vars.deep_view() =~= Seq::empty());
        r
    }
}

/// Add what one entry tells; whether it is a wanted structure.
fn add_entry(u: &Unit, k: usize, info: &mut RuntimeInfo) -> (r: Result<bool, String>)
    requires
        k < u.deep_view().entries.len(),
    ensures
        match r {
            Ok(target) => with_entry(u.deep_view(), k as int, old(info).deep_view()) == Ok::<
                Findings,
                Seq<char>,
            >(final(info).deep_view()) && target == is_target(u.deep_view().entries[k as int]),
            Err(e) => with_entry(u.deep_view(), k as int, old(info).deep_view()) == Err::<
                Findings,
                Seq<char>,
            >(e@),
        },
{
    let entry = u.entry(k);
    let name = match &entry.name {
        Err(e) => return Err(e.clone()),
        Ok(name) => name,
    };
    if entry.tag == TAG_STRUCTURE_TYPE {
        if let Some(name) = name {
            if names_target_struct(name.as_str()) {
                let fields = read_members(u, k)?;
                let ghost before = info.structs.deep_view();
                let ghost added = (name@, fields.deep_view());
                info.structs.push((name.clone(), fields));
                assert(info.structs.deep_view() =~= before.push(added));
                return Ok(true);
            }
        }
    } else if entry.tag == TAG_VARIABLE {
        let addr = variable_addr(entry, u.address_size(), u.little_endian())?;
        if let Some(name) = name {
            if let Some(addr) = addr {
                if names_target_var(name.as_str()) {
                    let ghost before = info.vars.deep_view();
                    info.vars.push((name.clone(), addr));
                    assert(info.vars.deep_view() =~= before.push((name@, addr)));
                }
            }
        }
    }
    Ok(false)
}

/// Add what a unit tells: the fields of the wanted structures and the addresses
/// of the wanted variables.
pub fn collect_unit(u: &Unit, info: &mut RuntimeInfo) -> (r: Result<(), String>)
    ensures
        match r {
            Ok(()) => with_unit(u.deep_view(), old(info).deep_view()) == Ok::<Findings, Seq<char>>(
                final(info).deep_view(),
            ),
            Err(e) => with_unit(u.deep_view(), old(info).deep_view()) == Err::<
                Findings,
                Seq<char>,
            >(e@),
        },
{
    let ghost uu = u.deep_view();
    let ghost all = with_unit(uu, info.deep_view());
    let end: usize = if u.len() == 0 {
        0
    } else {
        u.end_below(0, u.len())
    };
    let mut k: usize = 0;
    while k < end
        invariant
            k <= end <= uu.entries.len(),
            uu == u.deep_view(),
            end == unit::root_end(uu.entries),
            all == with_unit(uu, old(info).deep_view()),
            all == findings_among(uu, k as int, end as int, info.deep_view()),
        decreases end - k,
    {
        let target = add_entry(u, k, info)?;
        if target {
            k = u.end_below(k, end);
        } else {
            k += 1;
        }
    }
    Ok(())
}

/// What the units from `at` to the end of `.debug_info` add.
pub open spec fn findings_from(
    d: Seq<(Seq<char>, Seq<u8>)>,
    little_endian: bool,
    at: nat,
    known: Findings,
) -> Result<Findings, Seq<char>>
    decreases object_file::section_named(d, ".debug_info"@, 0).len() - at,
{
    if at >= object_file::section_named(d, ".debug_info"@, 0).len() {
        Ok(known)
    } else {
        match unit::loaded(d, little_endian, at, false) {
            Err(e) => Err(e),
            Ok((u, length)) => match with_unit(u, known) {
                Err(e) => Err(e),
                Ok(more) => if length == 0 || at + length > object_file::section_named(
                    d,
                    ".debug_info"@,
                    0,
                ).len() {
                    Ok(more)
                } else {
                    findings_from(d, little_endian, at + length as nat, more)
                },
            },
        }
    }
}

/// Read every unit.
fn read_dwarf(d: &DebugSections) -> (r: Result<RuntimeInfo, String>)
    ensures
        outcome(r) == findings_from(d.sections.deep_view(), d.little_endian, 0, no_findings()),
{
    let ghost ss = d.sections.deep_view();
    let ghost all = findings_from(ss, d.little_endian, 0, no_findings());
    let end: usize = d.get(".debug_info").len();
    let mut info = RuntimeInfo::new();
    let mut at: usize = 0;
    while at < end
        invariant
            ss == d.sections.deep_view(),
            end == object_file::section_named(ss, ".debug_info"@, 0).len(),
            at <= end,
            all == findings_from(ss, d.little_endian, at as nat, info.deep_view()),
            all == findings_from(ss, d.little_endian, 0, no_findings()),
        decreases end - at,
    {
        let (u, length) = unit::load_unit(d, at, false)?;
        collect_unit(&u, &mut info)?;
        at += length;
    }
    Ok(info)
}

// ---------------------------------------------------------------------------
// The offsets
// ---------------------------------------------------------------------------

/// The fields of the first structure of a name, at or after `from`.
pub open spec fn struct_named(structs: Seq<Structure>, name: Seq<char>, from: nat) -> Option<Named>
    decreases structs.len() - from,
{
    if from >= structs.len() {
        None
    } else if structs[from as int].0 == name {
        Some(structs[from as int].1)
    } else {
        struct_named(structs, name, from + 1)
    }
}

/// The place of a field in the first structure of a name.
pub open spec fn field_place(structs: Seq<Structure>, of: Seq<char>, name: Seq<char>) -> Option<
    u64,
> {
    match struct_named(structs, of, 0) {
        Some(fields) => last_named(fields, name),
        None => None,
    }
}

fn find_field(structs: &Vec<(String, Vec<(String, u64)>)>, of: &str, name: &str) -> (r: Option<
    u64,
>)
    ensures
        r == field_place(structs.deep_view(), of@, name@),
{
    let ghost d = structs.deep_view();
    let mut i: usize = 0;
    while i < structs.len()
        invariant
            i <= structs.len(),
            d == structs.deep_view(),
            struct_named(d, of@, 0) == struct_named(d, of@, i as nat),
        decreases structs.len() - i,
    {
        assert(d[i as int] == structs@[i as int].deep_view());
        if text::same(structs[i].0.as_str(), of) {
            return find_last(&structs[i].1, name);
        }
        i += 1;
    }
    None
}

/// The offsets that the structures give, with nested fields flattened; none
/// where a required structure or field is missing.
pub open spec fn offsets_of(structs: Seq<Structure>) -> Option<(GStructOffsets, Option<u64>)> {
    let g = |name: Seq<char>| field_place(structs, "runtime.g"@, name);
    match (
        g("stack"@),
        g("sched"@),
        field_place(structs, "runtime.stack"@, "lo"@),
        field_place(structs, "runtime.stack"@, "hi"@),
        field_place(structs, "runtime.gobuf"@, "pc"@),
        field_place(structs, "runtime.gobuf"@, "sp"@),
    ) {
        (Some(stack), Some(sched), Some(lo), Some(hi), Some(pc), Some(sp)) => match (
            g("goid"@),
            g("atomicstatus"@),
            g("waitreason"@),
            g("gopc"@),
            g("startpc"@),
            g("m"@),
        ) {
            (
                Some(goid),
                Some(atomicstatus),
                Some(waitreason),
                Some(gopc),
                Some(startpc),
                Some(m),
            ) => Some(
                (
                    GStructOffsets {
                        goid,
                        atomicstatus,
                        waitreason,
                        stack_lo: stack.wrapping_add(lo),
                        stack_hi: stack.wrapping_add(hi),
                        sched_pc: sched.wrapping_add(pc),
                        sched_sp: sched.wrapping_add(sp),
                        gopc,
                        startpc,
                        m,
                        parent_goid: g("parentGoid"@),
                    },
                    field_place(structs, "runtime.m"@, "procid"@),
                ),
            ),
            _ => None,
        },
        _ => None,
    }
}

/// Put the offsets together from the structures' fields; `None` where a required
/// structure or field is missing.
pub fn assemble_offsets(structs: &Vec<(String, Vec<(String, u64)>)>) -> (r: Option<
    (GStructOffsets, Option<u64>),
>)
    ensures
        r == offsets_of(structs.deep_view()),
{
    let stack: u64 = find_field(structs, "runtime.g", "stack")?;
    let sched: u64 = find_field(structs, "runtime.g", "sched")?;
    let lo: u64 = find_field(structs, "runtime.stack", "lo")?;
    let hi: u64 = find_field(structs, "runtime.stack", "hi")?;
    let pc: u64 = find_field(structs, "runtime.gobuf", "pc")?;
    let sp: u64 = find_field(structs, "runtime.gobuf", "sp")?;
    let offsets = GStructOffsets {
        goid: find_field(structs, "runtime.g", "goid")?,
        atomicstatus: find_field(structs, "runtime.g", "atomicstatus")?,
        waitreason: find_field(structs, "runtime.g", "waitreason")?,
        stack_lo: stack.wrapping_add(lo),
        stack_hi: stack.wrapping_add(hi),
        sched_pc: sched.wrapping_add(pc),
        sched_sp: sched.wrapping_add(sp),
        gopc: find_field(structs, "runtime.g", "gopc")?,
        startpc: find_field(structs, "runtime.g", "startpc")?,
        m: find_field(structs, "runtime.g", "m")?,
        parent_goid: find_field(structs, "runtime.g", "parentGoid"),
    };
    Some((offsets, find_field(structs, "runtime.m", "procid")))
}

// ---------------------------------------------------------------------------
// All of it
// ---------------------------------------------------------------------------

/// The symbol's address, else the variable's.
pub open spec fn address_named(image: Seq<u8>, vars: Named, name: Seq<char>) -> Option<u64> {
    match object_file::named_address(image, name) {
        Some(addr) => Some(addr),
        None => first_named(vars, name, 0),
    }
}

/// Everything that a binary tells.
pub open spec fn extracted(image: Seq<u8>) -> Result<DwarfExtract, GoDecodeErrorSpec> {
    match object_file::object_shape(image) {
        Err(e) => Err(GoDecodeErrorSpec::Object(e)),
        Ok(shape) => match findings_from(
            object_file::debug_sections_of(image),
            shape.little_endian,
            0,
            no_findings(),
        ) {
            Err(e) => Err(GoDecodeErrorSpec::Dwarf(e)),
            Ok(found) => Ok(
                DwarfExtract {
                    ptr_size: if shape.is_64 {
                        8
                    } else {
                        4
                    },
                    allgs_addr: address_named(image, found.vars, "runtime.allgs"@),
                    allglen_addr: address_named(image, found.vars, "runtime.allglen"@),
                    offsets: offsets_of(found.structs),
                },
            ),
        },
    }
}

/// Extract what a binary tells of the Go runtime's layout.
///
/// # Errors
/// Fails where the bytes are no object file, or the debug information cannot be
/// read.
pub fn extract(bytes: &[u8]) -> (r: Result<DwarfExtract, GoDecodeError>)
    ensures
        outcome(r) == extracted(bytes@),
{
    let shape = match object_file::shape(bytes) {
        Err(e) => return Err(GoDecodeError::Object(e)),
        Ok(shape) => shape,
    };
    let sections = DebugSections::load(bytes, shape.little_endian);
    let info = match read_dwarf(&sections) {
        Err(e) => return Err(GoDecodeError::Dwarf(e)),
        Ok(info) => info,
    };
    let allgs_addr = match object_file::symbol_addr(bytes, "runtime.allgs") {
        Some(addr) => Some(addr),
        None => find_first(&info.vars, "runtime.allgs"),
    };
    let allglen_addr = match object_file::symbol_addr(bytes, "runtime.allglen") {
        Some(addr) => Some(addr),
        None => find_first(&info.vars, "runtime.allglen"),
    };
    Ok(
        DwarfExtract {
            ptr_size: if shape.is_64 {
                8
            } else {
                4
            },
            allgs_addr,
            allglen_addr,
            offsets: assemble_offsets(&info.structs),
        },
    )
}

/// The vendored offsets for the version that a binary embeds.
pub open spec fn vendored_for(image: Seq<u8>) -> Result<
    (GStructOffsets, Option<u64>, LayoutSource),
    GoDecodeErrorSpec,
> {
    match GoVersion::first_in(image, 0) {
        None => Err(
            GoDecodeErrorSpec::LayoutUnresolved("no DWARF offsets and no embedded go version"@),
        ),
        Some(version) => match GStructOffsets::table(version) {
            None => Err(
                GoDecodeErrorSpec::LayoutUnresolved(
                    "no vendored offset table for go"@ + text::decimal(version.major as nat) + "."@
                        + text::decimal(version.minor as nat),
                ),
            ),
            Some(g) => Ok((g, offsets::procid_table(version), LayoutSource::Vendored(version))),
        },
    }
}

fn resolve_vendored(image: &[u8]) -> (r: Result<
    (GStructOffsets, Option<u64>, LayoutSource),
    GoDecodeError,
>)
    ensures
        match r {
            Ok(found) => vendored_for(image@) == Ok::<_, GoDecodeErrorSpec>(found),
            Err(e) => vendored_for(image@) == Err::<
                (GStructOffsets, Option<u64>, LayoutSource),
                GoDecodeErrorSpec,
            >(e.deep_view()),
        },
{
    let version = match GoVersion::detect_in_bytes(image) {
        None => {
            return Err(
                GoDecodeError::LayoutUnresolved(
                    "no DWARF offsets and no embedded go version".to_owned(),
                ),
            );
        },
        Some(version) => version,
    };
    match GStructOffsets::vendored(version) {
        None => {
            let mut why = "no vendored offset table for go".to_owned();
            text::push_decimal(&mut why, version.major as u64);
            why.append(".");
            text::push_decimal(&mut why, version.minor as u64);
            Err(GoDecodeError::LayoutUnresolved(why))
        },
        Some(g) => Ok((g, offsets::vendored_m_procid(version), LayoutSource::Vendored(version))),
    }
}

/// The layout that what was extracted of a binary gives: with the offsets of its
/// debug information, else with the vendored ones for the version that it
/// embeds.
pub open spec fn layout_of(extract: DwarfExtract, image: Seq<u8>) -> Result<
    GoLayout,
    GoDecodeErrorSpec,
> {
    match extract.allgs_addr {
        None => Err(GoDecodeErrorSpec::AllgsNotFound),
        Some(allgs_addr) => match (
            match extract.offsets {
                Some((g, m_procid)) => Ok((g, m_procid, LayoutSource::Dwarf)),
                None => vendored_for(image),
            }
        ) {
            Err(e) => Err(e),
            Ok((g, m_procid, source)) => Ok(
                GoLayout {
                    ptr_size: extract.ptr_size,
                    allgs_addr,
                    allglen_addr: extract.allglen_addr,
                    load_bias: 0,
                    g,
                    m_procid,
                    source,
                },
            ),
        },
    }
}

/// The layout that what was extracted of a binary gives.
///
/// # Errors
/// Fails where `runtime.allgs` was not found, or neither the debug information
/// nor the vendored table gives the offsets.
pub fn complete_layout(extract: DwarfExtract, image: &[u8]) -> (r: Result<GoLayout, GoDecodeError>)
    ensures
        outcome(r) == layout_of(extract, image@),
{
    let allgs_addr: u64 = match extract.allgs_addr {
        None => return Err(GoDecodeError::AllgsNotFound),
        Some(addr) => addr,
    };
    let (g, m_procid, source) = match extract.offsets {
        Some((g, m_procid)) => (g, m_procid, LayoutSource::Dwarf),
        None => resolve_vendored(image)?,
    };
    Ok(
        GoLayout {
            ptr_size: extract.ptr_size,
            allgs_addr,
            allglen_addr: extract.allglen_addr,
            load_bias: 0,
            g,
            m_procid,
            source,
        },
    )
}

/// The layout of the Go runtime in a binary.
pub open spec fn loaded_layout(image: Seq<u8>) -> Result<GoLayout, GoDecodeErrorSpec> {
    match object_file::object_shape(image) {
        Err(e) => Err(GoDecodeErrorSpec::Object(e)),
        Ok(_) => if !is_go(image) {
            Err(GoDecodeErrorSpec::NotGoBinary)
        } else {
            match extracted(image) {
                Err(e) => Err(e),
                Ok(extract) => layout_of(extract, image),
            }
        },
    }
}

/// Resolve the layout of the Go runtime in a binary. Offsets in its own debug
/// information are preferred to the vendored ones.
///
/// # Errors
/// See `GoDecodeError`.
pub fn load_layout(image: &[u8]) -> (r: Result<GoLayout, GoDecodeError>)
    ensures
        outcome(r) == loaded_layout(image@),
{
    if let Err(e) = object_file::shape(image) {
        return Err(GoDecodeError::Object(e));
    }
    if !is_go_object(image) {
        return Err(GoDecodeError::NotGoBinary);
    }
    let extract = extract(image)?;
    complete_layout(extract, image)
}

} // verus!
