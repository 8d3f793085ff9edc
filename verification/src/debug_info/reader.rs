//! Reading one unit of debug information with `gimli`.
use gimli::{
    AttributeValue, DebugInfoOffset, DwAt, DwarfSections, EndianSlice, RunTimeEndian, UnitOffset,
};
use vstd::prelude::*;

use super::object_file::{self, DebugSections};
use super::unit::{AT_COMP_DIR, AT_LOW_PC, AT_NAME};

verus! {

/// The highest index that a table of strings or addresses can have: times the
/// size of an entry, eight bytes at most, it stays in 64 bits.
pub const MAX_INDEX: u64 = 0x1fff_ffff_ffff_ffff;

/// One attribute of an entry, if it has it; or why it cannot be read.
pub type Attribute<T> = Result<Option<T>, Seq<char>>;

/// One debugging information entry, with every attribute read in each of the
/// ways that are asked for. A way is absent for a name that the entry does not
/// have, or not in that form. Where no entry can be read, every way is an error.
pub struct RawEntry {
    /// The attributes as strings.
    pub texts: Map<u16, Result<Seq<char>, Seq<char>>>,
    /// The attributes as unsigned constants.
    pub constants: Map<u16, Result<u64, Seq<char>>>,
    /// The attributes as references within the unit.
    pub references: Map<u16, Result<u64, Seq<char>>>,
    /// The attributes as expressions.
    pub expressions: Map<u16, Result<Seq<u8>, Seq<char>>>,
    /// The attributes as addresses.
    pub addresses: Map<u16, Result<u64, Seq<char>>>,
    /// The attributes that are given by an index into a table of strings or of
    /// addresses: that index.
    pub indices: Map<u16, u64>,
}

/// How much deeper an entry is than the one before it, where it starts in its
/// unit, and its tag.
pub type Head = (i64, u64, u16);

/// The entries from some place of a unit on.
pub struct RawList {
    /// The entries in depth-first order, as far as they can be read.
    pub heads: Seq<Head>,
    /// Why they cannot be read any further, if not to the end of the unit.
    pub trouble: Option<Seq<char>>,
    /// As far as they can be read: for an entry whether it has children, and
    /// nothing for a null entry, which ends a list of children.
    pub steps: Seq<Option<bool>>,
}

/// The contents of one unit.
pub struct RawUnit {
    /// The entries by where they start in the unit.
    pub entries: Map<u64, RawEntry>,
    /// The entries from a place of the unit on, or from its first entry on.
    pub lists: Map<Option<u64>, RawList>,
    /// The names of the files in the unit's line program, by number.
    pub files: Map<u64, Seq<char>>,
    /// The files whose name is given by an index into a table of strings: that
    /// index.
    pub file_indices: Map<u64, u64>,
    /// The size of an address.
    pub address_size: u8,
    /// The length of the unit in its section.
    pub length: usize,
}

/// An attribute as a lookup by name finds it.
pub open spec fn attribute<T>(m: Map<u16, Result<T, Seq<char>>>, name: u16) -> Attribute<T> {
    if m.contains_key(name) {
        match m[name] {
            Ok(v) => Ok(Some(v)),
            Err(e) => Err(e),
        }
    } else {
        Ok(None)
    }
}

/// Where there is an index, a table can have it.
pub open spec fn index_fits<K>(indices: Map<K, u64>, key: K) -> bool {
    indices.contains_key(key) ==> indices[key] <= MAX_INDEX
}

/// Sections that `gimli` reads units from: a collection of units. (Its `Dwarf`
/// is held here whole: the type of its sections is bounded by a trait of its
/// crate.)
#[verifier::external_body]
pub struct DebugData<'a> {
    dwarf: gimli::Dwarf<EndianSlice<'a, RunTimeEndian>>,
}

/// Whether the sections are little-endian, and their contents by name.
pub uninterp spec fn data_contents(data: DebugData<'_>) -> (bool, Seq<(Seq<char>, Seq<u8>)>);

/// A unit as `gimli` holds it: a collection of entries. (`gimli::Unit` is
/// bounded by a trait of its crate, and held here whole.)
#[verifier::external_body]
pub struct DebugUnit<'a> {
    dwarf: gimli::Dwarf<EndianSlice<'a, RunTimeEndian>>,
    unit: gimli::Unit<EndianSlice<'a, RunTimeEndian>>,
}

/// What a unit holds.
pub uninterp spec fn unit_contents(unit: DebugUnit<'_>) -> RawUnit;

/// The attributes of the root of the unit whose header is at `at` in
/// `.debug_info`, in order, as far as they can be read: the name, and the index
/// for one that is given by an index into a table of strings or of addresses.
pub uninterp spec fn root_at(
    little_endian: bool,
    sections: Seq<(Seq<char>, Seq<u8>)>,
    at: nat,
) -> Seq<(u16, Option<u64>)>;

/// The unit whose header is at `at` in `.debug_info`, as `gimli` reads it from
/// the sections; or why it cannot be read.
pub uninterp spec fn unit_at(
    little_endian: bool,
    sections: Seq<(Seq<char>, Seq<u8>)>,
    at: nat,
) -> Result<RawUnit, Seq<char>>;

/// Hand sections to `gimli`: `DwarfSections::load`, which fails only where the
/// given function does, and `borrow`. Claimed: what is read from them is in that
/// byte order, and each section is the first of its name.
#[verifier::external_body]
pub(crate) fn open_sections<'a>(d: &'a DebugSections) -> (r: DebugData<'a>)
    ensures
        data_contents(r) == (d.little_endian, d.sections.deep_view()),
{
    let endian = if d.little_endian { RunTimeEndian::Little } else { RunTimeEndian::Big };
    let load = |id: gimli::SectionId| Ok::<&[u8], gimli::Error>(d.get(id.name()));
    let sections = DwarfSections::load(load).unwrap_or_default();
    DebugData { dwarf: sections.borrow(|s| EndianSlice::new(s, endian)) }
}

/// List the attributes of the root of the unit at an offset, as far as they can be
/// read: `DebugInfo::header_from_offset`, `Dwarf::abbreviations`,
/// `UnitHeader::entries`, `EntriesCursor::next_dfs`,
/// `DebuggingInformationEntry::attrs`; each with its name and, where
/// `Attribute::value` is a `DebugStrOffsetsIndex` or a `DebugAddrIndex`, that
/// index. Claimed: the list is a function of the sections, the byte order and the
/// offset.
#[verifier::external_body]
pub(crate) fn root(d: &DebugData<'_>, at: usize) -> (r: Vec<(u16, Option<u64>)>)
    ensures
        r@ == root_at(data_contents(*d).0, data_contents(*d).1, at as nat),
{
    let (mut out, info) = (Vec::new(), &d.dwarf.debug_info);
    let Ok(header) = info.header_from_offset(DebugInfoOffset(at)) else { return out };
    let Ok(abbreviations) = d.dwarf.abbreviations(&header) else { return out };
    let mut cursor = header.entries(&abbreviations);
    let Ok(Some((_, entry))) = cursor.next_dfs() else { return out };
    let mut attrs = entry.attrs();
    while let Ok(Some(attr)) = attrs.next() {
        let index = match attr.value() {
            AttributeValue::DebugStrOffsetsIndex(index) => Some(index.0 as u64),
            AttributeValue::DebugAddrIndex(index) => Some(index.0 as u64),
            _ => None,
        };
        out.push((attr.name().0, index));
    }
    out
}

/// The name, directory and low address of a unit can be looked up: where they are
/// given by an index, a table can have it.
pub open spec fn root_fits(root: Seq<(u16, Option<u64>)>) -> bool {
    forall|i: int|
        0 <= i < root.len() ==> match #[trigger] root[i] {
            (name, Some(index)) => name == AT_NAME || name == AT_COMP_DIR || name == AT_LOW_PC
                ==> index <= MAX_INDEX,
            _ => true,
        }
}

/// Open the unit at an offset with `gimli`: `DebugInfo::header_from_offset`,
/// `Dwarf::unit`; and say how long it is (`UnitHeader::length_including_self`).
/// Claimed: the unit's contents and length, or the error's text, are a function
/// of the sections, the byte order and the offset; and a unit that can be opened
/// has some length and lies within `.debug_info`. Once `Dwarf::unit` has read every
/// attribute of the root, it looks up the name, directory and low address, and
/// multiplies an index for one of them by the size of an entry.
#[verifier::external_body]
pub(crate) fn open_unit<'a>(d: DebugData<'a>, at: usize) -> (r: Result<
    (DebugUnit<'a>, usize),
    String,
>)
    requires
        root_fits(root_at(data_contents(d).0, data_contents(d).1, at as nat)),
    ensures
        match r {
            Ok((unit, length)) => unit_at(data_contents(d).0, data_contents(d).1, at as nat)
                == Ok::<RawUnit, Seq<char>>(unit_contents(unit)) && unit_contents(unit).length
                == length && 0 < length && at + length <= object_file::section_named(
                data_contents(d).1,
                ".debug_info"@,
                0,
            ).len(),
            Err(e) => unit_at(data_contents(d).0, data_contents(d).1, at as nat) == Err::<
                RawUnit,
                Seq<char>,
            >(e@),
        },
{
    let header = d.dwarf.debug_info.header_from_offset(DebugInfoOffset(at));
    let header = header.map_err(|e| e.to_string())?;
    let length = header.length_including_self();
    let unit = d.dwarf.unit(header).map_err(|e| e.to_string())?;
    Ok((DebugUnit { dwarf: d.dwarf, unit }, length))
}

/// List the entries of a unit with `EntriesCursor::next_dfs`, from its first one
/// on (`Unit::entries`) or from an offset on (`Unit::entries_at_offset`): how much
/// deeper each is than the one before, its offset and its tag. Claimed: these are
/// the entries that the unit holds from there, in that order, as far as they can
/// be read, and the error's text, where there is one, is that of what comes after
/// them.
#[verifier::external_body]
pub(crate) fn heads(u: &DebugUnit<'_>, from: Option<u64>) -> (r: (Vec<Head>, Option<String>))
    ensures
        r.0@ == unit_contents(*u).lists[from].heads,
        r.1.deep_view() == unit_contents(*u).lists[from].trouble,
{
    let cursor = match from {
        Some(offset) => u.unit.entries_at_offset(UnitOffset(offset as usize)),
        None => Ok(u.unit.entries()),
    };
    let (mut cursor, mut out) = match cursor {
        Ok(cursor) => (cursor, Vec::new()),
        Err(e) => return (Vec::new(), Some(e.to_string())),
    };
    loop {
        match cursor.next_dfs() {
            Ok(Some((delta, e))) => out.push((delta as i64, e.offset().0 as u64, e.tag().0)),
            Ok(None) => return (out, None),
            Err(e) => return (out, Some(e.to_string())),
        }
    }
}

/// List the entries of a unit, null entries among them, with
/// `EntriesCursor::next_entry`, from its first one on (`Unit::entries`) or from an
/// offset on (`Unit::entries_at_offset`): `DebuggingInformationEntry::has_children`
/// of each that `EntriesCursor::current` gives, and nothing for a null entry.
/// Claimed: these are the steps that the unit holds from there, in that order, as
/// far as they can be read.
#[verifier::external_body]
pub(crate) fn steps(u: &DebugUnit<'_>, from: Option<u64>) -> (r: Vec<Option<bool>>)
    ensures
        r@ == unit_contents(*u).lists[from].steps,
{
    let cursor = match from {
        Some(offset) => u.unit.entries_at_offset(UnitOffset(offset as usize)),
        None => Ok(u.unit.entries()),
    };
    let mut out = Vec::new();
    if let Ok(mut cursor) = cursor {
        while let Ok(Some(())) = cursor.next_entry() {
            out.push(cursor.current().map(|e| e.has_children()));
        }
    }
    out
}

/// The index by which an attribute of the entry at an offset is given:
/// `Unit::entry`, `attr_value`, where it is a `DebugStrOffsetsIndex` or a
/// `DebugAddrIndex`. Claimed: that index, and `None` where there is no such entry,
/// it lacks the attribute, or that is not given by an index.
#[verifier::external_body]
pub(crate) fn index(u: &DebugUnit<'_>, offset: u64, name: u16) -> (r: Option<u64>)
    ensures
        r == (if unit_contents(*u).entries[offset].indices.contains_key(name) {
            Some(unit_contents(*u).entries[offset].indices[name])
        } else {
            None
        }),
{
    let entry = u.unit.entry(UnitOffset(offset as usize)).ok()?;
    match entry.attr_value(DwAt(name)).ok()?? {
        AttributeValue::DebugStrOffsetsIndex(index) => Some(index.0 as u64),
        AttributeValue::DebugAddrIndex(index) => Some(index.0 as u64),
        _ => None,
    }
}

/// Read an attribute of the entry at an offset as a string: `Unit::entry`,
/// `attr_value`, `Dwarf::attr_string`, `EndianSlice::to_string`. Claimed: the
/// attribute as a string, `None` where the entry lacks it, or the text of the
/// error. `Dwarf::attr_string` multiplies an index by the size of an entry.
#[verifier::external_body]
pub(crate) fn text(u: &DebugUnit<'_>, offset: u64, name: u16) -> (r: Result<
    Option<String>,
    String,
>)
    requires
        index_fits(unit_contents(*u).entries[offset].indices, name),
    ensures
        crate::error::outcome(r) == attribute(unit_contents(*u).entries[offset].texts, name),
{
    let entry = u.unit.entry(UnitOffset(offset as usize));
    let value = entry.and_then(|e| e.attr_value(DwAt(name)));
    let slice = value.and_then(|v| v.map(|v| u.dwarf.attr_string(&u.unit, v)).transpose());
    let text = slice.and_then(|s| s.map(|s| s.to_string()).transpose());
    text.map(|s| s.map(str::to_owned)).map_err(|e| e.to_string())
}

/// Read an attribute of the entry at an offset as an unsigned constant:
/// `Unit::entry`, `attr`, `Attribute::udata_value`. Claimed: the constant, `None`
/// where the entry lacks it or it is no unsigned constant, or the text of the
/// error.
#[verifier::external_body]
pub(crate) fn constant(u: &DebugUnit<'_>, offset: u64, name: u16) -> (r: Result<
    Option<u64>,
    String,
>)
    ensures
        crate::error::outcome(r) == attribute(unit_contents(*u).entries[offset].constants, name),
{
    let entry = u.unit.entry(UnitOffset(offset as usize));
    let value = entry.and_then(|e| e.attr(DwAt(name)));
    value.map(|a| a.and_then(|a| a.udata_value())).map_err(|e| e.to_string())
}

/// Read an attribute of the entry at an offset as a reference within the unit:
/// `Unit::entry`, `attr_value`, where it is an `AttributeValue::UnitRef`. Claimed:
/// the offset that is referred to, `None` where the entry lacks the attribute or
/// it is no such reference, or the text of the error.
#[verifier::external_body]
pub(crate) fn reference(u: &DebugUnit<'_>, offset: u64, name: u16) -> (r: Result<
    Option<u64>,
    String,
>)
    ensures
        crate::error::outcome(r) == attribute(unit_contents(*u).entries[offset].references, name),
{
    let entry = u.unit.entry(UnitOffset(offset as usize));
    match entry.and_then(|e| e.attr_value(DwAt(name))) {
        Ok(Some(AttributeValue::UnitRef(offset))) => Ok(Some(offset.0 as u64)),
        Ok(_) => Ok(None),
        Err(e) => Err(e.to_string()),
    }
}

/// Read an attribute of the entry at an offset as an expression: `Unit::entry`,
/// `attr_value`, where it is an `AttributeValue::Exprloc`. Claimed: the bytes of
/// the expression, `None` where the entry lacks the attribute or it is no
/// expression, or the text of the error.
#[verifier::external_body]
pub(crate) fn expression(u: &DebugUnit<'_>, offset: u64, name: u16) -> (r: Result<
    Option<Vec<u8>>,
    String,
>)
    ensures
        crate::error::outcome(r) == attribute(unit_contents(*u).entries[offset].expressions, name),
{
    let entry = u.unit.entry(UnitOffset(offset as usize));
    match entry.and_then(|e| e.attr_value(DwAt(name))) {
        Ok(Some(AttributeValue::Exprloc(expression))) => Ok(Some(expression.0.to_vec())),
        Ok(_) => Ok(None),
        Err(e) => Err(e.to_string()),
    }
}

/// Read an attribute of the entry at an offset as an address: `Unit::entry`,
/// `attr_value`, `Dwarf::attr_address`. Claimed: the address, `None` where the
/// entry lacks the attribute or it is no address, or the text of the error.
/// `Dwarf::attr_address` multiplies an index by the size of an entry.
#[verifier::external_body]
pub(crate) fn address(u: &DebugUnit<'_>, offset: u64, name: u16) -> (r: Result<
    Option<u64>,
    String,
>)
    requires
        index_fits(unit_contents(*u).entries[offset].indices, name),
    ensures
        crate::error::outcome(r) == attribute(unit_contents(*u).entries[offset].addresses, name),
{
    let entry = u.unit.entry(UnitOffset(offset as usize));
    let value = entry.and_then(|e| e.attr_value(DwAt(name)));
    let address = value.and_then(|v| v.map(|v| u.dwarf.attr_address(&u.unit, v)).transpose());
    address.map(|a| a.flatten()).map_err(|e| e.to_string())
}

/// The index by which the name of a file in the unit's line program is given:
/// `LineProgramHeader::file`, `FileEntry::path_name`, where it is a
/// `DebugStrOffsetsIndex`. Claimed: that index, and `None` where the unit has no
/// such file or its name is not given by an index. `LineProgramHeader::file` takes
/// one from the number as a `usize`.
#[verifier::external_body]
pub(crate) fn file_index(u: &DebugUnit<'_>, number: u64) -> (r: Option<u64>)
    requires
        number <= usize::MAX,
    ensures
        r == (if unit_contents(*u).file_indices.contains_key(number) {
            Some(unit_contents(*u).file_indices[number])
        } else {
            None
        }),
{
    match u.unit.line_program.as_ref()?.header().file(number)?.path_name() {
        AttributeValue::DebugStrOffsetsIndex(index) => Some(index.0 as u64),
        _ => None,
    }
}

/// The name of a file in the unit's line program: `LineProgramHeader::file`,
/// `FileEntry::path_name`, `Dwarf::attr_string`. Claimed: `None` where the
/// unit has no such file or its name cannot be read, else the name.
/// `Dwarf::attr_string` multiplies an index by the size of an entry, and
/// `LineProgramHeader::file` takes one from the number as a `usize`.
#[verifier::external_body]
pub(crate) fn file_name(u: &DebugUnit<'_>, number: u64) -> (r: Option<String>)
    requires
        number <= usize::MAX,
        index_fits(unit_contents(*u).file_indices, number),
    ensures
        r.deep_view() == (if unit_contents(*u).files.contains_key(number) {
            Some(unit_contents(*u).files[number])
        } else {
            None
        }),
{
    let file = u.unit.line_program.as_ref()?.header().file(number)?;
    let name = u.dwarf.attr_string(&u.unit, file.path_name()).ok()?;
    name.to_string().ok().map(str::to_owned)
}

/// The size of an address in the unit: `Unit::encoding`.
#[verifier::external_body]
pub(crate) fn address_size(u: &DebugUnit<'_>) -> (r: u8)
    ensures
        r == unit_contents(*u).address_size,
{
    u.unit.encoding().address_size
}

} // verus!
