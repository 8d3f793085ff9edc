//! One unit of debug information as plain values: its entries in depth-first
//! order, each with its depth, from which the tree follows.
use std::collections::BTreeMap;

use vstd::prelude::*;

use super::object_file::{self, DebugSections};
use super::reader::{self, DebugUnit, Head, RawUnit, MAX_INDEX};
use crate::error::outcome;
use crate::text;

verus! {

/// `DW_AT_location`.
pub const AT_LOCATION: u16 = 0x02;

/// `DW_AT_name`.
pub const AT_NAME: u16 = 0x03;

/// `DW_AT_byte_size`.
pub const AT_BYTE_SIZE: u16 = 0x0b;

/// `DW_AT_low_pc`.
pub const AT_LOW_PC: u16 = 0x11;

/// `DW_AT_discr`.
pub const AT_DISCR: u16 = 0x15;

/// `DW_AT_discr_value`.
pub const AT_DISCR_VALUE: u16 = 0x16;

/// `DW_AT_comp_dir`.
pub const AT_COMP_DIR: u16 = 0x1b;

/// `DW_AT_producer`.
pub const AT_PRODUCER: u16 = 0x25;

/// `DW_AT_data_member_location`.
pub const AT_DATA_MEMBER_LOCATION: u16 = 0x38;

/// `DW_AT_decl_file`.
pub const AT_DECL_FILE: u16 = 0x3a;

/// `DW_AT_decl_line`.
pub const AT_DECL_LINE: u16 = 0x3b;

/// `DW_AT_type`.
pub const AT_TYPE: u16 = 0x49;

/// `DW_TAG_enumeration_type`.
pub const TAG_ENUMERATION_TYPE: u16 = 0x04;

/// `DW_TAG_member`.
pub const TAG_MEMBER: u16 = 0x0d;

/// `DW_TAG_structure_type`.
pub const TAG_STRUCTURE_TYPE: u16 = 0x13;

/// `DW_TAG_variant`.
pub const TAG_VARIANT: u16 = 0x19;

/// `DW_TAG_subprogram`.
pub const TAG_SUBPROGRAM: u16 = 0x2e;

/// `DW_TAG_variant_part`.
pub const TAG_VARIANT_PART: u16 = 0x33;

/// `DW_TAG_variable`.
pub const TAG_VARIABLE: u16 = 0x34;

/// `DW_TAG_namespace`.
pub const TAG_NAMESPACE: u16 = 0x39;

/// One debugging information entry: what the decoders read of it. An attribute
/// that is absent is `Ok(None)`; one that cannot be read is an error text.
#[derive(Debug, PartialEq, Eq)]
pub struct Entry {
    /// Where the entry starts in its unit.
    pub offset: u64,
    /// The tag.
    pub tag: u16,
    /// The depth in the tree.
    pub depth: i64,
    /// `DW_AT_name`.
    pub name: Result<Option<String>, String>,
    /// `DW_AT_producer`.
    pub producer: Result<Option<String>, String>,
    /// `DW_AT_type`, as an offset within the unit.
    pub type_ref: Result<Option<u64>, String>,
    /// `DW_AT_discr`, as an offset within the unit.
    pub discr_ref: Result<Option<u64>, String>,
    /// `DW_AT_data_member_location`.
    pub member_location: Result<Option<u64>, String>,
    /// `DW_AT_location`, where it is an expression.
    pub location: Result<Option<Vec<u8>>, String>,
    /// `DW_AT_low_pc`.
    pub low_pc: Result<Option<u64>, String>,
    /// `DW_AT_byte_size`.
    pub byte_size: Option<u64>,
    /// `DW_AT_discr_value`.
    pub discr_value: Option<u64>,
    /// `DW_AT_decl_line`.
    pub decl_line: Option<u64>,
    /// The name of the file that `DW_AT_decl_file` refers to.
    pub decl_path: Option<String>,
}

/// The value of an `Entry`.
#[verifier::ext_equal]
pub struct EntrySpec {
    pub offset: u64,
    pub tag: u16,
    pub depth: i64,
    pub name: Result<Option<Seq<char>>, Seq<char>>,
    pub producer: Result<Option<Seq<char>>, Seq<char>>,
    pub type_ref: Result<Option<u64>, Seq<char>>,
    pub discr_ref: Result<Option<u64>, Seq<char>>,
    pub member_location: Result<Option<u64>, Seq<char>>,
    pub location: Result<Option<Seq<u8>>, Seq<char>>,
    pub low_pc: Result<Option<u64>, Seq<char>>,
    pub byte_size: Option<u64>,
    pub discr_value: Option<u64>,
    pub decl_line: Option<u64>,
    pub decl_path: Option<Seq<char>>,
}

impl DeepView for Entry {
    type V = EntrySpec;

    open spec fn deep_view(&self) -> EntrySpec {
        EntrySpec {
            offset: self.offset,
            tag: self.tag,
            depth: self.depth,
            name: outcome(self.name),
            producer: outcome(self.producer),
            type_ref: outcome(self.type_ref),
            discr_ref: outcome(self.discr_ref),
            member_location: outcome(self.member_location),
            location: outcome(self.location),
            low_pc: outcome(self.low_pc),
            byte_size: self.byte_size,
            discr_value: self.discr_value,
            decl_line: self.decl_line,
            decl_path: self.decl_path.deep_view(),
        }
    }
}

impl Entry {
    /// An entry with no attributes.
    #[must_use]
    pub fn new(offset: u64, tag: u16, depth: i64) -> (r: Self)
        ensures
            r.offset == offset,
            r.tag == tag,
            r.depth == depth,
            r.name == Ok::<Option<String>, String>(None),
            r.producer == Ok::<Option<String>, String>(None),
            r.type_ref == Ok::<Option<u64>, String>(None),
            r.discr_ref == Ok::<Option<u64>, String>(None),
            r.member_location == Ok::<Option<u64>, String>(None),
            r.location == Ok::<Option<Vec<u8>>, String>(None),
            r.low_pc == Ok::<Option<u64>, String>(None),
            r.byte_size is None,
            r.discr_value is None,
            r.decl_line is None,
            r.decl_path is None,
    {
        Entry {
            offset,
            tag,
            depth,
            name: Ok(None),
            producer: Ok(None),
            type_ref: Ok(None),
            discr_ref: Ok(None),
            member_location: Ok(None),
            location: Ok(None),
            low_pc: Ok(None),
            byte_size: None,
            discr_value: None,
            decl_line: None,
            decl_path: None,
        }
    }
}

// ---------------------------------------------------------------------------
// The tree in a depth-first list
// ---------------------------------------------------------------------------

/// The first position after `k` that is not below the entry at `k`, looking
/// from `from` on and no further than `end`.
pub open spec fn end_from(s: Seq<EntrySpec>, k: int, from: int, end: int) -> int
    decreases end - from,
{
    if from >= end || from >= s.len() || s[from].depth <= s[k].depth {
        from
    } else {
        end_from(s, k, from + 1, end)
    }
}

/// Where the entries below `k` end, within `end`.
pub open spec fn below_end(s: Seq<EntrySpec>, k: int, end: int) -> int {
    end_from(s, k, k + 1, end)
}

/// The entries below `k` end after `k` and within bounds.
pub proof fn lemma_below_end(s: Seq<EntrySpec>, k: int, from: int, end: int)
    requires
        k < from <= end,
    ensures
        from <= end_from(s, k, from, end) <= end,
    decreases end - from,
{
    if from >= end || from >= s.len() || s[from].depth <= s[k].depth {
    } else {
        lemma_below_end(s, k, from + 1, end);
    }
}

/// Where the entries below the unit's root end.
pub open spec fn root_end(s: Seq<EntrySpec>) -> int {
    if s.len() == 0 {
        0
    } else {
        below_end(s, 0, s.len() as int)
    }
}

/// The entries below the root are entries of the unit.
pub proof fn lemma_root_end(s: Seq<EntrySpec>)
    ensures
        0 <= root_end(s) <= s.len(),
        s.len() > 0 ==> root_end(s) > 0,
{
    if s.len() > 0 {
        lemma_below_end(s, 0, 1, s.len() as int);
    }
}

/// The entry at `c` and its siblings after it, up to `stop`.
pub open spec fn siblings(s: Seq<EntrySpec>, c: int, stop: int) -> Seq<int>
    decreases stop - c,
{
    if c >= stop {
        Seq::empty()
    } else {
        proof {
            lemma_below_end(s, c, c + 1, stop);
        }
        seq![c] + siblings(s, below_end(s, c, stop), stop)
    }
}

/// The positions of the children of the entry at `k`, in order.
pub open spec fn children(s: Seq<EntrySpec>, k: int) -> Seq<int> {
    siblings(s, k + 1, below_end(s, k, s.len() as int))
}

/// The children of an entry come after it.
pub proof fn lemma_siblings(s: Seq<EntrySpec>, c: int, stop: int)
    ensures
        forall|i: int|
            0 <= i < siblings(s, c, stop).len() ==> c <= #[trigger] siblings(s, c, stop)[i] < stop,
    decreases stop - c,
{
    if c < stop {
        let next = below_end(s, c, stop);
        lemma_below_end(s, c, c + 1, stop);
        lemma_siblings(s, next, stop);
        let all = siblings(s, c, stop);
        let rest = siblings(s, next, stop);
        assert forall|i: int| 0 <= i < all.len() implies c <= #[trigger] all[i] < stop by {
            if i > 0 {
                assert(all[i] == rest[i - 1]);
            }
        }
    }
}

/// The first of some entries that has a tag, at or after `from`.
pub open spec fn first_tagged(s: Seq<EntrySpec>, among: Seq<int>, tag: u16, from: nat) -> Option<
    int,
>
    decreases among.len() - from,
{
    if from >= among.len() {
        None
    } else if s[among[from as int]].tag == tag {
        Some(among[from as int])
    } else {
        first_tagged(s, among, tag, from + 1)
    }
}

/// The first error among some results, else all that they hold, in order.
pub open spec fn gathered<T>(parts: Seq<Result<Seq<T>, Seq<char>>>) -> Result<Seq<T>, Seq<char>>
    decreases parts.len(),
{
    if parts.len() == 0 {
        Ok(Seq::empty())
    } else {
        match gathered(parts.drop_last()) {
            Err(e) => Err(e),
            Ok(before) => match parts.last() {
                Err(e) => Err(e),
                Ok(more) => Ok(before + more),
            },
        }
    }
}

/// The parts before an error settle what is gathered.
pub proof fn lemma_gathered_error<T>(parts: Seq<Result<Seq<T>, Seq<char>>>, n: int)
    requires
        0 <= n <= parts.len(),
        gathered(parts.take(n)) is Err,
    ensures
        gathered(parts) == gathered(parts.take(n)),
    decreases parts.len() - n,
{
    if n == parts.len() {
        assert(parts.take(n) =~= parts);
    } else {
        assert(parts.take(n + 1).drop_last() =~= parts.take(n));
        lemma_gathered_error(parts, n + 1);
    }
}

/// What one more part adds.
pub proof fn lemma_gathered_step<T>(parts: Seq<Result<Seq<T>, Seq<char>>>, n: int)
    requires
        0 <= n < parts.len(),
    ensures
        gathered(parts.take(n + 1)) == (match gathered(parts.take(n)) {
            Err(e) => Err(e),
            Ok(before) => match parts[n] {
                Err(e) => Err(e),
                Ok(more) => Ok(before + more),
            },
        }),
{
    assert(parts.take(n + 1).drop_last() =~= parts.take(n));
    assert(parts.take(n + 1).last() == parts[n]);
}

/// The position of the first entry that starts at an offset, at or after
/// `from`.
pub open spec fn position_from(s: Seq<EntrySpec>, offset: u64, from: nat) -> Option<nat>
    decreases s.len() - from,
{
    if from >= s.len() {
        None
    } else if s[from as int].offset == offset {
        Some(from)
    } else {
        position_from(s, offset, from + 1)
    }
}

/// The position of the first entry that starts at an offset.
pub open spec fn position(s: Seq<EntrySpec>, offset: u64) -> Option<nat> {
    position_from(s, offset, 0)
}

/// Why a reference to where no entry starts cannot be followed.
pub open spec fn no_entry_text() -> Seq<char> {
    "Read a null entry before it was expected."@
}

proof fn lemma_position(s: Seq<EntrySpec>, offset: u64, from: nat)
    ensures
        match position_from(s, offset, from) {
            Some(k) => from <= k < s.len() && s[k as int].offset == offset && forall|j: int|
                from <= j < k ==> (#[trigger] s[j]).offset != offset,
            None => forall|j: int| from <= j < s.len() ==> (#[trigger] s[j]).offset != offset,
        },
    decreases s.len() - from,
{
    if from < s.len() && s[from as int].offset != offset {
        lemma_position(s, offset, from + 1);
    }
}

proof fn lemma_position_is(s: Seq<EntrySpec>, offset: u64, k: nat)
    requires
        k < s.len(),
        s[k as int].offset == offset,
        forall|j: int| 0 <= j < k ==> (#[trigger] s[j]).offset != offset,
    ensures
        position(s, offset) == Some(k),
{
    lemma_position(s, offset, 0);
}

/// An entry that starts where none is listed, and what is below it.
pub struct Stray {
    /// The entry, those below it, and what else follows, in depth-first order.
    pub entries: Vec<Entry>,
    /// Why what is below the entry cannot be read to its end, if so.
    pub trouble: Option<String>,
}

/// The value of a `Stray`.
#[verifier::ext_equal]
pub struct StraySpec {
    pub entries: Seq<EntrySpec>,
    pub trouble: Option<Seq<char>>,
}

impl DeepView for Stray {
    type V = StraySpec;

    open spec fn deep_view(&self) -> StraySpec {
        StraySpec { entries: self.entries.deep_view(), trouble: self.trouble.deep_view() }
    }
}

/// A unit of debug information.
pub struct Unit<'a> {
    entries: Vec<Entry>,
    positions: BTreeMap<u64, usize>,
    address_size: u8,
    little_endian: bool,
    source: Option<DebugUnit<'a>>,
}

/// The value of a `Unit`.
#[verifier::ext_equal]
pub struct UnitSpec {
    /// The entries in depth-first order.
    pub entries: Seq<EntrySpec>,
    /// The size of an address.
    pub address_size: u8,
    /// The byte order.
    pub little_endian: bool,
    /// What an entry that starts where none is listed is read as, or why it
    /// cannot be read.
    pub strays: Map<u64, Result<StraySpec, Seq<char>>>,
}

impl UnitSpec {
    /// What the entry that starts at an offset where none is listed is read as,
    /// or why it cannot be read.
    pub open spec fn stray_at(self, offset: u64) -> Result<StraySpec, Seq<char>> {
        if self.strays.contains_key(offset) {
            self.strays[offset]
        } else {
            Err(no_entry_text())
        }
    }
}

impl<'a> DeepView for Unit<'a> {
    type V = UnitSpec;

    closed spec fn deep_view(&self) -> UnitSpec {
        UnitSpec {
            entries: self.entries.deep_view(),
            address_size: self.address_size,
            little_endian: self.little_endian,
            strays: match self.source {
                Some(u) => strays_of(reader::unit_contents(u)),
                None => Map::empty(),
            },
        }
    }
}

spec fn positions_match(positions: Map<u64, usize>, s: Seq<EntrySpec>) -> bool {
    &&& forall|o: u64| #[trigger]
        positions.contains_key(o) ==> position(s, o) == Some(positions[o] as nat)
    &&& forall|j: int| 0 <= j < s.len() ==> positions.contains_key((#[trigger] s[j]).offset)
}

impl<'a> Unit<'a> {
    #[verifier::type_invariant]
    closed spec fn is_indexed(self) -> bool {
        positions_match(self.positions@, self.entries.deep_view())
    }

    /// A unit with the given entries, in depth-first order.
    #[must_use]
    pub fn new(entries: Vec<Entry>, address_size: u8, little_endian: bool) -> (r: Self)
        ensures
            r.deep_view() == (UnitSpec {
                entries: entries.deep_view(),
                address_size,
                little_endian,
                strays: Map::empty(),
            }),
    {
        Unit::indexed(entries, address_size, little_endian, None)
    }

    fn indexed(
        entries: Vec<Entry>,
        address_size: u8,
        little_endian: bool,
        source: Option<DebugUnit<'a>>,
    ) -> (r: Self)
        ensures
            r.deep_view() == (UnitSpec {
                entries: entries.deep_view(),
                address_size,
                little_endian,
                strays: match source {
                    Some(u) => strays_of(reader::unit_contents(u)),
                    None => Map::empty(),
                },
            }),
    {
        let ghost s = entries.deep_view();
        let mut positions: BTreeMap<u64, usize> = BTreeMap::new();
        let mut i: usize = 0;
        while i < entries.len()
            invariant
                i <= entries.len(),
                s == entries.deep_view(),
                forall|o: u64| #[trigger]
                    positions@.contains_key(o) ==> position(s, o) == Some(positions@[o] as nat)
                        && positions@[o] < i,
                forall|j: int|
                    0 <= j < i ==> positions@.contains_key((#[trigger] s[j]).offset),
            decreases entries.len() - i,
        {
            let offset: u64 = entries[i].offset;
            assert(s[i as int] == entries@[i as int].deep_view());
            if !positions.contains_key(&offset) {
                proof {
                    assert forall|j: int| 0 <= j < i implies (#[trigger] s[j]).offset
                        != offset by {
                        assert(positions@.contains_key(s[j].offset));
                    }
                    lemma_position_is(s, offset, i as nat);
                }
                positions.insert(offset, i);
            }
            i += 1;
        }
        Unit { entries, positions, address_size, little_endian, source }
    }

    /// The number of entries.
    #[must_use]
    pub fn len(&self) -> (r: usize)
        ensures
            r == self.deep_view().entries.len(),
    {
        self.entries.len()
    }

    /// Whether there are no entries.
    #[must_use]
    pub fn is_empty(&self) -> (r: bool)
        ensures
            r == (self.deep_view().entries.len() == 0),
    {
        self.entries.len() == 0
    }

    /// The entry at a position.
    pub fn entry(&self, k: usize) -> (r: &Entry)
        requires
            k < self.deep_view().entries.len(),
        ensures
            r.deep_view() == self.deep_view().entries[k as int],
    {
        &self.entries[k]
    }

    /// The size of an address.
    pub fn address_size(&self) -> (r: u8)
        ensures
            r == self.deep_view().address_size,
    {
        self.address_size
    }

    /// The byte order.
    pub fn little_endian(&self) -> (r: bool)
        ensures
            r == self.deep_view().little_endian,
    {
        self.little_endian
    }

    /// Where the entries below `k` end, within `end`.
    pub fn end_below(&self, k: usize, end: usize) -> (r: usize)
        requires
            k < end <= self.deep_view().entries.len(),
        ensures
            r == below_end(self.deep_view().entries, k as int, end as int),
            k < r <= end,
    {
        let ghost s = self.deep_view().entries;
        let depth: i64 = self.entries[k].depth;
        let mut at: usize = k + 1;
        while at < end && self.entries[at].depth > depth
            invariant
                k < at <= end <= s.len(),
                s == self.deep_view().entries,
                s.len() == self.entries.len(),
                depth == s[k as int].depth,
                below_end(s, k as int, end as int) == end_from(s, k as int, at as int, end as int),
            decreases end - at,
        {
            assert(s[at as int] == self.entries@[at as int].deep_view());
            at += 1;
        }
        proof {
            if at < end {
                assert(s[at as int] == self.entries@[at as int].deep_view());
            }
        }
        at
    }

    /// The positions of the children of the entry at `k`, in order.
    pub fn children(&self, k: usize) -> (r: Vec<usize>)
        requires
            k < self.deep_view().entries.len(),
        ensures
            r@.map_values(|c: usize| c as int) == children(self.deep_view().entries, k as int),
            forall|i: int|
                0 <= i < r.len() ==> (#[trigger] r@[i]) < self.deep_view().entries.len(),
    {
        let ghost s = self.deep_view().entries;
        let stop: usize = self.end_below(k, self.len());
        let ghost want = children(s, k as int);
        let mut out: Vec<usize> = Vec::new();
        let mut c: usize = k + 1;
        while c < stop
            invariant
                k < c <= stop <= s.len(),
                s == self.deep_view().entries,
                want == out@.map_values(|c: usize| c as int) + siblings(
                    s,
                    c as int,
                    stop as int,
                ),
                forall|i: int| 0 <= i < out.len() ==> (#[trigger] out@[i]) < s.len(),
            decreases stop - c,
        {
            let next: usize = self.end_below(c, stop);
            let ghost rest = siblings(s, next as int, stop as int);
            let ghost before = out@.map_values(|c: usize| c as int);
            out.push(c);
            proof {
                assert(siblings(s, c as int, stop as int) =~= seq![c as int] + rest);
                assert(out@.map_values(|c: usize| c as int) =~= before.push(c as int));
                assert(before + (seq![c as int] + rest) =~= before.push(c as int) + rest);
            }
            c = next;
        }
        assert(want =~= out@.map_values(|c: usize| c as int));
        out
    }

    /// The first of some entries that has a tag.
    pub fn find_tagged(&self, among: &Vec<usize>, tag: u16) -> (r: Option<usize>)
        requires
            forall|i: int|
                0 <= i < among.len() ==> (#[trigger] among@[i]) < self.deep_view().entries.len(),
        ensures
            match r {
                Some(k) => first_tagged(
                    self.deep_view().entries,
                    among@.map_values(|c: usize| c as int),
                    tag,
                    0,
                ) == Some(k as int) && k < self.deep_view().entries.len(),
                None => first_tagged(
                    self.deep_view().entries,
                    among@.map_values(|c: usize| c as int),
                    tag,
                    0,
                ) is None,
            },
    {
        let ghost s = self.deep_view().entries;
        let ghost places = among@.map_values(|c: usize| c as int);
        let mut i: usize = 0;
        while i < among.len()
            invariant
                i <= among.len(),
                s == self.deep_view().entries,
                places == among@.map_values(|c: usize| c as int),
                forall|j: int| 0 <= j < among.len() ==> (#[trigger] among@[j]) < s.len(),
                first_tagged(s, places, tag, 0) == first_tagged(s, places, tag, i as nat),
            decreases among.len() - i,
        {
            let k: usize = among[i];
            let entry = self.entry(k);
            assert(entry.deep_view().tag == s[places[i as int]].tag);
            if entry.tag == tag {
                return Some(k);
            }
            i += 1;
        }
        None
    }

    /// The position of the entry that starts at an offset.
    pub fn find(&self, offset: u64) -> (r: Option<usize>)
        ensures
            match r {
                Some(k) => position(self.deep_view().entries, offset) == Some(k as nat) && k
                    < self.deep_view().entries.len(),
                None => position(self.deep_view().entries, offset) is None,
            },
    {
        proof {
            use_type_invariant(self);
            lemma_position(self.deep_view().entries, offset, 0);
        }
        match self.positions.get(&offset) {
            Some(k) => Some(*k),
            None => {
                proof {
                    if let Some(k) = position(self.deep_view().entries, offset) {
                        assert(self.positions@.contains_key(
                            self.deep_view().entries[k as int].offset,
                        ));
                    }
                }
                None
            },
        }
    }

    /// Read the entry that starts at an offset where none is listed, and what is
    /// below it.
    pub fn read_stray(&self, offset: u64) -> (r: Result<Stray, String>)
        ensures
            outcome(r) == self.deep_view().stray_at(offset),
            r matches Ok(stray) ==> stray.entries.len() > 0,
    {
        match &self.source {
            Some(u) => load_stray(u, offset),
            None => Err("Read a null entry before it was expected.".to_owned()),
        }
    }
}

// ---------------------------------------------------------------------------
// Loading a unit
// ---------------------------------------------------------------------------

/// An attribute with errors counted as absence.
pub open spec fn if_readable<T>(a: Result<Option<T>, Seq<char>>) -> Option<T> {
    match a {
        Ok(v) => v,
        Err(_) => None,
    }
}

/// The depth of the entry at `i`: the sum of the steps up to it.
pub open spec fn depth_at(heads: Seq<Head>, i: int) -> i64
    decreases i + 1,
{
    if i < 0 {
        0
    } else {
        depth_at(heads, i - 1).wrapping_add(heads[i].0)
    }
}

/// Why an attribute that is given by an index no table can have is not read.
pub open spec fn index_text() -> Seq<char> {
    "An index is beyond every table."@
}

/// The attribute of an entry as a string.
pub open spec fn text_of(raw: RawUnit, offset: u64, name: u16) -> reader::Attribute<Seq<char>> {
    if reader::index_fits(raw.entries[offset].indices, name) {
        reader::attribute(raw.entries[offset].texts, name)
    } else {
        Err(index_text())
    }
}

/// The attribute of an entry as an address.
pub open spec fn address_of(raw: RawUnit, offset: u64, name: u16) -> reader::Attribute<u64> {
    if reader::index_fits(raw.entries[offset].indices, name) {
        reader::attribute(raw.entries[offset].addresses, name)
    } else {
        Err(index_text())
    }
}

/// The name of a file of the unit, if it can be read.
pub open spec fn file_of(raw: RawUnit, number: u64) -> Option<Seq<char>> {
    if number <= usize::MAX && reader::index_fits(raw.file_indices, number)
        && raw.files.contains_key(number) {
        Some(raw.files[number])
    } else {
        None
    }
}

/// The entry under a head, at a depth.
pub open spec fn entry_of(raw: RawUnit, head: Head, depth: i64) -> EntrySpec {
    let e = raw.entries[head.1];
    EntrySpec {
        offset: head.1,
        tag: head.2,
        depth,
        name: text_of(raw, head.1, AT_NAME),
        producer: text_of(raw, head.1, AT_PRODUCER),
        type_ref: reader::attribute(e.references, AT_TYPE),
        discr_ref: reader::attribute(e.references, AT_DISCR),
        member_location: reader::attribute(e.constants, AT_DATA_MEMBER_LOCATION),
        location: reader::attribute(e.expressions, AT_LOCATION),
        low_pc: address_of(raw, head.1, AT_LOW_PC),
        byte_size: if_readable(reader::attribute(e.constants, AT_BYTE_SIZE)),
        discr_value: if_readable(reader::attribute(e.constants, AT_DISCR_VALUE)),
        decl_line: if_readable(reader::attribute(e.constants, AT_DECL_LINE)),
        decl_path: match if_readable(reader::attribute(e.constants, AT_DECL_FILE)) {
            Some(number) => file_of(raw, number),
            None => None,
        },
    }
}

/// How deep an entry after the first `n` steps would be.
pub open spec fn depth_after(steps: Seq<Option<bool>>, n: int) -> i64
    decreases n,
{
    if n <= 0 {
        0
    } else {
        match steps[n - 1] {
            Some(true) => depth_after(steps, n - 1).wrapping_add(1),
            Some(false) => depth_after(steps, n - 1),
            None => depth_after(steps, n - 1).wrapping_sub(1),
        }
    }
}

/// The entries of a unit from a place on, or from its first entry on.
pub open spec fn entries_of(raw: RawUnit, from: Option<u64>) -> Seq<EntrySpec> {
    let heads = raw.lists[from].heads;
    Seq::new(heads.len(), |i: int| entry_of(raw, heads[i], depth_at(heads, i)))
}

/// What follows the entries `s` is below the first of them.
pub open spec fn is_cut_short(s: Seq<EntrySpec>, steps: Seq<Option<bool>>) -> bool {
    s.len() == 0 || (root_end(s) == s.len() && depth_after(steps, steps.len() as int) > s[0].depth)
}

/// The entry that starts at an offset, and what is below it; or why there is
/// none.
pub open spec fn stray_of(raw: RawUnit, offset: u64) -> Result<StraySpec, Seq<char>> {
    let list = raw.lists[Some(offset)];
    let s = entries_of(raw, Some(offset));
    if list.steps.len() > 0 && list.steps[0] is None {
        Err(no_entry_text())
    } else if s.len() == 0 {
        match list.trouble {
            Some(e) => Err(e),
            None => Err(no_entry_text()),
        }
    } else {
        Ok(
            StraySpec {
                entries: s,
                trouble: if is_cut_short(s, list.steps) {
                    list.trouble
                } else {
                    None
                },
            },
        )
    }
}

/// The entries of a unit by where they start.
pub open spec fn strays_of(raw: RawUnit) -> Map<u64, Result<StraySpec, Seq<char>>> {
    Map::new(|offset: u64| true, |offset: u64| stray_of(raw, offset))
}

/// The unit that a raw unit stands for, where all that is below its root can be
/// read; the whole unit, where `whole` asks for it.
pub open spec fn unit_of(raw: RawUnit, little_endian: bool, whole: bool) -> Result<
    UnitSpec,
    Seq<char>,
> {
    let s = entries_of(raw, None);
    match raw.lists[None].trouble {
        Some(e) if whole || is_cut_short(s, raw.lists[None].steps) => Err(e),
        _ => Ok(
            UnitSpec {
                entries: s,
                address_size: raw.address_size,
                little_endian,
                strays: strays_of(raw),
            },
        ),
    }
}

fn final_depth(steps: &Vec<Option<bool>>) -> (r: i64)
    ensures
        r == depth_after(steps@, steps@.len() as int),
{
    let mut depth: i64 = 0;
    let mut i: usize = 0;
    while i < steps.len()
        invariant
            i <= steps.len(),
            depth == depth_after(steps@, i as int),
        decreases steps.len() - i,
    {
        match steps[i] {
            Some(has_children) => {
                if has_children {
                    depth = depth.wrapping_add(1);
                }
            },
            None => {
                depth = depth.wrapping_sub(1);
            },
        }
        i += 1;
    }
    depth
}

fn readable(a: &Result<Option<u64>, String>) -> (r: Option<u64>)
    ensures
        r == if_readable(outcome(*a)),
{
    match a {
        Ok(v) => *v,
        Err(_) => None,
    }
}

fn read_text(u: &DebugUnit<'_>, offset: u64, name: u16) -> (r: Result<Option<String>, String>)
    ensures
        outcome(r) == text_of(reader::unit_contents(*u), offset, name),
{
    if let Some(index) = reader::index(u, offset, name) {
        if index > MAX_INDEX {
            return Err("An index is beyond every table.".to_owned());
        }
    }
    reader::text(u, offset, name)
}

fn read_address(u: &DebugUnit<'_>, offset: u64, name: u16) -> (r: Result<Option<u64>, String>)
    ensures
        outcome(r) == address_of(reader::unit_contents(*u), offset, name),
{
    if let Some(index) = reader::index(u, offset, name) {
        if index > MAX_INDEX {
            return Err("An index is beyond every table.".to_owned());
        }
    }
    reader::address(u, offset, name)
}

fn read_file(u: &DebugUnit<'_>, number: u64) -> (r: Option<String>)
    ensures
        r.deep_view() == file_of(reader::unit_contents(*u), number),
{
    if number > usize::MAX as u64 {
        return None;
    }
    if let Some(index) = reader::file_index(u, number) {
        if index > MAX_INDEX {
            return None;
        }
    }
    reader::file_name(u, number)
}

fn read_entry(u: &DebugUnit<'_>, head: Head, depth: i64) -> (r: Entry)
    ensures
        r.deep_view() == entry_of(reader::unit_contents(*u), head, depth),
{
    let offset: u64 = head.1;
    let decl_path = match readable(&reader::constant(u, offset, AT_DECL_FILE)) {
        Some(number) => read_file(u, number),
        None => None,
    };
    Entry {
        offset,
        tag: head.2,
        depth,
        name: read_text(u, offset, AT_NAME),
        producer: read_text(u, offset, AT_PRODUCER),
        type_ref: reader::reference(u, offset, AT_TYPE),
        discr_ref: reader::reference(u, offset, AT_DISCR),
        member_location: reader::constant(u, offset, AT_DATA_MEMBER_LOCATION),
        location: reader::expression(u, offset, AT_LOCATION),
        low_pc: read_address(u, offset, AT_LOW_PC),
        byte_size: readable(&reader::constant(u, offset, AT_BYTE_SIZE)),
        discr_value: readable(&reader::constant(u, offset, AT_DISCR_VALUE)),
        decl_line: readable(&reader::constant(u, offset, AT_DECL_LINE)),
        decl_path,
    }
}

fn read_entries(u: &DebugUnit<'_>, from: Option<u64>) -> (r: (Vec<Entry>, Option<String>))
    ensures
        r.0.deep_view() == entries_of(reader::unit_contents(*u), from),
        r.1.deep_view() == reader::unit_contents(*u).lists[from].trouble,
{
    let (heads, trouble) = reader::heads(u, from);
    let ghost raw = reader::unit_contents(*u);
    let mut entries: Vec<Entry> = Vec::new();
    let mut depth: i64 = 0;
    let mut i: usize = 0;
    while i < heads.len()
        invariant
            i <= heads.len(),
            raw == reader::unit_contents(*u),
            heads@ == raw.lists[from].heads,
            depth == depth_at(heads@, i - 1),
            entries.len() == i,
            forall|j: int|
                0 <= j < i ==> (#[trigger] entries@[j]).deep_view() == entry_of(
                    raw,
                    heads@[j],
                    depth_at(heads@, j),
                ),
        decreases heads.len() - i,
    {
        depth = depth.wrapping_add(heads[i].0);
        entries.push(read_entry(u, heads[i], depth));
        i += 1;
    }
    assert(entries.deep_view() =~= entries_of(raw, from));
    (entries, trouble)
}

fn is_cut(u: &Unit<'_>, steps: &Vec<Option<bool>>) -> (r: bool)
    ensures
        r == is_cut_short(u.deep_view().entries, steps@),
{
    if u.is_empty() {
        return true;
    }
    let len: usize = u.len();
    u.end_below(0, len) == len && final_depth(steps) > u.entry(0).depth
}

fn load_stray(u: &DebugUnit<'_>, offset: u64) -> (r: Result<Stray, String>)
    ensures
        outcome(r) == stray_of(reader::unit_contents(*u), offset),
        r matches Ok(stray) ==> stray.entries.len() > 0,
{
    let steps = reader::steps(u, Some(offset));
    if steps.len() > 0 && steps[0].is_none() {
        return Err("Read a null entry before it was expected.".to_owned());
    }
    let (entries, trouble) = read_entries(u, Some(offset));
    if entries.len() == 0 {
        return match trouble {
            Some(e) => Err(e),
            None => Err("Read a null entry before it was expected.".to_owned()),
        };
    }
    let unit = Unit::new(entries, 0, false);
    let trouble = if is_cut(&unit, &steps) {
        trouble
    } else {
        None
    };
    Ok(Stray { entries: unit.entries, trouble })
}

/// The unit at an offset of `.debug_info`, and its length. What comes after the
/// entries below the root need not be readable, unless `whole` asks for it.
pub open spec fn loaded(
    d: Seq<(Seq<char>, Seq<u8>)>,
    little_endian: bool,
    at: nat,
    whole: bool,
) -> Result<(UnitSpec, usize), Seq<char>> {
    if !reader::root_fits(reader::root_at(little_endian, d, at)) {
        Err(index_text())
    } else {
        match reader::unit_at(little_endian, d, at) {
            Err(e) => Err(e),
            Ok(raw) => match unit_of(raw, little_endian, whole) {
                Err(e) => Err(e),
                Ok(unit) => Ok((unit, raw.length)),
            },
        }
    }
}

fn is_root_fitting(root: &Vec<(u16, Option<u64>)>) -> (r: bool)
    ensures
        r == reader::root_fits(root@),
{
    let mut i: usize = 0;
    while i < root.len()
        invariant
            i <= root.len(),
            reader::root_fits(root@.take(i as int)),
        decreases root.len() - i,
    {
        let (name, index) = root[i];
        if let Some(index) = index {
            if index > MAX_INDEX && (name == AT_NAME || name == AT_COMP_DIR || name == AT_LOW_PC) {
                return false;
            }
        }
        proof {
            let list = root@.take(i + 1);
            assert forall|j: int| 0 <= j < list.len() implies match #[trigger] list[j] {
                (name, Some(index)) => name == AT_NAME || name == AT_COMP_DIR || name == AT_LOW_PC
                    ==> index <= MAX_INDEX,
                _ => true,
            } by {
                if j < i {
                    assert(list[j] == root@.take(i as int)[j]);
                }
            }
        }
        i += 1;
    }
    assert(root@.take(i as int) =~= root@);
    true
}

/// Load the unit at an offset of `.debug_info`, and its length. What comes after
/// the entries below the root need not be readable, unless `whole` asks for it.
pub fn load_unit<'a>(d: &'a DebugSections, at: usize, whole: bool) -> (r: Result<
    (Unit<'a>, usize),
    String,
>)
    ensures
        outcome(r) == loaded(d.sections.deep_view(), d.little_endian, at as nat, whole),
        r matches Ok((_, length)) ==> 0 < length && at + length <= object_file::section_named(
            d.sections.deep_view(),
            ".debug_info"@,
            0,
        ).len(),
{
    let data = reader::open_sections(d);
    if !is_root_fitting(&reader::root(&data, at)) {
        return Err("An index is beyond every table.".to_owned());
    }
    let (u, length) = reader::open_unit(data, at)?;
    let (entries, trouble) = read_entries(&u, None);
    let steps = reader::steps(&u, None);
    let size: u8 = reader::address_size(&u);
    let unit = Unit::indexed(entries, size, d.little_endian, Some(u));
    if let Some(e) = trouble {
        if whole || is_cut(&unit, &steps) {
            return Err(e);
        }
    }
    Ok((unit, length))
}

} // verus!
