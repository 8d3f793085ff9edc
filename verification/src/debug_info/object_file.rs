//! What the decoders need of an object file: its shape, its symbols and its
//! sections.
use object::{Object, ObjectSection, ObjectSymbol};
use vstd::prelude::*;

use super::zstandard;
use crate::text;

verus! {

/// The word size and byte order of an object file.
#[derive(Debug, Clone, Copy, PartialEq, Eq, Structural)]
pub struct Shape {
    /// The file can hold 64-bit addresses.
    pub is_64: bool,
    /// The file is little-endian.
    pub little_endian: bool,
}

/// One symbol of an object file.
#[derive(Debug, PartialEq, Eq)]
pub struct Symbol {
    /// The name, if it is text.
    pub name: Option<String>,
    /// The symbol is a thread-local variable.
    pub is_tls: bool,
}

/// The value of a `Symbol`.
#[verifier::ext_equal]
pub struct SymbolSpec {
    pub name: Option<Seq<char>>,
    pub is_tls: bool,
}

impl DeepView for Symbol {
    type V = SymbolSpec;

    open spec fn deep_view(&self) -> SymbolSpec {
        SymbolSpec { name: self.name.deep_view(), is_tls: self.is_tls }
    }
}

/// How a section is compressed.
#[derive(Debug, Clone, Copy, PartialEq, Eq, Structural)]
pub enum Compression {
    /// Not at all.
    Plain,
    /// With zlib.
    Zlib,
    /// With Zstandard.
    Zstandard,
    /// In another way.
    Unknown,
}

/// A section as it is stored.
#[derive(Debug, Clone, Copy)]
pub struct Packed<'a> {
    /// How it is compressed.
    pub compression: Compression,
    /// What is stored.
    pub data: &'a [u8],
    /// The size that it is said to have uncompressed.
    pub size: u64,
}

/// The value of a `Packed`.
#[verifier::ext_equal]
pub struct PackedSpec {
    pub compression: Compression,
    pub data: Seq<u8>,
    pub size: u64,
}

impl<'a> DeepView for Packed<'a> {
    type V = PackedSpec;

    open spec fn deep_view(&self) -> PackedSpec {
        PackedSpec { compression: self.compression, data: self.data@, size: self.size }
    }
}

/// What `object::File::parse` makes of an image: its shape, or why it is no
/// object file.
pub uninterp spec fn object_shape(image: Seq<u8>) -> Result<Shape, Seq<char>>;

/// What `object::Object::symbols` lists for an image; empty for one that is no
/// object file.
pub uninterp spec fn object_symbols(image: Seq<u8>) -> Seq<SymbolSpec>;

/// What `object::Object::dynamic_symbols` lists for an image; empty for one
/// that is no object file.
pub uninterp spec fn object_dynamic_symbols(image: Seq<u8>) -> Seq<SymbolSpec>;

/// What `object::Object::relative_address_base` gives for an image; zero for one
/// that is no object file.
pub uninterp spec fn object_base(image: Seq<u8>) -> u64;

/// What `object::ObjectSymbol::address` gives for a symbol of an image, by its
/// place among the symbols.
pub uninterp spec fn object_address(image: Seq<u8>, k: nat) -> u64;

/// What `object::ObjectSection::compressed_data` gives for the section that
/// `object::Object::section_by_name` finds in an image: the section as it is
/// stored, an error where that cannot be read, or nothing.
pub uninterp spec fn object_packed(image: Seq<u8>, name: Seq<char>) -> Option<
    Result<PackedSpec, Seq<char>>,
>;

/// What `object::ObjectSection::uncompressed_data` gives for the section that
/// `object::Object::section_by_name` finds in an image: the uncompressed
/// contents, an error where they cannot be uncompressed, or nothing.
pub uninterp spec fn object_section(image: Seq<u8>, name: Seq<char>) -> Option<
    Result<Seq<u8>, Seq<char>>,
>;

/// Parse an image with `object::File::parse` and ask the file for its word size
/// (`Object::is_64`) and byte order (`Object::is_little_endian`). Claimed: the
/// answer, or the error's text, is a function of the image.
#[verifier::external_body]
pub(crate) fn shape(image: &[u8]) -> (r: Result<Shape, String>)
    ensures
        match r {
            Ok(s) => object_shape(image@) == Ok::<Shape, Seq<char>>(s),
            Err(e) => object_shape(image@) == Err::<Shape, Seq<char>>(e@),
        },
{
    let file = object::File::parse(image).map_err(|e| e.to_string())?;
    Ok(Shape { is_64: file.is_64(), little_endian: file.is_little_endian() })
}

/// List the symbols of an image with `Object::symbols`, each with its name
/// (where `ObjectSymbol::name` gives one) and whether its kind is `Tls`.
/// Claimed: the list is a function of the image.
#[verifier::external_body]
pub(crate) fn symbols(image: &[u8]) -> (r: Vec<Symbol>)
    ensures
        r.deep_view() == object_symbols(image@),
{
    let Ok(file) = object::File::parse(image) else { return Vec::new() };
    let convert = |s: object::Symbol<'_, '_>| Symbol {
        name: s.name().ok().map(str::to_owned),
        is_tls: s.kind() == object::SymbolKind::Tls,
    };
    file.symbols().map(convert).collect()
}

/// List the dynamic symbols of an image with `Object::dynamic_symbols`, as
/// `symbols` does. Claimed: the list is a function of the image.
#[verifier::external_body]
pub(crate) fn dynamic_symbols(image: &[u8]) -> (r: Vec<Symbol>)
    ensures
        r.deep_view() == object_dynamic_symbols(image@),
{
    let Ok(file) = object::File::parse(image) else { return Vec::new() };
    let convert = |s: object::Symbol<'_, '_>| Symbol {
        name: s.name().ok().map(str::to_owned),
        is_tls: s.kind() == object::SymbolKind::Tls,
    };
    file.dynamic_symbols().map(convert).collect()
}

/// Ask an image for the address that its relative addresses count from, with
/// `Object::relative_address_base`. Claimed: the answer is a function of the
/// image.
#[verifier::external_body]
pub(crate) fn base(image: &[u8]) -> (r: u64)
    ensures
        r == object_base(image@),
{
    let Ok(file) = object::File::parse(image) else { return 0 };
    file.relative_address_base()
}

/// An image whose relative addresses count from `base` can place its symbols:
/// two 32-bit numbers added to it stay in 64 bits.
pub open spec fn can_place(base: u64) -> bool {
    base <= u64::MAX - 2 * u32::MAX
}

/// The address of one of the symbols of an image, by its place among them:
/// `ObjectSymbol::address`. In a PE file that adds the section's address and the
/// symbol's value, 32 bits each, to the base. Claimed: the answer is a function
/// of the image and the place.
#[verifier::external_body]
pub(crate) fn address(image: &[u8], k: usize) -> (r: u64)
    requires
        k < object_symbols(image@).len(),
        can_place(object_base(image@)),
    ensures
        r == object_address(image@, k as nat),
{
    let Ok(file) = object::File::parse(image) else { return 0 };
    file.symbols().nth(k).map_or(0, |s| s.address())
}

/// Find a section of an image with `Object::section_by_name` and read it as it is
/// stored, with `ObjectSection::compressed_data`. Claimed: the answer is a
/// function of the image and the name.
#[verifier::external_body]
pub(crate) fn packed<'a>(image: &'a [u8], name: &str) -> (r: Option<Result<Packed<'a>, String>>)
    ensures
        match r {
            Some(Ok(p)) => object_packed(image@, name@) == Some(
                Ok::<PackedSpec, Seq<char>>(p.deep_view()),
            ),
            Some(Err(e)) => object_packed(image@, name@) == Some(
                Err::<PackedSpec, Seq<char>>(e@),
            ),
            None => object_packed(image@, name@) is None,
        },
{
    let file = object::File::parse(image).ok()?;
    let data = file.section_by_name(name)?.compressed_data();
    let convert = |d: object::CompressedData<'a>| Packed {
        compression: match d.format {
            object::CompressionFormat::None => Compression::Plain,
            object::CompressionFormat::Zlib => Compression::Zlib,
            object::CompressionFormat::Zstandard => Compression::Zstandard,
            _ => Compression::Unknown,
        },
        data: d.data,
        size: d.uncompressed_size,
    };
    Some(data.map(convert).map_err(|e| e.to_string()))
}

/// A section can be handed to its decoder: one compressed with Zstandard asks
/// for no block that is too long for it.
pub open spec fn can_unpack(section: Option<Result<PackedSpec, Seq<char>>>) -> bool {
    section matches Some(Ok(p)) ==> p.compression == Compression::Zstandard ==> zstandard::fits(
        p.data,
    )
}

/// Find a section of an image with `Object::section_by_name` and read it with
/// `ObjectSection::uncompressed_data`. Claimed: the answer is a function of the
/// image and the name. The decoder for Zstandard adds up in 32 bits how long a
/// block becomes.
#[verifier::external_body]
pub(crate) fn section(image: &[u8], name: &str) -> (r: Option<Result<Vec<u8>, String>>)
    requires
        can_unpack(object_packed(image@, name@)),
    ensures
        match r {
            Some(Ok(data)) => object_section(image@, name@) == Some(
                Ok::<Seq<u8>, Seq<char>>(data@),
            ),
            Some(Err(e)) => object_section(image@, name@) == Some(Err::<Seq<u8>, Seq<char>>(e@)),
            None => object_section(image@, name@) is None,
        },
{
    let file = object::File::parse(image).ok()?;
    let data = file.section_by_name(name)?.uncompressed_data();
    Some(data.map(|d| d.into_owned()).map_err(|e| e.to_string()))
}

/// The place of the first symbol with this name, at or after `from`.
pub open spec fn named_symbol(s: Seq<SymbolSpec>, name: Seq<char>, from: nat) -> Option<nat>
    decreases s.len() - from,
{
    if from >= s.len() {
        None
    } else if s[from as int].name == Some(name) {
        Some(from)
    } else {
        named_symbol(s, name, from + 1)
    }
}

/// The place of the first symbol with this name.
pub fn find_symbol(symbols: &Vec<Symbol>, name: &str) -> (r: Option<usize>)
    ensures
        match r {
            Some(k) => named_symbol(symbols.deep_view(), name@, 0) == Some(k as nat) && k
                < symbols.deep_view().len(),
            None => named_symbol(symbols.deep_view(), name@, 0) is None,
        },
{
    let ghost s = symbols.deep_view();
    let mut i: usize = 0;
    while i < symbols.len()
        invariant
            i <= symbols.len(),
            s == symbols.deep_view(),
            named_symbol(s, name@, 0) == named_symbol(s, name@, i as nat),
        decreases symbols.len() - i,
    {
        assert(s[i as int] == symbols@[i as int].deep_view());
        if let Some(n) = &symbols[i].name {
            if text::same(n.as_str(), name) {
                return Some(i);
            }
        }
        i += 1;
    }
    None
}

/// The address of a symbol of an image (for a thread-local, the offset within its
/// block); none in an image whose base is too high to place symbols.
pub open spec fn placed(image: Seq<u8>, k: nat) -> Option<u64> {
    if can_place(object_base(image)) {
        Some(object_address(image, k))
    } else {
        None
    }
}

/// The address of a symbol of an image, by its place among the symbols.
pub(crate) fn place(image: &[u8], k: usize) -> (r: Option<u64>)
    requires
        k < object_symbols(image@).len(),
    ensures
        r == placed(image@, k as nat),
{
    let base: u64 = base(image);
    if base <= u64::MAX - 2 * (u32::MAX as u64) {
        Some(address(image, k))
    } else {
        None
    }
}

/// The address of the first symbol of an image with this name.
pub open spec fn named_address(image: Seq<u8>, name: Seq<char>) -> Option<u64> {
    match named_symbol(object_symbols(image), name, 0) {
        Some(k) => placed(image, k),
        None => None,
    }
}

/// The address of the first symbol of an image with this name.
pub fn symbol_addr(image: &[u8], name: &str) -> (r: Option<u64>)
    ensures
        r == named_address(image@, name@),
{
    match find_symbol(&symbols(image), name) {
        Some(k) => place(image, k),
        None => None,
    }
}

/// Some symbol's name contains the text.
pub open spec fn name_contains(s: Seq<SymbolSpec>, part: Seq<char>) -> bool {
    exists|i: int|
        0 <= i < s.len() && ((#[trigger] s[i]).name matches Some(name) && text::contains(
            name,
            part,
        ))
}

/// Whether some symbol's name contains the text.
pub fn any_name_contains(symbols: &Vec<Symbol>, part: &str) -> (r: bool)
    ensures
        r == name_contains(symbols.deep_view(), part@),
{
    let ghost s = symbols.deep_view();
    let mut i: usize = 0;
    while i < symbols.len()
        invariant
            i <= symbols.len(),
            s == symbols.deep_view(),
            forall|j: int|
                0 <= j < i ==> !((#[trigger] s[j]).name matches Some(name) && text::contains(
                    name,
                    part@,
                )),
        decreases symbols.len() - i,
    {
        assert(s[i as int] == symbols@[i as int].deep_view());
        if let Some(n) = &symbols[i].name {
            if text::contains_text(n.as_str(), part) {
                return true;
            }
        }
        i += 1;
    }
    false
}

/// The debug sections of an object file, uncompressed.
#[derive(Debug)]
pub struct DebugSections {
    /// The file is little-endian.
    pub little_endian: bool,
    /// The sections by name.
    pub sections: Vec<(String, Vec<u8>)>,
}

/// The contents of the first section with this name; empty without one.
pub open spec fn section_named(sections: Seq<(Seq<char>, Seq<u8>)>, name: Seq<char>, from: nat) -> Seq<
    u8,
>
    decreases sections.len() - from,
{
    if from >= sections.len() {
        Seq::empty()
    } else if sections[from as int].0 == name {
        sections[from as int].1
    } else {
        section_named(sections, name, from + 1)
    }
}

/// The names of the sections that debug information is spread over.
pub open spec fn debug_section_names() -> Seq<Seq<char>> {
    seq![
        ".debug_abbrev"@,
        ".debug_addr"@,
        ".debug_aranges"@,
        ".debug_info"@,
        ".debug_line"@,
        ".debug_line_str"@,
        ".debug_str"@,
        ".debug_str_offsets"@,
        ".debug_types"@,
        ".debug_loc"@,
        ".debug_loclists"@,
        ".debug_macinfo"@,
        ".debug_macro"@,
        ".debug_ranges"@,
        ".debug_rnglists"@,
    ]
}

/// An image has a section of this name.
pub open spec fn has_section(image: Seq<u8>, name: Seq<char>) -> bool {
    object_packed(image, name) is Some
}

/// Whether an image has a section of this name.
pub fn is_section(image: &[u8], name: &str) -> (r: bool)
    ensures
        r == has_section(image@, name@),
{
    packed(image, name).is_some()
}

/// The contents of a section; empty where it is missing or cannot be
/// uncompressed.
pub open spec fn section_or_empty(image: Seq<u8>, name: Seq<char>) -> Seq<u8> {
    if can_unpack(object_packed(image, name)) {
        match object_section(image, name) {
            Some(Ok(data)) => data,
            _ => Seq::empty(),
        }
    } else {
        Seq::empty()
    }
}

/// The contents of a section; empty where it is missing or cannot be
/// uncompressed.
pub fn read_section(image: &[u8], name: &str) -> (r: Vec<u8>)
    ensures
        r@ == section_or_empty(image@, name@),
{
    if let Some(Ok(p)) = packed(image, name) {
        if p.compression == Compression::Zstandard && !zstandard::is_fitting(p.data) {
            return Vec::new();
        }
    }
    match section(image, name) {
        Some(Ok(data)) => data,
        _ => Vec::new(),
    }
}

/// The debug sections of an image, by name.
pub open spec fn debug_sections_of(image: Seq<u8>) -> Seq<(Seq<char>, Seq<u8>)> {
    debug_section_names().map_values(|name: Seq<char>| (name, section_or_empty(image, name)))
}

impl DebugSections {
    /// The contents of a section; empty without one of that name.
    pub fn get(&self, name: &str) -> (r: &[u8])
        ensures
            r@ == section_named(self.sections.deep_view(), name@, 0),
    {
        let ghost s = self.sections.deep_view();
        let mut i: usize = 0;
        while i < self.sections.len()
            invariant
                i <= self.sections.len(),
                s == self.sections.deep_view(),
                section_named(s, name@, 0) == section_named(s, name@, i as nat),
            decreases self.sections.len() - i,
        {
            assert(s[i as int] == self.sections@[i as int].deep_view());
            if text::same(self.sections[i].0.as_str(), name) {
                let data = self.sections[i].1.as_slice();
                assert(data@ =~= s[i as int].1);
                return data;
            }
            i += 1;
        }
        &[]
    }

    /// Load the debug sections of an image.
    pub fn load(image: &[u8], little_endian: bool) -> (r: Self)
        ensures
            r.little_endian == little_endian,
            r.sections.deep_view() == debug_sections_of(image@),
    {
        let names: Vec<&str> = vec![
            ".debug_abbrev",
            ".debug_addr",
            ".debug_aranges",
            ".debug_info",
            ".debug_line",
            ".debug_line_str",
            ".debug_str",
            ".debug_str_offsets",
            ".debug_types",
            ".debug_loc",
            ".debug_loclists",
            ".debug_macinfo",
            ".debug_macro",
            ".debug_ranges",
            ".debug_rnglists",
        ];
        assert(names.deep_view() =~= debug_section_names());
        let mut sections: Vec<(String, Vec<u8>)> = Vec::new();
        let mut i: usize = 0;
        while i < names.len()
            invariant
                i <= names.len(),
                names.deep_view() == debug_section_names(),
                sections.len() == i,
                forall|j: int|
                    0 <= j < i ==> (#[trigger] sections@[j]).deep_view() == (
                        names@[j]@,
                        section_or_empty(image@, names@[j]@),
                    ),
            decreases names.len() - i,
        {
            let data: Vec<u8> = read_section(image, names[i]);
            assert(data.deep_view() =~= data@);
            sections.push((names[i].to_owned(), data));
            i += 1;
        }
        proof {
            let want = debug_sections_of(image@);
            assert forall|j: int| 0 <= j < want.len() implies sections.deep_view()[j]
                == want[j] by {
                assert(debug_section_names()[j] == names@[j]@);
                assert(sections@[j].deep_view() == (
                    names@[j]@,
                    section_or_empty(image@, names@[j]@),
                ));
            }
            assert(sections.deep_view() =~= want);
        }
        DebugSections { little_endian, sections }
    }
}

// ---------------------------------------------------------------------------
// Laws
// ---------------------------------------------------------------------------

/// A name leads to the first symbol that has it.
pub proof fn law_the_first_symbol_of_a_name_counts(s: Seq<SymbolSpec>, name: Seq<char>, from: nat)
    ensures
        match named_symbol(s, name, from) {
            Some(k) => from <= k < s.len() && s[k as int].name == Some(name) && forall|j: int|
                from <= j < k ==> (#[trigger] s[j]).name != Some(name),
            None => forall|j: int| from <= j < s.len() ==> (#[trigger] s[j]).name != Some(name),
        },
    decreases s.len() - from,
{
    if from < s.len() && s[from as int].name != Some(name) {
        law_the_first_symbol_of_a_name_counts(s, name, from + 1);
    }
}

/// A name leads to the contents of the first section that has it, and to nothing
/// where none has.
pub proof fn law_the_first_section_of_a_name_counts(
    sections: Seq<(Seq<char>, Seq<u8>)>,
    name: Seq<char>,
    from: nat,
    k: int,
)
    requires
        from <= k <= sections.len(),
        forall|j: int| from <= j < k ==> (#[trigger] sections[j]).0 != name,
        k < sections.len() ==> sections[k].0 == name,
    ensures
        k < sections.len() ==> section_named(sections, name, from) == sections[k].1,
        k == sections.len() ==> section_named(sections, name, from).len() == 0,
    decreases k - from,
{
    if from < k {
        law_the_first_section_of_a_name_counts(sections, name, from + 1, k);
    }
}

/// The units of an image are read from its section `.debug_info`, with its
/// abbreviations, strings, addresses and line programs beside it: each section is
/// there under its own name, with its own contents or, where it has none that can
/// be had, empty.
pub proof fn law_debug_information_is_read_from_its_sections(image: Seq<u8>)
    ensures
        section_named(debug_sections_of(image), ".debug_info"@, 0) == section_or_empty(
            image,
            ".debug_info"@,
        ),
        section_named(debug_sections_of(image), ".debug_abbrev"@, 0) == section_or_empty(
            image,
            ".debug_abbrev"@,
        ),
        forall|i: int|
            0 <= i < debug_section_names().len() ==> #[trigger] debug_sections_of(image)[i] == (
                debug_section_names()[i],
                section_or_empty(image, debug_section_names()[i]),
            ),
        forall|name: Seq<char>|
            name == ".debug_str"@ || name == ".debug_line"@ || name == ".debug_line_str"@ || name
                == ".debug_addr"@ || name == ".debug_str_offsets"@ || name == ".debug_ranges"@
                || name == ".debug_rnglists"@ ==> #[trigger] debug_section_names().contains(name),
{
    let all = debug_sections_of(image);
    let names = debug_section_names();
    reveal_strlit(".debug_abbrev");
    reveal_strlit(".debug_addr");
    reveal_strlit(".debug_aranges");
    reveal_strlit(".debug_info");
    assert(".debug_info"@.len() == 11 && ".debug_abbrev"@.len() == 13);
    assert(".debug_addr"@.len() == 11 && ".debug_aranges"@.len() == 14);
    assert(".debug_info"@[7] == 'i' && ".debug_addr"@[7] == 'a');
    assert(all[0].0 == ".debug_abbrev"@ && all[1].0 == ".debug_addr"@);
    assert(all[2].0 == ".debug_aranges"@ && all[3].0 == ".debug_info"@);
    law_the_first_section_of_a_name_counts(all, ".debug_info"@, 0, 3);
    law_the_first_section_of_a_name_counts(all, ".debug_abbrev"@, 0, 0);
    assert(names[1] == ".debug_addr"@ && names[4] == ".debug_line"@ && names[5]
        == ".debug_line_str"@ && names[6] == ".debug_str"@ && names[7] == ".debug_str_offsets"@
        && names[13] == ".debug_ranges"@ && names[14] == ".debug_rnglists"@);
}

/// A section has the contents that it is given, once they can be unpacked.
pub proof fn law_a_section_is_read_whole_or_not_at_all(image: Seq<u8>, name: Seq<char>)
    ensures
        can_unpack(object_packed(image, name)) && (object_section(image, name) matches Some(Ok(_)))
            ==> section_or_empty(image, name) == object_section(image, name)->Some_0->Ok_0,
        !can_unpack(object_packed(image, name)) || !(object_section(image, name) matches Some(Ok(_)))
            ==> section_or_empty(image, name).len() == 0,
{
}

} // verus!
