//! Coroutine layouts out of a binary's debug information.
//!
//! A coroutine's layout depends on the compiler's version and on the
//! monomorphization, and stands nowhere but in the binary's own debug
//! information. What is read: the compiler's version in the producer string,
//! and of each `{async_fn_env#N}` structure its discriminant and, for every
//! variant, the kind of state, the line of the `.await`, the awaitee and the
//! inline children.
pub mod members;
pub mod names;
pub mod variants;

use vstd::prelude::*;

use super::decode::LayoutMap;
use super::error::{AsyncDecodeError, AsyncDecodeErrorSpec};
use super::layout::AsyncLayouts;
use super::rustc_version::{self, RustcVersion};
use crate::debug_info::object_file::{self, DebugSections};
use crate::debug_info::unit::{self, EntrySpec, Unit, UnitSpec};
use crate::error::outcome;
use crate::text;

pub use names::qualify;

verus! {

/// Everything resolved from one binary's debug information.
#[derive(Debug, Clone)]
pub struct DwarfExtract {
    /// The rustc version that the layouts were validated against.
    pub version: RustcVersion,
    /// All recovered coroutine layouts.
    pub layouts: AsyncLayouts,
}

/// The value of a `DwarfExtract`.
#[verifier::ext_equal]
pub struct DwarfExtractSpec {
    pub version: RustcVersion,
    pub layouts: LayoutMap,
}

impl DeepView for DwarfExtract {
    type V = DwarfExtractSpec;

    open spec fn deep_view(&self) -> DwarfExtractSpec {
        DwarfExtractSpec { version: self.version, layouts: self.layouts.deep_view() }
    }
}

/// The binary links the Tokio runtime: one of its symbols is mangled from a
/// name under `tokio::runtime`.
pub open spec fn links_tokio(image: Seq<u8>) -> bool {
    object_file::name_contains(object_file::object_symbols(image), "5tokio7runtime"@)
        || object_file::name_contains(
        object_file::object_dynamic_symbols(image),
        "5tokio7runtime"@,
    )
}

/// Whether the binary links the Tokio runtime.
#[must_use]
pub fn is_tokio_object(image: &[u8]) -> (r: bool)
    ensures
        r == links_tokio(image@),
{
    object_file::any_name_contains(&object_file::symbols(image), "5tokio7runtime")
        || object_file::any_name_contains(&object_file::dynamic_symbols(image), "5tokio7runtime")
}

/// The rustc version in the producer string of a unit's root, if there is one.
pub open spec fn version_of_unit(s: Seq<EntrySpec>) -> Result<Option<RustcVersion>, Seq<char>> {
    if s.len() == 0 {
        Ok(None)
    } else {
        match s[0].producer {
            Err(e) => Err(e),
            Ok(None) => Ok(None),
            Ok(Some(producer)) => Ok(RustcVersion::of_producer(producer)),
        }
    }
}

/// The rustc version in the producer string of a unit's root, if there is one.
pub fn producer_version(u: &Unit) -> (r: Result<Option<RustcVersion>, String>)
    ensures
        outcome(r) == version_of_unit(u.deep_view().entries),
{
    if u.len() == 0 {
        return Ok(None);
    }
    match &u.entry(0).producer {
        Err(e) => Err(e.clone()),
        Ok(None) => Ok(None),
        Ok(Some(producer)) => Ok(RustcVersion::parse_producer(producer.as_str())),
    }
}

/// The layouts of the coroutines among the first `n` entries, added to those
/// known. A later one of the same name counts.
pub open spec fn layouts_among(u: UnitSpec, n: int, known: LayoutMap) -> Result<
    LayoutMap,
    Seq<char>,
>
    decreases n,
{
    if n <= 0 {
        Ok(known)
    } else {
        match layouts_among(u, n - 1, known) {
            Err(e) => Err(e),
            Ok(layouts) => if names::is_coroutine(u.entries[n - 1]) {
                match variants::layout_of(u, n - 1) {
                    Err(e) => Err(e),
                    Ok(None) => Ok(layouts),
                    Ok(Some(layout)) => Ok(layouts.insert(layout.type_path, layout)),
                }
            } else {
                Ok(layouts)
            },
        }
    }
}

/// The layouts of a unit's coroutines, added to those known.
pub open spec fn layouts_of_unit(u: UnitSpec, known: LayoutMap) -> Result<
    LayoutMap,
    Seq<char>,
> {
    match names::index_of(u.entries) {
        Err(e) => Err(e),
        Ok(_) => layouts_among(u, unit::root_end(u.entries), known),
    }
}

proof fn lemma_layouts_error(u: UnitSpec, n: int, m: int, known: LayoutMap)
    requires
        n <= m,
        layouts_among(u, n, known) is Err,
    ensures
        layouts_among(u, m, known) == layouts_among(u, n, known),
    decreases m - n,
{
    if n < m {
        lemma_layouts_error(u, n, m - 1, known);
    }
}

/// Add the layouts of a unit's coroutines.
pub fn collect_unit(u: &Unit, layouts: &mut AsyncLayouts) -> (r: Result<(), String>)
    ensures
        match r {
            Ok(()) => layouts_of_unit(u.deep_view(), old(layouts).deep_view()) == Ok::<
                LayoutMap,
                Seq<char>,
            >(final(layouts).deep_view()),
            Err(e) => layouts_of_unit(u.deep_view(), old(layouts).deep_view()) == Err::<
                LayoutMap,
                Seq<char>,
            >(e@),
        },
{
    let ghost s = u.deep_view().entries;
    let ghost known = layouts.deep_view();
    let index = names::build_index(u)?;
    let end: usize = index.len();
    proof {
        unit::lemma_root_end(s);
    }
    let mut k: usize = 0;
    while k < end
        invariant
            k <= end <= s.len(),
            s == u.deep_view().entries,
            end == unit::root_end(s),
            end == index.deep_view().len(),
            names::index_of(s) == Ok::<_, Seq<char>>(index.deep_view()),
            known == old(layouts).deep_view(),
            layouts_among(u.deep_view(), k as int, known) == Ok::<_, Seq<char>>(layouts.deep_view()),
        decreases end - k,
    {
        if names::stands_for_coroutine(u, k) {
            match variants::build_layout(u, &index, k) {
                Err(e) => {
                    proof {
                        lemma_layouts_error(u.deep_view(), k + 1, end as int, known);
                    }
                    return Err(e);
                },
                Ok(None) => {},
                Ok(Some(layout)) => {
                    layouts.insert(layout);
                },
            }
        }
        k += 1;
    }
    Ok(())
}

/// What is known after some units: the compiler's version, as soon as a unit
/// tells it, and the layouts.
#[verifier::ext_equal]
pub struct Findings {
    pub version: Option<RustcVersion>,
    pub layouts: LayoutMap,
}

/// What one more unit adds.
pub open spec fn with_unit(u: UnitSpec, known: Findings) -> Result<Findings, Seq<char>> {
    let version = if known.version is None {
        version_of_unit(u.entries)
    } else {
        Ok(known.version)
    };
    match version {
        Err(e) => Err(e),
        Ok(version) => match layouts_of_unit(u, known.layouts) {
            Err(e) => Err(e),
            Ok(layouts) => Ok(Findings { version, layouts }),
        },
    }
}

/// What the units from `at` to the end of `.debug_info` add.
pub open spec fn findings_from(
    d: Seq<(Seq<char>, Seq<u8>)>,
    little_endian: bool,
    at: nat,
    known: Findings,
) -> Result<Findings, Seq<char>>
    decreases object_file::section_named(d, ".debug_info"@, 0).len() - at,
{
    if at >= object_file::section_named(d, ".debug_info"@, 0).len() {
        Ok(known)
    } else {
        match unit::loaded(d, little_endian, at, false) {
            Err(e) => Err(e),
            Ok((u, length)) => match with_unit(u, known) {
                Err(e) => Err(e),
                Ok(more) => if length == 0 || at + length > object_file::section_named(
                    d,
                    ".debug_info"@,
                    0,
                ).len() {
                    Ok(more)
                } else {
                    findings_from(d, little_endian, at + length as nat, more)
                },
            },
        }
    }
}

/// Nothing known.
pub open spec fn no_findings() -> Findings {
    Findings { version: None, layouts: Map::empty() }
}

/// Read every unit.
fn read_units(d: &DebugSections) -> (r: Result<(Option<RustcVersion>, AsyncLayouts), String>)
    ensures
        match r {
            Ok((version, layouts)) => findings_from(
                d.sections.deep_view(),
                d.little_endian,
                0,
                no_findings(),
            ) == Ok::<_, Seq<char>>(Findings { version, layouts: layouts.deep_view() }),
            Err(e) => findings_from(d.sections.deep_view(), d.little_endian, 0, no_findings())
                == Err::<Findings, Seq<char>>(e@),
        },
{
    let ghost ss = d.sections.deep_view();
    let ghost all = findings_from(ss, d.little_endian, 0, no_findings());
    let end: usize = d.get(".debug_info").len();
    let mut version: Option<RustcVersion> = None;
    let mut layouts = AsyncLayouts::new();
    let mut at: usize = 0;
    while at < end
        invariant
            ss == d.sections.deep_view(),
            end == object_file::section_named(ss, ".debug_info"@, 0).len(),
            at <= end,
            all == findings_from(
                ss,
                d.little_endian,
                at as nat,
                Findings { version, layouts: layouts.deep_view() },
            ),
            all == findings_from(ss, d.little_endian, 0, no_findings()),
        decreases end - at,
    {
        let (u, length) = unit::load_unit(d, at, false)?;
        let ghost known = Findings { version, layouts: layouts.deep_view() };
        if version.is_none() {
            version = producer_version(&u)?;
        }
        collect_unit(&u, &mut layouts)?;
        assert(with_unit(u.deep_view(), known) == Ok::<_, Seq<char>>(
            Findings { version, layouts: layouts.deep_view() },
        ));
        at += length;
    }
    Ok((version, layouts))
}

/// What is said of a version outside the validated window.
pub open spec fn outside_window(v: RustcVersion) -> Seq<char> {
    "rustc "@ + text::decimal(v.major as nat) + "."@ + text::decimal(v.minor as nat) + "."@
        + text::decimal(v.patch as nat) + " is outside the validated coroutine-layout window"@
}

fn describe_outside_window(v: RustcVersion) -> (r: String)
    ensures
        r@ == outside_window(v),
{
    let mut out = "rustc ".to_owned();
    text::push_decimal(&mut out, v.major as u64);
    out.append(".");
    text::push_decimal(&mut out, v.minor as u64);
    out.append(".");
    text::push_decimal(&mut out, v.patch as u64);
    out.append(" is outside the validated coroutine-layout window");
    out
}

/// What is made of what the units say: the layouts, if the version is known and
/// validated and there are any.
pub open spec fn judged(found: Findings) -> Result<DwarfExtractSpec, AsyncDecodeErrorSpec> {
    match found.version {
        None => Err(
            AsyncDecodeErrorSpec::UnsupportedLayout("no rustc producer string in DWARF"@),
        ),
        Some(version) => if !version.supported() {
            Err(AsyncDecodeErrorSpec::UnsupportedLayout(outside_window(version)))
        } else if found.layouts.dom() == Set::<Seq<char>>::empty() {
            Err(AsyncDecodeErrorSpec::NoCoroutines)
        } else {
            Ok(DwarfExtractSpec { version, layouts: found.layouts })
        },
    }
}

/// Accept what the units say, or decline it.
pub fn judge(version: Option<RustcVersion>, layouts: AsyncLayouts) -> (r: Result<
    DwarfExtract,
    AsyncDecodeError,
>)
    ensures
        outcome(r) == judged(Findings { version, layouts: layouts.deep_view() }),
{
    match version {
        None => Err(
            AsyncDecodeError::UnsupportedLayout("no rustc producer string in DWARF".to_owned()),
        ),
        Some(version) => if !rustc_version::is_supported(version) {
            Err(AsyncDecodeError::UnsupportedLayout(describe_outside_window(version)))
        } else if layouts.is_empty() {
            Err(AsyncDecodeError::NoCoroutines)
        } else {
            Ok(DwarfExtract { version, layouts })
        },
    }
}

/// Every coroutine layout of a binary, or why there are none.
pub open spec fn extracted(image: Seq<u8>) -> Result<DwarfExtractSpec, AsyncDecodeErrorSpec> {
    match object_file::object_shape(image) {
        Err(e) => Err(AsyncDecodeErrorSpec::Object(e)),
        Ok(shape) => if !links_tokio(image) {
            Err(AsyncDecodeErrorSpec::NotTokioBinary)
        } else if !object_file::has_section(image, ".debug_info"@) {
            Err(AsyncDecodeErrorSpec::NoDebugInfo)
        } else {
            match findings_from(
                object_file::debug_sections_of(image),
                shape.little_endian,
                0,
                no_findings(),
            ) {
                Err(e) => Err(AsyncDecodeErrorSpec::Dwarf(e)),
                Ok(found) => judged(found),
            }
        },
    }
}

/// Extract every coroutine layout of a binary.
///
/// # Errors
/// See `AsyncDecodeError`: no object file, not a Tokio binary, no debug
/// information or none that can be read, an unsupported compiler, no coroutines.
pub fn extract(bytes: &[u8]) -> (r: Result<DwarfExtract, AsyncDecodeError>)
    ensures
        outcome(r) == extracted(bytes@),
{
    let shape = match object_file::shape(bytes) {
        Err(e) => return Err(AsyncDecodeError::Object(e)),
        Ok(shape) => shape,
    };
    if !is_tokio_object(bytes) {
        return Err(AsyncDecodeError::NotTokioBinary);
    }
    if !object_file::is_section(bytes, ".debug_info") {
        return Err(AsyncDecodeError::NoDebugInfo);
    }
    let sections = DebugSections::load(bytes, shape.little_endian);
    match read_units(&sections) {
        Err(e) => Err(AsyncDecodeError::Dwarf(e)),
        Ok((version, layouts)) => judge(version, layouts),
    }
}

/// Resolve every coroutine layout and the rustc version of a Tokio target.
///
/// # Errors
/// See `AsyncDecodeError`.
pub fn load_layouts(image: &[u8]) -> (r: Result<(AsyncLayouts, RustcVersion), AsyncDecodeError>)
    ensures
        match r {
            Ok((layouts, version)) => extracted(image@) == Ok::<
                DwarfExtractSpec,
                AsyncDecodeErrorSpec,
            >(DwarfExtractSpec { version, layouts: layouts.deep_view() }),
            Err(e) => extracted(image@) == Err::<DwarfExtractSpec, AsyncDecodeErrorSpec>(
                e.deep_view(),
            ),
        },
{
    let extract = extract(image)?;
    Ok((extract.layouts, extract.version))
}

} // verus!
