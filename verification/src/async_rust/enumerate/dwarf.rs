//! What enumeration needs of one binary and no vendored table can hold: where
//! the runtime's context lies in thread-local storage, how the executable is
//! loaded, and which future each monomorphized poll function belongs to.
use vstd::prelude::*;

use super::error::{EnumerateError, EnumerateErrorSpec};
use super::layout::TokioVersion;
use crate::bytes;
use crate::debug_info::object_file::{self, DebugSections, Symbol, SymbolSpec};
use crate::debug_info::unit::{self, Entry, EntrySpec, Unit, TAG_SUBPROGRAM};
use crate::error::outcome;
use crate::text;

verus! {

/// Program header type of a loaded segment.
pub const PT_LOAD: u64 = 1;

/// Program header type of the thread-local segment.
pub const PT_TLS: u64 = 7;

/// Everything that enumeration needs of one Tokio binary.
#[derive(Debug, Clone)]
pub struct BinaryFacts {
    /// The embedded Tokio version.
    pub version: TokioVersion,
    /// The context's offset within the executable's TLS block.
    pub context_tls_offset: u64,
    /// Alignment of the executable's TLS segment.
    pub tls_align: u64,
    /// Size of the executable's TLS block.
    pub tls_block_size: u64,
    /// The least address of a loaded segment.
    pub min_load_vaddr: u64,
    /// The address of each poll function, and its future's type.
    pub poll_types: Vec<(u64, String)>,
}

/// The value of a `BinaryFacts`.
#[verifier::ext_equal]
pub struct BinaryFactsSpec {
    pub version: TokioVersion,
    pub context_tls_offset: u64,
    pub tls_align: u64,
    pub tls_block_size: u64,
    pub min_load_vaddr: u64,
    pub poll_types: Seq<(u64, Seq<char>)>,
}

impl DeepView for BinaryFacts {
    type V = BinaryFactsSpec;

    open spec fn deep_view(&self) -> BinaryFactsSpec {
        BinaryFactsSpec {
            version: self.version,
            context_tls_offset: self.context_tls_offset,
            tls_align: self.tls_align,
            tls_block_size: self.tls_block_size,
            min_load_vaddr: self.min_load_vaddr,
            poll_types: self.poll_types.deep_view(),
        }
    }
}

/// The type of the first entry for an address, at or after `from`.
pub open spec fn type_of_poll(polls: Seq<(u64, Seq<char>)>, addr: u64, from: nat) -> Option<
    Seq<char>,
>
    decreases polls.len() - from,
{
    if from >= polls.len() {
        None
    } else if polls[from as int].0 == addr {
        Some(polls[from as int].1)
    } else {
        type_of_poll(polls, addr, from + 1)
    }
}

impl BinaryFacts {
    /// The future type of a task whose poll function stands at an address of
    /// the binary, if that is a known one.
    #[must_use]
    pub fn future_type_for(&self, static_addr: u64) -> (r: Option<&str>)
        ensures
            match r {
                Some(name) => type_of_poll(self.deep_view().poll_types, static_addr, 0) == Some(
                    name@,
                ),
                None => type_of_poll(self.deep_view().poll_types, static_addr, 0) is None,
            },
    {
        let ghost polls = self.poll_types.deep_view();
        let mut i: usize = 0;
        while i < self.poll_types.len()
            invariant
                i <= self.poll_types.len(),
                polls == self.poll_types.deep_view(),
                type_of_poll(polls, static_addr, 0) == type_of_poll(polls, static_addr, i as nat),
            decreases self.poll_types.len() - i,
        {
            assert(polls[i as int] == self.poll_types@[i as int].deep_view());
            if self.poll_types[i].0 == static_addr {
                return Some(self.poll_types[i].1.as_str());
            }
            i += 1;
        }
        None
    }

    /// Number of known poll functions.
    #[must_use]
    pub fn poll_type_count(&self) -> (r: usize)
        ensures
            r == self.deep_view().poll_types.len(),
    {
        self.poll_types.len()
    }
}

// ---------------------------------------------------------------------------
// The context symbol
// ---------------------------------------------------------------------------

/// A symbol name is that of the runtime context's thread-local.
pub open spec fn names_context(name: Seq<char>) -> bool {
    text::contains(name, "7context7CONTEXT"@) || text::contains(name, "context..CONTEXT"@)
}

/// Whether a (mangled) symbol name is that of the runtime context's
/// thread-local.
#[must_use]
pub fn is_context_symbol(name: &str) -> (r: bool)
    ensures
        r == names_context(name@),
{
    text::contains_text(name, "7context7CONTEXT") || text::contains_text(name, "context..CONTEXT")
}

/// The place of the first thread-local symbol, at or after `from`, that is the
/// runtime context's.
pub open spec fn context_symbol(symbols: Seq<SymbolSpec>, from: nat) -> Option<nat>
    decreases symbols.len() - from,
{
    if from >= symbols.len() {
        None
    } else {
        let s = symbols[from as int];
        if s.is_tls && (s.name matches Some(name) && names_context(name)) {
            Some(from)
        } else {
            context_symbol(symbols, from + 1)
        }
    }
}

/// The address of the runtime context's symbol.
pub open spec fn context_offset(image: Seq<u8>) -> Option<u64> {
    match context_symbol(object_file::object_symbols(image), 0) {
        Some(k) => object_file::placed(image, k),
        None => None,
    }
}

/// The context's offset within the executable's TLS block.
pub fn context_tls_offset(image: &[u8]) -> (r: Result<u64, EnumerateError>)
    ensures
        outcome(r) == (match context_offset(image@) {
            Some(offset) => Ok(offset),
            None => Err(EnumerateErrorSpec::ContextSymbolMissing),
        }),
{
    let symbols = object_file::symbols(image);
    let place = match find_context(&symbols) {
        Some(k) => object_file::place(image, k),
        None => None,
    };
    match place {
        Some(offset) => Ok(offset),
        None => Err(EnumerateError::ContextSymbolMissing),
    }
}

fn find_context(symbols: &Vec<Symbol>) -> (r: Option<usize>)
    ensures
        match r {
            Some(k) => context_symbol(symbols.deep_view(), 0) == Some(k as nat) && k
                < symbols.deep_view().len(),
            None => context_symbol(symbols.deep_view(), 0) is None,
        },
{
    let ghost s = symbols.deep_view();
    let mut i: usize = 0;
    while i < symbols.len()
        invariant
            i <= symbols.len(),
            s == symbols.deep_view(),
            context_symbol(s, 0) == context_symbol(s, i as nat),
        decreases symbols.len() - i,
    {
        assert(s[i as int] == symbols@[i as int].deep_view());
        if symbols[i].is_tls {
            if let Some(name) = &symbols[i].name {
                if is_context_symbol(name.as_str()) {
                    return Some(i);
                }
            }
        }
        i += 1;
    }
    None
}

// ---------------------------------------------------------------------------
// Program headers
// ---------------------------------------------------------------------------

/// The image starts as a little-endian 64-bit ELF file does.
pub open spec fn is_elf64(image: Seq<u8>) -> bool {
    image.len() >= 64 && image[0] == 0x7f && image[1] == 0x45 && image[2] == 0x4c && image[3]
        == 0x46 && image[4] == 2 && image[5] == 1
}

/// The number of `n` bytes at `at`.
pub open spec fn number_at(image: Seq<u8>, at: int, n: int) -> nat {
    bytes::le(image.subrange(at, at + n))
}

/// Where the program header number `i` starts.
pub open spec fn header_at(image: Seq<u8>, i: int) -> int {
    number_at(image, 32, 8) + i * number_at(image, 54, 2)
}

/// The alignment and size of the TLS segment, and the least address of a loaded
/// segment, after the first `n` program headers; `None` where one of them does
/// not lie within the image. Without a TLS segment the alignment is 8 and the
/// size 0; of several the last counts. Without a loaded segment the address is
/// the greatest there is.
pub open spec fn segments(image: Seq<u8>, n: int) -> Option<(u64, u64, u64)>
    decreases n,
{
    if n <= 0 {
        Some((8, 0, u64::MAX))
    } else {
        match segments(image, n - 1) {
            None => None,
            Some((align, size, least)) => {
                let at = header_at(image, n - 1);
                if at + 56 > image.len() {
                    None
                } else {
                    let kind = number_at(image, at, 4);
                    let vaddr = number_at(image, at + 16, 8) as u64;
                    if kind == PT_TLS {
                        let p_align = number_at(image, at + 48, 8) as u64;
                        Some(
                            (
                                if p_align < 1 {
                                    1
                                } else {
                                    p_align
                                },
                                number_at(image, at + 40, 8) as u64,
                                least,
                            ),
                        )
                    } else if kind == PT_LOAD && vaddr < least {
                        Some((align, size, vaddr))
                    } else {
                        Some((align, size, least))
                    }
                }
            },
        }
    }
}

/// The alignment and size of the TLS segment, and the least address of a loaded
/// segment (0 without one).
pub open spec fn geometry_of(image: Seq<u8>) -> Result<(u64, u64, u64), EnumerateErrorSpec> {
    if !is_elf64(image) {
        Err(EnumerateErrorSpec::Parse("not a little-endian ELF64 image"@))
    } else {
        match segments(image, number_at(image, 56, 2) as int) {
            None => Err(EnumerateErrorSpec::Parse("truncated ELF header"@)),
            Some((align, size, least)) => Ok(
                (
                    align,
                    size,
                    if least == u64::MAX {
                        0
                    } else {
                        least
                    },
                ),
            ),
        }
    }
}

fn read_at(image: &[u8], at: usize, n: usize) -> (r: u64)
    requires
        at + n <= image@.len(),
        n <= 8,
    ensures
        r == number_at(image@, at as int, n as int),
{
    assert(at + n <= image.len());
    bytes::read_le(vstd::slice::slice_subrange(image, at, at + n))
}

proof fn lemma_segments_truncated(image: Seq<u8>, n: int, m: int)
    requires
        n <= m,
        segments(image, n) is None,
    ensures
        segments(image, m) is None,
    decreases m - n,
{
    if n < m {
        lemma_segments_truncated(image, n, m - 1);
    }
}

/// Read the program headers of an ELF image: the alignment and size of the TLS
/// segment, and the least address of a loaded segment.
///
/// # Errors
/// Fails where the image is no little-endian 64-bit ELF file, or a header does
/// not lie within it.
pub fn elf_geometry(image: &[u8]) -> (r: Result<(u64, u64, u64), EnumerateError>)
    ensures
        outcome(r) == geometry_of(image@),
{
    let len: usize = image.len();
    if len < 64 || image[0] != 0x7f || image[1] != 0x45 || image[2] != 0x4c || image[3] != 0x46
        || image[4] != 2 || image[5] != 1 {
        return Err(EnumerateError::Parse("not a little-endian ELF64 image".to_owned()));
    }
    let ghost img = image@;
    let phoff: u64 = read_at(image, 32, 8);
    let phentsize: u64 = read_at(image, 54, 2);
    let phnum: u64 = read_at(image, 56, 2);
    proof {
        bytes::lemma_le_bound(img.subrange(54, 56));
        bytes::lemma_le_bound(img.subrange(56, 58));
        bytes::lemma_pow256_values();
    }
    let mut tls_align: u64 = 8;
    let mut tls_memsz: u64 = 0;
    let mut min_load: u64 = 0xffff_ffff_ffff_ffff;
    let mut offset: u64 = 0;
    let mut i: u64 = 0;
    while i < phnum
        invariant
            i <= phnum < 0x1_0000,
            phentsize < 0x1_0000,
            img == image@,
            len == img.len(),
            len >= 64,
            is_elf64(img),
            phoff == number_at(img, 32, 8),
            phentsize == number_at(img, 54, 2),
            phnum == number_at(img, 56, 2),
            offset == i * phentsize,
            segments(img, i as int) == Some((tls_align, tls_memsz, min_load)),
        decreases phnum - i,
    {
        let room: u64 = (len - 56) as u64;
        proof {
            assert(i * phentsize <= 0xffff * 0xffff) by (nonlinear_arith)
                requires
                    0 <= i <= 0xffff,
                    0 <= phentsize <= 0xffff,
            ;
            assert(header_at(img, i as int) == phoff + offset);
        }
        if offset > room || phoff > room - offset {
            proof {
                assert(segments(img, i + 1) is None);
                lemma_segments_truncated(img, i + 1, phnum as int);
            }
            return Err(EnumerateError::Parse("truncated ELF header".to_owned()));
        }
        let base: usize = (phoff + offset) as usize;
        let p_type: u64 = read_at(image, base, 4);
        let p_vaddr: u64 = read_at(image, base + 16, 8);
        let p_memsz: u64 = read_at(image, base + 40, 8);
        let p_align: u64 = read_at(image, base + 48, 8);
        if p_type == PT_TLS {
            tls_align = if p_align < 1 {
                1
            } else {
                p_align
            };
            tls_memsz = p_memsz;
        } else if p_type == PT_LOAD {
            if p_vaddr < min_load {
                min_load = p_vaddr;
            }
        }
        proof {
            assert((i + 1) * phentsize == i * phentsize + phentsize) by (nonlinear_arith);
        }
        offset = offset + phentsize;
        i += 1;
    }
    let least: u64 = if min_load == 0xffff_ffff_ffff_ffff {
        0
    } else {
        min_load
    };
    Ok((tls_align, tls_memsz, least))
}

// ---------------------------------------------------------------------------
// Poll functions
// ---------------------------------------------------------------------------

/// Where the first generic argument ends: at the first comma or closing bracket
/// outside nested brackets, from `i` on with `depth` brackets open.
pub open spec fn argument_end(s: Seq<char>, i: int, depth: nat) -> Option<int>
    decreases s.len() - i,
{
    if i >= s.len() {
        None
    } else if s[i] == '<' {
        argument_end(s, i + 1, depth + 1)
    } else if s[i] == '>' {
        if depth == 0 {
            Some(i)
        } else {
            argument_end(s, i + 1, (depth - 1) as nat)
        }
    } else if s[i] == ',' && depth == 0 {
        Some(i)
    } else {
        argument_end(s, i + 1, depth)
    }
}

/// The first generic argument of a name that starts with `poll<`, without
/// surrounding space.
pub open spec fn first_argument(name: Seq<char>) -> Option<Seq<char>> {
    if text::starts_with(name, "poll<"@) {
        let inner = name.skip(5);
        match argument_end(inner, 0, 0) {
            Some(i) => Some(text::trim(inner.take(i))),
            None => None,
        }
    } else {
        None
    }
}

/// The first generic argument of a `poll<T, S>` name. Commas within nested
/// generics do not end it.
#[must_use]
pub fn first_generic_arg(name: &str) -> (r: Option<String>)
    ensures
        r.deep_view() == first_argument(name@),
{
    proof {
        reveal_strlit("poll<");
    }
    let chars = text::chars_of(name);
    let whole = chars.as_slice();
    if !text::begins_with(whole, "poll<") {
        return None;
    }
    let end: usize = whole.len();
    let inner = vstd::slice::slice_subrange(whole, 5, end);
    assert(inner@ =~= name@.skip(5));
    let mut depth: usize = 0;
    let mut i: usize = 0;
    while i < inner.len()
        invariant
            i <= inner.len(),
            depth <= i,
            inner@ == name@.skip(5),
            text::starts_with(name@, "poll<"@),
            argument_end(inner@, 0, 0) == argument_end(inner@, i as int, depth as nat),
        decreases inner.len() - i,
    {
        let c: char = inner[i];
        if c == '<' {
            depth += 1;
        } else if c == '>' {
            if depth == 0 {
                let head = vstd::slice::slice_subrange(inner, 0, i);
                assert(head@ =~= inner@.take(i as int));
                return Some(text::text_of(text::trimmed(head)));
            }
            depth -= 1;
        } else if c == ',' && depth == 0 {
            let head = vstd::slice::slice_subrange(inner, 0, i);
            assert(head@ =~= inner@.take(i as int));
            return Some(text::text_of(text::trimmed(head)));
        }
        i += 1;
    }
    None
}

/// Poll functions and their futures' types, or why they cannot be read.
pub type Polls = Result<Seq<(u64, Seq<char>)>, Seq<char>>;

/// The poll function that an entry describes, if it is one with an address.
pub open spec fn poll_of(e: EntrySpec) -> Polls {
    if e.tag != TAG_SUBPROGRAM {
        Ok(Seq::empty())
    } else {
        match e.name {
            Err(why) => Err(why),
            Ok(None) => Ok(Seq::empty()),
            Ok(Some(name)) => match first_argument(name) {
                None => Ok(Seq::empty()),
                Some(future) => match e.low_pc {
                    Err(why) => Err(why),
                    Ok(None) => Ok(Seq::empty()),
                    Ok(Some(addr)) => Ok(seq![(addr, future)]),
                },
            },
        }
    }
}

/// The poll functions of a unit.
pub open spec fn polls_of_unit(s: Seq<EntrySpec>) -> Polls {
    unit::gathered(s.map_values(|e: EntrySpec| poll_of(e)))
}

fn read_poll(entry: &Entry) -> (r: Result<Vec<(u64, String)>, String>)
    ensures
        outcome(r) == poll_of(entry.deep_view()),
{
    let mut out: Vec<(u64, String)> = Vec::new();
    assert(out.deep_view() =~= Seq::empty());
    if entry.tag != TAG_SUBPROGRAM {
        return Ok(out);
    }
    let future = match &entry.name {
        Err(e) => return Err(e.clone()),
        Ok(None) => return Ok(out),
        Ok(Some(name)) => match first_generic_arg(name.as_str()) {
            None => return Ok(out),
            Some(future) => future,
        },
    };
    match &entry.low_pc {
        Err(e) => Err(e.clone()),
        Ok(None) => Ok(out),
        Ok(Some(addr)) => {
            let ghost f = future@;
            out.push((*addr, future));
            assert(out.deep_view() =~= seq![(*addr, f)]);
            Ok(out)
        },
    }
}

/// The poll functions of a unit, in order.
pub fn collect_polls(u: &Unit) -> (r: Result<Vec<(u64, String)>, String>)
    ensures
        outcome(r) == polls_of_unit(u.deep_view().entries),
{
    let ghost s = u.deep_view().entries;
    let ghost parts = s.map_values(|e: EntrySpec| poll_of(e));
    let mut out: Vec<(u64, String)> = Vec::new();
    let mut i: usize = 0;
    proof {
        assert(parts.take(0) =~= Seq::empty());
        assert(out.deep_view() =~= Seq::empty());
    }
    let len: usize = u.len();
    while i < len
        invariant
            i <= len,
            len == s.len(),
            s == u.deep_view().entries,
            parts == s.map_values(|e: EntrySpec| poll_of(e)),
            unit::gathered(parts.take(i as int)) == Ok::<_, Seq<char>>(out.deep_view()),
        decreases len - i,
    {
        proof {
            unit::lemma_gathered_step(parts, i as int);
        }
        match read_poll(u.entry(i)) {
            Err(e) => {
                proof {
                    unit::lemma_gathered_error(parts, i + 1);
                }
                return Err(e);
            },
            Ok(mut more) => {
                let ghost before = out.deep_view();
                let ghost added = more.deep_view();
                out.append(&mut more);
                assert(out.deep_view() =~= before + added);
            },
        }
        i += 1;
    }
    assert(parts.take(i as int) =~= parts);
    Ok(out)
}

/// The poll functions of the units from `at` to the end of `.debug_info`, after
/// those known.
pub open spec fn polls_from(
    d: Seq<(Seq<char>, Seq<u8>)>,
    little_endian: bool,
    at: nat,
    known: Seq<(u64, Seq<char>)>,
) -> Polls
    decreases object_file::section_named(d, ".debug_info"@, 0).len() - at,
{
    if at >= object_file::section_named(d, ".debug_info"@, 0).len() {
        Ok(known)
    } else {
        match unit::loaded(d, little_endian, at, true) {
            Err(e) => Err(e),
            Ok((u, length)) => match polls_of_unit(u.entries) {
                Err(e) => Err(e),
                Ok(more) => if length == 0 || at + length > object_file::section_named(
                    d,
                    ".debug_info"@,
                    0,
                ).len() {
                    Ok(known + more)
                } else {
                    polls_from(d, little_endian, at + length as nat, known + more)
                },
            },
        }
    }
}

fn poll_type_map(d: &DebugSections) -> (r: Result<Vec<(u64, String)>, String>)
    ensures
        outcome(r) == polls_from(d.sections.deep_view(), d.little_endian, 0, Seq::empty()),
{
    let ghost ss = d.sections.deep_view();
    let ghost all = polls_from(ss, d.little_endian, 0, Seq::empty());
    let end: usize = d.get(".debug_info").len();
    let mut out: Vec<(u64, String)> = Vec::new();
    assert(out.deep_view() =~= Seq::empty());
    let mut at: usize = 0;
    while at < end
        invariant
            ss == d.sections.deep_view(),
            end == object_file::section_named(ss, ".debug_info"@, 0).len(),
            at <= end,
            all == polls_from(ss, d.little_endian, at as nat, out.deep_view()),
            all == polls_from(ss, d.little_endian, 0, Seq::empty()),
        decreases end - at,
    {
        let (u, length) = unit::load_unit(d, at, true)?;
        let mut more = collect_polls(&u)?;
        let ghost before = out.deep_view();
        let ghost added = more.deep_view();
        out.append(&mut more);
        assert(out.deep_view() =~= before + added);
        at += length;
    }
    Ok(out)
}

// ---------------------------------------------------------------------------
// All of it
// ---------------------------------------------------------------------------

/// The facts of a binary, or which of them is missing.
pub open spec fn facts_of(image: Seq<u8>) -> Result<BinaryFactsSpec, EnumerateErrorSpec> {
    match TokioVersion::first_in(image, 0) {
        None => Err(EnumerateErrorSpec::TokioVersionUnknown),
        Some(version) => match object_file::object_shape(image) {
            Err(e) => Err(EnumerateErrorSpec::Parse(e)),
            Ok(shape) => match context_offset(image) {
                None => Err(EnumerateErrorSpec::ContextSymbolMissing),
                Some(context_tls_offset) => if !object_file::has_section(image, ".debug_info"@) {
                    Err(EnumerateErrorSpec::NoDebugInfo)
                } else {
                    match geometry_of(image) {
                        Err(e) => Err(e),
                        Ok((tls_align, tls_block_size, min_load_vaddr)) => match polls_from(
                            object_file::debug_sections_of(image),
                            shape.little_endian,
                            0,
                            Seq::empty(),
                        ) {
                            Err(e) => Err(EnumerateErrorSpec::Parse(e)),
                            Ok(poll_types) => Ok(
                                BinaryFactsSpec {
                                    version,
                                    context_tls_offset,
                                    tls_align,
                                    tls_block_size,
                                    min_load_vaddr,
                                    poll_types,
                                },
                            ),
                        },
                    }
                },
            },
        },
    }
}

/// Find out the facts that enumeration needs of a binary.
///
/// # Errors
/// Declines where the version, the context's symbol or the debug information is
/// missing, or the image cannot be read.
pub fn resolve(image: &[u8]) -> (r: Result<BinaryFacts, EnumerateError>)
    ensures
        outcome(r) == facts_of(image@),
{
    let version = match TokioVersion::detect_in_bytes(image) {
        None => return Err(EnumerateError::TokioVersionUnknown),
        Some(version) => version,
    };
    let shape = match object_file::shape(image) {
        Err(e) => return Err(EnumerateError::Parse(e)),
        Ok(shape) => shape,
    };
    let offset: u64 = context_tls_offset(image)?;
    if !object_file::is_section(image, ".debug_info") {
        return Err(EnumerateError::NoDebugInfo);
    }
    let (tls_align, tls_block_size, min_load_vaddr) = elf_geometry(image)?;
    let sections = DebugSections::load(image, shape.little_endian);
    match poll_type_map(&sections) {
        Err(e) => Err(EnumerateError::Parse(e)),
        Ok(poll_types) => Ok(
            BinaryFacts {
                version,
                context_tls_offset: offset,
                tls_align,
                tls_block_size,
                min_load_vaddr,
                poll_types,
            },
        ),
    }
}

} // verus!
