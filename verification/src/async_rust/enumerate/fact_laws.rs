//! Laws of what is read from a binary to enumerate its tasks: the segments, the
//! runtime context, and which future each poll function polls.
use vstd::prelude::*;

use super::dwarf::{self, BinaryFactsSpec};
use super::error::EnumerateErrorSpec;
use super::layout::TokioVersion;
use crate::bytes;
use crate::debug_info::laws as entry_laws;
use crate::debug_info::object_file::{self, SymbolSpec};
use crate::debug_info::unit::{self, EntrySpec};
use crate::text;

verus! {

// ---------------------------------------------------------------------------
// Segments
// ---------------------------------------------------------------------------

/// A program header of 56 bytes at a place: its kind in the first four, its
/// address at 16, its size in memory at 40 and its alignment at 48, least
/// significant byte first.
pub open spec fn is_header(
    image: Seq<u8>,
    at: int,
    kind: int,
    vaddr: u64,
    size: u64,
    align: u64,
) -> bool {
    &&& 0 <= at && at + 56 <= image.len()
    &&& bytes::spells(image.subrange(at, at + 4), kind)
    &&& bytes::spells(image.subrange(at + 16, at + 24), vaddr as int)
    &&& bytes::spells(image.subrange(at + 40, at + 48), size as int)
    &&& bytes::spells(image.subrange(at + 48, at + 56), align as int)
}

/// The image's headers: `n` of them from `from` on, `stride` bytes apart.
pub open spec fn has_headers(
    image: Seq<u8>,
    from: int,
    stride: int,
    n: int,
    kinds: Seq<int>,
    vaddrs: Seq<u64>,
    sizes: Seq<u64>,
    aligns: Seq<u64>,
) -> bool {
    &&& dwarf::is_elf64(image)
    &&& bytes::spells(image.subrange(32, 40), from)
    &&& bytes::spells(image.subrange(54, 56), stride)
    &&& bytes::spells(image.subrange(56, 58), n)
    &&& kinds.len() == n && vaddrs.len() == n && sizes.len() == n && aligns.len() == n
    &&& forall|i: int|
        0 <= i < n ==> is_header(
            image,
            from + i * stride,
            #[trigger] kinds[i],
            vaddrs[i],
            sizes[i],
            aligns[i],
        )
}

/// The thread-local segment (kind 7) gives the alignment, no less than 1, and the
/// size; of several the last counts, without one they are 8 and 0.
pub open spec fn is_tls(
    n: int,
    kinds: Seq<int>,
    sizes: Seq<u64>,
    aligns: Seq<u64>,
    align: u64,
    size: u64,
) -> bool {
    ||| (forall|i: int| 0 <= i < n ==> #[trigger] kinds[i] != 7) && align == 8 && size == 0
    ||| exists|i: int|
        0 <= i < n && #[trigger] kinds[i] == 7 && (forall|j: int|
            i < j < n ==> #[trigger] kinds[j] != 7) && size == sizes[i] && (aligns[i] == 0 ==> align
            == 1) && (aligns[i] > 0 ==> align == aligns[i])
}

/// The least address of a loaded segment (kind 1), the greatest number without
/// one.
pub open spec fn is_least(n: int, kinds: Seq<int>, vaddrs: Seq<u64>, least: u64) -> bool {
    &&& forall|i: int| 0 <= i < n && #[trigger] kinds[i] == 1 ==> least <= vaddrs[i]
    &&& least == u64::MAX || exists|i: int|
        0 <= i < n && #[trigger] kinds[i] == 1 && vaddrs[i] == least
}

/// Where the program headers lie within the image, the segments give what they
/// say: the thread-local one its alignment and size, the loaded ones the least
/// address, 0 where none is below the greatest.
pub proof fn law_the_segments_give_the_geometry(
    image: Seq<u8>,
    from: int,
    stride: int,
    n: int,
    kinds: Seq<int>,
    vaddrs: Seq<u64>,
    sizes: Seq<u64>,
    aligns: Seq<u64>,
)
    requires
        has_headers(image, from, stride, n, kinds, vaddrs, sizes, aligns),
    ensures
        dwarf::geometry_of(image) matches Ok((align, size, least)) && is_tls(
            n,
            kinds,
            sizes,
            aligns,
            align,
            size,
        ) && (is_least(n, kinds, vaddrs, least) || (least == 0 && is_least(
            n,
            kinds,
            vaddrs,
            u64::MAX,
        ))),
{
    bytes::law_bytes_read_as_what_they_spell(image.subrange(32, 40), from);
    bytes::law_bytes_read_as_what_they_spell(image.subrange(54, 56), stride);
    bytes::law_bytes_read_as_what_they_spell(image.subrange(56, 58), n);
    lemma_segments(image, from, stride, n, kinds, vaddrs, sizes, aligns, n);
}

proof fn lemma_segments(
    image: Seq<u8>,
    from: int,
    stride: int,
    all: int,
    kinds: Seq<int>,
    vaddrs: Seq<u64>,
    sizes: Seq<u64>,
    aligns: Seq<u64>,
    n: int,
)
    requires
        has_headers(image, from, stride, all, kinds, vaddrs, sizes, aligns),
        dwarf::number_at(image, 32, 8) == from,
        dwarf::number_at(image, 54, 2) == stride,
        0 <= n <= all,
    ensures
        dwarf::segments(image, n) matches Some((align, size, least)) && is_tls(
            n,
            kinds,
            sizes,
            aligns,
            align,
            size,
        ) && is_least(n, kinds, vaddrs, least),
    decreases n,
{
    if n > 0 {
        lemma_segments(image, from, stride, all, kinds, vaddrs, sizes, aligns, n - 1);
        let i = n - 1;
        let at = from + i * stride;
        assert(dwarf::header_at(image, i) == at);
        assert(is_header(image, at, kinds[i], vaddrs[i], sizes[i], aligns[i]));
        bytes::law_bytes_read_as_what_they_spell(image.subrange(at, at + 4), kinds[i]);
        bytes::law_bytes_read_as_what_they_spell(
            image.subrange(at + 16, at + 24),
            vaddrs[i] as int,
        );
        bytes::law_bytes_read_as_what_they_spell(
            image.subrange(at + 40, at + 48),
            sizes[i] as int,
        );
        bytes::law_bytes_read_as_what_they_spell(
            image.subrange(at + 48, at + 56),
            aligns[i] as int,
        );
        let (align0, size0, least0) = dwarf::segments(image, n - 1)->Some_0;
        let (align, size, least) = dwarf::segments(image, n)->Some_0;
        if kinds[i] == 7 {
            assert(kinds[n - 1] == 7);
        } else if exists|k: int|
            0 <= k < n - 1 && #[trigger] kinds[k] == 7 && (forall|j: int|
                k < j < n - 1 ==> #[trigger] kinds[j] != 7) && size0 == sizes[k] && (aligns[k] == 0
                ==> align0 == 1) && (aligns[k] > 0 ==> align0 == aligns[k]) {
            let k = choose|k: int|
                0 <= k < n - 1 && #[trigger] kinds[k] == 7 && (forall|j: int|
                    k < j < n - 1 ==> #[trigger] kinds[j] != 7) && size0 == sizes[k] && (aligns[k]
                    == 0 ==> align0 == 1) && (aligns[k] > 0 ==> align0 == aligns[k]);
            assert(kinds[k] == 7);
        }
        if least0 != u64::MAX && least == least0 {
            let k = choose|k: int|
                0 <= k < n - 1 && #[trigger] kinds[k] == 1 && vaddrs[k] == least0;
            assert(kinds[k] == 1);
        }
    }
}

// ---------------------------------------------------------------------------
// The context and the polls
// ---------------------------------------------------------------------------

/// The symbol is the runtime context's: thread-local, under a name that holds
/// the context's, mangled in either way.
pub open spec fn is_context(s: SymbolSpec) -> bool {
    s.is_tls && (s.name matches Some(name) && (text::contains(name, "7context7CONTEXT"@)
        || text::contains(name, "context..CONTEXT"@)))
}

/// The context is the first symbol that is one.
pub proof fn law_the_first_context_symbol_counts(symbols: Seq<SymbolSpec>, from: nat)
    ensures
        match dwarf::context_symbol(symbols, from) {
            Some(k) => from <= k < symbols.len() && is_context(symbols[k as int]) && forall|j: int|
                from <= j < k ==> !is_context(#[trigger] symbols[j]),
            None => forall|j: int| from <= j < symbols.len() ==> !is_context(#[trigger] symbols[j]),
        },
    decreases symbols.len() - from,
{
    if from < symbols.len() && !is_context(symbols[from as int]) {
        law_the_first_context_symbol_counts(symbols, from + 1);
    }
}

/// The future that a poll function polls is that of the first entry for the
/// function's address.
pub proof fn law_an_address_polls_the_first_future_listed(
    polls: Seq<(u64, Seq<char>)>,
    addr: u64,
    from: nat,
) -> (i: int)
    ensures
        match dwarf::type_of_poll(polls, addr, from) {
            Some(future) => from <= i < polls.len() && polls[i] == (addr, future) && forall|j: int|
                from <= j < i ==> (#[trigger] polls[j]).0 != addr,
            None => forall|j: int| from <= j < polls.len() ==> (#[trigger] polls[j]).0 != addr,
        },
    decreases polls.len() - from,
{
    if from < polls.len() && polls[from as int].0 != addr {
        law_an_address_polls_the_first_future_listed(polls, addr, from + 1)
    } else {
        from as int
    }
}

/// How many brackets are open after the text, with `depth` open before it;
/// `None` where one is closed that is not open, or a comma stands outside all
/// of them.
pub open spec fn depth_after(s: Seq<char>, depth: nat) -> Option<nat>
    decreases s.len(),
{
    if s.len() == 0 {
        Some(depth)
    } else {
        match depth_after(s.drop_last(), depth) {
            None => None,
            Some(open) => if s.last() == '<' {
                Some(open + 1)
            } else if s.last() == '>' {
                if open > 0 {
                    Some((open - 1) as nat)
                } else {
                    None
                }
            } else if s.last() == ',' && open == 0 {
                None
            } else {
                Some(open)
            },
        }
    }
}

/// A function is the poll of a future if its name is `poll<`, the future's type
/// and a comma or a closing bracket: the type closes every bracket that it opens
/// and holds no comma outside them.
pub proof fn law_a_poll_names_its_future(argument: Seq<char>, stop: char, rest: Seq<char>)
    requires
        depth_after(argument, 0) == Some(0nat),
        stop == ',' || stop == '>',
    ensures
        dwarf::first_argument("poll<"@ + argument + seq![stop] + rest) == Some(text::trim(argument)),
{
    reveal_strlit("poll<");
    let name = "poll<"@ + argument + seq![stop] + rest;
    assert(name.subrange(0, 5) =~= "poll<"@);
    let inner = name.skip(5);
    assert(inner =~= argument + seq![stop] + rest);
    assert(inner.take(argument.len() as int) =~= argument);
    lemma_argument_end(inner, argument.len() as int);
    assert(inner[argument.len() as int] == stop);
    assert(inner.take(0) =~= Seq::empty());
}

proof fn lemma_argument_end(s: Seq<char>, n: int)
    requires
        0 <= n <= s.len(),
        depth_after(s.take(n), 0) is Some,
    ensures
        dwarf::argument_end(s, 0, 0) == dwarf::argument_end(
            s,
            n,
            depth_after(s.take(n), 0)->Some_0,
        ),
    decreases n,
{
    if n == 0 {
        assert(s.take(0) =~= Seq::empty());
    } else {
        assert(s.take(n).drop_last() =~= s.take(n - 1));
        assert(s.take(n).last() == s[n - 1]);
        lemma_argument_end(s, n - 1);
    }
}

/// The entry is a function (tag 0x2e) with an address that polls a future.
pub open spec fn is_poll(e: EntrySpec, addr: u64, future: Seq<char>) -> bool {
    e.tag == 0x2e && (e.name matches Ok(Some(name)) && dwarf::first_argument(name) == Some(future))
        && e.low_pc == Ok::<_, Seq<char>>(Some(addr))
}

/// The polls are those of the entries at `picks`, in their order, and no other
/// entry is one.
pub open spec fn are_polls(
    s: Seq<EntrySpec>,
    polls: Seq<(u64, Seq<char>)>,
    picks: Seq<int>,
) -> bool {
    &&& polls.len() == picks.len()
    &&& forall|j: int|
        0 <= j < picks.len() ==> 0 <= #[trigger] picks[j] < s.len() && is_poll(
            s[picks[j]],
            polls[j].0,
            polls[j].1,
        )
    &&& forall|i: int, j: int|
        0 <= i < j < picks.len() ==> (#[trigger] picks[i]) < (#[trigger] picks[j])
    &&& forall|k: int, addr: u64, future: Seq<char>|
        0 <= k < s.len() && #[trigger] is_poll(s[k], addr, future) ==> picks.contains(k)
}

/// The polls of a unit are those of all its functions that poll a future, in
/// their order.
pub proof fn law_every_poll_of_a_unit_is_listed(s: Seq<EntrySpec>) -> (picks: Seq<int>)
    requires
        dwarf::polls_of_unit(s) is Ok,
    ensures
        are_polls(s, dwarf::polls_of_unit(s)->Ok_0, picks),
{
    let parts = s.map_values(|e: EntrySpec| dwarf::poll_of(e));
    let polls = unit::gathered(parts)->Ok_0;
    entry_laws::law_nothing_is_gathered_by_halves(parts);
    let picks = entry_laws::law_each_part_gives_its_value(parts);
    assert forall|j: int| 0 <= j < picks.len() implies 0 <= #[trigger] picks[j] < s.len()
        && is_poll(s[picks[j]], polls[j].0, polls[j].1) by {
        assert(parts[picks[j]]->Ok_0[0] == polls[j]);
    }
    assert forall|k: int, addr: u64, future: Seq<char>|
        0 <= k < s.len() && #[trigger] is_poll(s[k], addr, future) implies picks.contains(k) by {
        assert(parts[k] == dwarf::poll_of(s[k]));
        assert(parts[k]->Ok_0.len() == 1);
    }
    picks
}

/// The polls that are known stay known, before those of the units that follow.
pub proof fn law_polls_are_listed_unit_by_unit(
    d: Seq<(Seq<char>, Seq<u8>)>,
    little_endian: bool,
    at: nat,
    known: Seq<(u64, Seq<char>)>,
)
    requires
        dwarf::polls_from(d, little_endian, at, known) is Ok,
    ensures
        known.is_prefix_of(dwarf::polls_from(d, little_endian, at, known)->Ok_0),
        at < object_file::section_named(d, ".debug_info"@, 0).len() ==> (unit::loaded(
            d,
            little_endian,
            at,
            true,
        ) matches Ok((u, length)) && dwarf::polls_of_unit(u.entries) is Ok && (known
            + dwarf::polls_of_unit(u.entries)->Ok_0).is_prefix_of(
            dwarf::polls_from(d, little_endian, at, known)->Ok_0,
        ) && (0 < length && at + length <= object_file::section_named(d, ".debug_info"@, 0).len()
            ==> dwarf::polls_from(d, little_endian, at, known) == dwarf::polls_from(
            d,
            little_endian,
            at + length as nat,
            known + dwarf::polls_of_unit(u.entries)->Ok_0,
        ))),
    decreases object_file::section_named(d, ".debug_info"@, 0).len() - at,
{
    let end = object_file::section_named(d, ".debug_info"@, 0).len();
    if at < end {
        let (u, length) = unit::loaded(d, little_endian, at, true)->Ok_0;
        let more = known + dwarf::polls_of_unit(u.entries)->Ok_0;
        assert(known.is_prefix_of(more));
        if length != 0 && at + length <= end {
            law_polls_are_listed_unit_by_unit(d, little_endian, at + length as nat, more);
        }
    }
}

/// The facts of a binary are told together or not at all, and the first that is
/// missing is named: the version, the object, the context, the debug information,
/// the segments, the polls.
pub proof fn law_the_first_missing_fact_is_named(image: Seq<u8>)
    ensures
        TokioVersion::first_in(image, 0) is None <==> dwarf::facts_of(image) == Err::<
            BinaryFactsSpec,
            _,
        >(EnumerateErrorSpec::TokioVersionUnknown),
        TokioVersion::first_in(image, 0) is Some && object_file::object_shape(image) is Ok
            && dwarf::context_offset(image) is None ==> dwarf::facts_of(image) == Err::<
            BinaryFactsSpec,
            _,
        >(EnumerateErrorSpec::ContextSymbolMissing),
        TokioVersion::first_in(image, 0) is Some && object_file::object_shape(image) is Ok
            && dwarf::context_offset(image) is Some && !object_file::has_section(
            image,
            ".debug_info"@,
        ) ==> dwarf::facts_of(image) == Err::<BinaryFactsSpec, _>(EnumerateErrorSpec::NoDebugInfo),
        dwarf::facts_of(image) matches Ok(facts) ==> {
            &&& TokioVersion::first_in(image, 0) == Some(facts.version)
            &&& dwarf::context_offset(image) == Some(facts.context_tls_offset)
            &&& dwarf::geometry_of(image) == Ok::<_, EnumerateErrorSpec>(
                (facts.tls_align, facts.tls_block_size, facts.min_load_vaddr),
            )
            &&& dwarf::polls_from(
                object_file::debug_sections_of(image),
                object_file::object_shape(image)->Ok_0.little_endian,
                0,
                Seq::empty(),
            ) == Ok::<_, Seq<char>>(facts.poll_types)
        },
{
    if dwarf::is_elf64(image) {
    }
}

} // verus!
