//! What a live, stopped Linux process tells of itself: its threads, the address
//! its executable is loaded at, and its unwound stacks.
use vstd::prelude::*;

use crate::model::{SourceLocation, SourceLocationSpec};
use crate::process_view::{PhysicalFrame, PhysicalFrameSpec};
use crate::text;
use crate::text::parts;

verus! {

// ---------------------------------------------------------------------------
// Threads
// ---------------------------------------------------------------------------

/// The numbers among the first `n` names.
pub open spec fn numbers_among(names: Seq<Seq<char>>, n: int) -> Seq<i32>
    decreases n,
{
    if n <= 0 {
        Seq::empty()
    } else {
        let before = numbers_among(names, n - 1);
        match parts::signed(names[n - 1]) {
            Some(tid) => before.push(tid),
            None => before,
        }
    }
}

/// Numbers in ascending order.
pub open spec fn is_ascending(s: Seq<i32>) -> bool {
    forall|i: int, j: int| 0 <= i < j < s.len() ==> (#[trigger] s[i]) <= (#[trigger] s[j])
}

fn put(ids: &mut Vec<i32>, id: i32)
    requires
        is_ascending(old(ids)@),
    ensures
        is_ascending(final(ids)@),
        final(ids)@.to_multiset() == old(ids)@.to_multiset().insert(id),
{
    let ghost was = ids@;
    let mut at: usize = ids.len();
    while at > 0 && ids[at - 1] > id
        invariant
            at <= ids.len(),
            ids@ == was,
            forall|j: int| at <= j < was.len() ==> (#[trigger] was[j]) > id,
        decreases at,
    {
        at -= 1;
    }
    ids.insert(at, id);
    proof {
        let s = ids@;
        assert(s.remove(at as int) =~= was);
        s.to_multiset_ensures();
        assert(s[at as int] == id);
        assert(s.contains(id));
        assert(s.to_multiset().remove(id).insert(id) =~= s.to_multiset());
        assert forall|i: int, j: int| 0 <= i < j < s.len() implies (#[trigger] s[i]) <= (
        #[trigger] s[j]) by {
            if i < at {
                assert(s[i] == was[i]);
                if at > 0 && i < at - 1 {
                    assert(was[i] <= was[at - 1]);
                }
            }
            if j > at {
                assert(s[j] == was[j - 1]);
            }
            if i > at {
                assert(s[i] == was[i - 1]);
            }
            if j < at {
                assert(s[j] == was[j]);
            }
        }
    }
}

/// The thread ids among the names in a process's task directory, in ascending
/// order.
pub fn task_ids(names: &Vec<String>) -> (r: Vec<i32>)
    ensures
        is_ascending(r@),
        r@.to_multiset() == numbers_among(
            names.deep_view(),
            names@.len() as int,
        ).to_multiset(),
{
    let ghost all = names.deep_view();
    let mut ids: Vec<i32> = Vec::new();
    let mut i: usize = 0;
    while i < names.len()
        invariant
            i <= names.len(),
            all == names.deep_view(),
            is_ascending(ids@),
            ids@.to_multiset() == numbers_among(all, i as int).to_multiset(),
        decreases names.len() - i,
    {
        let chars = text::chars_of(names[i].as_str());
        assert(all[i as int] == chars@);
        if let Some(tid) = parts::parse_signed(chars.as_slice()) {
            proof {
                numbers_among(all, i as int).to_multiset_ensures();
            }
            put(&mut ids, tid);
        }
        i += 1;
    }
    ids
}

/// The name that a thread's `comm` file holds: its contents without trailing
/// white space.
pub fn read_comm(raw: &str) -> (r: String)
    ensures
        r@ == text::trim_end(raw@),
{
    let chars = text::chars_of(raw);
    text::text_of(text::trimmed_end(chars.as_slice()))
}

// ---------------------------------------------------------------------------
// The executable
// ---------------------------------------------------------------------------

/// `s` without its leading spaces.
pub open spec fn after_spaces(s: Seq<char>) -> Seq<char>
    decreases s.len(),
{
    if s.len() > 0 && s[0] == ' ' {
        after_spaces(s.skip(1))
    } else {
        s
    }
}

/// What follows the field that `s` starts with, and the spaces after it.
pub open spec fn after_field(s: Seq<char>) -> Seq<char>
    decreases s.len(),
{
    if s.len() > 0 && s[0] != ' ' {
        after_field(s.skip(1))
    } else {
        after_spaces(s)
    }
}

/// What follows the first `n` fields of `s`.
pub open spec fn after_fields(s: Seq<char>, n: nat) -> Seq<char>
    decreases n,
{
    if n == 0 {
        s
    } else {
        after_field(after_fields(s, (n - 1) as nat))
    }
}

/// The path in a line of a process's memory map: all that follows the addresses,
/// the permissions, the offset, the device and the inode. It may hold spaces.
pub open spec fn mapped_path(line: Seq<char>) -> Seq<char> {
    after_fields(line, 5)
}

/// The address that a line of a process's memory map starts with, if the line
/// maps the executable's file.
pub open spec fn mapped_at(line: Seq<char>, exe: Seq<char>) -> Option<nat> {
    if mapped_path(line) == exe {
        text::unsigned(text::before(line, "-"@), 16, u64::MAX as nat)
    } else {
        None
    }
}

/// The least address among the first `n` lines.
pub open spec fn least_mapped(lines: Seq<Seq<char>>, exe: Seq<char>, n: int) -> Option<nat>
    decreases n,
{
    if n <= 0 {
        None
    } else {
        match (least_mapped(lines, exe, n - 1), mapped_at(lines[n - 1], exe)) {
            (Some(a), Some(b)) => Some(
                if b < a {
                    b
                } else {
                    a
                },
            ),
            (Some(a), None) => Some(a),
            (None, b) => b,
        }
    }
}

/// Where the executable is loaded: the least address that a process's memory map
/// gives for its path.
pub open spec fn base_in(maps: Seq<char>, exe: Seq<char>) -> Option<nat> {
    let lines = parts::lines_of(maps);
    least_mapped(lines, exe, lines.len() as int)
}

fn skip_spaces(s: &[char]) -> (r: &[char])
    ensures
        r@ == after_spaces(s@),
{
    let len: usize = s.len();
    let mut at: usize = 0;
    assert(s@.skip(0) =~= s@);
    while at < len && s[at] == ' '
        invariant
            at <= len,
            len == s@.len(),
            after_spaces(s@) == after_spaces(s@.skip(at as int)),
        decreases len - at,
    {
        assert(s@.skip(at as int).skip(1) =~= s@.skip(at + 1));
        at += 1;
    }
    let rest = vstd::slice::slice_subrange(s, at, len);
    assert(rest@ =~= s@.skip(at as int));
    rest
}

fn skip_field(s: &[char]) -> (r: &[char])
    ensures
        r@ == after_field(s@),
{
    let len: usize = s.len();
    let mut at: usize = 0;
    assert(s@.skip(0) =~= s@);
    while at < len && s[at] != ' '
        invariant
            at <= len,
            len == s@.len(),
            after_field(s@) == after_field(s@.skip(at as int)),
        decreases len - at,
    {
        assert(s@.skip(at as int).skip(1) =~= s@.skip(at + 1));
        at += 1;
    }
    let rest = vstd::slice::slice_subrange(s, at, len);
    assert(rest@ =~= s@.skip(at as int));
    skip_spaces(rest)
}

fn path_field(line: &[char]) -> (r: &[char])
    ensures
        r@ == mapped_path(line@),
{
    let mut rest: &[char] = line;
    let mut n: usize = 0;
    while n < 5
        invariant
            n <= 5,
            rest@ == after_fields(line@, n as nat),
        decreases 5 - n,
    {
        rest = skip_field(rest);
        n += 1;
    }
    rest
}

/// Where the executable is loaded, by the process's memory map and the
/// executable's path.
pub fn executable_base(maps: &str, exe: &str) -> (r: Option<u64>)
    ensures
        match r {
            Some(base) => base_in(maps@, exe@) == Some(base as nat),
            None => base_in(maps@, exe@) is None,
        },
{
    let chars = text::chars_of(maps);
    let path = text::chars_of(exe);
    let dash = text::chars_of("-");
    let lines = parts::lines(chars.as_slice());
    let ghost all = lines.deep_view();
    let mut least: Option<u64> = None;
    let mut i: usize = 0;
    while i < lines.len()
        invariant
            i <= lines.len(),
            all == lines.deep_view(),
            path@ == exe@,
            dash@ == "-"@,
            match least {
                Some(base) => least_mapped(all, exe@, i as int) == Some(base as nat),
                None => least_mapped(all, exe@, i as int) is None,
            },
        decreases lines.len() - i,
    {
        let line = lines[i].as_slice();
        assert(all[i as int] =~= line@);
        if text::same_chars(path_field(line), path.as_slice()) {
            let head = text::cut_before(line, dash.as_slice());
            if let Some(at) = text::parse_unsigned(head, 16, 0xffff_ffff_ffff_ffff) {
                let smaller = match least {
                    Some(base) => at < base,
                    None => true,
                };
                if smaller {
                    least = Some(at);
                }
            }
        }
        i += 1;
    }
    least
}

/// Every mapping of the executable starts at or above where it is loaded, and
/// one starts there.
pub proof fn law_the_base_is_the_least_mapping(lines: Seq<Seq<char>>, exe: Seq<char>, n: int)
    requires
        0 <= n <= lines.len(),
    ensures
        match least_mapped(lines, exe, n) {
            Some(base) => (exists|i: int|
                0 <= i < n && #[trigger] mapped_at(lines[i], exe) == Some(base)) && forall|i: int|
                0 <= i < n ==> (#[trigger] mapped_at(lines[i], exe) matches Some(a) ==> base <= a),
            None => forall|i: int| 0 <= i < n ==> #[trigger] mapped_at(lines[i], exe) is None,
        },
    decreases n,
{
    if n > 0 {
        law_the_base_is_the_least_mapping(lines, exe, n - 1);
        let here = mapped_at(lines[n - 1], exe);
        if let Some(a) = least_mapped(lines, exe, n - 1) {
            let k = choose|i: int|
                0 <= i < n - 1 && #[trigger] mapped_at(lines[i], exe) == Some(a);
            assert(mapped_at(lines[k], exe) == Some(a));
        }
    }
}

// ---------------------------------------------------------------------------
// Stacks
// ---------------------------------------------------------------------------

/// One frame as an unwinder of a live process gives it.
#[derive(Debug, PartialEq, Eq)]
pub struct UnwoundFrame {
    /// The address to look up.
    pub address: u64,
    /// The function, if known.
    pub function: Option<String>,
    /// The source file, if known.
    pub file: Option<String>,
    /// The line, if known.
    pub line: Option<u32>,
}

/// The value of an `UnwoundFrame`.
#[verifier::ext_equal]
pub struct UnwoundFrameSpec {
    pub address: u64,
    pub function: Option<Seq<char>>,
    pub file: Option<Seq<char>>,
    pub line: Option<u32>,
}

impl DeepView for UnwoundFrame {
    type V = UnwoundFrameSpec;

    open spec fn deep_view(&self) -> UnwoundFrameSpec {
        UnwoundFrameSpec {
            address: self.address,
            function: self.function.deep_view(),
            file: self.file.deep_view(),
            line: self.line,
        }
    }
}

/// The frame at `i` as a view shows it. Only the innermost frame's stack pointer
/// is known; the others get 0 rather than a guess.
pub open spec fn shown_frame(f: UnwoundFrameSpec, i: int, leaf_sp: u64) -> PhysicalFrameSpec {
    PhysicalFrameSpec {
        pc: f.address,
        sp: if i == 0 {
            leaf_sp
        } else {
            0
        },
        function_name: f.function,
        location: match f.file {
            Some(path) => Some(
                SourceLocationSpec {
                    path,
                    line: match f.line {
                        Some(line) => line,
                        None => 0,
                    },
                    column: 0,
                },
            ),
            None => None,
        },
    }
}

/// An unwound stack as a view shows it.
pub fn physical_frames(frames: &Vec<UnwoundFrame>, leaf_sp: u64) -> (r: Vec<PhysicalFrame>)
    ensures
        r.deep_view() == Seq::new(
            frames@.len(),
            |i: int| shown_frame(frames.deep_view()[i], i, leaf_sp),
        ),
{
    let mut out: Vec<PhysicalFrame> = Vec::new();
    let mut i: usize = 0;
    while i < frames.len()
        invariant
            i <= frames.len(),
            out.len() == i,
            forall|j: int|
                0 <= j < i ==> (#[trigger] out@[j]).deep_view() == shown_frame(
                    frames.deep_view()[j],
                    j,
                    leaf_sp,
                ),
        decreases frames.len() - i,
    {
        let f = &frames[i];
        let location = match &f.file {
            Some(path) => Some(
                SourceLocation {
                    path: path.clone(),
                    line: match f.line {
                        Some(line) => line,
                        None => 0,
                    },
                    column: 0,
                },
            ),
            None => None,
        };
        out.push(
            PhysicalFrame {
                pc: f.address,
                sp: if i == 0 {
                    leaf_sp
                } else {
                    0
                },
                function_name: text::clone_optional(&f.function),
                location,
            },
        );
        i += 1;
    }
    assert(out.deep_view() =~= Seq::new(
        frames@.len(),
        |i: int| shown_frame(frames.deep_view()[i], i, leaf_sp),
    ));
    out
}

/// The ids are those of the names at `picks`, in their order, and no other of
/// the first `n` names writes a number.
pub open spec fn are_numbers_of(ids: Seq<i32>, names: Seq<Seq<char>>, n: int, picks: Seq<int>) -> bool {
    &&& ids.len() == picks.len()
    &&& forall|j: int|
        0 <= j < picks.len() ==> 0 <= #[trigger] picks[j] < n && parts::signed(names[picks[j]])
            == Some(ids[j])
    &&& forall|j: int, k: int|
        0 <= j < k < picks.len() ==> (#[trigger] picks[j]) < (#[trigger] picks[k])
    &&& forall|i: int|
        0 <= i < n && parts::signed(#[trigger] names[i]) is Some ==> picks.contains(i)
}

/// The thread ids among names are those of the names that write a number: each
/// once, in the order of the names, and none besides.
pub proof fn law_every_number_is_a_thread(names: Seq<Seq<char>>, n: int) -> (picks: Seq<int>)
    requires
        0 <= n <= names.len(),
    ensures
        are_numbers_of(numbers_among(names, n), names, n, picks),
    decreases n,
{
    if n == 0 {
        Seq::empty()
    } else {
        let before = law_every_number_is_a_thread(names, n - 1);
        let picks = if parts::signed(names[n - 1]) is Some {
            before.push(n - 1)
        } else {
            before
        };
        assert forall|i: int|
            0 <= i < n && parts::signed(#[trigger] names[i]) is Some implies picks.contains(i) by {
            if i < n - 1 {
                let k = choose|k: int| 0 <= k < before.len() && before[k] == i;
                assert(picks[k] == i);
            } else {
                assert(picks.last() == i);
            }
        }
        picks
    }
}

/// A line of a memory map written with one space after each of its five fields
/// gives the path, spaces in it kept; the mapping starts at the number before
/// the dash.
pub proof fn law_a_line_ends_with_its_path(fields: Seq<Seq<char>>, path: Seq<char>)
    requires
        fields.len() == 5,
        forall|i: int|
            0 <= i < 5 ==> (#[trigger] fields[i]).len() > 0 && !fields[i].contains(' '),
        path.len() > 0 ==> path[0] != ' ',
    ensures
        mapped_path(
            fields[0] + seq![' '] + fields[1] + seq![' '] + fields[2] + seq![' '] + fields[3]
                + seq![' '] + fields[4] + seq![' '] + path,
        ) == path,
{
    let rest4 = fields[4] + seq![' '] + path;
    let rest3 = fields[3] + seq![' '] + rest4;
    let rest2 = fields[2] + seq![' '] + rest3;
    let rest1 = fields[1] + seq![' '] + rest2;
    let line = fields[0] + seq![' '] + rest1;
    assert(line =~= fields[0] + seq![' '] + fields[1] + seq![' '] + fields[2] + seq![' ']
        + fields[3] + seq![' '] + fields[4] + seq![' '] + path);
    assert(rest4[0] == fields[4][0] && rest3[0] == fields[3][0] && rest2[0] == fields[2][0]
        && rest1[0] == fields[1][0]);
    lemma_after_one_field(fields[0], rest1);
    lemma_after_one_field(fields[1], rest2);
    lemma_after_one_field(fields[2], rest3);
    lemma_after_one_field(fields[3], rest4);
    lemma_after_one_field(fields[4], path);
    reveal_with_fuel(after_fields, 6);
}

proof fn lemma_after_one_field(field: Seq<char>, rest: Seq<char>)
    requires
        !field.contains(' '),
        rest.len() > 0 ==> rest[0] != ' ',
    ensures
        after_field(field + seq![' '] + rest) == rest,
    decreases field.len(),
{
    let s = field + seq![' '] + rest;
    if field.len() == 0 {
        assert(s[0] == ' ');
        assert(s.skip(1) =~= rest);
        assert(after_spaces(rest) == rest);
    } else {
        assert(field.contains(field[0]));
        assert(s[0] == field[0]);
        let shorter = field.skip(1);
        assert forall|c: char| shorter.contains(c) implies field.contains(c) by {
            let k = choose|k: int| 0 <= k < shorter.len() && shorter[k] == c;
            assert(field[k + 1] == c);
        }
        lemma_after_one_field(shorter, rest);
        assert(s.skip(1) =~= shorter + seq![' '] + rest);
    }
}

/// A frame is shown at the address and under the name that the unwinder gives,
/// with its line in its file, 0 where the line is unknown; the innermost one
/// with the stack pointer, every other with 0.
pub proof fn law_a_frame_is_shown_as_unwound(f: UnwoundFrameSpec, i: int, leaf_sp: u64)
    ensures
        shown_frame(f, i, leaf_sp).pc == f.address,
        shown_frame(f, i, leaf_sp).function_name == f.function,
        i == 0 ==> shown_frame(f, i, leaf_sp).sp == leaf_sp,
        i != 0 ==> shown_frame(f, i, leaf_sp).sp == 0,
        shown_frame(f, i, leaf_sp).location is Some <==> f.file is Some,
        shown_frame(f, i, leaf_sp).location matches Some(at) ==> at.path == f.file->Some_0
            && at.column == 0 && (f.line matches Some(line) ==> at.line == line) && (f.line is None
            ==> at.line == 0),
{
}

} // verus!
