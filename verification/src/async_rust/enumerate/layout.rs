//! The vendored, version-gated model of Tokio's internal runtime layout.
//!
//! The offsets are private to Tokio, stable per minor version, and vendored for
//! the versions that were verified; any other version is declined.
use vstd::prelude::*;

use super::error::{EnumerateError, EnumerateErrorSpec};
use crate::bytes;
use crate::text::{self, laws};

verus! {

/// A parsed Tokio version.
#[derive(Debug, Clone, Copy, PartialEq, Eq, Structural)]
pub struct TokioVersion {
    /// Major version.
    pub major: u16,
    /// Minor version.
    pub minor: u16,
    /// Patch version.
    pub patch: u16,
}

/// The bytes of `tokio-1.`.
pub open spec fn tokio_mark() -> Seq<u8> {
    seq![116u8, 111u8, 107u8, 105u8, 111u8, 45u8, 49u8, 46u8]
}

/// The leading digits and dots of `s`.
pub open spec fn numeric_token(s: Seq<char>) -> Seq<char>
    decreases s.len(),
{
    if s.len() > 0 && (text::is_digit(s[0], 10) || s[0] == '.') {
        seq![s[0]] + numeric_token(s.skip(1))
    } else {
        Seq::empty()
    }
}

/// The number in one part of a version.
pub open spec fn version_part(token: Seq<char>, k: nat) -> Option<nat> {
    match text::field(token, "."@, k) {
        Some(part) => text::unsigned(part, 10, 0xffff),
        None => None,
    }
}

proof fn lemma_numeric_token(s: Seq<char>, n: int)
    requires
        0 <= n <= s.len(),
        forall|i: int| 0 <= i < n ==> text::is_digit(#[trigger] s[i], 10) || s[i] == '.',
        n < s.len() ==> !text::is_digit(s[n], 10) && s[n] != '.',
    ensures
        numeric_token(s) == s.take(n),
    decreases n,
{
    if n > 0 {
        let t = s.skip(1);
        assert forall|i: int| 0 <= i < n - 1 implies text::is_digit(#[trigger] t[i], 10) || t[i]
            == '.' by {
            assert(t[i] == s[i + 1]);
        }
        lemma_numeric_token(t, n - 1);
        assert(seq![s[0]] + t.take(n - 1) =~= s.take(n));
    } else {
        assert(s.take(0) =~= Seq::empty());
    }
}

impl TokioVersion {
    /// The version that the text begins with: three numbers, all of them there.
    pub open spec fn of_text(s: Seq<char>) -> Option<TokioVersion> {
        let token = numeric_token(s);
        match (version_part(token, 0), version_part(token, 1), version_part(token, 2)) {
            (Some(major), Some(minor), Some(patch)) => Some(
                TokioVersion { major: major as u16, minor: minor as u16, patch: patch as u16 },
            ),
            _ => None,
        }
    }

    /// The version that the token at `at` begins with, of no more than 24 bytes.
    /// Any bytes may follow it.
    pub open spec fn at(image: Seq<u8>, at: int) -> Option<TokioVersion> {
        let window = image.subrange(
            at,
            if at + 24 <= image.len() {
                at + 24
            } else {
                image.len() as int
            },
        );
        Self::of_text(bytes::token_of(window))
    }

    /// The version at the first `tokio-1.` at or after `from` that starts one.
    pub open spec fn first_in(image: Seq<u8>, from: nat) -> Option<TokioVersion>
        decreases image.len() + 1 - from,
    {
        match text::find(image, tokio_mark(), from as int) {
            Some(at) => match Self::at(image, at + 6) {
                Some(version) => Some(version),
                None => {
                    proof {
                        text::lemma_find(image, tokio_mark(), from as int);
                    }
                    Self::first_in(image, (at + 8) as nat)
                },
            },
            None => None,
        }
    }

    /// The version as `major.minor.patch`.
    pub open spec fn dotted(self) -> Seq<char> {
        text::decimal(self.major as nat) + "."@ + text::decimal(self.minor as nat) + "."@
            + text::decimal(self.patch as nat)
    }

    /// Construct a version triple.
    #[must_use]
    pub fn new(major: u16, minor: u16, patch: u16) -> (r: Self)
        ensures
            r == (TokioVersion { major, minor, patch }),
    {
        Self { major, minor, patch }
    }

    /// The version as `major.minor.patch`.
    #[must_use]
    pub fn to_text(&self) -> (r: String)
        ensures
            r@ == self.dotted(),
    {
        let mut s = String::new();
        text::push_decimal(&mut s, self.major as u64);
        s.append(".");
        text::push_decimal(&mut s, self.minor as u64);
        s.append(".");
        text::push_decimal(&mut s, self.patch as u64);
        assert(s@ =~= self.dotted());
        s
    }

    /// Find the first `tokio-<n>.<n>.<n>` in a binary's bytes: the paths of
    /// Tokio's source files are retained in a debug build.
    #[must_use]
    pub fn detect_in_bytes(image: &[u8]) -> (r: Option<Self>)
        ensures
            r == Self::first_in(image@, 0),
    {
        let mark: [u8; 8] = [116, 111, 107, 105, 111, 45, 49, 46];
        assert(mark@ =~= tokio_mark());
        let mut from: usize = 0;
        loop
            invariant
                mark@ == tokio_mark(),
                from <= image.len(),
                Self::first_in(image@, 0) == Self::first_in(image@, from as nat),
            decreases image.len() - from,
        {
            let at: usize = match bytes::find_bytes(image, mark.as_slice(), from) {
                Some(at) => at,
                None => {
                    return None;
                },
            };
            let start: usize = at + 6;
            if let Some(version) = parse_triple(image, start) {
                return Some(version);
            }
            from = at + 8;
        }
    }
}

/// Parse the version at the front of the bytes from `start` on.
fn parse_triple(image: &[u8], start: usize) -> (r: Option<TokioVersion>)
    requires
        start <= image.len(),
    ensures
        r == TokioVersion::at(image@, start as int),
{
    let end: usize = if image.len() - start >= 24 {
        start + 24
    } else {
        image.len()
    };
    let window = vstd::slice::slice_subrange(image, start, end);
    let chars = bytes::read_token(window);
    let mut n: usize = 0;
    while n < chars.len() && ((chars[n] >= '0' && chars[n] <= '9') || chars[n] == '.')
        invariant
            n <= chars.len(),
            forall|i: int|
                0 <= i < n ==> text::is_digit(#[trigger] chars@[i], 10) || chars@[i] == '.',
        decreases chars.len() - n,
    {
        n += 1;
    }
    proof {
        lemma_numeric_token(chars@, n as int);
    }
    let token = vstd::slice::slice_subrange(chars.as_slice(), 0, n);
    assert(token@ =~= chars@.take(n as int));
    let major = match parse_part(token, 0) {
        Some(v) => v,
        None => {
            return None;
        },
    };
    let minor = match parse_part(token, 1) {
        Some(v) => v,
        None => {
            return None;
        },
    };
    let patch = match parse_part(token, 2) {
        Some(v) => v,
        None => {
            return None;
        },
    };
    Some(TokioVersion { major, minor, patch })
}

fn parse_part(token: &[char], k: usize) -> (r: Option<u16>)
    ensures
        match r {
            Some(n) => version_part(token@, k as nat) == Some(n as nat),
            None => version_part(token@, k as nat) is None,
        },
{
    let dot = text::chars_of(".");
    match text::cut_field(token, dot.as_slice(), k) {
        Some(part) => match text::parse_unsigned(part, 10, 0xffff) {
            Some(n) => Some(n as u16),
            None => None,
        },
        None => None,
    }
}

/// Byte offsets of Tokio's private runtime structures, from the `CONTEXT`
/// thread-local down to each spawned task's `Header`. Each is from the start of
/// the named struct. Only the current-thread scheduler is modeled.
#[derive(Debug, Clone, Copy, PartialEq, Eq, Structural)]
pub struct TokioRuntimeLayout {
    /// `Context.current`: the cell holding the scheduler handle.
    pub context_current: u64,
    /// From the handle cell to its value: an `Arc` pointer, null when no
    /// runtime is entered.
    pub handle_cell_value: u64,
    /// From an `Arc` pointer to its data.
    pub arc_data: u64,
    /// `current_thread::Handle.shared`.
    pub handle_shared: u64,
    /// `current_thread::Shared.owned`: the `OwnedTasks`.
    pub shared_owned: u64,
    /// `OwnedTasks.list`: the `ShardedList`.
    pub owned_list: u64,
    /// `ShardedList.lists`: the boxed slice of shards (pointer, then length).
    pub sharded_lists: u64,
    /// Byte stride between consecutive shards.
    pub shard_stride: u64,
    /// From a shard's mutex to its guarded list.
    pub mutex_data: u64,
    /// `LinkedList.head`: the first task's header, or null.
    pub list_head: u64,
    /// `Header.vtable`.
    pub header_vtable: u64,
    /// `Vtable.poll`: the monomorphized poll function.
    pub vtable_poll: u64,
    /// `Vtable.trailer_offset`: from a header to its trailer.
    pub vtable_trailer_offset: u64,
    /// From a trailer to the next task's header.
    pub trailer_owned_next: u64,
    /// From a header to the task's inline future.
    pub future_offset: u64,
}

impl TokioRuntimeLayout {
    /// The vendored table: Tokio 1.44, current-thread scheduler.
    pub open spec fn table(version: TokioVersion) -> Option<TokioRuntimeLayout> {
        if version.major == 1 && version.minor == 44 {
            Some(
                TokioRuntimeLayout {
                    context_current: 8,
                    handle_cell_value: 8,
                    arc_data: 16,
                    handle_shared: 0,
                    shared_owned: 104,
                    owned_list: 0,
                    sharded_lists: 0,
                    shard_stride: 24,
                    mutex_data: 8,
                    list_head: 0,
                    header_vtable: 16,
                    vtable_poll: 0,
                    vtable_trailer_offset: 56,
                    trailer_owned_next: 8,
                    future_offset: 56,
                },
            )
        } else {
            None
        }
    }

    /// The vendored layout for a known Tokio version; any other is declined.
    pub fn vendored(version: TokioVersion) -> (r: Result<Self, EnumerateError>)
        ensures
            match r {
                Ok(layout) => Self::table(version) == Some(layout),
                Err(e) => Self::table(version) is None && e.deep_view()
                    == EnumerateErrorSpec::UnsupportedTokioVersion(version),
            },
    {
        if version.major == 1 && version.minor == 44 {
            Ok(
                Self {
                    context_current: 8,
                    handle_cell_value: 8,
                    arc_data: 16,
                    handle_shared: 0,
                    shared_owned: 104,
                    owned_list: 0,
                    sharded_lists: 0,
                    shard_stride: 24,
                    mutex_data: 8,
                    list_head: 0,
                    header_vtable: 16,
                    vtable_poll: 0,
                    vtable_trailer_offset: 56,
                    trailer_owned_next: 8,
                    future_offset: 56,
                },
            )
        } else {
            Err(EnumerateError::UnsupportedTokioVersion(version))
        }
    }
}

/// The version stands at the first `tokio-1.` that a version can be read at.
pub proof fn law_the_first_version_counts(image: Seq<u8>)
    ensures
        match TokioVersion::first_in(image, 0) {
            Some(version) => exists|at: int| #[trigger]
                is_marked(image, at) && TokioVersion::at(image, at + 6) == Some(version) && forall|p: int|
                    0 <= p < at && #[trigger] is_marked(image, p) ==> TokioVersion::at(image, p + 6) is None,
            None => forall|p: int| #[trigger]
                is_marked(image, p) ==> TokioVersion::at(image, p + 6) is None,
        },
{
    lemma_first_in(image, 0);
}

/// The bytes of `tokio-1.` stand at a place.
pub open spec fn is_marked(image: Seq<u8>, at: int) -> bool {
    0 <= at && at + 8 <= image.len() && image[at] == 116 && image[at + 1] == 111 && image[at + 2] == 107 && image[at + 3] == 105 && image[at + 4] == 111 && image[at + 5] == 45 && image[at + 6] == 49 && image[at + 7] == 46
}

proof fn lemma_first_in(image: Seq<u8>, from: nat)
    ensures
        match TokioVersion::first_in(image, from) {
            Some(version) => exists|at: int| #[trigger]
                is_marked(image, at) && from <= at && TokioVersion::at(image, at + 6) == Some(version)
                    && forall|p: int|
                    from <= p < at && #[trigger] is_marked(image, p) ==> TokioVersion::at(image, p + 6) is None,
            None => forall|p: int|
                from <= p && #[trigger] is_marked(image, p) ==> TokioVersion::at(image, p + 6) is None,
        },
    decreases image.len() + 1 - from,
{
    text::lemma_find(image, tokio_mark(), from as int);
    assert forall|p: int| 0 <= p implies (#[trigger] is_marked(image, p) <==> text::occurs_at(
        image,
        tokio_mark(),
        p,
    )) by {
        if is_marked(image, p) {
            assert(image.subrange(p, p + 8) =~= tokio_mark());
        }
        if text::occurs_at(image, tokio_mark(), p) {
            let here = image.subrange(p, p + 8);
            assert forall|i: int| 0 <= i < 8 implies image[p + i] == #[trigger] here[i] by {}
            assert(here[0] == 116 && here[1] == 111 && here[2] == 107 && here[3] == 105 && here[4] == 111 && here[5] == 45 && here[6] == 49 && here[7] == 46);
        }
    }
    if let Some(at) = text::find(image, tokio_mark(), from as int) {
        assert(is_marked(image, at));
        if TokioVersion::at(image, at + 6) is None {
            lemma_first_in(image, (at + 8) as nat);
            assert forall|p: int| from <= p < at + 8 && #[trigger] is_marked(
                image,
                p,
            ) implies p == at by {
                if at < p {
                    assert(image[p] == 116);
                }
            }
            if let Some(version) = TokioVersion::first_in(image, (at + 8) as nat) {
                let next = choose|q: int| #[trigger]
                    is_marked(image, q) && at + 8 <= q && TokioVersion::at(image, q + 6) == Some(version)
                        && forall|p: int|
                        at + 8 <= p < q && #[trigger] is_marked(image, p) ==> TokioVersion::at(
                            image,
                            p + 6,
                        ) is None;
                assert(is_marked(image, next));
            }
        }
    }
}

/// A version of Tokio reads as it is written: three numbers with dots between
/// them. Something else than a digit or a dot may follow.
pub proof fn law_a_tokio_version_reads_as_written(v: TokioVersion, tail: Seq<char>)
    requires
        tail.len() > 0 ==> !text::is_digit(tail[0], 10) && tail[0] != '.',
    ensures
        TokioVersion::of_text(
            text::decimal(v.major as nat) + seq!['.'] + text::decimal(v.minor as nat) + seq!['.']
                + text::decimal(v.patch as nat) + tail,
        ) == Some(v),
{
    let (a, b, c) = (v.major as nat, v.minor as nat, v.patch as nat);
    let (x, y, z) = (text::decimal(a), text::decimal(b), text::decimal(c));
    text::lemma_decimal(a);
    text::lemma_decimal(b);
    text::lemma_decimal(c);
    let token = x + seq!['.'] + y + seq!['.'] + z;
    assert forall|i: int| 0 <= i < token.len() implies text::is_digit(#[trigger] token[i], 10)
        || token[i] == '.' by {
        let (p, q) = (x.len() as int, y.len() as int);
        if i < p {
            assert(token[i] == x[i]);
        } else if p < i < p + 1 + q {
            assert(token[i] == y[i - p - 1]);
        } else if i > p + 1 + q {
            assert(token[i] == z[i - p - q - 2]);
        }
    }
    let n = token.len() as int;
    assert forall|i: int| 0 <= i < n implies (token + tail)[i] == #[trigger] token[i] by {}
    lemma_numeric_token(token + tail, n);
    assert((token + tail).take(n) =~= token);
    reveal_strlit(".");
    assert("."@ =~= seq!['.']);
    let rest = y + seq!['.'] + z;
    assert(token =~= x + seq!['.'] + rest);
    laws::law_marks_part_the_fields(x, '.', rest, 0);
    laws::law_marks_part_the_fields(x, '.', rest, 1);
    laws::law_marks_part_the_fields(y, '.', z, 0);
    laws::law_marks_part_the_fields(z, '.', Seq::empty(), 0);
    laws::law_a_number_reads_as_written(a, 0xffff);
    laws::law_a_number_reads_as_written(b, 0xffff);
    laws::law_a_number_reads_as_written(c, 0xffff);
}

} // verus!
