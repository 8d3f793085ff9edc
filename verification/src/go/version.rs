//! Go toolchain version detection, which keys the vendored offset table when
//! debug info is unavailable.
//!
//! The build version (such as `"go1.24.13"`) is embedded in the read-only data
//! of every Go binary, so a scan for the first `go1.<minor>` token finds it.
use vstd::prelude::*;

use crate::bytes;
use crate::text::{self, laws};

verus! {

/// A parsed Go toolchain version.
#[derive(Debug, Clone, Copy, PartialEq, Eq, Structural)]
pub struct GoVersion {
    /// Major version.
    pub major: u16,
    /// Minor version.
    pub minor: u16,
    /// Patch version, `0` if absent.
    pub patch: u16,
}

impl GoVersion {
    /// The version that a string writes: `go` and a dotted version, or a bare
    /// dotted version.
    pub open spec fn of_text(s: Seq<char>) -> Option<GoVersion> {
        let digits = if text::starts_with(s, "go"@) {
            s.skip(2)
        } else {
            s
        };
        match text::dotted(digits) {
            Some((major, minor, patch)) => Some(
                GoVersion { major: major as u16, minor: minor as u16, patch: patch as u16 },
            ),
            None => None,
        }
    }

    /// The version that the token at `at` writes, of no more than sixteen bytes.
    /// The token ends where its letters, digits and dots do; any bytes may follow.
    pub open spec fn at(image: Seq<u8>, at: int) -> Option<GoVersion> {
        let window = image.subrange(
            at,
            if at + 16 <= image.len() {
                at + 16
            } else {
                image.len() as int
            },
        );
        Self::of_text(bytes::token_of(window))
    }

    /// The version at the first `go1.` at or after `from` that is followed by
    /// one; the search goes on after a `go1.` that is not.
    pub open spec fn first_in(image: Seq<u8>, from: nat) -> Option<GoVersion>
        decreases image.len() + 1 - from,
    {
        match text::find(image, go_mark(), from as int) {
            Some(at) => match Self::at(image, at) {
                Some(version) => Some(version),
                None => {
                    proof {
                        text::lemma_find(image, go_mark(), from as int);
                    }
                    Self::first_in(image, (at + 4) as nat)
                },
            },
            None => None,
        }
    }

    /// Construct a version triple.
    #[must_use]
    pub fn new(major: u16, minor: u16, patch: u16) -> (r: Self)
        ensures
            r == (GoVersion { major, minor, patch }),
    {
        Self { major, minor, patch }
    }

    /// Parse `"go1.24.13"`, `"go1.24"` or `"1.24.13"`.
    #[must_use]
    pub fn parse(s: &str) -> (r: Option<Self>)
        ensures
            r == Self::of_text(s@),
    {
        let chars = text::chars_of(s);
        Self::parse_chars(chars.as_slice())
    }

    fn parse_chars(whole: &[char]) -> (r: Option<Self>)
        ensures
            r == Self::of_text(whole@),
    {
        proof {
            reveal_strlit("go");
        }
        let digits = if text::begins_with(whole, "go") {
            let end: usize = whole.len();
            let rest = vstd::slice::slice_subrange(whole, 2, end);
            assert(rest@ =~= whole@.skip(2));
            rest
        } else {
            whole
        };
        match text::parse_dotted(digits) {
            Some((major, minor, patch)) => Some(Self { major, minor, patch }),
            None => None,
        }
    }

    /// Scan a binary image for the first embedded build version and parse it.
    #[must_use]
    pub fn detect_in_bytes(image: &[u8]) -> (r: Option<Self>)
        ensures
            r == Self::first_in(image@, 0),
    {
        let mark: [u8; 4] = [103, 111, 49, 46];
        assert(mark@ =~= go_mark());
        let mut from: usize = 0;
        loop
            invariant
                mark@ == go_mark(),
                from <= image.len(),
                Self::first_in(image@, 0) == Self::first_in(image@, from as nat),
            decreases image.len() - from,
        {
            let at: usize = match bytes::find_bytes(image, mark.as_slice(), from) {
                Some(at) => at,
                None => {
                    return None;
                },
            };
            let end: usize = if image.len() - at >= 16 {
                at + 16
            } else {
                image.len()
            };
            let window = vstd::slice::slice_subrange(image, at, end);
            let token = bytes::read_token(window);
            if let Some(version) = Self::parse_chars(token.as_slice()) {
                return Some(version);
            }
            from = at + 4;
        }
    }
}

/// The bytes of `go1.`.
pub open spec fn go_mark() -> Seq<u8> {
    seq![103u8, 111u8, 49u8, 46u8]
}

/// The version stands at the first `go1.` that a version can be read at.
pub proof fn law_the_first_version_counts(image: Seq<u8>)
    ensures
        match GoVersion::first_in(image, 0) {
            Some(version) => exists|at: int| #[trigger]
                is_marked(image, at) && GoVersion::at(image, at) == Some(version) && forall|p: int|
                    0 <= p < at && #[trigger] is_marked(image, p) ==> GoVersion::at(image, p) is None,
            None => forall|p: int| #[trigger]
                is_marked(image, p) ==> GoVersion::at(image, p) is None,
        },
{
    lemma_first_in(image, 0);
}

/// The bytes of `go1.` stand at a place.
pub open spec fn is_marked(image: Seq<u8>, at: int) -> bool {
    0 <= at && at + 4 <= image.len() && image[at] == 103 && image[at + 1] == 111 && image[at + 2] == 49 && image[at + 3] == 46
}

proof fn lemma_first_in(image: Seq<u8>, from: nat)
    ensures
        match GoVersion::first_in(image, from) {
            Some(version) => exists|at: int| #[trigger]
                is_marked(image, at) && from <= at && GoVersion::at(image, at) == Some(version)
                    && forall|p: int|
                    from <= p < at && #[trigger] is_marked(image, p) ==> GoVersion::at(image, p) is None,
            None => forall|p: int|
                from <= p && #[trigger] is_marked(image, p) ==> GoVersion::at(image, p) is None,
        },
    decreases image.len() + 1 - from,
{
    text::lemma_find(image, go_mark(), from as int);
    assert forall|p: int| 0 <= p implies (#[trigger] is_marked(image, p) <==> text::occurs_at(
        image,
        go_mark(),
        p,
    )) by {
        if is_marked(image, p) {
            assert(image.subrange(p, p + 4) =~= go_mark());
        }
        if text::occurs_at(image, go_mark(), p) {
            let here = image.subrange(p, p + 4);
            assert forall|i: int| 0 <= i < 4 implies image[p + i] == #[trigger] here[i] by {}
            assert(here[0] == 103 && here[1] == 111 && here[2] == 49 && here[3] == 46);
        }
    }
    if let Some(at) = text::find(image, go_mark(), from as int) {
        assert(is_marked(image, at));
        if GoVersion::at(image, at) is None {
            lemma_first_in(image, (at + 4) as nat);
            assert forall|p: int| from <= p < at + 4 && #[trigger] is_marked(
                image,
                p,
            ) implies p == at by {
                if at < p {
                    assert(image[p] == 103);
                }
            }
            if let Some(version) = GoVersion::first_in(image, (at + 4) as nat) {
                let next = choose|q: int| #[trigger]
                    is_marked(image, q) && at + 4 <= q && GoVersion::at(image, q) == Some(version)
                        && forall|p: int|
                        at + 4 <= p < q && #[trigger] is_marked(image, p) ==> GoVersion::at(
                            image,
                            p,
                        ) is None;
                assert(is_marked(image, next));
            }
        }
    }
}

/// The version at a place is the one that the letters, digits and dots there
/// write, as far as they go and no more than sixteen of them.
pub proof fn law_a_version_ends_with_its_token(image: Seq<u8>, at: int, n: int)
    requires
        0 <= at <= at + n <= image.len(),
        0 <= n <= 16,
        forall|i: int| at <= i < at + n ==> bytes::is_token_byte(#[trigger] image[i]),
        n == 16 || at + n == image.len() || !bytes::is_token_byte(image[at + n]),
    ensures
        GoVersion::at(image, at) == GoVersion::of_text(
            Seq::new(n as nat, |i: int| image[at + i] as char),
        ),
{
    let window = image.subrange(
        at,
        if at + 16 <= image.len() {
            at + 16
        } else {
            image.len() as int
        },
    );
    assert forall|i: int| 0 <= i < n implies bytes::is_token_byte(#[trigger] window[i]) by {
        assert(window[i] == image[at + i]);
    }
    bytes::lemma_token(window, n);
    assert(Seq::new(n as nat, |i: int| window[i] as char) =~= Seq::new(
        n as nat,
        |i: int| image[at + i] as char,
    ));
}

/// A version of Go reads as it is written, with `go` in front or without; a patch
/// of 0 may be left out. Something else than a digit may follow, and no dot where
/// the patch is left out.
pub proof fn law_a_go_version_reads_as_written(v: GoVersion, tail: Seq<char>)
    requires
        tail.len() > 0 ==> !text::is_digit(tail[0], 10),
    ensures
        ({
            let two = text::decimal(v.major as nat) + seq!['.'] + text::decimal(v.minor as nat);
            let three = two + seq!['.'] + text::decimal(v.patch as nat);
            &&& GoVersion::of_text(three + tail) == Some(v)
            &&& GoVersion::of_text(seq!['g', 'o'] + three + tail) == Some(v)
            &&& v.patch == 0 && !tail.contains('.') ==> GoVersion::of_text(two + tail) == Some(v)
                && GoVersion::of_text(seq!['g', 'o'] + two + tail) == Some(v)
        }),
{
    let (a, b, c) = (v.major as nat, v.minor as nat, v.patch as nat);
    let two = text::decimal(a) + seq!['.'] + text::decimal(b);
    let three = two + seq!['.'] + text::decimal(c);
    laws::law_a_version_reads_as_written(a, b, c, tail);
    assert(three + tail =~= text::decimal(a) + seq!['.'] + text::decimal(b) + seq!['.']
        + text::decimal(c) + tail);
    reveal_strlit("go");
    text::lemma_decimal(a);
    lemma_with_go(three + tail);
    lemma_with_go(two + tail);
    assert(seq!['g', 'o'] + three + tail =~= seq!['g', 'o'] + (three + tail));
    assert(seq!['g', 'o'] + two + tail =~= seq!['g', 'o'] + (two + tail));
    assert((three + tail)[0] == text::decimal(a)[0]);
    assert((two + tail)[0] == text::decimal(a)[0]);
    lemma_without_go(three + tail);
    lemma_without_go(two + tail);
}

proof fn lemma_with_go(s: Seq<char>)
    ensures
        text::starts_with(seq!['g', 'o'] + s, "go"@),
        (seq!['g', 'o'] + s).skip(2) == s,
{
    reveal_strlit("go");
    assert((seq!['g', 'o'] + s).subrange(0, 2) =~= "go"@);
    assert((seq!['g', 'o'] + s).skip(2) =~= s);
}

proof fn lemma_without_go(s: Seq<char>)
    requires
        s.len() > 0,
        s[0] != 'g',
    ensures
        !text::starts_with(s, "go"@),
{
    reveal_strlit("go");
    if text::starts_with(s, "go"@) {
        assert(s.subrange(0, 2)[0] == 'g');
    }
}

} // verus!
