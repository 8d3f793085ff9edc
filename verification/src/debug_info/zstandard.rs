//! How much a Zstandard stream asks of its decoder. The decoder adds up, in 32
//! bits, how long each block becomes; a block whose headers allow for more is
//! refused before the decoder sees it.
use vstd::prelude::*;

verus! {

/// The number that a frame starts with.
pub const FRAME_MAGIC: u64 = 0xfd2f_b528;

/// The first of the sixteen numbers that a frame to be skipped starts with.
pub const SKIPPABLE_MAGIC: u64 = 0x184d_2a50;

/// The largest block.
pub const MAX_BLOCK: u64 = 131_072;

/// The longest match that one sequence can copy.
pub const MAX_MATCH: u64 = 131_074;

/// What a block may become at most.
pub const MAX_SUM: u64 = 0xffff_ffff;

/// The number in `n` bytes from `at` on, the lowest first.
pub open spec fn number(d: Seq<u8>, at: int, n: nat) -> nat
    decreases n,
{
    if n == 0 {
        0
    } else {
        d[at] as nat + 256 * number(d, at + 1, (n - 1) as nat)
    }
}

/// Where the literals of a block of kind "compressed" lie in it, and how many
/// they become.
#[derive(Debug, Clone, Copy, PartialEq, Eq, Structural)]
pub struct Literals {
    /// The bytes of their header.
    pub header: u64,
    /// The bytes that they take behind it.
    pub stored: u64,
    /// How many they become.
    pub count: u64,
}

/// The literals of the block in `b`, if their header is whole.
pub open spec fn literals_of(b: Seq<u8>) -> Option<Literals> {
    if b.len() == 0 {
        None
    } else {
        let kind = b[0] % 4;
        let format = (b[0] / 4) % 4;
        let header: nat = if kind < 2 {
            if format == 1 {
                2
            } else if format == 3 {
                3
            } else {
                1
            }
        } else if format < 2 {
            3
        } else {
            format as nat + 2
        };
        if b.len() < header {
            None
        } else {
            let bits = number(b, 0, header);
            if kind < 2 {
                let count = if header == 1 {
                    bits / 8
                } else {
                    bits / 16
                };
                Some(
                    Literals {
                        header: header as u64,
                        stored: if kind == 0 {
                            count as u64
                        } else {
                            1
                        },
                        count: count as u64,
                    },
                )
            } else {
                let width: nat = if header == 3 {
                    1024
                } else if header == 4 {
                    16384
                } else {
                    262144
                };
                Some(
                    Literals {
                        header: header as u64,
                        stored: (bits / 16 / width) as u64,
                        count: (bits / 16 % width) as u64,
                    },
                )
            }
        }
    }
}

/// How many sequences the block in `b` declares behind its literals, if it gets
/// that far.
pub open spec fn sequences_at(b: Seq<u8>, at: int) -> Option<u64> {
    if at >= b.len() {
        None
    } else if b[at] < 128 {
        Some(b[at] as u64)
    } else if b[at] < 255 {
        if at + 1 >= b.len() {
            None
        } else {
            Some(((b[at] - 128) * 256 + b[at + 1]) as u64)
        }
    } else if at + 2 >= b.len() {
        None
    } else {
        Some((b[at + 1] + b[at + 2] * 256 + 0x7f00) as u64)
    }
}

/// However long the matches of the block in `b` are, their sum and the literals
/// fit in 32 bits.
pub open spec fn block_fits(b: Seq<u8>) -> bool {
    match literals_of(b) {
        None => true,
        Some(l) => match sequences_at(b, l.header + l.stored) {
            None => true,
            Some(sequences) => sequences * MAX_MATCH + l.count <= MAX_SUM,
        },
    }
}

/// One block of a frame.
#[derive(Debug, Clone, Copy, PartialEq, Eq, Structural)]
pub struct Block {
    /// It is the last of its frame.
    pub last: bool,
    /// It is of kind "compressed".
    pub compressed: bool,
    /// The bytes that it takes behind its header.
    pub stored: u64,
}

/// The bytes of a block's header.
pub const BLOCK_HEADER: u64 = 3;

/// The block whose header is at `at`, if it is whole.
pub open spec fn block_at(d: Seq<u8>, at: int) -> Option<Block> {
    if at + BLOCK_HEADER > d.len() {
        None
    } else {
        let header = number(d, at, 3);
        let kind = header / 2 % 4;
        let size = header / 8;
        let stored = if kind == 1 {
            1
        } else {
            size
        };
        if kind == 3 || size > MAX_BLOCK || at + BLOCK_HEADER + stored > d.len() {
            None
        } else {
            Some(
                Block {
                    last: header % 2 == 1,
                    compressed: kind == 2,
                    stored: stored as u64,
                },
            )
        }
    }
}

/// Where the blocks from `at` on end, if they are whole.
pub open spec fn blocks_end(d: Seq<u8>, at: int) -> Option<int>
    decreases d.len() - at,
{
    match block_at(d, at) {
        None => None,
        Some(b) => if b.last {
            Some(at + BLOCK_HEADER + b.stored)
        } else {
            blocks_end(d, at + BLOCK_HEADER + b.stored)
        },
    }
}

/// Every block from `at` on fits.
pub open spec fn blocks_fit(d: Seq<u8>, at: int) -> bool
    decreases d.len() - at,
{
    match block_at(d, at) {
        None => true,
        Some(b) => {
            &&& b.compressed ==> block_fits(
                d.subrange(at + BLOCK_HEADER, at + BLOCK_HEADER + b.stored),
            )
            &&& b.last || blocks_fit(d, at + BLOCK_HEADER + b.stored)
        },
    }
}

/// The bytes between the descriptor of a frame and its first block: the
/// window's size, the dictionary's number and the contents' size.
pub open spec fn descriptor_fields(descriptor: u8) -> int {
    let single = (descriptor / 32) % 2 == 1;
    let window: int = if single {
        0
    } else {
        1
    };
    let dictionary: int = if descriptor % 4 == 3 {
        4
    } else {
        (descriptor % 4) as int
    };
    let contents: int = if descriptor / 64 == 0 {
        1 - window
    } else if descriptor / 64 == 1 {
        2
    } else if descriptor / 64 == 2 {
        4
    } else {
        8
    };
    window + dictionary + contents
}

/// The bytes behind the last block of a frame: its checksum.
pub open spec fn checksum_size(descriptor: u8) -> int {
    if (descriptor / 4) % 2 == 1 {
        4
    } else {
        0
    }
}

/// What a stream goes on with.
pub enum Part {
    /// Nothing that can be read.
    End,
    /// A frame to be skipped, up to this place.
    Skipped(nat),
    /// A frame, with its first block at this place, and so many bytes behind its
    /// last one.
    Frame(nat, nat),
}

/// What a stream goes on with at `at`.
pub open spec fn part_at(d: Seq<u8>, at: int) -> Part {
    if at < 0 || at + 5 > d.len() {
        Part::End
    } else {
        let magic = number(d, at, 4);
        if SKIPPABLE_MAGIC <= magic < SKIPPABLE_MAGIC + 16 {
            if at + 8 > d.len() {
                Part::End
            } else {
                Part::Skipped((at + 8 + number(d, at + 4, 4)) as nat)
            }
        } else if magic == FRAME_MAGIC {
            Part::Frame(
                (at + 5 + descriptor_fields(d[at + 4])) as nat,
                checksum_size(d[at + 4]) as nat,
            )
        } else {
            Part::End
        }
    }
}

/// Every block of the frames from `at` on fits. What cannot be read is left to
/// the decoder, which stops there.
pub open spec fn frames_fit(d: Seq<u8>, at: int) -> bool
    decreases d.len() - at,
{
    match part_at(d, at) {
        Part::End => true,
        Part::Skipped(next) => next > d.len() || next <= at || frames_fit(d, next as int),
        Part::Frame(first, behind) => blocks_fit(d, first as int) && match blocks_end(
            d,
            first as int,
        ) {
            None => true,
            Some(end) => end + behind > d.len() || end + behind <= at || frames_fit(
                d,
                end + behind,
            ),
        },
    }
}

/// However long the matches of any block of a stream are, what the block becomes
/// fits in 32 bits.
pub open spec fn fits(d: Seq<u8>) -> bool {
    frames_fit(d, 0)
}

proof fn lemma_number(d: Seq<u8>, at: int, n: nat)
    requires
        0 <= at,
        at + n <= d.len(),
    ensures
        n == 1 ==> number(d, at, n) == d[at],
        n == 2 ==> number(d, at, n) == d[at] + 256 * d[at + 1],
        n == 3 ==> number(d, at, n) == d[at] + 256 * (d[at + 1] + 256 * d[at + 2]),
        n == 4 ==> number(d, at, n) == d[at] + 256 * (d[at + 1] + 256 * (d[at + 2] + 256 * d[at
            + 3])),
        n == 5 ==> number(d, at, n) == d[at] + 256 * (d[at + 1] + 256 * (d[at + 2] + 256 * (d[at
            + 3] + 256 * d[at + 4]))),
{
    reveal_with_fuel(number, 6);
}

fn read_number(d: &[u8], at: usize, n: usize) -> (r: u64)
    requires
        n <= 5,
        at + n <= d@.len(),
    ensures
        r == number(d@, at as int, n as nat),
        n <= 3 ==> r < 0x100_0000,
        n <= 4 ==> r < 0x1_0000_0000,
        r < 0x100_0000_0000,
{
    proof {
        if n > 0 {
            lemma_number(d@, at as int, n as nat);
        }
    }
    if n == 0 {
        0
    } else if n == 1 {
        d[at] as u64
    } else if n == 2 {
        d[at] as u64 + 256 * d[at + 1] as u64
    } else if n == 3 {
        d[at] as u64 + 256 * (d[at + 1] as u64 + 256 * d[at + 2] as u64)
    } else if n == 4 {
        d[at] as u64 + 256 * (d[at + 1] as u64 + 256 * (d[at + 2] as u64 + 256 * d[at + 3] as u64))
    } else {
        d[at] as u64 + 256 * (d[at + 1] as u64 + 256 * (d[at + 2] as u64 + 256 * (d[at + 3] as u64
            + 256 * d[at + 4] as u64)))
    }
}

fn read_literals(b: &[u8]) -> (r: Option<Literals>)
    ensures
        r == literals_of(b@),
        r matches Some(l) ==> l.header <= 5 && l.stored < 0x100_0000 && l.count < 0x100_0000,
{
    if b.len() == 0 {
        return None;
    }
    let kind: u8 = b[0] % 4;
    let format: u8 = (b[0] / 4) % 4;
    let header: usize = if kind < 2 {
        if format == 1 {
            2
        } else if format == 3 {
            3
        } else {
            1
        }
    } else if format < 2 {
        3
    } else {
        format as usize + 2
    };
    if b.len() < header {
        return None;
    }
    let bits: u64 = read_number(b, 0, header);
    if kind < 2 {
        let count: u64 = if header == 1 {
            bits / 8
        } else {
            bits / 16
        };
        let stored: u64 = if kind == 0 {
            count
        } else {
            1
        };
        Some(Literals { header: header as u64, stored, count })
    } else {
        let width: u64 = if header == 3 {
            1024
        } else if header == 4 {
            16384
        } else {
            262144
        };
        Some(Literals { header: header as u64, stored: bits / 16 / width, count: bits / 16 % width })
    }
}

fn read_sequences(b: &[u8], at: usize) -> (r: Option<u64>)
    ensures
        r == sequences_at(b@, at as int),
        r matches Some(n) ==> n < 0x2_0000,
{
    if at >= b.len() {
        None
    } else if b[at] < 128 {
        Some(b[at] as u64)
    } else if b[at] < 255 {
        if b.len() - at < 2 {
            None
        } else {
            Some((b[at] as u64 - 128) * 256 + b[at + 1] as u64)
        }
    } else if b.len() - at < 3 {
        None
    } else {
        Some(b[at + 1] as u64 + b[at + 2] as u64 * 256 + 0x7f00)
    }
}

fn is_block_fitting(b: &[u8]) -> (r: bool)
    ensures
        r == block_fits(b@),
{
    match read_literals(b) {
        None => true,
        Some(l) => match read_sequences(b, l.header as usize + l.stored as usize) {
            None => true,
            Some(sequences) => sequences * MAX_MATCH + l.count <= MAX_SUM,
        },
    }
}

fn read_block(d: &[u8], at: usize) -> (r: Option<Block>)
    requires
        at <= d@.len(),
    ensures
        r == block_at(d@, at as int),
        r matches Some(b) ==> at + BLOCK_HEADER + b.stored <= d@.len(),
{
    if d.len() - at < 3 {
        return None;
    }
    let header: u64 = read_number(d, at, 3);
    let kind: u64 = header / 2 % 4;
    let size: u64 = header / 8;
    let stored: usize = if kind == 1 {
        1
    } else {
        size as usize
    };
    if kind == 3 || size > MAX_BLOCK || d.len() - at - 3 < stored {
        None
    } else {
        Some(Block { last: header % 2 == 1, compressed: kind == 2, stored: stored as u64 })
    }
}

/// Check the blocks from `at` on; and where they end, if they are whole.
fn check_blocks(d: &[u8], at: usize) -> (r: (bool, Option<usize>))
    ensures
        r.0 == blocks_fit(d@, at as int),
        r.0 ==> match r.1 {
            Some(end) => blocks_end(d@, at as int) == Some(end as int) && at < end <= d@.len(),
            None => blocks_end(d@, at as int) is None,
        },
{
    let len: usize = d.len();
    if at > len {
        return (true, None);
    }
    let mut from: usize = at;
    loop
        invariant
            at <= from <= len,
            len == d@.len(),
            blocks_fit(d@, at as int) == blocks_fit(d@, from as int),
            blocks_end(d@, at as int) == blocks_end(d@, from as int),
        decreases d@.len() - from,
    {
        let b = match read_block(d, from) {
            None => return (true, None),
            Some(b) => b,
        };
        let start: usize = from + 3;
        let end: usize = start + b.stored as usize;
        if b.compressed && !is_block_fitting(vstd::slice::slice_subrange(d, start, end)) {
            return (false, None);
        }
        if b.last {
            return (true, Some(end));
        }
        from = end;
    }
}

/// Whether a stream asks for no block that is too long for its decoder.
#[must_use]
pub fn is_fitting(d: &[u8]) -> (r: bool)
    ensures
        r == fits(d@),
{
    let mut at: usize = 0;
    while d.len() - at >= 5
        invariant
            at <= d@.len(),
            fits(d@) == frames_fit(d@, at as int),
        decreases d@.len() - at,
    {
        let magic: u64 = read_number(d, at, 4);
        if SKIPPABLE_MAGIC <= magic && magic < SKIPPABLE_MAGIC + 16 {
            if d.len() - at < 8 {
                return true;
            }
            let skipped: u64 = read_number(d, at + 4, 4);
            if skipped > (d.len() - at - 8) as u64 {
                return true;
            }
            at = at + 8 + skipped as usize;
        } else if magic == FRAME_MAGIC {
            let fields: usize = count_fields(d[at + 4]);
            if d.len() - at - 5 < fields {
                return true;
            }
            let (fit, end) = check_blocks(d, at + 5 + fields);
            if !fit {
                return false;
            }
            let end: usize = match end {
                None => return true,
                Some(end) => end,
            };
            let behind: usize = count_checksum(d[at + 4]);
            if d.len() - end < behind {
                return true;
            }
            at = end + behind;
        } else {
            return true;
        }
    }
    true
}

fn count_fields(descriptor: u8) -> (r: usize)
    ensures
        r == descriptor_fields(descriptor),
        r <= 13,
{
    let window: usize = if (descriptor / 32) % 2 == 1 {
        0
    } else {
        1
    };
    let dictionary: usize = if descriptor % 4 == 3 {
        4
    } else {
        (descriptor % 4) as usize
    };
    let contents: usize = if descriptor / 64 == 0 {
        1 - window
    } else if descriptor / 64 == 1 {
        2
    } else if descriptor / 64 == 2 {
        4
    } else {
        8
    };
    window + dictionary + contents
}

fn count_checksum(descriptor: u8) -> (r: usize)
    ensures
        r == checksum_size(descriptor),
        r <= 4,
{
    if (descriptor / 4) % 2 == 1 {
        4
    } else {
        0
    }
}

} // verus!
