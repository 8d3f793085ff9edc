//! The wire format of the raw syscall records that pass from the kernel to the
//! user side through a ring buffer.
use vstd::prelude::*;

use crate::bytes;

verus! {

/// The kind of a syscall-entry record.
pub const KIND_ENTER: u8 = 0;

/// The kind of a syscall-exit record.
pub const KIND_EXIT: u8 = 1;

/// Size of an encoded record in bytes.
pub const RAW_EVENT_LEN: usize = 84;

/// One syscall entry or exit, as observed in the kernel.
#[derive(Debug, Clone, Copy, PartialEq, Eq)]
pub struct RawSyscallEvent {
    /// `KIND_ENTER` or `KIND_EXIT`.
    pub kind: u8,
    /// The process that the record was captured from.
    pub tgid: u32,
    /// The thread that the record was captured from.
    pub tid: u32,
    /// Monotonic kernel time in nanoseconds.
    pub timestamp_ns: u64,
    /// Architecture-specific syscall number.
    pub nr: u64,
    /// The six raw arguments of an entry; all zero of an exit.
    pub args: [u64; 6],
    /// The return value of an exit; zero of an entry.
    pub ret: i64,
}

/// Words, eight bytes each.
pub open spec fn words(s: Seq<u64>) -> Seq<u8>
    decreases s.len(),
{
    if s.len() == 0 {
        Seq::empty()
    } else {
        words(s.drop_last()) + bytes::le_bytes(s.last() as nat, 8)
    }
}

/// The number of `n` bytes at `at`.
pub open spec fn field(b: Seq<u8>, at: int, n: int) -> nat {
    bytes::le(b.subrange(at, at + n))
}

/// The words from `at` on, as many as six.
pub open spec fn argument_words(b: Seq<u8>, at: int) -> Seq<u64> {
    Seq::new(6, |i: int| field(b, at + 8 * i, 8) as u64)
}

impl RawSyscallEvent {
    /// The record as bytes: `kind | pad[3] | tgid | tid | timestamp_ns | nr |
    /// args[6] | ret`, all integers little-endian.
    pub open spec fn wire(self) -> Seq<u8> {
        seq![self.kind, 0u8, 0u8, 0u8] + bytes::le_bytes(self.tgid as nat, 4) + bytes::le_bytes(
            self.tid as nat,
            4,
        ) + bytes::le_bytes(self.timestamp_ns as nat, 8) + bytes::le_bytes(self.nr as nat, 8)
            + words(self.args@) + bytes::le_bytes((self.ret as u64) as nat, 8)
    }

    /// The event is the one that the leading bytes of `b` write.
    pub open spec fn is_read_from(self, b: Seq<u8>) -> bool {
        &&& self.kind == b[0]
        &&& self.tgid == field(b, 4, 4)
        &&& self.tid == field(b, 8, 4)
        &&& self.timestamp_ns == field(b, 12, 8)
        &&& self.nr == field(b, 20, 8)
        &&& self.args@ == argument_words(b, 28)
        &&& self.ret as u64 == field(b, 76, 8)
    }

    /// Encode to the fixed-size wire layout.
    #[must_use]
    pub fn encode(&self) -> (r: [u8; RAW_EVENT_LEN])
        ensures
            r@ == self.wire(),
    {
        let mut wire: Vec<u8> = Vec::new();
        wire.push(self.kind);
        wire.push(0);
        wire.push(0);
        wire.push(0);
        assert(wire@ =~= seq![self.kind, 0u8, 0u8, 0u8]);
        bytes::push_le(&mut wire, self.tgid as u64, 4);
        bytes::push_le(&mut wire, self.tid as u64, 4);
        bytes::push_le(&mut wire, self.timestamp_ns, 8);
        bytes::push_le(&mut wire, self.nr, 8);
        let ghost head = wire@;
        let mut i: usize = 0;
        assert(self.args@.take(0) =~= Seq::empty());
        assert(head + words(self.args@.take(0)) =~= head);
        while i < 6
            invariant
                i <= 6,
                wire@ == head + words(self.args@.take(i as int)),
            decreases 6 - i,
        {
            let ghost before = wire@;
            bytes::push_le(&mut wire, self.args[i], 8);
            proof {
                let t = self.args@.take(i + 1);
                assert(t.drop_last() =~= self.args@.take(i as int));
                assert(t.last() == self.args@[i as int]);
                assert(wire@ =~= head + words(t));
            }
            i += 1;
        }
        assert(self.args@.take(6) =~= self.args@);
        bytes::push_le(&mut wire, self.ret as u64, 8);
        assert(wire@ =~= self.wire());
        proof {
            lemma_wire_len(*self);
        }
        let mut out: [u8; RAW_EVENT_LEN] = [0u8; 84];
        let mut k: usize = 0;
        while k < 84
            invariant
                k <= 84,
                wire@.len() == 84,
                forall|j: int| 0 <= j < k ==> out@[j] == wire@[j],
            decreases 84 - k,
        {
            out[k] = wire[k];
            k += 1;
        }
        assert(out@ =~= wire@);
        out
    }

    /// Decode the leading bytes of a buffer; `None` for one that is too short.
    /// What follows the record is ignored.
    #[must_use]
    pub fn decode(buf: &[u8]) -> (r: Option<Self>)
        ensures
            match r {
                Some(e) => buf@.len() >= RAW_EVENT_LEN && e.is_read_from(buf@),
                None => buf@.len() < RAW_EVENT_LEN,
            },
    {
        if buf.len() < RAW_EVENT_LEN {
            return None;
        }
        proof {
            bytes::lemma_pow256_values();
            bytes::lemma_le_bound(buf@.subrange(4, 8));
            bytes::lemma_le_bound(buf@.subrange(8, 12));
        }
        let tgid: u32 = read(buf, 4, 4) as u32;
        let tid: u32 = read(buf, 8, 4) as u32;
        let timestamp_ns: u64 = read(buf, 12, 8);
        let nr: u64 = read(buf, 20, 8);
        let args: [u64; 6] = [
            read(buf, 28, 8),
            read(buf, 36, 8),
            read(buf, 44, 8),
            read(buf, 52, 8),
            read(buf, 60, 8),
            read(buf, 68, 8),
        ];
        let word: u64 = read(buf, 76, 8);
        let ret: i64 = word as i64;
        proof {
            assert(args@ =~= argument_words(buf@, 28));
            assert((word as i64) as u64 == word) by (bit_vector);
        }
        Some(RawSyscallEvent { kind: buf[0], tgid, tid, timestamp_ns, nr, args, ret })
    }
}

fn read(buf: &[u8], at: usize, n: usize) -> (r: u64)
    requires
        at + n <= buf@.len(),
        n <= 8,
    ensures
        r == field(buf@, at as int, n as int),
{
    assert(at + n <= buf.len());
    bytes::read_le(vstd::slice::slice_subrange(buf, at, at + n))
}

proof fn lemma_words_len(s: Seq<u64>)
    ensures
        words(s).len() == 8 * s.len(),
    decreases s.len(),
{
    if s.len() > 0 {
        lemma_words_len(s.drop_last());
        bytes::lemma_le_bytes_len(s.last() as nat, 8);
    }
}

proof fn lemma_wire_len(e: RawSyscallEvent)
    ensures
        e.wire().len() == RAW_EVENT_LEN,
{
    bytes::lemma_le_bytes_len(e.tgid as nat, 4);
    bytes::lemma_le_bytes_len(e.tid as nat, 4);
    bytes::lemma_le_bytes_len(e.timestamp_ns as nat, 8);
    bytes::lemma_le_bytes_len(e.nr as nat, 8);
    bytes::lemma_le_bytes_len((e.ret as u64) as nat, 8);
    lemma_words_len(e.args@);
}

proof fn lemma_word_at(s: Seq<u64>, i: int)
    requires
        0 <= i < s.len(),
    ensures
        words(s).len() == 8 * s.len(),
        words(s).subrange(8 * i, 8 * i + 8) == bytes::le_bytes(s[i] as nat, 8),
    decreases s.len(),
{
    lemma_words_len(s);
    let head = words(s.drop_last());
    let tail = bytes::le_bytes(s.last() as nat, 8);
    lemma_words_len(s.drop_last());
    bytes::lemma_le_bytes_len(s.last() as nat, 8);
    if i == s.len() - 1 {
        assert(words(s).subrange(8 * i, 8 * i + 8) =~= tail);
    } else {
        lemma_word_at(s.drop_last(), i);
        assert(words(s).subrange(8 * i, 8 * i + 8) =~= head.subrange(8 * i, 8 * i + 8));
    }
}

/// Reading gives back what was written: an encoded record, with whatever
/// follows it, is long enough to be decoded, and what is decoded is the record.
pub proof fn law_decoding_undoes_encoding(
    e: RawSyscallEvent,
    rest: Seq<u8>,
    read_back: RawSyscallEvent,
)
    requires
        read_back.is_read_from(e.wire() + rest),
    ensures
        (e.wire() + rest).len() >= RAW_EVENT_LEN,
        read_back.kind == e.kind,
        read_back.tgid == e.tgid,
        read_back.tid == e.tid,
        read_back.timestamp_ns == e.timestamp_ns,
        read_back.nr == e.nr,
        read_back.args@ == e.args@,
        read_back.ret == e.ret,
{
    lemma_wire_len(e);
    lemma_wire_fields(e, rest);
    let (a, b) = (read_back.ret, e.ret);
    assert(a as u64 == b as u64 ==> a == b) by (bit_vector);
    assert(read_back.args@ =~= e.args@);
}

/// What is encoded is what is decoded: the record itself can be read from its
/// encoding, with whatever follows.
pub proof fn law_encoding_can_be_decoded(e: RawSyscallEvent, rest: Seq<u8>)
    ensures
        (e.wire() + rest).len() >= RAW_EVENT_LEN,
        e.is_read_from(e.wire() + rest),
{
    lemma_wire_len(e);
    lemma_wire_fields(e, rest);
    assert(e.args@ =~= argument_words(e.wire() + rest, 28));
}

proof fn lemma_wire_fields(e: RawSyscallEvent, rest: Seq<u8>)
    ensures
        (e.wire() + rest)[0] == e.kind,
        field(e.wire() + rest, 4, 4) == e.tgid,
        field(e.wire() + rest, 8, 4) == e.tid,
        field(e.wire() + rest, 12, 8) == e.timestamp_ns,
        field(e.wire() + rest, 20, 8) == e.nr,
        argument_words(e.wire() + rest, 28) == e.args@,
        field(e.wire() + rest, 76, 8) == e.ret as u64,
{
    lemma_wire_len(e);
    let b = e.wire() + rest;
    bytes::lemma_pow256_values();
    bytes::lemma_le_bytes_len(e.tgid as nat, 4);
    bytes::lemma_le_bytes_len(e.tid as nat, 4);
    bytes::lemma_le_bytes_len(e.timestamp_ns as nat, 8);
    bytes::lemma_le_bytes_len(e.nr as nat, 8);
    bytes::lemma_le_bytes_len((e.ret as u64) as nat, 8);
    lemma_words_len(e.args@);
    assert(b.subrange(4, 8) =~= bytes::le_bytes(e.tgid as nat, 4));
    assert(b.subrange(8, 12) =~= bytes::le_bytes(e.tid as nat, 4));
    assert(b.subrange(12, 20) =~= bytes::le_bytes(e.timestamp_ns as nat, 8));
    assert(b.subrange(20, 28) =~= bytes::le_bytes(e.nr as nat, 8));
    assert(b.subrange(28, 76) =~= words(e.args@));
    assert(b.subrange(76, 84) =~= bytes::le_bytes((e.ret as u64) as nat, 8));
    bytes::lemma_le_round_trip(e.tgid as nat, 4);
    bytes::lemma_le_round_trip(e.tid as nat, 4);
    bytes::lemma_le_round_trip(e.timestamp_ns as nat, 8);
    bytes::lemma_le_round_trip(e.nr as nat, 8);
    bytes::lemma_le_round_trip((e.ret as u64) as nat, 8);
    assert forall|i: int| 0 <= i < 6 implies argument_words(b, 28)[i] == e.args@[i] by {
        lemma_word_at(e.args@, i);
        assert(b.subrange(28 + 8 * i, 28 + 8 * i + 8) =~= b.subrange(28, 76).subrange(
            8 * i,
            8 * i + 8,
        ));
        bytes::lemma_le_round_trip(e.args@[i] as nat, 8);
    }
    assert(argument_words(b, 28) =~= e.args@);
}

/// Where each field of a record lies in its bytes, least significant byte first:
/// the kind at 0, the process at 4, the thread at 8, the time at 12, the number
/// at 20, the arguments from 28 on, the result in two's complement at 76.
pub proof fn law_each_field_has_its_place(e: RawSyscallEvent)
    ensures
        e.wire().len() == 84,
        e.wire()[0] == e.kind,
        e.wire()[1] == 0 && e.wire()[2] == 0 && e.wire()[3] == 0,
        bytes::spells(e.wire().subrange(4, 8), e.tgid as int),
        bytes::spells(e.wire().subrange(8, 12), e.tid as int),
        bytes::spells(e.wire().subrange(12, 20), e.timestamp_ns as int),
        bytes::spells(e.wire().subrange(20, 28), e.nr as int),
        forall|i: int|
            0 <= i < 6 ==> bytes::spells(
                e.wire().subrange(28 + 8 * i, 36 + 8 * i),
                #[trigger] e.args@[i] as int,
            ),
        bytes::spells(
            e.wire().subrange(76, 84),
            if e.ret < 0 {
                e.ret + 0x1_0000_0000_0000_0000
            } else {
                e.ret as int
            },
        ),
{
    let b = e.wire();
    let none = Seq::<u8>::empty();
    assert(b + none =~= b);
    lemma_wire_len(e);
    lemma_wire_fields(e, none);
    bytes::law_bytes_read_as_what_they_spell(b.subrange(4, 8), e.tgid as int);
    bytes::law_bytes_read_as_what_they_spell(b.subrange(8, 12), e.tid as int);
    bytes::law_bytes_read_as_what_they_spell(b.subrange(12, 20), e.timestamp_ns as int);
    bytes::law_bytes_read_as_what_they_spell(b.subrange(20, 28), e.nr as int);
    let ret = e.ret;
    assert(ret >= 0 ==> (ret as u64) == ret) by (bit_vector);
    assert(ret < 0 ==> (ret as u64) == ret + 0x1_0000_0000_0000_0000) by (bit_vector);
    bytes::law_bytes_read_as_what_they_spell(b.subrange(76, 84), (e.ret as u64) as int);
    assert forall|i: int| 0 <= i < 6 implies bytes::spells(
        b.subrange(28 + 8 * i, 36 + 8 * i),
        #[trigger] e.args@[i] as int,
    ) by {
        let at = b.subrange(28 + 8 * i, 36 + 8 * i);
        assert(argument_words(b, 28)[i] == e.args@[i]);
        lemma_word_at(e.args@, i);
        lemma_words_len(e.args@);
        bytes::lemma_le_bytes_len(e.tgid as nat, 4);
        bytes::lemma_le_bytes_len(e.tid as nat, 4);
        bytes::lemma_le_bytes_len(e.timestamp_ns as nat, 8);
        bytes::lemma_le_bytes_len(e.nr as nat, 8);
        assert(at =~= words(e.args@).subrange(8 * i, 8 * i + 8));
        bytes::lemma_pow256_values();
        bytes::law_numbers_are_written_as_they_are_spelled(e.args@[i] as nat, 8);
    }
}

} // verus!
