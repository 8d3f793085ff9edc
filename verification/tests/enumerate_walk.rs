use std::collections::BTreeMap;

use mirrorscope::async_rust::enumerate::walk::{walk_context, MAX_SHARDS};
use mirrorscope::async_rust::enumerate::TokioRuntimeLayout;
use mirrorscope::async_rust::{EnumerateError, TokioVersion};
use mirrorscope::process_view::{PhysicalFrame, Registers, ThreadId};
use mirrorscope::{DecoderError, ProcessView};

struct FakeMemory {
    bytes: BTreeMap<u64, u8>,
}
impl FakeMemory {
    fn new() -> Self {
        Self {
            bytes: BTreeMap::new(),
        }
    }
    fn put_u64(&mut self, addr: u64, v: u64) {
        for (i, b) in v.to_le_bytes().iter().enumerate() {
            self.bytes.insert(addr + i as u64, *b);
        }
    }
}
impl ProcessView for FakeMemory {
    fn thread_ids(&self) -> Vec<ThreadId> {
        vec![]
    }
    fn registers(&self, _t: ThreadId) -> Result<Registers, DecoderError> {
        Ok(Registers { pc: 0, sp: 0 })
    }
    fn read_memory(&self, addr: u64, len: usize) -> Result<Vec<u8>, DecoderError> {
        (0..len as u64)
            .map(|i| {
                self.bytes
                    .get(&(addr + i))
                    .copied()
                    .ok_or(DecoderError::MemoryReadFailed {
                        addr,
                        len,
                        reason: "unmapped".to_string(),
                    })
            })
            .collect()
    }
    fn physical_frames(&self, _t: ThreadId) -> Result<Vec<PhysicalFrame>, DecoderError> {
        Ok(vec![])
    }
}

fn layout() -> TokioRuntimeLayout {
    TokioRuntimeLayout::vendored(TokioVersion::new(1, 44, 2)).expect("1.44")
}

/// Build a synthetic runtime: `CONTEXT` at `ctx`, a scheduler `Arc` whose
/// `OwnedTasks` has `shard_count` shards, and each `(header, vtable,
/// shard)` task chained into its named shard's intrusive list. Task headers
/// must be spaced past their 8-byte fields; the vtable advertises
/// `trailer_offset` and the future sits at `header + future_offset`.
fn build(
    mem: &mut FakeMemory,
    l: &TokioRuntimeLayout,
    ctx: u64,
    tasks: &[(u64, u64, usize)],
    shard_count: u64,
) {
    let arc = 0x5000;
    mem.put_u64(ctx + l.context_current + l.handle_cell_value, arc);
    let owned = arc + l.arc_data + l.handle_shared + l.shared_owned;
    let data_ptr = 0x6000;
    mem.put_u64(owned + l.owned_list + l.sharded_lists, data_ptr);
    mem.put_u64(owned + l.owned_list + l.sharded_lists + 8, shard_count);
    let trailer_offset = 0x400u64;
    let mut shard_head: Vec<u64> = vec![0; shard_count as usize];
    let mut shard_prev: Vec<u64> = vec![0; shard_count as usize];
    for &(header, vtable, s) in tasks {
        mem.put_u64(header + l.header_vtable, vtable);
        mem.put_u64(vtable + l.vtable_poll, 0xAAAA_0000 + header);
        mem.put_u64(vtable + l.vtable_trailer_offset, trailer_offset);
        if shard_head[s] == 0 {
            shard_head[s] = header;
        } else {
            mem.put_u64(
                shard_prev[s] + trailer_offset + l.trailer_owned_next,
                header,
            );
        }
        mem.put_u64(header + trailer_offset + l.trailer_owned_next, 0);
        shard_prev[s] = header;
    }
    for (s, &head) in shard_head.iter().enumerate() {
        let mutex = data_ptr + s as u64 * l.shard_stride;
        mem.put_u64(mutex + l.mutex_data + l.list_head, head);
    }
}

#[test]
fn walks_two_tasks_in_separate_shards() {
    let l = layout();
    let mut mem = FakeMemory::new();
    let ctx = 0x1000;
    build(
        &mut mem,
        &l,
        ctx,
        &[(0x10000, 0x9000, 0), (0x20000, 0x9000, 1)],
        4,
    );
    let mut out = Vec::new();
    let found = walk_context(&mem, ctx, &l, &mut out).expect("walk");
    assert!(found);
    assert_eq!(out.len(), 2);
    assert!(out
        .iter()
        .any(|t| t.header == 0x10000 && t.future == 0x10000 + l.future_offset));
    assert!(out.iter().any(|t| t.header == 0x20000));
}

#[test]
fn walks_multiple_tasks_in_one_shard() {
    let l = layout();
    let mut mem = FakeMemory::new();
    let ctx = 0x1000;
    build(
        &mut mem,
        &l,
        ctx,
        &[
            (0x20000, 0x9000, 0),
            (0x21000, 0x9000, 0),
            (0x22000, 0x9000, 0),
        ],
        1,
    );
    let mut out = Vec::new();
    walk_context(&mem, ctx, &l, &mut out).expect("walk");
    assert_eq!(out.len(), 3);
}

#[test]
fn null_handle_reports_no_runtime() {
    let l = layout();
    let mut mem = FakeMemory::new();
    let ctx = 0x1000;
    mem.put_u64(ctx + l.context_current + l.handle_cell_value, 0); // null Arc
    let mut out = Vec::new();
    assert!(!walk_context(&mem, ctx, &l, &mut out).expect("walk"));
    assert!(out.is_empty());
}

#[test]
fn rejects_implausible_shard_count() {
    let l = layout();
    let mut mem = FakeMemory::new();
    let ctx = 0x1000;
    let arc = 0x5000;
    mem.put_u64(ctx + l.context_current + l.handle_cell_value, arc);
    let owned = arc + l.arc_data + l.handle_shared + l.shared_owned;
    mem.put_u64(owned + l.owned_list + l.sharded_lists, 0x6000);
    mem.put_u64(owned + l.owned_list + l.sharded_lists + 8, MAX_SHARDS + 1);
    let mut out = Vec::new();
    let err = walk_context(&mem, ctx, &l, &mut out).expect_err("implausible");
    assert!(matches!(err, EnumerateError::Implausible(_)));
}
