//! The resolved memory layout of the Go runtime: where `runtime.allgs` lives and
//! the byte offsets of the `g` struct fields.
//!
//! A layout comes from the binary's own debug info or, where that is stripped,
//! from the vendored table of verified Go versions.
use vstd::prelude::*;

use super::version::GoVersion;

verus! {

/// Where a layout came from.
#[derive(Debug, Clone, Copy, PartialEq, Eq, Structural)]
pub enum LayoutSource {
    /// Offsets read from the binary's DWARF debug info.
    Dwarf,
    /// Offsets taken from the vendored table for the given Go version.
    Vendored(GoVersion),
}

/// Byte offsets of the `runtime.g` fields, with nested struct fields flattened
/// to absolute offsets from the start of `g`.
#[derive(Debug, Clone, Copy, PartialEq, Eq, Structural)]
pub struct GStructOffsets {
    /// `g.goid` (int64): the goroutine id.
    pub goid: u64,
    /// `g.atomicstatus` (uint32): the run status.
    pub atomicstatus: u64,
    /// `g.waitreason` (uint8): index into the wait-reason table.
    pub waitreason: u64,
    /// `g.stack.lo` (uintptr): low bound of the goroutine stack.
    pub stack_lo: u64,
    /// `g.stack.hi` (uintptr): high bound of the goroutine stack.
    pub stack_hi: u64,
    /// `g.sched.pc` (uintptr): saved resume PC for a parked goroutine.
    pub sched_pc: u64,
    /// `g.sched.sp` (uintptr): saved stack pointer for a parked goroutine.
    pub sched_sp: u64,
    /// `g.gopc` (uintptr): PC of the `go` statement that created this g.
    pub gopc: u64,
    /// `g.startpc` (uintptr): PC of the goroutine's entry function.
    pub startpc: u64,
    /// `g.m` (pointer): the M currently running this g, or null.
    pub m: u64,
    /// `g.parentGoid` (int64): the creator's id. `None` on Go versions that
    /// predate the field.
    pub parent_goid: Option<u64>,
}

impl GStructOffsets {
    /// The vendored table: Go 1.24, from the debug info of `go1.24.13`.
    pub open spec fn table(version: GoVersion) -> Option<GStructOffsets> {
        if version.major == 1 && version.minor == 24 {
            Some(
                GStructOffsets {
                    goid: 160,
                    atomicstatus: 152,
                    waitreason: 184,
                    stack_lo: 0,
                    stack_hi: 8,
                    sched_pc: 64,
                    sched_sp: 56,
                    gopc: 288,
                    startpc: 304,
                    m: 48,
                    parent_goid: Some(280),
                },
            )
        } else {
            None
        }
    }

    /// The vendored offsets for a known Go version, or `None`: offsets shift
    /// between releases and are not guessed.
    #[must_use]
    pub fn vendored(version: GoVersion) -> (r: Option<Self>)
        ensures
            r == Self::table(version),
    {
        if version.major == 1 && version.minor == 24 {
            Some(
                Self {
                    goid: 160,
                    atomicstatus: 152,
                    waitreason: 184,
                    stack_lo: 0,
                    stack_hi: 8,
                    sched_pc: 64,
                    sched_sp: 56,
                    gopc: 288,
                    startpc: 304,
                    m: 48,
                    parent_goid: Some(280),
                },
            )
        } else {
            None
        }
    }
}

/// The vendored `runtime.m.procid` offset: 72 for Go 1.24.
pub open spec fn procid_table(version: GoVersion) -> Option<u64> {
    if version.major == 1 && version.minor == 24 {
        Some(72)
    } else {
        None
    }
}

/// The vendored `runtime.m.procid` offset for a known Go version.
#[must_use]
pub fn vendored_m_procid(version: GoVersion) -> (r: Option<u64>)
    ensures
        r == procid_table(version),
{
    if version.major == 1 && version.minor == 24 {
        Some(72)
    } else {
        None
    }
}

/// The fully-resolved layout needed to walk `runtime.allgs`.
#[derive(Debug, Clone, Copy, PartialEq, Eq, Structural)]
pub struct GoLayout {
    /// Pointer width of the target in bytes.
    pub ptr_size: u8,
    /// Static address of the `runtime.allgs` slice header.
    pub allgs_addr: u64,
    /// Static address of `runtime.allglen`, if found.
    pub allglen_addr: Option<u64>,
    /// What to add to the static addresses above to get runtime addresses.
    /// Pointers inside the process are runtime addresses already.
    pub load_bias: u64,
    /// Offsets of the `g` fields.
    pub g: GStructOffsets,
    /// Offset of `procid` within `runtime.m`, if known.
    pub m_procid: Option<u64>,
    /// Provenance of these offsets.
    pub source: LayoutSource,
}

impl GoLayout {
    /// Offset of the length within a slice header: one pointer.
    #[must_use]
    pub fn slice_len_offset(&self) -> (r: u64)
        ensures
            r == self.ptr_size,
    {
        self.ptr_size as u64
    }
}

} // verus!
