//! Static-TLS address arithmetic: from a thread pointer and a variable's offset
//! within the TLS block to the variable's address.
//!
//! The main executable's block lies at a fixed distance from the thread
//! pointer: above it, past a two-word control block (variant I, aarch64), or
//! below it (variant II, x86-64). Addresses wrap around at 64 bits.
use vstd::prelude::*;

use crate::text;

verus! {

/// Size of the variant-I thread-control block: two pointers.
pub const AARCH64_TCB_SIZE: u64 = 16;

/// How a target places its static TLS block relative to the thread pointer.
#[derive(Debug, Clone, Copy, PartialEq, Eq, Structural)]
pub enum TlsVariant {
    /// Variant I: block above the thread pointer, past a control block.
    VariantI,
    /// Variant II: block below the thread pointer.
    VariantII,
}

impl TlsVariant {
    /// The variant of a host of the given architecture: variant II on x86-64,
    /// else variant I.
    #[must_use]
    pub fn host(architecture: &str) -> (r: Self)
        ensures
            r == (if architecture@ == "x86_64"@ {
                TlsVariant::VariantII
            } else {
                TlsVariant::VariantI
            }),
    {
        if text::same(architecture, "x86_64") {
            Self::VariantII
        } else {
            Self::VariantI
        }
    }
}

/// The least multiple of `align` that is no less than `value`; `value` itself
/// where `align` is 0.
pub open spec fn rounded_up(value: int, align: int) -> int {
    if align <= 1 {
        value
    } else if value % align == 0 {
        value
    } else {
        (value / align + 1) * align
    }
}

/// A number, wrapped around at 64 bits.
pub open spec fn wrapped(n: int) -> u64 {
    (n % 0x1_0000_0000_0000_0000) as u64
}

/// Round `value` up to the next multiple of `align`.
#[must_use]
pub fn align_up(value: u64, align: u64) -> (r: u64)
    ensures
        r == wrapped(rounded_up(value as int, align as int)),
{
    if align <= 1 {
        return value;
    }
    let quotient: u64 = value / align;
    if value % align == 0 {
        value
    } else {
        assert(quotient < 0xffff_ffff_ffff_ffff) by (nonlinear_arith)
            requires
                quotient == value / align,
                align >= 2,
                value <= 0xffff_ffff_ffff_ffff,
        ;
        (quotient + 1).wrapping_mul(align)
    }
}

/// The runtime address of a static-TLS variable.
pub open spec fn tls_address(
    variant: TlsVariant,
    thread_pointer: u64,
    tls_offset: u64,
    tls_align: u64,
    block_size: u64,
) -> u64 {
    match variant {
        TlsVariant::VariantI => thread_pointer.wrapping_add(
            wrapped(rounded_up(AARCH64_TCB_SIZE as int, tls_align as int)),
        ).wrapping_add(tls_offset),
        TlsVariant::VariantII => thread_pointer.wrapping_sub(
            wrapped(rounded_up(block_size as int, tls_align as int)),
        ).wrapping_add(tls_offset),
    }
}

/// The runtime address of a static-TLS variable, from the stopped thread's
/// thread pointer, the variable's offset within the block, and the alignment
/// and size of the executable's TLS segment.
#[must_use]
pub fn static_tls_address(
    variant: TlsVariant,
    thread_pointer: u64,
    tls_offset: u64,
    tls_align: u64,
    block_size: u64,
) -> (r: u64)
    ensures
        r == tls_address(variant, thread_pointer, tls_offset, tls_align, block_size),
{
    let align: u64 = if tls_align < 1 {
        1
    } else {
        tls_align
    };
    match variant {
        TlsVariant::VariantI => {
            let tcb: u64 = align_up(AARCH64_TCB_SIZE, align);
            thread_pointer.wrapping_add(tcb).wrapping_add(tls_offset)
        },
        TlsVariant::VariantII => {
            let block: u64 = align_up(block_size, align);
            thread_pointer.wrapping_sub(block).wrapping_add(tls_offset)
        },
    }
}

/// Rounding up gives the least multiple that is no less than the value.
pub proof fn law_rounding_up_is_tight(value: int, align: int)
    requires
        0 <= value,
        1 <= align,
    ensures
        rounded_up(value, align) % align == 0,
        value <= rounded_up(value, align) < value + align,
{
    if align > 1 && value % align != 0 {
        let q = value / align;
        assert(((q + 1) * align) % align == 0) by (nonlinear_arith)
            requires
                align > 1,
        ;
        assert(value == q * align + value % align) by (nonlinear_arith)
            requires
                align > 1,
                q == value / align,
        ;
        assert(0 <= value % align < align) by (nonlinear_arith)
            requires
                align > 1,
        ;
        assert((q + 1) * align == q * align + align) by (nonlinear_arith);
    }
}

/// In variant I a variable lies above the thread pointer and its control block;
/// in variant II it lies below the thread pointer, within the block.
pub proof fn law_tls_block_placement(
    thread_pointer: u64,
    tls_offset: u64,
    tls_align: u64,
    block_size: u64,
)
    requires
        1 <= tls_align,
        tls_offset < block_size,
        block_size + tls_align <= thread_pointer,
        thread_pointer + 16 + tls_align + tls_offset <= u64::MAX,
    ensures
        tls_address(TlsVariant::VariantI, thread_pointer, tls_offset, tls_align, block_size)
            >= thread_pointer + AARCH64_TCB_SIZE + tls_offset,
        tls_address(TlsVariant::VariantII, thread_pointer, tls_offset, tls_align, block_size)
            < thread_pointer,
{
    law_rounding_up_is_tight(AARCH64_TCB_SIZE as int, tls_align as int);
    law_rounding_up_is_tight(block_size as int, tls_align as int);
}

} // verus!
