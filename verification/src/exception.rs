//! The register frame saved on an EL2 exception taken from EL2 itself, and
//! the decision whether tvisor resumes after it.
use vstd::prelude::*;

verus! {

/// The state saved on exception entry. Its field order is shared with the
/// assembly entry code.
#[derive(Debug, Clone, Copy)]
pub struct ExceptionFrame {
    /// General-purpose registers x0 through x30 at exception entry; x29 is
    /// the frame pointer and x30 the link register.
    pub x: [u64; 31],
    /// Vector-slot number selected by the CPU, 0 through 15: the exception
    /// type, the source EL, and the SP0/SPx group.
    pub vector: u64,
    /// The address of the interrupted or faulting instruction, where `eret`
    /// returns.
    pub elr_el2: u64,
    /// PSTATE and execution mode when the exception was taken.
    pub spsr_el2: u64,
    /// The exception class and syndrome.
    pub esr_el2: u64,
    /// The faulting virtual address, for the classes that define one.
    pub far_el2: u64,
}

/// The vector slot of a synchronous exception from the current EL on SPx.
pub const CURRENT_EL_SPX_SYNC_VECTOR: u64 = 4;
/// The exception class of a `BRK` instruction in AArch64 state.
pub const ESR_EC_BRK_AARCH64: u64 = 0x3c;
/// The `BRK` comment that tvisor's exception test uses.
pub const DELIBERATE_BRK_COMMENT: u64 = 0x600;

/// The exception is the deliberate test `BRK`: a synchronous exception from
/// EL2 on SPx, of the `BRK` class, with the test's comment.
pub open spec fn is_deliberate_brk(frame: ExceptionFrame) -> bool {
    &&& frame.vector == CURRENT_EL_SPX_SYNC_VECTOR
    &&& (frame.esr_el2 / 0x400_0000) % 64 == ESR_EC_BRK_AARCH64
    &&& frame.esr_el2 % 0x1_0000 == DELIBERATE_BRK_COMMENT
}

/// Decides whether tvisor resumes after the exception in `frame`: only the
/// deliberate test `BRK` is resumed, after the instruction that raised it;
/// any other exception is unexpected, and leaves the frame as it was.
pub fn resume_deliberate_exception(frame: &mut ExceptionFrame) -> (r: bool)
    ensures
        r == is_deliberate_brk(*old(frame)),
        r ==> *final(frame) == (ExceptionFrame {
            elr_el2: ((old(frame).elr_el2 + 4) % 0x1_0000_0000_0000_0000) as u64,
            ..*old(frame)
        }),
        !r ==> *final(frame) == *old(frame),
{
    let esr = frame.esr_el2;
    let exception_class = (esr >> 26u64) & 0x3f;
    let brk_comment = esr & 0xffff;
    proof {
        assert((esr >> 26u64) & 0x3f == (esr / 0x400_0000) % 64 && esr & 0xffff == esr % 0x1_0000)
            by (bit_vector);
    }
    if frame.vector == CURRENT_EL_SPX_SYNC_VECTOR && exception_class == ESR_EC_BRK_AARCH64
        && brk_comment == DELIBERATE_BRK_COMMENT {
        frame.elr_el2 = frame.elr_el2.wrapping_add(4);
        return true;
    }
    false
}

} // verus!
