//! The checks on the state in which the firmware hands the CPU over: tvisor
//! must run at EL2, little-endian, with its vector base aligned, on a CPU
//! that implements EL2 and whose MPIDR_EL1 can be read.
use vstd::prelude::*;
use crate::aarch64_reg::{
    ExceptionLevel, CurrentEL, IdAa64Pfr0El1, MpidrEl1, SctlrEl2, VbarEl2, bit_is_one,
    exception_level_of,
};

verus! {

/// Why the handoff state is refused.
#[derive(Debug, Clone, Copy, PartialEq, Eq, Structural)]
pub enum HandoffError {
    /// CurrentEL is not EL2.
    NotEl2,
    /// SCTLR_EL2.EE selects big-endian data accesses.
    BigEndian,
    /// VBAR_EL2 is not 2 KiB aligned.
    VectorsUnaligned,
    /// ID_AA64PFR0_EL1 says EL2 is not implemented.
    El2NotImplemented,
    /// MPIDR_EL1 could not be read.
    MpidrUnavailable,
}

/// The first check that the handoff state fails, in the order they are
/// made; a register that could not be read passes its own check, except
/// MPIDR_EL1, which must be readable.
pub open spec fn handoff_error(
    current_el: CurrentEL,
    sctlr: Option<SctlrEl2>,
    vbar: Option<VbarEl2>,
    pfr0: Option<IdAa64Pfr0El1>,
    mpidr: Option<MpidrEl1>,
) -> Option<HandoffError> {
    if exception_level_of((current_el.value >> 2) & 3) != ExceptionLevel::EL2 {
        Some(HandoffError::NotEl2)
    } else if sctlr matches Some(s) && bit_is_one(s.value, 25) {
        Some(HandoffError::BigEndian)
    } else if vbar matches Some(v) && v.value & 0x7ff != 0 {
        Some(HandoffError::VectorsUnaligned)
    } else if pfr0 matches Some(p) && (p.value >> 8) & 0xf == 0 {
        Some(HandoffError::El2NotImplemented)
    } else if mpidr is None {
        Some(HandoffError::MpidrUnavailable)
    } else {
        None
    }
}

/// Checks the register state the firmware handed over; each register but
/// CurrentEL is `None` where it could not be read.
pub fn handoff_check(
    current_el: CurrentEL,
    sctlr: Option<SctlrEl2>,
    vbar: Option<VbarEl2>,
    pfr0: Option<IdAa64Pfr0El1>,
    mpidr: Option<MpidrEl1>,
) -> (r: Result<(), HandoffError>)
    ensures
        r == (match handoff_error(current_el, sctlr, vbar, pfr0, mpidr) {
            Some(e) => Err(e),
            None => Ok(()),
        }),
{
    if current_el.current_el() != ExceptionLevel::EL2 {
        return Err(HandoffError::NotEl2);
    }
    if let Some(s) = sctlr {
        if s.bit_ee() {
            return Err(HandoffError::BigEndian);
        }
    }
    if let Some(v) = vbar {
        if !v.is_aligned() {
            return Err(HandoffError::VectorsUnaligned);
        }
    }
    if let Some(p) = pfr0 {
        if p.el2() == 0 {
            return Err(HandoffError::El2NotImplemented);
        }
    }
    if mpidr.is_none() {
        return Err(HandoffError::MpidrUnavailable);
    }
    Ok(())
}

} // verus!
