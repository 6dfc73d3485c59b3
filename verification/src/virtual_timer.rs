//! Per-vCPU architectural virtual-timer state.
use vstd::prelude::*;

verus! {

/// Architectural virtual timer interrupt PPI used by arm64 Linux.
pub const VIRTUAL_TIMER_PPI: u32 = 27;

/// Hardware-visible timer state saved whenever a vCPU leaves EL1.
#[derive(Debug, Default, Clone, Copy, PartialEq, Eq, Structural)]
pub struct VirtualTimerState {
    pub cntvoff_el2: u64,
    pub cntv_cval_el0: u64,
    pub cntv_ctl_el0: u64,
}

} // verus!
