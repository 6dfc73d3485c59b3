//! Verified core of the tvisor AArch64 hypervisor: physical-memory bookkeeping,
//! translation-table construction, guest boot layout, and trapped-device
//! emulation.
use vstd::prelude::*;

pub mod page;
pub mod text;
pub mod system_info;
pub mod memory_map;
pub mod page_allocator;
pub mod aarch64_reg;
pub mod el2_translation;
pub mod stage2_translation;
pub mod guest_platform;
pub mod virtual_timer;
pub mod gicv2;
pub mod mmio;
pub mod linux_boot;
pub mod boot_mode;
pub mod mm;
pub mod fdt;
pub mod platform;
pub mod vcpu;
pub mod diag;
pub mod exception;
pub mod heap;
pub mod guest;
pub mod guest_fdt;
pub mod vmctl;
pub mod devicetree;
pub mod handoff;

verus! {

} // verus!
