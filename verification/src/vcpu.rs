//! Virtual-CPU state and the decoding and emulation of guest exits.
use vstd::prelude::*;
use crate::text::{append_bool, append_decimal, bool_text, dec_text};
use vstd::string::StringExecFns;
use crate::gicv2::VirtualGicV2State;
use crate::mmio::{
    MmioAccess, MmioDecodeError, MmioDispatcher, MmioEmulationError, decoded, emulated,
    emulation_result,
};
use crate::virtual_timer::VirtualTimerState;

verus! {

#[derive(Debug, Clone, Copy, PartialEq, Eq, Structural)]
pub enum VcpuMmioError {
    Decode(MmioDecodeError),
    Emulation(MmioEmulationError),
    ProgramCounterOverflow,
}

/// The guest's EL1 architectural state saved while it is not running.
#[derive(Debug, Clone)]
pub struct VcpuContext {
    /// General-purpose registers x0 through x30.
    pub x: [u64; 31],
    /// Stack pointers for EL0 and EL1.
    pub sp_el0: u64,
    pub sp_el1: u64,
    /// Exception link register: the guest PC.
    pub elr_el2: u64,
    /// Saved program status register: the guest PSTATE.
    pub spsr_el2: u64,
    /// EL1 system control registers.
    pub sctlr_el1: u64,
    pub cpacr_el1: u64,
    pub ttbr0_el1: u64,
    pub ttbr1_el1: u64,
    pub tcr_el1: u64,
    pub mair_el1: u64,
    pub vbar_el1: u64,
    pub contextidr_el1: u64,
    /// Linux current-task pointer, preserved across EL2 exits.
    pub tpidr_el1: u64,
    /// EL0 read-only thread pointer, preserved for later userspace support.
    pub tpidrro_el0: u64,
    /// Guest FP/Advanced-SIMD registers q0 through q31.
    pub q: [u128; 32],
    /// Guest FP control and status registers.
    pub fpcr: u64,
    pub fpsr: u64,
}

/// SPSR_EL2 for entry at EL1h with D, A, I and F masked.
pub const GUEST_SPSR_EL1H_MASKED: u64 = 0x3c5;
/// The architectural reset value of SCTLR_EL1's fixed bits.
pub const GUEST_SCTLR_EL1_RESET: u64 = 0x00c5_0838;

/// What emulating the stage-2 MMIO abort described by `exit` does to the
/// guest context (from `old_ctx` to `new_ctx`) and to the virtual devices,
/// and what it returns.
pub open spec fn stage2_mmio_emulated(
    old_ctx: VcpuContext,
    new_ctx: VcpuContext,
    exit: VcpuExit,
    old_rx: Seq<u8>,
    old_mask: u32,
    old_ctlr: u32,
    new_rx: Seq<u8>,
    new_mask: u32,
    new_ctlr: u32,
    r: Result<Option<u8>, VcpuMmioError>,
) -> bool {
    &&& (decoded(exit.esr_el2, exit.fault_ipa_spec()) matches Err(e) ==> {
        &&& r == Err::<Option<u8>, VcpuMmioError>(VcpuMmioError::Decode(e))
        &&& new_ctx.x@ == old_ctx.x@
        &&& new_ctx.elr_el2 == old_ctx.elr_el2
        &&& new_rx == old_rx
        &&& new_mask == old_mask
        &&& new_ctlr == old_ctlr
    })
    &&& (decoded(exit.esr_el2, exit.fault_ipa_spec()) matches Ok(access) ==> {
        let inner = emulation_result(
            old_rx,
            old_mask,
            old_ctlr,
            access,
            old_ctx.x@,
        );
        &&& emulated(
            old_rx,
            old_mask,
            old_ctlr,
            new_rx,
            new_mask,
            new_ctlr,
            access,
            old_ctx.x@,
            new_ctx.x@,
            inner,
        )
        &&& match inner {
            Err(e) => r == Err::<Option<u8>, VcpuMmioError>(VcpuMmioError::Emulation(e))
                && new_ctx.elr_el2 == old_ctx.elr_el2,
            Ok(byte) => if old_ctx.elr_el2 + 4 > u64::MAX {
                r == Err::<Option<u8>, VcpuMmioError>(
                    VcpuMmioError::ProgramCounterOverflow,
                ) && new_ctx.elr_el2 == old_ctx.elr_el2
            } else {
                r == Ok::<Option<u8>, VcpuMmioError>(byte) && new_ctx.elr_el2 == old_ctx.elr_el2 + 4
            },
        }
    })
}

impl VcpuContext {
    /// The state in which a guest starts at `entry_pc` at EL1h with stack
    /// `sp_el1`, interrupts masked, and everything else zero.
    pub fn new(entry_pc: u64, sp_el1: u64) -> (r: Self)
        ensures
            r.x@ == Seq::new(31, |i: int| 0u64),
            r.q@ == Seq::new(32, |i: int| 0u128),
            r.sp_el0 == 0,
            r.sp_el1 == sp_el1,
            r.elr_el2 == entry_pc,
            r.spsr_el2 == GUEST_SPSR_EL1H_MASKED,
            r.sctlr_el1 == GUEST_SCTLR_EL1_RESET,
            r.cpacr_el1 == 0,
            r.ttbr0_el1 == 0,
            r.ttbr1_el1 == 0,
            r.tcr_el1 == 0,
            r.mair_el1 == 0,
            r.vbar_el1 == 0,
            r.contextidr_el1 == 0,
            r.tpidr_el1 == 0,
            r.tpidrro_el0 == 0,
            r.fpcr == 0,
            r.fpsr == 0,
    {
        let r = VcpuContext {
            x: [0u64; 31],
            sp_el0: 0,
            sp_el1,
            elr_el2: entry_pc,
            spsr_el2: GUEST_SPSR_EL1H_MASKED,
            sctlr_el1: GUEST_SCTLR_EL1_RESET,
            cpacr_el1: 0,
            ttbr0_el1: 0,
            ttbr1_el1: 0,
            tcr_el1: 0,
            mair_el1: 0,
            vbar_el1: 0,
            contextidr_el1: 0,
            tpidr_el1: 0,
            tpidrro_el0: 0,
            q: [0u128; 32],
            fpcr: 0,
            fpsr: 0,
        };
        proof {
            assert(r.x@ =~= Seq::new(31, |i: int| 0u64));
            assert(r.q@ =~= Seq::new(32, |i: int| 0u128));
        }
        r
    }

    /// Emulates a stage-2 MMIO data abort. The guest PC is advanced only
    /// after the device has completed the access and any value read is in
    /// the target guest register.
    pub fn emulate_stage2_mmio(&mut self, exit: &VcpuExit, dispatcher: &mut MmioDispatcher) -> (r:
        Result<Option<u8>, VcpuMmioError>)
        requires
            old(dispatcher).wf(),
        ensures
            final(dispatcher).wf(),
            final(self).sp_el1 == old(self).sp_el1,
            final(self).spsr_el2 == old(self).spsr_el2,
            stage2_mmio_emulated(
                *old(self),
                *final(self),
                *exit,
                old(dispatcher).rx_fifo(),
                old(dispatcher).rx_mask(),
                old(dispatcher).gicd_ctlr(),
                final(dispatcher).rx_fifo(),
                final(dispatcher).rx_mask(),
                final(dispatcher).gicd_ctlr(),
                r,
            ),
    {
        let access = match MmioAccess::decode_data_abort(exit.esr_el2, exit.fault_ipa()) {
            Ok(a) => a,
            Err(e) => return Err(VcpuMmioError::Decode(e)),
        };
        let transmit = match dispatcher.emulate(access, &mut self.x) {
            Ok(t) => t,
            Err(e) => return Err(VcpuMmioError::Emulation(e)),
        };
        // A trapped access leaves the guest PC at the faulting instruction;
        // step over it so the guest does not trap again.
        self.elr_el2 = match self.elr_el2.checked_add(4) {
            Some(pc) => pc,
            None => return Err(VcpuMmioError::ProgramCounterOverflow),
        };
        Ok(transmit)
    }
}

/// The syndrome registers that EL2 saves when a guest exits.
#[derive(Debug, Default, Clone, Copy, PartialEq, Eq, Structural)]
pub struct VcpuExit {
    pub vector: u64,
    pub esr_el2: u64,
    pub far_el2: u64,
    pub hpfar_el2: u64,
}

#[derive(Debug, Clone, Copy, PartialEq, Eq, Structural)]
pub enum VcpuExitReason {
    Hvc { imm: u16, arg0: u64 },
    Stage2DataAbort { ipa: u64, is_write: bool, dfsc: u8 },
    Stage2InstructionAbort { ipa: u64, ifsc: u8 },
    SmcTrap,
    SysRegTrap,
    FpSimdTrap,
    Unknown { ec: u8, iss: u32 },
}

/// The exception class of syndrome `esr`.
pub open spec fn exception_class(esr: u64) -> u8 {
    ((esr / 0x400_0000) % 64) as u8
}

/// The instruction-specific syndrome of `esr`.
pub open spec fn syndrome(esr: u64) -> u32 {
    (esr % 0x200_0000) as u32
}

impl VcpuExit {
    /// The faulting IPA: HPFAR_EL2[47:4] hold IPA[47:12], and FAR_EL2 the
    /// offset within the page.
    pub open spec fn fault_ipa_spec(&self) -> u64 {
        (((self.hpfar_el2 / 16) % 0x1000_0000_0000) * 4096 + self.far_el2 % 4096) as u64
    }

    /// Why the guest exited, from the exception class of its syndrome.
    pub open spec fn reason_spec(&self, x0: u64) -> VcpuExitReason {
        let ec = exception_class(self.esr_el2);
        let iss = syndrome(self.esr_el2);
        if ec == 0x16 {
            VcpuExitReason::Hvc { imm: (iss % 0x1_0000) as u16, arg0: x0 }
        } else if ec == 0x17 {
            VcpuExitReason::SmcTrap
        } else if ec == 0x18 {
            VcpuExitReason::SysRegTrap
        } else if ec == 0x07 {
            VcpuExitReason::FpSimdTrap
        } else if ec == 0x20 {
            VcpuExitReason::Stage2InstructionAbort {
                ipa: self.fault_ipa_spec(),
                ifsc: (iss % 64) as u8,
            }
        } else if ec == 0x24 {
            VcpuExitReason::Stage2DataAbort {
                ipa: self.fault_ipa_spec(),
                is_write: (iss / 64) % 2 == 1,
                dfsc: (iss % 64) as u8,
            }
        } else {
            VcpuExitReason::Unknown { ec, iss }
        }
    }

    /// What an exit is, by the exception class in ESR_EL2 bits [31:26]:
    /// 0x20 (instruction abort from a lower EL) is a stage-2 instruction
    /// abort at the faulting IPA (HPFAR_EL2 bits [47:4] as IPA bits [47:12],
    /// FAR_EL2 bits [11:0] as the offset) with ISS bits [5:0] as its fault
    /// status; 0x24 (data abort from a lower EL) a stage-2 data abort at that
    /// IPA, writing when ISS bit 6 (WnR) is set, with ISS bits [5:0] as its
    /// fault status; 0x16 an HVC with ISS bits [15:0] as its immediate and x0
    /// as its argument; 0x17 an SMC; 0x18 a trapped system-register access;
    /// 0x07 a trapped FP/SIMD access. Every other class, and only those, is
    /// unknown, reported with the class and ISS bits [24:0].
    pub proof fn lemma_reason_by_class(&self, x0: u64)
        ensures
            (self.esr_el2 / 0x400_0000) % 64 == 0x20 ==> self.reason_spec(x0)
                == (VcpuExitReason::Stage2InstructionAbort {
                ipa: (((self.hpfar_el2 / 16) % 0x1000_0000_0000) * 4096 + self.far_el2 % 4096) as u64,
                ifsc: (self.esr_el2 % 64) as u8,
            }),
            (self.esr_el2 / 0x400_0000) % 64 == 0x24 ==> self.reason_spec(x0)
                == (VcpuExitReason::Stage2DataAbort {
                ipa: (((self.hpfar_el2 / 16) % 0x1000_0000_0000) * 4096 + self.far_el2 % 4096) as u64,
                is_write: (self.esr_el2 / 64) % 2 == 1,
                dfsc: (self.esr_el2 % 64) as u8,
            }),
            (self.esr_el2 / 0x400_0000) % 64 == 0x16 ==> self.reason_spec(x0) == (VcpuExitReason::Hvc {
                imm: (self.esr_el2 % 0x1_0000) as u16,
                arg0: x0,
            }),
            (self.esr_el2 / 0x400_0000) % 64 == 0x17 ==> self.reason_spec(x0) == VcpuExitReason::SmcTrap,
            (self.esr_el2 / 0x400_0000) % 64 == 0x18 ==> self.reason_spec(x0) == VcpuExitReason::SysRegTrap,
            (self.esr_el2 / 0x400_0000) % 64 == 0x07 ==> self.reason_spec(x0) == VcpuExitReason::FpSimdTrap,
            (self.reason_spec(x0) is Unknown) == ((self.esr_el2 / 0x400_0000) % 64 != 0x20 && (self.esr_el2
                / 0x400_0000) % 64 != 0x24 && (self.esr_el2 / 0x400_0000) % 64 != 0x16 && (self.esr_el2
                / 0x400_0000) % 64 != 0x17 && (self.esr_el2 / 0x400_0000) % 64 != 0x18 && (self.esr_el2
                / 0x400_0000) % 64 != 0x07),
            (self.reason_spec(x0) is Unknown) ==> self.reason_spec(x0) == (VcpuExitReason::Unknown {
                ec: ((self.esr_el2 / 0x400_0000) % 64) as u8,
                iss: (self.esr_el2 % 0x200_0000) as u32,
            }),
    {
        let e = self.esr_el2 as int;
        vstd::arithmetic::div_mod::lemma_mod_mod(e, 64, 0x8_0000);
        vstd::arithmetic::div_mod::lemma_mod_mod(e, 0x1_0000, 0x200);
        vstd::arithmetic::div_mod::lemma_mod_mod(e, 128, 0x4_0000);
        assert((e % 0x200_0000) % 64 == e % 64);
        assert((e % 0x200_0000) % 0x1_0000 == e % 0x1_0000);
        assert(((e % 0x200_0000) / 64) % 2 == (e / 64) % 2) by {
            assert((e % 0x200_0000) % 128 == e % 128);
            vstd::arithmetic::div_mod::lemma_fundamental_div_mod(e, 128);
            vstd::arithmetic::div_mod::lemma_fundamental_div_mod(e % 0x200_0000, 128);
            assert(((e % 0x200_0000) / 64) % 2 == ((e % 0x200_0000) % 128) / 64) by (nonlinear_arith)
                requires
                    e % 0x200_0000 >= 0,
            ;
            assert((e / 64) % 2 == (e % 128) / 64) by (nonlinear_arith)
                requires
                    e >= 0,
            ;
        }
    }

    pub fn decode_reason(&self, context: &VcpuContext) -> (r: VcpuExitReason)
        ensures
            r == self.reason_spec(context.x@[0]),
    {
        let esr = self.esr_el2;
        let ec = ((esr >> 26u64) & 0x3f) as u8;
        let iss = (esr & 0x01ff_ffff) as u32;
        proof {
            assert(((esr >> 26u64) & 0x3f) as u8 == ((esr / 0x400_0000) % 64) as u8 && (esr
                & 0x01ff_ffff) as u32 == (esr % 0x200_0000) as u32 && (iss & 0xffff) as u16 == (iss
                % 0x1_0000) as u16 && (iss & 0x3f) as u8 == (iss % 64) as u8 && (iss & 0x40 != 0)
                == ((iss / 64) % 2 == 1)) by (bit_vector)
                requires
                    iss == (esr & 0x01ff_ffff) as u32,
            ;
        }
        match ec {
            // HVC64 from AArch64.
            0x16 => {
                let imm = (iss & 0xffff) as u16;
                let arg0 = context.x[0];
                VcpuExitReason::Hvc { imm, arg0 }
            },
            // SMC64 from AArch64.
            0x17 => VcpuExitReason::SmcTrap,
            // Trapped MSR, MRS or system instruction.
            0x18 => VcpuExitReason::SysRegTrap,
            // FP/Advanced SIMD access.
            0x07 => VcpuExitReason::FpSimdTrap,
            // Instruction abort from a lower EL.
            0x20 => {
                let ifsc = (iss & 0x3f) as u8;
                let ipa = self.fault_ipa();
                VcpuExitReason::Stage2InstructionAbort { ipa, ifsc }
            },
            // Data abort from a lower EL.
            0x24 => {
                let dfsc = (iss & 0x3f) as u8;
                let is_write = (iss & 0x40) != 0;
                let ipa = self.fault_ipa();
                VcpuExitReason::Stage2DataAbort { ipa, is_write, dfsc }
            },
            _ => VcpuExitReason::Unknown { ec, iss },
        }
    }

    pub fn fault_ipa(&self) -> (r: u64)
        ensures
            r == self.fault_ipa_spec(),
    {
        let hpfar = self.hpfar_el2;
        let far = self.far_el2;
        let fipa_page = ((hpfar >> 4u64) & 0x0000_0fff_ffff_ffff) << 12u64;
        let page_offset = far & 0xfff;
        proof {
            assert((((hpfar >> 4u64) & 0x0000_0fff_ffff_ffffu64) << 12u64) | (far & 0xfffu64) == (((
            hpfar / 16) % 0x1000_0000_0000) * 4096 + far % 4096) as u64) by (bit_vector);
        }
        fipa_page | page_offset
    }
}

/// The persistent state of one virtual CPU: its registers, its last exit,
/// its virtual timer and its virtual GIC interface.
#[derive(Debug, Clone)]
pub struct Vcpu {
    context: VcpuContext,
    exit: VcpuExit,
    timer: VirtualTimerState,
    gic: VirtualGicV2State,
}

impl Vcpu {
    pub closed spec fn context_spec(&self) -> VcpuContext {
        self.context
    }

    pub closed spec fn exit_spec(&self) -> VcpuExit {
        self.exit
    }

    pub closed spec fn timer_spec(&self) -> VirtualTimerState {
        self.timer
    }

    pub closed spec fn gic_spec(&self) -> VirtualGicV2State {
        self.gic
    }

    /// A vCPU about to start at `entry_pc` with stack `sp_el1`, with no exit
    /// recorded and its timer and GIC interface cleared.
    pub fn new(entry_pc: u64, sp_el1: u64) -> (r: Self)
        ensures
            r.context_spec().x@ == Seq::new(31, |i: int| 0u64),
            r.context_spec().elr_el2 == entry_pc,
            r.context_spec().sp_el1 == sp_el1,
            r.context_spec().spsr_el2 == GUEST_SPSR_EL1H_MASKED,
            r.exit_spec() == (VcpuExit { vector: 0, esr_el2: 0, far_el2: 0, hpfar_el2: 0 }),
            r.timer_spec() == (VirtualTimerState { cntvoff_el2: 0, cntv_cval_el0: 0, cntv_ctl_el0: 0 }),
            r.gic_spec() == (VirtualGicV2State { vmcr: 0, timer_lr: 0, uart_lr: 0 }),
    {
        Vcpu {
            context: VcpuContext::new(entry_pc, sp_el1),
            exit: VcpuExit { vector: 0, esr_el2: 0, far_el2: 0, hpfar_el2: 0 },
            timer: VirtualTimerState { cntvoff_el2: 0, cntv_cval_el0: 0, cntv_ctl_el0: 0 },
            gic: VirtualGicV2State { vmcr: 0, timer_lr: 0, uart_lr: 0 },
        }
    }

    /// The initial state that the arm64 Linux boot protocol asks for: entry
    /// at `entry_pc` with x0 holding the DTB's IPA and x1 to x3 zero. Linux
    /// sets up its own stack and translation after entry.
    pub fn new_linux(entry_pc: u64, dtb_ipa: u64) -> (r: Self)
        ensures
            r.context_spec().x@ == Seq::new(31, |i: int| 0u64).update(0, dtb_ipa),
            r.context_spec().elr_el2 == entry_pc,
            r.context_spec().sp_el1 == 0,
            r.context_spec().spsr_el2 == GUEST_SPSR_EL1H_MASKED,
            r.exit_spec() == (VcpuExit { vector: 0, esr_el2: 0, far_el2: 0, hpfar_el2: 0 }),
    {
        let mut vcpu = Self::new(entry_pc, 0);
        vcpu.context.x[0] = dtb_ipa;
        vcpu.context.x[1] = 0;
        vcpu.context.x[2] = 0;
        vcpu.context.x[3] = 0;
        proof {
            assert(vcpu.context.x@ =~= Seq::new(31, |i: int| 0u64).update(0, dtb_ipa));
        }
        vcpu
    }

    pub fn context(&self) -> (r: &VcpuContext)
        ensures
            *r == self.context_spec(),
    {
        &self.context
    }

    pub fn context_mut(&mut self) -> (r: &mut VcpuContext)
        ensures
            *r == old(self).context_spec(),
            final(self).context_spec() == *final(r),
            final(self).exit_spec() == old(self).exit_spec(),
            final(self).timer_spec() == old(self).timer_spec(),
            final(self).gic_spec() == old(self).gic_spec(),
    {
        &mut self.context
    }

    pub fn exit(&self) -> (r: &VcpuExit)
        ensures
            *r == self.exit_spec(),
    {
        &self.exit
    }

    /// Records the syndrome registers of the exit that just happened.
    pub fn set_exit(&mut self, exit: VcpuExit)
        ensures
            final(self).exit_spec() == exit,
            final(self).context_spec() == old(self).context_spec(),
            final(self).timer_spec() == old(self).timer_spec(),
            final(self).gic_spec() == old(self).gic_spec(),
    {
        self.exit = exit;
    }

    pub fn timer_mut(&mut self) -> (r: &mut VirtualTimerState)
        ensures
            *r == old(self).timer_spec(),
            final(self).timer_spec() == *final(r),
            final(self).context_spec() == old(self).context_spec(),
            final(self).exit_spec() == old(self).exit_spec(),
            final(self).gic_spec() == old(self).gic_spec(),
    {
        &mut self.timer
    }

    pub fn gic(&self) -> (r: &VirtualGicV2State)
        ensures
            *r == self.gic_spec(),
    {
        &self.gic
    }

    pub fn gic_mut(&mut self) -> (r: &mut VirtualGicV2State)
        ensures
            *r == old(self).gic_spec(),
            final(self).gic_spec() == *final(r),
            final(self).context_spec() == old(self).context_spec(),
            final(self).exit_spec() == old(self).exit_spec(),
            final(self).timer_spec() == old(self).timer_spec(),
    {
        &mut self.gic
    }
}

impl VcpuMmioError {
    /// Why the trapped access was not handled, in words.
    pub open spec fn message(self) -> Seq<char> {
        match self {
            VcpuMmioError::Decode(e) => "cannot decode trapped MMIO: "@ + e.message(),
            VcpuMmioError::Emulation(e) => "cannot emulate trapped MMIO: "@ + e.message(),
            VcpuMmioError::ProgramCounterOverflow => "cannot advance guest PC after MMIO emulation"@,
        }
    }

    /// The error in words.
    pub fn to_string(&self) -> (r: String)
        ensures
            r@ == self.message(),
    {
        match self {
            VcpuMmioError::Decode(e) => {
                let mut text = String::from_str("cannot decode trapped MMIO: ");
                let inner = e.to_string();
                text.append(inner.as_str());
                text
            }
            VcpuMmioError::Emulation(e) => {
                let mut text = String::from_str("cannot emulate trapped MMIO: ");
                let inner = e.to_string();
                text.append(inner.as_str());
                text
            }
            VcpuMmioError::ProgramCounterOverflow => {
                String::from_str("cannot advance guest PC after MMIO emulation")
            }
        }
    }
}

impl VcpuExitReason {
    /// The exit as it is shown: the variant's name and its fields in decimal.
    pub open spec fn debug_text(self) -> Seq<char> {
        match self {
            VcpuExitReason::Hvc { imm, arg0 } => "Hvc { imm: "@ + dec_text(imm as nat) + ", arg0: "@ + dec_text(arg0 as nat) + " }"@,
            VcpuExitReason::Stage2DataAbort { ipa, is_write, dfsc } => "Stage2DataAbort { ipa: "@ + dec_text(ipa as nat) + ", is_write: "@ + bool_text(is_write) + ", dfsc: "@ + dec_text(dfsc as nat) + " }"@,
            VcpuExitReason::Stage2InstructionAbort { ipa, ifsc } => "Stage2InstructionAbort { ipa: "@ + dec_text(ipa as nat) + ", ifsc: "@ + dec_text(ifsc as nat) + " }"@,
            VcpuExitReason::SmcTrap => "SmcTrap"@,
            VcpuExitReason::SysRegTrap => "SysRegTrap"@,
            VcpuExitReason::FpSimdTrap => "FpSimdTrap"@,
            VcpuExitReason::Unknown { ec, iss } => "Unknown { ec: "@ + dec_text(ec as nat) + ", iss: "@ + dec_text(iss as nat) + " }"@,
        }
    }

    /// The exit as it is shown.
    pub(crate) fn debug_string(&self) -> (r: String)
        ensures
            r@ == self.debug_text(),
    {
        match self {
            VcpuExitReason::Hvc { imm, arg0 } => {
                let mut text = String::from_str("Hvc { imm: ");
                append_decimal(&mut text, *imm as u64);
                text.append(", arg0: ");
                append_decimal(&mut text, *arg0);
                text.append(" }");
                text
            }
            VcpuExitReason::Stage2DataAbort { ipa, is_write, dfsc } => {
                let mut text = String::from_str("Stage2DataAbort { ipa: ");
                append_decimal(&mut text, *ipa);
                text.append(", is_write: ");
                append_bool(&mut text, *is_write);
                text.append(", dfsc: ");
                append_decimal(&mut text, *dfsc as u64);
                text.append(" }");
                text
            }
            VcpuExitReason::Stage2InstructionAbort { ipa, ifsc } => {
                let mut text = String::from_str("Stage2InstructionAbort { ipa: ");
                append_decimal(&mut text, *ipa);
                text.append(", ifsc: ");
                append_decimal(&mut text, *ifsc as u64);
                text.append(" }");
                text
            }
            VcpuExitReason::SmcTrap => {
                String::from_str("SmcTrap")
            }
            VcpuExitReason::SysRegTrap => {
                String::from_str("SysRegTrap")
            }
            VcpuExitReason::FpSimdTrap => {
                String::from_str("FpSimdTrap")
            }
            VcpuExitReason::Unknown { ec, iss } => {
                let mut text = String::from_str("Unknown { ec: ");
                append_decimal(&mut text, *ec as u64);
                text.append(", iss: ");
                append_decimal(&mut text, *iss as u64);
                text.append(" }");
                text
            }
        }
    }
}

} // verus!
