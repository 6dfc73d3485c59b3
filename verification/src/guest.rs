//! The decisions that tvisor takes on a running guest's exits: which
//! synchronous exits it emulates, which interrupts it forwards, and when the
//! virtual UART interrupt is queued.
use vstd::prelude::*;
use crate::text::{append_decimal, append_hex, dec_text, hex_text};
use vstd::string::StringExecFns;
use crate::el2_translation::TranslationError;
use crate::gicv2::{GicV2Error, SPURIOUS_IRQ, VirtualGicV2State, queue_uart_spi};
use crate::guest_platform::{guest_gicd, guest_pl011};
use crate::mmio::MmioDispatcher;
use crate::vcpu::{Vcpu, VcpuExitReason, VcpuMmioError, stage2_mmio_emulated};
use crate::virtual_timer::VIRTUAL_TIMER_PPI;

verus! {

/// The SPI that the virtual PL011 raises in the guest.
pub const VIRTUAL_PL011_IRQ: u32 = 33;
/// The exception vector slot of an IRQ from a lower EL.
pub const LOWER_EL_IRQ_VECTOR: u64 = 9;
/// The exception vector slot of a synchronous exception from a lower EL.
pub const LOWER_EL_SYNC_VECTOR: u64 = 8;

/// Why Linux execution returned to EL2 instead of continuing its run.
#[derive(Debug, Clone, Copy, PartialEq, Eq, Structural)]
pub enum GuestRunError {
    Translation(TranslationError),
    GicV2(GicV2Error),
    Exited { vector: u64, esr_el2: u64, reason: VcpuExitReason },
}

impl From<GicV2Error> for GuestRunError {
    fn from(value: GicV2Error) -> (r: Self)
        ensures
            r == GuestRunError::GicV2(value),
    {
        GuestRunError::GicV2(value)
    }
}

impl vstd::std_specs::convert::FromSpecImpl<GicV2Error> for GuestRunError {
    open spec fn obeys_from_spec() -> bool {
        true
    }

    open spec fn from_spec(value: GicV2Error) -> GuestRunError {
        GuestRunError::GicV2(value)
    }
}

impl From<TranslationError> for GuestRunError {
    fn from(error: TranslationError) -> (r: Self)
        ensures
            r == GuestRunError::Translation(error),
    {
        GuestRunError::Translation(error)
    }
}

impl vstd::std_specs::convert::FromSpecImpl<TranslationError> for GuestRunError {
    open spec fn obeys_from_spec() -> bool {
        true
    }

    open spec fn from_spec(error: TranslationError) -> GuestRunError {
        GuestRunError::Translation(error)
    }
}

/// Why a synchronous guest exit ends the guest's run.
#[derive(Debug, Clone, Copy, PartialEq, Eq, Structural)]
pub enum GuestExitError {
    /// The exit is not a stage-2 data abort.
    UnexpectedException(VcpuExitReason),
    /// The data abort is outside every trapped virtual device.
    InvalidIpa(u64),
    /// The trapped access could not be emulated.
    Emulation(VcpuMmioError),
}

/// The IPA lies in the virtual GIC distributor or the virtual PL011.
pub open spec fn trapped_device_ipa(ipa: u64) -> bool {
    0x0800_0000 <= ipa < 0x0800_1000 || 0x0900_0000 <= ipa < 0x0900_1000
}

/// Handles a synchronous exit: only a stage-2 data abort on a trapped
/// virtual device is emulated, returning the byte that the guest sent to
/// its UART, if any.
pub fn handle_synchronous_exception(vcpu: &mut Vcpu, dispatcher: &mut MmioDispatcher) -> (r:
    Result<Option<u8>, GuestExitError>)
    requires
        old(dispatcher).wf(),
    ensures
        final(dispatcher).wf(),
        final(vcpu).exit_spec() == old(vcpu).exit_spec(),
        final(vcpu).timer_spec() == old(vcpu).timer_spec(),
        final(vcpu).gic_spec() == old(vcpu).gic_spec(),
        ({
            let reason = old(vcpu).exit_spec().reason_spec(old(vcpu).context_spec().x@[0]);
            match reason {
                VcpuExitReason::Stage2DataAbort { ipa, .. } => if trapped_device_ipa(ipa) {
                    exists|inner: Result<Option<u8>, VcpuMmioError>|
                        {
                            &&& stage2_mmio_emulated(
                                old(vcpu).context_spec(),
                                final(vcpu).context_spec(),
                                old(vcpu).exit_spec(),
                                old(dispatcher).rx_fifo(),
                                old(dispatcher).rx_mask(),
                                old(dispatcher).gicd_ctlr(),
                                final(dispatcher).rx_fifo(),
                                final(dispatcher).rx_mask(),
                                final(dispatcher).gicd_ctlr(),
                                inner,
                            )
                            &&& r == match inner {
                                Ok(byte) => Ok(byte),
                                Err(e) => Err(GuestExitError::Emulation(e)),
                            }
                        }
                } else {
                    &&& r == Err::<Option<u8>, GuestExitError>(GuestExitError::InvalidIpa(ipa))
                    &&& final(vcpu).context_spec() == old(vcpu).context_spec()
                    &&& final(dispatcher).rx_fifo() == old(dispatcher).rx_fifo()
                    &&& final(dispatcher).rx_mask() == old(dispatcher).rx_mask()
                    &&& final(dispatcher).gicd_ctlr() == old(dispatcher).gicd_ctlr()
                },
                _ => {
                    &&& r == Err::<Option<u8>, GuestExitError>(
                        GuestExitError::UnexpectedException(reason),
                    )
                    &&& final(vcpu).context_spec() == old(vcpu).context_spec()
                    &&& final(dispatcher).rx_fifo() == old(dispatcher).rx_fifo()
                    &&& final(dispatcher).rx_mask() == old(dispatcher).rx_mask()
                    &&& final(dispatcher).gicd_ctlr() == old(dispatcher).gicd_ctlr()
                },
            }
        }),
{
    let reason = vcpu.exit().decode_reason(vcpu.context());
    let ipa = match reason {
        VcpuExitReason::Stage2DataAbort { ipa, .. } => ipa,
        _ => return Err(GuestExitError::UnexpectedException(reason)),
    };
    let mut is_trapped_mmio = false;
    let gicd = guest_gicd();
    let gicd_start = gicd.start();
    if let Some(gicd_end) = gicd.end() {
        if ipa >= gicd_start && ipa < gicd_end {
            is_trapped_mmio = true;
        }
    }
    let pl011 = guest_pl011();
    let pl011_start = pl011.start();
    if let Some(pl011_end) = pl011.end() {
        if ipa >= pl011_start && ipa < pl011_end {
            is_trapped_mmio = true;
        }
    }
    if !is_trapped_mmio {
        return Err(GuestExitError::InvalidIpa(ipa));
    }
    let exit = *vcpu.exit();
    let context = vcpu.context_mut();
    match context.emulate_stage2_mmio(&exit, dispatcher) {
        Ok(byte) => Ok(byte),
        Err(e) => Err(GuestExitError::Emulation(e)),
    }
}

/// How a physical interrupt taken while a guest runs is handled.
#[derive(Debug, Clone, Copy, PartialEq, Eq, Structural)]
pub enum IrqClass {
    /// The guest's virtual timer fired: forward it as the timer PPI.
    VirtualTimer,
    /// The host console has input: drain it into the virtual UART.
    HostConsole,
    /// Anything else ends the guest's run.
    Unexpected,
}

/// Classifies an acknowledged interrupt ID given the host console's
/// interrupt, if one was discovered.
pub fn classify_irq(irq: u32, host_console_irq: Option<u32>) -> (r: IrqClass)
    ensures
        r == (if irq == VIRTUAL_TIMER_PPI {
            IrqClass::VirtualTimer
        } else if host_console_irq == Some(irq) {
            IrqClass::HostConsole
        } else {
            IrqClass::Unexpected
        }),
        irq == 27 ==> r == IrqClass::VirtualTimer,
        irq != 27 && host_console_irq == Some(irq) ==> r == IrqClass::HostConsole,
        irq != 27 && host_console_irq != Some(irq) ==> r == IrqClass::Unexpected,
{
    if crate::gicv2::is_timer_ppi(irq, VIRTUAL_TIMER_PPI) {
        return IrqClass::VirtualTimer;
    }
    match host_console_irq {
        Some(console) => if console == irq {
            IrqClass::HostConsole
        } else {
            IrqClass::Unexpected
        },
        None => IrqClass::Unexpected,
    }
}

/// An unexpected interrupt is still ended at the GIC, unless it is the
/// spurious ID.
pub fn needs_end_of_interrupt(irq: u32) -> (r: bool)
    ensures
        r == (irq != SPURIOUS_IRQ),
        r == (irq != 1023),
{
    irq != SPURIOUS_IRQ
}

/// Before each entry into the guest: queue the virtual UART interrupt when
/// its receive interrupt is pending and no earlier one is still in flight.
pub fn inject_pending_uart(gic: &mut VirtualGicV2State, dispatcher: &MmioDispatcher) -> (r: bool)
    requires
        dispatcher.wf(),
    ensures
        r == (dispatcher.rx_fifo().len() != 0 && dispatcher.rx_mask() & crate::mmio::PL011_RXIM
            != 0 && old(gic).uart_lr & crate::gicv2::GICH_LR_STATE_MASK == 0),
        r ==> *final(gic) == (VirtualGicV2State {
            uart_lr: crate::gicv2::GICH_LR_PENDING | crate::gicv2::lr_priority_spec(0x80)
                | VIRTUAL_PL011_IRQ,
            ..*old(gic)
        }),
        !r ==> *final(gic) == *old(gic),
{
    if dispatcher.pl011_rx_irq_pending() && !gic.uart_in_flight() {
        let queued = queue_uart_spi(gic, VIRTUAL_PL011_IRQ);
        return queued.is_ok();
    }
    false
}

/// What the exit taken through `vector` asks of the run loop.
#[derive(Debug, Clone, Copy, PartialEq, Eq, Structural)]
pub enum ExitKind {
    Irq,
    Synchronous,
    Other,
}

pub fn exit_kind(vector: u64) -> (r: ExitKind)
    ensures
        r == (if vector == LOWER_EL_IRQ_VECTOR {
            ExitKind::Irq
        } else if vector == LOWER_EL_SYNC_VECTOR {
            ExitKind::Synchronous
        } else {
            ExitKind::Other
        }),
        vector == 9 ==> r == ExitKind::Irq,
        vector == 8 ==> r == ExitKind::Synchronous,
        vector != 8 && vector != 9 ==> r == ExitKind::Other,
{
    if vector == LOWER_EL_IRQ_VECTOR {
        ExitKind::Irq
    } else if vector == LOWER_EL_SYNC_VECTOR {
        ExitKind::Synchronous
    } else {
        ExitKind::Other
    }
}

impl GuestRunError {
    /// Why the guest stopped, in words.
    pub open spec fn message(self) -> Seq<char> {
        match self {
            GuestRunError::Translation(e) => "guest translation setup failed: "@ + e.debug_text(),
            GuestRunError::GicV2(e) => "GicV2 setup failed: "@ + e.message(),
            GuestRunError::Exited { vector, esr_el2, reason } => "Linux guest exited at EL2 vector "@ + dec_text(vector as nat) + " (ESR_EL2="@ + hex_text(esr_el2) + "): "@ + reason.debug_text(),
        }
    }

    /// The error in words.
    pub fn to_string(&self) -> (r: String)
        ensures
            r@ == self.message(),
    {
        match self {
            GuestRunError::Translation(e) => {
                let mut text = String::from_str("guest translation setup failed: ");
                text.append(e.debug_name());
                text
            }
            GuestRunError::GicV2(e) => {
                let mut text = String::from_str("GicV2 setup failed: ");
                let inner = e.to_string();
                text.append(inner.as_str());
                text
            }
            GuestRunError::Exited { vector, esr_el2, reason } => {
                let mut text = String::from_str("Linux guest exited at EL2 vector ");
                append_decimal(&mut text, *vector);
                text.append(" (ESR_EL2=");
                append_hex(&mut text, *esr_el2);
                text.append("): ");
                let inner = reason.debug_string();
                text.append(inner.as_str());
                text
            }
        }
    }
}

} // verus!
