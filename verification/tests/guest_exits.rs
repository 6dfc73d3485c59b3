use tvisor::exception::{ExceptionFrame, resume_deliberate_exception};
use tvisor::gicv2::VirtualGicV2State;
use tvisor::guest::{
    ExitKind, GuestExitError, IrqClass, classify_irq, exit_kind, handle_synchronous_exception,
    inject_pending_uart, needs_end_of_interrupt,
};
use tvisor::heap::{HeapError, validate_arena};
use tvisor::mmio::{ESR_ISV, ESR_SAS_SHIFT, ESR_SRT_SHIFT, ESR_WNR, MmioDispatcher, PL011_IMSC};
use tvisor::vcpu::{Vcpu, VcpuContext, VcpuExit, VcpuExitReason, VcpuMmioError};

fn data_abort(is_write: bool, register: u32) -> u64 {
    (0x24_u64 << 26)
        | (ESR_ISV | (2 << ESR_SAS_SHIFT) | (register << ESR_SRT_SHIFT) | if is_write {
            ESR_WNR
        } else {
            0
        }) as u64
}

fn tvisor_test_vcpu(exit: VcpuExit) -> Vcpu {
    let mut vcpu = Vcpu::new(0x4008_0000, 0x4100_0000);
    vcpu.set_exit(exit);
    vcpu
}

#[test]
fn a_new_vcpu_starts_at_el1h_with_interrupts_masked() {
    let context = VcpuContext::new(0x4008_0000, 0x4100_0000);
    assert_eq!(context.elr_el2, 0x4008_0000);
    assert_eq!(context.sp_el1, 0x4100_0000);
    assert_eq!(context.spsr_el2, 0x3c5);
    assert_eq!(context.sctlr_el1, 0x00c5_0838);
    assert_eq!(context.x, [0; 31]);
    let linux = Vcpu::new_linux(0x4008_0000, 0x40c8_0000);
    assert_eq!(linux.context().x[0], 0x40c8_0000);
    assert_eq!(linux.context().x[1], 0);
    assert_eq!(*linux.exit(), VcpuExit::default());
}

#[test]
fn exits_decode_by_exception_class() {
    let context = VcpuContext::new(0, 0);
    let hvc = VcpuExit {
        vector: 8,
        esr_el2: (0x16 << 26) | 0x1234,
        far_el2: 0,
        hpfar_el2: 0,
    };
    assert_eq!(
        hvc.decode_reason(&context),
        VcpuExitReason::Hvc { imm: 0x1234, arg0: 0 }
    );
    let abort = VcpuExit {
        vector: 8,
        esr_el2: (0x24 << 26) | (1 << 6) | 0x07,
        far_el2: 0xffff_0abc,
        hpfar_el2: 0x0900_0 << 4,
    };
    assert_eq!(abort.fault_ipa(), 0x0900_0abc);
    assert_eq!(
        abort.decode_reason(&context),
        VcpuExitReason::Stage2DataAbort {
            ipa: 0x0900_0abc,
            is_write: true,
            dfsc: 0x07
        }
    );
    let unknown = VcpuExit {
        vector: 8,
        esr_el2: (0x3f << 26) | 0x55,
        far_el2: 0,
        hpfar_el2: 0,
    };
    assert_eq!(
        unknown.decode_reason(&context),
        VcpuExitReason::Unknown { ec: 0x3f, iss: 0x55 }
    );
    assert_eq!(
        VcpuExit { vector: 8, esr_el2: 0x07 << 26, far_el2: 0, hpfar_el2: 0 }.decode_reason(&context),
        VcpuExitReason::FpSimdTrap
    );
}

#[test]
fn trapped_uart_writes_advance_the_guest_pc_and_return_the_byte() {
    let mut context = VcpuContext::new(0x4008_0000, 0);
    context.x[3] = b'Z' as u64;
    let exit = VcpuExit {
        vector: 8,
        esr_el2: data_abort(true, 3),
        far_el2: 0,
        hpfar_el2: 0x0900_0 << 4,
    };
    let mut dispatcher = MmioDispatcher::new();
    assert_eq!(
        context.emulate_stage2_mmio(&exit, &mut dispatcher),
        Ok(Some(b'Z'))
    );
    assert_eq!(context.elr_el2, 0x4008_0004);
    let unmapped = VcpuExit {
        vector: 8,
        esr_el2: data_abort(false, 3),
        far_el2: 0,
        hpfar_el2: 0x0a00_0 << 4,
    };
    assert!(matches!(
        context.emulate_stage2_mmio(&unmapped, &mut dispatcher),
        Err(VcpuMmioError::Emulation(_))
    ));
    assert_eq!(context.elr_el2, 0x4008_0004);
    let mut end = VcpuContext::new(u64::MAX - 1, 0);
    assert_eq!(
        end.emulate_stage2_mmio(&exit, &mut dispatcher),
        Err(VcpuMmioError::ProgramCounterOverflow)
    );
}

#[test]
fn only_trapped_device_aborts_are_emulated() {
    let mut dispatcher = MmioDispatcher::new();
    let mut vcpu = tvisor_test_vcpu(VcpuExit {
        vector: 8,
        esr_el2: data_abort(false, 2),
        far_el2: 0x18,
        hpfar_el2: 0x0900_0 << 4,
    });
    assert_eq!(handle_synchronous_exception(&mut vcpu, &mut dispatcher), Ok(None));
    assert_eq!(vcpu.context().x[2], (1 << 7) | (1 << 4));
    let mut elsewhere = tvisor_test_vcpu(VcpuExit {
        vector: 8,
        esr_el2: data_abort(false, 2),
        far_el2: 0,
        hpfar_el2: 0x4000_0 << 4,
    });
    assert_eq!(
        handle_synchronous_exception(&mut elsewhere, &mut dispatcher),
        Err(GuestExitError::InvalidIpa(0x4000_0000))
    );
    let mut hvc = tvisor_test_vcpu(VcpuExit {
        vector: 8,
        esr_el2: 0x16 << 26,
        far_el2: 0,
        hpfar_el2: 0,
    });
    assert!(matches!(
        handle_synchronous_exception(&mut hvc, &mut dispatcher),
        Err(GuestExitError::UnexpectedException(VcpuExitReason::Hvc { .. }))
    ));
}

#[test]
fn interrupts_and_exits_are_classified() {
    assert_eq!(classify_irq(27, Some(125)), IrqClass::VirtualTimer);
    assert_eq!(classify_irq(125, Some(125)), IrqClass::HostConsole);
    assert_eq!(classify_irq(125, None), IrqClass::Unexpected);
    assert!(!needs_end_of_interrupt(1023));
    assert!(needs_end_of_interrupt(30));
    assert_eq!(exit_kind(9), ExitKind::Irq);
    assert_eq!(exit_kind(8), ExitKind::Synchronous);
    assert_eq!(exit_kind(0), ExitKind::Other);
}

#[test]
fn the_uart_interrupt_is_queued_once_while_input_waits() {
    let mut dispatcher = MmioDispatcher::new();
    let mut gic = VirtualGicV2State::default();
    assert!(!inject_pending_uart(&mut gic, &dispatcher));
    assert!(dispatcher.enqueue_pl011_rx(b'k'));
    assert!(!inject_pending_uart(&mut gic, &dispatcher));
    let mut registers = [0_u64; 31];
    registers[1] = 0x10;
    let access = tvisor::mmio::MmioAccess::decode_data_abort(
        data_abort(true, 1),
        0x0900_0000 + PL011_IMSC,
    )
    .unwrap();
    dispatcher.emulate(access, &mut registers).unwrap();
    assert!(inject_pending_uart(&mut gic, &dispatcher));
    assert!(gic.uart_in_flight());
    assert!(!inject_pending_uart(&mut gic, &dispatcher));
}

#[test]
fn only_the_deliberate_breakpoint_is_resumed() {
    let mut frame = ExceptionFrame {
        x: [0; 31],
        vector: 4,
        elr_el2: 0x0400_1000,
        spsr_el2: 0x3c9,
        esr_el2: (0x3c << 26) | 0x600,
        far_el2: 0,
    };
    assert!(resume_deliberate_exception(&mut frame));
    assert_eq!(frame.elr_el2, 0x0400_1004);
    let mut other = ExceptionFrame {
        esr_el2: (0x3c << 26) | 0x601,
        ..frame
    };
    assert!(!resume_deliberate_exception(&mut other));
    assert_eq!(other.elr_el2, 0x0400_1004);
}

#[test]
fn heap_arenas_are_checked() {
    assert_eq!(validate_arena(0x1000, 0x1000), Ok(()));
    assert_eq!(validate_arena(0, 0x1000), Err(HeapError::InvalidRegion));
    assert_eq!(validate_arena(0x1000, 8), Err(HeapError::InvalidRegion));
    assert_eq!(validate_arena(usize::MAX, 0x100), Err(HeapError::InvalidRegion));
}
