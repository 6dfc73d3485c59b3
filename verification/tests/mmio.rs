use tvisor::guest_platform::{guest_gicd, guest_pl011};
use tvisor::mmio::{
    ESR_SSE, MmioDecodeError, ESR_ISV, ESR_SAS_SHIFT, ESR_SRT_SHIFT, ESR_WNR, MmioAccess, MmioDispatcher,
    MmioEmulationError, Pl011Result, VirtualPl011,
};

fn data_abort_iss(is_write: bool, width_encoding: u32, register: u32) -> u64 {
    (ESR_ISV
        | (width_encoding << ESR_SAS_SHIFT)
        | (register << ESR_SRT_SHIFT)
        | if is_write { ESR_WNR } else { 0 }) as u64
}

#[test]
fn decodes_access_direction_width_and_register() {
    let access =
        MmioAccess::decode_data_abort(data_abort_iss(true, 2, 7), guest_pl011().start()).unwrap();
    assert_eq!(
        access,
        MmioAccess {
            ipa: guest_pl011().start(),
            is_write: true,
            width: 4,
            register: 7,
            register_is_64bit: false
        }
    );
}

#[test]
fn pl011_tx_and_status_update_guest_registers() {
    let mut dispatcher = MmioDispatcher::default();
    let mut registers = [0_u64; 31];
    registers[3] = b'A' as u64;
    let tx = dispatcher
        .emulate(
            MmioAccess::decode_data_abort(data_abort_iss(true, 0, 3), guest_pl011().start())
                .unwrap(),
            &mut registers,
        )
        .unwrap();
    assert_eq!(tx, Some(b'A'));
    let status = dispatcher
        .emulate(
            MmioAccess::decode_data_abort(
                data_abort_iss(false, 2, 5),
                guest_pl011().start() + 0x18,
            )
            .unwrap(),
            &mut registers,
        )
        .unwrap();
    assert_eq!(status, None);
    assert_eq!(registers[5], (1 << 7) | (1 << 4));

    for (register, offset, expected) in [(0, 0xfe0, 0x11), (1, 0xfe4, 0x10), (2, 0xfe8, 0x04)] {
        dispatcher
            .emulate(
                MmioAccess::decode_data_abort(
                    data_abort_iss(false, 2, register),
                    guest_pl011().start() + offset,
                )
                .unwrap(),
                &mut registers,
            )
            .unwrap();
        assert_eq!(registers[register as usize], expected);
    }
}

#[test]
fn pl011_rx_fifo_drives_status_and_masked_interrupt() {
    let mut uart = VirtualPl011::default();
    assert!(uart.enqueue_rx(b'x'));
    assert_eq!(
        uart.access(VirtualPl011::FR, false, 4, 0).unwrap(),
        Pl011Result::Read(VirtualPl011::FR_TX_READY)
    );
    assert_eq!(
        uart.access(VirtualPl011::RIS, false, 4, 0).unwrap(),
        Pl011Result::Read(VirtualPl011::RXIM as u64)
    );
    assert!(!uart.rx_irq_pending());
    uart.access(VirtualPl011::IMSC, true, 4, VirtualPl011::RXIM as u64)
        .unwrap();
    assert!(uart.rx_irq_pending());
    assert_eq!(
        uart.access(VirtualPl011::DR, false, 4, 0).unwrap(),
        Pl011Result::Read(b'x' as u64)
    );
    assert!(!uart.rx_irq_pending());
    assert_eq!(
        uart.access(VirtualPl011::FR, false, 4, 0).unwrap(),
        Pl011Result::Read(VirtualPl011::FR_TX_READY | VirtualPl011::FR_RXFE)
    );
}

#[test]
fn gic_distributor_discovery_and_configuration_are_emulated() {
    let mut dispatcher = MmioDispatcher::default();
    let mut registers = [0_u64; 31];

    dispatcher
        .emulate(
            MmioAccess::decode_data_abort(
                data_abort_iss(false, 2, 3),
                guest_gicd().start() + 0x004,
            )
            .unwrap(),
            &mut registers,
        )
        .unwrap();
    assert_eq!(registers[3], 1);

    registers[4] = 1;
    dispatcher
        .emulate(
            MmioAccess::decode_data_abort(data_abort_iss(true, 2, 4), guest_gicd().start())
                .unwrap(),
            &mut registers,
        )
        .unwrap();
    dispatcher
        .emulate(
            MmioAccess::decode_data_abort(data_abort_iss(false, 2, 5), guest_gicd().start())
                .unwrap(),
            &mut registers,
        )
        .unwrap();
    assert_eq!(registers[5], 1);

    dispatcher
        .emulate(
            MmioAccess::decode_data_abort(
                data_abort_iss(false, 2, 6),
                guest_gicd().start() + 0x800,
            )
            .unwrap(),
            &mut registers,
        )
        .unwrap();
    assert_eq!(registers[6], 0x0101_0101);

    dispatcher
        .emulate(
            MmioAccess::decode_data_abort(
                data_abort_iss(false, 2, 7),
                guest_gicd().start() + 0xc00,
            )
            .unwrap(),
            &mut registers,
        )
        .unwrap();
    assert_eq!(registers[7], 0);

    dispatcher
        .emulate(
            MmioAccess::decode_data_abort(
                data_abort_iss(true, 2, 7),
                guest_gicd().start() + 0xc00,
            )
            .unwrap(),
            &mut registers,
        )
        .unwrap();
}

#[test]
fn rejects_unknown_devices_and_tolerates_pl011_control_accesses() {
    let mut dispatcher = MmioDispatcher::default();
    let mut registers = [0_u64; 31];
    let access =
        MmioAccess::decode_data_abort(data_abort_iss(false, 2, 0), 0x0802_0000).unwrap();
    assert_eq!(
        dispatcher.emulate(access, &mut registers),
        Err(MmioEmulationError::UnmappedIpa(0x0802_0000))
    );
    let access =
        MmioAccess::decode_data_abort(data_abort_iss(false, 2, 0), guest_pl011().start())
            .unwrap();
    assert_eq!(dispatcher.emulate(access, &mut registers), Ok(None));
    assert_eq!(registers[0], 0);
}

#[test]
fn decoding_rejects_missing_syndromes_and_sign_extending_reads() {
    assert_eq!(
        MmioAccess::decode_data_abort(0, 0x0900_0000),
        Err(MmioDecodeError::InstructionSyndromeInvalid)
    );
    assert_eq!(
        MmioAccess::decode_data_abort((ESR_ISV | ESR_SSE) as u64, 0x0900_0000),
        Err(MmioDecodeError::SignExtendingRead)
    );
}

#[test]
fn received_bytes_are_read_in_arrival_order() {
    let mut uart = VirtualPl011::default();
    assert!(uart.enqueue_rx(b'a'));
    assert!(uart.enqueue_rx(b'b'));
    assert_eq!(
        uart.access(VirtualPl011::DR, false, 4, 0).unwrap(),
        Pl011Result::Read(b'a' as u64)
    );
    assert!(uart.enqueue_rx(b'c'));
    assert_eq!(
        uart.access(VirtualPl011::DR, false, 4, 0).unwrap(),
        Pl011Result::Read(b'b' as u64)
    );
    assert_eq!(
        uart.access(VirtualPl011::DR, false, 4, 0).unwrap(),
        Pl011Result::Read(b'c' as u64)
    );
    assert_eq!(
        uart.access(VirtualPl011::DR, false, 4, 0).unwrap(),
        Pl011Result::Read(0)
    );
}

#[test]
fn receive_fifo_holds_sixty_four_bytes() {
    let mut uart = VirtualPl011::default();
    for i in 0..64u8 {
        assert!(uart.enqueue_rx(i));
    }
    assert!(!uart.enqueue_rx(0xff));
    assert_eq!(
        uart.access(VirtualPl011::DR, false, 4, 0).unwrap(),
        Pl011Result::Read(0)
    );
}
