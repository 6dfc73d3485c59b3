use tvisor::gicv2::{
    GICH_LR_HW, GICH_LR_INTID_MASK, GICH_LR_PRIORITY_SHIFT, VirtualGicV2State, queue_timer_ppi,
    queue_uart_spi,
};

#[test]
fn timer_lr_is_reusable_after_invalid_state() {
    let mut state = VirtualGicV2State {
        timer_lr: GICH_LR_HW | 27,
        ..VirtualGicV2State::default()
    };
    assert!(!state.timer_in_flight());
    queue_timer_ppi(&mut state, 27).unwrap();
    assert!(state.timer_in_flight());
    assert_eq!(state.timer_lr & GICH_LR_INTID_MASK, 27);
    assert_eq!(
        state.timer_lr & (0x1f << GICH_LR_PRIORITY_SHIFT),
        0x10 << 23
    );
}

#[test]
fn uart_spi_uses_a_software_list_register() {
    let mut state = VirtualGicV2State::default();
    queue_uart_spi(&mut state, 33).unwrap();
    assert!(state.uart_in_flight());
    assert_eq!(state.uart_lr & GICH_LR_INTID_MASK, 33);
    assert_eq!(state.uart_lr & GICH_LR_HW, 0);
}

#[test]
fn list_registers_in_flight_are_not_queued_twice() {
    let mut state = VirtualGicV2State::default();
    queue_timer_ppi(&mut state, 27).unwrap();
    let before = state;
    assert_eq!(queue_timer_ppi(&mut state, 27), Err(()));
    assert_eq!(state, before);
    queue_uart_spi(&mut state, 33).unwrap();
    assert_eq!(queue_uart_spi(&mut state, 33), Err(()));
    let mut fresh = VirtualGicV2State::default();
    assert_eq!(queue_uart_spi(&mut fresh, 0x400), Err(()));
}
