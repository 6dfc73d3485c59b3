use tvisor::stage2_translation::{
    ACCESS_FLAG, ADDRESS_MASK, CPTR_EL2_TFP, HCR_EL2_RW, HCR_EL2_VM, MEM_ATTR_DEVICE_NGNRE,
    S2AP_READ_ONLY, SH_NONE, Stage2Access, Stage2Exec, Stage2MemoryType, TABLE_OR_PAGE, VALID,
    XN_NON_EXEC, encode_l3_page_descriptor, stage2_register_values,
};

#[test]
fn stage2_register_values_encodes_expected_fields() {
    let root_pa = 0x0500_0000;
    let regs = stage2_register_values(1, root_pa, 0b0010).expect("valid regs");

    assert_eq!(regs.vtcr_el2 & 0x3f, 25); // T0SZ = 25 (39 bits)
    assert_eq!((regs.vtcr_el2 >> 6) & 0x3, 0b01); // SL0 = Level 1
    assert_eq!((regs.vtcr_el2 >> 14) & 0x3, 0b00); // TG0 = 4 KiB
    assert_eq!((regs.vtcr_el2 >> 16) & 0x7, 0b0010); // PS = 40 bits
    assert_eq!((regs.vtcr_el2 >> 31) & 0x1, 1); // RES1

    assert_eq!((regs.vttbr_el2 >> 48) & 0xff, 1); // VMID = 1
    assert_eq!(regs.vttbr_el2 & ADDRESS_MASK, root_pa);

    assert_eq!(regs.hcr_el2 & HCR_EL2_VM, HCR_EL2_VM);
    assert_eq!(regs.hcr_el2 & HCR_EL2_RW, HCR_EL2_RW);
    assert_eq!(regs.cptr_el2 & CPTR_EL2_TFP, 0);
    assert_eq!(regs.vmpidr_el2, 0xC000_0000);
}

#[test]
fn stage2_encodes_device_and_readonly_attributes() {
    let desc = encode_l3_page_descriptor(
        0x2000_0000,
        Stage2MemoryType::DeviceNgNre,
        Stage2Access::ReadOnly,
        Stage2Exec::ExecuteNever,
    );
    assert_eq!(desc & VALID, VALID);
    assert_eq!(desc & TABLE_OR_PAGE, TABLE_OR_PAGE);
    assert_eq!(desc & (0b1111 << 2), MEM_ATTR_DEVICE_NGNRE);
    assert_eq!(desc & (0b11 << 6), S2AP_READ_ONLY);
    assert_eq!(desc & (0b11 << 8), SH_NONE);
    assert_eq!(desc & ACCESS_FLAG, ACCESS_FLAG);
    assert_eq!(desc & (0b11 << 53), XN_NON_EXEC);
    assert_eq!(desc & ADDRESS_MASK, 0x2000_0000);
}
