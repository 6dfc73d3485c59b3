use tvisor::aarch64_reg::{CnthctlEl2, CptrEl2, Daif, IdAa64Mmfr0El1, IdAa64Pfr0El1, VtcrEl2, VttbrEl2};


#[test]
fn vtcr_el2_decodes_every_field() {
    // Set each field to a distinct, non-trivial value at its architectural position.
    let raw = 0b100001_u64 // T0SZ [5:0] = 33
        | (0b01_u64 << 6) // SL0 [7:6] = 1
        | (0b10_u64 << 8) // IRGN0 [9:8] = 2
        | (0b11_u64 << 10) // ORGN0 [11:10] = 3
        | (0b01_u64 << 12) // SH0 [13:12] = 1
        | (0b10_u64 << 14) // TG0 [15:14] = 2
        | (0b101_u64 << 16) // PS [18:16] = 5
        | (1_u64 << 19) // VS [19] = 1
        | (1_u64 << 32); // DS [32] = 1

    let r = VtcrEl2 { value: raw };
    assert_eq!(r.t0sz(), 33);
    assert_eq!(r.ipa_bits(), 31);
    assert_eq!(r.sl0(), 1);
    assert_eq!(r.irgn0(), 2);
    assert_eq!(r.orgn0(), 3);
    assert_eq!(r.sh0(), 1);
    assert_eq!(r.tg0(), 2);
    assert_eq!(r.ps(), 5);
    assert!(r.bit_vs());
    assert!(r.bit_ds());
}

#[test]
fn vtcr_el2_fields_do_not_overlap() {
    // A value with every bit set must decode each field to its full mask width,
    // catching any accessor that reads too many (or too few) bits.
    let r = VtcrEl2 { value: u64::MAX };
    assert_eq!(r.t0sz(), 0x3f);
    assert_eq!(r.sl0(), 0b11);
    assert_eq!(r.irgn0(), 0b11);
    assert_eq!(r.orgn0(), 0b11);
    assert_eq!(r.sh0(), 0b11);
    assert_eq!(r.tg0(), 0b11);
    assert_eq!(r.ps(), 0b111);
    assert!(r.bit_vs());
    assert!(r.bit_ds());
}

#[test]
fn vttbr_el2_decodes_vmid_baddr_and_cnp() {
    let vmid = 0x1234_u64;
    let baddr = 0x0000_0a5a_5a5a_u64 & 0x0000_ffff_ffff_fffe;
    // Bit 0 is CnP, not part of BADDR.
    let raw = (vmid << 48) | baddr | 1_u64;

    let r = VttbrEl2 { value: raw };
    assert_eq!(r.vmid(), 0x1234);
    assert_eq!(r.baddr(), baddr);
    assert!(r.bit_cnp());
}

#[test]
fn vttbr_el2_baddr_excludes_cnp_bit() {
    // Bit 0 must never leak into BADDR, and the VMID field must never leak
    // into BADDR either.
    let r = VttbrEl2 {
        value: 0xffff_ffff_ffff_ffff,
    };
    assert_eq!(r.baddr(), 0x0000_ffff_ffff_fffe);
    assert_eq!(r.vmid(), 0xffff);
    assert!(r.bit_cnp());
}

#[test]
fn daif_decodes_each_mask_bit() {
    // D/A/I/F live at bits 9/8/7/6 and must not bleed into one another.
    assert!(Daif { value: 1 << 9 }.bit_d());
    assert!(!Daif { value: 1 << 9 }.bit_a());
    assert!(Daif { value: 1 << 8 }.bit_a());
    assert!(!Daif { value: 1 << 8 }.bit_i());
    assert!(Daif { value: 1 << 7 }.bit_i());
    assert!(!Daif { value: 1 << 7 }.bit_f());
    assert!(Daif { value: 1 << 6 }.bit_f());
    assert!(!Daif { value: 1 << 6 }.bit_d());
}

#[test]
fn daif_reserved_bits_are_ignored() {
    // Bits above 9 are RES0 and must not decode as any mask.
    let r = Daif { value: 1 << 63 };
    assert!(!r.bit_d());
    assert!(!r.bit_a());
    assert!(!r.bit_i());
    assert!(!r.bit_f());
}

#[test]
fn cptr_el2_decodes_tfp() {
    assert!(CptrEl2 { value: 1 << 10 }.bit_tfp());
    assert!(!CptrEl2 { value: 0 }.bit_tfp());
}

#[test]
fn cptr_el2_tfp_does_not_leak_from_other_bits() {
    // RES1 bits [13:12] and [9:0] are set but TFP must stay clear.
    let r = CptrEl2 {
        value: (0b11 << 12) | 0x3ff,
    };
    assert!(!r.bit_tfp());
}
#[test]
fn cnthctl_el2_decodes_access_bits() {
    assert!(CnthctlEl2 { value: 1 << 0 }.bit_el1pcten());
    assert!(!CnthctlEl2 { value: 1 << 0 }.bit_el1pcen());
    assert!(CnthctlEl2 { value: 1 << 1 }.bit_el1pcen());
    assert!(!CnthctlEl2 { value: 1 << 1 }.bit_el1pcten());
}

#[test]
fn cnthctl_el2_reserved_bits_do_not_leak() {
    // A high reserved bit must not decode as EL1PCTEN/EL1PCEN.
    let r = CnthctlEl2 { value: 1 << 63 };
    assert!(!r.bit_el1pcten());
    assert!(!r.bit_el1pcen());
}
#[test]
fn id_aa64pfr0_el1_decodes_fields() {
    let raw = (0b0001_u64 << 8) // EL2 [11:8] = 1 (AArch64 only)
        | (0b0000_u64 << 16) // FP [19:16] = 0 (implemented)
        | (0b1111_u64 << 20) // AdvSIMD [23:20] = 0xf (not implemented)
        | (0b0011_u64 << 24); // GIC [27:24] = 3 (v4.1)

    let r = IdAa64Pfr0El1 { value: raw };
    assert_eq!(r.el2(), 1);
    assert_eq!(r.fp(), 0);
    assert_eq!(r.advsimd(), 0xf);
    assert_eq!(r.gic(), 3);
}

#[test]
fn id_aa64pfr0_el1_fields_do_not_overlap() {
    let r = IdAa64Pfr0El1 { value: u64::MAX };
    assert_eq!(r.el2(), 0xf);
    assert_eq!(r.fp(), 0xf);
    assert_eq!(r.advsimd(), 0xf);
    assert_eq!(r.gic(), 0xf);
}

#[test]
fn id_aa64mmfr0_el1_decodes_fields() {
    let raw = (0b0110_u64 << 0) // PARange [3:0] = 6 (52-bit)
        | (0b0010_u64 << 4) // ASIDBits [7:4] = 2 (16-bit)
        | (0b0001_u64 << 20) // TGran16 [23:20] = 1 (supported)
        | (0b0000_u64 << 24) // TGran64 [27:24] = 0 (supported)
        | (0b0000_u64 << 28); // TGran4 [31:28] = 0 (supported)

    let r = IdAa64Mmfr0El1 { value: raw };
    assert_eq!(r.parange(), 6);
    assert_eq!(r.asidbits(), 2);
    assert_eq!(r.tgran16(), 1);
    assert_eq!(r.tgran64(), 0);
    assert_eq!(r.tgran4(), 0);
}

#[test]
fn id_aa64mmfr0_el1_fields_do_not_overlap() {
    let r = IdAa64Mmfr0El1 { value: u64::MAX };
    assert_eq!(r.parange(), 0xf);
    assert_eq!(r.asidbits(), 0xf);
    assert_eq!(r.tgran16(), 0xf);
    assert_eq!(r.tgran64(), 0xf);
    assert_eq!(r.tgran4(), 0xf);
}
