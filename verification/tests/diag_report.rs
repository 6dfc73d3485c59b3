use tvisor::aarch64_reg::{
    CnthctlEl2, CntvoffEl2, CptrEl2, CurrentEL, Daif, HcrEl2, IdAa64Mmfr0El1, IdAa64Pfr0El1,
    MairEl2, MpidrEl1, SctlrEl2, Sp, SpSel, TcrEl2, Ttbr0El2, VbarEl2, VtcrEl2, VttbrEl2,
};
use tvisor::diag::DiagState;

fn bit(v: u64, n: u32) -> bool {
    (v >> n) & 1 == 1
}

fn full_state() -> DiagState {
    DiagState {
        current_el: CurrentEL { value: 0x8 },
        mpidr_el1: Some(MpidrEl1 { value: 0x8000_0000_4100_0203 }),
        spsel: Some(SpSel { value: 1 }),
        sp: Sp { value: 0x4008_1f38 },
        sctlr_el2: Some(SctlrEl2 { value: 0x30c5_183d }),
        hcr_el2: Some(HcrEl2 { value: 0x8000_0019 }),
        tcr_el2: Some(TcrEl2 { value: 0x8081_3519 }),
        ttbr0_el2: Some(Ttbr0El2 { value: 0x0001_0000_4020_1001 }),
        mair_el2: Some(MairEl2 { value: 0x0000_0000_0044_ff04 }),
        vtcr_el2: Some(VtcrEl2 { value: 0x8002_3558 }),
        vttbr_el2: Some(VttbrEl2 { value: 0x0001_0000_4030_0000 }),
        vbar_el2: Some(VbarEl2 { value: 0x4008_0800 }),
        daif: Some(Daif { value: 0x3c0 }),
        cptr_el2: Some(CptrEl2 { value: 0x33ff }),
        cnthctl_el2: Some(CnthctlEl2 { value: 0x3 }),
        cntvoff_el2: Some(CntvoffEl2 { value: 0 }),
        id_aa64pfr0_el1: Some(IdAa64Pfr0El1 { value: 0x1100_0000_0101_1111 }),
        id_aa64mmfr0_el1: Some(IdAa64Mmfr0El1 { value: 0x0000_0000_0010_1122 }),
    }
}

#[test]
fn reports_every_register_in_order() {
    let s = full_state();
    let m = 0x8000_0000_4100_0203u64;
    let sctlr = 0x30c5_183du64;
    let hcr = 0x8000_0019u64;
    let tcr = 0x8081_3519u64;
    let ttbr = 0x0001_0000_4020_1001u64;
    let mair = 0x0000_0000_0044_ff04u64;
    let vtcr = 0x8002_3558u64;
    let vttbr = 0x0001_0000_4030_0000u64;
    let pfr0 = 0x1100_0000_0101_1111u64;
    let mmfr0 = 0x0000_0000_0010_1122u64;
    let active = bit(sctlr, 0);
    let vm = bit(hcr, 0);
    let mut expected = String::new();
    expected += &format!("CurrentEL: {:#018x}\n", 0x8u64);
    expected += &format!(
        "MPIDR_EL1: {:#018x} Aff={:x}.{:x}.{:x}.{:x} U={} MT={} Core={}\n",
        m,
        (m >> 32) & 0xff,
        (m >> 16) & 0xff,
        (m >> 8) & 0xff,
        m & 0xff,
        bit(m, 30),
        bit(m, 24),
        m & 0xff
    );
    expected += &format!("    SPSel: {:#018x} {}\n", 1u64, "SP_EL2");
    expected += &format!("       SP: {:#018x} align={:#x}\n", 0x4008_1f38u64, 0x8u64);
    expected += &format!(
        "SCTLR_EL2: {:#018x} M={} A={} C={} SA={} I={} WXN={} EE={}\n",
        sctlr,
        bit(sctlr, 0),
        bit(sctlr, 1),
        bit(sctlr, 2),
        bit(sctlr, 3),
        bit(sctlr, 12),
        bit(sctlr, 19),
        bit(sctlr, 25)
    );
    expected += &format!(
        "  HCR_EL2: {:#018x} VM={} PTW={} FMO={} IMO={} AMO={} VF={} VI={} VSE={} TWI={} TWE={} TTLB={} TVM={} TGE={} HCD={} TRVM={} RW={}\n",
        hcr,
        bit(hcr, 0),
        bit(hcr, 2),
        bit(hcr, 3),
        bit(hcr, 4),
        bit(hcr, 5),
        bit(hcr, 6),
        bit(hcr, 7),
        bit(hcr, 8),
        bit(hcr, 13),
        bit(hcr, 14),
        bit(hcr, 25),
        bit(hcr, 26),
        bit(hcr, 27),
        bit(hcr, 29),
        bit(hcr, 30),
        bit(hcr, 31)
    );
    expected += &format!(
        "  TCR_EL2: {:#018x} active={} T0SZ={} VA_BITS={} IRGN0={:#x} ORGN0={:#x} SH0={:#x} TG0={:#x} PS={:#x} TBI={}\n",
        tcr,
        active,
        tcr & 0x3f,
        64 - (tcr & 0x3f),
        (tcr >> 8) & 3,
        (tcr >> 10) & 3,
        (tcr >> 12) & 3,
        (tcr >> 14) & 3,
        (tcr >> 16) & 7,
        bit(tcr, 20)
    );
    expected += &format!(
        "TTBR0_EL2: {:#018x} active={} BADDR={:#014x} CnP={}\n",
        ttbr,
        active,
        ttbr & 0x0000_ffff_ffff_fffe,
        bit(ttbr, 0)
    );
    expected += &format!(
        " MAIR_EL2: {:#018x} active={} Attr0={:#04x} Attr1={:#04x} Attr2={:#04x} Attr3={:#04x} Attr4={:#04x} Attr5={:#04x} Attr6={:#04x} Attr7={:#04x}\n",
        mair,
        active,
        mair & 0xff,
        (mair >> 8) & 0xff,
        (mair >> 16) & 0xff,
        (mair >> 24) & 0xff,
        (mair >> 32) & 0xff,
        (mair >> 40) & 0xff,
        (mair >> 48) & 0xff,
        (mair >> 56) & 0xff
    );
    expected += &format!(
        " VTCR_EL2: {:#018x} active={} T0SZ={} IPA_BITS={} SL0={:#x} IRGN0={:#x} ORGN0={:#x} SH0={:#x} TG0={:#x} PS={:#x} VS={} DS={}\n",
        vtcr,
        vm,
        vtcr & 0x3f,
        64 - (vtcr & 0x3f),
        (vtcr >> 6) & 3,
        (vtcr >> 8) & 3,
        (vtcr >> 10) & 3,
        (vtcr >> 12) & 3,
        (vtcr >> 14) & 3,
        (vtcr >> 16) & 7,
        bit(vtcr, 19),
        bit(vtcr, 32)
    );
    expected += &format!(
        "VTTBR_EL2: {:#018x} active={} VMID={:#06x} BADDR={:#014x} CnP={}\n",
        vttbr,
        vm,
        (vttbr >> 48) & 0xffff,
        vttbr & 0x0000_ffff_ffff_fffe,
        bit(vttbr, 0)
    );
    expected += &format!(" VBAR_EL2: {:#018x} align={:#x}\n", 0x4008_0800u64, 0u64);
    expected += &format!(
        "     DAIF: {:#018x} D={} A={} I={} F={}\n",
        0x3c0u64, true, true, true, true
    );
    expected += &format!(" CPTR_EL2: {:#018x} TFP={}\n", 0x33ffu64, false);
    expected += &format!(
        "CNTHCTL_EL2: {:#018x} EL1PCTEN={} EL1PCEN={}\n",
        3u64, true, true
    );
    expected += &format!("CNTVOFF_EL2: {:#018x}\n", 0u64);
    expected += &format!(
        "ID_AA64PFR0_EL1: {:#018x} EL2={:#x} FP={:#x} AdvSIMD={:#x} GIC={:#x}\n",
        pfr0,
        (pfr0 >> 8) & 0xf,
        (pfr0 >> 16) & 0xf,
        (pfr0 >> 20) & 0xf,
        (pfr0 >> 24) & 0xf
    );
    expected += &format!(
        "ID_AA64MMFR0_EL1: {:#018x} PARange={:#x} ASIDBits={:#x} TGran4={:#x} TGran16={:#x} TGran64={:#x}\n",
        mmfr0,
        mmfr0 & 0xf,
        (mmfr0 >> 4) & 0xf,
        (mmfr0 >> 28) & 0xf,
        (mmfr0 >> 20) & 0xf,
        (mmfr0 >> 24) & 0xf
    );
    assert_eq!(s.to_string(), expected);
}

#[test]
fn reports_only_registers_that_were_read() {
    let s = DiagState {
        current_el: CurrentEL { value: 0x4 },
        sp: Sp { value: 0x1000_0008 },
        ..DiagState::default()
    };
    assert_eq!(
        s.to_string(),
        "CurrentEL: 0x0000000000000004\n       SP: 0x0000000010000008 align=0x8\n"
    );
}

#[test]
fn mmu_activity_follows_sctlr_and_hcr() {
    let s = DiagState {
        tcr_el2: Some(TcrEl2 { value: 0x19 }),
        vttbr_el2: Some(VttbrEl2 { value: 0 }),
        ..DiagState::default()
    };
    let text = s.to_string();
    assert!(text.contains("  TCR_EL2: 0x0000000000000019 active=false T0SZ=25 VA_BITS=39 "));
    assert!(text.contains("VTTBR_EL2: 0x0000000000000000 active=false VMID=0x0000 BADDR=0x000000000000 CnP=false\n"));
}
