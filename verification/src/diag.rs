//! A snapshot of the EL2 system registers that the diagnostics report,
//! and the report itself.
use vstd::prelude::*;
use vstd::string::StringExecFns;
use crate::aarch64_reg::{
    CnthctlEl2, CntvoffEl2, CptrEl2, CurrentEL, Daif, HcrEl2, IdAa64Mmfr0El1, IdAa64Pfr0El1,
    MairEl2, MpidrEl1, SctlrEl2, Sp, SpSel, TcrEl2, Ttbr0El2, VbarEl2, VtcrEl2, VttbrEl2,
    ExceptionLevel, bit_is_one, exception_level_of, selected_sp, sp_el_text,
};
use crate::text::{
    append_bool, append_decimal, append_hex, append_hex_min, append_hex_prefixed, append_hex_wide,
    bool_text, dec_text, hex_min, hex_prefixed, hex_text, hex_wide,
};

verus! {

/// The registers read for a diagnostic report; a register that could not
/// be read at the current exception level is `None`.
#[derive(Debug, Default, Clone, Copy)]
pub struct DiagState {
    pub current_el: CurrentEL,
    pub mpidr_el1: Option<MpidrEl1>,
    pub spsel: Option<SpSel>,
    pub sp: Sp,
    pub sctlr_el2: Option<SctlrEl2>,
    pub hcr_el2: Option<HcrEl2>,
    pub tcr_el2: Option<TcrEl2>,
    pub ttbr0_el2: Option<Ttbr0El2>,
    pub mair_el2: Option<MairEl2>,
    pub vtcr_el2: Option<VtcrEl2>,
    pub vttbr_el2: Option<VttbrEl2>,
    pub vbar_el2: Option<VbarEl2>,
    pub daif: Option<Daif>,
    pub cptr_el2: Option<CptrEl2>,
    pub cnthctl_el2: Option<CnthctlEl2>,
    pub cntvoff_el2: Option<CntvoffEl2>,
    pub id_aa64pfr0_el1: Option<IdAa64Pfr0El1>,
    pub id_aa64mmfr0_el1: Option<IdAa64Mmfr0El1>,
}

/// Attribute `i` of a MAIR value.
pub open spec fn mair_attr(value: u64, i: int) -> u64 {
    (value >> ((8 * i) as u64)) & 0xff
}

/// The report line of CurrentEL: the whole register.
#[verifier::opaque]
pub open spec fn current_el_line(v: CurrentEL) -> Seq<char> {
    "CurrentEL: "@
        + hex_text(v.value)
        + "\n"@
}

fn render_current_el_line(v: &CurrentEL) -> (r: String)
    ensures
        r@ == current_el_line(*v),
{
    let mut t = String::from_str("CurrentEL: ");
    append_hex(&mut t, v.value);
    t.append("\n");
    proof {
        reveal(current_el_line);
    }
    t
}

/// The report line of MPIDR_EL1: affinity levels, U, MT and the core number.
#[verifier::opaque]
pub open spec fn mpidr_line(v: MpidrEl1) -> Seq<char> {
    "MPIDR_EL1: "@
        + hex_text(v.value)
        + " Aff="@
        + hex_min(((v.value >> 32) & 0xff) as nat)
        + "."@
        + hex_min(((v.value >> 16) & 0xff) as nat)
        + "."@
        + hex_min(((v.value >> 8) & 0xff) as nat)
        + "."@
        + hex_min((v.value & 0xff) as nat)
        + " U="@
        + bool_text(bit_is_one(v.value, 30))
        + " MT="@
        + bool_text(bit_is_one(v.value, 24))
        + " Core="@
        + dec_text((v.value & 0xff) as nat)
        + "\n"@
}

fn render_mpidr_line(v: &MpidrEl1) -> (r: String)
    ensures
        r@ == mpidr_line(*v),
{
    let aff = v.affinity();
    let mut t = String::from_str("MPIDR_EL1: ");
    append_hex(&mut t, v.value);
    t.append(" Aff=");
    append_hex_min(&mut t, aff.0 as u64);
    t.append(".");
    append_hex_min(&mut t, aff.1 as u64);
    t.append(".");
    append_hex_min(&mut t, aff.2 as u64);
    t.append(".");
    append_hex_min(&mut t, aff.3 as u64);
    t.append(" U=");
    append_bool(&mut t, v.bit_u());
    t.append(" MT=");
    append_bool(&mut t, v.bit_mt());
    t.append(" Core=");
    append_decimal(&mut t, v.current_core() as u64);
    t.append("\n");
    proof {
        reveal(mpidr_line);
    }
    t
}

/// The report line of SPSel: the stack pointer it selects at exception level `el`.
#[verifier::opaque]
pub open spec fn spsel_line(v: SpSel, el: ExceptionLevel) -> Seq<char> {
    "    SPSel: "@
        + hex_text(v.value)
        + " "@
        + sp_el_text(selected_sp(v.value, el))
        + "\n"@
}

fn render_spsel_line(v: &SpSel, el: ExceptionLevel) -> (r: String)
    ensures
        r@ == spsel_line(*v, el),
{
    let mut t = String::from_str("    SPSel: ");
    append_hex(&mut t, v.value);
    t.append(" ");
    t.append(v.sp_el(el).name());
    t.append("\n");
    proof {
        reveal(spsel_line);
    }
    t
}

/// The report line of The stack pointer and its low four bits.
#[verifier::opaque]
pub open spec fn sp_line(v: Sp) -> Seq<char> {
    "       SP: "@
        + hex_text(v.value as u64)
        + " align="@
        + hex_prefixed((v.value % 16) as nat)
        + "\n"@
}

fn render_sp_line(v: &Sp) -> (r: String)
    ensures
        r@ == sp_line(*v),
{
    let mut t = String::from_str("       SP: ");
    append_hex(&mut t, v.sp() as u64);
    t.append(" align=");
    append_hex_prefixed(&mut t, v.align() as u64);
    t.append("\n");
    proof {
        reveal(sp_line);
    }
    t
}

/// The report line of SCTLR_EL2: its MMU, alignment, cache, stack and endianness controls.
#[verifier::opaque]
pub open spec fn sctlr_line(v: SctlrEl2) -> Seq<char> {
    "SCTLR_EL2: "@
        + hex_text(v.value)
        + " M="@
        + bool_text(bit_is_one(v.value, 0))
        + " A="@
        + bool_text(bit_is_one(v.value, 1))
        + " C="@
        + bool_text(bit_is_one(v.value, 2))
        + " SA="@
        + bool_text(bit_is_one(v.value, 3))
        + " I="@
        + bool_text(bit_is_one(v.value, 12))
        + " WXN="@
        + bool_text(bit_is_one(v.value, 19))
        + " EE="@
        + bool_text(bit_is_one(v.value, 25))
        + "\n"@
}

fn render_sctlr_line(v: &SctlrEl2) -> (r: String)
    ensures
        r@ == sctlr_line(*v),
{
    let mut t = String::from_str("SCTLR_EL2: ");
    append_hex(&mut t, v.value);
    t.append(" M=");
    append_bool(&mut t, v.bit_m());
    t.append(" A=");
    append_bool(&mut t, v.bit_a());
    t.append(" C=");
    append_bool(&mut t, v.bit_c());
    t.append(" SA=");
    append_bool(&mut t, v.bit_sa());
    t.append(" I=");
    append_bool(&mut t, v.bit_i());
    t.append(" WXN=");
    append_bool(&mut t, v.bit_wxn());
    t.append(" EE=");
    append_bool(&mut t, v.bit_ee());
    t.append("\n");
    proof {
        reveal(sctlr_line);
    }
    t
}

/// The report line of HCR_EL2: its virtualization and trap controls.
#[verifier::opaque]
pub open spec fn hcr_line(v: HcrEl2) -> Seq<char> {
    "  HCR_EL2: "@
        + hex_text(v.value)
        + " VM="@
        + bool_text(bit_is_one(v.value, 0))
        + " PTW="@
        + bool_text(bit_is_one(v.value, 2))
        + " FMO="@
        + bool_text(bit_is_one(v.value, 3))
        + " IMO="@
        + bool_text(bit_is_one(v.value, 4))
        + " AMO="@
        + bool_text(bit_is_one(v.value, 5))
        + " VF="@
        + bool_text(bit_is_one(v.value, 6))
        + " VI="@
        + bool_text(bit_is_one(v.value, 7))
        + " VSE="@
        + bool_text(bit_is_one(v.value, 8))
        + " TWI="@
        + bool_text(bit_is_one(v.value, 13))
        + " TWE="@
        + bool_text(bit_is_one(v.value, 14))
        + " TTLB="@
        + bool_text(bit_is_one(v.value, 25))
        + " TVM="@
        + bool_text(bit_is_one(v.value, 26))
        + " TGE="@
        + bool_text(bit_is_one(v.value, 27))
        + " HCD="@
        + bool_text(bit_is_one(v.value, 29))
        + " TRVM="@
        + bool_text(bit_is_one(v.value, 30))
        + " RW="@
        + bool_text(bit_is_one(v.value, 31))
        + "\n"@
}

fn render_hcr_line(v: &HcrEl2) -> (r: String)
    ensures
        r@ == hcr_line(*v),
{
    let mut t = String::from_str("  HCR_EL2: ");
    append_hex(&mut t, v.value);
    t.append(" VM=");
    append_bool(&mut t, v.bit_vm());
    t.append(" PTW=");
    append_bool(&mut t, v.bit_ptw());
    t.append(" FMO=");
    append_bool(&mut t, v.bit_fmo());
    t.append(" IMO=");
    append_bool(&mut t, v.bit_imo());
    t.append(" AMO=");
    append_bool(&mut t, v.bit_amo());
    t.append(" VF=");
    append_bool(&mut t, v.bit_vf());
    t.append(" VI=");
    append_bool(&mut t, v.bit_vi());
    t.append(" VSE=");
    append_bool(&mut t, v.bit_vse());
    t.append(" TWI=");
    append_bool(&mut t, v.bit_twi());
    t.append(" TWE=");
    append_bool(&mut t, v.bit_twe());
    t.append(" TTLB=");
    append_bool(&mut t, v.bit_ttlb());
    t.append(" TVM=");
    append_bool(&mut t, v.bit_tvm());
    t.append(" TGE=");
    append_bool(&mut t, v.bit_tge());
    t.append(" HCD=");
    append_bool(&mut t, v.bit_hcd());
    t.append(" TRVM=");
    append_bool(&mut t, v.bit_trvm());
    t.append(" RW=");
    append_bool(&mut t, v.bit_rw());
    t.append("\n");
    proof {
        reveal(hcr_line);
    }
    t
}

/// The report line of TCR_EL2: its fields, and whether the EL2 MMU uses it (`active`).
#[verifier::opaque]
pub open spec fn tcr_line(v: TcrEl2, active: bool) -> Seq<char> {
    "  TCR_EL2: "@
        + hex_text(v.value)
        + " active="@
        + bool_text(active)
        + " T0SZ="@
        + dec_text((v.value & 0x3f) as nat)
        + " VA_BITS="@
        + dec_text((64 - (v.value & 0x3f)) as nat)
        + " IRGN0="@
        + hex_prefixed(((v.value >> 8) & 0x3) as nat)
        + " ORGN0="@
        + hex_prefixed(((v.value >> 10) & 0x3) as nat)
        + " SH0="@
        + hex_prefixed(((v.value >> 12) & 0x3) as nat)
        + " TG0="@
        + hex_prefixed(((v.value >> 14) & 0x3) as nat)
        + " PS="@
        + hex_prefixed(((v.value >> 16) & 0x7) as nat)
        + " TBI="@
        + bool_text(bit_is_one(v.value, 20))
        + "\n"@
}

fn render_tcr_line(v: &TcrEl2, active: bool) -> (r: String)
    ensures
        r@ == tcr_line(*v, active),
{
    let mut t = String::from_str("  TCR_EL2: ");
    append_hex(&mut t, v.value);
    t.append(" active=");
    append_bool(&mut t, active);
    t.append(" T0SZ=");
    append_decimal(&mut t, v.t0sz() as u64);
    t.append(" VA_BITS=");
    append_decimal(&mut t, v.input_address_bits() as u64);
    t.append(" IRGN0=");
    append_hex_prefixed(&mut t, v.irgn0() as u64);
    t.append(" ORGN0=");
    append_hex_prefixed(&mut t, v.orgn0() as u64);
    t.append(" SH0=");
    append_hex_prefixed(&mut t, v.sh0() as u64);
    t.append(" TG0=");
    append_hex_prefixed(&mut t, v.tg0() as u64);
    t.append(" PS=");
    append_hex_prefixed(&mut t, v.ps() as u64);
    t.append(" TBI=");
    append_bool(&mut t, v.bit_tbi());
    t.append("\n");
    proof {
        reveal(tcr_line);
    }
    t
}

/// The report line of TTBR0_EL2: its table base, and whether the EL2 MMU uses it (`active`).
#[verifier::opaque]
pub open spec fn ttbr0_line(v: Ttbr0El2, active: bool) -> Seq<char> {
    "TTBR0_EL2: "@
        + hex_text(v.value)
        + " active="@
        + bool_text(active)
        + " BADDR="@
        + hex_wide((v.value & 0x0000_ffff_ffff_fffe) as nat, 12)
        + " CnP="@
        + bool_text(bit_is_one(v.value, 0))
        + "\n"@
}

fn render_ttbr0_line(v: &Ttbr0El2, active: bool) -> (r: String)
    ensures
        r@ == ttbr0_line(*v, active),
{
    let mut t = String::from_str("TTBR0_EL2: ");
    append_hex(&mut t, v.value);
    t.append(" active=");
    append_bool(&mut t, active);
    t.append(" BADDR=");
    append_hex_wide(&mut t, v.baddr() as u64, 12);
    t.append(" CnP=");
    append_bool(&mut t, v.bit_cnp());
    t.append("\n");
    proof {
        reveal(ttbr0_line);
    }
    t
}

/// The report line of MAIR_EL2: its eight attributes, and whether the EL2 MMU uses it (`active`).
#[verifier::opaque]
pub open spec fn mair_line(v: MairEl2, active: bool) -> Seq<char> {
    " MAIR_EL2: "@
        + hex_text(v.value)
        + " active="@
        + bool_text(active)
        + " Attr0="@
        + hex_wide((mair_attr(v.value, 0)) as nat, 2)
        + " Attr1="@
        + hex_wide((mair_attr(v.value, 1)) as nat, 2)
        + " Attr2="@
        + hex_wide((mair_attr(v.value, 2)) as nat, 2)
        + " Attr3="@
        + hex_wide((mair_attr(v.value, 3)) as nat, 2)
        + " Attr4="@
        + hex_wide((mair_attr(v.value, 4)) as nat, 2)
        + " Attr5="@
        + hex_wide((mair_attr(v.value, 5)) as nat, 2)
        + " Attr6="@
        + hex_wide((mair_attr(v.value, 6)) as nat, 2)
        + " Attr7="@
        + hex_wide((mair_attr(v.value, 7)) as nat, 2)
        + "\n"@
}

fn render_mair_line(v: &MairEl2, active: bool) -> (r: String)
    ensures
        r@ == mair_line(*v, active),
{
    let attr = v.attributes();
    let mut t = String::from_str(" MAIR_EL2: ");
    append_hex(&mut t, v.value);
    t.append(" active=");
    append_bool(&mut t, active);
    t.append(" Attr0=");
    append_hex_wide(&mut t, attr[0] as u64, 2);
    t.append(" Attr1=");
    append_hex_wide(&mut t, attr[1] as u64, 2);
    t.append(" Attr2=");
    append_hex_wide(&mut t, attr[2] as u64, 2);
    t.append(" Attr3=");
    append_hex_wide(&mut t, attr[3] as u64, 2);
    t.append(" Attr4=");
    append_hex_wide(&mut t, attr[4] as u64, 2);
    t.append(" Attr5=");
    append_hex_wide(&mut t, attr[5] as u64, 2);
    t.append(" Attr6=");
    append_hex_wide(&mut t, attr[6] as u64, 2);
    t.append(" Attr7=");
    append_hex_wide(&mut t, attr[7] as u64, 2);
    t.append("\n");
    proof {
        reveal(mair_line);
    }
    t
}

/// The report line of VTCR_EL2: its fields, and whether stage 2 translation uses it (`active`).
#[verifier::opaque]
pub open spec fn vtcr_line(v: VtcrEl2, active: bool) -> Seq<char> {
    " VTCR_EL2: "@
        + hex_text(v.value)
        + " active="@
        + bool_text(active)
        + " T0SZ="@
        + dec_text((v.value & 0x3f) as nat)
        + " IPA_BITS="@
        + dec_text((64 - (v.value & 0x3f)) as nat)
        + " SL0="@
        + hex_prefixed(((v.value >> 6) & 0x3) as nat)
        + " IRGN0="@
        + hex_prefixed(((v.value >> 8) & 0x3) as nat)
        + " ORGN0="@
        + hex_prefixed(((v.value >> 10) & 0x3) as nat)
        + " SH0="@
        + hex_prefixed(((v.value >> 12) & 0x3) as nat)
        + " TG0="@
        + hex_prefixed(((v.value >> 14) & 0x3) as nat)
        + " PS="@
        + hex_prefixed(((v.value >> 16) & 0x7) as nat)
        + " VS="@
        + bool_text(bit_is_one(v.value, 19))
        + " DS="@
        + bool_text(bit_is_one(v.value, 32))
        + "\n"@
}

fn render_vtcr_line(v: &VtcrEl2, active: bool) -> (r: String)
    ensures
        r@ == vtcr_line(*v, active),
{
    let mut t = String::from_str(" VTCR_EL2: ");
    append_hex(&mut t, v.value);
    t.append(" active=");
    append_bool(&mut t, active);
    t.append(" T0SZ=");
    append_decimal(&mut t, v.t0sz() as u64);
    t.append(" IPA_BITS=");
    append_decimal(&mut t, v.ipa_bits() as u64);
    t.append(" SL0=");
    append_hex_prefixed(&mut t, v.sl0() as u64);
    t.append(" IRGN0=");
    append_hex_prefixed(&mut t, v.irgn0() as u64);
    t.append(" ORGN0=");
    append_hex_prefixed(&mut t, v.orgn0() as u64);
    t.append(" SH0=");
    append_hex_prefixed(&mut t, v.sh0() as u64);
    t.append(" TG0=");
    append_hex_prefixed(&mut t, v.tg0() as u64);
    t.append(" PS=");
    append_hex_prefixed(&mut t, v.ps() as u64);
    t.append(" VS=");
    append_bool(&mut t, v.bit_vs());
    t.append(" DS=");
    append_bool(&mut t, v.bit_ds());
    t.append("\n");
    proof {
        reveal(vtcr_line);
    }
    t
}

/// The report line of VTTBR_EL2: its VMID and table base, and whether stage 2 translation uses it (`active`).
#[verifier::opaque]
pub open spec fn vttbr_line(v: VttbrEl2, active: bool) -> Seq<char> {
    "VTTBR_EL2: "@
        + hex_text(v.value)
        + " active="@
        + bool_text(active)
        + " VMID="@
        + hex_wide(((v.value >> 48) & 0xffff) as nat, 4)
        + " BADDR="@
        + hex_wide((v.value & 0x0000_ffff_ffff_fffe) as nat, 12)
        + " CnP="@
        + bool_text(bit_is_one(v.value, 0))
        + "\n"@
}

fn render_vttbr_line(v: &VttbrEl2, active: bool) -> (r: String)
    ensures
        r@ == vttbr_line(*v, active),
{
    let mut t = String::from_str("VTTBR_EL2: ");
    append_hex(&mut t, v.value);
    t.append(" active=");
    append_bool(&mut t, active);
    t.append(" VMID=");
    append_hex_wide(&mut t, v.vmid() as u64, 4);
    t.append(" BADDR=");
    append_hex_wide(&mut t, v.baddr() as u64, 12);
    t.append(" CnP=");
    append_bool(&mut t, v.bit_cnp());
    t.append("\n");
    proof {
        reveal(vttbr_line);
    }
    t
}

/// The report line of VBAR_EL2 and its low eleven bits.
#[verifier::opaque]
pub open spec fn vbar_line(v: VbarEl2) -> Seq<char> {
    " VBAR_EL2: "@
        + hex_text(v.value)
        + " align="@
        + hex_prefixed((v.value & 0x7ff) as nat)
        + "\n"@
}

fn render_vbar_line(v: &VbarEl2) -> (r: String)
    ensures
        r@ == vbar_line(*v),
{
    let mut t = String::from_str(" VBAR_EL2: ");
    append_hex(&mut t, v.value);
    t.append(" align=");
    append_hex_prefixed(&mut t, v.alignment() as u64);
    t.append("\n");
    proof {
        reveal(vbar_line);
    }
    t
}

/// The report line of DAIF: its four exception masks.
#[verifier::opaque]
pub open spec fn daif_line(v: Daif) -> Seq<char> {
    "     DAIF: "@
        + hex_text(v.value)
        + " D="@
        + bool_text(bit_is_one(v.value, 9))
        + " A="@
        + bool_text(bit_is_one(v.value, 8))
        + " I="@
        + bool_text(bit_is_one(v.value, 7))
        + " F="@
        + bool_text(bit_is_one(v.value, 6))
        + "\n"@
}

fn render_daif_line(v: &Daif) -> (r: String)
    ensures
        r@ == daif_line(*v),
{
    let mut t = String::from_str("     DAIF: ");
    append_hex(&mut t, v.value);
    t.append(" D=");
    append_bool(&mut t, v.bit_d());
    t.append(" A=");
    append_bool(&mut t, v.bit_a());
    t.append(" I=");
    append_bool(&mut t, v.bit_i());
    t.append(" F=");
    append_bool(&mut t, v.bit_f());
    t.append("\n");
    proof {
        reveal(daif_line);
    }
    t
}

/// The report line of CPTR_EL2 and its floating-point trap.
#[verifier::opaque]
pub open spec fn cptr_line(v: CptrEl2) -> Seq<char> {
    " CPTR_EL2: "@
        + hex_text(v.value)
        + " TFP="@
        + bool_text(bit_is_one(v.value, 10))
        + "\n"@
}

fn render_cptr_line(v: &CptrEl2) -> (r: String)
    ensures
        r@ == cptr_line(*v),
{
    let mut t = String::from_str(" CPTR_EL2: ");
    append_hex(&mut t, v.value);
    t.append(" TFP=");
    append_bool(&mut t, v.bit_tfp());
    t.append("\n");
    proof {
        reveal(cptr_line);
    }
    t
}

/// The report line of CNTHCTL_EL2 and its EL1 counter and timer access controls.
#[verifier::opaque]
pub open spec fn cnthctl_line(v: CnthctlEl2) -> Seq<char> {
    "CNTHCTL_EL2: "@
        + hex_text(v.value)
        + " EL1PCTEN="@
        + bool_text(bit_is_one(v.value, 0))
        + " EL1PCEN="@
        + bool_text(bit_is_one(v.value, 1))
        + "\n"@
}

fn render_cnthctl_line(v: &CnthctlEl2) -> (r: String)
    ensures
        r@ == cnthctl_line(*v),
{
    let mut t = String::from_str("CNTHCTL_EL2: ");
    append_hex(&mut t, v.value);
    t.append(" EL1PCTEN=");
    append_bool(&mut t, v.bit_el1pcten());
    t.append(" EL1PCEN=");
    append_bool(&mut t, v.bit_el1pcen());
    t.append("\n");
    proof {
        reveal(cnthctl_line);
    }
    t
}

/// The report line of CNTVOFF_EL2.
#[verifier::opaque]
pub open spec fn cntvoff_line(v: CntvoffEl2) -> Seq<char> {
    "CNTVOFF_EL2: "@
        + hex_text(v.value)
        + "\n"@
}

fn render_cntvoff_line(v: &CntvoffEl2) -> (r: String)
    ensures
        r@ == cntvoff_line(*v),
{
    let mut t = String::from_str("CNTVOFF_EL2: ");
    append_hex(&mut t, v.value);
    t.append("\n");
    proof {
        reveal(cntvoff_line);
    }
    t
}

/// The report line of ID_AA64PFR0_EL1: EL2, FP, AdvSIMD and GIC support.
#[verifier::opaque]
pub open spec fn pfr0_line(v: IdAa64Pfr0El1) -> Seq<char> {
    "ID_AA64PFR0_EL1: "@
        + hex_text(v.value)
        + " EL2="@
        + hex_prefixed(((v.value >> 8) & 0xf) as nat)
        + " FP="@
        + hex_prefixed(((v.value >> 16) & 0xf) as nat)
        + " AdvSIMD="@
        + hex_prefixed(((v.value >> 20) & 0xf) as nat)
        + " GIC="@
        + hex_prefixed(((v.value >> 24) & 0xf) as nat)
        + "\n"@
}

fn render_pfr0_line(v: &IdAa64Pfr0El1) -> (r: String)
    ensures
        r@ == pfr0_line(*v),
{
    let mut t = String::from_str("ID_AA64PFR0_EL1: ");
    append_hex(&mut t, v.value);
    t.append(" EL2=");
    append_hex_prefixed(&mut t, v.el2() as u64);
    t.append(" FP=");
    append_hex_prefixed(&mut t, v.fp() as u64);
    t.append(" AdvSIMD=");
    append_hex_prefixed(&mut t, v.advsimd() as u64);
    t.append(" GIC=");
    append_hex_prefixed(&mut t, v.gic() as u64);
    t.append("\n");
    proof {
        reveal(pfr0_line);
    }
    t
}

/// The report line of ID_AA64MMFR0_EL1: physical address range, ASID width and granule support.
#[verifier::opaque]
pub open spec fn mmfr0_line(v: IdAa64Mmfr0El1) -> Seq<char> {
    "ID_AA64MMFR0_EL1: "@
        + hex_text(v.value)
        + " PARange="@
        + hex_prefixed((v.value & 0xf) as nat)
        + " ASIDBits="@
        + hex_prefixed(((v.value >> 4) & 0xf) as nat)
        + " TGran4="@
        + hex_prefixed(((v.value >> 28) & 0xf) as nat)
        + " TGran16="@
        + hex_prefixed(((v.value >> 20) & 0xf) as nat)
        + " TGran64="@
        + hex_prefixed(((v.value >> 24) & 0xf) as nat)
        + "\n"@
}

fn render_mmfr0_line(v: &IdAa64Mmfr0El1) -> (r: String)
    ensures
        r@ == mmfr0_line(*v),
{
    let mut t = String::from_str("ID_AA64MMFR0_EL1: ");
    append_hex(&mut t, v.value);
    t.append(" PARange=");
    append_hex_prefixed(&mut t, v.parange() as u64);
    t.append(" ASIDBits=");
    append_hex_prefixed(&mut t, v.asidbits() as u64);
    t.append(" TGran4=");
    append_hex_prefixed(&mut t, v.tgran4() as u64);
    t.append(" TGran16=");
    append_hex_prefixed(&mut t, v.tgran16() as u64);
    t.append(" TGran64=");
    append_hex_prefixed(&mut t, v.tgran64() as u64);
    t.append("\n");
    proof {
        reveal(mmfr0_line);
    }
    t
}

/// `text` followed by `line` of the register `reg`, where it was read.
pub open spec fn then_line<T>(text: Seq<char>, reg: Option<T>, line: spec_fn(T) -> Seq<char>) -> Seq<char> {
    match reg {
        Some(v) => text + line(v),
        None => text,
    }
}

/// Whether the EL2 MMU is on, by SCTLR_EL2.M, where SCTLR_EL2 was read.
pub open spec fn mmu_on(s: DiagState) -> bool {
    match s.sctlr_el2 {
        Some(c) => bit_is_one(c.value, 0),
        None => false,
    }
}

/// Whether stage 2 translation is on, by HCR_EL2.VM, where HCR_EL2 was read.
pub open spec fn stage2_on(s: DiagState) -> bool {
    match s.hcr_el2 {
        Some(h) => bit_is_one(h.value, 0),
        None => false,
    }
}

/// The CurrentEL line and the report lines of the registers from MPIDR_EL1
/// to MAIR_EL2 that were read.
pub open spec fn diag_head(s: DiagState) -> Seq<char> {
    let el = exception_level_of((s.current_el.value >> 2) & 3);
    let t = current_el_line(s.current_el);
    let t = then_line(t, s.mpidr_el1, |v: MpidrEl1| mpidr_line(v));
    let t = then_line(t, s.spsel, |v: SpSel| spsel_line(v, el));
    let t = t + sp_line(s.sp);
    let t = then_line(t, s.sctlr_el2, |v: SctlrEl2| sctlr_line(v));
    let t = then_line(t, s.hcr_el2, |v: HcrEl2| hcr_line(v));
    let t = then_line(t, s.tcr_el2, |v: TcrEl2| tcr_line(v, mmu_on(s)));
    let t = then_line(t, s.ttbr0_el2, |v: Ttbr0El2| ttbr0_line(v, mmu_on(s)));
    let t = then_line(t, s.mair_el2, |v: MairEl2| mair_line(v, mmu_on(s)));
    t
}

/// `text` followed by the report lines of the registers from VTCR_EL2 to
/// ID_AA64MMFR0_EL1 that were read.
pub open spec fn diag_tail(s: DiagState, text: Seq<char>) -> Seq<char> {
    let t = text;
    let t = then_line(t, s.vtcr_el2, |v: VtcrEl2| vtcr_line(v, stage2_on(s)));
    let t = then_line(t, s.vttbr_el2, |v: VttbrEl2| vttbr_line(v, stage2_on(s)));
    let t = then_line(t, s.vbar_el2, |v: VbarEl2| vbar_line(v));
    let t = then_line(t, s.daif, |v: Daif| daif_line(v));
    let t = then_line(t, s.cptr_el2, |v: CptrEl2| cptr_line(v));
    let t = then_line(t, s.cnthctl_el2, |v: CnthctlEl2| cnthctl_line(v));
    let t = then_line(t, s.cntvoff_el2, |v: CntvoffEl2| cntvoff_line(v));
    let t = then_line(t, s.id_aa64pfr0_el1, |v: IdAa64Pfr0El1| pfr0_line(v));
    let t = then_line(t, s.id_aa64mmfr0_el1, |v: IdAa64Mmfr0El1| mmfr0_line(v));
    t
}

/// The diagnostic report of `s`: one line per register that was read, in a
/// fixed order, each ending in a newline.
pub open spec fn diag_report(s: DiagState) -> Seq<char> {
    diag_tail(s, diag_head(s))
}

impl DiagState {
    fn render_head(&self) -> (r: String)
        ensures
            r@ == diag_head(*self),
    {
        let el = self.current_el.current_el();
        let mmu = match &self.sctlr_el2 {
            Some(c) => c.bit_m(),
            None => false,
        };
        let mut t = render_current_el_line(&self.current_el);
        let ghost before = t@;
        if let Some(v) = &self.mpidr_el1 {
            t.append(render_mpidr_line(v).as_str());
        }
        assert(t@ == then_line(before, self.mpidr_el1, |v: MpidrEl1| mpidr_line(v)));
        let ghost before = t@;
        if let Some(v) = &self.spsel {
            t.append(render_spsel_line(v, el).as_str());
        }
        assert(t@ == then_line(before, self.spsel, |v: SpSel| spsel_line(v, exception_level_of((self.current_el.value >> 2) & 3))));
        t.append(render_sp_line(&self.sp).as_str());
        let ghost before = t@;
        if let Some(v) = &self.sctlr_el2 {
            t.append(render_sctlr_line(v).as_str());
        }
        assert(t@ == then_line(before, self.sctlr_el2, |v: SctlrEl2| sctlr_line(v)));
        let ghost before = t@;
        if let Some(v) = &self.hcr_el2 {
            t.append(render_hcr_line(v).as_str());
        }
        assert(t@ == then_line(before, self.hcr_el2, |v: HcrEl2| hcr_line(v)));
        let ghost before = t@;
        if let Some(v) = &self.tcr_el2 {
            t.append(render_tcr_line(v, mmu).as_str());
        }
        assert(t@ == then_line(before, self.tcr_el2, |v: TcrEl2| tcr_line(v, mmu_on(*self))));
        let ghost before = t@;
        if let Some(v) = &self.ttbr0_el2 {
            t.append(render_ttbr0_line(v, mmu).as_str());
        }
        assert(t@ == then_line(before, self.ttbr0_el2, |v: Ttbr0El2| ttbr0_line(v, mmu_on(*self))));
        let ghost before = t@;
        if let Some(v) = &self.mair_el2 {
            t.append(render_mair_line(v, mmu).as_str());
        }
        assert(t@ == then_line(before, self.mair_el2, |v: MairEl2| mair_line(v, mmu_on(*self))));
        t
    }

    fn append_tail(&self, t: &mut String)
        ensures
            final(t)@ == diag_tail(*self, old(t)@),
    {
        let stage2 = match &self.hcr_el2 {
            Some(h) => h.bit_vm(),
            None => false,
        };
        let ghost before = t@;
        if let Some(v) = &self.vtcr_el2 {
            t.append(render_vtcr_line(v, stage2).as_str());
        }
        assert(t@ == then_line(before, self.vtcr_el2, |v: VtcrEl2| vtcr_line(v, stage2_on(*self))));
        let ghost before = t@;
        if let Some(v) = &self.vttbr_el2 {
            t.append(render_vttbr_line(v, stage2).as_str());
        }
        assert(t@ == then_line(before, self.vttbr_el2, |v: VttbrEl2| vttbr_line(v, stage2_on(*self))));
        let ghost before = t@;
        if let Some(v) = &self.vbar_el2 {
            t.append(render_vbar_line(v).as_str());
        }
        assert(t@ == then_line(before, self.vbar_el2, |v: VbarEl2| vbar_line(v)));
        let ghost before = t@;
        if let Some(v) = &self.daif {
            t.append(render_daif_line(v).as_str());
        }
        assert(t@ == then_line(before, self.daif, |v: Daif| daif_line(v)));
        let ghost before = t@;
        if let Some(v) = &self.cptr_el2 {
            t.append(render_cptr_line(v).as_str());
        }
        assert(t@ == then_line(before, self.cptr_el2, |v: CptrEl2| cptr_line(v)));
        let ghost before = t@;
        if let Some(v) = &self.cnthctl_el2 {
            t.append(render_cnthctl_line(v).as_str());
        }
        assert(t@ == then_line(before, self.cnthctl_el2, |v: CnthctlEl2| cnthctl_line(v)));
        let ghost before = t@;
        if let Some(v) = &self.cntvoff_el2 {
            t.append(render_cntvoff_line(v).as_str());
        }
        assert(t@ == then_line(before, self.cntvoff_el2, |v: CntvoffEl2| cntvoff_line(v)));
        let ghost before = t@;
        if let Some(v) = &self.id_aa64pfr0_el1 {
            t.append(render_pfr0_line(v).as_str());
        }
        assert(t@ == then_line(before, self.id_aa64pfr0_el1, |v: IdAa64Pfr0El1| pfr0_line(v)));
        let ghost before = t@;
        if let Some(v) = &self.id_aa64mmfr0_el1 {
            t.append(render_mmfr0_line(v).as_str());
        }
        assert(t@ == then_line(before, self.id_aa64mmfr0_el1, |v: IdAa64Mmfr0El1| mmfr0_line(v)));
    }

    /// The diagnostic report: one line per register that was read.
    pub fn to_string(&self) -> (r: String)
        ensures
            r@ == diag_report(*self),
    {
        let mut t = self.render_head();
        self.append_tail(&mut t);
        t
    }
}

} // verus!
