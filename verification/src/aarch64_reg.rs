//! Decoders for the AArch64 system registers that tvisor inspects.
use vstd::prelude::*;
use vstd::string::StringExecFns;

verus! {

/// Bit `bit` of `value` is one.
pub open spec fn bit_is_one(value: u64, bit: u64) -> bool {
    (value >> bit) & 1 == 1
}

pub fn bit_check(value: u64, bit: u64) -> (r: bool)
    requires
        bit < 64,
    ensures
        r == bit_is_one(value, bit),
{
    assert(value & (1u64 << bit) == (1u64 << bit) <==> (value >> bit) & 1 == 1) by (bit_vector)
        requires
            bit < 64,
    ;
    value & (1u64 << bit) == (1u64 << bit)
}

#[derive(Debug, Copy, Clone, PartialEq, Eq, Structural, PartialOrd, Ord)]
pub enum ExceptionLevel {
    Invalid,
    EL0,
    EL1,
    EL2,
    EL3,
}

/// The exception level encoded by `value`, or `Invalid`.
pub open spec fn exception_level_of(value: u64) -> ExceptionLevel {
    if value == 0 {
        ExceptionLevel::EL0
    } else if value == 1 {
        ExceptionLevel::EL1
    } else if value == 2 {
        ExceptionLevel::EL2
    } else if value == 3 {
        ExceptionLevel::EL3
    } else {
        ExceptionLevel::Invalid
    }
}

impl From<u64> for ExceptionLevel {
    fn from(value: u64) -> (r: Self) {
        match value {
            0 => ExceptionLevel::EL0,
            1 => ExceptionLevel::EL1,
            2 => ExceptionLevel::EL2,
            3 => ExceptionLevel::EL3,
            _ => ExceptionLevel::Invalid,
        }
    }
}

impl vstd::std_specs::convert::FromSpecImpl<u64> for ExceptionLevel {
    open spec fn obeys_from_spec() -> bool {
        true
    }

    open spec fn from_spec(v: u64) -> ExceptionLevel {
        exception_level_of(v)
    }
}

#[derive(Debug, Default, Copy, Clone)]
pub struct CurrentEL {
    pub value: u64,
}
impl CurrentEL {
    /// The exception level in bits [3:2].
    pub fn current_el(&self) -> (r: ExceptionLevel)
        ensures
            r == exception_level_of((self.value >> 2) & 3),
    {
        ExceptionLevel::from((self.value >> 2) & 0b11)
    }
}

impl From<CurrentEL> for ExceptionLevel {
    fn from(value: CurrentEL) -> (r: Self) {
        value.current_el()
    }
}

impl vstd::std_specs::convert::FromSpecImpl<CurrentEL> for ExceptionLevel {
    open spec fn obeys_from_spec() -> bool {
        true
    }

    open spec fn from_spec(v: CurrentEL) -> ExceptionLevel {
        exception_level_of((v.value >> 2) & 3)
    }
}

#[derive(Debug, Default, Copy, Clone)]
pub struct MpidrEl1 {
    pub value: u64,
}
impl MpidrEl1 {
    /// Affinity levels 3, 2, 1 and 0.
    pub fn affinity(&self) -> (r: (u8, u8, u8, u8))
        ensures
            r.0 as u64 == (self.value >> 32) & 0xff,
            r.1 as u64 == (self.value >> 16) & 0xff,
            r.2 as u64 == (self.value >> 8) & 0xff,
            r.3 as u64 == self.value & 0xff,
    {
        let mpidr = self.value;
        assert(mpidr & 0xff <= 0xff) by {
            crate::page::lemma_mask_bounds();
        }
        assert((mpidr >> 8) & 0xff <= 0xff) by {
            crate::page::lemma_mask_bounds();
        }
        assert((mpidr >> 16) & 0xff <= 0xff) by {
            crate::page::lemma_mask_bounds();
        }
        assert((mpidr >> 32) & 0xff <= 0xff) by {
            crate::page::lemma_mask_bounds();
        }
        let aff0 = (mpidr & 0xff) as u8;
        let aff1 = ((mpidr >> 8) & 0xff) as u8;
        let aff2 = ((mpidr >> 16) & 0xff) as u8;
        let aff3 = ((mpidr >> 32) & 0xff) as u8;
        (aff3, aff2, aff1, aff0)
    }

    pub fn current_core(&self) -> (r: u8)
        ensures
            r as u64 == self.value & 0xff,
    {
        self.affinity().3
    }

    /// Uniprocessor-system flag.
    pub fn bit_u(&self) -> (r: bool)
        ensures
            r == bit_is_one(self.value, 30),
    {
        bit_check(self.value, 30)
    }

    /// Performance interdependence of PEs at affinity level 0.
    pub fn bit_mt(&self) -> (r: bool)
        ensures
            r == bit_is_one(self.value, 24),
    {
        bit_check(self.value, 24)
    }
}

/// The stack pointer that SPSel value `value` selects at exception level `el`.
pub open spec fn selected_sp(value: u64, el: ExceptionLevel) -> SpEl {
    if value & 1 == 1 {
        match el {
            ExceptionLevel::EL1 => SpEl::SpEL1,
            ExceptionLevel::EL2 => SpEl::SpEL2,
            ExceptionLevel::EL3 => SpEl::SpEL3,
            _ => SpEl::Invalid,
        }
    } else {
        SpEl::SpEL0
    }
}

/// The architectural name of stack pointer `e`.
pub open spec fn sp_el_text(e: SpEl) -> Seq<char> {
    match e {
        SpEl::SpEL0 => "SP_EL0"@,
        SpEl::SpEL1 => "SP_EL1"@,
        SpEl::SpEL2 => "SP_EL2"@,
        SpEl::SpEL3 => "SP_EL3"@,
        SpEl::Invalid => "Invalid"@,
    }
}

#[derive(Debug, Default, Copy, Clone)]
pub struct SpSel {
    pub value: u64,
}
impl SpSel {
    /// The stack pointer selected at `current_el`.
    pub fn sp_el(&self, current_el: ExceptionLevel) -> (r: SpEl)
        ensures
            r == selected_sp(self.value, current_el),
    {
        if self.value & 0x1 == 1 {
            match current_el {
                ExceptionLevel::EL1 => SpEl::SpEL1,
                ExceptionLevel::EL2 => SpEl::SpEL2,
                ExceptionLevel::EL3 => SpEl::SpEL3,
                _ => SpEl::Invalid,
            }
        } else {
            SpEl::SpEL0
        }
    }
}

#[derive(Debug, Copy, Clone, PartialEq, Eq, Structural)]
pub enum SpEl {
    SpEL0,
    SpEL1,
    SpEL2,
    SpEL3,
    Invalid,
}

impl SpEl {
    /// The architectural name of the selected stack pointer.
    pub fn name(&self) -> (r: &'static str)
        ensures
            r@ == sp_el_text(*self),
    {
        match self {
            SpEl::SpEL0 => "SP_EL0",
            SpEl::SpEL1 => "SP_EL1",
            SpEl::SpEL2 => "SP_EL2",
            SpEl::SpEL3 => "SP_EL3",
            SpEl::Invalid => "Invalid",
        }
    }

    /// The architectural name of the selected stack pointer, as a `String`.
    pub fn to_string(&self) -> (r: String)
        ensures
            r@ == sp_el_text(*self),
    {
        String::from_str(self.name())
    }
}

#[derive(Debug, Default, Copy, Clone)]
pub struct Sp {
    pub value: usize,
}
impl Sp {
    pub fn sp(&self) -> (r: usize)
        ensures
            r == self.value,
    {
        self.value
    }

    /// The low four bits; zero for a 16-byte aligned stack.
    pub fn align(&self) -> (r: usize)
        ensures
            r == self.value % 16,
    {
        let v = self.value;
        assert(v & 0xf == v % 16) by {
            vstd::bits::lemma_usize_low_bits_mask_is_mod(v, 4);
            vstd::bits::lemma_low_bits_mask_values();
            vstd::arithmetic::power2::lemma2_to64();
        }
        self.value & 0xf
    }
}

#[derive(Debug, Default, Copy, Clone)]
pub struct SctlrEl2 {
    pub value: u64,
}
impl SctlrEl2 {
    /// EL2 stage-1 MMU enable.
    pub fn bit_m(&self) -> (r: bool)
        ensures
            r == bit_is_one(self.value, 0),
    {
        bit_check(self.value, 0)
    }

    /// Alignment checking enable.
    pub fn bit_a(&self) -> (r: bool)
        ensures
            r == bit_is_one(self.value, 1),
    {
        bit_check(self.value, 1)
    }

    /// Data/unified cache enable.
    pub fn bit_c(&self) -> (r: bool)
        ensures
            r == bit_is_one(self.value, 2),
    {
        bit_check(self.value, 2)
    }

    /// EL2 stack-alignment checking enable.
    pub fn bit_sa(&self) -> (r: bool)
        ensures
            r == bit_is_one(self.value, 3),
    {
        bit_check(self.value, 3)
    }

    /// Instruction-cache enable.
    pub fn bit_i(&self) -> (r: bool)
        ensures
            r == bit_is_one(self.value, 12),
    {
        bit_check(self.value, 12)
    }

    /// Writable mappings are execute-never.
    pub fn bit_wxn(&self) -> (r: bool)
        ensures
            r == bit_is_one(self.value, 19),
    {
        bit_check(self.value, 19)
    }

    /// Big-endian data accesses at EL2.
    pub fn bit_ee(&self) -> (r: bool)
        ensures
            r == bit_is_one(self.value, 25),
    {
        bit_check(self.value, 25)
    }
}

#[derive(Debug, Default, Copy, Clone)]
pub struct HcrEl2 {
    pub value: u64,
}
impl HcrEl2 {
    pub fn bit_vm(&self) -> (r: bool)
        ensures
            r == bit_is_one(self.value, 0),
    {
        bit_check(self.value, 0)
    }

    pub fn bit_ptw(&self) -> (r: bool)
        ensures
            r == bit_is_one(self.value, 2),
    {
        bit_check(self.value, 2)
    }

    pub fn bit_fmo(&self) -> (r: bool)
        ensures
            r == bit_is_one(self.value, 3),
    {
        bit_check(self.value, 3)
    }

    pub fn bit_imo(&self) -> (r: bool)
        ensures
            r == bit_is_one(self.value, 4),
    {
        bit_check(self.value, 4)
    }

    pub fn bit_amo(&self) -> (r: bool)
        ensures
            r == bit_is_one(self.value, 5),
    {
        bit_check(self.value, 5)
    }

    pub fn bit_vf(&self) -> (r: bool)
        ensures
            r == bit_is_one(self.value, 6),
    {
        bit_check(self.value, 6)
    }

    pub fn bit_vi(&self) -> (r: bool)
        ensures
            r == bit_is_one(self.value, 7),
    {
        bit_check(self.value, 7)
    }

    pub fn bit_vse(&self) -> (r: bool)
        ensures
            r == bit_is_one(self.value, 8),
    {
        bit_check(self.value, 8)
    }

    pub fn bit_twi(&self) -> (r: bool)
        ensures
            r == bit_is_one(self.value, 13),
    {
        bit_check(self.value, 13)
    }

    pub fn bit_twe(&self) -> (r: bool)
        ensures
            r == bit_is_one(self.value, 14),
    {
        bit_check(self.value, 14)
    }

    pub fn bit_ttlb(&self) -> (r: bool)
        ensures
            r == bit_is_one(self.value, 25),
    {
        bit_check(self.value, 25)
    }

    pub fn bit_tvm(&self) -> (r: bool)
        ensures
            r == bit_is_one(self.value, 26),
    {
        bit_check(self.value, 26)
    }

    pub fn bit_tge(&self) -> (r: bool)
        ensures
            r == bit_is_one(self.value, 27),
    {
        bit_check(self.value, 27)
    }

    pub fn bit_hcd(&self) -> (r: bool)
        ensures
            r == bit_is_one(self.value, 29),
    {
        bit_check(self.value, 29)
    }

    pub fn bit_trvm(&self) -> (r: bool)
        ensures
            r == bit_is_one(self.value, 30),
    {
        bit_check(self.value, 30)
    }

    pub fn bit_rw(&self) -> (r: bool)
        ensures
            r == bit_is_one(self.value, 31),
    {
        bit_check(self.value, 31)
    }

    /// The EL2 host (VHE) enable.
    pub fn bit_e2h(&self) -> (r: bool)
        ensures
            r == bit_is_one(self.value, 34),
    {
        bit_check(self.value, 34)
    }
}

#[derive(Debug, Default, Copy, Clone)]
pub struct TcrEl2 {
    pub value: u64,
}
impl TcrEl2 {
    pub fn t0sz(&self) -> (r: u8)
        ensures
            r as u64 == self.value & 0x3f,
    {
        let v = self.value;
        assert(v & 0x3f <= 0x3f) by {
            crate::page::lemma_mask_bounds();
        }
        (self.value & 0x3f) as u8
    }

    /// Width of the input address space.
    pub fn input_address_bits(&self) -> (r: u8)
        ensures
            r == 64 - (self.value & 0x3f),
    {
        let v = self.value;
        assert(v & 0x3f <= 0x3f) by {
            crate::page::lemma_mask_bounds();
        }
        64 - self.t0sz()
    }

    pub fn irgn0(&self) -> (r: u8)
        ensures
            r as u64 == (self.value >> 8) & 0x3,
    {
        let v = self.value;
        assert((v >> 8) & 0x3 <= 0x3) by {
            crate::page::lemma_mask_bounds();
        }
        ((self.value >> 8) & 0x3) as u8
    }

    pub fn orgn0(&self) -> (r: u8)
        ensures
            r as u64 == (self.value >> 10) & 0x3,
    {
        let v = self.value;
        assert((v >> 10) & 0x3 <= 0x3) by {
            crate::page::lemma_mask_bounds();
        }
        ((self.value >> 10) & 0x3) as u8
    }

    pub fn sh0(&self) -> (r: u8)
        ensures
            r as u64 == (self.value >> 12) & 0x3,
    {
        let v = self.value;
        assert((v >> 12) & 0x3 <= 0x3) by {
            crate::page::lemma_mask_bounds();
        }
        ((self.value >> 12) & 0x3) as u8
    }

    pub fn tg0(&self) -> (r: u8)
        ensures
            r as u64 == (self.value >> 14) & 0x3,
    {
        let v = self.value;
        assert((v >> 14) & 0x3 <= 0x3) by {
            crate::page::lemma_mask_bounds();
        }
        ((self.value >> 14) & 0x3) as u8
    }

    pub fn ps(&self) -> (r: u8)
        ensures
            r as u64 == (self.value >> 16) & 0x7,
    {
        let v = self.value;
        assert((v >> 16) & 0x7 <= 0x7) by {
            crate::page::lemma_mask_bounds();
        }
        ((self.value >> 16) & 0x7) as u8
    }

    pub fn bit_tbi(&self) -> (r: bool)
        ensures
            r == bit_is_one(self.value, 20),
    {
        bit_check(self.value, 20)
    }
}

#[derive(Debug, Default, Copy, Clone)]
pub struct Ttbr0El2 {
    pub value: u64,
}
impl Ttbr0El2 {
    /// The table base address, bits [47:1].
    pub fn baddr(&self) -> (r: u64)
        ensures
            r == self.value & 0x0000_ffff_ffff_fffe,
    {
        self.value & 0x0000_ffff_ffff_fffe
    }

    pub fn bit_cnp(&self) -> (r: bool)
        ensures
            r == bit_is_one(self.value, 0),
    {
        bit_check(self.value, 0)
    }
}

#[derive(Debug, Default, Copy, Clone)]
pub struct MairEl2 {
    pub value: u64,
}
impl MairEl2 {
    /// The eight attribute bytes, `Attr0` first.
    pub fn attributes(&self) -> (r: [u8; 8])
        ensures
            forall|i: int| 0 <= i < 8 ==> (#[trigger] r@[i]) as u64 == (self.value >> ((8 * i) as u64)) & 0xff,
    {
        let v = self.value;
        assert(forall|s: u64| #![auto] (v >> s) & 0xff <= 0xff) by {
            crate::page::lemma_mask_bounds();
        }
        let r = [
            (v & 0xff) as u8,
            ((v >> 8) & 0xff) as u8,
            ((v >> 16) & 0xff) as u8,
            ((v >> 24) & 0xff) as u8,
            ((v >> 32) & 0xff) as u8,
            ((v >> 40) & 0xff) as u8,
            ((v >> 48) & 0xff) as u8,
            ((v >> 56) & 0xff) as u8,
        ];
        assert(v >> 0u64 == v) by (bit_vector);
        r
    }
}

#[derive(Debug, Default, Copy, Clone)]
pub struct VtcrEl2 {
    pub value: u64,
}
impl VtcrEl2 {
    /// Size offset of the stage-2 input address space.
    pub fn t0sz(&self) -> (r: u8)
        ensures
            r as u64 == self.value & 0x3f,
    {
        let v = self.value;
        assert(v & 0x3f <= 0x3f) by {
            crate::page::lemma_mask_bounds();
        }
        (self.value & 0x3f) as u8
    }

    /// Nominal intermediate-physical-address width.
    pub fn ipa_bits(&self) -> (r: u8)
        ensures
            r == 64 - (self.value & 0x3f),
    {
        let v = self.value;
        assert(v & 0x3f <= 0x3f) by {
            crate::page::lemma_mask_bounds();
        }
        64 - self.t0sz()
    }

    /// Starting level of the stage-2 lookup.
    pub fn sl0(&self) -> (r: u8)
        ensures
            r as u64 == (self.value >> 6) & 0x3,
    {
        let v = self.value;
        assert((v >> 6) & 0x3 <= 0x3) by {
            crate::page::lemma_mask_bounds();
        }
        ((self.value >> 6) & 0x3) as u8
    }

    /// Inner cacheability of stage-2 walks.
    pub fn irgn0(&self) -> (r: u8)
        ensures
            r as u64 == (self.value >> 8) & 0x3,
    {
        let v = self.value;
        assert((v >> 8) & 0x3 <= 0x3) by {
            crate::page::lemma_mask_bounds();
        }
        ((self.value >> 8) & 0x3) as u8
    }

    /// Outer cacheability of stage-2 walks.
    pub fn orgn0(&self) -> (r: u8)
        ensures
            r as u64 == (self.value >> 10) & 0x3,
    {
        let v = self.value;
        assert((v >> 10) & 0x3 <= 0x3) by {
            crate::page::lemma_mask_bounds();
        }
        ((self.value >> 10) & 0x3) as u8
    }

    /// Shareability of stage-2 walks.
    pub fn sh0(&self) -> (r: u8)
        ensures
            r as u64 == (self.value >> 12) & 0x3,
    {
        let v = self.value;
        assert((v >> 12) & 0x3 <= 0x3) by {
            crate::page::lemma_mask_bounds();
        }
        ((self.value >> 12) & 0x3) as u8
    }

    /// Stage-2 translation granule.
    pub fn tg0(&self) -> (r: u8)
        ensures
            r as u64 == (self.value >> 14) & 0x3,
    {
        let v = self.value;
        assert((v >> 14) & 0x3 <= 0x3) by {
            crate::page::lemma_mask_bounds();
        }
        ((self.value >> 14) & 0x3) as u8
    }

    /// Maximum physical output-address size.
    pub fn ps(&self) -> (r: u8)
        ensures
            r as u64 == (self.value >> 16) & 0x7,
    {
        let v = self.value;
        assert((v >> 16) & 0x7 <= 0x7) by {
            crate::page::lemma_mask_bounds();
        }
        ((self.value >> 16) & 0x7) as u8
    }

    /// 16-bit VMID (FEAT_VMID16).
    pub fn bit_vs(&self) -> (r: bool)
        ensures
            r == bit_is_one(self.value, 19),
    {
        bit_check(self.value, 19)
    }

    /// 52-bit IPA and output addresses (FEAT_LPA2).
    pub fn bit_ds(&self) -> (r: bool)
        ensures
            r == bit_is_one(self.value, 32),
    {
        bit_check(self.value, 32)
    }
}

#[derive(Debug, Default, Copy, Clone)]
pub struct VttbrEl2 {
    pub value: u64,
}
impl VttbrEl2 {
    /// The table base address, bits [47:1].
    pub fn baddr(&self) -> (r: u64)
        ensures
            r == self.value & 0x0000_ffff_ffff_fffe,
    {
        self.value & 0x0000_ffff_ffff_fffe
    }

    /// The virtual machine identifier, bits [63:48].
    pub fn vmid(&self) -> (r: u16)
        ensures
            r as u64 == (self.value >> 48) & 0xffff,
    {
        let v = self.value;
        assert((v >> 48) & 0xffff <= 0xffff) by {
            crate::page::lemma_mask_bounds();
        }
        ((self.value >> 48) & 0xffff) as u16
    }

    /// Common-not-Private (FEAT_TTCNP).
    pub fn bit_cnp(&self) -> (r: bool)
        ensures
            r == bit_is_one(self.value, 0),
    {
        bit_check(self.value, 0)
    }
}

#[derive(Debug, Default, Copy, Clone)]
pub struct VbarEl2 {
    pub value: u64,
}
impl VbarEl2 {
    /// The low 11 bits, which are zero for a valid vector base.
    pub fn alignment(&self) -> (r: u64)
        ensures
            r == self.value & 0x7ff,
    {
        self.value & 0x7ff
    }

    pub fn is_aligned(&self) -> (r: bool)
        ensures
            r == (self.value & 0x7ff == 0),
    {
        self.alignment() == 0
    }
}

#[derive(Debug, Default, Copy, Clone)]
pub struct Daif {
    pub value: u64,
}
impl Daif {
    /// Debug exceptions masked.
    pub fn bit_d(&self) -> (r: bool)
        ensures
            r == bit_is_one(self.value, 9),
    {
        bit_check(self.value, 9)
    }

    /// SError exceptions masked.
    pub fn bit_a(&self) -> (r: bool)
        ensures
            r == bit_is_one(self.value, 8),
    {
        bit_check(self.value, 8)
    }

    /// IRQ exceptions masked.
    pub fn bit_i(&self) -> (r: bool)
        ensures
            r == bit_is_one(self.value, 7),
    {
        bit_check(self.value, 7)
    }

    /// FIQ exceptions masked.
    pub fn bit_f(&self) -> (r: bool)
        ensures
            r == bit_is_one(self.value, 6),
    {
        bit_check(self.value, 6)
    }
}

#[derive(Debug, Default, Copy, Clone)]
pub struct CptrEl2 {
    pub value: u64,
}
impl CptrEl2 {
    /// Traps FP/Advanced SIMD at EL0, EL1 and EL2.
    pub fn bit_tfp(&self) -> (r: bool)
        ensures
            r == bit_is_one(self.value, 10),
    {
        bit_check(self.value, 10)
    }
}

#[derive(Debug, Default, Copy, Clone)]
pub struct CnthctlEl2 {
    pub value: u64,
}
impl CnthctlEl2 {
    /// EL1 physical counter access enable.
    pub fn bit_el1pcten(&self) -> (r: bool)
        ensures
            r == bit_is_one(self.value, 0),
    {
        bit_check(self.value, 0)
    }

    /// EL1 physical timer access enable.
    pub fn bit_el1pcen(&self) -> (r: bool)
        ensures
            r == bit_is_one(self.value, 1),
    {
        bit_check(self.value, 1)
    }
}

#[derive(Debug, Default, Copy, Clone)]
pub struct CntvoffEl2 {
    pub value: u64,
}

#[derive(Debug, Default, Copy, Clone)]
pub struct IdAa64Pfr0El1 {
    pub value: u64,
}
impl IdAa64Pfr0El1 {
    /// EL2 support (0 = not implemented).
    pub fn el2(&self) -> (r: u8)
        ensures
            r as u64 == (self.value >> 8) & 0xf,
    {
        let v = self.value;
        assert((v >> 8) & 0xf <= 0xf) by {
            crate::page::lemma_mask_bounds();
        }
        ((self.value >> 8) & 0xf) as u8
    }

    /// Floating point (0 = implemented, 0xf = not).
    pub fn fp(&self) -> (r: u8)
        ensures
            r as u64 == (self.value >> 16) & 0xf,
    {
        let v = self.value;
        assert((v >> 16) & 0xf <= 0xf) by {
            crate::page::lemma_mask_bounds();
        }
        ((self.value >> 16) & 0xf) as u8
    }

    /// Advanced SIMD (0 = implemented, 0xf = not).
    pub fn advsimd(&self) -> (r: u8)
        ensures
            r as u64 == (self.value >> 20) & 0xf,
    {
        let v = self.value;
        assert((v >> 20) & 0xf <= 0xf) by {
            crate::page::lemma_mask_bounds();
        }
        ((self.value >> 20) & 0xf) as u8
    }

    /// System-register GIC CPU interface.
    pub fn gic(&self) -> (r: u8)
        ensures
            r as u64 == (self.value >> 24) & 0xf,
    {
        let v = self.value;
        assert((v >> 24) & 0xf <= 0xf) by {
            crate::page::lemma_mask_bounds();
        }
        ((self.value >> 24) & 0xf) as u8
    }
}

#[derive(Debug, Default, Copy, Clone)]
pub struct IdAa64Mmfr0El1 {
    pub value: u64,
}
impl IdAa64Mmfr0El1 {
    /// Implemented physical-address range.
    pub fn parange(&self) -> (r: u8)
        ensures
            r as u64 == self.value & 0xf,
    {
        let v = self.value;
        assert(v & 0xf <= 0xf) by {
            crate::page::lemma_mask_bounds();
        }
        (self.value & 0xf) as u8
    }

    /// ASID width (0 = 8-bit, 2 = 16-bit).
    pub fn asidbits(&self) -> (r: u8)
        ensures
            r as u64 == (self.value >> 4) & 0xf,
    {
        let v = self.value;
        assert((v >> 4) & 0xf <= 0xf) by {
            crate::page::lemma_mask_bounds();
        }
        ((self.value >> 4) & 0xf) as u8
    }

    /// 16 KiB granule support (0 = not supported).
    pub fn tgran16(&self) -> (r: u8)
        ensures
            r as u64 == (self.value >> 20) & 0xf,
    {
        let v = self.value;
        assert((v >> 20) & 0xf <= 0xf) by {
            crate::page::lemma_mask_bounds();
        }
        ((self.value >> 20) & 0xf) as u8
    }

    /// 64 KiB granule support (0 = supported).
    pub fn tgran64(&self) -> (r: u8)
        ensures
            r as u64 == (self.value >> 24) & 0xf,
    {
        let v = self.value;
        assert((v >> 24) & 0xf <= 0xf) by {
            crate::page::lemma_mask_bounds();
        }
        ((self.value >> 24) & 0xf) as u8
    }

    /// 4 KiB granule support (0 = supported).
    pub fn tgran4(&self) -> (r: u8)
        ensures
            r as u64 == (self.value >> 28) & 0xf,
    {
        let v = self.value;
        assert((v >> 28) & 0xf <= 0xf) by {
            crate::page::lemma_mask_bounds();
        }
        ((self.value >> 28) & 0xf) as u8
    }
}

} // verus!
