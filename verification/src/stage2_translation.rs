//! Stage-2 translation descriptors and control-register values for guest
//! EL1/EL0 execution: a 39-bit IPA space, 4 KiB granule, level-1 start.
use vstd::prelude::*;
use crate::el2_translation::{TranslationError, pa_bits_from_parange, pa_bits_of};

verus! {

pub const IPA_BITS: u8 = 39;

pub const L1_SHIFT: u32 = 30;
pub const L2_SHIFT: u32 = 21;
pub const L3_SHIFT: u32 = 12;
pub const ADDRESS_MASK: u64 = 0x0000_ffff_ffff_f000;

pub const VALID: u64 = 1;
pub const TABLE_OR_PAGE: u64 = 2;
pub const MEM_ATTR_NORMAL_WB_WA: u64 = 0x3c;
pub const MEM_ATTR_DEVICE_NGNRE: u64 = 0x4;
pub const S2AP_NONE: u64 = 0;
pub const S2AP_READ_ONLY: u64 = 0x40;
pub const S2AP_WRITE_ONLY: u64 = 0x80;
pub const S2AP_READ_WRITE: u64 = 0xc0;
pub const SH_NONE: u64 = 0;
pub const SH_INNER: u64 = 0x300;
pub const ACCESS_FLAG: u64 = 0x400;
pub const XN_EXEC: u64 = 0;
pub const XN_NON_EXEC: u64 = 0x40_0000_0000_0000;

pub const VTCR_EL2_T0SZ_39_BIT: u64 = 25;
pub const VTCR_EL2_SL0_LEVEL_1: u64 = 0x40;
pub const VTCR_EL2_IRGN0_NORMAL_WB_WA: u64 = 0x100;
pub const VTCR_EL2_ORGN0_NORMAL_WB_WA: u64 = 0x400;
pub const VTCR_EL2_SH0_INNER: u64 = 0x3000;
pub const VTCR_EL2_TG0_4KB: u64 = 0;
pub const VTCR_EL2_RES1: u64 = 0x8000_0000;

pub const HCR_EL2_VM: u64 = 1;
pub const HCR_EL2_SWIO: u64 = 2;
pub const HCR_EL2_TSC: u64 = 0x8_0000;
pub const HCR_EL2_RW: u64 = 0x8000_0000;
pub const HCR_EL2_STAGE2_VALUE: u64 = 0x8008_0003;

pub const CPTR_EL2_TFP: u64 = 0x400;
pub const CPTR_EL2_RES1: u64 = 0x33ff;
/// CPTR_EL2 while tvisor runs at EL2. TFP stays clear because compiled code
/// may use FP/Advanced SIMD instructions.
pub const CPTR_EL2_STAGE2_VALUE: u64 = 0x33ff;

/// Virtual MPIDR_EL1 of vCPU 0 on a uniprocessor system: RES1 bit 31, U bit 30,
/// affinity 0.0.0.
pub const VMPIDR_EL2_VCPU0: u64 = 0xc000_0000;

#[derive(Debug, Clone, Copy, PartialEq, Eq, Structural)]
pub enum Stage2MemoryType {
    NormalWbWa,
    DeviceNgNre,
}

#[derive(Debug, Clone, Copy, PartialEq, Eq, Structural)]
pub enum Stage2Access {
    NoAccess,
    ReadOnly,
    WriteOnly,
    ReadWrite,
}

#[derive(Debug, Clone, Copy, PartialEq, Eq, Structural)]
pub enum Stage2Exec {
    Executable,
    ExecuteNever,
}

#[derive(Debug, Clone, Copy, PartialEq, Eq, Structural)]
pub struct Stage2RegisterValues {
    pub vtcr_el2: u64,
    pub vttbr_el2: u64,
    pub hcr_el2: u64,
    pub cptr_el2: u64,
    pub vmpidr_el2: u64,
}

pub open spec fn mem_attr_bits(mem_type: Stage2MemoryType) -> u64 {
    match mem_type {
        Stage2MemoryType::NormalWbWa => MEM_ATTR_NORMAL_WB_WA,
        Stage2MemoryType::DeviceNgNre => MEM_ATTR_DEVICE_NGNRE,
    }
}

pub open spec fn s2ap_bits(access: Stage2Access) -> u64 {
    match access {
        Stage2Access::NoAccess => S2AP_NONE,
        Stage2Access::ReadOnly => S2AP_READ_ONLY,
        Stage2Access::WriteOnly => S2AP_WRITE_ONLY,
        Stage2Access::ReadWrite => S2AP_READ_WRITE,
    }
}

pub open spec fn sh_bits(mem_type: Stage2MemoryType) -> u64 {
    match mem_type {
        Stage2MemoryType::NormalWbWa => SH_INNER,
        Stage2MemoryType::DeviceNgNre => SH_NONE,
    }
}

pub open spec fn xn_bits(exec: Stage2Exec) -> u64 {
    match exec {
        Stage2Exec::Executable => XN_EXEC,
        Stage2Exec::ExecuteNever => XN_NON_EXEC,
    }
}

/// The fields of a level-3 descriptor built from these parts: bits [1:0]
/// (valid page), MemAttr [5:2], S2AP [7:6], SH [9:8], AF [10], XN [54] and
/// the output address [47:12].
proof fn lemma_descriptor_field_bits(pa: u64, attr: u64, ap: u64, sh: u64, xn: u64)
    by (bit_vector)
    requires
        attr == 0x3c || attr == 0x4,
        ap == 0 || ap == 0x40 || ap == 0x80 || ap == 0xc0,
        sh == 0 || sh == 0x300,
        xn == 0 || xn == 0x40_0000_0000_0000,
    ensures
        (1u64 | 2u64 | attr | ap | sh | 0x400u64 | xn | (pa & 0x0000_ffff_ffff_f000u64)) & 3 == 3,
        attr == 0x3c ==> ((1u64 | 2u64 | attr | ap | sh | 0x400u64 | xn | (pa & 0x0000_ffff_ffff_f000u64))
            >> 2u64) & 0xf == 0xf,
        attr == 0x4 ==> ((1u64 | 2u64 | attr | ap | sh | 0x400u64 | xn | (pa & 0x0000_ffff_ffff_f000u64))
            >> 2u64) & 0xf == 1,
        ap == 0 ==> ((1u64 | 2u64 | attr | ap | sh | 0x400u64 | xn | (pa & 0x0000_ffff_ffff_f000u64)) >> 6u64)
            & 3 == 0,
        ap == 0x40 ==> ((1u64 | 2u64 | attr | ap | sh | 0x400u64 | xn | (pa & 0x0000_ffff_ffff_f000u64))
            >> 6u64) & 3 == 1,
        ap == 0x80 ==> ((1u64 | 2u64 | attr | ap | sh | 0x400u64 | xn | (pa & 0x0000_ffff_ffff_f000u64))
            >> 6u64) & 3 == 2,
        ap == 0xc0 ==> ((1u64 | 2u64 | attr | ap | sh | 0x400u64 | xn | (pa & 0x0000_ffff_ffff_f000u64))
            >> 6u64) & 3 == 3,
        sh == 0x300 ==> ((1u64 | 2u64 | attr | ap | sh | 0x400u64 | xn | (pa & 0x0000_ffff_ffff_f000u64))
            >> 8u64) & 3 == 3,
        sh == 0 ==> ((1u64 | 2u64 | attr | ap | sh | 0x400u64 | xn | (pa & 0x0000_ffff_ffff_f000u64)) >> 8u64)
            & 3 == 0,
        ((1u64 | 2u64 | attr | ap | sh | 0x400u64 | xn | (pa & 0x0000_ffff_ffff_f000u64)) >> 10u64) & 1 == 1,
        (((1u64 | 2u64 | attr | ap | sh | 0x400u64 | xn | (pa & 0x0000_ffff_ffff_f000u64)) >> 54u64) & 1 == 1)
            == (xn != 0),
        (1u64 | 2u64 | attr | ap | sh | 0x400u64 | xn | (pa & 0x0000_ffff_ffff_f000u64))
            & 0x0000_ffff_ffff_f000u64 == pa & 0x0000_ffff_ffff_f000u64,
{
}

/// The level-3 page descriptor for `pa` with the given attributes.
pub open spec fn l3_page_descriptor(
    pa: u64,
    mem_type: Stage2MemoryType,
    access: Stage2Access,
    exec: Stage2Exec,
) -> u64 {
    VALID | TABLE_OR_PAGE | mem_attr_bits(mem_type) | s2ap_bits(access) | sh_bits(mem_type) | ACCESS_FLAG
        | xn_bits(exec) | (pa & ADDRESS_MASK)
}

/// A level-3 page descriptor holds its attributes in their architectural
/// encodings: it is a valid page (bits [1:0] = 0b11) with the access flag
/// (bit 10) set; S2AP (bits [7:6]) is 0b00 for no access, 0b01 read-only,
/// 0b10 write-only and 0b11 read/write; MemAttr (bits [5:2]) is 0b1111 for
/// Normal write-back memory and 0b0001 for Device-nGnRE, with SH (bits
/// [9:8]) inner shareable (0b11) for Normal memory and non-shareable for
/// Device memory; XN (bit 54) is set exactly for execute-never; and the
/// output address (bits [47:12]) is that of `pa`.
pub proof fn lemma_l3_descriptor_fields(
    pa: u64,
    mem_type: Stage2MemoryType,
    access: Stage2Access,
    exec: Stage2Exec,
)
    ensures
        l3_page_descriptor(pa, mem_type, access, exec) & 3 == 3,
        (l3_page_descriptor(pa, mem_type, access, exec) >> 10u64) & 1 == 1,
        access == Stage2Access::NoAccess ==> (l3_page_descriptor(pa, mem_type, access, exec) >> 6u64) & 3 == 0,
        access == Stage2Access::ReadOnly ==> (l3_page_descriptor(pa, mem_type, access, exec) >> 6u64) & 3 == 1,
        access == Stage2Access::WriteOnly ==> (l3_page_descriptor(pa, mem_type, access, exec) >> 6u64) & 3 == 2,
        access == Stage2Access::ReadWrite ==> (l3_page_descriptor(pa, mem_type, access, exec) >> 6u64) & 3 == 3,
        mem_type == Stage2MemoryType::NormalWbWa ==> (l3_page_descriptor(pa, mem_type, access, exec) >> 2u64)
            & 0xf == 0xf && (l3_page_descriptor(pa, mem_type, access, exec) >> 8u64) & 3 == 3,
        mem_type == Stage2MemoryType::DeviceNgNre ==> (l3_page_descriptor(pa, mem_type, access, exec) >> 2u64)
            & 0xf == 1 && (l3_page_descriptor(pa, mem_type, access, exec) >> 8u64) & 3 == 0,
        ((l3_page_descriptor(pa, mem_type, access, exec) >> 54u64) & 1 == 1) == (exec
            == Stage2Exec::ExecuteNever),
        l3_page_descriptor(pa, mem_type, access, exec) & 0x0000_ffff_ffff_f000u64 == pa
            & 0x0000_ffff_ffff_f000u64,
{
    lemma_descriptor_field_bits(pa, mem_attr_bits(mem_type), s2ap_bits(access), sh_bits(mem_type), xn_bits(exec));
}

/// A valid level-3 page descriptor for `pa` with the given attributes.
pub fn encode_l3_page_descriptor(
    pa: u64,
    mem_type: Stage2MemoryType,
    access: Stage2Access,
    exec: Stage2Exec,
) -> (r: u64)
    ensures
        r == VALID | TABLE_OR_PAGE | mem_attr_bits(mem_type) | s2ap_bits(access) | sh_bits(mem_type)
            | ACCESS_FLAG | xn_bits(exec) | (pa & ADDRESS_MASK),
        r == l3_page_descriptor(pa, mem_type, access, exec),
        r & 3 == 3,
        (r >> 10u64) & 1 == 1,
        access == Stage2Access::NoAccess ==> (r >> 6u64) & 3 == 0,
        access == Stage2Access::ReadOnly ==> (r >> 6u64) & 3 == 1,
        access == Stage2Access::WriteOnly ==> (r >> 6u64) & 3 == 2,
        access == Stage2Access::ReadWrite ==> (r >> 6u64) & 3 == 3,
        mem_type == Stage2MemoryType::NormalWbWa ==> (r >> 2u64) & 0xf == 0xf && (r >> 8u64) & 3 == 3,
        mem_type == Stage2MemoryType::DeviceNgNre ==> (r >> 2u64) & 0xf == 1 && (r >> 8u64) & 3 == 0,
        ((r >> 54u64) & 1 == 1) == (exec == Stage2Exec::ExecuteNever),
        r & 0x0000_ffff_ffff_f000u64 == pa & 0x0000_ffff_ffff_f000u64,
{
    proof {
        lemma_l3_descriptor_fields(pa, mem_type, access, exec);
    }
    let mem_attr = match mem_type {
        Stage2MemoryType::NormalWbWa => MEM_ATTR_NORMAL_WB_WA,
        Stage2MemoryType::DeviceNgNre => MEM_ATTR_DEVICE_NGNRE,
    };
    let s2ap = match access {
        Stage2Access::NoAccess => S2AP_NONE,
        Stage2Access::ReadOnly => S2AP_READ_ONLY,
        Stage2Access::WriteOnly => S2AP_WRITE_ONLY,
        Stage2Access::ReadWrite => S2AP_READ_WRITE,
    };
    let sh = match mem_type {
        Stage2MemoryType::NormalWbWa => SH_INNER,
        Stage2MemoryType::DeviceNgNre => SH_NONE,
    };
    let xn = match exec {
        Stage2Exec::Executable => XN_EXEC,
        Stage2Exec::ExecuteNever => XN_NON_EXEC,
    };
    VALID | TABLE_OR_PAGE | mem_attr | s2ap | sh | ACCESS_FLAG | xn | (pa & ADDRESS_MASK)
}

/// Stage-2 control registers for VM `vm_id` with its root table at
/// `root_table_pa` on a CPU reporting `pa_range`.
pub fn stage2_register_values(vm_id: u8, root_table_pa: u64, pa_range: u8) -> (r: Result<
    Stage2RegisterValues,
    TranslationError,
>)
    ensures
        pa_bits_of(pa_range) is None ==> r == Err::<Stage2RegisterValues, TranslationError>(
            TranslationError::InvalidPaBits,
        ),
        pa_bits_of(pa_range) matches Some(bits) ==> (if root_table_pa % 4096 != 0
            || root_table_pa >= pow2_u64(bits) {
            r == Err::<Stage2RegisterValues, TranslationError>(TranslationError::InvalidTableBase)
        } else {
            r == Ok::<Stage2RegisterValues, TranslationError>(
                Stage2RegisterValues {
                    vtcr_el2: 0x8000_3540 | ((pa_range & 7) as u64) << 16 | 25,
                    vttbr_el2: ((vm_id as u64) << 48) | (root_table_pa & ADDRESS_MASK),
                    hcr_el2: HCR_EL2_STAGE2_VALUE,
                    cptr_el2: CPTR_EL2_STAGE2_VALUE,
                    vmpidr_el2: VMPIDR_EL2_VCPU0,
                },
            )
        }),
{
    let pa_bits = pa_bits_from_parange(pa_range)?;
    assert(1u64 << pa_bits == pow2_u64(pa_bits as u8));
    assert(32 <= pa_bits <= 48 ==> 1u64 << pa_bits >= 1) by (bit_vector);
    let max_root_pa = (1u64 << pa_bits) - 1;
    assert(root_table_pa & 0xfff == root_table_pa % 4096) by {
        crate::page::lemma_low_bits();
    }
    if root_table_pa & 0xfff != 0 || root_table_pa > max_root_pa {
        return Err(TranslationError::InvalidTableBase);
    }
    let ps_field = ((pa_range & 0x7) as u64) << 16;
    let vtcr_el2 = VTCR_EL2_RES1 | VTCR_EL2_TG0_4KB | VTCR_EL2_SH0_INNER
        | VTCR_EL2_ORGN0_NORMAL_WB_WA | VTCR_EL2_IRGN0_NORMAL_WB_WA | VTCR_EL2_SL0_LEVEL_1
        | ps_field | VTCR_EL2_T0SZ_39_BIT;
    assert(0x8000_0000u64 | 0u64 | 0x3000u64 | 0x400u64 | 0x100u64 | 0x40u64 | ps_field | 25u64
        == 0x8000_3540u64 | ps_field | 25u64) by (bit_vector);
    let vttbr_el2 = ((vm_id as u64) << 48) | (root_table_pa & ADDRESS_MASK);
    Ok(
        Stage2RegisterValues {
            vtcr_el2,
            vttbr_el2,
            hcr_el2: HCR_EL2_STAGE2_VALUE,
            cptr_el2: CPTR_EL2_STAGE2_VALUE,
            vmpidr_el2: VMPIDR_EL2_VCPU0,
        },
    )
}

/// `2^bits` for an exponent that fits a 64-bit shift.
pub open spec fn pow2_u64(bits: u8) -> u64 {
    1u64 << bits
}

} // verus!
