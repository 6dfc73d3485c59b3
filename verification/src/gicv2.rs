//! GICv2 architecture definitions, register addresses of the host GICv2,
//! and virtual CPU-interface List Register state.
use vstd::prelude::*;
use vstd::arithmetic::power2::pow2;
use crate::text::{append_decimal, dec_text};
use vstd::string::StringExecFns;
use crate::system_info::PhysRegion;

verus! {

pub const SPURIOUS_IRQ: u32 = 1023;

/// Covers GICD_ITARGETSR31, needed to route any valid SPI to CPU0.
pub const REQUIRED_GICD_SIZE: u64 = 0xc80;
/// The CPU interface's first 4 KiB page of registers.
pub const REQUIRED_GICC_SIZE: u64 = 0x1000;
/// GICH_LR0 lies at 0x100.
pub const REQUIRED_GICH_SIZE: u64 = 0x104;
/// GICV_DIR lies at 0x1000.
pub const REQUIRED_GICV_SIZE: u64 = 0x1004;

pub const GICD_CTLR_ENABLE_GRP1_NS: u32 = 1;
pub const GICC_CTLR_ENABLE_GRP1_NS: u32 = 1;
pub const GICC_CTLR_EOIMODE_NS: u32 = 0x200;
pub const GICH_HCR_ENABLE: u32 = 1;
pub const GICH_LR_HW: u32 = 0x8000_0000;
pub const GICH_LR_PENDING: u32 = 0x1000_0000;
pub const GICH_LR_STATE_MASK: u32 = 0x3000_0000;
pub const GICH_LR_PRIORITY_SHIFT: u32 = 23;
pub const GICH_LR_PHYSICAL_ID_SHIFT: u32 = 10;
pub const GICH_LR_INTID_MASK: u32 = 0x3ff;

#[derive(Debug, Clone, Copy, PartialEq, Eq, Structural)]
pub enum GicV2Error {
    InvalidIRQ(u32),
    InvalidSPI(u32),
    Unexpected,
}

/// Physical GICv2 regions in DTB `reg` order: GICD, GICC, GICH, GICV.
#[derive(Debug, Clone, Copy, PartialEq, Eq, Structural)]
pub struct GicV2Info {
    distributor: PhysRegion,
    cpu_interface: PhysRegion,
    hypervisor_interface: PhysRegion,
    virtual_cpu_interface: PhysRegion,
}

impl GicV2Info {
    pub closed spec fn distributor_spec(self) -> PhysRegion {
        self.distributor
    }

    pub closed spec fn cpu_interface_spec(self) -> PhysRegion {
        self.cpu_interface
    }

    pub closed spec fn hypervisor_interface_spec(self) -> PhysRegion {
        self.hypervisor_interface
    }

    pub closed spec fn virtual_cpu_interface_spec(self) -> PhysRegion {
        self.virtual_cpu_interface
    }

    /// The four interfaces, or `None` when one is too small for the
    /// registers that tvisor uses.
    pub fn new(
        distributor: PhysRegion,
        cpu_interface: PhysRegion,
        hypervisor_interface: PhysRegion,
        virtual_cpu_interface: PhysRegion,
    ) -> (r: Option<Self>)
        ensures
            (distributor.size_spec() < REQUIRED_GICD_SIZE || cpu_interface.size_spec()
                < REQUIRED_GICC_SIZE || hypervisor_interface.size_spec() < REQUIRED_GICH_SIZE
                || virtual_cpu_interface.size_spec() < REQUIRED_GICV_SIZE) ==> r is None,
            !(distributor.size_spec() < REQUIRED_GICD_SIZE || cpu_interface.size_spec()
                < REQUIRED_GICC_SIZE || hypervisor_interface.size_spec() < REQUIRED_GICH_SIZE
                || virtual_cpu_interface.size_spec() < REQUIRED_GICV_SIZE) ==> (r matches Some(i)
                && i.distributor_spec() == distributor && i.cpu_interface_spec() == cpu_interface
                && i.hypervisor_interface_spec() == hypervisor_interface
                && i.virtual_cpu_interface_spec() == virtual_cpu_interface),
    {
        if distributor.size() < REQUIRED_GICD_SIZE || cpu_interface.size() < REQUIRED_GICC_SIZE
            || hypervisor_interface.size() < REQUIRED_GICH_SIZE || virtual_cpu_interface.size()
            < REQUIRED_GICV_SIZE {
            None
        } else {
            Some(
                Self { distributor, cpu_interface, hypervisor_interface, virtual_cpu_interface },
            )
        }
    }

    pub fn distributor(self) -> (r: PhysRegion)
        ensures
            r == self.distributor_spec(),
    {
        self.distributor
    }

    pub fn cpu_interface(self) -> (r: PhysRegion)
        ensures
            r == self.cpu_interface_spec(),
    {
        self.cpu_interface
    }

    pub fn hypervisor_interface(self) -> (r: PhysRegion)
        ensures
            r == self.hypervisor_interface_spec(),
    {
        self.hypervisor_interface
    }

    pub fn virtual_cpu_interface(self) -> (r: PhysRegion)
        ensures
            r == self.virtual_cpu_interface_spec(),
    {
        self.virtual_cpu_interface
    }
}

/// Every register that tvisor addresses lies below `usize::MAX`.
pub open spec fn gic_addressable(info: GicV2Info) -> bool {
    &&& info.distributor_spec().start_spec() + 0xd00 <= usize::MAX
    &&& info.cpu_interface_spec().start_spec() + 0x1004 <= usize::MAX
    &&& info.hypervisor_interface_spec().start_spec() + 0x108 <= usize::MAX
}

/// Instance-oriented access to the host GICv2 interfaces.
#[derive(Debug, Clone, Copy)]
pub struct GicV2 {
    info: GicV2Info,
}

/// Bit `irq % 32` of a one-bit-per-interrupt register bank.
pub open spec fn irq_bit(irq: u32) -> u32 {
    (1u32 << ((irq % 32) as u32)) as u32
}

/// The trigger-type bit of `irq` in its GICD_ICFGR word.
pub open spec fn icfgr_bit(irq: u32) -> u32 {
    (1u32 << (((irq % 16) * 2 + 1) as u32)) as u32
}

/// In a one-bit-per-interrupt register bank, interrupt `irq` owns word
/// `irq / 32`, and its bit there is bit number `irq - 32 * (irq / 32)`: the
/// value is that power of two.
pub proof fn lemma_irq_bit_is_its_position(irq: u32)
    ensures
        irq_bit(irq) as nat == pow2((irq - 32 * (irq / 32)) as nat),
        irq_bit(irq) != 0,
{
    let k = (irq % 32) as u32;
    assert(irq % 32 == irq - 32 * (irq / 32));
    vstd::bits::lemma_u32_pow2_no_overflow(k as nat);
    vstd::bits::lemma_u32_shl_is_mul(1u32, k);
}

/// Two different interrupts that share a register word have different bits
/// in it, so enabling one never enables or disables the other.
pub proof fn lemma_irq_bits_apart(a: u32, b: u32)
    requires
        a != b,
        a / 32 == b / 32,
    ensures
        irq_bit(a) != irq_bit(b),
{
    lemma_irq_bit_is_its_position(a);
    lemma_irq_bit_is_its_position(b);
    let ka = (a - 32 * (a / 32)) as nat;
    let kb = (b - 32 * (b / 32)) as nat;
    assert(ka != kb);
    if ka < kb {
        vstd::arithmetic::power2::lemma_pow2_strictly_increases(ka, kb);
    } else {
        vstd::arithmetic::power2::lemma_pow2_strictly_increases(kb, ka);
    }
}

/// In GICD_ICFGR each interrupt owns two bits, sixteen interrupts to a
/// word: interrupt `irq` owns field `irq - 16 * (irq / 16)` of word
/// `irq / 16`, and its edge-trigger bit is the upper bit of that field.
pub proof fn lemma_icfgr_bit_is_its_field(irq: u32)
    ensures
        icfgr_bit(irq) as nat == pow2((2 * (irq - 16 * (irq / 16)) + 1) as nat),
        icfgr_bit(irq) != 0,
{
    let k = ((irq % 16) * 2 + 1) as u32;
    assert(irq % 16 == irq - 16 * (irq / 16));
    vstd::bits::lemma_u32_pow2_no_overflow(k as nat);
    vstd::bits::lemma_u32_shl_is_mul(1u32, k);
}

/// Two different interrupts that share a GICD_ICFGR word have different
/// edge-trigger bits in it.
pub proof fn lemma_icfgr_bits_apart(a: u32, b: u32)
    requires
        a != b,
        a / 16 == b / 16,
    ensures
        icfgr_bit(a) != icfgr_bit(b),
{
    lemma_icfgr_bit_is_its_field(a);
    lemma_icfgr_bit_is_its_field(b);
    let ka = (2 * (a - 16 * (a / 16)) + 1) as nat;
    let kb = (2 * (b - 16 * (b / 16)) + 1) as nat;
    assert(ka != kb);
    if ka < kb {
        vstd::arithmetic::power2::lemma_pow2_strictly_increases(ka, kb);
    } else {
        vstd::arithmetic::power2::lemma_pow2_strictly_increases(kb, ka);
    }
}

/// The single bit of `irq` in its one-bit-per-interrupt register word.
pub fn irq_enable_bit(irq: u32) -> (r: u32)
    ensures
        r == irq_bit(irq),
{
    1u32 << (irq % 32)
}

/// The trigger-type (edge) bit of `irq` in its GICD_ICFGR word.
pub fn irq_config_bit(irq: u32) -> (r: u32)
    ensures
        r == icfgr_bit(irq),
{
    1u32 << ((irq % 16) * 2 + 1)
}

impl GicV2 {
    #[verifier::type_invariant]
    closed spec fn inv(self) -> bool {
        gic_addressable(self.info)
    }

    pub closed spec fn info_spec(self) -> GicV2Info {
        self.info
    }

    pub open spec fn distributor_start(self) -> int {
        self.info_spec().distributor_spec().start_spec() as int
    }

    pub open spec fn cpu_interface_start(self) -> int {
        self.info_spec().cpu_interface_spec().start_spec() as int
    }

    pub open spec fn hypervisor_interface_start(self) -> int {
        self.info_spec().hypervisor_interface_spec().start_spec() as int
    }

    pub fn new(info: GicV2Info) -> (r: Self)
        requires
            gic_addressable(info),
        ensures
            r.info_spec() == info,
    {
        Self { info }
    }

    pub fn info(&self) -> (r: GicV2Info)
        ensures
            r == self.info_spec(),
    {
        self.info
    }

    fn distributor_base(&self) -> (r: usize)
        ensures
            r == self.distributor_start(),
            r + 0xd00 <= usize::MAX,
    {
        proof {
            use_type_invariant(self);
        }
        self.info.distributor.start().value() as usize
    }

    fn cpu_interface_base(&self) -> (r: usize)
        ensures
            r == self.cpu_interface_start(),
            r + 0x1004 <= usize::MAX,
    {
        proof {
            use_type_invariant(self);
        }
        self.info.cpu_interface.start().value() as usize
    }

    fn hypervisor_interface_base(&self) -> (r: usize)
        ensures
            r == self.hypervisor_interface_start(),
            r + 0x108 <= usize::MAX,
    {
        proof {
            use_type_invariant(self);
        }
        self.info.hypervisor_interface.start().value() as usize
    }

    pub fn gicd_ctlr(&self) -> (r: usize)
        ensures
            r == self.distributor_start() + 0x0,
    {
        self.distributor_base() + 0x0
    }

    pub fn gicc_pmr(&self) -> (r: usize)
        ensures
            r == self.cpu_interface_start() + 0x4,
    {
        self.cpu_interface_base() + 0x4
    }

    pub fn gicc_ctlr(&self) -> (r: usize)
        ensures
            r == self.cpu_interface_start() + 0x0,
    {
        self.cpu_interface_base() + 0x0
    }

    pub fn gicd_isenabler(&self) -> (r: usize)
        ensures
            r == self.distributor_start() + 0x100,
    {
        self.distributor_base() + 0x100
    }

    pub fn gicd_icenabler(&self) -> (r: usize)
        ensures
            r == self.distributor_start() + 0x180,
    {
        self.distributor_base() + 0x180
    }

    pub fn gicd_igroupr(&self) -> (r: usize)
        ensures
            r == self.distributor_start() + 0x80,
    {
        self.distributor_base() + 0x80
    }

    pub fn gicd_ipriorityr(&self) -> (r: usize)
        ensures
            r == self.distributor_start() + 0x400,
    {
        self.distributor_base() + 0x400
    }

    pub fn gicd_itargetsr(&self) -> (r: usize)
        ensures
            r == self.distributor_start() + 0x800,
    {
        self.distributor_base() + 0x800
    }

    pub fn gicd_icfgr(&self) -> (r: usize)
        ensures
            r == self.distributor_start() + 0xc00,
    {
        self.distributor_base() + 0xc00
    }

    pub fn gich_vmcr(&self) -> (r: usize)
        ensures
            r == self.hypervisor_interface_start() + 0x8,
    {
        self.hypervisor_interface_base() + 0x8
    }

    pub fn gich_lr0(&self) -> (r: usize)
        ensures
            r == self.hypervisor_interface_start() + 0x100,
    {
        self.hypervisor_interface_base() + 0x100
    }

    pub fn gich_lr1(&self) -> (r: usize)
        ensures
            r == self.hypervisor_interface_start() + 0x104,
    {
        self.hypervisor_interface_base() + 0x104
    }

    pub fn gich_hcr(&self) -> (r: usize)
        ensures
            r == self.hypervisor_interface_start() + 0x0,
    {
        self.hypervisor_interface_base() + 0x0
    }

    pub fn gicc_iar(&self) -> (r: usize)
        ensures
            r == self.cpu_interface_start() + 0xc,
    {
        self.cpu_interface_base() + 0xc
    }

    pub fn gicc_eoir(&self) -> (r: usize)
        ensures
            r == self.cpu_interface_start() + 0x10,
    {
        self.cpu_interface_base() + 0x10
    }

    pub fn gicc_dir(&self) -> (r: usize)
        ensures
            r == self.cpu_interface_start() + 0x1000,
    {
        self.cpu_interface_base() + 0x1000
    }

    /// The GICD_ISENABLER word that holds the bit of `irq`.
    pub fn gicd_isenabler_n(&self, irq: u32) -> (r: Result<usize, GicV2Error>)
        ensures
            irq < SPURIOUS_IRQ ==> r == Ok::<usize, GicV2Error>(
                (self.distributor_start() + 0x100 + (irq / 32) * 4) as usize,
            ),
            irq >= SPURIOUS_IRQ ==> r == Err::<usize, GicV2Error>(GicV2Error::InvalidIRQ(irq)),
    {
        proof {
            use_type_invariant(self);
        }
        if irq < SPURIOUS_IRQ {
            let word_offset = ((irq / 32) * 4) as usize;
            Ok(self.gicd_isenabler() + word_offset)
        } else {
            Err(GicV2Error::InvalidIRQ(irq))
        }
    }

    /// The GICD_ICENABLER word that holds the bit of `irq`.
    pub fn gicd_icenabler_n(&self, irq: u32) -> (r: Result<usize, GicV2Error>)
        ensures
            irq < SPURIOUS_IRQ ==> r == Ok::<usize, GicV2Error>(
                (self.distributor_start() + 0x180 + (irq / 32) * 4) as usize,
            ),
            irq >= SPURIOUS_IRQ ==> r == Err::<usize, GicV2Error>(GicV2Error::InvalidIRQ(irq)),
    {
        proof {
            use_type_invariant(self);
        }
        if irq < SPURIOUS_IRQ {
            let word_offset = ((irq / 32) * 4) as usize;
            Ok(self.gicd_icenabler() + word_offset)
        } else {
            Err(GicV2Error::InvalidIRQ(irq))
        }
    }

    /// The GICD_IGROUPR word that holds the bit of `irq`.
    pub fn gicd_igroupr_n(&self, irq: u32) -> (r: Result<usize, GicV2Error>)
        ensures
            irq < SPURIOUS_IRQ ==> r == Ok::<usize, GicV2Error>(
                (self.distributor_start() + 0x80 + (irq / 32) * 4) as usize,
            ),
            irq >= SPURIOUS_IRQ ==> r == Err::<usize, GicV2Error>(GicV2Error::InvalidIRQ(irq)),
    {
        proof {
            use_type_invariant(self);
        }
        if irq < SPURIOUS_IRQ {
            let word_offset = ((irq / 32) * 4) as usize;
            Ok(self.gicd_igroupr() + word_offset)
        } else {
            Err(GicV2Error::InvalidIRQ(irq))
        }
    }

    /// The GICD_ICFGR word that holds the bit of `irq`.
    pub fn gicd_icfgr_n(&self, irq: u32) -> (r: Result<usize, GicV2Error>)
        ensures
            irq < SPURIOUS_IRQ ==> r == Ok::<usize, GicV2Error>(
                (self.distributor_start() + 0xc00 + (irq / 16) * 4) as usize,
            ),
            irq >= SPURIOUS_IRQ ==> r == Err::<usize, GicV2Error>(GicV2Error::InvalidIRQ(irq)),
    {
        proof {
            use_type_invariant(self);
        }
        if irq < SPURIOUS_IRQ {
            let word_offset = ((irq / 16) * 4) as usize;
            Ok(self.gicd_icfgr() + word_offset)
        } else {
            Err(GicV2Error::InvalidIRQ(irq))
        }
    }
}

#[derive(Debug, Default, Clone, Copy, PartialEq, Eq, Structural)]
pub struct VirtualGicV2State {
    pub vmcr: u32,
    pub timer_lr: u32,
    pub uart_lr: u32,
}

impl VirtualGicV2State {
    /// The UART List Register is pending or active.
    pub fn uart_in_flight(&self) -> (r: bool)
        ensures
            r == (self.uart_lr & GICH_LR_STATE_MASK != 0),
    {
        self.uart_lr & GICH_LR_STATE_MASK != 0
    }

    /// The timer List Register is pending or active.
    pub fn timer_in_flight(&self) -> (r: bool)
        ensures
            r == (self.timer_lr & GICH_LR_STATE_MASK != 0),
    {
        self.timer_lr & GICH_LR_STATE_MASK != 0
    }
}

/// The List Register priority field for a GIC priority.
pub open spec fn lr_priority_spec(gic_priority: u8) -> u32 {
    (((gic_priority as u32) >> 3u32) & 0x1f) << 23u32
}

proof fn lemma_lr_field_bits(id: u32, prio: u32)
    by (bit_vector)
    requires
        id <= 0x3ff,
        prio == ((0x80u32 >> 3u32) & 0x1f) << 23u32,
    ensures
        (0x8000_0000u32 | 0x1000_0000u32 | prio | (id << 10u32) | id) & 0x3ff == id,
        ((0x8000_0000u32 | 0x1000_0000u32 | prio | (id << 10u32) | id) >> 10u32) & 0x3ff == id,
        ((0x8000_0000u32 | 0x1000_0000u32 | prio | (id << 10u32) | id) >> 23u32) & 0x1f == 0x10,
        ((0x8000_0000u32 | 0x1000_0000u32 | prio | (id << 10u32) | id) >> 28u32) & 3 == 1,
        ((0x8000_0000u32 | 0x1000_0000u32 | prio | (id << 10u32) | id) >> 30u32) & 1 == 0,
        (0x8000_0000u32 | 0x1000_0000u32 | prio | (id << 10u32) | id) >> 31u32 == 1,
        (0x1000_0000u32 | prio | id) & 0x3ff == id,
        ((0x1000_0000u32 | prio | id) >> 10u32) & 0x3ff == 0,
        ((0x1000_0000u32 | prio | id) >> 23u32) & 0x1f == 0x10,
        ((0x1000_0000u32 | prio | id) >> 28u32) & 3 == 1,
        ((0x1000_0000u32 | prio | id) >> 30u32) & 1 == 0,
        (0x1000_0000u32 | prio | id) >> 31u32 == 0,
{
}

/// What the queue functions put in a List Register, field by field (GICH_LR:
/// virtual ID bits [9:0], physical ID bits [19:10], priority bits [27:23],
/// state bits [29:28], group bit 30, hardware bit 31). A queued timer PPI
/// is pending, hardware-linked to the same physical interrupt, in group 0,
/// at priority 0x80 (field 0x10); a queued UART SPI is pending, in group 0,
/// at priority 0x80, with no physical interrupt linked.
pub proof fn lemma_queued_list_registers(id: u32)
    requires
        id <= 0x3ff,
    ensures
        (GICH_LR_HW | GICH_LR_PENDING | lr_priority_spec(0x80) | (id << GICH_LR_PHYSICAL_ID_SHIFT) | id) & 0x3ff
            == id,
        ((GICH_LR_HW | GICH_LR_PENDING | lr_priority_spec(0x80) | (id << GICH_LR_PHYSICAL_ID_SHIFT) | id)
            >> 10u32) & 0x3ff == id,
        ((GICH_LR_HW | GICH_LR_PENDING | lr_priority_spec(0x80) | (id << GICH_LR_PHYSICAL_ID_SHIFT) | id)
            >> 23u32) & 0x1f == 0x10,
        ((GICH_LR_HW | GICH_LR_PENDING | lr_priority_spec(0x80) | (id << GICH_LR_PHYSICAL_ID_SHIFT) | id)
            >> 28u32) & 3 == 1,
        ((GICH_LR_HW | GICH_LR_PENDING | lr_priority_spec(0x80) | (id << GICH_LR_PHYSICAL_ID_SHIFT) | id)
            >> 30u32) & 1 == 0,
        (GICH_LR_HW | GICH_LR_PENDING | lr_priority_spec(0x80) | (id << GICH_LR_PHYSICAL_ID_SHIFT) | id)
            >> 31u32 == 1,
        (GICH_LR_PENDING | lr_priority_spec(0x80) | id) & 0x3ff == id,
        ((GICH_LR_PENDING | lr_priority_spec(0x80) | id) >> 10u32) & 0x3ff == 0,
        ((GICH_LR_PENDING | lr_priority_spec(0x80) | id) >> 23u32) & 0x1f == 0x10,
        ((GICH_LR_PENDING | lr_priority_spec(0x80) | id) >> 28u32) & 3 == 1,
        ((GICH_LR_PENDING | lr_priority_spec(0x80) | id) >> 30u32) & 1 == 0,
        (GICH_LR_PENDING | lr_priority_spec(0x80) | id) >> 31u32 == 0,
{
    lemma_lr_field_bits(id, lr_priority_spec(0x80));
}

/// Queues a hardware-backed timer PPI in the timer List Register.
pub fn queue_timer_ppi(state: &mut VirtualGicV2State, ppi: u32) -> (r: Result<(), ()>)
    ensures
        (old(state).timer_lr & GICH_LR_STATE_MASK != 0 || ppi > GICH_LR_INTID_MASK) ==> r is Err
            && *final(state) == *old(state),
        !(old(state).timer_lr & GICH_LR_STATE_MASK != 0 || ppi > GICH_LR_INTID_MASK) ==> r is Ok
            && *final(state) == (VirtualGicV2State {
                timer_lr: GICH_LR_HW | GICH_LR_PENDING | lr_priority_spec(0x80) | (ppi
                    << GICH_LR_PHYSICAL_ID_SHIFT) | ppi,
                ..*old(state)
            }),
{
    if state.timer_in_flight() || ppi > GICH_LR_INTID_MASK {
        return Err(());
    }
    state.timer_lr = GICH_LR_HW | GICH_LR_PENDING | lr_priority(0x80) | (ppi
        << GICH_LR_PHYSICAL_ID_SHIFT) | ppi;
    Ok(())
}

/// Queues a software SPI in the UART List Register. The group bit stays
/// clear and no physical interrupt is linked.
pub fn queue_uart_spi(state: &mut VirtualGicV2State, spi: u32) -> (r: Result<(), ()>)
    ensures
        (old(state).uart_lr & GICH_LR_STATE_MASK != 0 || spi > GICH_LR_INTID_MASK) ==> r is Err
            && *final(state) == *old(state),
        !(old(state).uart_lr & GICH_LR_STATE_MASK != 0 || spi > GICH_LR_INTID_MASK) ==> r is Ok
            && *final(state) == (VirtualGicV2State {
                uart_lr: GICH_LR_PENDING | lr_priority_spec(0x80) | spi,
                ..*old(state)
            }),
{
    if state.uart_in_flight() || spi > GICH_LR_INTID_MASK {
        return Err(());
    }
    state.uart_lr = GICH_LR_PENDING | lr_priority(0x80) | spi;
    Ok(())
}

pub fn lr_priority(gic_priority: u8) -> (r: u32)
    ensures
        r == lr_priority_spec(gic_priority),
{
    (((gic_priority as u32) >> 3) & 0x1f) << GICH_LR_PRIORITY_SHIFT
}

pub fn is_timer_ppi(id: u32, ppi: u32) -> (r: bool)
    ensures
        r == (id == ppi),
{
    id == ppi
}

impl GicV2Error {
    /// The error as it is shown: the variant's name, with the interrupt ID in brackets.
    pub open spec fn message(self) -> Seq<char> {
        match self {
            GicV2Error::InvalidIRQ(n) => "InvalidIRQ("@ + dec_text(n as nat) + ")"@,
            GicV2Error::InvalidSPI(n) => "InvalidSPI("@ + dec_text(n as nat) + ")"@,
            GicV2Error::Unexpected => "Unexpected"@,
        }
    }

    /// The error as it is shown.
    pub fn to_string(&self) -> (r: String)
        ensures
            r@ == self.message(),
    {
        match self {
            GicV2Error::InvalidIRQ(n) => {
                let mut text = String::from_str("InvalidIRQ(");
                append_decimal(&mut text, *n as u64);
                text.append(")");
                text
            }
            GicV2Error::InvalidSPI(n) => {
                let mut text = String::from_str("InvalidSPI(");
                append_decimal(&mut text, *n as u64);
                text.append(")");
                text
            }
            GicV2Error::Unexpected => {
                String::from_str("Unexpected")
            }
        }
    }
}

} // verus!
