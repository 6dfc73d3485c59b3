//! EL2 stage-1 translation tables for tvisor's non-VHE regime: a 39-bit
//! virtual address space, a 4 KiB granule, and a level-1 start.
use vstd::prelude::*;
use vstd::string::StringExecFns;

verus! {

pub const PAGE_SIZE: u64 = 4096;
pub const ENTRIES_PER_TABLE: usize = 512;
pub const VA_BITS: u8 = 39;
/// The bytes that a level-1 block maps.
pub const L1_SIZE: u64 = 0x4000_0000;
/// The bytes that a level-2 block maps.
pub const L2_SIZE: u64 = 0x20_0000;

pub const MAIR_NORMAL_WB_WA: u8 = 0xff;
pub const MAIR_DEVICE_NGNRE: u8 = 0x04;
pub const MAIR_EL2_VALUE: u64 = 0x04ff;
pub const TCR_EL2_T0SZ_39_BIT: u64 = 25;
pub const TCR_EL2_RES1: u64 = 0x8080_0000;
pub const SCTLR_EL2_RES1: u64 = 0x30c5_0830;
pub const SCTLR_EL2_VALUE: u64 = 0x30cd_183d;

#[derive(Debug, Clone, Copy, PartialEq, Eq, Structural)]
pub struct El2RegisterValues {
    pub mair_el2: u64,
    pub tcr_el2: u64,
    pub ttbr0_el2: u64,
    pub sctlr_el2: u64,
}

#[derive(Debug, Clone, Copy, PartialEq, Eq, Structural)]
pub enum TranslationError {
    InvalidTableBase,
    InvalidPaBits,
    EmptyMapping,
    UnalignedMapping,
    AddressOverflow,
    VirtualAddressOutOfRange,
    PhysicalAddressOutOfRange,
    TableExhausted,
    ConflictingEntry,
    CorruptTable,
    InvalidateParameter,
    Unexpected,
}

/// The physical-address width that `ID_AA64MMFR0_EL1.PARange` encodes.
pub open spec fn pa_bits_of(parange: u8) -> Option<u8> {
    if parange == 0 {
        Some(32u8)
    } else if parange == 1 {
        Some(36u8)
    } else if parange == 2 {
        Some(40u8)
    } else if parange == 3 {
        Some(42u8)
    } else if parange == 4 {
        Some(44u8)
    } else if parange == 5 {
        Some(48u8)
    } else {
        None
    }
}

pub fn pa_bits_from_parange(parange: u8) -> (r: Result<u8, TranslationError>)
    ensures
        r == (match pa_bits_of(parange) {
            Some(bits) => Ok(bits),
            None => Err(TranslationError::InvalidPaBits),
        }),
        r matches Ok(bits) ==> 32 <= bits <= 48,
{
    match parange {
        0 => Ok(32),
        1 => Ok(36),
        2 => Ok(40),
        3 => Ok(42),
        4 => Ok(44),
        5 => Ok(48),
        _ => Err(TranslationError::InvalidPaBits),
    }
}

/// EL2 stage-1 control-register values for a root table at `root_pa`.
pub fn register_values(root_pa: u64, parange: u8) -> (r: Result<El2RegisterValues, TranslationError>)
    ensures
        pa_bits_of(parange) is None ==> r == Err::<El2RegisterValues, TranslationError>(
            TranslationError::InvalidPaBits,
        ),
        pa_bits_of(parange) matches Some(bits) ==> (if root_pa % PAGE_SIZE != 0 || root_pa
            >= 1u64 << bits {
            r == Err::<El2RegisterValues, TranslationError>(TranslationError::InvalidTableBase)
        } else {
            r == Ok::<El2RegisterValues, TranslationError>(
                El2RegisterValues {
                    mair_el2: MAIR_EL2_VALUE,
                    tcr_el2: 0x8080_3519 | ((parange as u64) << 16),
                    ttbr0_el2: root_pa,
                    sctlr_el2: SCTLR_EL2_VALUE,
                },
            )
        }),
{
    let pa_bits = pa_bits_from_parange(parange)?;
    assert(root_pa & 0xfff == root_pa % 4096) by {
        crate::page::lemma_low_bits();
    }
    if root_pa & (PAGE_SIZE - 1) != 0 || root_pa >= (1u64 << pa_bits) {
        return Err(TranslationError::InvalidTableBase);
    }
    let p = parange as u64;
    let tcr_el2 = TCR_EL2_RES1 | TCR_EL2_T0SZ_39_BIT | (0b01u64 << 8u64) | (0b01u64 << 10u64) | (
    0b11u64 << 12u64) | (p << 16u64);
    assert(0x8080_0000u64 | 25u64 | (1u64 << 8u64) | (1u64 << 10u64) | (3u64 << 12u64) | (p << 16u64)
        == 0x8080_3519u64 | (p << 16u64)) by (bit_vector);
    Ok(
        El2RegisterValues {
            mair_el2: MAIR_EL2_VALUE,
            tcr_el2,
            ttbr0_el2: root_pa,
            sctlr_el2: SCTLR_EL2_VALUE,
        },
    )
}

#[derive(Debug, Clone, Copy, PartialEq, Eq, Structural)]
pub enum MemoryType {
    Normal,
    Device,
}

impl MemoryType {
    /// The MAIR_EL2 attribute index of this memory type.
    pub fn attr_index(self) -> (r: u64)
        ensures
            r == (match self {
                MemoryType::Normal => 0u64,
                MemoryType::Device => 1u64,
            }),
    {
        match self {
            MemoryType::Normal => 0,
            MemoryType::Device => 1,
        }
    }
}

#[derive(Debug, Clone, Copy, PartialEq, Eq, Structural)]
pub struct Mapping {
    pub va: u64,
    pub pa: u64,
    pub size: u64,
    pub memory_type: MemoryType,
    pub writable: bool,
    pub executable: bool,
}

#[derive(Debug, Clone, Copy, PartialEq, Eq, Structural)]
pub struct Translation {
    pub pa: u64,
    pub memory_type: MemoryType,
    pub writable: bool,
    pub executable: bool,
    pub level: u8,
}


const VALID: u64 = 0x1;
const TABLE_OR_PAGE: u64 = 0x2;
const AP_READ_ONLY: u64 = 0x80;
const SH_INNER: u64 = 0x300;
const ACCESS_FLAG: u64 = 0x400;
const XN: u64 = 0x40_0000_0000_0000;
const ADDRESS_MASK: u64 = 0x0000_ffff_ffff_f000;

/// The bytes that one entry at `level` (1, 2 or 3) translates.
pub open spec fn level_bytes(level: int) -> int {
    if level == 1 {
        0x4000_0000
    } else if level == 2 {
        0x20_0000
    } else {
        0x1000
    }
}

/// The bytes that one table at `level` covers: its 512 entries.
pub open spec fn table_span(level: int) -> int {
    512 * level_bytes(level)
}

/// The entry of a table at `level` that translates `va`.
pub open spec fn entry_index(level: int, va: int) -> int {
    (va / level_bytes(level)) % 512
}

/// The output-address bits that a leaf at `level` holds.
pub open spec fn output_mask_of(level: int) -> u64 {
    if level == 1 {
        0x0000_ffff_c000_0000u64
    } else if level == 2 {
        0x0000_ffff_ffe0_0000u64
    } else {
        0x0000_ffff_ffff_f000u64
    }
}

pub open spec fn is_valid(descriptor: u64) -> bool {
    descriptor & 1 != 0
}

pub open spec fn is_table_or_page(descriptor: u64) -> bool {
    descriptor & 2 != 0
}

/// The address that a table descriptor names.
pub open spec fn next_table_pa(descriptor: u64) -> u64 {
    descriptor & 0x0000_ffff_ffff_f000u64
}

/// The MAIR index field of a leaf descriptor.
pub open spec fn attr_field(descriptor: u64) -> u64 {
    (descriptor >> 2u64) & 7
}

/// The table page at physical address `pa` among `used` pages from `base`.
pub open spec fn table_index_of(base: int, used: int, pa: int) -> Option<int> {
    let offset = pa - base;
    if offset < 0 || offset % 4096 != 0 || offset / 4096 >= used {
        None
    } else {
        Some(offset / 4096)
    }
}

/// What a leaf descriptor at `level` says of `va`.
pub open spec fn leaf_translation(descriptor: u64, level: int, va: u64) -> Result<
    Option<Translation>,
    TranslationError,
> {
    let attr = attr_field(descriptor);
    if attr == 0 || attr == 1 {
        Ok(
            Some(
                Translation {
                    pa: (descriptor & output_mask_of(level)) | (va & ((level_bytes(level) - 1) as u64)),
                    memory_type: if attr == 0 {
                        MemoryType::Normal
                    } else {
                        MemoryType::Device
                    },
                    writable: descriptor & 0x80 == 0,
                    executable: descriptor & 0x40_0000_0000_0000u64 == 0,
                    level: level as u8,
                },
            ),
        )
    } else {
        Err(TranslationError::CorruptTable)
    }
}

/// The hardware walk of `va` from table `t` at `level`, over table pages
/// `pages` of which the first `used` are in use from physical `base`.
pub open spec fn walk_from(pages: Seq<Seq<u64>>, used: int, base: int, t: int, level: int, va: u64) -> Result<
    Option<Translation>,
    TranslationError,
>
    decreases 3 - level,
{
    if level < 1 || level > 3 || t < 0 || t >= pages.len() {
        Err(TranslationError::CorruptTable)
    } else {
        let descriptor = pages[t][entry_index(level, va as int)];
        if !is_valid(descriptor) {
            Ok(None)
        } else if level < 3 && is_table_or_page(descriptor) {
            match table_index_of(base, used, next_table_pa(descriptor) as int) {
                None => Err(TranslationError::CorruptTable),
                Some(c) => walk_from(pages, used, base, c, level + 1, va),
            }
        } else if level == 3 && !is_table_or_page(descriptor) {
            Err(TranslationError::CorruptTable)
        } else {
            leaf_translation(descriptor, level, va)
        }
    }
}

/// The abstract state of a table set: page contents, the pages in use, the
/// physical base, and for each page in use its level and the first virtual
/// address it covers.
pub struct TableModel {
    pub pages: Seq<Seq<u64>>,
    pub used: int,
    pub base: int,
    pub levels: Seq<int>,
    pub bases: Seq<int>,
}

/// What the walk of `va` gives in table set `m`.
pub open spec fn walk_model(m: TableModel, va: u64) -> Result<Option<Translation>, TranslationError> {
    if va >= 0x80_0000_0000u64 {
        Err(TranslationError::VirtualAddressOutOfRange)
    } else {
        walk_from(m.pages, m.used, m.base, 0, 1, va)
    }
}

/// Entry `i` of page `p` is empty, names a table one level down that covers
/// its block, or is a leaf of the page's level.
pub open spec fn entry_ok(m: TableModel, p: int, i: int) -> bool {
    let d = m.pages[p][i];
    let level = m.levels[p];
    ||| d == 0 && !is_valid(d)
    ||| {
        &&& level < 3
        &&& is_valid(d)
        &&& is_table_or_page(d)
        &&& table_index_of(m.base, m.used, next_table_pa(d) as int) matches Some(c)
        &&& m.levels[c] == level + 1
        &&& m.bases[c] == m.bases[p] + i * level_bytes(level)
    }
    ||| {
        &&& is_valid(d)
        &&& is_table_or_page(d) == (level == 3)
        &&& (attr_field(d) == 0 || attr_field(d) == 1)
    }
}

/// The table set is well formed: the root is page 0 at level 1 covering the
/// whole 39-bit space, each page in use covers an aligned block of its level,
/// and every entry of a page in use is empty, a table link or a leaf.
pub open spec fn model_wf(m: TableModel) -> bool {
    &&& 1 <= m.used <= m.pages.len()
    &&& m.levels.len() == m.used
    &&& m.bases.len() == m.used
    &&& m.levels[0] == 1
    &&& m.bases[0] == 0
    &&& forall|p: int| 0 <= p < m.used ==> (#[trigger] m.pages[p]).len() == 512
    &&& forall|p: int|
        0 <= p < m.used ==> {
            &&& 1 <= #[trigger] m.levels[p] <= 3
            &&& 0 <= m.bases[p]
            &&& m.bases[p] % table_span(m.levels[p]) == 0
            &&& m.bases[p] + table_span(m.levels[p]) <= 0x80_0000_0000
        }
    &&& forall|p: int, i: int| 0 <= p < m.used && 0 <= i < 512 ==> #[trigger] entry_ok(m, p, i)
}

#[derive(Clone, Copy)]
pub struct TablePage {
    entries: [u64; 512],
}

impl View for TablePage {
    type V = Seq<u64>;

    closed spec fn view(&self) -> Seq<u64> {
        self.entries@
    }
}

impl TablePage {
    pub fn zeroed() -> (r: Self)
        ensures
            r@ == Seq::new(512, |i: int| 0u64),
    {
        let r = TablePage { entries: [0u64; 512] };
        proof {
            assert(r@ =~= Seq::new(512, |i: int| 0u64));
        }
        r
    }

    pub fn entries(&self) -> (r: &[u64; 512])
        ensures
            r@ == self@,
    {
        &self.entries
    }

    pub fn entries_mut(&mut self) -> (r: &mut [u64; 512])
        ensures
            r@ == old(self)@,
            final(self)@ == final(r)@,
    {
        &mut self.entries
    }
}

pub struct TableStorage<const N: usize> {
    pages: [TablePage; N],
}

impl<const N: usize> View for TableStorage<N> {
    type V = Seq<Seq<u64>>;

    closed spec fn view(&self) -> Seq<Seq<u64>> {
        Seq::new(N as nat, |i: int| self.pages@[i]@)
    }
}

impl<const N: usize> TableStorage<N> {
    pub fn zeroed() -> (r: Self)
        ensures
            r@ == Seq::new(N as nat, |i: int| Seq::new(512, |j: int| 0u64)),
    {
        let r = TableStorage { pages: [TablePage::zeroed(); N] };
        proof {
            assert forall|i: int| 0 <= i < N implies r@[i] =~= Seq::new(512, |j: int| 0u64) by {}
            assert(r@ =~= Seq::new(N as nat, |i: int| Seq::new(512, |j: int| 0u64)));
        }
        r
    }

    pub fn pages(&self) -> (r: &[TablePage; N])
        ensures
            r@.len() == N,
            forall|i: int| 0 <= i < N ==> r@[i]@ == #[trigger] self@[i],
    {
        &self.pages
    }

    pub fn pages_mut(&mut self) -> (r: &mut [TablePage; N])
        ensures
            forall|i: int| 0 <= i < N ==> r@[i]@ == #[trigger] old(self)@[i],
            forall|i: int| 0 <= i < N ==> final(r)@[i]@ == #[trigger] final(self)@[i],
    {
        &mut self.pages
    }
}


/// The VA bits of each level are the entry index of that level.
proof fn lemma_index_bits()
    by (bit_vector)
    ensures
        forall|va: u64| #[trigger] ((va >> 30u64) & 0x1ff) == (va / 0x4000_0000) % 512,
        forall|va: u64| #[trigger] ((va >> 21u64) & 0x1ff) == (va / 0x20_0000) % 512,
        forall|va: u64| #[trigger] ((va >> 12u64) & 0x1ff) == (va / 0x1000) % 512,
{
}

/// The output-address bits of each level.
proof fn lemma_mask_constants()
    by (bit_vector)
    ensures
        0x0000_ffff_ffff_f000u64 & !0x3fff_ffffu64 == 0x0000_ffff_c000_0000u64,
        0x0000_ffff_ffff_f000u64 & !0x1f_ffffu64 == 0x0000_ffff_ffe0_0000u64,
        0x0000_ffff_ffff_f000u64 & !0xfffu64 == 0x0000_ffff_ffff_f000u64,
{
}

/// Two addresses are both aligned to a level size exactly when their union
/// has none of its low bits.
proof fn lemma_alignment_bits()
    by (bit_vector)
    ensures
        forall|va: u64, pa: u64| #[trigger] ((va | pa) & 0xfffu64) == 0 <==> (va % 0x1000 == 0
            && pa % 0x1000 == 0),
        forall|va: u64, pa: u64| #[trigger] ((va | pa) & 0x1f_ffffu64) == 0 <==> (va % 0x20_0000
            == 0 && pa % 0x20_0000 == 0),
        forall|va: u64, pa: u64| #[trigger] ((va | pa) & 0x3fff_ffffu64) == 0 <==> (va
            % 0x4000_0000 == 0 && pa % 0x4000_0000 == 0),
{
}

/// The entry index of `va` at `level`, from the VA bits of that level.
fn index_for(level: u8, va: u64) -> (r: usize)
    requires
        1 <= level <= 3,
    ensures
        r == entry_index(level as int, va as int),
        r < 512,
{
    let shift: u64 = if level == 1 {
        30
    } else if level == 2 {
        21
    } else {
        12
    };
    let r = (va >> shift) & 0x1ff;
    proof {
        lemma_index_bits();
    }
    r as usize
}

/// The bytes that one entry at `level` translates.
fn level_size(level: u8) -> (r: u64)
    requires
        1 <= level <= 3,
    ensures
        r == level_bytes(level as int),
{
    if level == 1 {
        0x4000_0000
    } else if level == 2 {
        0x20_0000
    } else {
        PAGE_SIZE
    }
}

/// The output-address bits of a leaf at `level`.
fn output_mask(level: u8) -> (r: u64)
    requires
        1 <= level <= 3,
    ensures
        r == output_mask_of(level as int),
{
    let r = ADDRESS_MASK & !(level_size(level) - 1);
    proof {
        lemma_mask_constants();
    }
    r
}

/// Both addresses are multiples of `size`, one of the three level sizes.
fn aligned_for(va: u64, pa: u64, size: u64) -> (r: bool)
    requires
        size == 0x1000 || size == 0x20_0000 || size == 0x4000_0000,
    ensures
        r == (va % size == 0 && pa % size == 0),
{
    proof {
        lemma_alignment_bits();
    }
    (va | pa) & (size - 1) == 0
}

/// The set of EL2 stage-1 tables built in a caller's storage, whose first
/// page is the level-1 root at physical address `base_pa`.
pub struct TableSet<'a, const N: usize> {
    storage: &'a mut TableStorage<N>,
    used: usize,
    base_pa: u64,
    pa_bits: u8,
    levels: Ghost<Seq<int>>,
    bases: Ghost<Seq<int>>,
}

impl<'a, const N: usize> TableSet<'a, N> {
    /// The abstract state of the table set.
    pub closed spec fn model(&self) -> TableModel {
        TableModel {
            pages: (*self.storage)@,
            used: self.used as int,
            base: self.base_pa as int,
            levels: self.levels@,
            bases: self.bases@,
        }
    }

    /// The physical-address width the tables may point into.
    pub closed spec fn pa_width(&self) -> u8 {
        self.pa_bits
    }

    /// The table set's invariant.
    pub closed spec fn wf(&self) -> bool {
        &&& model_wf(self.model())
        &&& self.used <= N
        &&& self.model().pages.len() == N
        &&& self.base_pa % 4096 == 0
        &&& 32 <= self.pa_bits <= 48
        &&& self.base_pa + N * 4096 <= (1u64 << self.pa_bits)
    }

    /// A well-formed table set has one page of storage for each of its `N`
    /// table pages and uses at least its root.
    pub proof fn lemma_wf_pages(&self)
        requires
            self.wf(),
        ensures
            self.model().pages.len() == N,
            1 <= self.model().used <= N,
            model_wf(self.model()),
    {
    }

    /// The physical address of the root table.
    pub fn root_pa(&self) -> (r: u64)
        ensures
            r == self.model().base,
    {
        self.base_pa
    }

    /// The number of table pages in use.
    pub fn used_pages(&self) -> (r: usize)
        ensures
            r == self.model().used,
    {
        self.used
    }

    /// Table page `index`, where it is in use.
    pub fn page(&self, index: usize) -> (r: Option<&TablePage>)
        requires
            self.wf(),
        ensures
            index < self.model().used <==> r is Some,
            r matches Some(page) ==> page@ == self.model().pages[index as int],
    {
        if index < N && index < self.used {
            Some(&self.storage.pages[index])
        } else {
            None
        }
    }

    /// The physical address of table page `index`.
    fn table_pa(&self, index: usize) -> (r: u64)
        requires
            self.base_pa + N * 4096 <= (1u64 << self.pa_bits),
            index < N,
        ensures
            r == self.base_pa + index * 4096,
    {
        self.base_pa + index as u64 * PAGE_SIZE
    }

    /// The table page in use at physical address `pa`.
    fn table_index(&self, pa: u64) -> (r: Result<usize, TranslationError>)
        ensures
            r == (match table_index_of(self.base_pa as int, self.used as int, pa as int) {
                Some(c) => Ok::<usize, TranslationError>(c as usize),
                None => Err(TranslationError::CorruptTable),
            }),
    {
        let offset = match pa.checked_sub(self.base_pa) {
            Some(o) => o,
            None => return Err(TranslationError::CorruptTable),
        };
        assert(offset & 0xfff == offset % 4096) by {
            crate::page::lemma_low_bits();
        }
        if offset & (PAGE_SIZE - 1) != 0 {
            return Err(TranslationError::CorruptTable);
        }
        let index = offset / PAGE_SIZE;
        if index >= self.used as u64 {
            return Err(TranslationError::CorruptTable);
        }
        Ok(index as usize)
    }

    /// Takes the next unused page, zeroed, at `level` covering from `base_va`.
    fn allocate_page(&mut self, Ghost(level): Ghost<int>, Ghost(base_va): Ghost<int>) -> (r: Result<
        usize,
        TranslationError,
    >)
        requires
            old(self).used <= N,
        ensures
            final(self).base_pa == old(self).base_pa,
            final(self).pa_bits == old(self).pa_bits,
            r is Err ==> old(self).used == N && r == Err::<usize, TranslationError>(
                TranslationError::TableExhausted,
            ) && *final(self) == *old(self),
            r matches Ok(index) ==> {
                &&& old(self).used < N
                &&& index == old(self).used
                &&& final(self).used == old(self).used + 1
                &&& final(self).model().pages == old(self).model().pages.update(
                    index as int,
                    Seq::new(512, |j: int| 0u64),
                )
                &&& final(self).levels@ == old(self).levels@.push(level)
                &&& final(self).bases@ == old(self).bases@.push(base_va)
            },
    {
        if self.used == N {
            return Err(TranslationError::TableExhausted);
        }
        let index = self.used;
        let ghost before = self.model().pages;
        self.storage.pages[index] = TablePage::zeroed();
        self.used = self.used + 1;
        self.levels = Ghost(self.levels@.push(level));
        self.bases = Ghost(self.bases@.push(base_va));
        proof {
            assert(self.model().pages =~= before.update(index as int, Seq::new(512, |j: int| 0u64)));
        }
        Ok(index)
    }

    /// Translates `va` through the tables.
    pub fn walk(&self, va: u64) -> (r: Result<Option<Translation>, TranslationError>)
        requires
            self.wf(),
        ensures
            r == walk_model(self.model(), va),
    {
        assert(1u64 << 39u64 == 0x80_0000_0000u64) by {
            crate::page::lemma_bit_constants();
        }
        if va >= (1u64 << 39u64) {
            return Err(TranslationError::VirtualAddressOutOfRange);
        }
        let ghost m = self.model();
        let mut table: usize = 0;
        let mut level: u8 = 1;
        loop
            invariant
                self.wf(),
                m == self.model(),
                va < 0x80_0000_0000u64,
                1 <= level <= 3,
                table < self.used,
                walk_model(m, va) == walk_from(m.pages, m.used, m.base, table as int, level as int, va),
            decreases 3 - level,
        {
            let index = index_for(level, va);
            let descriptor = self.storage.pages[table].entries[index];
            assert(descriptor == m.pages[table as int][index as int]);
            if descriptor & VALID == 0 {
                return Ok(None);
            }
            let is_table_or_page = descriptor & TABLE_OR_PAGE != 0;
            if level < 3 && is_table_or_page {
                table = self.table_index(descriptor & ADDRESS_MASK)?;
                level = level + 1;
                continue;
            }
            if level == 3 && !is_table_or_page {
                return Err(TranslationError::CorruptTable);
            }
            let block_size = level_size(level);
            let base = descriptor & output_mask(level);
            let pa = base | (va & (block_size - 1));
            let attr_index = (descriptor >> 2u64) & 0b111;
            let memory_type = if attr_index == 0 {
                MemoryType::Normal
            } else if attr_index == 1 {
                MemoryType::Device
            } else {
                return Err(TranslationError::CorruptTable);
            };
            return Ok(
                Some(
                    Translation {
                        pa,
                        memory_type,
                        writable: descriptor & AP_READ_ONLY == 0,
                        executable: descriptor & XN == 0,
                        level,
                    },
                ),
            );
        }
    }
}


/// The table page that the walk of `v` reaches at level `k`.
pub open spec fn reach(m: TableModel, v: u64, k: int) -> Option<int>
    decreases k,
{
    if k <= 1 {
        Some(0)
    } else {
        match reach(m, v, k - 1) {
            None => None,
            Some(q) => {
                let d = m.pages[q][entry_index(k - 1, v as int)];
                if is_valid(d) && is_table_or_page(d) {
                    table_index_of(m.base, m.used, next_table_pa(d) as int)
                } else {
                    None
                }
            },
        }
    }
}

/// `m2` is `m` with entry `i` of page `p` replaced by `d`.
pub open spec fn written(m: TableModel, m2: TableModel, p: int, i: int, d: u64) -> bool {
    &&& m2.pages == m.pages.update(p, m.pages[p].update(i, d))
    &&& m2.used == m.used
    &&& m2.base == m.base
    &&& m2.levels == m.levels
    &&& m2.bases == m.bases
}

/// `m2` is `m` with one more zeroed page in use, at `level` from `base_va`.
pub open spec fn allocated(m: TableModel, m2: TableModel, level: int, base_va: int) -> bool {
    &&& m.used < m.pages.len()
    &&& m2.pages == m.pages.update(m.used, Seq::new(512, |j: int| 0u64))
    &&& m2.used == m.used + 1
    &&& m2.base == m.base
    &&& m2.levels == m.levels.push(level)
    &&& m2.bases == m.bases.push(base_va)
}

/// Within a table covering `[b, b + 512 * s)`, the entry of `v` covers the
/// block of `s` bytes holding `v`.
proof fn lemma_block(b: int, s: int, v: int)
    requires
        s > 0,
        b % (512 * s) == 0,
        b <= v < b + 512 * s,
    ensures
        b + ((v / s) % 512) * s <= v < b + ((v / s) % 512) * s + s,
        (b + ((v / s) % 512) * s) % s == 0,
{
    let q = b / (512 * s);
    vstd::arithmetic::div_mod::lemma_fundamental_div_mod(b, 512 * s);
    assert(b == 512 * s * q) by (nonlinear_arith)
        requires
            b == (512 * s) * (b / (512 * s)) + b % (512 * s),
            b % (512 * s) == 0,
            q == b / (512 * s),
    ;
    let r = v - b;
    vstd::arithmetic::div_mod::lemma_fundamental_div_mod(r, s);
    let rq = r / s;
    let rr = r % s;
    assert(0 <= rq < 512) by (nonlinear_arith)
        requires
            r == s * rq + rr,
            0 <= rr < s,
            0 <= r < 512 * s,
            s > 0,
    ;
    assert(v == (512 * q + rq) * s + rr) by (nonlinear_arith)
        requires
            v == b + r,
            b == 512 * s * q,
            r == s * rq + rr,
    ;
    vstd::arithmetic::div_mod::lemma_fundamental_div_mod_converse(v, s, 512 * q + rq, rr);
    vstd::arithmetic::div_mod::lemma_fundamental_div_mod_converse(v / s, 512, q, rq);
    assert(b + rq * s <= v < b + rq * s + s) by (nonlinear_arith)
        requires
            v == b + r,
            r == s * rq + rr,
            0 <= rr < s,
    ;
    assert(b + rq * s == (512 * q + rq) * s) by (nonlinear_arith)
        requires
            b == 512 * s * q,
    ;
    vstd::arithmetic::div_mod::lemma_mod_multiples_basic(512 * q + rq, s);
    assert(((v / s) % 512) == rq);
}

/// An aligned address inside an aligned block of the same size is its start.
proof fn lemma_aligned_in_block(lo: int, s: int, x: int)
    requires
        s > 0,
        lo % s == 0,
        x % s == 0,
        lo <= x < lo + s,
    ensures
        x == lo,
{
    vstd::arithmetic::div_mod::lemma_fundamental_div_mod(lo, s);
    vstd::arithmetic::div_mod::lemma_fundamental_div_mod(x, s);
    let ql = lo / s;
    let qx = x / s;
    assert(ql <= qx < ql + 1) by (nonlinear_arith)
        requires
            lo == s * ql,
            x == s * qx,
            lo <= x < lo + s,
            s > 0,
    ;
}

/// What the walk reaches: a page in use at the walk's level, whose block
/// holds `v`, and from which the rest of the walk goes.
proof fn lemma_reach(m: TableModel, v: u64, k: int)
    requires
        model_wf(m),
        v < 0x80_0000_0000u64,
        1 <= k <= 3,
        reach(m, v, k) is Some,
    ensures
        ({
            let t = reach(m, v, k).unwrap();
            &&& 0 <= t < m.used
            &&& m.levels[t] == k
            &&& m.bases[t] <= v < m.bases[t] + table_span(k)
            &&& walk_from(m.pages, m.used, m.base, 0, 1, v) == walk_from(
                m.pages,
                m.used,
                m.base,
                t,
                k,
                v,
            )
        }),
    decreases k,
{
    if k > 1 {
        lemma_reach(m, v, k - 1);
        let q = reach(m, v, k - 1).unwrap();
        let j = entry_index(k - 1, v as int);
        assert(entry_ok(m, q, j));
        let d = m.pages[q][j];
        assert(is_valid(d) && is_table_or_page(d));
        assert(m.levels[q] == k - 1);
        assert(reach(m, v, k) == table_index_of(m.base, m.used, next_table_pa(d) as int));
        let c = reach(m, v, k).unwrap();
        assert(m.bases[q] % table_span(k - 1) == 0);
        lemma_block(m.bases[q], level_bytes(k - 1), v as int);
        assert(m.bases[c] == m.bases[q] + j * level_bytes(k - 1));
    }
}

/// Two addresses that share their entries above level `k` reach the same
/// page at `k`.
proof fn lemma_reach_same_prefix(m: TableModel, v: u64, w: u64, k: int)
    requires
        forall|j: int| 1 <= j < k ==> entry_index(j, v as int) == entry_index(j, w as int),
    ensures
        reach(m, v, k) == reach(m, w, k),
    decreases k,
{
    if k > 1 {
        lemma_reach_same_prefix(m, v, w, k - 1);
        assert(entry_index(k - 1, v as int) == entry_index(k - 1, w as int));
    }
}

/// Writing an entry of a page at level `k` or below leaves the pages that
/// walks reach down to level `k` as they were.
proof fn lemma_reach_write(m: TableModel, m2: TableModel, p: int, i: int, d: u64, v: u64, k: int)
    requires
        model_wf(m),
        written(m, m2, p, i, d),
        0 <= p < m.used,
        v < 0x80_0000_0000u64,
        1 <= k <= 3,
        k <= m.levels[p],
    ensures
        reach(m2, v, k) == reach(m, v, k),
    decreases k,
{
    if k > 1 {
        lemma_reach_write(m, m2, p, i, d, v, k - 1);
        if reach(m, v, k - 1) is Some {
            lemma_reach(m, v, k - 1);
            let q = reach(m, v, k - 1).unwrap();
            assert(q != p);
            assert(m2.pages[q] == m.pages[q]);
        }
    }
}

/// Writing an entry leaves every walk that does not read it as it was.
proof fn lemma_walk_write(
    m: TableModel,
    m2: TableModel,
    p: int,
    i: int,
    d: u64,
    t: int,
    k: int,
    v: u64,
)
    requires
        model_wf(m),
        written(m, m2, p, i, d),
        0 <= p < m.used,
        0 <= i < 512,
        v < 0x80_0000_0000u64,
        1 <= k <= 3,
        reach(m, v, k) == Some(t),
        !(reach(m, v, m.levels[p]) == Some(p) && entry_index(m.levels[p], v as int) == i),
    ensures
        walk_from(m2.pages, m2.used, m2.base, t, k, v) == walk_from(m.pages, m.used, m.base, t, k, v),
    decreases 3 - k,
{
    lemma_reach(m, v, k);
    let j = entry_index(k, v as int);
    assert(m2.pages[t][j] == m.pages[t][j]);
    let e = m.pages[t][j];
    if k < 3 && is_valid(e) && is_table_or_page(e) {
        if let Some(c) = table_index_of(m.base, m.used, next_table_pa(e) as int) {
            assert(reach(m, v, k + 1) == Some(c));
            lemma_walk_write(m, m2, p, i, d, c, k + 1, v);
        }
    }
}

/// Taking a new page leaves the pages that walks reach as they were.
proof fn lemma_reach_alloc(m: TableModel, m2: TableModel, level: int, base_va: int, v: u64, k: int)
    requires
        model_wf(m),
        allocated(m, m2, level, base_va),
        v < 0x80_0000_0000u64,
        1 <= k <= 3,
    ensures
        reach(m2, v, k) == reach(m, v, k),
    decreases k,
{
    if k > 1 {
        lemma_reach_alloc(m, m2, level, base_va, v, k - 1);
        if reach(m, v, k - 1) is Some {
            lemma_reach(m, v, k - 1);
            let q = reach(m, v, k - 1).unwrap();
            let j = entry_index(k - 1, v as int);
            assert(m2.pages[q] == m.pages[q]);
            assert(entry_ok(m, q, j));
            let d = m.pages[q][j];
            if let Some(c) = table_index_of(m.base, m.used, next_table_pa(d) as int) {
                assert(table_index_of(m2.base, m2.used, next_table_pa(d) as int) == Some(c));
            }
            if is_valid(d) && is_table_or_page(d) {
                assert(table_index_of(m.base, m.used, next_table_pa(d) as int) is Some);
            }
        }
    }
}

/// Taking a new page leaves every walk as it was.
proof fn lemma_walk_alloc(
    m: TableModel,
    m2: TableModel,
    level: int,
    base_va: int,
    t: int,
    k: int,
    v: u64,
)
    requires
        model_wf(m),
        allocated(m, m2, level, base_va),
        v < 0x80_0000_0000u64,
        1 <= k <= 3,
        reach(m, v, k) == Some(t),
    ensures
        walk_from(m2.pages, m2.used, m2.base, t, k, v) == walk_from(m.pages, m.used, m.base, t, k, v),
    decreases 3 - k,
{
    lemma_reach(m, v, k);
    let j = entry_index(k, v as int);
    assert(m2.pages[t] == m.pages[t]);
    assert(entry_ok(m, t, j));
    let e = m.pages[t][j];
    if k < 3 && is_valid(e) && is_table_or_page(e) {
        assert(table_index_of(m.base, m.used, next_table_pa(e) as int) is Some);
        if let Some(c) = table_index_of(m.base, m.used, next_table_pa(e) as int) {
            assert(table_index_of(m2.base, m2.used, next_table_pa(e) as int) == Some(c));
            assert(reach(m, v, k + 1) == Some(c));
            lemma_walk_alloc(m, m2, level, base_va, c, k + 1, v);
        }
    }
}

/// A new zeroed page keeps the table set well formed.
proof fn lemma_wf_alloc(m: TableModel, m2: TableModel, level: int, base_va: int)
    requires
        model_wf(m),
        allocated(m, m2, level, base_va),
        2 <= level <= 3,
        0 <= base_va,
        base_va % table_span(level) == 0,
        base_va + table_span(level) <= 0x80_0000_0000,
    ensures
        model_wf(m2),
{
    let u = m.used;
    assert forall|p: int| 0 <= p < m2.used implies (#[trigger] m2.pages[p]).len() == 512 by {
        if p < u {
            assert(m2.pages[p] == m.pages[p]);
        }
    }
    assert forall|p: int, i: int| 0 <= p < m2.used && 0 <= i < 512 implies #[trigger] entry_ok(
        m2,
        p,
        i,
    ) by {
        if p < u {
            assert(entry_ok(m, p, i));
            assert(m2.pages[p] == m.pages[p]);
            assert(m2.levels[p] == m.levels[p]);
            let d = m.pages[p][i];
            if let Some(c) = table_index_of(m.base, m.used, next_table_pa(d) as int) {
                assert(table_index_of(m2.base, m2.used, next_table_pa(d) as int) == Some(c));
            }
        } else {
            assert(m2.pages[p][i] == 0);
            assert(0u64 & 1 == 0) by {
                crate::page::lemma_bit_constants();
            }
        }
    }
}

/// Writing an entry that is in order keeps the table set well formed.
proof fn lemma_wf_write(m: TableModel, m2: TableModel, p: int, i: int, d: u64)
    requires
        model_wf(m),
        written(m, m2, p, i, d),
        0 <= p < m.used,
        0 <= i < 512,
        entry_ok(m2, p, i),
    ensures
        model_wf(m2),
{
    assert forall|q: int| 0 <= q < m2.used implies (#[trigger] m2.pages[q]).len() == 512 by {
        if q != p {
            assert(m2.pages[q] == m.pages[q]);
        }
    }
    assert forall|q: int, j: int| 0 <= q < m2.used && 0 <= j < 512 implies #[trigger] entry_ok(
        m2,
        q,
        j,
    ) by {
        if q != p || j != i {
            assert(entry_ok(m, q, j));
            assert(m2.pages[q][j] == m.pages[q][j]);
        }
    }
}


/// The bits of a leaf descriptor, set in the order the builder sets them.
pub open spec fn leaf_bits(
    pa: u64,
    mask: u64,
    attr: u64,
    page: bool,
    normal: bool,
    writable: bool,
    executable: bool,
) -> u64 {
    let d0 = (pa & mask) | 1u64 | 0x400u64 | (attr << 2u64);
    let d1 = if page {
        d0 | 2u64
    } else {
        d0
    };
    let d2 = if normal {
        d1 | 0x300u64
    } else {
        d1
    };
    let d3 = if !writable {
        d2 | 0x80u64
    } else {
        d2
    };
    if !executable {
        d3 | 0x40_0000_0000_0000u64
    } else {
        d3
    }
}

/// The MAIR index of a memory type.
pub open spec fn attr_of(memory_type: MemoryType) -> u64 {
    match memory_type {
        MemoryType::Normal => 0u64,
        MemoryType::Device => 1u64,
    }
}

/// The leaf descriptor that maps output address `pa` at `level` with the
/// attributes of `mapping`.
pub open spec fn leaf_descriptor_of(level: int, pa: u64, mapping: Mapping) -> u64 {
    leaf_bits(
        pa,
        output_mask_of(level),
        attr_of(mapping.memory_type),
        level == 3,
        mapping.memory_type == MemoryType::Normal,
        mapping.writable,
        mapping.executable,
    )
}

/// What `mapping` says of `v`, with `v` translated by a leaf at `level`.
pub open spec fn mapped_translation(mapping: Mapping, v: u64, level: int) -> Translation {
    Translation {
        pa: (mapping.pa + (v - mapping.va)) as u64,
        memory_type: mapping.memory_type,
        writable: mapping.writable,
        executable: mapping.executable,
        level: level as u8,
    }
}

/// A table descriptor names its table and is a valid table entry.
proof fn lemma_link_bits(x: u64)
    requires
        x % 4096 == 0,
        x < 0x1_0000_0000_0000u64,
    ensures
        is_valid(x | 1u64 | 2u64),
        is_table_or_page(x | 1u64 | 2u64),
        next_table_pa(x | 1u64 | 2u64) == x,
{
    assert(x % 4096 == 0 && x < 0x1_0000_0000_0000u64 ==> (x | 1u64 | 2u64) & 1 != 0 && (x | 1u64
        | 2u64) & 2 != 0 && (x | 1u64 | 2u64) & 0x0000_ffff_ffff_f000u64 == x) by (bit_vector);
}

/// A leaf descriptor is a valid leaf of its level with the mapping's
/// attributes, and translates each address of its block to the same offset
/// from `pa`.
proof fn lemma_leaf_bits(level: int, pa: u64, mapping: Mapping, va: u64, v: u64)
    requires
        1 <= level <= 3,
        pa % (level_bytes(level) as u64) == 0,
        pa < 0x1_0000_0000_0000u64,
        va % (level_bytes(level) as u64) == 0,
        va <= v < va + level_bytes(level),
    ensures
        ({
            let d = leaf_descriptor_of(level, pa, mapping);
            &&& is_valid(d)
            &&& d != 0
            &&& is_table_or_page(d) == (level == 3)
            &&& attr_field(d) == attr_of(mapping.memory_type)
            &&& leaf_translation(d, level, v) == Ok::<Option<Translation>, TranslationError>(
                Some(
                    Translation {
                        pa: (pa + (v - va)) as u64,
                        memory_type: mapping.memory_type,
                        writable: mapping.writable,
                        executable: mapping.executable,
                        level: level as u8,
                    },
                ),
            )
        }),
{
    let a = attr_of(mapping.memory_type);
    let n = mapping.memory_type == MemoryType::Normal;
    let w = mapping.writable;
    let x = mapping.executable;
    let d = leaf_descriptor_of(level, pa, mapping);
    if level == 1 {
        assert(pa % 0x4000_0000 == 0 && pa < 0x1_0000_0000_0000u64 && a <= 1 ==> {
            let e = leaf_bits(pa, 0x0000_ffff_c000_0000u64, a, false, n, w, x);
            &&& e & 1 != 0
            &&& e & 2 == 0
            &&& (e >> 2u64) & 7 == a
            &&& (e & 0x80 == 0) == w
            &&& (e & 0x40_0000_0000_0000u64 == 0) == x
            &&& e & 0x0000_ffff_c000_0000u64 == pa
        }) by (bit_vector);
        assert(pa % 0x4000_0000 == 0 && va % 0x4000_0000 == 0 && va <= v && v - va < 0x4000_0000
            ==> (pa | (v & 0x3fff_ffffu64)) == pa + (v - va)) by (bit_vector);
    } else if level == 2 {
        assert(pa % 0x20_0000 == 0 && pa < 0x1_0000_0000_0000u64 && a <= 1 ==> {
            let e = leaf_bits(pa, 0x0000_ffff_ffe0_0000u64, a, false, n, w, x);
            &&& e & 1 != 0
            &&& e & 2 == 0
            &&& (e >> 2u64) & 7 == a
            &&& (e & 0x80 == 0) == w
            &&& (e & 0x40_0000_0000_0000u64 == 0) == x
            &&& e & 0x0000_ffff_ffe0_0000u64 == pa
        }) by (bit_vector);
        assert(pa % 0x20_0000 == 0 && va % 0x20_0000 == 0 && va <= v && v - va < 0x20_0000 ==> (pa
            | (v & 0x1f_ffffu64)) == pa + (v - va)) by (bit_vector);
    } else {
        assert(pa % 0x1000 == 0 && pa < 0x1_0000_0000_0000u64 && a <= 1 ==> {
            let e = leaf_bits(pa, 0x0000_ffff_ffff_f000u64, a, true, n, w, x);
            &&& e & 1 != 0
            &&& e & 2 != 0
            &&& (e >> 2u64) & 7 == a
            &&& (e & 0x80 == 0) == w
            &&& (e & 0x40_0000_0000_0000u64 == 0) == x
            &&& e & 0x0000_ffff_ffff_f000u64 == pa
        }) by (bit_vector);
        assert(pa % 0x1000 == 0 && va % 0x1000 == 0 && va <= v && v - va < 0x1000 ==> (pa | (v
            & 0xfffu64)) == pa + (v - va)) by (bit_vector);
    }
    assert(0u64 & 1 == 0) by {
        crate::page::lemma_bit_constants();
    }
}

/// The leaf descriptor for `pa` at `level` with the attributes of `mapping`.
pub fn leaf_descriptor(level: u8, pa: u64, mapping: Mapping) -> (r: u64)
    requires
        1 <= level <= 3,
    ensures
        r == leaf_descriptor_of(level as int, pa, mapping),
{
    // The access flag is set so that the first access takes no access-flag
    // fault.
    let mut descriptor = (pa & output_mask(level)) | VALID | ACCESS_FLAG | (
    mapping.memory_type.attr_index() << 2u64);
    if level == 3 {
        descriptor = descriptor | TABLE_OR_PAGE;
    }
    if mapping.memory_type == MemoryType::Normal {
        descriptor = descriptor | SH_INNER;
    }
    if !mapping.writable {
        descriptor = descriptor | AP_READ_ONLY;
    }
    if !mapping.executable {
        descriptor = descriptor | XN;
    }
    descriptor
}

/// The block of entry `index` of a table at `level` covering from `b` is
/// an aligned block of the next level's table span.
proof fn lemma_child_base(b: int, index: int, level: int)
    requires
        1 <= level <= 2,
        0 <= index < 512,
        0 <= b,
        b % table_span(level) == 0,
        b + table_span(level) <= 0x80_0000_0000,
    ensures
        (b + index * level_bytes(level)) % table_span(level + 1) == 0,
        b + index * level_bytes(level) + table_span(level + 1) <= 0x80_0000_0000,
        0 <= b + index * level_bytes(level),
{
    if level == 1 {
        assert(b == 0);
        assert((index * 0x4000_0000) % 0x4000_0000 == 0) by (nonlinear_arith);
    } else {
        let q = b / 0x4000_0000;
        assert(b == 0x4000_0000 * q);
        assert((0x4000_0000 * q + index * 0x20_0000) == 0x20_0000 * (512 * q + index)) by (nonlinear_arith);
        vstd::arithmetic::div_mod::lemma_mod_multiples_basic(512 * q + index, 0x20_0000);
    }
}

/// Linking a fresh zeroed page below an empty entry on the path of `va`
/// keeps the set well formed, extends the path of `va` by that page and
/// changes no walk.
proof fn lemma_link_step(
    m: TableModel,
    m1: TableModel,
    m2: TableModel,
    t: int,
    index: int,
    level: int,
    child_base: int,
    link: u64,
    va: u64,
)
    requires
        model_wf(m),
        1 <= level <= 2,
        va < 0x80_0000_0000u64,
        reach(m, va, level) == Some(t),
        index == entry_index(level, va as int),
        m.pages[t][index] == 0,
        child_base == m.bases[t] + index * level_bytes(level),
        allocated(m, m1, level + 1, child_base),
        written(m1, m2, t, index, link),
        is_valid(link),
        is_table_or_page(link),
        next_table_pa(link) == m.base + m.used * 4096,
    ensures
        model_wf(m2),
        reach(m2, va, level + 1) == Some(m.used),
        forall|v: u64| #[trigger] walk_model(m2, v) == walk_model(m, v),
{
    assert(0u64 & 1 == 0) by {
        crate::page::lemma_bit_constants();
    }
    lemma_reach(m, va, level);
    lemma_child_base(m.bases[t], index, level);
    lemma_wf_alloc(m, m1, level + 1, child_base);
    lemma_reach_alloc(m, m1, level + 1, child_base, va, level);
    let child = m.used;
    assert(table_index_of(m2.base, m2.used, next_table_pa(link) as int) == Some(child));
    assert(entry_ok(m2, t, index));
    lemma_wf_write(m1, m2, t, index, link);
    lemma_reach_write(m1, m2, t, index, link, va, level);
    assert forall|v: u64| #[trigger] walk_model(m2, v) == walk_model(m, v) by {
        if v < 0x80_0000_0000u64 {
            lemma_walk_alloc(m, m1, level + 1, child_base, 0, 1, v);
            if reach(m1, v, level) == Some(t) && entry_index(level, v as int) == index {
                lemma_reach(m1, v, level);
                assert(m1.pages[t] == m.pages[t]);
                assert(walk_from(m1.pages, m1.used, m1.base, t, level, v) == Ok::<
                    Option<Translation>,
                    TranslationError,
                >(None));
                lemma_reach_write(m1, m2, t, index, link, v, level);
                lemma_reach(m2, v, level);
                assert(m2.pages[child] == m1.pages[child]);
                assert(m2.pages[child][entry_index(level + 1, v as int)] == 0);
                assert(walk_from(m2.pages, m2.used, m2.base, child, level + 1, v) == Ok::<
                    Option<Translation>,
                    TranslationError,
                >(None));
                assert(walk_from(m2.pages, m2.used, m2.base, t, level, v) == Ok::<
                    Option<Translation>,
                    TranslationError,
                >(None));
            } else {
                lemma_walk_write(m1, m2, t, index, link, 0, 1, v);
            }
        }
    }
}

/// Two addresses in one aligned block of `level` share their entries at
/// `level` and above.
proof fn lemma_same_block(level: int, va: u64, v: u64)
    requires
        1 <= level <= 3,
        va % (level_bytes(level) as u64) == 0,
        va <= v < va + level_bytes(level),
    ensures
        forall|j: int| 1 <= j <= level ==> entry_index(j, v as int) == entry_index(j, va as int),
{
    let b = level_bytes(level);
    let q = va as int / b;
    assert(va as int == q * b) by {
        vstd::arithmetic::div_mod::lemma_fundamental_div_mod(va as int, b);
    }
    vstd::arithmetic::div_mod::lemma_fundamental_div_mod_converse(v as int, b, q, v - va);
    if level == 3 {
        vstd::arithmetic::div_mod::lemma_div_denominator(v as int, 0x1000, 512);
        vstd::arithmetic::div_mod::lemma_div_denominator(va as int, 0x1000, 512);
        vstd::arithmetic::div_mod::lemma_div_denominator(v as int, 0x1000, 0x4_0000);
        vstd::arithmetic::div_mod::lemma_div_denominator(va as int, 0x1000, 0x4_0000);
    } else if level == 2 {
        vstd::arithmetic::div_mod::lemma_div_denominator(v as int, 0x20_0000, 512);
        vstd::arithmetic::div_mod::lemma_div_denominator(va as int, 0x20_0000, 512);
    }
}

/// Writing the leaf for the block at `va` into its empty or equal entry
/// keeps the set well formed, maps the block, and changes no other walk.
proof fn lemma_leaf_step(
    m: TableModel,
    m3: TableModel,
    t: int,
    index: int,
    level: int,
    va: u64,
    pa: u64,
    mapping: Mapping,
)
    requires
        model_wf(m),
        1 <= level <= 3,
        va % (level_bytes(level) as u64) == 0,
        pa % (level_bytes(level) as u64) == 0,
        pa < 0x1_0000_0000_0000u64,
        va + level_bytes(level) <= 0x80_0000_0000u64,
        reach(m, va, level) == Some(t),
        index == entry_index(level, va as int),
        m.pages[t][index] == 0 || m.pages[t][index] == leaf_descriptor_of(level, pa, mapping),
        written(m, m3, t, index, leaf_descriptor_of(level, pa, mapping)),
    ensures
        model_wf(m3),
        forall|v: u64|
            !(va <= v < va + level_bytes(level)) ==> #[trigger] walk_model(m3, v) == walk_model(m, v),
        forall|v: u64|
            va <= v < va + level_bytes(level) ==> #[trigger] walk_model(m3, v) == Ok::<
                Option<Translation>,
                TranslationError,
            >(
                Some(
                    Translation {
                        pa: (pa + (v - va)) as u64,
                        memory_type: mapping.memory_type,
                        writable: mapping.writable,
                        executable: mapping.executable,
                        level: level as u8,
                    },
                ),
            ),
{
    let d = leaf_descriptor_of(level, pa, mapping);
    let size = level_bytes(level);
    lemma_reach(m, va, level);
    lemma_leaf_bits(level, pa, mapping, va, va);
    assert(entry_ok(m3, t, index));
    lemma_wf_write(m, m3, t, index, d);
    assert forall|v: u64| va <= v < va + size implies #[trigger] walk_model(m3, v) == Ok::<
        Option<Translation>,
        TranslationError,
    >(
        Some(
            Translation {
                pa: (pa + (v - va)) as u64,
                memory_type: mapping.memory_type,
                writable: mapping.writable,
                executable: mapping.executable,
                level: level as u8,
            },
        ),
    ) by {
        lemma_same_block(level, va, v);
        lemma_reach_same_prefix(m3, v, va, level);
        lemma_reach_write(m, m3, t, index, d, va, level);
        lemma_reach(m3, v, level);
        lemma_leaf_bits(level, pa, mapping, va, v);
    }
    assert forall|v: u64| !(va <= v < va + size) implies #[trigger] walk_model(m3, v) == walk_model(
        m,
        v,
    ) by {
        if v < 0x80_0000_0000u64 {
            if reach(m, v, level) == Some(t) && entry_index(level, v as int) == index {
                lemma_reach(m, v, level);
                lemma_block(m.bases[t], size, v as int);
                lemma_block(m.bases[t], size, va as int);
                lemma_aligned_in_block(m.bases[t] + index * size, size, va as int);
                assert(false);
            }
            lemma_walk_write(m, m3, t, index, d, 0, 1, v);
        }
    }
}

/// The table storage is used up.
pub open spec fn storage_full(m: TableModel) -> bool {
    m.used == m.pages.len()
}

/// The walk of `v` in `m` finds a translation.
pub open spec fn translates(m: TableModel, v: u64) -> bool {
    walk_model(m, v) matches Ok(Some(_))
}

/// At `level`, where the walk of `v` would need a leaf, `m` already holds a
/// link to a table one level down.
pub open spec fn table_in_way(m: TableModel, v: u64, level: int) -> bool {
    &&& level < 3
    &&& reach(m, v, level) matches Some(t)
    &&& is_valid(m.pages[t][entry_index(level, v as int)])
    &&& is_table_or_page(m.pages[t][entry_index(level, v as int)])
}

/// Addresses whose entries agree at every level above `k` reach the same
/// table at level `k`.
proof fn lemma_reach_same(m: TableModel, v: u64, w: u64, k: int)
    requires
        1 <= k <= 3,
        forall|j: int| 1 <= j < k ==> entry_index(j, v as int) == entry_index(j, w as int),
    ensures
        reach(m, v, k) == reach(m, w, k),
    decreases k,
{
    if k > 1 {
        lemma_reach_same(m, v, w, k - 1);
    }
}

/// A descriptor with both low bits set is a valid table or page descriptor.
proof fn lemma_low_bits(d: u64)
    ensures
        (d & 3 == 3) <==> (is_valid(d) && is_table_or_page(d)),
        d == 0 ==> !is_valid(d),
{
    assert((d & 3 == 3) <==> (d & 1 != 0 && d & 2 != 0)) by (bit_vector);
    assert(d == 0 ==> d & 1 == 0) by (bit_vector);
}

/// What entry `i` of page `p` held in `m0`; a page that `m0` did not use
/// counts as empty.
pub open spec fn old_entry(m0: TableModel, p: int, i: int) -> u64 {
    if p < m0.used {
        m0.pages[p][i]
    } else {
        0
    }
}

/// The first address that entry `i` of page `p` of `m` covers.
pub open spec fn slot_start(m: TableModel, p: int, i: int) -> int {
    m.bases[p] + i * level_bytes(m.levels[p])
}

/// `m` grew from `m0` by filling empty entries only, each covering some
/// address of `s` and linking, where it links a table, one that `m0` did
/// not use; the pages of `m0` keep their levels and blocks.
#[verifier::opaque]
pub open spec fn grown_over(m0: TableModel, m: TableModel, s: Set<int>) -> bool {
    &&& m.base == m0.base
    &&& m0.used <= m.used
    &&& forall|p: int| 0 <= p < m0.used ==> #[trigger] m.levels[p] == m0.levels[p] && m.bases[p] == m0.bases[p]
    &&& forall|p: int, i: int|
        0 <= p < m.used && 0 <= i < 512 && #[trigger] m.pages[p][i] != old_entry(m0, p, i) ==> {
            &&& old_entry(m0, p, i) == 0
            &&& exists|a: int|
                s.contains(a) && slot_start(m, p, i) <= a < slot_start(m, p, i) + level_bytes(
                    m.levels[p],
                )
            &&& (m.levels[p] < 3 && is_valid(m.pages[p][i]) && is_table_or_page(m.pages[p][i])
                ==> (table_index_of(m.base, m.used, next_table_pa(m.pages[p][i]) as int) matches Some(
                c,
            ) && c >= m0.used))
        }
}

/// `m` grew from `m0` by filling empty entries that cover addresses of
/// `[lo, hi)`, as [`grown_over`] says.
pub open spec fn grown_within(m0: TableModel, m: TableModel, lo: int, hi: int) -> bool {
    grown_over(m0, m, Set::new(|a: int| lo <= a < hi))
}

/// A table set has grown from itself.
pub proof fn lemma_grown_over_refl(m: TableModel, s: Set<int>)
    requires
        model_wf(m),
    ensures
        grown_over(m, m, s),
{
    reveal(grown_over);
}

/// Growth over a set is growth over any set around it.
pub proof fn lemma_grown_over_widen(m0: TableModel, m: TableModel, s: Set<int>, s2: Set<int>)
    requires
        grown_over(m0, m, s),
        s.subset_of(s2),
    ensures
        grown_over(m0, m, s2),
{
    reveal(grown_over);
    assert forall|p: int, i: int|
        0 <= p < m.used && 0 <= i < 512 && #[trigger] m.pages[p][i] != old_entry(m0, p, i) implies exists|
        a: int,
    | s2.contains(a) && slot_start(m, p, i) <= a < slot_start(m, p, i) + level_bytes(m.levels[p]) by {
        let a = choose|a: int|
            s.contains(a) && slot_start(m, p, i) <= a < slot_start(m, p, i) + level_bytes(m.levels[p]);
        assert(s2.contains(a));
    }
}

/// Growing in two steps grows over the first set where it holds the second.
pub proof fn lemma_grown_over_trans(m0: TableModel, m1: TableModel, m2: TableModel, s: Set<int>, s2: Set<int>)
    requires
        grown_over(m0, m1, s),
        grown_over(m1, m2, s2),
        s2.subset_of(s),
    ensures
        grown_over(m0, m2, s),
{
    reveal(grown_over);
    assert forall|p: int, i: int|
        0 <= p < m2.used && 0 <= i < 512 && #[trigger] m2.pages[p][i] != old_entry(m0, p, i) implies {
            &&& old_entry(m0, p, i) == 0
            &&& exists|a: int|
                s.contains(a) && slot_start(m2, p, i) <= a < slot_start(m2, p, i) + level_bytes(
                    m2.levels[p],
                )
            &&& (m2.levels[p] < 3 && is_valid(m2.pages[p][i]) && is_table_or_page(m2.pages[p][i])
                ==> (table_index_of(m2.base, m2.used, next_table_pa(m2.pages[p][i]) as int) matches Some(
                c,
            ) && c >= m0.used))
        } by {
        if p < m1.used && m1.pages[p][i] != old_entry(m0, p, i) {
            assert(m2.pages[p][i] == m1.pages[p][i]);
            let a = choose|a: int|
                s.contains(a) && slot_start(m1, p, i) <= a < slot_start(m1, p, i) + level_bytes(
                    m1.levels[p],
                );
            assert(s.contains(a) && slot_start(m2, p, i) <= a < slot_start(m2, p, i) + level_bytes(
                m2.levels[p],
            ));
        } else {
            assert(old_entry(m1, p, i) == old_entry(m0, p, i));
            let a = choose|a: int|
                s2.contains(a) && slot_start(m2, p, i) <= a < slot_start(m2, p, i) + level_bytes(
                    m2.levels[p],
                );
            assert(s.contains(a));
        }
    }
}

/// Taking a fresh page keeps the growth.
proof fn lemma_grown_over_alloc(m0: TableModel, m: TableModel, m2: TableModel, level: int, base_va: int, s: Set<int>)
    requires
        model_wf(m),
        grown_over(m0, m, s),
        allocated(m, m2, level, base_va),
    ensures
        grown_over(m0, m2, s),
{
    reveal(grown_over);
    assert forall|p: int, i: int|
        0 <= p < m2.used && 0 <= i < 512 && #[trigger] m2.pages[p][i] != old_entry(m0, p, i) implies {
            &&& old_entry(m0, p, i) == 0
            &&& exists|a: int|
                s.contains(a) && slot_start(m2, p, i) <= a < slot_start(m2, p, i) + level_bytes(
                    m2.levels[p],
                )
            &&& (m2.levels[p] < 3 && is_valid(m2.pages[p][i]) && is_table_or_page(m2.pages[p][i])
                ==> (table_index_of(m2.base, m2.used, next_table_pa(m2.pages[p][i]) as int) matches Some(
                c,
            ) && c >= m0.used))
        } by {
        if p == m.used {
            assert(m2.pages[p][i] == 0u64);
        } else {
            assert(m2.pages[p] == m.pages[p]);
            assert(m2.levels[p] == m.levels[p] && m2.bases[p] == m.bases[p]);
            let a = choose|a: int|
                s.contains(a) && slot_start(m, p, i) <= a < slot_start(m, p, i) + level_bytes(
                    m.levels[p],
                );
            assert(slot_start(m2, p, i) == slot_start(m, p, i));
        }
    }
    assert forall|p: int| 0 <= p < m0.used implies #[trigger] m2.levels[p] == m0.levels[p] && m2.bases[p]
        == m0.bases[p] by {
        assert(m.levels[p] == m0.levels[p]);
    }
}

/// Filling an empty entry that covers address `a` of `s` keeps the growth,
/// where a link it writes names a table that `m0` did not use.
proof fn lemma_grown_over_write(
    m0: TableModel,
    m: TableModel,
    m2: TableModel,
    p: int,
    i: int,
    d: u64,
    s: Set<int>,
    a: int,
)
    requires
        m.pages[p].len() == 512,
        m.used <= m.pages.len(),
        grown_over(m0, m, s),
        written(m, m2, p, i, d),
        0 <= p < m.used,
        0 <= i < 512,
        m.pages[p][i] == 0,
        s.contains(a),
        slot_start(m, p, i) <= a < slot_start(m, p, i) + level_bytes(m.levels[p]),
        m.levels[p] < 3 && is_valid(d) && is_table_or_page(d) ==> (table_index_of(
            m.base,
            m.used,
            next_table_pa(d) as int,
        ) matches Some(c) && c >= m0.used),
    ensures
        grown_over(m0, m2, s),
{
    reveal(grown_over);
    assert(old_entry(m0, p, i) == 0) by {
        if m.pages[p][i] != old_entry(m0, p, i) {
        }
    }
    assert forall|q: int, j: int|
        0 <= q < m2.used && 0 <= j < 512 && #[trigger] m2.pages[q][j] != old_entry(m0, q, j) implies {
            &&& old_entry(m0, q, j) == 0
            &&& exists|b: int|
                s.contains(b) && slot_start(m2, q, j) <= b < slot_start(m2, q, j) + level_bytes(
                    m2.levels[q],
                )
            &&& (m2.levels[q] < 3 && is_valid(m2.pages[q][j]) && is_table_or_page(m2.pages[q][j])
                ==> (table_index_of(m2.base, m2.used, next_table_pa(m2.pages[q][j]) as int) matches Some(
                c,
            ) && c >= m0.used))
        } by {
        if q == p && j == i {
            assert(m2.pages[q][j] == d);
        } else {
            assert(m2.pages[q][j] == m.pages[q][j]);
        }
    }
}

/// A walk that reaches a page of `m0` in the grown `m` reached it in `m0`.
proof fn lemma_reach_old(m0: TableModel, m: TableModel, s: Set<int>, v: u64, k: int)
    requires
        model_wf(m0),
        model_wf(m),
        grown_over(m0, m, s),
        v < 0x80_0000_0000u64,
        1 <= k <= 3,
        reach(m, v, k) matches Some(t) && t < m0.used,
    ensures
        reach(m0, v, k) == reach(m, v, k),
    decreases k,
{
    reveal(grown_over);
    if k > 1 {
        let t = reach(m, v, k).unwrap();
        let q = reach(m, v, k - 1).unwrap();
        lemma_reach(m, v, k - 1);
        let j = entry_index(k - 1, v as int);
        let d = m.pages[q][j];
        lemma_low_bits(d);
        assert(0 <= j < 512) by {
            assert(entry_index(k - 1, v as int) == (v as int / level_bytes(k - 1)) % 512);
        }
        if d != old_entry(m0, q, j) {
            assert(table_index_of(m.base, m.used, next_table_pa(d) as int) == Some(t));
            assert(false);
        }
        assert(q < m0.used);
        lemma_reach_old(m0, m, s, v, k - 1);
        assert(m0.pages[q][j] == d);
    }
}

/// A walk that reaches a page in `m0` reaches it in the grown `m`.
pub proof fn lemma_reach_kept(m0: TableModel, m: TableModel, s: Set<int>, v: u64, k: int)
    requires
        model_wf(m0),
        grown_over(m0, m, s),
        v < 0x80_0000_0000u64,
        1 <= k <= 3,
        reach(m0, v, k) is Some,
    ensures
        reach(m, v, k) == reach(m0, v, k),
    decreases k,
{
    reveal(grown_over);
    if k > 1 {
        lemma_reach_kept(m0, m, s, v, k - 1);
        lemma_reach(m0, v, k - 1);
        lemma_reach(m0, v, k);
        let q = reach(m0, v, k - 1).unwrap();
        let j = entry_index(k - 1, v as int);
        let d = m0.pages[q][j];
        lemma_low_bits(d);
        assert(0 <= j < 512) by {
            assert(entry_index(k - 1, v as int) == (v as int / level_bytes(k - 1)) % 512);
        }
        assert(old_entry(m0, q, j) == d);
        assert(m.pages[q][j] == d);
    }
}

/// A walk that stops above level `k` reaches no page at any level from `k`.
proof fn lemma_reach_none_up(m: TableModel, v: u64, k: int, k2: int)
    requires
        1 <= k <= k2,
        reach(m, v, k) is None,
    ensures
        reach(m, v, k2) is None,
    decreases k2 - k,
{
    if k < k2 {
        lemma_reach_none_up(m, v, k, k2 - 1);
    }
}

/// A table link found in the way of a leaf for `va` in the grown `m`, whose
/// entry covers no address of `s`, was already there in `m0`.
pub proof fn lemma_way_was_there(m0: TableModel, m: TableModel, s: Set<int>, va: u64, level: int)
    requires
        model_wf(m0),
        model_wf(m),
        grown_over(m0, m, s),
        1 <= level <= 2,
        va < 0x80_0000_0000u64,
        va % (level_bytes(level) as u64) == 0,
        forall|a: int| s.contains(a) ==> !(va <= a < va + level_bytes(level)),
        table_in_way(m, va, level),
    ensures
        table_in_way(m0, va, level),
{
    reveal(grown_over);
    let t = reach(m, va, level).unwrap();
    lemma_reach(m, va, level);
    let j = entry_index(level, va as int);
    let d = m.pages[t][j];
    lemma_low_bits(d);
    lemma_block(m.bases[t], level_bytes(level), va as int);
    assert(m.levels[t] == level);
    let b = level_bytes(level);
    let st = slot_start(m, t, j);
    let x = va as int;
    assert(st <= x < st + b && st % b == 0 && x % b == 0);
    assert(st == x) by (nonlinear_arith)
        requires
            st <= x < st + b,
            st % b == 0,
            x % b == 0,
            b > 0,
    {
        assert(st == b * (st / b));
        assert(x == b * (x / b));
    }
    assert(0 <= j < 512) by {
        assert(entry_index(level, va as int) == (va as int / level_bytes(level)) % 512);
    }
    assert(d == old_entry(m0, t, j));
    assert(t < m0.used);
    lemma_reach_old(m0, m, s, va, level);
}

/// Whether a table lies in the way of a leaf at `level` is the same for
/// every address of the block of that level.
pub proof fn lemma_way_in_block(m: TableModel, v: u64, level: int)
    requires
        1 <= level <= 2,
    ensures
        table_in_way(m, v, level) == table_in_way(m, (v - v % (level_bytes(level) as u64)) as u64, level),
{
    let b = (v - v % (level_bytes(level) as u64)) as u64;
    let x = v as int;
    let y = b as int;
    if level == 2 {
        lemma_shared_block(y, x, 0x20_0000, 0x4000_0000);
        assert(x / 0x4000_0000 == y / 0x4000_0000) by (nonlinear_arith)
            requires
                x - x % 0x4000_0000 == y - y % 0x4000_0000,
                x >= 0,
                y >= 0,
        {
        }
        assert(x / 0x20_0000 == y / 0x20_0000) by (nonlinear_arith)
            requires
                y == x - x % 0x20_0000,
                x >= 0,
        {
        }
        lemma_reach_same_prefix(m, v, b, 2);
    } else {
        assert(x / 0x4000_0000 == y / 0x4000_0000) by (nonlinear_arith)
            requires
                y == x - x % 0x4000_0000,
                x >= 0,
        {
        }
    }
}

/// What a failed leaf at `va` says of the tables the whole map started
/// from: running out of pages means `m0` lacked a table the leaf needs, and
/// a conflict means `m0` already translated `va` or held a table where the
/// leaf must go.
proof fn lemma_chunk_failed(
    m0: TableModel,
    before: TableModel,
    after: TableModel,
    mapping: Mapping,
    va: u64,
    level: int,
    e: TranslationError,
)
    requires
        model_wf(m0),
        model_wf(before),
        grown_within(m0, before, mapping.va as int, va as int),
        grown_within(before, after, va as int, va + 1),
        mapping.va <= va,
        va + 1 <= mapping.va + mapping.size,
        va < 0x80_0000_0000u64,
        1 <= level <= 3,
        va % (level_bytes(level) as u64) == 0,
        walk_model(before, va) == walk_model(m0, va),
        e == TranslationError::TableExhausted ==> reach(before, va, level) is None && !translates(
            before,
            va,
        ),
        e == TranslationError::ConflictingEntry ==> after == before && (translates(before, va)
            || table_in_way(before, va, level)),
        level == chunk_level(mapping.va as int, mapping.pa as int, mapping.size as int, va as int),
    ensures
        grown_within(m0, after, mapping.va as int, mapping.va + mapping.size),
        e == TranslationError::TableExhausted ==> exists|v: u64|
            mapping.va <= v < mapping.va + mapping.size && reach(
                m0,
                v,
                chunk_level(mapping.va as int, mapping.pa as int, mapping.size as int, v as int),
            ) is None && !translates(m0, v),
        e == TranslationError::ConflictingEntry ==> exists|v: u64| #![trigger translates(m0, v)]
            mapping.va <= v < mapping.va + mapping.size && (translates(m0, v) || table_in_way(
                m0,
                v,
                chunk_level(mapping.va as int, mapping.pa as int, mapping.size as int, v as int),
            )),
        e == TranslationError::ConflictingEntry ==> !(forall|v: u64| #![trigger translates(m0, v)]
            mapping.va <= v < mapping.va + mapping.size ==> !translates(m0, v) && !table_in_way(
                m0,
                v,
                chunk_level(mapping.va as int, mapping.pa as int, mapping.size as int, v as int),
            )),
{
    lemma_grown_over_widen(
        m0,
        before,
        Set::new(|a: int| mapping.va <= a < va),
        Set::new(|a: int| mapping.va <= a < mapping.va + mapping.size),
    );
    lemma_grown_over_trans(
        m0,
        before,
        after,
        Set::new(|a: int| mapping.va <= a < mapping.va + mapping.size),
        Set::new(|a: int| va <= a < va + 1),
    );
    if e == TranslationError::TableExhausted && reach(m0, va, level) is Some {
        lemma_reach_kept(m0, before, Set::new(|a: int| mapping.va <= a < va), va, level);
    }
    if e == TranslationError::TableExhausted {
        assert(mapping.va <= va < mapping.va + mapping.size);
        assert(reach(m0, va, chunk_level(mapping.va as int, mapping.pa as int, mapping.size as int, va as int))
            is None && !translates(m0, va));
    }
    if e == TranslationError::ConflictingEntry {
        if !translates(before, va) {
            lemma_way_was_there(m0, before, Set::new(|a: int| mapping.va <= a < va), va, level);
        } else {
            assert(translates(m0, va));
        }
        assert(translates(m0, va) || table_in_way(
            m0,
            va,
            chunk_level(mapping.va as int, mapping.pa as int, mapping.size as int, va as int),
        ));
        assert(mapping.va <= va < mapping.va + mapping.size);
        assert(translates(m0, va) ==> exists|v: u64| #![trigger translates(m0, v)]
            v == va && translates(m0, v));
        assert(exists|v: u64| #![trigger translates(m0, v)]
            mapping.va <= v < mapping.va + mapping.size && (translates(m0, v) || table_in_way(
                m0,
                v,
                chunk_level(mapping.va as int, mapping.pa as int, mapping.size as int, v as int),
            )));
    }
    if e == TranslationError::TableExhausted {
        assert(reach(m0, va, chunk_level(mapping.va as int, mapping.pa as int, mapping.size as int, va as int))
            is None);
    }
}

impl<'a, const N: usize> TableSet<'a, N> {
    /// Installs one leaf at `level` mapping the block at `va` to `pa`,
    /// creating the tables on the way down that are missing.
    fn map_leaf(&mut self, level: u8, va: u64, pa: u64, mapping: Mapping) -> (r: Result<
        (),
        TranslationError,
    >)
        requires
            old(self).wf(),
            1 <= level <= 3,
            va % (level_bytes(level as int) as u64) == 0,
            pa % (level_bytes(level as int) as u64) == 0,
            va + level_bytes(level as int) <= 0x80_0000_0000u64,
            pa + level_bytes(level as int) <= (1u64 << old(self).pa_bits),
        ensures
            final(self).wf(),
            final(self).base_pa == old(self).base_pa,
            final(self).pa_bits == old(self).pa_bits,
            r is Err ==> r == Err::<(), TranslationError>(TranslationError::TableExhausted) || r
                == Err::<(), TranslationError>(TranslationError::ConflictingEntry),
            r == Err::<(), TranslationError>(TranslationError::TableExhausted) ==> storage_full(
                final(self).model(),
            ),
            final(self).model().used <= old(self).model().used + 2,
            r == Err::<(), TranslationError>(TranslationError::TableExhausted) ==> N <= old(
                self,
            ).model().used + 1,
            r == Err::<(), TranslationError>(TranslationError::TableExhausted) ==> reach(
                old(self).model(),
                va,
                level as int,
            ) is None && !translates(old(self).model(), va),
            r == Err::<(), TranslationError>(TranslationError::ConflictingEntry) ==> final(self).model()
                == old(self).model() && (translates(old(self).model(), va) || table_in_way(
                old(self).model(),
                va,
                level as int,
            )),
            grown_within(old(self).model(), final(self).model(), va as int, va + 1),
            r is Ok ==> forall|v: u64|
                va <= v < va + level_bytes(level as int) ==> #[trigger] walk_model(
                    old(self).model(),
                    v,
                ) == Ok::<Option<Translation>, TranslationError>(None) || walk_model(
                    old(self).model(),
                    v,
                ) == walk_model(final(self).model(), v),
            forall|v: u64|
                !(r is Ok && va <= v < va + level_bytes(level as int)) ==> #[trigger] walk_model(
                    final(self).model(),
                    v,
                ) == walk_model(old(self).model(), v),
            r is Ok ==> forall|v: u64|
                va <= v < va + level_bytes(level as int) ==> #[trigger] walk_model(
                    final(self).model(),
                    v,
                ) == Ok::<Option<Translation>, TranslationError>(
                    Some(
                        Translation {
                            pa: (pa + (v - va)) as u64,
                            memory_type: mapping.memory_type,
                            writable: mapping.writable,
                            executable: mapping.executable,
                            level,
                        },
                    ),
                ),
    {
        let ghost m0 = self.model();
        proof {
            let bits = old(self).pa_bits;
            assert(bits <= 48 ==> (1u64 << bits) <= 0x1_0000_0000_0000u64) by (bit_vector);
        }
        let mut table: usize = 0;
        let mut current_level: u8 = 1;
        let ghost mut fresh = false;
        proof {
            lemma_grown_over_refl(m0, Set::new(|a: int| va <= a < va + 1));
        }
        while current_level < level
            invariant
                self.wf(),
                m0 == old(self).model(),
                model_wf(m0),
                grown_within(m0, self.model(), va as int, va + 1),
                !fresh ==> self.model() == m0,
                fresh ==> table >= m0.used && reach(m0, va, current_level as int) is None && forall|
                    i: int,
                | 0 <= i < 512 ==> #[trigger] self.model().pages[table as int][i] == 0u64,
                (1u64 << self.pa_bits) <= 0x1_0000_0000_0000u64,
                self.base_pa == old(self).base_pa,
                self.pa_bits == old(self).pa_bits,
                1 <= current_level <= level <= 3,
                va < 0x80_0000_0000u64,
                table < self.used,
                self.used <= old(self).used + (current_level - 1),
                reach(self.model(), va, current_level as int) == Some(table as int),
                forall|v: u64| #[trigger] walk_model(self.model(), v) == walk_model(m0, v),
            decreases level - current_level,
        {
            let ghost m = self.model();
            proof {
                lemma_reach(m, va, current_level as int);
            }
            let index = index_for(current_level, va);
            let descriptor = self.storage.pages[table].entries[index];
            assert(descriptor == m.pages[table as int][index as int]);
            if descriptor == 0 {
                let ghost cl = current_level as int;
                let ghost child_base = m.bases[table as int] + index * level_bytes(cl);
                proof {
                    lemma_low_bits(descriptor);
                    if !fresh {
                        assert(reach(m0, va, cl + 1) is None);
                    } else {
                        lemma_reach_none_up(m0, va, cl, cl + 1);
                    }
                    lemma_reach_none_up(m0, va, cl + 1, level as int);
                    lemma_reach(m, va, current_level as int);
                    assert(walk_from(m.pages, m.used, m.base, table as int, cl, va) == Ok::<
                        Option<Translation>,
                        TranslationError,
                    >(None));
                    assert(walk_model(m, va) == walk_model(m0, va));
                    assert(!translates(m0, va));
                }
                let child = self.allocate_page(Ghost(cl + 1), Ghost(child_base))?;
                let ghost m1 = self.model();
                let child_pa = self.table_pa(child);
                let link = child_pa | VALID | TABLE_OR_PAGE;
                self.storage.pages[table].entries[index] = link;
                let ghost m2 = self.model();
                proof {
                    assert(m2.pages =~= m1.pages.update(
                        table as int,
                        m1.pages[table as int].update(index as int, link),
                    ));
                    lemma_link_bits(child_pa);
                    lemma_link_step(m, m1, m2, table as int, index as int, cl, child_base, link, va);
                    lemma_grown_over_alloc(m0, m, m1, cl + 1, child_base, Set::new(|a: int| va <= a < va + 1));
                    lemma_block(m.bases[table as int], level_bytes(cl), va as int);
                    assert(0 <= index < 512);
                    assert(m1.pages[table as int][index as int] == 0u64);
                    assert(table_index_of(m1.base, m1.used, next_table_pa(link) as int) == Some(m.used));
                    lemma_grown_over_write(
                        m0,
                        m1,
                        m2,
                        table as int,
                        index as int,
                        link,
                        Set::new(|a: int| va <= a < va + 1),
                        va as int,
                    );
                    assert forall|i: int| 0 <= i < 512 implies #[trigger] m2.pages[child as int][i] == 0u64 by {
                        assert(m1.pages[child as int] == Seq::new(512, |j: int| 0u64));
                    }
                }
                table = child;
                proof {
                    fresh = true;
                }
            } else if descriptor & (VALID | TABLE_OR_PAGE) == (VALID | TABLE_OR_PAGE) {
                proof {
                    assert(VALID | TABLE_OR_PAGE == 3) by {
                        crate::page::lemma_bit_constants();
                    }
                    assert(descriptor & 3 == 3 ==> descriptor & 1 != 0 && descriptor & 2 != 0)
                        by (bit_vector);
                    assert(entry_ok(m, table as int, index as int));
                    if fresh {
                        assert(m.pages[table as int][index as int] == 0u64);
                    }
                }
                table = self.table_index(descriptor & ADDRESS_MASK)?;
            } else {
                proof {
                    assert(VALID | TABLE_OR_PAGE == 3) by {
                        crate::page::lemma_bit_constants();
                    }
                    lemma_low_bits(descriptor);
                    lemma_reach(m, va, current_level as int);
                    assert(entry_ok(m, table as int, index as int));
                    assert(walk_model(m, va) == walk_model(m0, va));
                    assert(walk_from(m.pages, m.used, m.base, table as int, current_level as int, va)
                        == leaf_translation(descriptor, current_level as int, va));
                    if fresh {
                        assert(m.pages[table as int][index as int] == 0u64);
                    }
                }
                return Err(TranslationError::ConflictingEntry);
            }
            current_level = current_level + 1;
        }
        let ghost m = self.model();
        let index = index_for(level, va);
        let descriptor = leaf_descriptor(level, pa, mapping);
        let entry = self.storage.pages[table].entries[index];
        assert(entry == m.pages[table as int][index as int]);
        proof {
            lemma_reach(m, va, level as int);
            lemma_low_bits(entry);
            assert(entry_ok(m, table as int, index as int));
        }
        if entry != 0 && entry != descriptor {
            proof {
                if fresh {
                    assert(m.pages[table as int][index as int] == 0u64);
                }
                assert(m == m0);
                assert(walk_model(m, va) == walk_model(m0, va));
                assert(reach(m, va, level as int) == Some(table as int));
                if !(level < 3 && is_valid(entry) && is_table_or_page(entry)) {
                    assert(walk_from(m.pages, m.used, m.base, table as int, level as int, va)
                        == leaf_translation(entry, level as int, va));
                    assert(translates(m0, va));
                } else {
                    assert(table_in_way(m, va, level as int));
                }
            }
            return Err(TranslationError::ConflictingEntry);
        }
        self.storage.pages[table].entries[index] = descriptor;
        let ghost m3 = self.model();
        proof {
            assert(m3.pages =~= m.pages.update(
                table as int,
                m.pages[table as int].update(index as int, descriptor),
            ));
            lemma_leaf_step(m, m3, table as int, index as int, level as int, va, pa, mapping);
            lemma_leaf_bits(level as int, pa, mapping, va, va);
            if entry == 0 {
                lemma_block(m.bases[table as int], level_bytes(level as int), va as int);
                assert(0 <= index < 512);
                lemma_grown_over_write(
                    m0,
                    m,
                    m3,
                    table as int,
                    index as int,
                    descriptor,
                    Set::new(|a: int| va <= a < va + 1),
                    va as int,
                );
            } else {
                assert(m.pages[table as int].update(index as int, descriptor) =~= m.pages[table as int]);
                assert(m3.pages =~= m.pages);
                assert(m3 == m);
            }
            if entry == 0 {
                assert forall|v: u64| va <= v < va + level_bytes(level as int) implies #[trigger]
                    walk_model(m0, v) == Ok::<Option<Translation>, TranslationError>(None) by {
                    lemma_same_block(level as int, va, v);
                    lemma_reach_same(m, v, va, level as int);
                    lemma_reach(m, v, level as int);
                    assert(walk_model(m, v) == walk_model(m0, v));
                }
            } else {
                assert(m.pages[table as int].update(index as int, descriptor) =~= m.pages[table as int]);
                assert(m3.pages =~= m.pages);
                assert forall|v: u64| va <= v < va + level_bytes(level as int) implies #[trigger]
                    walk_model(m0, v) == walk_model(m3, v) by {
                    assert(walk_model(m, v) == walk_model(m0, v));
                }
            }
        }
        Ok(())
    }
}


/// Why a table set cannot be built over `n` pages at `base_pa` for a
/// `pa_bits`-bit physical address space, if it cannot.
pub open spec fn new_check(n: int, base_pa: u64, pa_bits: u8) -> Option<TranslationError> {
    if base_pa % 4096 != 0 {
        Some(TranslationError::InvalidTableBase)
    } else if !(32 <= pa_bits <= 48) {
        Some(TranslationError::InvalidPaBits)
    } else if n == 0 {
        Some(TranslationError::TableExhausted)
    } else if n * 4096 > u64::MAX || base_pa + n * 4096 > u64::MAX {
        Some(TranslationError::AddressOverflow)
    } else if base_pa + n * 4096 > (1u64 << pa_bits) {
        Some(TranslationError::PhysicalAddressOutOfRange)
    } else {
        None
    }
}

/// Why `mapping` cannot be installed in tables with `pa_bits`-bit output
/// addresses, if it cannot.
pub open spec fn mapping_check(mapping: Mapping, pa_bits: u8) -> Option<TranslationError> {
    if mapping.size == 0 {
        Some(TranslationError::EmptyMapping)
    } else if mapping.va % 4096 != 0 || mapping.pa % 4096 != 0 || mapping.size % 4096 != 0 {
        Some(TranslationError::UnalignedMapping)
    } else if mapping.va + mapping.size > u64::MAX || mapping.pa + mapping.size > u64::MAX {
        Some(TranslationError::AddressOverflow)
    } else if mapping.va + mapping.size > 0x80_0000_0000 {
        Some(TranslationError::VirtualAddressOutOfRange)
    } else if mapping.pa + mapping.size > (1u64 << pa_bits) {
        Some(TranslationError::PhysicalAddressOutOfRange)
    } else {
        None
    }
}

/// The level of the leaf that the builder uses at `va` and `pa` with
/// `remaining` bytes left: the largest block that both addresses are aligned
/// to and that fits.
pub open spec fn leaf_level(va: int, pa: int, remaining: int) -> int {
    if va % 0x4000_0000 == 0 && pa % 0x4000_0000 == 0 && remaining >= 0x4000_0000 {
        1
    } else if va % 0x20_0000 == 0 && pa % 0x20_0000 == 0 && remaining >= 0x20_0000 {
        2
    } else {
        3
    }
}

/// The level of the leaf that translates `v` when `remaining` bytes are
/// mapped from `va` to `pa`, one greedy leaf after another.
pub open spec fn chunk_level(va: int, pa: int, remaining: int, v: int) -> int
    decreases remaining,
{
    if remaining <= 0 {
        3
    } else {
        let level = leaf_level(va, pa, remaining);
        let size = level_bytes(level);
        if v < va + size || remaining <= size {
            level
        } else {
            chunk_level(va + size, pa + size, remaining - size, v)
        }
    }
}

/// The level of the largest aligned leaf at `v` that does not cross the
/// boundary of the mapping of `size` bytes from `va` to `pa`: a 1 GiB block
/// where the 1 GiB block holding `v` lies inside the mapping and both
/// addresses agree modulo 1 GiB, else a 2 MiB block on the same terms, else
/// a 4 KiB page.
pub open spec fn block_rule(va: int, pa: int, size: int, v: int) -> int {
    if fits_block(va, pa, va + size, v, 0x4000_0000) {
        1
    } else if fits_block(va, pa, va + size, v, 0x20_0000) {
        2
    } else {
        3
    }
}

/// The block of `bytes` holding `v` lies inside `[va, end)` and `va`, `pa`
/// agree modulo `bytes`.
pub open spec fn fits_block(va: int, pa: int, end: int, v: int, bytes: int) -> bool {
    &&& va <= v - v % bytes
    &&& v - v % bytes + bytes <= end
    &&& va % bytes == pa % bytes
}

/// Position `x` of the greedy walk over `[va, end)` lies strictly inside no
/// block of `bytes` that fits.
pub open spec fn no_straddle(va: int, pa: int, end: int, x: int, bytes: int) -> bool {
    x % bytes != 0 ==> !fits_block(va, pa, end, x, bytes)
}

/// Addresses `x` and `y` that differ by `pa - va` are both multiples of
/// `bytes` exactly when `x` is and `va`, `pa` agree modulo `bytes`.
proof fn lemma_congruent(va: int, pa: int, x: int, bytes: int)
    requires
        bytes > 0,
        x % bytes == 0,
    ensures
        ((pa + (x - va)) % bytes == 0) == (va % bytes == pa % bytes),
{
    vstd::arithmetic::div_mod::lemma_fundamental_div_mod(x, bytes);
    assert(x == bytes * (x / bytes));
    vstd::arithmetic::div_mod::lemma_mod_multiples_vanish(x / bytes, pa, bytes);
    assert((pa + x) % bytes == pa % bytes);
    vstd::arithmetic::div_mod::lemma_mod_equivalence(pa + x, va, bytes);
    assert(pa + (x - va) == (pa + x) - va);
}

/// Addresses `v` within `small` bytes past a multiple `x` of `small` lie in
/// the same block of `big` as `x`, for `big` a multiple of `small`.
#[verifier::spinoff_prover]
#[verifier::rlimit(40)]
proof fn lemma_shared_block(x: int, v: int, small: int, big: int)
    requires
        small == 4096 || small == 0x20_0000 || small == 0x4000_0000,
        big == 0x20_0000 || big == 0x4000_0000,
        small <= big,
        x % small == 0,
        x <= v < x + small,
    ensures
        v - v % big == x - x % big,
{
    if small == 4096 && big == 0x20_0000 {
        assert(v - v % 0x20_0000 == x - x % 0x20_0000) by (nonlinear_arith)
            requires
                x % 4096 == 0,
                x <= v < x + 4096,
        {
            assert(x - x % 0x20_0000 + 0x20_0000 >= x + 4096) by {
                assert((x % 0x20_0000) % 4096 == 0);
            }
        }
    } else if small == 4096 && big == 0x4000_0000 {
        assert(v - v % 0x4000_0000 == x - x % 0x4000_0000) by (nonlinear_arith)
            requires
                x % 4096 == 0,
                x <= v < x + 4096,
        {
            assert(x - x % 0x4000_0000 + 0x4000_0000 >= x + 4096) by {
                assert((x % 0x4000_0000) % 4096 == 0);
            }
        }
    } else if small == 0x20_0000 && big == 0x4000_0000 {
        assert(v - v % 0x4000_0000 == x - x % 0x4000_0000) by (nonlinear_arith)
            requires
                x % 0x20_0000 == 0,
                x <= v < x + 0x20_0000,
        {
            assert(x - x % 0x4000_0000 + 0x4000_0000 >= x + 0x20_0000) by {
                assert((x % 0x4000_0000) % 0x20_0000 == 0);
            }
        }
    }
}

/// The greedy leaf placed at `x` has the level that [`block_rule`] gives
/// for each address it covers.
#[verifier::spinoff_prover]
#[verifier::rlimit(40)]
proof fn lemma_leaf_is_block_rule(va: int, pa: int, end: int, x: int, v: int)
    requires
        va % 4096 == 0,
        pa % 4096 == 0,
        end % 4096 == 0,
        va <= x <= v < end,
        x % 4096 == 0,
        no_straddle(va, pa, end, x, 0x4000_0000),
        no_straddle(va, pa, end, x, 0x20_0000),
        v < x + level_bytes(leaf_level(x, pa + (x - va), end - x)),
    ensures
        leaf_level(x, pa + (x - va), end - x) == block_rule(va, pa, end - va, v),
{
    let y = pa + (x - va);
    let level = leaf_level(x, y, end - x);
    if x % 0x4000_0000 == 0 {
        lemma_congruent(va, pa, x, 0x4000_0000);
        assert(x % 0x20_0000 == 0);
    }
    if x % 0x20_0000 == 0 {
        lemma_congruent(va, pa, x, 0x20_0000);
    }
    if level == 1 {
        lemma_shared_block(x, v, 0x4000_0000, 0x4000_0000);
    } else if level == 2 {
        lemma_shared_block(x, v, 0x20_0000, 0x20_0000);
        lemma_shared_block(x, v, 0x20_0000, 0x4000_0000);
    } else {
        lemma_shared_block(x, v, 4096, 0x20_0000);
        lemma_shared_block(x, v, 4096, 0x4000_0000);
    }
}

/// One greedy step keeps the walk from landing strictly inside a block
/// that fits.
#[verifier::spinoff_prover]
#[verifier::rlimit(40)]
proof fn lemma_step_no_straddle(va: int, pa: int, end: int, x: int, big: int)
    requires
        va % 4096 == 0,
        pa % 4096 == 0,
        end % 4096 == 0,
        va <= x < end,
        x % 4096 == 0,
        big == 0x20_0000 || big == 0x4000_0000,
        no_straddle(va, pa, end, x, 0x4000_0000),
        no_straddle(va, pa, end, x, 0x20_0000),
        x + level_bytes(leaf_level(x, pa + (x - va), end - x)) < end,
    ensures
        no_straddle(va, pa, end, x + level_bytes(leaf_level(x, pa + (x - va), end - x)), big),
{
    let y = pa + (x - va);
    let level = leaf_level(x, y, end - x);
    let bytes = level_bytes(level);
    let x2 = x + bytes;
    if x2 % big != 0 {
        if x % 0x4000_0000 == 0 {
            lemma_congruent(va, pa, x, 0x4000_0000);
            assert(x % 0x20_0000 == 0);
        }
        if x % 0x20_0000 == 0 {
            lemma_congruent(va, pa, x, 0x20_0000);
        }
        if bytes <= big {
            assert(x % bytes == 0);
            if bytes == big {
                assert(x2 % big == 0) by (nonlinear_arith)
                    requires
                        x % big == 0,
                        x2 == x + big,
                        big > 0,
                ;
            }
            // The step stays in the block of `big` around `x`.
            assert(x2 - x2 % big == x - x % big) by {
                assert(x2 - 1 - (x2 - 1) % big == x - x % big) by {
                    lemma_shared_block(x, x2 - 1, bytes, big);
                }
                assert((x2 - 1) % big != big - 1 || x2 % big == 0);
            }
        } else {
            assert(bytes == 0x4000_0000 && big == 0x20_0000);
            assert(x2 % big == 0) by (nonlinear_arith)
                requires
                    x % 0x4000_0000 == 0,
                    x2 == x + 0x4000_0000,
                    big == 0x20_0000,
            ;
        }
    }
}

/// From a greedy position `x` on, the greedy walk picks, for every `v`,
/// the level that [`block_rule`] gives.
#[verifier::spinoff_prover]
#[verifier::rlimit(40)]
proof fn lemma_chunk_level_from(va: int, pa: int, size: int, x: int, v: int)
    requires
        va % 4096 == 0,
        pa % 4096 == 0,
        size % 4096 == 0,
        va <= x <= v < va + size,
        x % 4096 == 0,
        no_straddle(va, pa, va + size, x, 0x4000_0000),
        no_straddle(va, pa, va + size, x, 0x20_0000),
    ensures
        chunk_level(x, pa + (x - va), va + size - x, v) == block_rule(va, pa, size, v),
    decreases va + size - x,
{
    let end = va + size;
    let y = pa + (x - va);
    let level = leaf_level(x, y, end - x);
    let bytes = level_bytes(level);
    if v < x + bytes {
        lemma_leaf_is_block_rule(va, pa, end, x, v);
    } else {
        lemma_step_no_straddle(va, pa, end, x, 0x4000_0000);
        lemma_step_no_straddle(va, pa, end, x, 0x20_0000);
        assert(pa + (x + bytes - va) == y + bytes);
        lemma_chunk_level_from(va, pa, size, x + bytes, v);
    }
}

/// The leaf that translates each address of a mapping is the largest
/// aligned one that does not cross the mapping's boundary: a 1 GiB block
/// where the 1 GiB block around the address lies inside the mapping and the
/// virtual and physical starts agree modulo 1 GiB, else a 2 MiB block on
/// the same terms, else a 4 KiB page.
pub proof fn lemma_chunk_level_is_block_rule(va: int, pa: int, size: int, v: int)
    requires
        va % 4096 == 0,
        pa % 4096 == 0,
        size % 4096 == 0,
        0 <= va <= v < va + size,
    ensures
        chunk_level(va, pa, size, v) == block_rule(va, pa, size, v),
{
    assert(no_straddle(va, pa, va + size, va, 0x4000_0000));
    assert(no_straddle(va, pa, va + size, va, 0x20_0000));
    lemma_chunk_level_from(va, pa, size, va, v);
}

/// What `mapping` gives at `v`: the same offset into the physical range,
/// the mapping's attributes, and the level of the leaf the builder used.
pub open spec fn expected_translation(mapping: Mapping, v: u64) -> Translation {
    mapped_translation(
        mapping,
        v,
        chunk_level(mapping.va as int, mapping.pa as int, mapping.size as int, v as int),
    )
}

/// How mapping `mapping` changed the walks from `old` to `new`: addresses
/// outside it translate as before; inside it they translate as the mapping
/// says where it was installed whole (`ok`), and otherwise either so or as
/// before.
pub open spec fn mapped(old: TableModel, new: TableModel, mapping: Mapping, ok: bool) -> bool {
    &&& forall|v: u64|
        !(mapping.va <= v < mapping.va + mapping.size) ==> #[trigger] walk_model(new, v)
            == walk_model(old, v)
    &&& forall|v: u64|
        ok && mapping.va <= v < mapping.va + mapping.size ==> #[trigger] walk_model(new, v) == Ok::<
            Option<Translation>,
            TranslationError,
        >(Some(expected_translation(mapping, v)))
    &&& forall|v: u64|
        !ok && mapping.va <= v < mapping.va + mapping.size ==> #[trigger] walk_model(new, v)
            == walk_model(old, v) || walk_model(new, v) == Ok::<
            Option<Translation>,
            TranslationError,
        >(Some(expected_translation(mapping, v)))
}

/// After a mapping was installed whole, each of its addresses translates
/// through the largest aligned leaf that does not cross the mapping's
/// boundary: a 1 GiB block where the 1 GiB block around it lies inside the
/// mapping and the virtual and physical starts agree modulo 1 GiB, else a
/// 2 MiB block on the same terms, else a 4 KiB page.
pub proof fn lemma_installed_leaf_size(old: TableModel, new: TableModel, mapping: Mapping, v: u64)
    requires
        mapped(old, new, mapping, true),
        mapping.va % 4096 == 0,
        mapping.pa % 4096 == 0,
        mapping.size % 4096 == 0,
        mapping.va <= v < mapping.va + mapping.size,
    ensures
        walk_model(new, v) == Ok::<Option<Translation>, TranslationError>(
            Some(
                mapped_translation(
                    mapping,
                    v,
                    block_rule(mapping.va as int, mapping.pa as int, mapping.size as int, v as int),
                ),
            ),
        ),
{
    assert(walk_model(new, v) == Ok::<Option<Translation>, TranslationError>(
        Some(expected_translation(mapping, v)),
    ));
    lemma_chunk_level_is_block_rule(mapping.va as int, mapping.pa as int, mapping.size as int, v as int);
}

impl<'a, const N: usize> TableSet<'a, N> {
    /// Builds an empty table set in `storage`, whose pages lie at physical
    /// `base_pa`, for a `pa_bits`-bit physical address space; the root is
    /// its first page.
    pub fn new(storage: &'a mut TableStorage<N>, base_pa: u64, pa_bits: u8) -> (r: Result<
        Self,
        TranslationError,
    >)
        ensures
            new_check(N as int, base_pa, pa_bits) matches Some(e) ==> r == Err::<
                Self,
                TranslationError,
            >(e),
            new_check(N as int, base_pa, pa_bits) is None ==> (r matches Ok(set) && {
                &&& set.wf()
                &&& set.model().base == base_pa
                &&& set.pa_width() == pa_bits
                &&& set.model().used == 1
                &&& forall|i: int| 0 <= i < 512 ==> #[trigger] set.model().pages[0][i] == 0u64
                &&& forall|v: u64|
                    v < 0x80_0000_0000u64 ==> #[trigger] walk_model(set.model(), v) == Ok::<
                        Option<Translation>,
                        TranslationError,
                    >(None)
            }),
    {
        assert(base_pa & 0xfff == base_pa % 4096) by {
            crate::page::lemma_low_bits();
        }
        if base_pa & (PAGE_SIZE - 1) != 0 {
            return Err(TranslationError::InvalidTableBase);
        }
        if pa_bits < 32 || pa_bits > 48 {
            return Err(TranslationError::InvalidPaBits);
        }
        if N == 0 {
            return Err(TranslationError::TableExhausted);
        }
        let byte_len = match (N as u64).checked_mul(PAGE_SIZE) {
            Some(b) => b,
            None => return Err(TranslationError::AddressOverflow),
        };
        let end = match base_pa.checked_add(byte_len) {
            Some(e) => e,
            None => return Err(TranslationError::AddressOverflow),
        };
        if end > (1u64 << pa_bits) {
            return Err(TranslationError::PhysicalAddressOutOfRange);
        }
        let mut set = TableSet {
            storage,
            used: 0,
            base_pa,
            pa_bits,
            levels: Ghost(Seq::empty()),
            bases: Ghost(Seq::empty()),
        };
        // The level-1 root is the first page.
        set.allocate_page(Ghost(1), Ghost(0))?;
        proof {
            let m = set.model();
            assert(0u64 & 1 == 0) by {
                crate::page::lemma_bit_constants();
            }
            assert(m.levels =~= seq![1int]);
            assert(m.bases =~= seq![0int]);
            assert forall|p: int, i: int| 0 <= p < m.used && 0 <= i < 512 implies #[trigger] entry_ok(
                m,
                p,
                i,
            ) by {
                assert(m.pages[0][i] == 0);
            }
            assert forall|v: u64| v < 0x80_0000_0000u64 implies #[trigger] walk_model(m, v) == Ok::<
                Option<Translation>,
                TranslationError,
            >(None) by {
                assert(m.pages[0][entry_index(1, v as int)] == 0);
            }
        }
        Ok(set)
    }

    /// Checks that `mapping` is nonempty, page aligned, and inside both
    /// address spaces.
    fn validate_mapping(&self, mapping: Mapping) -> (r: Result<(), TranslationError>)
        requires
            self.wf(),
        ensures
            r == (match mapping_check(mapping, self.pa_bits) {
                Some(e) => Err(e),
                None => Ok(()),
            }),
    {
        if mapping.size == 0 {
            return Err(TranslationError::EmptyMapping);
        }
        let (va, pa, size) = (mapping.va, mapping.pa, mapping.size);
        assert((va | pa | size) & 0xfff == 0 <==> (va % 4096 == 0 && pa % 4096 == 0 && size % 4096
            == 0)) by (bit_vector);
        if (mapping.va | mapping.pa | mapping.size) & (PAGE_SIZE - 1) != 0 {
            return Err(TranslationError::UnalignedMapping);
        }
        let va_end = match mapping.va.checked_add(mapping.size) {
            Some(e) => e,
            None => return Err(TranslationError::AddressOverflow),
        };
        let pa_end = match mapping.pa.checked_add(mapping.size) {
            Some(e) => e,
            None => return Err(TranslationError::AddressOverflow),
        };
        assert(1u64 << 39u64 == 0x80_0000_0000u64) by {
            crate::page::lemma_bit_constants();
        }
        if va_end > (1u64 << 39u64) {
            return Err(TranslationError::VirtualAddressOutOfRange);
        }
        if pa_end > (1u64 << self.pa_bits) {
            return Err(TranslationError::PhysicalAddressOutOfRange);
        }
        Ok(())
    }

    /// Maps `mapping.size` bytes from `mapping.va` to `mapping.pa`, using at
    /// each step the largest leaf that both addresses are aligned to and
    /// that fits in what is left.
    ///
    /// Each leaf takes at most two new tables, so the storage runs out only
    /// where it lacks room for two tables per page of the mapping; a
    /// conflict is reported only for an address of the range that already
    /// translates, or whose leaf would replace a link to a table (a table
    /// that an earlier, failed call may have left empty).
    #[verifier::spinoff_prover]
    #[verifier::rlimit(100)]
    pub fn map(&mut self, mapping: Mapping) -> (r: Result<(), TranslationError>)
        requires
            old(self).wf(),
        ensures
            final(self).wf(),
            final(self).model().base == old(self).model().base,
            final(self).pa_width() == old(self).pa_width(),
            mapping_check(mapping, old(self).pa_width()) matches Some(e) ==> r == Err::<
                (),
                TranslationError,
            >(e) && final(self).model() == old(self).model(),
            mapping_check(mapping, old(self).pa_width()) is None && r is Err ==> r == Err::<
                (),
                TranslationError,
            >(TranslationError::TableExhausted) || r == Err::<(), TranslationError>(
                TranslationError::ConflictingEntry,
            ),
            mapped(old(self).model(), final(self).model(), mapping, r is Ok),
            r == Err::<(), TranslationError>(TranslationError::TableExhausted) ==> storage_full(
                final(self).model(),
            ),
            r == Err::<(), TranslationError>(TranslationError::TableExhausted) ==> old(
                self,
            ).model().used + 2 * (mapping.size / 4096) > old(self).model().pages.len(),
            final(self).model().used <= old(self).model().used + 2 * (mapping.size / 4096),
            mapping_check(mapping, old(self).pa_width()) is None && old(self).model().used + 2 * (
            mapping.size / 4096) <= old(self).model().pages.len() && (forall|v: u64|
                mapping.va <= v < mapping.va + mapping.size ==> !translates(old(self).model(), v)
                    && !table_in_way(
                    old(self).model(),
                    v,
                    chunk_level(mapping.va as int, mapping.pa as int, mapping.size as int, v as int),
                )) ==> r is Ok,
            r == Err::<(), TranslationError>(TranslationError::ConflictingEntry) ==> exists|v: u64| #![trigger translates(old(self).model(), v)]
                mapping.va <= v < mapping.va + mapping.size && (translates(old(self).model(), v)
                    || table_in_way(
                    old(self).model(),
                    v,
                    chunk_level(mapping.va as int, mapping.pa as int, mapping.size as int, v as int),
                )),
            r == Err::<(), TranslationError>(TranslationError::TableExhausted) ==> exists|v: u64|
                mapping.va <= v < mapping.va + mapping.size && reach(
                    old(self).model(),
                    v,
                    chunk_level(mapping.va as int, mapping.pa as int, mapping.size as int, v as int),
                ) is None && !translates(old(self).model(), v),
            grown_within(
                old(self).model(),
                final(self).model(),
                mapping.va as int,
                mapping.va + mapping.size,
            ),
            r is Ok ==> forall|v: u64|
                mapping.va <= v < mapping.va + mapping.size ==> #[trigger] walk_model(
                    old(self).model(),
                    v,
                ) == Ok::<Option<Translation>, TranslationError>(None) || walk_model(
                    old(self).model(),
                    v,
                ) == Ok::<Option<Translation>, TranslationError>(
                    Some(expected_translation(mapping, v)),
                ),
    {
        proof {
            lemma_grown_over_refl(self.model(), Set::new(|a: int| mapping.va <= a < mapping.va + mapping.size));
        }
        self.validate_mapping(mapping)?;
        let ghost m0 = self.model();
        proof {
            lemma_grown_over_refl(m0, Set::new(|a: int| mapping.va <= a < mapping.va));
        }
        let ghost cl = |v: u64|
            chunk_level(mapping.va as int, mapping.pa as int, mapping.size as int, v as int);
        let mut va = mapping.va;
        let mut pa = mapping.pa;
        let mut remaining = mapping.size;
        while remaining != 0
            invariant
                self.wf(),
                m0 == old(self).model(),
                self.base_pa == old(self).base_pa,
                self.pa_bits == old(self).pa_bits,
                mapping_check(mapping, self.pa_bits) is None,
                cl == (|v: u64|
                    chunk_level(mapping.va as int, mapping.pa as int, mapping.size as int, v as int)),
                mapping.va <= va,
                va - mapping.va == pa - mapping.pa,
                va + remaining == mapping.va + mapping.size,
                pa + remaining == mapping.pa + mapping.size,
                va % 4096 == 0,
                pa % 4096 == 0,
                remaining % 4096 == 0,
                self.model().used <= m0.used + 2 * ((va - mapping.va) / 4096),
                model_wf(m0),
                grown_within(m0, self.model(), mapping.va as int, va as int),
                forall|v: u64|
                    !(mapping.va <= v < va) ==> #[trigger] walk_model(self.model(), v) == walk_model(
                        m0,
                        v,
                    ),
                forall|v: u64|
                    mapping.va <= v < va ==> #[trigger] walk_model(self.model(), v) == Ok::<
                        Option<Translation>,
                        TranslationError,
                    >(Some(expected_translation(mapping, v))),
                forall|v: u64|
                    mapping.va <= v < va ==> #[trigger] walk_model(m0, v) == Ok::<
                        Option<Translation>,
                        TranslationError,
                    >(None) || walk_model(m0, v) == Ok::<Option<Translation>, TranslationError>(
                        Some(expected_translation(mapping, v)),
                    ),
                forall|v: u64|
                    va <= v < va + remaining ==> #[trigger] cl(v) == chunk_level(
                        va as int,
                        pa as int,
                        remaining as int,
                        v as int,
                    ),
            decreases remaining,
        {
            let (level, chunk): (u8, u64) = if aligned_for(va, pa, L1_SIZE) && remaining >= L1_SIZE {
                (1, L1_SIZE)
            } else if aligned_for(va, pa, L2_SIZE) && remaining >= L2_SIZE {
                (2, L2_SIZE)
            } else {
                (3, PAGE_SIZE)
            };
            assert(level == leaf_level(va as int, pa as int, remaining as int));
            assert(chunk == level_bytes(level as int));
            let ghost before = self.model();
            assert(model_wf(before));
            match self.map_leaf(level, va, pa, mapping) {
                Ok(()) => {},
                Err(e) => {
                    proof {
                        assert((va - mapping.va) + 4096 <= mapping.size);
                        assert(((va - mapping.va) / 4096) + 1 <= mapping.size / 4096);
                        assert(cl(va) == chunk_level(va as int, pa as int, remaining as int, va as int));
                        assert(chunk_level(va as int, pa as int, remaining as int, va as int) == level);
                        lemma_chunk_failed(m0, before, self.model(), mapping, va, level as int, e);
                        if e == TranslationError::ConflictingEntry {
                            assert(walk_model(before, va) == walk_model(m0, va));
                            assert(cl(va) == chunk_level(va as int, pa as int, remaining as int, va as int));
                            assert(mapping.va <= va < mapping.va + mapping.size);
                            assert(chunk_level(va as int, pa as int, remaining as int, va as int)
                                == level);
                            assert(cl(va) == chunk_level(
                                mapping.va as int,
                                mapping.pa as int,
                                mapping.size as int,
                                va as int,
                            ));
                            assert(translates(m0, va) || table_in_way(
                                self.model(),
                                va,
                                chunk_level(
                                    mapping.va as int,
                                    mapping.pa as int,
                                    mapping.size as int,
                                    va as int,
                                ),
                            ));
                        }
                    }
                    return Err(e);
                },
            }
            proof {
                assert forall|v: u64|
                    va + chunk <= v < va + remaining implies #[trigger] cl(v) == chunk_level(
                    (va + chunk) as int,
                    (pa + chunk) as int,
                    (remaining - chunk) as int,
                    v as int,
                ) by {
                    assert(cl(v) == chunk_level(va as int, pa as int, remaining as int, v as int));
                }
                assert forall|v: u64| va <= v < va + chunk implies #[trigger] walk_model(
                    self.model(),
                    v,
                ) == Ok::<Option<Translation>, TranslationError>(
                    Some(expected_translation(mapping, v)),
                ) by {
                    assert(cl(v) == chunk_level(va as int, pa as int, remaining as int, v as int));
                }
                assert forall|v: u64| va <= v < va + chunk implies #[trigger] walk_model(m0, v)
                    == Ok::<Option<Translation>, TranslationError>(None) || walk_model(m0, v)
                    == Ok::<Option<Translation>, TranslationError>(
                    Some(expected_translation(mapping, v)),
                ) by {
                    assert(walk_model(before, v) == walk_model(m0, v));
                    assert(cl(v) == chunk_level(va as int, pa as int, remaining as int, v as int));
                }
            }
            proof {
                assert(chunk % 4096 == 0 && chunk >= 4096);
                assert((va + chunk - mapping.va) / 4096 >= (va - mapping.va) / 4096 + 1);
                lemma_grown_over_widen(
                    m0,
                    before,
                    Set::new(|a: int| mapping.va <= a < va),
                    Set::new(|a: int| mapping.va <= a < va + chunk),
                );
                lemma_grown_over_trans(
                    m0,
                    before,
                    self.model(),
                    Set::new(|a: int| mapping.va <= a < va + chunk),
                    Set::new(|a: int| va <= a < va + 1),
                );
            }
            va = va + chunk;
            pa = pa + chunk;
            remaining = remaining - chunk;
        }
        Ok(())
    }
}

impl TranslationError {
    /// The name of the variant.
    pub open spec fn debug_text(self) -> Seq<char> {
        match self {
            TranslationError::InvalidTableBase => "InvalidTableBase"@,
            TranslationError::InvalidPaBits => "InvalidPaBits"@,
            TranslationError::EmptyMapping => "EmptyMapping"@,
            TranslationError::UnalignedMapping => "UnalignedMapping"@,
            TranslationError::AddressOverflow => "AddressOverflow"@,
            TranslationError::VirtualAddressOutOfRange => "VirtualAddressOutOfRange"@,
            TranslationError::PhysicalAddressOutOfRange => "PhysicalAddressOutOfRange"@,
            TranslationError::TableExhausted => "TableExhausted"@,
            TranslationError::ConflictingEntry => "ConflictingEntry"@,
            TranslationError::CorruptTable => "CorruptTable"@,
            TranslationError::InvalidateParameter => "InvalidateParameter"@,
            TranslationError::Unexpected => "Unexpected"@,
        }
    }

    pub(crate) fn debug_name(&self) -> (r: &'static str)
        ensures
            r@ == self.debug_text(),
    {
        match self {
            TranslationError::InvalidTableBase => "InvalidTableBase",
            TranslationError::InvalidPaBits => "InvalidPaBits",
            TranslationError::EmptyMapping => "EmptyMapping",
            TranslationError::UnalignedMapping => "UnalignedMapping",
            TranslationError::AddressOverflow => "AddressOverflow",
            TranslationError::VirtualAddressOutOfRange => "VirtualAddressOutOfRange",
            TranslationError::PhysicalAddressOutOfRange => "PhysicalAddressOutOfRange",
            TranslationError::TableExhausted => "TableExhausted",
            TranslationError::ConflictingEntry => "ConflictingEntry",
            TranslationError::CorruptTable => "CorruptTable",
            TranslationError::InvalidateParameter => "InvalidateParameter",
            TranslationError::Unexpected => "Unexpected",
        }
    }

    /// The variant's name, as the error is shown.
    pub fn to_string(&self) -> (r: String)
        ensures
            r@ == self.debug_text(),
    {
        String::from_str(self.debug_name())
    }
}

} // verus!
