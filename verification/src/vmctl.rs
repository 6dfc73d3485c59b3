//! The memory of one virtual machine: the guest RAM and guard regions it was
//! given, the physical pages behind them, and its stage-2 translation tables.
use vstd::prelude::*;
use vstd::string::StringExecFns;
use crate::el2_translation::{TablePage, TranslationError, pa_bits_from_parange, pa_bits_of};
use crate::page_allocator::{
    AllocatorError, PageAllocator, PageState, PAGE_SIZE, align_up, contiguous_allocated, page_ceil,
    page_freed,
};
use crate::stage2_translation::{
    ADDRESS_MASK, TABLE_OR_PAGE, VALID, Stage2Access, Stage2Exec, Stage2MemoryType,
    encode_l3_page_descriptor, mem_attr_bits, s2ap_bits, sh_bits, xn_bits, pow2_u64,
};
use vstd::pervasive::VecAdditionalExecFns;
use crate::system_info::{PhysAddr, PhysRegion};
use crate::text::{append_decimal, append_hex, dec_text, hex_text};

verus! {

pub const MAX_GUEST_MEM_BYTES: usize = 1048576;

pub const MAX_GUEST_MEM_PAGES: usize = 256;

/// The highest intermediate physical address a guest may use (39 bits).
pub const MAX_IPA: u64 = 0x7f_ffff_ffff;

/// A guest intermediate physical address, kept apart from host physical
/// addresses.
#[derive(Debug, Clone, Copy, PartialEq, Eq, Structural, PartialOrd, Ord)]
pub struct IpaAddr(u64);

impl View for IpaAddr {
    type V = u64;

    closed spec fn view(&self) -> u64 {
        self.0
    }
}

impl IpaAddr {
    pub fn new(value: u64) -> (r: Self)
        ensures
            r@ == value,
    {
        IpaAddr(value)
    }

    pub closed spec fn spec_new(value: u64) -> IpaAddr {
        IpaAddr(value)
    }

    pub broadcast proof fn lemma_spec_new(value: u64)
        ensures
            #[trigger] IpaAddr::spec_new(value)@ == value,
    {
    }

    pub fn value(self) -> (r: u64)
        ensures
            r == self@,
    {
        self.0
    }

    fn checked_add(self, offset: u64) -> (r: Option<Self>)
        ensures
            r == (if self@ + offset <= u64::MAX {
                Some(IpaAddr::spec_new((self@ + offset) as u64))
            } else {
                None::<IpaAddr>
            }),
    {
        match self.0.checked_add(offset) {
            Some(value) => Some(IpaAddr(value)),
            None => None,
        }
    }

    /// `0x` and the sixteen hexadecimal digits of the address.
    pub fn to_string(&self) -> (r: String)
        ensures
            r@ == hex_text(self@),
    {
        let mut text = String::new();
        append_hex(&mut text, self.0);
        text
    }
}

/// A non-empty range of guest addresses that does not wrap.
#[derive(Debug, Clone, Copy, PartialEq, Eq, Structural)]
pub struct IpaRegion {
    start: IpaAddr,
    size: u64,
}

impl IpaRegion {
    #[verifier::type_invariant]
    spec fn inv(self) -> bool {
        self.size > 0 && self.start@ + self.size <= u64::MAX
    }

    pub closed spec fn start_spec(self) -> u64 {
        self.start@
    }

    pub closed spec fn size_spec(self) -> u64 {
        self.size
    }

    /// The region `[start, start + size)`, if it is non-empty and does not wrap.
    pub fn new(start: IpaAddr, size: u64) -> (r: Option<Self>)
        ensures
            r is Some <==> size != 0 && start@ + size <= u64::MAX,
            r matches Some(region) ==> region.start_spec() == start@ && region.size_spec() == size,
    {
        if size == 0 || start.checked_add(size).is_none() {
            return None;
        }
        Some(IpaRegion { start, size })
    }

    pub fn start(self) -> (r: IpaAddr)
        ensures
            r@ == self.start_spec(),
    {
        self.start
    }

    pub fn size(self) -> (r: u64)
        ensures
            r == self.size_spec(),
    {
        self.size
    }

    pub fn end(self) -> (r: IpaAddr)
        ensures
            r@ == self.start_spec() + self.size_spec(),
    {
        proof {
            use_type_invariant(&self);
        }
        IpaAddr(self.start.0 + self.size)
    }
}

/// What a region of VM memory is for.
#[derive(Debug, Clone, Copy, PartialEq, Eq, Structural, PartialOrd)]
pub enum VmMemUsage {
    Image,
    Scratch,
    Stack,
    Dtb,
    Guard,
    PageTable,
}

/// A guard region has guest addresses but no memory behind them.
pub open spec fn needs_memory(usage: VmMemUsage) -> bool {
    usage != VmMemUsage::Guard
}

/// The page tables have memory but no guest addresses.
pub open spec fn needs_ipa(usage: VmMemUsage) -> bool {
    usage != VmMemUsage::PageTable
}

impl VmMemUsage {
    pub fn need_physical_memory(&self) -> (r: bool)
        ensures
            r == needs_memory(*self),
    {
        match self {
            VmMemUsage::Image => true,
            VmMemUsage::Dtb => true,
            VmMemUsage::Stack => true,
            VmMemUsage::Guard => false,
            VmMemUsage::Scratch => true,
            VmMemUsage::PageTable => true,
        }
    }

    pub fn to_string(&self) -> (r: String)
        ensures
            r@ == (match self {
                VmMemUsage::Image => "Image"@,
                VmMemUsage::Dtb => "DTB"@,
                VmMemUsage::Stack => "Stack"@,
                VmMemUsage::Guard => "Guard"@,
                VmMemUsage::Scratch => "Scratch"@,
                VmMemUsage::PageTable => "PageTable"@,
            }),
    {
        let message = match self {
            VmMemUsage::Image => "Image",
            VmMemUsage::Dtb => "DTB",
            VmMemUsage::Stack => "Stack",
            VmMemUsage::Guard => "Guard",
            VmMemUsage::Scratch => "Scratch",
            VmMemUsage::PageTable => "PageTable",
        };
        String::from_str(message)
    }
}

/// Guest addresses with no memory behind them.
#[derive(Debug, Clone, Copy, PartialEq, Eq, Structural)]
pub struct IpaOnlyRegion {
    pub usage: VmMemUsage,
    pub base: IpaAddr,
    pub size: usize,
}

/// Guest addresses backed by contiguous physical memory.
#[derive(Debug, Clone, Copy, PartialEq, Eq, Structural)]
pub struct IpaPaRegion {
    pub usage: VmMemUsage,
    pub ipa: IpaAddr,
    pub pa: PhysAddr,
    pub size: usize,
}

/// One allocation of VM memory. The pages of a physical-only allocation
/// (the page tables) are kept by the [`VmCtl`] that owns it.
#[derive(Debug, Clone, Copy, PartialEq, Eq, Structural)]
pub enum VmMem {
    IpaOnly(IpaOnlyRegion),
    IpaPa(IpaPaRegion),
    PaOnly(VmMemUsage),
}

impl VmMem {
    pub open spec fn usage_spec(self) -> VmMemUsage {
        match self {
            VmMem::IpaOnly(r) => r.usage,
            VmMem::IpaPa(r) => r.usage,
            VmMem::PaOnly(u) => u,
        }
    }

    pub fn usage(&self) -> (r: VmMemUsage)
        ensures
            r == self.usage_spec(),
    {
        match self {
            VmMem::IpaPa(v) => v.usage,
            VmMem::PaOnly(u) => *u,
            VmMem::IpaOnly(v) => v.usage,
        }
    }

    /// The guest address range `[start, end)` of an allocation with guest
    /// addresses.
    pub open spec fn ipa_range_spec(self) -> Option<(u64, u64)> {
        match self {
            VmMem::IpaPa(r) => if r.ipa@ + r.size <= u64::MAX {
                Some((r.ipa@, (r.ipa@ + r.size) as u64))
            } else {
                None
            },
            VmMem::IpaOnly(r) => if r.base@ + r.size <= u64::MAX {
                Some((r.base@, (r.base@ + r.size) as u64))
            } else {
                None
            },
            VmMem::PaOnly(_) => None,
        }
    }

    fn ipa_range(&self) -> (r: Option<(u64, u64)>)
        ensures
            r == self.ipa_range_spec(),
    {
        match self {
            VmMem::IpaPa(region) => match region.ipa.checked_add(region.size as u64) {
                Some(end) => Some((region.ipa.value(), end.value())),
                None => None,
            },
            VmMem::IpaOnly(region) => match region.base.checked_add(region.size as u64) {
                Some(end) => Some((region.base.value(), end.value())),
                None => None,
            },
            VmMem::PaOnly(_) => None,
        }
    }
}

// ----- Stage-2 tables -----

/// A descriptor is valid when its bit 0 is set.
pub open spec fn is_valid_entry(e: u64) -> bool {
    e & VALID != 0
}

/// A valid level-1 or level-2 descriptor with bit 1 set names a next-level table.
pub open spec fn is_table_entry(e: u64) -> bool {
    e & TABLE_OR_PAGE != 0
}

/// The output address of a descriptor.
pub open spec fn entry_address(e: u64) -> u64 {
    e & ADDRESS_MASK
}

/// The descriptor of a next-level table at `pa`.
pub open spec fn table_descriptor(pa: u64) -> u64 {
    VALID | TABLE_OR_PAGE | (pa & ADDRESS_MASK)
}

/// The index that an IPA selects at the level whose entries span `1 << shift` bytes.
pub open spec fn s2_index(ipa: u64, shift: u64) -> int {
    ((ipa >> shift) & 0x1ff) as int
}

/// The table page at physical address `pa`, if it is one of `pas`.
pub open spec fn index_of_page(pas: Seq<u64>, pa: u64) -> Option<int> {
    if exists|i: int| 0 <= i < pas.len() && pas[i] == pa {
        Some(choose|i: int| 0 <= i < pas.len() && pas[i] == pa)
    } else {
        None
    }
}

/// The table that entry `i` of table `t` links to.
pub open spec fn next_table(pas: Seq<u64>, tables: Seq<Seq<u64>>, t: int, i: int) -> Option<int> {
    let e = tables[t][i];
    if is_valid_entry(e) && is_table_entry(e) {
        index_of_page(pas, entry_address(e))
    } else {
        None
    }
}

/// The level-3 descriptor that a stage-2 walk from the root table (the first
/// page) reaches for `ipa`, if the walk reaches a valid one.
pub open spec fn stage2_walk(pas: Seq<u64>, tables: Seq<Seq<u64>>, ipa: u64) -> Option<u64> {
    if tables.len() == 0 {
        None
    } else {
        match next_table(pas, tables, 0, s2_index(ipa, 30)) {
            None => None,
            Some(t2) => match next_table(pas, tables, t2, s2_index(ipa, 21)) {
                None => None,
                Some(t3) => {
                    let e = tables[t3][s2_index(ipa, 12)];
                    if is_valid_entry(e) {
                        Some(e)
                    } else {
                        None
                    }
                },
            },
        }
    }
}

/// The tables at `pas` with contents `tables` form a three-level tree: the
/// root has level 1, every valid entry of a level-1 or level-2 table links
/// to a distinct-address table one level down, and every table page lies
/// page-aligned below 2^48. Pages of level 0 are not yet linked.
pub open spec fn tables_wf(pas: Seq<u64>, tables: Seq<Seq<u64>>, levels: Seq<int>) -> bool {
    &&& pas.len() == tables.len()
    &&& pas.len() == levels.len()
    &&& forall|t: int| 0 <= t < tables.len() ==> (#[trigger] tables[t]).len() == 512
    &&& pas.len() > 0 ==> levels[0] == 1
    &&& forall|i: int, j: int|
        0 <= i < pas.len() && 0 <= j < pas.len() && i != j ==> pas[i] != pas[j]
    &&& forall|i: int|
        0 <= i < pas.len() ==> (#[trigger] pas[i]) % 4096 == 0 && pas[i] < 0x1_0000_0000_0000
    &&& forall|t: int, i: int|
        0 <= t < tables.len() && 0 <= i < 512 && (levels[t] == 1 || levels[t] == 2)
            && is_valid_entry(#[trigger] tables[t][i]) ==> {
            &&& is_table_entry(tables[t][i])
            &&& index_of_page(pas, entry_address(tables[t][i])) matches Some(j)
            &&& levels[j] == levels[t] + 1
        }
}

/// No two valid entries of level-1 or level-2 tables name the same page:
/// the tables form a tree.
#[verifier::opaque]
pub open spec fn tables_tree(tables: Seq<Seq<u64>>, levels: Seq<int>) -> bool {
    forall|t1: int, i1: int, t2: int, i2: int|
        0 <= t1 < tables.len() && 0 <= t2 < tables.len() && 0 <= i1 < 512 && 0 <= i2 < 512 && (t1 != t2
            || i1 != i2) && (levels[t1] == 1 || levels[t1] == 2) && (levels[t2] == 1 || levels[t2] == 2)
            && is_valid_entry(tables[t1][i1]) && is_valid_entry(tables[t2][i2]) ==> entry_address(
            #[trigger] tables[t1][i1],
        ) != entry_address(#[trigger] tables[t2][i2])
}

/// Tables without a valid entry form a tree.
proof fn lemma_tree_zero(tables: Seq<Seq<u64>>, levels: Seq<int>)
    requires
        forall|t: int, i: int| 0 <= t < tables.len() && 0 <= i < 512 ==> !is_valid_entry(#[trigger] tables[t][i]),
    ensures
        tables_tree(tables, levels),
{
    reveal(tables_tree);
}

/// Adding a table without a valid entry keeps the tree.
proof fn lemma_tree_push(tables: Seq<Seq<u64>>, levels: Seq<int>, page: Seq<u64>, level: int)
    requires
        tables_tree(tables, levels),
        tables.len() == levels.len(),
        forall|i: int| 0 <= i < 512 ==> !is_valid_entry(#[trigger] page[i]),
    ensures
        tables_tree(tables.push(page), levels.push(level)),
{
    reveal(tables_tree);
    let t2 = tables.push(page);
    let l2 = levels.push(level);
    assert forall|a: int, i1: int, b: int, i2: int|
        0 <= a < t2.len() && 0 <= b < t2.len() && 0 <= i1 < 512 && 0 <= i2 < 512 && (a != b || i1 != i2)
            && (l2[a] == 1 || l2[a] == 2) && (l2[b] == 1 || l2[b] == 2) && is_valid_entry(t2[a][i1])
            && is_valid_entry(t2[b][i2]) implies entry_address(#[trigger] t2[a][i1]) != entry_address(
        #[trigger] t2[b][i2],
    ) by {
        assert(a < tables.len() && b < tables.len());
        assert(t2[a] == tables[a] && t2[b] == tables[b]);
        assert(l2[a] == levels[a] && l2[b] == levels[b]);
    }
}

/// Writing into an entry of a level-3 table, or writing a link to a page
/// that no valid entry of a level-1 or level-2 table names into an empty
/// entry, keeps the tree.
proof fn lemma_tree_write(tables: Seq<Seq<u64>>, levels: Seq<int>, t: int, i: int, d: u64)
    requires
        tables_tree(tables, levels),
        0 <= t < tables.len(),
        0 <= i < 512,
        tables[t].len() == 512,
        levels[t] == 3 || (!is_valid_entry(tables[t][i]) && forall|t2: int, i2: int|
            0 <= t2 < tables.len() && 0 <= i2 < 512 && (levels[t2] == 1 || levels[t2] == 2)
                && is_valid_entry(#[trigger] tables[t2][i2]) ==> entry_address(tables[t2][i2])
                != entry_address(d)),
    ensures
        tables_tree(tables.update(t, tables[t].update(i, d)), levels),
{
    reveal(tables_tree);
    let w = tables.update(t, tables[t].update(i, d));
    assert forall|a: int, i1: int, b: int, i2: int|
        0 <= a < w.len() && 0 <= b < w.len() && 0 <= i1 < 512 && 0 <= i2 < 512 && (a != b || i1 != i2)
            && (levels[a] == 1 || levels[a] == 2) && (levels[b] == 1 || levels[b] == 2) && is_valid_entry(
            w[a][i1],
        ) && is_valid_entry(w[b][i2]) implies entry_address(#[trigger] w[a][i1]) != entry_address(
        #[trigger] w[b][i2],
    ) by {
        if a == t && i1 == i {
            assert(w[a][i1] == d);
            assert(w[b][i2] == tables[b][i2]);
        } else if b == t && i2 == i {
            assert(w[b][i2] == d);
            assert(w[a][i1] == tables[a][i1]);
        } else {
            assert(w[a][i1] == tables[a][i1]);
            assert(w[b][i2] == tables[b][i2]);
        }
    }
}

/// The tables of `pas2`, `tables2` hold those of `pas`, `tables` with the
/// same addresses and levels, every valid entry unchanged, and possibly more
/// pages after them.
pub open spec fn tables_extend(
    pas: Seq<u64>,
    tables: Seq<Seq<u64>>,
    levels: Seq<int>,
    pas2: Seq<u64>,
    tables2: Seq<Seq<u64>>,
    levels2: Seq<int>,
) -> bool {
    &&& pas.len() <= pas2.len()
    &&& pas2.subrange(0, pas.len() as int) == pas
    &&& levels2.subrange(0, levels.len() as int) == levels
    &&& forall|t: int, i: int|
        0 <= t < tables.len() && 0 <= i < 512 && is_valid_entry(#[trigger] tables[t][i])
            ==> tables2[t][i] == tables[t][i]
}

/// `a` and `b` select the same entry at every level of a stage-2 walk.
pub open spec fn same_slot(a: u64, b: u64) -> bool {
    &&& s2_index(a, 30) == s2_index(b, 30)
    &&& s2_index(a, 21) == s2_index(b, 21)
    &&& s2_index(a, 12) == s2_index(b, 12)
}

/// Two distinct pages below 2^39 never share a slot.
pub proof fn lemma_pages_apart(a: u64, b: u64)
    requires
        a % 4096 == 0,
        b % 4096 == 0,
        a < 0x80_0000_0000,
        b < 0x80_0000_0000,
        a != b,
    ensures
        !same_slot(a, b),
{
    assert(a < 0x80_0000_0000 && b < 0x80_0000_0000 && a % 4096 == 0 && b % 4096 == 0 && (a >> 30u64)
        & 0x1ff == (b >> 30u64) & 0x1ff && (a >> 21u64) & 0x1ff == (b >> 21u64) & 0x1ff && (a >> 12u64)
        & 0x1ff == (b >> 12u64) & 0x1ff ==> a == b) by (bit_vector);
}

/// In a tree, two entries of level-1 or level-2 tables that link the same
/// table are one entry.
proof fn lemma_one_link(
    pas: Seq<u64>,
    tables: Seq<Seq<u64>>,
    levels: Seq<int>,
    u: int,
    i: int,
    v: int,
    k: int,
)
    requires
        tables_wf(pas, tables, levels),
        tables_tree(tables, levels),
        0 <= u < tables.len(),
        0 <= v < tables.len(),
        0 <= i < 512,
        0 <= k < 512,
        levels[u] == 1 || levels[u] == 2,
        levels[v] == 1 || levels[v] == 2,
        next_table(pas, tables, u, i) is Some,
        next_table(pas, tables, u, i) == next_table(pas, tables, v, k),
    ensures
        u == v && i == k,
{
    reveal(tables_tree);
    let j = next_table(pas, tables, u, i)->Some_0;
    assert(pas[j] == entry_address(tables[u][i]));
    assert(pas[j] == entry_address(tables[v][k]));
}

/// Where tables grew only along the walk of `ipa` (through `t2` and `t3`),
/// with every link that changed pointing to a new table, an address in
/// another slot that had no translation still has none.
#[verifier::spinoff_prover]
#[verifier::rlimit(60)]
proof fn lemma_walk_frame(
    pas: Seq<u64>,
    tables: Seq<Seq<u64>>,
    levels: Seq<int>,
    pas2: Seq<u64>,
    tables2: Seq<Seq<u64>>,
    levels2: Seq<int>,
    ipa: u64,
    t2: int,
    t3: int,
    ipa2: u64,
)
    requires
        tables_wf(pas, tables, levels),
        tables_wf(pas2, tables2, levels2),
        tables_tree(tables2, levels2),
        tables_extend(pas, tables, levels, pas2, tables2, levels2),
        tables.len() > 0,
        next_table(pas2, tables2, 0, s2_index(ipa, 30)) == Some(t2),
        next_table(pas2, tables2, t2, s2_index(ipa, 21)) == Some(t3),
        forall|u: int, i: int|
            0 <= u < tables2.len() && 0 <= i < 512 && (if u < tables.len() {
                tables2[u][i] != tables[u][i]
            } else {
                tables2[u][i] != 0
            }) ==> (u == 0 && i == s2_index(ipa, 30)) || (u == t2 && i == s2_index(ipa, 21)) || (u == t3
                && i == s2_index(ipa, 12)),
        tables2[0][s2_index(ipa, 30)] != tables[0][s2_index(ipa, 30)] ==> t2 >= tables.len(),
        t2 >= tables.len() || tables2[t2][s2_index(ipa, 21)] != tables[t2][s2_index(ipa, 21)] ==> t3
            >= tables.len(),
        stage2_walk(pas, tables, ipa2) is None,
        !same_slot(ipa, ipa2),
    ensures
        stage2_walk(pas2, tables2, ipa2) is None,
{
    let a = s2_index(ipa2, 30);
    let b = s2_index(ipa2, 21);
    let c = s2_index(ipa2, 12);
    let l1 = s2_index(ipa, 30);
    let l2 = s2_index(ipa, 21);
    let l3 = s2_index(ipa, 12);
    assert((forall|x: u64| #[trigger] (x & 0x1ff) < 512) && !is_valid_entry(0u64)) by (bit_vector);
    assert(0 <= a < 512 && 0 <= b < 512 && 0 <= c < 512);
    assert(0 <= l1 < 512 && 0 <= l2 < 512 && 0 <= l3 < 512);
    assert(levels2[0] == 1);
    assert(levels[0] == 1);
    assert(levels2[t2] == 2);
    assert(levels2[t3] == 3);
    if stage2_walk(pas2, tables2, ipa2) is Some {
        let u2 = next_table(pas2, tables2, 0, a)->Some_0;
        let u3 = next_table(pas2, tables2, u2, b)->Some_0;
        assert(levels2[u2] == 2);
        assert(levels2[u3] == 3);
        assert(is_valid_entry(tables2[u3][c]));
        assert(tables2[0][a] != 0);
        assert(tables2[u2][b] != 0);
        assert(tables2[u3][c] != 0);
        if tables2[0][a] != tables[0][a] {
            assert(a == l1);
            assert(u2 == t2);
            assert(u2 >= tables.len());
            assert(u2 == t2 && b == l2);
            assert(u3 == t3);
            assert(u3 >= tables.len());
            assert(c == l3);
            assert(false);
        } else {
            assert(next_table(pas, tables, 0, a) is Some) by {
                assert(tables[0][a] == tables2[0][a]);
            }
            lemma_next_table_extends(pas, tables, levels, pas2, tables2, levels2, 0, a);
            assert(u2 < tables.len());
            assert(levels[u2] == 2);
            if tables2[u2][b] != tables[u2][b] {
                assert(u2 == t2 && b == l2);
                lemma_one_link(pas2, tables2, levels2, 0, a, 0, l1);
                assert(u3 == t3);
                assert(u3 >= tables.len());
                assert(c == l3);
                assert(false);
            } else {
                assert(next_table(pas, tables, u2, b) is Some);
                lemma_next_table_extends(pas, tables, levels, pas2, tables2, levels2, u2, b);
                assert(u3 < tables.len());
                if tables2[u3][c] != tables[u3][c] {
                    assert(u3 == t3 && c == l3);
                    lemma_one_link(pas2, tables2, levels2, u2, b, t2, l2);
                    lemma_one_link(pas2, tables2, levels2, 0, a, 0, l1);
                    assert(false);
                } else {
                    assert(stage2_walk(pas, tables, ipa2) is Some);
                }
            }
        }
    }
}

/// Mapping one page at level 3 (linking at most two new tables on the way,
/// then writing the leaf) leaves every address of another slot that had no
/// translation without one.
#[verifier::spinoff_prover]
#[verifier::rlimit(80)]
proof fn lemma_l3_frame(
    pas0: Seq<u64>,
    c0: Seq<Seq<u64>>,
    lv0: Seq<int>,
    c1: Seq<Seq<u64>>,
    c2: Seq<Seq<u64>>,
    pas: Seq<u64>,
    c: Seq<Seq<u64>>,
    lv: Seq<int>,
    ipa: u64,
    t2: int,
    t3: int,
    desc: u64,
)
    requires
        tables_wf(pas0, c0, lv0),
        tables_wf(pas, c, lv),
        tables_tree(c, lv),
        tables_extend(pas0, c0, lv0, pas, c, lv),
        c0.len() > 0,
        next_table(pas, c, 0, s2_index(ipa, 30)) == Some(t2),
        next_table(pas, c, t2, s2_index(ipa, 21)) == Some(t3),
        0 <= t2 < c1.len(),
        0 <= t3 < c2.len(),
        is_valid_entry(c0[0][s2_index(ipa, 30)]) ==> c1 == c0,
        !is_valid_entry(c0[0][s2_index(ipa, 30)]) ==> {
            &&& t2 == c0.len()
            &&& c1.len() == c0.len() + 1
            &&& c1[t2] == Seq::new(512, |i: int| 0u64)
            &&& forall|u: int, i: int|
                0 <= u < c0.len() && 0 <= i < 512 && !(u == 0 && i == s2_index(ipa, 30)) ==> #[trigger] c1[u][i]
                    == c0[u][i]
        },
        is_valid_entry(c1[t2][s2_index(ipa, 21)]) ==> c2 == c1,
        !is_valid_entry(c1[t2][s2_index(ipa, 21)]) ==> {
            &&& t3 == c1.len()
            &&& c2.len() == c1.len() + 1
            &&& c2[t3] == Seq::new(512, |i: int| 0u64)
            &&& forall|u: int, i: int|
                0 <= u < c1.len() && 0 <= i < 512 && !(u == t2 && i == s2_index(ipa, 21)) ==> #[trigger] c2[u][i]
                    == c1[u][i]
        },
        c == c2.update(t3, c2[t3].update(s2_index(ipa, 12), desc)),
    ensures
        forall|ipa2: u64|
            !same_slot(ipa, ipa2) && stage2_walk(pas0, c0, ipa2) is None ==> #[trigger] stage2_walk(pas, c, ipa2)
                is None,
{
    let l1 = s2_index(ipa, 30);
    let l2 = s2_index(ipa, 21);
    let l3 = s2_index(ipa, 12);
    assert((forall|x: u64| #[trigger] (x & 0x1ff) < 512) && !is_valid_entry(0u64)) by (bit_vector);
    assert(0 <= l1 < 512 && 0 <= l2 < 512 && 0 <= l3 < 512);
    assert(lv[0] == 1 && lv[t2] == 2 && lv[t3] == 3);
    assert(t2 != 0 && t3 != 0 && t3 != t2);
    assert(c.len() == c2.len());
    assert forall|u: int, i: int|
        0 <= u < c.len() && 0 <= i < 512 && (if u < c0.len() {
            c[u][i] != c0[u][i]
        } else {
            c[u][i] != 0
        }) implies (u == 0 && i == l1) || (u == t2 && i == l2) || (u == t3 && i == l3) by {
        if !(u == t3 && i == l3) {
            assert(c[u][i] == c2[u][i]);
            if !(u == t2 && i == l2) {
                if u < c1.len() {
                    assert(c2[u][i] == c1[u][i]);
                    if !(u == 0 && i == l1) {
                        if u < c0.len() {
                            assert(c1[u][i] == c0[u][i]);
                        } else {
                            assert(u == t2);
                            assert(c1[t2][i] == 0u64);
                        }
                    }
                } else {
                    assert(u == t3);
                    assert(c2[t3][i] == 0u64);
                }
            }
        }
    }
    if c[0][l1] != c0[0][l1] {
        if is_valid_entry(c0[0][l1]) {
            assert(c[0][l1] == c2[0][l1]);
            assert(c2[0][l1] == c1[0][l1]);
        }
    }
    if t2 >= c0.len() || c[t2][l2] != c0[t2][l2] {
        if is_valid_entry(c1[t2][l2]) {
            if t2 >= c0.len() {
                assert(!is_valid_entry(c0[0][l1]));
                assert(c1[t2][l2] == 0u64);
            } else {
                assert(c[t2][l2] == c2[t2][l2]);
                if !is_valid_entry(c0[0][l1]) {
                    assert(c1[t2][l2] == c0[t2][l2]);
                }
            }
        }
    }
    assert forall|ipa2: u64|
        !same_slot(ipa, ipa2) && stage2_walk(pas0, c0, ipa2) is None implies #[trigger] stage2_walk(pas, c, ipa2)
            is None by {
        lemma_walk_frame(pas0, c0, lv0, pas, c, lv, ipa, t2, t3, ipa2);
    }
}

/// A walk that reached a descriptor reaches the same one in extended tables.
proof fn lemma_walk_extends(
    pas: Seq<u64>,
    tables: Seq<Seq<u64>>,
    levels: Seq<int>,
    pas2: Seq<u64>,
    tables2: Seq<Seq<u64>>,
    levels2: Seq<int>,
    ipa: u64,
)
    requires
        tables_wf(pas, tables, levels),
        tables_wf(pas2, tables2, levels2),
        tables_extend(pas, tables, levels, pas2, tables2, levels2),
        stage2_walk(pas, tables, ipa) is Some,
    ensures
        stage2_walk(pas2, tables2, ipa) == stage2_walk(pas, tables, ipa),
{
    let l1 = s2_index(ipa, 30);
    let l2 = s2_index(ipa, 21);
    let l3 = s2_index(ipa, 12);
    assert(0 <= l1 < 512 && 0 <= l2 < 512 && 0 <= l3 < 512) by {
        crate::page::lemma_mask_bounds();
    }
    let t2 = next_table(pas, tables, 0, l1)->Some_0;
    assert(pas2[t2] == pas[t2]);
    assert(index_of_page(pas2, entry_address(tables2[0][l1])) == Some(t2));
    let t3 = next_table(pas, tables, t2, l2)->Some_0;
    assert(pas2[t3] == pas[t3]);
    assert(index_of_page(pas2, entry_address(tables2[t2][l2])) == Some(t3));
}

// ----- The VM's memory -----

/// A guest range of `size` bytes at `ipa` is whole pages, non-empty, and
/// inside the 39-bit guest address space.
pub open spec fn ipa_range_fits(ipa: u64, size: int) -> bool {
    &&& size > 0
    &&& size % 4096 == 0
    &&& ipa % 4096 == 0
    &&& ipa + size - 1 <= MAX_IPA
}

/// The form of each kind of allocation: guard regions have guest addresses
/// only, the page tables physical pages only, the rest both, on whole pages.
pub open spec fn entry_shape_ok(e: VmMem) -> bool {
    match e {
        VmMem::IpaOnly(r) => r.usage == VmMemUsage::Guard && ipa_range_fits(r.base@, r.size as int),
        VmMem::IpaPa(r) => {
            &&& r.usage != VmMemUsage::Guard
            &&& r.usage != VmMemUsage::PageTable
            &&& ipa_range_fits(r.ipa@, r.size as int)
            &&& r.pa@ % 4096 == 0
            &&& r.pa@ + r.size <= u64::MAX
        },
        VmMem::PaOnly(u) => u == VmMemUsage::PageTable,
    }
}

/// The physical pages that an allocation holds, given how many table pages
/// the page-table allocation holds.
pub open spec fn entry_pages(e: VmMem, table_pages: nat) -> nat {
    match e {
        VmMem::IpaOnly(_) => 0,
        VmMem::IpaPa(r) => (r.size / 4096) as nat,
        VmMem::PaOnly(_) => table_pages,
    }
}

/// The physical pages that all of `entries` hold.
pub open spec fn pages_sum(entries: Seq<VmMem>, table_pages: nat) -> nat
    decreases entries.len(),
{
    if entries.len() == 0 {
        0
    } else {
        pages_sum(entries.drop_last(), table_pages) + entry_pages(entries.last(), table_pages)
    }
}

/// The allocation for `usage`, if there is one.
pub open spec fn entry_index(entries: Seq<VmMem>, usage: VmMemUsage) -> Option<int> {
    if exists|i: int| 0 <= i < entries.len() && (#[trigger] entries[i]).usage_spec() == usage {
        Some(choose|i: int| 0 <= i < entries.len() && (#[trigger] entries[i]).usage_spec() == usage)
    } else {
        None
    }
}

/// Two guest ranges `[s1, e1)` and `[s2, e2)` share an address.
pub open spec fn ranges_overlap(a: (u64, u64), b: (u64, u64)) -> bool {
    a.0 < b.1 && b.0 < a.1
}

/// The memory of one virtual machine and its stage-2 tables. The tables live
/// in the pages of the page-table allocation, the root first; their contents
/// are kept here and written to those pages by whoever installs them.
pub struct VmCtl {
    vm_id: u8,
    vm_mem: Vec<VmMem>,
    table_pages: Vec<PhysAddr>,
    tables: Vec<TablePage>,
    levels: Ghost<Seq<int>>,
}

impl VmCtl {
    pub closed spec fn vm_id_spec(&self) -> u8 {
        self.vm_id
    }

    /// The allocations, oldest first.
    pub closed spec fn entries(&self) -> Seq<VmMem> {
        self.vm_mem@
    }

    /// The addresses of the table pages, the root first.
    pub closed spec fn table_pas(&self) -> Seq<u64> {
        self.table_pages@.map_values(|p: PhysAddr| p@)
    }

    /// The contents of the table pages.
    pub closed spec fn table_contents(&self) -> Seq<Seq<u64>> {
        self.tables@.map_values(|t: TablePage| t@)
    }

    pub closed spec fn table_levels(&self) -> Seq<int> {
        self.levels@
    }

    /// The descriptor that the stage-2 tables give for `ipa`.
    pub open spec fn translation(&self, ipa: u64) -> Option<u64> {
        stage2_walk(self.table_pas(), self.table_contents(), ipa)
    }

    /// One allocation per usage, each of the right form, the page tables
    /// present exactly when their allocation is, the guest ranges apart, at
    /// most `MAX_GUEST_MEM_PAGES` physical pages, and the tables a tree.
    pub closed spec fn wf(&self) -> bool {
        &&& self.table_pages@.len() == self.tables@.len()
        &&& tables_wf(self.table_pas(), self.table_contents(), self.levels@)
        &&& tables_tree(self.table_contents(), self.levels@)
        &&& forall|i: int, j: int|
            0 <= i < j < self.vm_mem@.len() ==> (#[trigger] self.vm_mem@[i]).usage_spec()
                != (#[trigger] self.vm_mem@[j]).usage_spec()
        &&& forall|i: int| 0 <= i < self.vm_mem@.len() ==> entry_shape_ok(#[trigger] self.vm_mem@[i])
        &&& (exists|i: int| 0 <= i < self.vm_mem@.len() && #[trigger] self.vm_mem@[i] is PaOnly)
            <==> self.table_pages@.len() > 0
        &&& pages_sum(self.vm_mem@, self.table_pages@.len()) <= MAX_GUEST_MEM_PAGES
        &&& forall|i: int, j: int, p: int|
            0 <= i < self.vm_mem@.len() && 0 <= j < self.vm_mem@.len() && i != j
                && #[trigger] entry_holds_page(self.vm_mem@[i], p) ==> !#[trigger] entry_holds_page(
                self.vm_mem@[j],
                p,
            )
        &&& forall|i: int, k: int|
            0 <= i < self.vm_mem@.len() && 0 <= k < self.table_pages@.len() ==> !entry_holds_page(
                #[trigger] self.vm_mem@[i],
                ((#[trigger] self.table_pages@[k])@ / 4096) as int,
            )
        &&& forall|i: int, j: int|
            0 <= i < self.vm_mem@.len() && 0 <= j < self.vm_mem@.len() && i != j && (
            #[trigger] self.vm_mem@[i]).ipa_range_spec() is Some && (
            #[trigger] self.vm_mem@[j]).ipa_range_spec() is Some ==> !ranges_overlap(
                self.vm_mem@[i].ipa_range_spec()->Some_0,
                self.vm_mem@[j].ipa_range_spec()->Some_0,
            )
    }

    pub fn new(vm_id: u8) -> (r: Self)
        ensures
            r.wf(),
            r.vm_id_spec() == vm_id,
            r.entries() == Seq::<VmMem>::empty(),
            r.table_pas() == Seq::<u64>::empty(),
    {
        let r = VmCtl {
            vm_id,
            vm_mem: Vec::new(),
            table_pages: Vec::new(),
            tables: Vec::new(),
            levels: Ghost(Seq::empty()),
        };
        proof {
            assert(r.table_pas() =~= Seq::<u64>::empty());
            assert(r.table_contents() =~= Seq::<Seq<u64>>::empty());
            lemma_tree_zero(r.table_contents(), r.levels@);
        }
        r
    }

    pub fn vm_id(&self) -> (r: u8)
        ensures
            r == self.vm_id_spec(),
    {
        self.vm_id
    }

    /// The root table of the stage-2 tables, once the page tables were allocated.
    pub fn page_table_root(&self) -> (r: Option<PhysAddr>)
        requires
            self.wf(),
        ensures
            r == (if self.table_pas().len() > 0 {
                Some(PhysAddr::spec_new(self.table_pas()[0]))
            } else {
                None::<PhysAddr>
            }),
    {
        if self.table_pages.len() > 0 {
            proof {
                PhysAddr::lemma_view_spec_new(self.table_pages@[0]);
            }
            Some(self.table_pages[0])
        } else {
            None
        }
    }

    /// The table page at `pa`.
    fn table_index(&self, pa: u64) -> (r: Option<usize>)
        requires
            self.wf(),
        ensures
            r matches Some(i) ==> index_of_page(self.table_pas(), pa) == Some(i as int),
            r is None ==> index_of_page(self.table_pas(), pa) is None,
    {
        let ghost pas = self.table_pas();
        let mut i: usize = 0;
        while i < self.table_pages.len()
            invariant
                i <= self.table_pages@.len(),
                pas == self.table_pas(),
                pas.len() == self.table_pages@.len(),
                tables_wf(pas, self.table_contents(), self.levels@),
                forall|k: int| 0 <= k < i ==> pas[k] != pa,
            decreases self.table_pages@.len() - i,
        {
            if self.table_pages[i].value() == pa {
                proof {
                    assert(pas[i as int] == pa);
                    let j = choose|j: int| 0 <= j < pas.len() && pas[j] == pa;
                    assert(j == i);
                }
                return Some(i);
            }
            i += 1;
        }
        None
    }

    /// The physical pages held by all allocations.
    fn allocated_physical_pages(&self) -> (r: usize)
        requires
            self.wf(),
        ensures
            r == pages_sum(self.entries(), self.table_pas().len()),
    {
        let ghost entries = self.vm_mem@;
        let tables = self.table_pages.len();
        let mut total: usize = 0;
        let mut i: usize = 0;
        proof {
            lemma_pages_sum_prefix(entries, tables as nat, 0);
        }
        while i < self.vm_mem.len()
            invariant
                i <= entries.len(),
                entries == self.vm_mem@,
                tables == self.table_pages@.len(),
                pages_sum(entries, tables as nat) <= MAX_GUEST_MEM_PAGES,
                total == pages_sum(entries.subrange(0, i as int), tables as nat),
            decreases entries.len() - i,
        {
            proof {
                lemma_pages_sum_prefix(entries, tables as nat, i + 1);
                assert(entries.subrange(0, i + 1).drop_last() =~= entries.subrange(0, i as int));
            }
            let pages = match &self.vm_mem[i] {
                VmMem::IpaOnly(_) => 0,
                VmMem::IpaPa(region) => region.size / 4096,
                VmMem::PaOnly(_) => tables,
            };
            total = total + pages;
            i += 1;
        }
        proof {
            assert(entries.subrange(0, entries.len() as int) =~= entries);
        }
        total
    }
}

/// A prefix of the allocations holds no more pages than all of them.
proof fn lemma_pages_sum_prefix(entries: Seq<VmMem>, table_pages: nat, k: int)
    requires
        0 <= k <= entries.len(),
    ensures
        pages_sum(entries.subrange(0, k), table_pages) <= pages_sum(entries, table_pages),
    decreases entries.len() - k,
{
    if k < entries.len() {
        lemma_pages_sum_prefix(entries.drop_last(), table_pages, k);
        assert(entries.drop_last().subrange(0, k) =~= entries.subrange(0, k));
    } else {
        assert(entries.subrange(0, k) =~= entries);
    }
}

/// The level-3 descriptor that maps a page at `pa` with the given attributes.
pub open spec fn page_descriptor(
    pa: u64,
    mem_type: Stage2MemoryType,
    access: Stage2Access,
    exec: Stage2Exec,
) -> u64 {
    VALID | TABLE_OR_PAGE | mem_attr_bits(mem_type) | s2ap_bits(access) | sh_bits(mem_type)
        | 0x400u64 | xn_bits(exec) | (pa & ADDRESS_MASK)
}

/// The descriptor that a stage-2 map writes for a page holds its attributes
/// in their architectural encodings: a valid page with the access flag set,
/// S2AP (bits [7:6]) 0b00 for no access, 0b01 read-only, 0b10 write-only,
/// 0b11 read/write; MemAttr (bits [5:2]) 0b1111 and inner shareable for
/// Normal memory, 0b0001 and non-shareable for Device memory; XN (bit 54)
/// set exactly for execute-never; and the output address of `pa`.
pub proof fn lemma_page_descriptor_fields(pa: u64, mem_type: Stage2MemoryType, access: Stage2Access, exec: Stage2Exec)
    ensures
        page_descriptor(pa, mem_type, access, exec) & 3 == 3,
        (page_descriptor(pa, mem_type, access, exec) >> 10u64) & 1 == 1,
        access == Stage2Access::NoAccess ==> (page_descriptor(pa, mem_type, access, exec) >> 6u64) & 3 == 0,
        access == Stage2Access::ReadOnly ==> (page_descriptor(pa, mem_type, access, exec) >> 6u64) & 3 == 1,
        access == Stage2Access::WriteOnly ==> (page_descriptor(pa, mem_type, access, exec) >> 6u64) & 3 == 2,
        access == Stage2Access::ReadWrite ==> (page_descriptor(pa, mem_type, access, exec) >> 6u64) & 3 == 3,
        mem_type == Stage2MemoryType::NormalWbWa ==> (page_descriptor(pa, mem_type, access, exec) >> 2u64)
            & 0xf == 0xf && (page_descriptor(pa, mem_type, access, exec) >> 8u64) & 3 == 3,
        mem_type == Stage2MemoryType::DeviceNgNre ==> (page_descriptor(pa, mem_type, access, exec) >> 2u64)
            & 0xf == 1 && (page_descriptor(pa, mem_type, access, exec) >> 8u64) & 3 == 0,
        ((page_descriptor(pa, mem_type, access, exec) >> 54u64) & 1 == 1) == (exec == Stage2Exec::ExecuteNever),
        page_descriptor(pa, mem_type, access, exec) & 0x0000_ffff_ffff_f000u64 == pa & 0x0000_ffff_ffff_f000u64,
{
    crate::stage2_translation::lemma_l3_descriptor_fields(pa, mem_type, access, exec);
    assert(page_descriptor(pa, mem_type, access, exec) == crate::stage2_translation::l3_page_descriptor(
        pa,
        mem_type,
        access,
        exec,
    ));
}

/// What the bits of table and page descriptors say.
proof fn lemma_descriptor_bits()
    by (bit_vector)
    ensures
        forall|pa: u64|
            #![trigger pa & ADDRESS_MASK]
            pa & 0xfff == 0 && pa < 0x1_0000_0000_0000 ==> {
                &&& (VALID | TABLE_OR_PAGE | (pa & ADDRESS_MASK)) & VALID != 0
                &&& (VALID | TABLE_OR_PAGE | (pa & ADDRESS_MASK)) & TABLE_OR_PAGE != 0
                &&& (VALID | TABLE_OR_PAGE | (pa & ADDRESS_MASK)) & ADDRESS_MASK == pa
            },
        forall|a: u64, b: u64, c: u64, d: u64, e: u64|
            #![trigger VALID | TABLE_OR_PAGE | a | b | c | 0x400u64 | d | e]
            (VALID | TABLE_OR_PAGE | a | b | c | 0x400u64 | d | e) & VALID != 0,
        0u64 & VALID == 0,
{
}

/// Page `p` (a page number) is one of the guest memory pages of `e`.
pub open spec fn entry_holds_page(e: VmMem, p: int) -> bool {
    match e {
        VmMem::IpaPa(r) => r.pa@ / 4096 <= p < r.pa@ / 4096 + r.size / 4096,
        _ => false,
    }
}

impl VmCtl {
    /// Page `p` (a page number) is one that this VM holds: a page of guest
    /// memory or a table page.
    pub open spec fn owns_page(&self, p: int) -> bool {
        ||| exists|i: int|
            0 <= i < self.entries().len() && entry_holds_page(#[trigger] self.entries()[i], p)
        ||| exists|k: int|
            0 <= k < self.table_pas().len() && (#[trigger] self.table_pas()[k]) / 4096 == p
    }

    /// Every page this VM holds is in use in `allocator`.
    pub open spec fn backed_by<const B: usize>(&self, allocator: &PageAllocator<B>) -> bool {
        forall|p: int| #[trigger] self.owns_page(p) ==> allocator.state_of(p) == PageState::InUse
    }
}

/// The allocator hands out pages below 2^48, where table descriptors can
/// name them.
pub open spec fn aperture_fits<const B: usize>() -> bool {
    PageAllocator::<B>::page_count() * 4096 <= 0x1_0000_0000_0000
}

/// Adding a table page adds one page to the total, there being at most one
/// page-table allocation.
proof fn lemma_pages_sum_more_tables(entries: Seq<VmMem>, n: nat)
    requires
        forall|i: int, j: int|
            0 <= i < j < entries.len() ==> (#[trigger] entries[i]).usage_spec()
                != (#[trigger] entries[j]).usage_spec(),
        forall|i: int| 0 <= i < entries.len() ==> entry_shape_ok(#[trigger] entries[i]),
    ensures
        pages_sum(entries, n + 1) <= pages_sum(entries, n) + 1,
        (forall|i: int| 0 <= i < entries.len() ==> !(#[trigger] entries[i] is PaOnly)) ==> pages_sum(
            entries,
            n + 1,
        ) == pages_sum(entries, n),
    decreases entries.len(),
{
    if entries.len() > 0 {
        let rest = entries.drop_last();
        lemma_pages_sum_more_tables(rest, n);
        if entries.last() is PaOnly {
            assert forall|i: int| 0 <= i < rest.len() implies !(#[trigger] rest[i] is PaOnly) by {
                assert(entries[i].usage_spec() != entries[entries.len() - 1].usage_spec());
            }
        }
    }
}

/// `new` is `old` with a zeroed table page of level `level` added at `pa`,
/// an address that `old` did not hold.
pub open spec fn table_added(old: VmCtl, new: VmCtl, pa: u64, level: int) -> bool {
    &&& new.entries() == old.entries()
    &&& new.vm_id_spec() == old.vm_id_spec()
    &&& !old.table_pas().contains(pa)
    &&& new.table_pas() == old.table_pas().push(pa)
    &&& new.table_contents() == old.table_contents().push(Seq::new(512, |i: int| 0u64))
    &&& new.table_levels() == old.table_levels().push(level)
}

/// The allocator's in-use pages grew by `page` alone.
pub open spec fn took_page<const B: usize>(
    old: &PageAllocator<B>,
    new: &PageAllocator<B>,
    page: int,
) -> bool {
    &&& new.managed_set() == old.managed_set()
    &&& new.ram_pages_spec() == old.ram_pages_spec()
    &&& old.state_of(page) == PageState::Unused
    &&& new.in_use_set() == old.in_use_set().insert(page)
}

/// The allocator is as it was.
pub open spec fn same_pages<const B: usize>(old: &PageAllocator<B>, new: &PageAllocator<B>) -> bool {
    &&& new.managed_set() == old.managed_set()
    &&& new.ram_pages_spec() == old.ram_pages_spec()
    &&& new.in_use_set() == old.in_use_set()
}

/// No table page can be taken: the VM is at its page limit, or no page of
/// `a` is unused.
pub open spec fn no_table_room<const B: usize>(vm: VmCtl, a: &PageAllocator<B>) -> bool {
    pages_sum(vm.entries(), vm.table_pas().len()) >= MAX_GUEST_MEM_PAGES || !(exists|s: int|
        a.free_run(s, 1))
}

/// The pages of `a` that are managed and not in use.
pub open spec fn unused_pages<const B: usize>(a: &PageAllocator<B>) -> Set<int> {
    a.managed_set().difference(a.in_use_set())
}

/// The pages that `pas[lo..hi]` name.
pub open spec fn named_pages(pas: Seq<u64>, lo: int, hi: int) -> Set<int> {
    Set::new(|p: int| exists|k: int| lo <= k < hi && (#[trigger] pas[k]) / 4096 == p)
}

/// A range of table addresses names at most as many pages as it is long.
proof fn lemma_named_pages_len(pas: Seq<u64>, lo: int, hi: int)
    requires
        lo <= hi,
    ensures
        named_pages(pas, lo, hi).finite(),
        named_pages(pas, lo, hi).len() <= hi - lo,
    decreases hi - lo,
{
    if lo == hi {
        assert(named_pages(pas, lo, hi) =~= Set::<int>::empty());
    } else {
        lemma_named_pages_len(pas, lo, hi - 1);
        assert(named_pages(pas, lo, hi) =~= named_pages(pas, lo, hi - 1).insert(
            (pas[hi - 1] / 4096) as int,
        )) by {
            assert forall|p: int| #[trigger] named_pages(pas, lo, hi).contains(p) implies named_pages(
                pas,
                lo,
                hi - 1,
            ).insert((pas[hi - 1] / 4096) as int).contains(p) by {
                let k = choose|k: int| lo <= k < hi && (#[trigger] pas[k]) / 4096 == p;
                if k < hi - 1 {
                    assert(named_pages(pas, lo, hi - 1).contains(p));
                }
            }
        }
    }
}

/// More table pages never make the VM's page total smaller.
proof fn lemma_pages_sum_mono(entries: Seq<VmMem>, t1: nat, t2: nat)
    requires
        t1 <= t2,
    ensures
        pages_sum(entries, t1) <= pages_sum(entries, t2),
    decreases entries.len(),
{
    if entries.len() > 0 {
        lemma_pages_sum_mono(entries.drop_last(), t1, t2);
    }
}

/// An allocator with an unused page has a free run of one page.
proof fn lemma_unused_gives_room<const B: usize>(a: &PageAllocator<B>)
    requires
        a.wf(),
        unused_pages(a).len() > 0,
    ensures
        exists|s: int| a.free_run(s, 1),
{
    a.lemma_wf();
    vstd::set_lib::lemma_set_empty_equivalency_len(unused_pages(a));
    let s = choose|s: int| unused_pages(a).contains(s);
    assert(a.free_run(s, 1)) by {
        assert forall|j: int| s <= j < s + 1 implies #[trigger] a.state_of(j) == PageState::Unused by {
            assert(j == s);
        }
    }
}

/// Taking table pages leaves all the unused pages but those taken.
proof fn lemma_taken_unused<const B: usize>(
    old_vm: VmCtl,
    new_vm: VmCtl,
    old_a: &PageAllocator<B>,
    new_a: &PageAllocator<B>,
)
    requires
        old_a.wf(),
        new_a.wf(),
        old_vm.table_pas().len() <= new_vm.table_pas().len(),
        took_table_pages(old_vm, new_vm, old_a, new_a),
    ensures
        unused_pages(old_a).len() <= unused_pages(new_a).len() + (new_vm.table_pas().len()
            - old_vm.table_pas().len()),
{
    old_a.lemma_wf();
    new_a.lemma_wf();
    let taken = new_table_pages(old_vm, new_vm);
    let lo = old_vm.table_pas().len() as int;
    let hi = new_vm.table_pas().len() as int;
    assert(taken =~= named_pages(new_vm.table_pas(), lo, hi));
    lemma_named_pages_len(new_vm.table_pas(), lo, hi);
    let before = unused_pages(old_a);
    let after = unused_pages(new_a);
    vstd::set_lib::lemma_len_subset(before, old_a.managed_set());
    vstd::set_lib::lemma_len_subset(after, new_a.managed_set());
    assert(before.subset_of(after.union(taken)));
    vstd::set_lib::lemma_len_union(after, taken);
    vstd::set_lib::lemma_len_subset(before, after.union(taken));
}

/// Allocators with the same pages in the same states have the same free runs.
proof fn lemma_same_pages_room<const B: usize>(a: &PageAllocator<B>, b: &PageAllocator<B>)
    requires
        same_pages(a, b),
    ensures
        (exists|s: int| a.free_run(s, 1)) == (exists|s: int| b.free_run(s, 1)),
{
    if exists|s: int| a.free_run(s, 1) {
        let s = choose|s: int| a.free_run(s, 1);
        assert(b.free_run(s, 1)) by {
            assert forall|j: int| s <= j < s + 1 implies #[trigger] b.state_of(j) == PageState::Unused by {
                assert(a.state_of(j) == PageState::Unused);
            }
        }
    }
    if exists|s: int| b.free_run(s, 1) {
        let s = choose|s: int| b.free_run(s, 1);
        assert(a.free_run(s, 1)) by {
            assert forall|j: int| s <= j < s + 1 implies #[trigger] a.state_of(j) == PageState::Unused by {
                assert(b.state_of(j) == PageState::Unused);
            }
        }
    }
}

impl VmCtl {
    /// Takes a zeroed table page of level `level` from `allocator`.
    fn vm_mem_alloc_sub_page_table<const B: usize>(
        &mut self,
        allocator: &mut PageAllocator<B>,
        Ghost(level): Ghost<int>,
    ) -> (r: Result<PhysAddr, AllocatorError>)
        requires
            old(self).wf(),
            old(allocator).wf(),
            old(self).backed_by(old(allocator)),
            aperture_fits::<B>(),
            level == 2 || level == 3,
        ensures
            final(self).wf(),
            final(allocator).wf(),
            final(self).backed_by(final(allocator)),
            match r {
                Ok(pa) => {
                    &&& table_added(*old(self), *final(self), pa@, level)
                    &&& took_page(old(allocator), final(allocator), (pa@ / 4096) as int)
                },
                Err(e) => {
                    &&& *final(self) == *old(self)
                    &&& same_pages(old(allocator), final(allocator))
                    &&& (e == AllocatorError::Exhausted || e == AllocatorError::Unexpected)
                },
            },
            pages_sum(old(self).entries(), old(self).table_pas().len()) >= MAX_GUEST_MEM_PAGES ==> r
                == Err::<PhysAddr, AllocatorError>(AllocatorError::Exhausted),
            pages_sum(old(self).entries(), old(self).table_pas().len()) < MAX_GUEST_MEM_PAGES
                && old(self).table_pas().len() == 0 ==> r == Err::<PhysAddr, AllocatorError>(
                AllocatorError::Unexpected,
            ),
            pages_sum(old(self).entries(), old(self).table_pas().len()) < MAX_GUEST_MEM_PAGES
                && old(self).table_pas().len() > 0 ==> (r is Ok <==> exists|s: int|
                old(allocator).free_run(s, 1)),
    {
        if self.allocated_physical_pages() >= MAX_GUEST_MEM_PAGES {
            return Err(AllocatorError::Exhausted);
        }
        if self.table_pages.len() == 0 {
            return Err(AllocatorError::Unexpected);
        }
        let phy = allocator.allocate()?;
        let ghost old_pas = self.table_pas();
        let ghost old_contents = self.table_contents();
        let ghost s: int = (phy@ / 4096) as int;
        proof {
            let s2 = choose|s2: int|
                #![trigger old(allocator).free_run(s2, 1)]
                {
                    &&& old(allocator).free_run(s2, 1)
                    &&& forall|s3: int| 0 <= s3 < s2 ==> !old(allocator).free_run(s3, 1)
                    &&& Ok::<PhysAddr, AllocatorError>(phy) == Ok::<PhysAddr, AllocatorError>(
                        PhysAddr::spec_new((s2 * PAGE_SIZE) as u64),
                    )
                    &&& allocator.in_use_set() == old(allocator).in_use_set().union(
                        Set::new(|j: int| s2 <= j < s2 + 1),
                    )
                };
            PhysAddr::lemma_spec_new((s2 * 4096) as u64);
            assert(s2 < PageAllocator::<B>::page_count());
            assert(phy@ == s2 * 4096);
            assert(s == s2);
            assert(old(allocator).free_run(s, 1));
            assert(old(allocator).state_of(s) == PageState::Unused);
            assert(old(allocator).in_use_set().insert(s) =~= old(allocator).in_use_set().union(
                Set::new(|j: int| s <= j < s + 1),
            ));
            if old_pas.contains(phy@) {
                let k = choose|k: int| 0 <= k < old_pas.len() && old_pas[k] == phy@;
                assert(self.owns_page(s));
            }
            lemma_pages_sum_more_tables(self.vm_mem@, self.table_pages@.len() as nat);
            assert forall|i: int| 0 <= i < self.vm_mem@.len() implies !entry_holds_page(
                #[trigger] self.vm_mem@[i],
                s,
            ) by {
                if entry_holds_page(self.vm_mem@[i], s) {
                    assert(self.owns_page(s));
                }
            }
        }
        self.table_pages.push(phy);
        self.tables.push(TablePage::zeroed());
        self.levels = Ghost(self.levels@.push(level));
        proof {
            assert(self.table_pas() =~= old_pas.push(phy@));
            assert(self.table_contents() =~= old_contents.push(Seq::new(512, |i: int| 0u64)));
            lemma_descriptor_bits();
            lemma_tree_push(old_contents, old(self).levels@, Seq::new(512, |i: int| 0u64), level);
            let pas = self.table_pas();
            let tables = self.table_contents();
            let levels = self.levels@;
            assert forall|t: int, i: int|
                0 <= t < tables.len() && 0 <= i < 512 && (levels[t] == 1 || levels[t] == 2)
                    && is_valid_entry(#[trigger] tables[t][i]) implies {
                &&& is_table_entry(tables[t][i])
                &&& index_of_page(pas, entry_address(tables[t][i])) matches Some(j)
                &&& levels[j] == levels[t] + 1
            } by {
                if t < old_pas.len() {
                    let j = index_of_page(old_pas, entry_address(tables[t][i]))->Some_0;
                    assert(pas[j] == old_pas[j]);
                    assert(index_of_page(pas, entry_address(tables[t][i])) == Some(j));
                }
            }
            assert forall|i: int, k: int|
                0 <= i < self.vm_mem@.len() && 0 <= k < self.table_pages@.len() implies !entry_holds_page(
                #[trigger] self.vm_mem@[i],
                ((#[trigger] self.table_pages@[k])@ / 4096) as int,
            ) by {
                if k < old_pas.len() {
                    assert(self.table_pages@[k] == old(self).table_pages@[k]);
                } else {
                    assert(self.table_pages@[k]@ == phy@);
                }
            }
            assert forall|p: int| #[trigger] self.owns_page(p) implies allocator.state_of(p)
                == PageState::InUse by {
                if p != s {
                    if exists|k: int| 0 <= k < pas.len() && (#[trigger] pas[k]) / 4096 == p {
                        let k = choose|k: int| 0 <= k < pas.len() && (#[trigger] pas[k]) / 4096 == p;
                        assert(k < old_pas.len());
                        assert(old_pas[k] / 4096 == p);
                    }
                    assert(old(self).owns_page(p));
                }
            }
        }
        Ok(phy)
    }
}

/// A link that a valid entry made stays in extended tables.
proof fn lemma_next_table_extends(
    pas: Seq<u64>,
    tables: Seq<Seq<u64>>,
    levels: Seq<int>,
    pas2: Seq<u64>,
    tables2: Seq<Seq<u64>>,
    levels2: Seq<int>,
    t: int,
    i: int,
)
    requires
        tables_wf(pas, tables, levels),
        tables_wf(pas2, tables2, levels2),
        tables_extend(pas, tables, levels, pas2, tables2, levels2),
        0 <= t < tables.len(),
        0 <= i < 512,
        next_table(pas, tables, t, i) is Some,
    ensures
        next_table(pas2, tables2, t, i) == next_table(pas, tables, t, i),
        levels2[next_table(pas, tables, t, i)->Some_0] == levels[next_table(pas, tables, t, i)->Some_0],
{
    let j = next_table(pas, tables, t, i)->Some_0;
    assert(pas2[j] == pas[j]);
    assert(levels2[j] == levels[j]);
}

/// Extension is transitive.
proof fn lemma_extend_trans(
    pas: Seq<u64>,
    tables: Seq<Seq<u64>>,
    levels: Seq<int>,
    pas2: Seq<u64>,
    tables2: Seq<Seq<u64>>,
    levels2: Seq<int>,
    pas3: Seq<u64>,
    tables3: Seq<Seq<u64>>,
    levels3: Seq<int>,
)
    requires
        tables_wf(pas, tables, levels),
        tables_wf(pas2, tables2, levels2),
        tables_wf(pas3, tables3, levels3),
        tables_extend(pas, tables, levels, pas2, tables2, levels2),
        tables_extend(pas2, tables2, levels2, pas3, tables3, levels3),
    ensures
        tables_extend(pas, tables, levels, pas3, tables3, levels3),
{
    assert(pas3.subrange(0, pas.len() as int) =~= pas2.subrange(0, pas.len() as int));
    assert(levels3.subrange(0, levels.len() as int) =~= levels2.subrange(0, levels.len() as int));
}

/// Extension is reflexive.
proof fn lemma_extend_refl(pas: Seq<u64>, tables: Seq<Seq<u64>>, levels: Seq<int>)
    ensures
        tables_extend(pas, tables, levels, pas, tables, levels),
{
    assert(pas.subrange(0, pas.len() as int) =~= pas);
    assert(levels.subrange(0, levels.len() as int) =~= levels);
}

impl VmCtl {
    /// The table that entry `index` of table `t` links to; where the entry is
    /// empty, a new table of the next level is taken from `allocator` and
    /// linked there.
    #[verifier::rlimit(40)]
    fn descend<const B: usize>(&mut self, allocator: &mut PageAllocator<B>, t: usize, index: usize) -> (r:
        Result<usize, TranslationError>)
        requires
            old(self).wf(),
            old(allocator).wf(),
            old(self).backed_by(old(allocator)),
            aperture_fits::<B>(),
            t < old(self).table_pas().len(),
            index < 512,
            old(self).table_levels()[t as int] == 1 || old(self).table_levels()[t as int] == 2,
        ensures
            final(self).wf(),
            final(allocator).wf(),
            final(self).backed_by(final(allocator)),
            final(self).entries() == old(self).entries(),
            final(self).vm_id_spec() == old(self).vm_id_spec(),
            tables_extend(
                old(self).table_pas(),
                old(self).table_contents(),
                old(self).table_levels(),
                final(self).table_pas(),
                final(self).table_contents(),
                final(self).table_levels(),
            ),
            took_table_pages(*old(self), *final(self), old(allocator), final(allocator)),
            match r {
                Ok(next) => {
                    &&& next_table(final(self).table_pas(), final(self).table_contents(), t as int, index as int)
                        == Some(next as int)
                    &&& final(self).table_levels()[next as int] == old(self).table_levels()[t as int] + 1
                    &&& is_valid_entry(old(self).table_contents()[t as int][index as int]) ==> {
                        &&& *final(self) == *old(self)
                        &&& same_pages(old(allocator), final(allocator))
                    }
                    &&& !is_valid_entry(old(self).table_contents()[t as int][index as int]) ==> {
                        &&& next == old(self).table_pas().len()
                        &&& final(self).table_pas().len() == old(self).table_pas().len() + 1
                        &&& final(self).table_contents()[next as int] == Seq::new(512, |i: int| 0u64)
                        &&& forall|u: int, i: int|
                            0 <= u < old(self).table_pas().len() && 0 <= i < 512 && !(u == t && i == index)
                                ==> #[trigger] final(self).table_contents()[u][i] == old(self).table_contents()[u][i]
                        &&& took_page(
                            old(allocator),
                            final(allocator),
                            (final(self).table_pas()[next as int] / 4096) as int,
                        )
                    }
                },
                Err(e) => {
                    &&& e == TranslationError::TableExhausted
                    &&& *final(self) == *old(self)
                    &&& same_pages(old(allocator), final(allocator))
                    &&& !is_valid_entry(old(self).table_contents()[t as int][index as int])
                    &&& no_table_room(*final(self), final(allocator))
                },
            },
    {
        proof {
            lemma_descriptor_bits();
            lemma_extend_refl(self.table_pas(), self.table_contents(), self.levels@);
        }
        let ghost level = self.levels@[t as int];
        let entry = self.tables[t].entries()[index];
        proof {
            assert(self.table_contents()[t as int] == self.tables@[t as int]@);
        }
        if entry & VALID != 0 {
            if entry & TABLE_OR_PAGE == 0 {
                return Err(TranslationError::ConflictingEntry);
            }
            let next = self.table_index(entry & ADDRESS_MASK);
            proof {
                assert(new_table_pages(*self, *self) =~= Set::<int>::empty());
                assert(allocator.in_use_set().union(Set::<int>::empty()) =~= allocator.in_use_set());
            }
            return Ok(next.unwrap());
        }
        let ghost old_pas = self.table_pas();
        let ghost old_contents = self.table_contents();
        let next_pa = match self.vm_mem_alloc_sub_page_table(allocator, Ghost(level + 1)) {
            Ok(page) => page.value(),
            Err(_) => {
                proof {
                    assert(new_table_pages(*self, *self) =~= Set::<int>::empty());
                    assert(allocator.in_use_set().union(Set::<int>::empty())
                        =~= allocator.in_use_set());
                    lemma_same_pages_room(old(allocator), allocator);
                }
                return Err(TranslationError::TableExhausted);
            },
        };
        let ghost mid_pas = self.table_pas();
        let ghost mid_contents = self.table_contents();
        let ghost mid_levels = self.levels@;
        let ghost mid_self = *self;
        let next = self.tables.len() - 1;
        proof {
            assert(mid_pas[next as int] == next_pa);
            assert(next_pa & 0xfff == next_pa % 4096) by {
                crate::page::lemma_low_bits();
            }
        }
        let mut page = self.tables[t];
        page.entries_mut()[index] = VALID | TABLE_OR_PAGE | (next_pa & ADDRESS_MASK);
        self.tables.set(t, page);
        proof {
            let pas = self.table_pas();
            let tables = self.table_contents();
            let levels = self.levels@;
            let d = table_descriptor(next_pa);
            assert(pas == mid_pas);
            assert(tables =~= mid_contents.update(t as int, mid_contents[t as int].update(index as int, d)));
            assert(index_of_page(pas, next_pa) == Some(next as int));
            assert(entry_address(d) == next_pa);
            assert forall|u: int, i: int|
                0 <= u < tables.len() && 0 <= i < 512 && (levels[u] == 1 || levels[u] == 2)
                    && is_valid_entry(#[trigger] tables[u][i]) implies {
                &&& is_table_entry(tables[u][i])
                &&& index_of_page(pas, entry_address(tables[u][i])) matches Some(j)
                &&& levels[j] == levels[u] + 1
            } by {
                if !(u == t && i == index) {
                    assert(tables[u][i] == mid_contents[u][i]);
                }
            }
            assert(tables_wf(pas, tables, levels));
            assert(mid_contents[t as int][index as int] == old_contents[t as int][index as int]);
            assert forall|t2: int, i2: int|
                0 <= t2 < mid_contents.len() && 0 <= i2 < 512 && (mid_levels[t2] == 1 || mid_levels[t2] == 2)
                    && is_valid_entry(#[trigger] mid_contents[t2][i2]) implies entry_address(
                mid_contents[t2][i2],
            ) != entry_address(d) by {
                if t2 < old_contents.len() {
                    assert(mid_contents[t2] == old_contents[t2]);
                    assert(mid_levels[t2] == old(self).levels@[t2]);
                    let j = index_of_page(old_pas, entry_address(old_contents[t2][i2]))->Some_0;
                    assert(old_pas[j] == entry_address(old_contents[t2][i2]));
                    assert(old_pas.contains(old_pas[j]));
                } else {
                    assert(mid_contents[t2] == Seq::new(512, |i: int| 0u64));
                }
            }
            lemma_tree_write(mid_contents, mid_levels, t as int, index as int, d);
            assert(pas.subrange(0, mid_pas.len() as int) =~= mid_pas);
            assert(levels.subrange(0, mid_levels.len() as int) =~= mid_levels);
            assert(tables_extend(mid_pas, mid_contents, mid_levels, pas, tables, levels));
            assert(self.entries() == mid_self.entries());
            assert forall|p: int| #[trigger] self.owns_page(p) implies allocator.state_of(p)
                == PageState::InUse by {
                assert(mid_self.owns_page(p));
            }
            assert(old_contents[t as int][index as int] == entry);
            assert(tables_extend(old_pas, old_contents, old(self).levels@, mid_pas, mid_contents, mid_levels)) by {
                assert(mid_pas.subrange(0, old_pas.len() as int) =~= old_pas);
                assert(mid_levels.subrange(0, old_pas.len() as int) =~= old(self).levels@);
            }
            lemma_extend_trans(
                old_pas,
                old_contents,
                old(self).levels@,
                mid_pas,
                mid_contents,
                mid_levels,
                pas,
                tables,
                levels,
            );
            assert(next_table(pas, tables, t as int, index as int) == Some(next as int));
            assert forall|u: int, i: int|
                0 <= u < old_pas.len() && 0 <= i < 512 && !(u == t && i == index) implies #[trigger] tables[u][i]
                == old_contents[u][i] by {
                assert(mid_contents[u] == old_contents[u]);
            }
            assert(new_table_pages(*old(self), *self) =~= set![(next_pa / 4096) as int]);
            assert(!old(allocator).in_use_set().contains((next_pa / 4096) as int));
            assert(old(allocator).in_use_set().union(set![(next_pa / 4096) as int])
                =~= old(allocator).in_use_set().insert((next_pa / 4096) as int));
        }
        Ok(next)
    }
}

/// The page numbers of the table pages that `new` holds beyond those of `old`.
pub open spec fn new_table_pages(old: VmCtl, new: VmCtl) -> Set<int> {
    Set::new(
        |p: int|
            exists|k: int|
                old.table_pas().len() <= k < new.table_pas().len() && (#[trigger] new.table_pas()[k])
                    / 4096 == p,
    )
}

/// The allocator gave out exactly the table pages that `new` holds beyond `old`.
pub open spec fn took_table_pages<const B: usize>(
    old: VmCtl,
    new: VmCtl,
    old_a: &PageAllocator<B>,
    new_a: &PageAllocator<B>,
) -> bool {
    &&& new_a.managed_set() == old_a.managed_set()
    &&& new_a.ram_pages_spec() == old_a.ram_pages_spec()
    &&& new_a.in_use_set() == old_a.in_use_set().union(new_table_pages(old, new))
    &&& new_table_pages(old, new).disjoint(old_a.in_use_set())
}

/// Taking table pages in two steps takes those of both.
proof fn lemma_took_table_pages_trans<const B: usize>(
    s0: VmCtl,
    s1: VmCtl,
    s2: VmCtl,
    a0: &PageAllocator<B>,
    a1: &PageAllocator<B>,
    a2: &PageAllocator<B>,
)
    requires
        took_table_pages(s0, s1, a0, a1),
        took_table_pages(s1, s2, a1, a2),
        s0.table_pas().len() <= s1.table_pas().len() <= s2.table_pas().len(),
        s2.table_pas().subrange(0, s1.table_pas().len() as int) == s1.table_pas(),
    ensures
        took_table_pages(s0, s2, a0, a2),
{
    assert forall|p: int| #[trigger] new_table_pages(s0, s1).contains(p) implies new_table_pages(
        s0,
        s2,
    ).contains(p) by {
        let k = choose|k: int|
            s0.table_pas().len() <= k < s1.table_pas().len() && (#[trigger] s1.table_pas()[k]) / 4096
                == p;
        assert(s2.table_pas()[k] == s1.table_pas()[k]);
    }
    assert forall|p: int| #[trigger] new_table_pages(s0, s2).contains(p) implies new_table_pages(
        s0,
        s1,
    ).contains(p) || new_table_pages(s1, s2).contains(p) by {
        let k = choose|k: int|
            s0.table_pas().len() <= k < s2.table_pas().len() && (#[trigger] s2.table_pas()[k]) / 4096
                == p;
        if k < s1.table_pas().len() {
            assert(s2.table_pas()[k] == s1.table_pas()[k]);
        }
    }
    assert(a2.in_use_set() =~= a0.in_use_set().union(new_table_pages(s0, s2)));
    assert forall|p: int| #[trigger] new_table_pages(s0, s2).contains(p) implies !a0.in_use_set().contains(p) by {
        if new_table_pages(s0, s1).contains(p) {
        } else {
            assert(new_table_pages(s1, s2).contains(p));
            assert(!a1.in_use_set().contains(p));
        }
    }
}

impl VmCtl {
    /// Maps the guest page at `ipa` to the physical page at `pa` at level 3,
    /// taking the level-2 and level-3 tables it needs from `allocator`.
    #[verifier::rlimit(60)]
    fn map_l3_page<const B: usize>(
        &mut self,
        allocator: &mut PageAllocator<B>,
        ipa: u64,
        pa: u64,
        mem_type: Stage2MemoryType,
        access: Stage2Access,
        exec: Stage2Exec,
    ) -> (r: Result<(), TranslationError>)
        requires
            old(self).wf(),
            old(allocator).wf(),
            old(self).backed_by(old(allocator)),
            aperture_fits::<B>(),
        ensures
            final(self).wf(),
            final(allocator).wf(),
            final(self).backed_by(final(allocator)),
            final(self).entries() == old(self).entries(),
            final(self).vm_id_spec() == old(self).vm_id_spec(),
            tables_extend(
                old(self).table_pas(),
                old(self).table_contents(),
                old(self).table_levels(),
                final(self).table_pas(),
                final(self).table_contents(),
                final(self).table_levels(),
            ),
            took_table_pages(*old(self), *final(self), old(allocator), final(allocator)),
            final(self).table_pas().len() <= old(self).table_pas().len() + 2,
            r is Ok ==> final(self).translation(ipa) == Some(page_descriptor(pa, mem_type, access, exec)),
            r is Ok ==> forall|ipa2: u64|
                !same_slot(ipa, ipa2) && old(self).translation(ipa2) is None
                    ==> #[trigger] final(self).translation(ipa2) is None,
            (r == Err::<(), TranslationError>(TranslationError::ConflictingEntry)) == (old(
                self,
            ).translation(ipa) matches Some(d) && d != page_descriptor(pa, mem_type, access, exec)),
            old(self).translation(ipa) is Some ==> *final(self) == *old(self),
            (r == Err::<(), TranslationError>(TranslationError::Unexpected)) == (old(
                self,
            ).table_pas().len() == 0),
            r == Err::<(), TranslationError>(TranslationError::TableExhausted) ==> old(self).translation(
                ipa,
            ) is None && no_table_room(*final(self), final(allocator)),
            r is Err ==> r == Err::<(), TranslationError>(TranslationError::ConflictingEntry) || r
                == Err::<(), TranslationError>(TranslationError::TableExhausted) || r == Err::<
                (),
                TranslationError,
            >(TranslationError::Unexpected),
    {
        proof {
            crate::page::lemma_mask_bounds();
            lemma_descriptor_bits();
            lemma_extend_refl(self.table_pas(), self.table_contents(), self.levels@);
            assert(new_table_pages(*self, *self) =~= Set::<int>::empty());
            assert(allocator.in_use_set().union(Set::<int>::empty()) =~= allocator.in_use_set());
        }
        let l1 = ((ipa >> 30u64) & 0x1ff) as usize;
        let l2 = ((ipa >> 21u64) & 0x1ff) as usize;
        let l3 = ((ipa >> 12u64) & 0x1ff) as usize;
        if self.table_pages.len() == 0 {
            return Err(TranslationError::Unexpected);
        }
        let ghost s0 = *self;
        let ghost a0 = *allocator;
        let t2 = match self.descend(allocator, 0, l1) {
            Ok(next) => next,
            Err(e) => return Err(e),
        };
        let ghost s1 = *self;
        let ghost a1 = *allocator;
        proof {
            assert(new_table_pages(s0, s1) =~= new_table_pages(s0, s1));
        }
        let t3 = match self.descend(allocator, t2, l2) {
            Ok(next) => next,
            Err(e) => {
                proof {
                    if is_valid_entry(s0.table_contents()[0][l1 as int]) {
                        assert(s1 == s0);
                    }
                    assert(self.table_pas().subrange(0, s1.table_pas().len() as int)
                        =~= s1.table_pas());
                    lemma_took_table_pages_trans(s0, s1, *self, &a0, &a1, allocator);
                }
                return Err(e);
            },
        };
        let ghost s2 = *self;
        proof {
            assert(s2.table_pas().subrange(0, s1.table_pas().len() as int) =~= s1.table_pas());
            lemma_took_table_pages_trans(s0, s1, s2, &a0, &a1, allocator);
        }
        let desc = encode_l3_page_descriptor(pa, mem_type, access, exec);
        let current = self.tables[t3].entries()[l3];
        proof {
            assert(s2.table_contents()[t3 as int] == self.tables@[t3 as int]@);
            lemma_extend_trans(
                s0.table_pas(), s0.table_contents(), s0.table_levels(),
                s1.table_pas(), s1.table_contents(), s1.table_levels(),
                s2.table_pas(), s2.table_contents(), s2.table_levels(),
            );
            lemma_next_table_extends(
                s1.table_pas(), s1.table_contents(), s1.table_levels(),
                s2.table_pas(), s2.table_contents(), s2.table_levels(),
                0, l1 as int,
            );
        }
        if current & VALID != 0 {
            proof {
                // Neither descent took a new table, whose entries would all be empty.
                if !is_valid_entry(s1.table_contents()[t2 as int][l2 as int]) {
                    assert(s2.table_contents()[t3 as int][l3 as int] == 0u64);
                }
                assert(s2 == s1);
                if !is_valid_entry(s0.table_contents()[0][l1 as int]) {
                    assert(s1.table_contents()[t2 as int] == Seq::new(512, |i: int| 0u64));
                    assert(s1.table_contents()[t2 as int][l2 as int] == 0u64);
                }
                assert(s1 == s0);
                assert(s0.translation(ipa) == Some(current));
            }
            if current != desc {
                return Err(TranslationError::ConflictingEntry);
            }
            return Ok(());
        }
        let mut page = self.tables[t3];
        page.entries_mut()[l3] = desc;
        self.tables.set(t3, page);
        proof {
            let pas = self.table_pas();
            let tables = self.table_contents();
            let levels = self.levels@;
            let c2 = s2.table_contents();
            assert(tables =~= c2.update(t3 as int, c2[t3 as int].update(l3 as int, desc)));
            assert(levels[t3 as int] == 3);
            assert(levels == s2.levels@);
            lemma_tree_write(c2, levels, t3 as int, l3 as int, desc);
            assert forall|u: int, i: int|
                0 <= u < tables.len() && 0 <= i < 512 && (levels[u] == 1 || levels[u] == 2)
                    && is_valid_entry(#[trigger] tables[u][i]) implies {
                &&& is_table_entry(tables[u][i])
                &&& index_of_page(pas, entry_address(tables[u][i])) matches Some(j)
                &&& levels[j] == levels[u] + 1
            } by {
                assert(u != t3);
                assert(tables[u][i] == c2[u][i]);
            }
            assert(tables_wf(pas, tables, levels));
            assert(pas.subrange(0, pas.len() as int) =~= pas);
            assert(levels.subrange(0, levels.len() as int) =~= levels);
            assert(tables_extend(s2.table_pas(), c2, s2.table_levels(), pas, tables, levels));
            lemma_extend_trans(
                s0.table_pas(), s0.table_contents(), s0.table_levels(),
                s2.table_pas(), s2.table_contents(), s2.table_levels(),
                pas, tables, levels,
            );
            lemma_next_table_extends(
                s2.table_pas(), s2.table_contents(), s2.table_levels(),
                pas, tables, levels,
                0, l1 as int,
            );
            lemma_next_table_extends(
                s2.table_pas(), s2.table_contents(), s2.table_levels(),
                pas, tables, levels,
                t2 as int, l2 as int,
            );
            assert(self.translation(ipa) == Some(desc));
            lemma_l3_frame(
                s0.table_pas(), s0.table_contents(), s0.table_levels(),
                s1.table_contents(), c2,
                pas, tables, levels,
                ipa, t2 as int, t3 as int, desc,
            );
            if s0.translation(ipa) is Some {
                assert(is_valid_entry(s0.table_contents()[0][l1 as int]));
                assert(s1 == s0);
                assert(is_valid_entry(s1.table_contents()[t2 as int][l2 as int]));
                assert(s2 == s1);
                assert(false);
            }
            assert(self.entries() == s2.entries());
            assert forall|p: int| #[trigger] self.owns_page(p) implies allocator.state_of(p)
                == PageState::InUse by {
                assert(s2.owns_page(p));
            }
            assert(s2.table_pas().subrange(0, s1.table_pas().len() as int) =~= s1.table_pas());
            lemma_took_table_pages_trans(s0, s1, s2, &a0, &a1, allocator);
            assert(new_table_pages(s0, *self) =~= new_table_pages(s0, s2));
        }
        Ok(())
    }
}

/// Why mapping the region for `usage` is refused before any page is mapped,
/// if it is: the usage has no region with both guest and physical memory,
/// the CPU's physical address range is unknown, the region does not fit
/// the guest or the physical address space, or there are no page tables.
pub open spec fn map_precheck(entries: Seq<VmMem>, usage: VmMemUsage, parange: u8) -> Option<
    TranslationError,
> {
    match entry_index(entries, usage) {
        Some(i) => match entries[i] {
            VmMem::IpaPa(m) => match pa_bits_of(parange) {
                None => Some(TranslationError::Unexpected),
                Some(bits) => if m.ipa@ + m.size > u64::MAX || m.pa@ + m.size > u64::MAX {
                    Some(TranslationError::AddressOverflow)
                } else if m.ipa@ + m.size - 1 > MAX_IPA {
                    Some(TranslationError::VirtualAddressOutOfRange)
                } else if m.pa@ + m.size - 1 > pow2_u64(bits) - 1 {
                    Some(TranslationError::PhysicalAddressOutOfRange)
                } else if !(exists|j: int| 0 <= j < entries.len() && #[trigger] entries[j] is PaOnly) {
                    Some(TranslationError::Unexpected)
                } else {
                    None
                },
            },
            _ => Some(TranslationError::InvalidateParameter),
        },
        None => Some(TranslationError::InvalidateParameter),
    }
}

impl VmCtl {
    /// The allocation for `usage`.
    fn find_entry(&self, usage: VmMemUsage) -> (r: Option<usize>)
        requires
            self.wf(),
        ensures
            r matches Some(i) ==> entry_index(self.entries(), usage) == Some(i as int),
            r is None ==> entry_index(self.entries(), usage) is None,
    {
        let mut i: usize = 0;
        while i < self.vm_mem.len()
            invariant
                i <= self.vm_mem@.len(),
                self.wf(),
                forall|k: int| 0 <= k < i ==> (#[trigger] self.vm_mem@[k]).usage_spec() != usage,
            decreases self.vm_mem@.len() - i,
        {
            if self.vm_mem[i].usage() == usage {
                proof {
                    let j = choose|j: int|
                        0 <= j < self.entries().len() && (#[trigger] self.entries()[j]).usage_spec()
                            == usage;
                    assert(self.entries()[i as int].usage_spec() == usage);
                    if j != i {
                        if j < i {
                            assert(self.vm_mem@[j].usage_spec() != self.vm_mem@[i as int].usage_spec());
                        } else {
                            assert(self.vm_mem@[i as int].usage_spec() != self.vm_mem@[j].usage_spec());
                        }
                    }
                }
                return Some(i);
            }
            i += 1;
        }
        None
    }

    /// Maps every page of the region for `usage` at stage 2 with the given
    /// attributes, on a CPU whose `ID_AA64MMFR0_EL1.PARange` is `parange`,
    /// taking the tables it needs from `allocator`. Pages are mapped in
    /// order; a conflict is reported for a page that already translated, to
    /// something else, before the call.
    pub fn map<const B: usize>(
        &mut self,
        allocator: &mut PageAllocator<B>,
        usage: VmMemUsage,
        mem_type: Stage2MemoryType,
        access: Stage2Access,
        exec: Stage2Exec,
        parange: u8,
    ) -> (r: Result<(), TranslationError>)
        requires
            old(self).wf(),
            old(allocator).wf(),
            old(self).backed_by(old(allocator)),
            aperture_fits::<B>(),
        ensures
            final(self).wf(),
            final(allocator).wf(),
            final(self).backed_by(final(allocator)),
            final(self).entries() == old(self).entries(),
            final(self).vm_id_spec() == old(self).vm_id_spec(),
            took_table_pages(*old(self), *final(self), old(allocator), final(allocator)),
            grew_with(*old(self), *final(self), old(allocator), final(allocator)),
            forall|ipa: u64| #[trigger]
                old(self).translation(ipa) is Some ==> final(self).translation(ipa) == old(
                    self,
                ).translation(ipa),
            map_precheck(old(self).entries(), usage, parange) matches Some(e) ==> r == Err::<
                (),
                TranslationError,
            >(e) && *final(self) == *old(self),
            r is Ok ==> map_precheck(old(self).entries(), usage, parange) is None && (
            old(self).entries()[entry_index(old(self).entries(), usage)->Some_0] matches VmMem::IpaPa(
                m,
            ) && forall|k: int|
                0 <= k < m.size / 4096 ==> final(self).translation(
                    #[trigger] ((m.ipa@ + k * 4096) as u64),
                ) == Some(page_descriptor((m.pa@ + k * 4096) as u64, mem_type, access, exec))),
            map_precheck(old(self).entries(), usage, parange) is None && r is Err ==> r == Err::<
                (),
                TranslationError,
            >(TranslationError::ConflictingEntry) || r == Err::<(), TranslationError>(
                TranslationError::TableExhausted,
            ),
            r == Err::<(), TranslationError>(TranslationError::TableExhausted) ==> no_table_room(
                *final(self),
                final(allocator),
            ),
            r == Err::<(), TranslationError>(TranslationError::TableExhausted) ==> (old(
                self,
            ).entries()[entry_index(old(self).entries(), usage)->Some_0] matches VmMem::IpaPa(m)
                && (pages_sum(
                old(self).entries(),
                (old(self).table_pas().len() + 2 * (m.size / 4096)) as nat,
            ) >= MAX_GUEST_MEM_PAGES || unused_pages(old(allocator)).len() <= 2 * (m.size / 4096))),
            r == Err::<(), TranslationError>(TranslationError::ConflictingEntry) ==> (old(
                self,
            ).entries()[entry_index(old(self).entries(), usage)->Some_0] matches VmMem::IpaPa(m)
                && exists|k: int|
                0 <= k < m.size / 4096 && (old(self).translation(
                    #[trigger] ((m.ipa@ + k * 4096) as u64),
                ) matches Some(d) && d != page_descriptor(
                    (m.pa@ + k * 4096) as u64,
                    mem_type,
                    access,
                    exec,
                ))),
    {
        proof {
            lemma_grew_with_nothing(*self, allocator);
            lemma_extend_refl(self.table_pas(), self.table_contents(), self.levels@);
            assert(new_table_pages(*self, *self) =~= Set::<int>::empty());
            assert(allocator.in_use_set().union(Set::<int>::empty()) =~= allocator.in_use_set());
        }
        let index = match self.find_entry(usage) {
            Some(i) => i,
            None => return Err(TranslationError::InvalidateParameter),
        };
        let mapping = match self.vm_mem[index] {
            VmMem::IpaPa(region) => region,
            _ => return Err(TranslationError::InvalidateParameter),
        };
        let pa_bits = match pa_bits_from_parange(parange) {
            Ok(bits) => bits,
            Err(_) => return Err(TranslationError::Unexpected),
        };
        assert(32 <= pa_bits <= 48 ==> 1u64 << pa_bits >= 1) by (bit_vector);
        assert(1u64 << pa_bits == pow2_u64(pa_bits));
        let max_pa = (1u64 << pa_bits) - 1;
        proof {
            assert(entry_shape_ok(self.vm_mem@[index as int]));
            assert(self.vm_mem@[index as int] == VmMem::IpaPa(mapping));
            PhysAddr::lemma_spec_new((mapping.pa@ + mapping.size) as u64);
            IpaAddr::lemma_spec_new((mapping.ipa@ + mapping.size) as u64);
        }
        let ipa_end = match mapping.ipa.checked_add(mapping.size as u64) {
            Some(end) => end.value(),
            None => return Err(TranslationError::AddressOverflow),
        };
        let pa_end = match mapping.pa.checked_add(mapping.size as u64) {
            Some(end) => end.value(),
            None => return Err(TranslationError::AddressOverflow),
        };
        if ipa_end - 1 > MAX_IPA {
            return Err(TranslationError::VirtualAddressOutOfRange);
        }
        if pa_end - 1 > max_pa {
            return Err(TranslationError::PhysicalAddressOutOfRange);
        }
        if self.table_pages.len() == 0 {
            return Err(TranslationError::Unexpected);
        }
        let ghost s0 = *self;
        let ghost a0 = *allocator;
        let ghost base_ipa = mapping.ipa@;
        let ghost base_pa = mapping.pa@;
        let mut current_ipa = mapping.ipa.value();
        let mut current_pa = mapping.pa.value();
        proof {
            PhysAddr::lemma_spec_new((base_pa + mapping.size) as u64);
            IpaAddr::lemma_spec_new((base_ipa + mapping.size) as u64);
            assert(entry_shape_ok(self.vm_mem@[index as int]));
        }
        while current_ipa < ipa_end
            invariant
                s0 == *old(self),
                a0 == *old(allocator),
                a0.wf(),
                s0.backed_by(&a0),
                map_precheck(s0.entries(), usage, parange) is None,
                entry_index(s0.entries(), usage) == Some(index as int),
                s0.entries()[index as int] == VmMem::IpaPa(mapping),
                base_ipa == mapping.ipa@,
                base_pa == mapping.pa@,
                self.table_pas().len() > 0,
                s0.wf(),
                self.wf(),
                allocator.wf(),
                self.backed_by(allocator),
                aperture_fits::<B>(),
                base_ipa % 4096 == 0,
                mapping.size % 4096 == 0,
                ipa_end == base_ipa + mapping.size,
                ipa_end <= MAX_IPA + 1,
                pa_end == base_pa + mapping.size,
                base_ipa <= current_ipa <= ipa_end,
                current_ipa % 4096 == 0,
                current_pa == base_pa + (current_ipa - base_ipa),
                self.table_pas().len() <= s0.table_pas().len() + 2 * ((current_ipa - base_ipa) / 4096),
                self.entries() == s0.entries(),
                self.vm_id_spec() == s0.vm_id_spec(),
                tables_extend(
                    s0.table_pas(),
                    s0.table_contents(),
                    s0.table_levels(),
                    self.table_pas(),
                    self.table_contents(),
                    self.table_levels(),
                ),
                took_table_pages(s0, *self, &a0, allocator),
                forall|k: int|
                    0 <= k < (current_ipa - base_ipa) / 4096 ==> self.translation(
                        #[trigger] ((base_ipa + k * 4096) as u64),
                    ) == Some(page_descriptor((base_pa + k * 4096) as u64, mem_type, access, exec)),
                forall|k: int|
                    (current_ipa - base_ipa) / 4096 <= k < mapping.size / 4096 ==> self.translation(
                        #[trigger] ((base_ipa + k * 4096) as u64),
                    ) == s0.translation((base_ipa + k * 4096) as u64),
            decreases ipa_end - current_ipa,
        {
            let ghost before = *self;
            let ghost a_before = *allocator;
            match self.map_l3_page(allocator, current_ipa, current_pa, mem_type, access, exec) {
                Ok(()) => {},
                Err(e) => {
                    proof {
                        lemma_extend_trans(
                            s0.table_pas(), s0.table_contents(), s0.table_levels(),
                            before.table_pas(), before.table_contents(), before.table_levels(),
                            self.table_pas(), self.table_contents(), self.table_levels(),
                        );
                        assert(self.table_pas().subrange(0, before.table_pas().len() as int)
                            =~= before.table_pas());
                        lemma_took_table_pages_trans(s0, before, *self, &a0, &a_before, allocator);
                        lemma_owned_with_tables(s0, *self, &a0, allocator);
                        assert forall|ipa: u64| #[trigger]
                            s0.translation(ipa) is Some implies self.translation(ipa)
                            == s0.translation(ipa) by {
                            lemma_walk_extends(
                                s0.table_pas(), s0.table_contents(), s0.table_levels(),
                                self.table_pas(), self.table_contents(), self.table_levels(),
                                ipa,
                            );
                        }
                        if e == TranslationError::TableExhausted {
                            let k = (current_ipa - base_ipa) / 4096;
                            let n = mapping.size / 4096;
                            assert(current_ipa == base_ipa + k * 4096);
                            assert(k + 1 <= n);
                            assert(self.table_pas().len() <= s0.table_pas().len() + 2 * n);
                            lemma_pages_sum_mono(
                                s0.entries(),
                                self.table_pas().len(),
                                (s0.table_pas().len() + 2 * n) as nat,
                            );
                            if !(exists|s: int| allocator.free_run(s, 1)) {
                                if unused_pages(allocator).len() > 0 {
                                    lemma_unused_gives_room(allocator);
                                }
                                lemma_taken_unused(s0, *self, &a0, allocator);
                            }
                        }
                        if e == TranslationError::ConflictingEntry {
                            let k = (current_ipa - base_ipa) / 4096;
                            assert(current_ipa == base_ipa + k * 4096);
                            assert(0 <= k < mapping.size / 4096);
                            assert(before.translation(((base_ipa + k * 4096) as u64)) == s0.translation(
                                ((base_ipa + k * 4096) as u64),
                            ));
                            assert(s0.translation(((base_ipa + k * 4096) as u64)) matches Some(d)
                                && d != page_descriptor(
                                ((base_pa + k * 4096) as u64),
                                mem_type,
                                access,
                                exec,
                            ));
                        }
                    }
                    return Err(e);
                },
            }
            proof {
                lemma_extend_trans(
                    s0.table_pas(), s0.table_contents(), s0.table_levels(),
                    before.table_pas(), before.table_contents(), before.table_levels(),
                    self.table_pas(), self.table_contents(), self.table_levels(),
                );
                assert(self.table_pas().subrange(0, before.table_pas().len() as int)
                    =~= before.table_pas());
                lemma_took_table_pages_trans(s0, before, *self, &a0, &a_before, allocator);
                let done = (current_ipa - base_ipa) / 4096;
                assert forall|k: int|
                    0 <= k < done + 1 implies self.translation(
                    #[trigger] ((base_ipa + k * 4096) as u64),
                ) == Some(page_descriptor((base_pa + k * 4096) as u64, mem_type, access, exec)) by {
                    if k < done {
                        lemma_walk_extends(
                            before.table_pas(), before.table_contents(), before.table_levels(),
                            self.table_pas(), self.table_contents(), self.table_levels(),
                            (base_ipa + k * 4096) as u64,
                        );
                    } else {
                        assert(k == done);
                        assert(current_ipa == base_ipa + k * 4096);
                    }
                }
                assert forall|k: int|
                    done + 1 <= k < mapping.size / 4096 implies self.translation(
                    #[trigger] ((base_ipa + k * 4096) as u64),
                ) == s0.translation((base_ipa + k * 4096) as u64) by {
                    let ipa_k = (base_ipa + k * 4096) as u64;
                    assert(before.translation(ipa_k) == s0.translation(ipa_k));
                    assert(current_ipa == base_ipa + done * 4096);
                    assert(base_ipa + k * 4096 < ipa_end);
                    assert(ipa_k == base_ipa + k * 4096);
                    assert(ipa_k % 4096 == 0);
                    lemma_pages_apart(current_ipa, ipa_k);
                    if s0.translation(ipa_k) is Some {
                        lemma_walk_extends(
                            before.table_pas(), before.table_contents(), before.table_levels(),
                            self.table_pas(), self.table_contents(), self.table_levels(),
                            ipa_k,
                        );
                    }
                }
            }
            proof {
                assert((current_ipa + 4096 - base_ipa) / 4096 == (current_ipa - base_ipa) / 4096 + 1);
            }
            current_ipa = current_ipa + 4096;
            current_pa = current_pa + 4096;
        }
        proof {
            assert forall|ipa: u64| #[trigger]
                s0.translation(ipa) is Some implies self.translation(ipa) == s0.translation(ipa) by {
                lemma_walk_extends(
                    s0.table_pas(), s0.table_contents(), s0.table_levels(),
                    self.table_pas(), self.table_contents(), self.table_levels(),
                    ipa,
                );
            }
            assert(current_ipa == ipa_end);
            lemma_owned_with_tables(s0, *self, &a0, allocator);
        }
        Ok(())
    }
}

// ----- Allocation -----

/// The guest range `[ipa, ipa + size)` shares an address with that of `e`.
pub open spec fn overlaps_entry(e: VmMem, ipa: u64, size: int) -> bool {
    match e.ipa_range_spec() {
        Some(range) => ipa < range.1 && range.0 < ipa + size,
        None => false,
    }
}

/// Why a guest range is refused, if it is: it must be non-empty and
/// page-aligned, must not wrap, must stay in the 39-bit guest address space,
/// and must not overlap a guest range already allocated.
pub open spec fn ipa_check(entries: Seq<VmMem>, ipa: u64, size: int) -> Option<AllocatorError> {
    if size == 0 || ipa % 4096 != 0 {
        Some(AllocatorError::InvalidIpa)
    } else if ipa + size > u64::MAX {
        Some(AllocatorError::AddressOverflow)
    } else if ipa + size - 1 > MAX_IPA {
        Some(AllocatorError::InvalidIpa)
    } else if exists|i: int| 0 <= i < entries.len() && overlaps_entry(#[trigger] entries[i], ipa, size) {
        Some(AllocatorError::OverlappingIpa)
    } else {
        None
    }
}

/// Why an allocation of `size` bytes for `usage` is refused before any
/// memory is taken, if it is: the size rounded up to pages must fit, the
/// usage must not have an allocation yet, a guest address must be given
/// exactly for the usages that have guest addresses, and that guest range
/// must be acceptable.
pub open spec fn alloc_check(
    entries: Seq<VmMem>,
    usage: VmMemUsage,
    ipa: Option<IpaAddr>,
    size: usize,
) -> Option<AllocatorError> {
    if size + 4095 > u64::MAX || page_ceil(size as int) > usize::MAX {
        Some(AllocatorError::AddressOverflow)
    } else if entry_index(entries, usage) is Some {
        Some(AllocatorError::AlreadyAllocated)
    } else if needs_ipa(usage) != (ipa is Some) {
        Some(AllocatorError::InvalidateParameter)
    } else {
        match ipa {
            Some(a) => ipa_check(entries, a@, page_ceil(size as int)),
            None => None,
        }
    }
}

/// The allocation record for `usage` at guest address `ipa` and physical
/// address `pa`, of `size` bytes.
pub open spec fn new_entry(usage: VmMemUsage, ipa: Option<IpaAddr>, pa: PhysAddr, size: usize) -> VmMem {
    if usage == VmMemUsage::PageTable {
        VmMem::PaOnly(usage)
    } else if usage == VmMemUsage::Guard {
        VmMem::IpaOnly(IpaOnlyRegion { usage, base: ipa->Some_0, size })
    } else {
        VmMem::IpaPa(IpaPaRegion { usage, ipa: ipa->Some_0, pa, size })
    }
}

/// Without a page-table allocation, the number of table pages does not count.
proof fn lemma_pages_sum_no_tables(entries: Seq<VmMem>, a: nat, b: nat)
    requires
        forall|i: int| 0 <= i < entries.len() ==> !(#[trigger] entries[i] is PaOnly),
    ensures
        pages_sum(entries, a) == pages_sum(entries, b),
    decreases entries.len(),
{
    if entries.len() > 0 {
        let rest = entries.drop_last();
        assert forall|i: int| 0 <= i < rest.len() implies !(#[trigger] rest[i] is PaOnly) by {
            assert(rest[i] == entries[i]);
        }
        lemma_pages_sum_no_tables(rest, a, b);
    }
}

impl VmCtl {
    fn validate_ipa_range(&self, ipa: IpaAddr, size: usize) -> (r: Result<(), AllocatorError>)
        requires
            self.wf(),
        ensures
            r == (match ipa_check(self.entries(), ipa@, size as int) {
                Some(e) => Err(e),
                None => Ok(()),
            }),
    {
        let start = ipa.value();
        proof {
            crate::page::lemma_low_bits();
        }
        if size == 0 || start & 0xfff != 0 {
            return Err(AllocatorError::InvalidIpa);
        }
        let end = match start.checked_add(size as u64) {
            Some(end) => end,
            None => return Err(AllocatorError::AddressOverflow),
        };
        if end - 1 > MAX_IPA {
            return Err(AllocatorError::InvalidIpa);
        }
        let mut i: usize = 0;
        while i < self.vm_mem.len()
            invariant
                i <= self.vm_mem@.len(),
                end == start + size,
                start == ipa@,
                size > 0,
                start % 4096 == 0,
                end - 1 <= MAX_IPA,
                forall|k: int| 0 <= k < i ==> !overlaps_entry(#[trigger] self.vm_mem@[k], start, size as int),
            decreases self.vm_mem@.len() - i,
        {
            match self.vm_mem[i].ipa_range() {
                Some((existing_start, existing_end)) => {
                    if start < existing_end && existing_start < end {
                        proof {
                            assert(overlaps_entry(self.vm_mem@[i as int], start, size as int));
                        }
                        return Err(AllocatorError::OverlappingIpa);
                    }
                },
                None => {},
            }
            i += 1;
        }
        Ok(())
    }
}

/// The table pages of a new page-table allocation of `pages` pages at `pa`.
pub open spec fn fresh_table_pas(pa: u64, pages: int) -> Seq<u64> {
    Seq::new(pages as nat, |k: int| (pa + k * 4096) as u64)
}

impl VmCtl {
    /// The size rounded up to whole pages, once the allocation passes the
    /// checks that come before any memory is taken.
    fn alloc_precheck(&self, usage: VmMemUsage, ipa: Option<IpaAddr>, size: usize) -> (r: Result<
        usize,
        AllocatorError,
    >)
        requires
            self.wf(),
        ensures
            r == (match alloc_check(self.entries(), usage, ipa, size) {
                Some(e) => Err(e),
                None => Ok(page_ceil(size as int) as usize),
            }),
            r is Ok ==> r->Ok_0 == page_ceil(size as int) && r->Ok_0 % 4096 == 0,
    {
        let aligned64 = match align_up(size as u64, PAGE_SIZE) {
            Some(v) => v,
            None => return Err(AllocatorError::AddressOverflow),
        };
        if aligned64 > usize::MAX as u64 {
            return Err(AllocatorError::AddressOverflow);
        }
        let size_aligned = aligned64 as usize;
        proof {
            crate::page::lemma_round_up(size as int, 4096);
        }
        if self.find_entry(usage).is_some() {
            return Err(AllocatorError::AlreadyAllocated);
        }
        let needs_guest_address = match usage {
            VmMemUsage::PageTable => false,
            _ => true,
        };
        if needs_guest_address && ipa.is_none() {
            return Err(AllocatorError::InvalidateParameter);
        }
        if !needs_guest_address && ipa.is_some() {
            return Err(AllocatorError::InvalidateParameter);
        }
        match ipa {
            Some(a) => match self.validate_ipa_range(a, size_aligned) {
                Ok(()) => {},
                Err(e) => return Err(e),
            },
            None => {},
        }
        Ok(size_aligned)
    }

    /// Allocates `size` bytes, rounded up to whole pages, for `usage`: guest
    /// addresses from `ipa` for every usage but the page tables, and zeroed
    /// physical memory taken from `allocator` for every usage but the guard.
    /// Returns the physical address of the memory (of the root table for the
    /// page tables), or `None` for the guard. The memory itself is not
    /// touched: whoever maps it clears it.
    #[verifier::rlimit(60)]
    pub fn vm_mem_alloc<const B: usize>(
        &mut self,
        allocator: &mut PageAllocator<B>,
        usage: VmMemUsage,
        ipa: Option<IpaAddr>,
        size: usize,
    ) -> (r: Result<Option<PhysAddr>, AllocatorError>)
        requires
            old(self).wf(),
            old(allocator).wf(),
            old(self).backed_by(old(allocator)),
            aperture_fits::<B>(),
        ensures
            final(self).wf(),
            final(allocator).wf(),
            final(self).backed_by(final(allocator)),
            grew_with(*old(self), *final(self), old(allocator), final(allocator)),
            final(self).vm_id_spec() == old(self).vm_id_spec(),
            alloc_check(old(self).entries(), usage, ipa, size) matches Some(e) ==> {
                &&& r == Err::<Option<PhysAddr>, AllocatorError>(e)
                &&& *final(self) == *old(self)
                &&& same_pages(old(allocator), final(allocator))
            },
            alloc_check(old(self).entries(), usage, ipa, size) is None && !needs_memory(usage) ==> {
                &&& r == Ok::<Option<PhysAddr>, AllocatorError>(None)
                &&& final(self).entries() == old(self).entries().push(
                    new_entry(usage, ipa, PhysAddr::spec_new(0), page_ceil(size as int) as usize),
                )
                &&& final(self).table_pas() == old(self).table_pas()
                &&& final(self).table_contents() == old(self).table_contents()
                &&& same_pages(old(allocator), final(allocator))
            },
            alloc_check(old(self).entries(), usage, ipa, size) is None && needs_memory(usage)
                && pages_sum(old(self).entries(), old(self).table_pas().len()) + page_ceil(size as int)
                / 4096 > MAX_GUEST_MEM_PAGES ==> {
                &&& r == Err::<Option<PhysAddr>, AllocatorError>(AllocatorError::Exhausted)
                &&& *final(self) == *old(self)
                &&& same_pages(old(allocator), final(allocator))
            },
            alloc_check(old(self).entries(), usage, ipa, size) is None && needs_memory(usage)
                && pages_sum(old(self).entries(), old(self).table_pas().len()) + page_ceil(size as int)
                / 4096 <= MAX_GUEST_MEM_PAGES ==> exists|got: Result<PhysAddr, AllocatorError>|
                #![trigger contiguous_allocated(old(allocator), final(allocator), page_ceil(size as int) / 4096, got)]
                {
                    &&& contiguous_allocated(
                        old(allocator),
                        final(allocator),
                        page_ceil(size as int) / 4096,
                        got,
                    )
                    &&& match got {
                        Err(e) => {
                            &&& r == Err::<Option<PhysAddr>, AllocatorError>(e)
                            &&& *final(self) == *old(self)
                        },
                        Ok(pa) => {
                            &&& r == Ok::<Option<PhysAddr>, AllocatorError>(Some(pa))
                            &&& final(self).entries() == old(self).entries().push(
                                new_entry(usage, ipa, pa, page_ceil(size as int) as usize),
                            )
                            &&& usage == VmMemUsage::PageTable ==> final(self).table_pas()
                                == fresh_table_pas(pa@, page_ceil(size as int) / 4096)
                            &&& usage != VmMemUsage::PageTable ==> final(self).table_pas() == old(
                                self,
                            ).table_pas() && final(self).table_contents() == old(self).table_contents()
                        },
                    }
                },
    {
        proof {
            lemma_grew_with_nothing(*self, allocator);
        }
        let size_aligned = match self.alloc_precheck(usage, ipa, size) {
            Ok(aligned) => aligned,
            Err(e) => return Err(e),
        };
        proof {
            crate::page::lemma_round_up(size as int, 4096);
            assert(entry_index(self.entries(), usage) is None);
            assert(needs_ipa(usage) == (ipa is Some));
        }
        let pages = size_aligned / 4096;
        if !usage.need_physical_memory() {
            let ghost before = *self;
            let region = IpaOnlyRegion { usage, base: ipa.unwrap(), size: size_aligned };
            self.vm_mem.push(VmMem::IpaOnly(region));
            proof {
                PhysAddr::lemma_spec_new(0);
                lemma_push_guard(before, *self, region);
                lemma_grew_with_same(before, *self, allocator, allocator);
            }
            return Ok(None);
        }
        let total = self.allocated_physical_pages();
        let sum = match total.checked_add(pages) {
            Some(x) => x,
            None => return Err(AllocatorError::AddressOverflow),
        };
        if sum > MAX_GUEST_MEM_PAGES {
            return Err(AllocatorError::Exhausted);
        }
        let ghost before = *self;
        let ghost a0 = *allocator;
        let phy = match allocator.allocate_contiguous(pages) {
            Ok(p) => p,
            Err(e) => {
                proof {
                    assert(contiguous_allocated(
                        old(allocator),
                        allocator,
                        page_ceil(size as int) / 4096,
                        Err::<PhysAddr, AllocatorError>(e),
                    ));
                    lemma_grew_with_same(before, *self, &a0, allocator);
                }
                return Err(e);
            },
        };
        let ghost run_start = lemma_allocated_run(&a0, allocator, pages as int, phy);
        proof {
            assert(contiguous_allocated(&a0, allocator, pages as int, Ok(phy)));
            assert(phy@ + pages * 4096 <= 0x1_0000_0000_0000);
        }
        if usage == VmMemUsage::PageTable {
            let mut k: usize = 0;
            while k < pages
                invariant
                    k <= pages,
                    self.vm_mem@ == before.vm_mem@,
                    self.vm_id == before.vm_id,
                    before.table_pages@.len() == 0,
                    before.tables@.len() == 0,
                    phy@ + pages * 4096 <= 0x1_0000_0000_0000,
                    self.table_pages@.len() == k,
                    self.tables@.len() == k,
                    self.levels@.len() == k,
                    forall|j: int| 0 <= j < k ==> (#[trigger] self.table_pages@[j])@ == phy@ + j * 4096,
                    forall|j: int| 0 <= j < k ==> (#[trigger] self.tables@[j])@ == Seq::new(
                        512,
                        |i: int| 0u64,
                    ),
                    forall|j: int| 0 <= j < k ==> #[trigger] self.levels@[j] == (if j == 0 {
                        1int
                    } else {
                        0int
                    }),
                decreases pages - k,
            {
                let page = PhysAddr::new(phy.value() + (k as u64) * 4096);
                self.table_pages.push(page);
                self.tables.push(TablePage::zeroed());
                self.levels = Ghost(self.levels@.push(if k == 0 {
                    1int
                } else {
                    0int
                }));
                k += 1;
            }
            let root = self.table_pages[0];
            self.vm_mem.push(VmMem::PaOnly(usage));
            proof {
                lemma_push_page_tables(before, *self, &a0, allocator, phy, pages as int);
                assert(root@ == phy@);
                PhysAddr::lemma_view_spec_new(root);
                PhysAddr::lemma_view_spec_new(phy);
                assert(root == phy);
                assert(contiguous_allocated(
                    old(allocator),
                    allocator,
                    page_ceil(size as int) / 4096,
                    Ok::<PhysAddr, AllocatorError>(phy),
                ));
            }
            return Ok(Some(root));
        }
        let region = IpaPaRegion { usage, ipa: ipa.unwrap(), pa: phy, size: size_aligned };
        self.vm_mem.push(VmMem::IpaPa(region));
        proof {
            lemma_push_memory(before, *self, &a0, allocator, region, pages as int);
            assert(contiguous_allocated(
                old(allocator),
                allocator,
                page_ceil(size as int) / 4096,
                Ok::<PhysAddr, AllocatorError>(phy),
            ));
        }
        Ok(Some(phy))
    }
}

/// Adding an entry that is not a page-table allocation keeps the page total
/// as the sum of the old total and the entry's pages.
proof fn lemma_pages_sum_push(entries: Seq<VmMem>, e: VmMem, n: nat)
    ensures
        pages_sum(entries.push(e), n) == pages_sum(entries, n) + entry_pages(e, n),
{
    assert(entries.push(e).drop_last() =~= entries);
}

/// A new guest range that overlaps none of the old ones keeps them apart.
proof fn lemma_ranges_apart_push(entries: Seq<VmMem>, e: VmMem)
    requires
        forall|i: int, j: int|
            0 <= i < entries.len() && 0 <= j < entries.len() && i != j && (
            #[trigger] entries[i]).ipa_range_spec() is Some && (
            #[trigger] entries[j]).ipa_range_spec() is Some ==> !ranges_overlap(
                entries[i].ipa_range_spec()->Some_0,
                entries[j].ipa_range_spec()->Some_0,
            ),
        e.ipa_range_spec() matches Some(range) ==> forall|i: int|
            0 <= i < entries.len() ==> !overlaps_entry(
                #[trigger] entries[i],
                range.0,
                range.1 - range.0,
            ),
    ensures
        forall|i: int, j: int|
            0 <= i < entries.push(e).len() && 0 <= j < entries.push(e).len() && i != j && (
            #[trigger] entries.push(e)[i]).ipa_range_spec() is Some && (
            #[trigger] entries.push(e)[j]).ipa_range_spec() is Some ==> !ranges_overlap(
                entries.push(e)[i].ipa_range_spec()->Some_0,
                entries.push(e)[j].ipa_range_spec()->Some_0,
            ),
{
    let all = entries.push(e);
    assert forall|i: int, j: int|
        0 <= i < all.len() && 0 <= j < all.len() && i != j && (#[trigger] all[i]).ipa_range_spec() is Some
            && (#[trigger] all[j]).ipa_range_spec() is Some implies !ranges_overlap(
        all[i].ipa_range_spec()->Some_0,
        all[j].ipa_range_spec()->Some_0,
    ) by {
        if i == entries.len() {
            assert(!overlaps_entry(entries[j], e.ipa_range_spec()->Some_0.0, e.ipa_range_spec()->Some_0.1 - e.ipa_range_spec()->Some_0.0));
        } else if j == entries.len() {
            assert(!overlaps_entry(entries[i], e.ipa_range_spec()->Some_0.0, e.ipa_range_spec()->Some_0.1 - e.ipa_range_spec()->Some_0.0));
        } else {
            assert(all[i] == entries[i] && all[j] == entries[j]);
        }
    }
}

/// Adding a guard region keeps the VM well formed and holding the same pages.
proof fn lemma_push_guard(before: VmCtl, after: VmCtl, region: IpaOnlyRegion)
    requires
        before.wf(),
        after.vm_mem@ == before.vm_mem@.push(VmMem::IpaOnly(region)),
        after.table_pages == before.table_pages,
        after.tables == before.tables,
        after.levels == before.levels,
        region.usage == VmMemUsage::Guard,
        entry_index(before.entries(), VmMemUsage::Guard) is None,
        ipa_check(before.entries(), region.base@, region.size as int) is None,
        region.size % 4096 == 0,
    ensures
        after.wf(),
        forall|p: int| after.owns_page(p) == before.owns_page(p),
{
    let e = VmMem::IpaOnly(region);
    let old_entries = before.vm_mem@;
    let entries = after.vm_mem@;
    assert forall|i: int| 0 <= i < old_entries.len() implies (#[trigger] old_entries[i]).usage_spec()
        != VmMemUsage::Guard by {
    }
    lemma_pages_sum_push(old_entries, e, before.table_pages@.len() as nat);
    assert(region.base@ + region.size <= u64::MAX);
    assert(e.ipa_range_spec() == Some((region.base@, (region.base@ + region.size) as u64)));
    lemma_ranges_apart_push(old_entries, e);
    assert(entries =~= old_entries.push(e));
    assert forall|i: int, j: int, p: int|
        0 <= i < entries.len() && 0 <= j < entries.len() && i != j && #[trigger] entry_holds_page(
            entries[i],
            p,
        ) implies !#[trigger] entry_holds_page(entries[j], p) by {
        if i < old_entries.len() && j < old_entries.len() {
            assert(entries[i] == old_entries[i] && entries[j] == old_entries[j]);
        }
    }
    assert forall|i: int, k: int|
        0 <= i < entries.len() && 0 <= k < after.table_pages@.len() implies !entry_holds_page(
        #[trigger] entries[i],
        ((#[trigger] after.table_pages@[k])@ / 4096) as int,
    ) by {
        if i < old_entries.len() {
            assert(entries[i] == old_entries[i]);
        }
    }
    assert((exists|i: int| 0 <= i < entries.len() && #[trigger] entries[i] is PaOnly) == (exists|i: int|
        0 <= i < old_entries.len() && #[trigger] old_entries[i] is PaOnly)) by {
        if exists|i: int| 0 <= i < entries.len() && #[trigger] entries[i] is PaOnly {
            let i = choose|i: int| 0 <= i < entries.len() && #[trigger] entries[i] is PaOnly;
            assert(old_entries[i] is PaOnly);
        }
        if exists|i: int| 0 <= i < old_entries.len() && #[trigger] old_entries[i] is PaOnly {
            let i = choose|i: int| 0 <= i < old_entries.len() && #[trigger] old_entries[i] is PaOnly;
            assert(entries[i] is PaOnly);
        }
    }
    assert(after.table_pas() == before.table_pas());
    assert(after.table_contents() == before.table_contents());
    assert forall|p: int| after.owns_page(p) == before.owns_page(p) by {
        assert forall|i: int| 0 <= i < entries.len() implies #[trigger] entry_holds_page(entries[i], p)
            == (i < old_entries.len() && entry_holds_page(old_entries[i], p)) by {
            if i < old_entries.len() {
                assert(entries[i] == old_entries[i]);
            }
        }
        if before.owns_page(p) {
            if exists|i: int| 0 <= i < old_entries.len() && entry_holds_page(#[trigger] old_entries[i], p) {
                let i = choose|i: int| 0 <= i < old_entries.len() && entry_holds_page(#[trigger] old_entries[i], p);
                assert(entry_holds_page(entries[i], p));
                assert(after.entries()[i] == entries[i]);
            }
        }
        if after.owns_page(p) {
            if exists|i: int| 0 <= i < entries.len() && entry_holds_page(#[trigger] entries[i], p) {
                let i = choose|i: int| 0 <= i < entries.len() && entry_holds_page(#[trigger] entries[i], p);
                assert(entry_holds_page(old_entries[i], p));
                assert(before.entries()[i] == old_entries[i]);
            }
        }
    }
}

/// The lowest free run that an allocation of `pages` pages returned at `pa`.
proof fn lemma_allocated_run<const B: usize>(
    a0: &PageAllocator<B>,
    a1: &PageAllocator<B>,
    pages: int,
    pa: PhysAddr,
) -> (s: int)
    requires
        contiguous_allocated(a0, a1, pages, Ok(pa)),
        aperture_fits::<B>(),
    ensures
        pages > 0,
        a0.free_run(s, pages),
        (s + pages) * 4096 <= 0x1_0000_0000_0000,
        pa@ == s * 4096,
        a1.in_use_set() == a0.in_use_set().union(Set::new(|j: int| s <= j < s + pages)),
        a1.managed_set() == a0.managed_set(),
        a1.ram_pages_spec() == a0.ram_pages_spec(),
{
    let s = choose|s: int|
        #![trigger a0.free_run(s, pages)]
        {
            &&& a0.free_run(s, pages)
            &&& forall|s2: int| 0 <= s2 < s ==> !a0.free_run(s2, pages)
            &&& Ok::<PhysAddr, AllocatorError>(pa) == Ok::<PhysAddr, AllocatorError>(
                PhysAddr::spec_new((s * PAGE_SIZE) as u64),
            )
            &&& a1.in_use_set() == a0.in_use_set().union(Set::new(|j: int| s <= j < s + pages))
        };
    assert(a0.free_run(s, pages));
    assert((s + pages) * 4096 <= PageAllocator::<B>::page_count() * 4096) by (nonlinear_arith)
        requires
            s + pages <= PageAllocator::<B>::page_count(),
    ;
    PhysAddr::lemma_spec_new((s * 4096) as u64);
    s
}

/// Adding guest memory taken fresh from the allocator keeps the VM well
/// formed and backed.
proof fn lemma_push_memory<const B: usize>(
    before: VmCtl,
    after: VmCtl,
    a0: &PageAllocator<B>,
    a1: &PageAllocator<B>,
    region: IpaPaRegion,
    pages: int,
)
    requires
        before.wf(),
        before.backed_by(a0),
        aperture_fits::<B>(),
        contiguous_allocated(a0, a1, pages, Ok(region.pa)),
        after.vm_mem@ == before.vm_mem@.push(VmMem::IpaPa(region)),
        after.table_pages == before.table_pages,
        after.tables == before.tables,
        after.levels == before.levels,
        region.usage != VmMemUsage::Guard,
        region.usage != VmMemUsage::PageTable,
        entry_index(before.entries(), region.usage) is None,
        ipa_check(before.entries(), region.ipa@, region.size as int) is None,
        region.size % 4096 == 0,
        pages == region.size / 4096,
        pages_sum(before.vm_mem@, before.table_pages@.len() as nat) + pages <= MAX_GUEST_MEM_PAGES,
    ensures
        after.wf(),
        after.backed_by(a1),
        grew_with(before, after, a0, a1),
{
    let s = lemma_allocated_run(a0, a1, pages, region.pa);
    assert((s + pages) * 4096 <= 0x1_0000_0000_0000) by (nonlinear_arith)
        requires
            s + pages <= PageAllocator::<B>::page_count(),
            PageAllocator::<B>::page_count() * 4096 <= 0x1_0000_0000_0000,
    ;
    let e = VmMem::IpaPa(region);
    let old_entries = before.vm_mem@;
    let entries = after.vm_mem@;
    assert(region.pa@ / 4096 == s);
    assert forall|p: int| s <= p < s + pages implies !before.owns_page(p) by {
        assert(a0.state_of(p) == PageState::Unused);
    }
    assert forall|i: int| 0 <= i < old_entries.len() implies (#[trigger] old_entries[i]).usage_spec()
        != region.usage by {
    }
    lemma_pages_sum_push(old_entries, e, before.table_pages@.len() as nat);
    lemma_ranges_apart_push(old_entries, e);
    assert forall|i: int, j: int, p: int|
        0 <= i < entries.len() && 0 <= j < entries.len() && i != j && #[trigger] entry_holds_page(
            entries[i],
            p,
        ) implies !#[trigger] entry_holds_page(entries[j], p) by {
        if i < old_entries.len() && j < old_entries.len() {
            assert(entries[i] == old_entries[i] && entries[j] == old_entries[j]);
        } else if i < old_entries.len() {
            assert(entries[i] == old_entries[i]);
            assert(before.owns_page(p));
        } else {
            assert(entries[j] == old_entries[j]);
            if entry_holds_page(entries[j], p) {
                assert(before.owns_page(p));
            }
        }
    }
    assert forall|i: int, k: int|
        0 <= i < entries.len() && 0 <= k < after.table_pages@.len() implies !entry_holds_page(
        #[trigger] entries[i],
        ((#[trigger] after.table_pages@[k])@ / 4096) as int,
    ) by {
        if i < old_entries.len() {
            assert(entries[i] == old_entries[i]);
        } else {
            let p = (after.table_pages@[k]@ / 4096) as int;
            assert(before.table_pas()[k] == after.table_pages@[k]@);
            assert(before.owns_page(p));
        }
    }
    assert(after.table_pas() == before.table_pas());
    assert(after.table_contents() == before.table_contents());
    assert(forall|i: int| 0 <= i < entries.len() ==> #[trigger] entries[i] is PaOnly ==> i < old_entries.len());
    assert forall|p: int| #[trigger] after.owns_page(p) implies a1.state_of(p) == PageState::InUse by {
        if s <= p < s + pages {
            assert(a1.in_use_set().contains(p));
            assert(a0.managed_set().contains(p)) by {
                assert(a0.state_of(p) == PageState::Unused);
            }
        } else {
            if exists|i: int| 0 <= i < entries.len() && entry_holds_page(#[trigger] entries[i], p) {
                let i = choose|i: int| 0 <= i < entries.len() && entry_holds_page(#[trigger] entries[i], p);
                assert(i < old_entries.len());
                assert(entries[i] == old_entries[i]);
            }
            assert(before.owns_page(p));
            assert(a0.in_use_set().contains(p));
        }
    }
    assert(after.table_pages@.len() == after.tables@.len());
    assert(tables_wf(after.table_pas(), after.table_contents(), after.levels@));
    assert(forall|i: int, j: int|
        0 <= i < j < entries.len() ==> (#[trigger] entries[i]).usage_spec()
            != (#[trigger] entries[j]).usage_spec());
    assert(forall|i: int| 0 <= i < entries.len() ==> entry_shape_ok(#[trigger] entries[i]));
    assert((exists|i: int| 0 <= i < entries.len() && #[trigger] entries[i] is PaOnly) == (exists|i: int|
        0 <= i < old_entries.len() && #[trigger] old_entries[i] is PaOnly)) by {
        if exists|i: int| 0 <= i < entries.len() && #[trigger] entries[i] is PaOnly {
            let i = choose|i: int| 0 <= i < entries.len() && #[trigger] entries[i] is PaOnly;
            assert(old_entries[i] is PaOnly);
        }
        if exists|i: int| 0 <= i < old_entries.len() && #[trigger] old_entries[i] is PaOnly {
            let i = choose|i: int| 0 <= i < old_entries.len() && #[trigger] old_entries[i] is PaOnly;
            assert(entries[i] is PaOnly);
        }
    }
    assert(pages_sum(entries, after.table_pages@.len() as nat) <= MAX_GUEST_MEM_PAGES);
    let run = Set::new(|j: int| s <= j < s + pages);
    assert forall|p: int| #[trigger] after.owned_pages().contains(p) == (before.owned_pages().contains(p)
        || run.contains(p)) by {
        if run.contains(p) {
            assert(entry_holds_page(entries[old_entries.len() as int], p));
        }
        if before.owns_page(p) {
            if exists|i: int| 0 <= i < old_entries.len() && entry_holds_page(#[trigger] old_entries[i], p) {
                let i = choose|i: int| 0 <= i < old_entries.len() && entry_holds_page(#[trigger] old_entries[i], p);
                assert(entries[i] == old_entries[i]);
            }
        }
        if after.owns_page(p) && !run.contains(p) {
            if exists|i: int| 0 <= i < entries.len() && entry_holds_page(#[trigger] entries[i], p) {
                let i = choose|i: int| 0 <= i < entries.len() && entry_holds_page(#[trigger] entries[i], p);
                assert(i < old_entries.len());
                assert(entries[i] == old_entries[i]);
            }
        }
    }
    assert(after.owned_pages().difference(before.owned_pages()) =~= run);
    assert forall|p: int| #[trigger] run.contains(p) implies !a0.in_use_set().contains(p) by {
        assert(a0.state_of(p) == PageState::Unused);
    }
    assert(a1.in_use_set() =~= a0.in_use_set().union(run));
    assert forall|p: int| #[trigger] before.owned_pages().contains(p) implies after.owned_pages().contains(p) by {
        assert(after.owned_pages().contains(p) == (before.owned_pages().contains(p) || run.contains(p)));
    }
    assert(run.disjoint(a0.in_use_set()));
}

/// Adding page tables taken fresh from the allocator keeps the VM well
/// formed and backed.
#[verifier::spinoff_prover]
#[verifier::rlimit(40)]
proof fn lemma_push_page_tables<const B: usize>(
    before: VmCtl,
    after: VmCtl,
    a0: &PageAllocator<B>,
    a1: &PageAllocator<B>,
    phy: PhysAddr,
    pages: int,
)
    requires
        before.wf(),
        before.backed_by(a0),
        aperture_fits::<B>(),
        contiguous_allocated(a0, a1, pages, Ok(phy)),
        after.vm_mem@ == before.vm_mem@.push(VmMem::PaOnly(VmMemUsage::PageTable)),
        after.vm_id == before.vm_id,
        entry_index(before.entries(), VmMemUsage::PageTable) is None,
        before.table_pages@.len() == 0,
        after.table_pages@.len() == pages,
        after.tables@.len() == pages,
        after.levels@.len() == pages,
        forall|j: int| 0 <= j < pages ==> (#[trigger] after.table_pages@[j])@ == phy@ + j * 4096,
        forall|j: int| 0 <= j < pages ==> (#[trigger] after.tables@[j])@ == Seq::new(512, |i: int| 0u64),
        forall|j: int| 0 <= j < pages ==> #[trigger] after.levels@[j] == (if j == 0 {
            1int
        } else {
            0int
        }),
        pages_sum(before.vm_mem@, 0) + pages <= MAX_GUEST_MEM_PAGES,
    ensures
        after.wf(),
        after.backed_by(a1),
        after.table_pas() == fresh_table_pas(phy@, pages),
        grew_with(before, after, a0, a1),
{
    let s = lemma_allocated_run(a0, a1, pages, phy);
    assert(tables_tree(after.table_contents(), after.levels@)) by {
        let c = after.table_contents();
        assert forall|t: int, i: int| 0 <= t < c.len() && 0 <= i < 512 implies !is_valid_entry(
            #[trigger] c[t][i],
        ) by {
            assert(c[t] == after.tables@[t]@);
            assert(c[t][i] == 0u64);
            lemma_descriptor_bits();
        }
        lemma_tree_zero(c, after.levels@);
    }
    assert((s + pages) * 4096 <= 0x1_0000_0000_0000) by (nonlinear_arith)
        requires
            s + pages <= PageAllocator::<B>::page_count(),
            PageAllocator::<B>::page_count() * 4096 <= 0x1_0000_0000_0000,
    ;
    let e = VmMem::PaOnly(VmMemUsage::PageTable);
    let old_entries = before.vm_mem@;
    let entries = after.vm_mem@;
    let pas = after.table_pas();
    let tables = after.table_contents();
    let levels = after.levels@;
    assert(pas =~= fresh_table_pas(phy@, pages));
    assert forall|p: int| s <= p < s + pages implies !before.owns_page(p) by {
        assert(a0.state_of(p) == PageState::Unused);
    }
    assert forall|i: int| 0 <= i < old_entries.len() implies !(#[trigger] old_entries[i] is PaOnly) by {
        assert(entry_shape_ok(old_entries[i]));
        if old_entries[i] is PaOnly {
            assert(old_entries[i].usage_spec() == VmMemUsage::PageTable);
        }
    }
    lemma_pages_sum_push(old_entries, e, pages as nat);
    lemma_pages_sum_no_tables(old_entries, pages as nat, 0);
    lemma_ranges_apart_push(old_entries, e);
    lemma_descriptor_bits();
    assert forall|t: int, i: int|
        0 <= t < tables.len() && 0 <= i < 512 && (levels[t] == 1 || levels[t] == 2)
            && is_valid_entry(#[trigger] tables[t][i]) implies {
        &&& is_table_entry(tables[t][i])
        &&& index_of_page(pas, entry_address(tables[t][i])) matches Some(j)
        &&& levels[j] == levels[t] + 1
    } by {
        assert(tables[t][i] == 0u64);
    }
    assert forall|i: int| 0 <= i < pas.len() implies (#[trigger] pas[i]) % 4096 == 0 && pas[i]
        < 0x1_0000_0000_0000 by {
        assert(pas[i] == s * 4096 + i * 4096);
        assert((s + i) * 4096 < (s + pages) * 4096) by (nonlinear_arith)
            requires
                i < pages,
        ;
    }
    assert(tables_wf(pas, tables, levels));
    assert forall|i: int, j: int, p: int|
        0 <= i < entries.len() && 0 <= j < entries.len() && i != j && #[trigger] entry_holds_page(
            entries[i],
            p,
        ) implies !#[trigger] entry_holds_page(entries[j], p) by {
        if i < old_entries.len() && j < old_entries.len() {
            assert(entries[i] == old_entries[i] && entries[j] == old_entries[j]);
        }
    }
    assert forall|i: int, k: int|
        0 <= i < entries.len() && 0 <= k < after.table_pages@.len() implies !entry_holds_page(
        #[trigger] entries[i],
        ((#[trigger] after.table_pages@[k])@ / 4096) as int,
    ) by {
        if i < old_entries.len() {
            assert(entries[i] == old_entries[i]);
            let p = (after.table_pages@[k]@ / 4096) as int;
            assert(p == s + k);
            if entry_holds_page(entries[i], p) {
                assert(before.owns_page(p));
            }
        }
    }
    assert(entries[old_entries.len() as int] is PaOnly);
    assert forall|p: int| #[trigger] after.owns_page(p) implies a1.state_of(p) == PageState::InUse by {
        if s <= p < s + pages {
            assert(a1.in_use_set().contains(p));
            assert(a0.managed_set().contains(p)) by {
                assert(a0.state_of(p) == PageState::Unused);
            }
        } else {
            if exists|i: int| 0 <= i < entries.len() && entry_holds_page(#[trigger] entries[i], p) {
                let i = choose|i: int| 0 <= i < entries.len() && entry_holds_page(#[trigger] entries[i], p);
                assert(i < old_entries.len());
                assert(entries[i] == old_entries[i]);
                assert(before.owns_page(p));
            } else {
                let k = choose|k: int| 0 <= k < pas.len() && (#[trigger] pas[k]) / 4096 == p;
                assert(pas[k] / 4096 == s + k);
            }
            assert(a0.in_use_set().contains(p));
        }
    }
    let run = Set::new(|j: int| s <= j < s + pages);
    assert forall|p: int| #[trigger] after.owned_pages().contains(p) == (before.owned_pages().contains(p)
        || run.contains(p)) by {
        if run.contains(p) {
            assert(pas[p - s] / 4096 == p);
        }
        if before.owns_page(p) {
            if exists|i: int| 0 <= i < old_entries.len() && entry_holds_page(#[trigger] old_entries[i], p) {
                let i = choose|i: int| 0 <= i < old_entries.len() && entry_holds_page(#[trigger] old_entries[i], p);
                assert(entries[i] == old_entries[i]);
            }
        }
        if after.owns_page(p) && !run.contains(p) {
            if exists|i: int| 0 <= i < entries.len() && entry_holds_page(#[trigger] entries[i], p) {
                let i = choose|i: int| 0 <= i < entries.len() && entry_holds_page(#[trigger] entries[i], p);
                assert(i < old_entries.len());
                assert(entries[i] == old_entries[i]);
            } else {
                let k = choose|k: int| 0 <= k < pas.len() && (#[trigger] pas[k]) / 4096 == p;
                assert(pas[k] / 4096 == s + k);
            }
        }
    }
    assert(after.owned_pages().difference(before.owned_pages()) =~= run);
    assert forall|p: int| #[trigger] run.contains(p) implies !a0.in_use_set().contains(p) by {
        assert(a0.state_of(p) == PageState::Unused);
    }
    assert(a1.in_use_set() =~= a0.in_use_set().union(run));
    assert forall|p: int| #[trigger] before.owned_pages().contains(p) implies after.owned_pages().contains(p) by {
        assert(after.owned_pages().contains(p) == (before.owned_pages().contains(p) || run.contains(p)));
    }
    assert(run.disjoint(a0.in_use_set()));
}

// ----- Release -----

/// Page `p` is one of the pages of allocation `e`, the table pages `tables`
/// being those of the page-table allocation.
pub open spec fn entry_page(e: VmMem, tables: Seq<u64>, p: int) -> bool {
    match e {
        VmMem::IpaPa(_) => entry_holds_page(e, p),
        VmMem::PaOnly(_) => exists|k: int| 0 <= k < tables.len() && (#[trigger] tables[k]) / 4096 == p,
        VmMem::IpaOnly(_) => false,
    }
}

/// The pages of the first `n` allocations.
pub open spec fn pages_of_first(entries: Seq<VmMem>, tables: Seq<u64>, n: int) -> Set<int> {
    Set::new(|p: int| exists|j: int| 0 <= j < n && #[trigger] entry_page(entries[j], tables, p))
}

impl VmCtl {
    /// The page numbers of every page this VM holds.
    pub open spec fn owned_pages(&self) -> Set<int> {
        Set::new(|p: int| self.owns_page(p))
    }
}

/// The allocator's in-use pages grew by exactly the pages that the VM newly
/// holds, none of which were in use before, and the VM kept every page it held.
pub open spec fn grew_with<const B: usize>(
    old_vm: VmCtl,
    new_vm: VmCtl,
    old_a: &PageAllocator<B>,
    new_a: &PageAllocator<B>,
) -> bool {
    &&& new_a.managed_set() == old_a.managed_set()
    &&& new_a.ram_pages_spec() == old_a.ram_pages_spec()
    &&& old_vm.owned_pages().subset_of(new_vm.owned_pages())
    &&& new_a.in_use_set() == old_a.in_use_set().union(
        new_vm.owned_pages().difference(old_vm.owned_pages()),
    )
    &&& new_vm.owned_pages().difference(old_vm.owned_pages()).disjoint(old_a.in_use_set())
}

/// Changing nothing grows nothing.
proof fn lemma_grew_with_nothing<const B: usize>(vm: VmCtl, a: &PageAllocator<B>)
    ensures
        grew_with(vm, vm, a, a),
{
    lemma_grew_with_same(vm, vm, a, a);
}

/// A VM that holds the same pages, beside an allocator with the same pages,
/// grew by nothing.
proof fn lemma_grew_with_same<const B: usize>(
    old_vm: VmCtl,
    new_vm: VmCtl,
    old_a: &PageAllocator<B>,
    new_a: &PageAllocator<B>,
)
    requires
        forall|p: int| new_vm.owns_page(p) == old_vm.owns_page(p),
        same_pages(old_a, new_a),
    ensures
        grew_with(old_vm, new_vm, old_a, new_a),
{
    assert(new_vm.owned_pages() =~= old_vm.owned_pages());
    assert(new_vm.owned_pages().difference(old_vm.owned_pages()) =~= Set::<int>::empty());
    assert(old_a.in_use_set().union(Set::<int>::empty()) =~= old_a.in_use_set());
}

/// Adding table pages to a VM adds exactly their page numbers to what it holds.
proof fn lemma_owned_with_tables<const B: usize>(
    old_vm: VmCtl,
    new_vm: VmCtl,
    old_a: &PageAllocator<B>,
    new_a: &PageAllocator<B>,
)
    requires
        old_vm.wf(),
        old_vm.backed_by(old_a),
        new_vm.entries() == old_vm.entries(),
        old_vm.table_pas().len() <= new_vm.table_pas().len(),
        new_vm.table_pas().subrange(0, old_vm.table_pas().len() as int) == old_vm.table_pas(),
        took_table_pages(old_vm, new_vm, old_a, new_a),
    ensures
        grew_with(old_vm, new_vm, old_a, new_a),
{
    let olds = old_vm.table_pas();
    let news = new_vm.table_pas();
    assert forall|p: int| new_vm.owned_pages().contains(p) == (old_vm.owned_pages().contains(p)
        || new_table_pages(old_vm, new_vm).contains(p)) by {
        if new_vm.owns_page(p) && !old_vm.owns_page(p) {
            if exists|k: int| 0 <= k < news.len() && (#[trigger] news[k]) / 4096 == p {
                let k = choose|k: int| 0 <= k < news.len() && (#[trigger] news[k]) / 4096 == p;
                if k < olds.len() {
                    assert(olds[k] == news[k]);
                }
            }
        }
        if old_vm.owns_page(p) {
            if exists|k: int| 0 <= k < olds.len() && (#[trigger] olds[k]) / 4096 == p {
                let k = choose|k: int| 0 <= k < olds.len() && (#[trigger] olds[k]) / 4096 == p;
                assert(news[k] == olds[k]);
            }
        }
        if new_table_pages(old_vm, new_vm).contains(p) {
            let k = choose|k: int| olds.len() <= k < news.len() && (#[trigger] news[k]) / 4096 == p;
            assert(news[k] / 4096 == p);
        }
    }
    assert forall|p: int| #[trigger] new_table_pages(old_vm, new_vm).contains(p) implies !old_vm.owned_pages().contains(p) by {
        assert(!old_a.in_use_set().contains(p));
    }
    assert(new_vm.owned_pages().difference(old_vm.owned_pages()) =~= new_table_pages(old_vm, new_vm));
}

/// The pages of all allocations are those the VM holds.
proof fn lemma_owned_is_all_entries(vm: VmCtl)
    requires
        vm.wf(),
    ensures
        pages_of_first(vm.entries(), vm.table_pas(), vm.entries().len() as int) == vm.owned_pages(),
{
    let entries = vm.entries();
    let tables = vm.table_pas();
    assert forall|p: int| pages_of_first(entries, tables, entries.len() as int).contains(p)
        == vm.owned_pages().contains(p) by {
        if pages_of_first(entries, tables, entries.len() as int).contains(p) {
            let j = choose|j: int| 0 <= j < entries.len() && #[trigger] entry_page(entries[j], tables, p);
            if entries[j] is IpaPa {
                assert(entry_holds_page(entries[j], p));
            } else {
                let k = choose|k: int| 0 <= k < tables.len() && (#[trigger] tables[k]) / 4096 == p;
                assert(tables[k] / 4096 == p);
            }
        }
        if vm.owns_page(p) {
            if exists|i: int| 0 <= i < entries.len() && entry_holds_page(#[trigger] entries[i], p) {
                let i = choose|i: int| 0 <= i < entries.len() && entry_holds_page(#[trigger] entries[i], p);
                assert(entry_page(entries[i], tables, p));
            } else {
                let k = choose|k: int| 0 <= k < tables.len() && (#[trigger] tables[k]) / 4096 == p;
                let j = choose|j: int| 0 <= j < entries.len() && #[trigger] entries[j] is PaOnly;
                assert(entry_page(entries[j], tables, p));
            }
        }
    }
    assert(pages_of_first(entries, tables, entries.len() as int) =~= vm.owned_pages());
}

impl VmCtl {
    /// Returns every page of VM memory, guest memory and table pages alike,
    /// to `allocator`, and forgets all allocations.
    #[verifier::rlimit(60)]
    pub fn release_all<const B: usize>(&mut self, allocator: &mut PageAllocator<B>)
        requires
            old(self).wf(),
            old(allocator).wf(),
            old(self).backed_by(old(allocator)),
        ensures
            final(self).wf(),
            final(allocator).wf(),
            final(self).vm_id_spec() == old(self).vm_id_spec(),
            final(self).entries() == Seq::<VmMem>::empty(),
            final(self).table_pas() == Seq::<u64>::empty(),
            final(allocator).managed_set() == old(allocator).managed_set(),
            final(allocator).ram_pages_spec() == old(allocator).ram_pages_spec(),
            final(allocator).in_use_set() == old(allocator).in_use_set().difference(
                old(self).owned_pages(),
            ),
    {
        let ghost entries = self.vm_mem@;
        let ghost tables = self.table_pas();
        let ghost a0 = *allocator;
        proof {
            assert(pages_of_first(entries, tables, 0) =~= Set::<int>::empty());
            assert(a0.in_use_set().difference(Set::<int>::empty()) =~= a0.in_use_set());
        }
        let mut i: usize = 0;
        while i < self.vm_mem.len()
            invariant
                i <= entries.len(),
                self.vm_mem@ == entries,
                self.table_pas() == tables,
                self.wf(),
                *old(self) == *self,
                a0 == *old(allocator),
                old(self).backed_by(&a0),
                allocator.wf(),
                allocator.managed_set() == a0.managed_set(),
                allocator.ram_pages_spec() == a0.ram_pages_spec(),
                allocator.in_use_set() == a0.in_use_set().difference(pages_of_first(entries, tables, i as int)),
            decreases entries.len() - i,
        {
            let ghost before = allocator.in_use_set();
            match self.vm_mem[i] {
                VmMem::IpaOnly(_) => {},
                VmMem::IpaPa(region) => {
                    let start = region.pa.value();
                    let pages = region.size / 4096;
                    let mut page: usize = 0;
                    while page < pages
                        invariant
                            page <= pages,
                            i < entries.len(),
                            entries[i as int] == VmMem::IpaPa(region),
                            start == region.pa@,
                            pages == region.size / 4096,
                            self.vm_mem@ == entries,
                            self.table_pas() == tables,
                            self.wf(),
                            *old(self) == *self,
                            a0 == *old(allocator),
                            old(self).backed_by(&a0),
                            allocator.wf(),
                            allocator.managed_set() == a0.managed_set(),
                            allocator.ram_pages_spec() == a0.ram_pages_spec(),
                            before == a0.in_use_set().difference(pages_of_first(entries, tables, i as int)),
                            allocator.in_use_set() == before.difference(
                                Set::new(|p: int| start / 4096 <= p < start / 4096 + page),
                            ),
                        decreases pages - page,
                    {
                        proof {
                            assert(entry_shape_ok(entries[i as int]));
                        }
                        let pa = PhysAddr::new(start + (page as u64) * 4096);
                        let ghost n = start / 4096 + page;
                        proof {
                            assert(pa@ / 4096 == n);
                            assert(entry_holds_page(entries[i as int], n));
                            assert(old(self).entries()[i as int] == entries[i as int]);
                            assert(old(self).owns_page(n));
                            assert(a0.in_use_set().contains(n));
                            assert forall|j: int| 0 <= j < i implies !#[trigger] entry_page(entries[j], tables, n) by {
                                if entries[j] is IpaPa {
                                    assert(entry_holds_page(entries[j], n) ==> !entry_holds_page(entries[i as int], n));
                                } else if entries[j] is PaOnly {
                                    if exists|k: int| 0 <= k < tables.len() && (#[trigger] tables[k]) / 4096 == n {
                                        let k = choose|k: int| 0 <= k < tables.len() && (#[trigger] tables[k]) / 4096 == n;
                                        assert(self.table_pages@[k]@ == tables[k]);
                                    }
                                }
                            }
                            assert(allocator.in_use_set().contains(n));
                            allocator.lemma_in_use_in_aperture();
                        }
                        let _ = allocator.free(pa);
                        proof {
                            assert(allocator.in_use_set() =~= before.difference(
                                Set::new(|p: int| start / 4096 <= p < start / 4096 + page + 1),
                            ));
                        }
                        page += 1;
                    }
                    proof {
                        assert(page == pages);
                        assert forall|p: int| pages_of_first(entries, tables, i + 1).contains(p)
                            == (pages_of_first(entries, tables, i as int).contains(p) || (start / 4096 <= p
                            < start / 4096 + pages)) by {
                            if pages_of_first(entries, tables, i + 1).contains(p) {
                                let j = choose|j: int| 0 <= j < i + 1 && #[trigger] entry_page(entries[j], tables, p);
                                if j < i {
                                    assert(pages_of_first(entries, tables, i as int).contains(p));
                                }
                            }
                            if start / 4096 <= p < start / 4096 + pages {
                                assert(entry_page(entries[i as int], tables, p));
                            }
                        }
                        assert(allocator.in_use_set() =~= before.difference(
                            Set::new(|p: int| start / 4096 <= p < start / 4096 + pages),
                        ));
                        assert forall|p: int| #[trigger] allocator.in_use_set().contains(p)
                            == a0.in_use_set().difference(pages_of_first(entries, tables, i + 1)).contains(p) by {
                            assert(pages_of_first(entries, tables, i + 1).contains(p)
                                == (pages_of_first(entries, tables, i as int).contains(p) || (start / 4096 <= p
                                < start / 4096 + pages)));
                        }
                        assert(allocator.in_use_set() =~= a0.in_use_set().difference(
                            pages_of_first(entries, tables, i + 1),
                        ));
                    }
                },
                VmMem::PaOnly(_) => {
                    let mut k: usize = 0;
                    while k < self.table_pages.len()
                        invariant
                            k <= tables.len(),
                            i < entries.len(),
                            entries[i as int] is PaOnly,
                            self.vm_mem@ == entries,
                            self.table_pas() == tables,
                            self.table_pages@.len() == tables.len(),
                            self.wf(),
                            *old(self) == *self,
                            a0 == *old(allocator),
                            old(self).backed_by(&a0),
                            allocator.wf(),
                            allocator.managed_set() == a0.managed_set(),
                            allocator.ram_pages_spec() == a0.ram_pages_spec(),
                            before == a0.in_use_set().difference(pages_of_first(entries, tables, i as int)),
                            allocator.in_use_set() == before.difference(
                                Set::new(|p: int| exists|q: int| 0 <= q < k && (#[trigger] tables[q]) / 4096 == p),
                            ),
                        decreases tables.len() - k,
                    {
                        let pa = self.table_pages[k];
                        let ghost n = (tables[k as int] / 4096) as int;
                        proof {
                            assert(pa@ == tables[k as int]);
                            assert(old(self).table_pas()[k as int] / 4096 == n);
                            assert(old(self).owns_page(n));
                            assert(a0.in_use_set().contains(n));
                            assert forall|j: int| 0 <= j < i implies !#[trigger] entry_page(entries[j], tables, n) by {
                                if entries[j] is IpaPa {
                                    assert(!entry_holds_page(entries[j], ((self.table_pages@[k as int])@ / 4096) as int));
                                } else if entries[j] is PaOnly {
                                    assert(entries[j].usage_spec() == entries[i as int].usage_spec());
                                }
                            }
                            assert forall|q: int| 0 <= q < k implies (#[trigger] tables[q]) / 4096 != n by {
                                assert(tables[q] != tables[k as int]);
                                assert(tables[q] % 4096 == 0 && tables[k as int] % 4096 == 0);
                            }
                            assert(allocator.in_use_set().contains(n));
                            allocator.lemma_in_use_in_aperture();
                        }
                        let _ = allocator.free(pa);
                        proof {
                            assert(allocator.in_use_set() =~= before.difference(
                                Set::new(|p: int| exists|q: int| 0 <= q < k + 1 && (#[trigger] tables[q]) / 4096 == p),
                            ));
                        }
                        k += 1;
                    }
                    proof {
                        assert(k == tables.len());
                        assert(Set::new(|p: int| exists|q: int| 0 <= q < k && (#[trigger] tables[q]) / 4096 == p)
                            =~= Set::new(|p: int| entry_page(entries[i as int], tables, p)));
                        assert forall|p: int| pages_of_first(entries, tables, i + 1).contains(p)
                            == (pages_of_first(entries, tables, i as int).contains(p) || entry_page(entries[i as int], tables, p)) by {
                            if pages_of_first(entries, tables, i + 1).contains(p) {
                                let j = choose|j: int| 0 <= j < i + 1 && #[trigger] entry_page(entries[j], tables, p);
                                if j < i {
                                    assert(pages_of_first(entries, tables, i as int).contains(p));
                                }
                            }
                        }
                        assert(allocator.in_use_set() =~= a0.in_use_set().difference(
                            pages_of_first(entries, tables, i + 1),
                        ));
                    }
                },
            }
            proof {
                if entries[i as int] is IpaOnly {
                    assert(pages_of_first(entries, tables, i + 1) =~= pages_of_first(entries, tables, i as int)) by {
                        assert forall|p: int| pages_of_first(entries, tables, i + 1).contains(p) implies pages_of_first(entries, tables, i as int).contains(p) by {
                            let j = choose|j: int| 0 <= j < i + 1 && #[trigger] entry_page(entries[j], tables, p);
                            assert(j < i);
                        }
                    }
                }
            }
            i += 1;
        }
        proof {
            lemma_owned_is_all_entries(*old(self));
        }
        self.vm_mem.clear();
        self.table_pages.clear();
        self.tables.clear();
        self.levels = Ghost(Seq::empty());
        proof {
            assert(self.table_pas() =~= Seq::<u64>::empty());
            assert(self.table_contents() =~= Seq::<Seq<u64>>::empty());
            lemma_tree_zero(self.table_contents(), self.levels@);
        }
    }
}

// ----- Queries -----

/// The physical regions behind allocation `e`: the whole region for guest
/// memory, one page each for the table pages, none for a guard.
pub open spec fn entry_regions(e: VmMem, tables: Seq<u64>) -> Seq<PhysRegion> {
    match e {
        VmMem::IpaPa(r) => seq![PhysRegion::spec_new(r.pa@, r.size as u64)],
        VmMem::PaOnly(_) => tables.map_values(|pa: u64| PhysRegion::spec_new(pa, 4096)),
        VmMem::IpaOnly(_) => Seq::empty(),
    }
}

/// The guest range `(start, size)` of allocation `e`, if it has one.
pub open spec fn entry_ipa_range(e: VmMem) -> Option<(u64, u64)> {
    match e {
        VmMem::IpaPa(r) => Some((r.ipa@, r.size as u64)),
        VmMem::IpaOnly(r) => Some((r.base@, r.size as u64)),
        VmMem::PaOnly(_) => None,
    }
}

impl VmCtl {
    /// The physical memory behind the allocation for `usage`.
    pub fn entry_pa(&self, usage: VmMemUsage) -> (r: Vec<PhysRegion>)
        requires
            self.wf(),
        ensures
            r@ == (match entry_index(self.entries(), usage) {
                Some(i) => entry_regions(self.entries()[i], self.table_pas()),
                None => Seq::empty(),
            }),
    {
        let mut regions: Vec<PhysRegion> = Vec::new();
        let index = match self.find_entry(usage) {
            Some(i) => i,
            None => return regions,
        };
        proof {
            assert(entry_shape_ok(self.vm_mem@[index as int]));
        }
        match self.vm_mem[index] {
            VmMem::IpaPa(region) => {
                match PhysRegion::new(region.pa, region.size as u64) {
                    Ok(r) => regions.push(r),
                    Err(_) => {},
                }
                proof {
                    assert(regions@ =~= seq![PhysRegion::spec_new(region.pa@, region.size as u64)]);
                }
            },
            VmMem::PaOnly(_) => {
                let mut k: usize = 0;
                while k < self.table_pages.len()
                    invariant
                        k <= self.table_pages@.len(),
                        self.wf(),
                        regions@ == self.table_pas().subrange(0, k as int).map_values(
                            |pa: u64| PhysRegion::spec_new(pa, 4096),
                        ),
                    decreases self.table_pages@.len() - k,
                {
                    proof {
                        assert(self.table_pas()[k as int] == self.table_pages@[k as int]@);
                        assert(self.table_pas()[k as int] < 0x1_0000_0000_0000);
                    }
                    match PhysRegion::new(self.table_pages[k], 4096) {
                        Ok(r) => regions.push(r),
                        Err(_) => {},
                    }
                    proof {
                        assert(regions@ =~= self.table_pas().subrange(0, k + 1).map_values(
                            |pa: u64| PhysRegion::spec_new(pa, 4096),
                        ));
                    }
                    k += 1;
                }
                proof {
                    assert(self.table_pas().subrange(0, k as int) =~= self.table_pas());
                }
            },
            VmMem::IpaOnly(_) => {},
        }
        regions
    }

    /// The guest range of the allocation for `usage`, if it has one.
    pub fn entry_ipa(&self, usage: VmMemUsage) -> (r: Option<IpaRegion>)
        requires
            self.wf(),
        ensures
            match entry_index(self.entries(), usage) {
                Some(i) => match entry_ipa_range(self.entries()[i]) {
                    Some(range) => r matches Some(region) && region.start_spec() == range.0
                        && region.size_spec() == range.1,
                    None => r is None,
                },
                None => r is None,
            },
    {
        let index = match self.find_entry(usage) {
            Some(i) => i,
            None => return None,
        };
        proof {
            assert(entry_shape_ok(self.vm_mem@[index as int]));
        }
        match self.vm_mem[index] {
            VmMem::IpaPa(v) => IpaRegion::new(v.ipa, v.size as u64),
            VmMem::PaOnly(_) => None,
            VmMem::IpaOnly(v) => IpaRegion::new(v.base, v.size as u64),
        }
    }

    /// The contents of table page `index` and its physical address, for
    /// writing the tables where the hardware reads them.
    pub fn table_page(&self, index: usize) -> (r: Option<(PhysAddr, TablePage)>)
        requires
            self.wf(),
        ensures
            index < self.table_pas().len() ==> (r matches Some((pa, page)) && pa@ == self.table_pas()[index as int]
                && page@ == self.table_contents()[index as int]),
            index >= self.table_pas().len() ==> r is None,
    {
        if index < self.table_pages.len() {
            Some((self.table_pages[index], self.tables[index]))
        } else {
            None
        }
    }

    /// How many table pages there are.
    pub fn table_count(&self) -> (r: usize)
        ensures
            r == self.table_pas().len(),
    {
        self.table_pages.len()
    }
}

/// Where the guest range of `e` starts.
pub open spec fn range_start(e: VmMem) -> u64 {
    entry_ipa_range(e)->Some_0.0
}

/// `x` lies above `after`, or there is no bound.
pub open spec fn above(after: Option<u64>, x: u64) -> bool {
    match after {
        Some(a) => x > a,
        None => true,
    }
}

/// `x` lies at or below `after`, which is a bound.
pub open spec fn at_or_below(after: Option<u64>, x: u64) -> bool {
    match after {
        Some(a) => x <= a,
        None => false,
    }
}

/// Region `region` is the guest range of allocation `e`.
pub open spec fn is_range_of(region: IpaRegion, e: VmMem) -> bool {
    entry_ipa_range(e) == Some((region.start_spec(), region.size_spec()))
}

impl VmCtl {
    /// The allocation with guest addresses whose range starts lowest above
    /// `after` (above nothing for `None`).
    fn next_ipa_region(&self, after: Option<u64>) -> (r: Option<IpaRegion>)
        requires
            self.wf(),
        ensures
            r matches Some(region) ==> {
                &&& exists|i: int| 0 <= i < self.entries().len() && is_range_of(region, #[trigger] self.entries()[i])
                &&& above(after, region.start_spec())
                &&& forall|i: int|
                    0 <= i < self.entries().len() && (#[trigger] entry_ipa_range(self.entries()[i])) is Some
                        && above(after, range_start(self.entries()[i])) ==> range_start(self.entries()[i]) >= region.start_spec()
            },
            r is None ==> forall|i: int|
                0 <= i < self.entries().len() && (#[trigger] entry_ipa_range(self.entries()[i])) is Some
                    ==> at_or_below(after, range_start(self.entries()[i])),
    {
        let mut next: Option<IpaRegion> = None;
        let mut i: usize = 0;
        while i < self.vm_mem.len()
            invariant
                i <= self.vm_mem@.len(),
                self.wf(),
                next matches Some(region) ==> {
                    &&& exists|j: int| 0 <= j < i && is_range_of(region, #[trigger] self.entries()[j])
                    &&& above(after, region.start_spec())
                    &&& forall|j: int|
                        0 <= j < i && (#[trigger] entry_ipa_range(self.entries()[j])) is Some
                            && above(after, range_start(self.entries()[j])) ==> range_start(self.entries()[j]) >= region.start_spec()
                },
                next is None ==> forall|j: int|
                    0 <= j < i && (#[trigger] entry_ipa_range(self.entries()[j])) is Some
                        ==> at_or_below(after, range_start(self.entries()[j])),
            decreases self.vm_mem@.len() - i,
        {
            proof {
                assert(entry_shape_ok(self.vm_mem@[i as int]));
            }
            let candidate = match self.vm_mem[i] {
                VmMem::IpaPa(region) => IpaRegion::new(region.ipa, region.size as u64),
                VmMem::IpaOnly(region) => IpaRegion::new(region.base, region.size as u64),
                VmMem::PaOnly(_) => None,
            };
            match candidate {
                Some(region) => {
                    let start = region.start().value();
                    let above = match after {
                        Some(a) => start > a,
                        None => true,
                    };
                    let lower = match next {
                        Some(current) => start < current.start().value(),
                        None => true,
                    };
                    if above && lower {
                        next = Some(region);
                    }
                    proof {
                        assert(is_range_of(region, self.entries()[i as int]));
                    }
                },
                None => {},
            }
            i += 1;
        }
        next
    }

    /// The guest ranges of all allocations that have one, in ascending order.
    pub fn ipa_regions(&self) -> (r: Vec<IpaRegion>)
        requires
            self.wf(),
        ensures
            forall|k: int| 0 <= k < r@.len() ==> exists|i: int|
                0 <= i < self.entries().len() && is_range_of(#[trigger] r@[k], self.entries()[i]),
            forall|i: int|
                0 <= i < self.entries().len() && (#[trigger] entry_ipa_range(self.entries()[i])) is Some
                    ==> exists|k: int| 0 <= k < r@.len() && is_range_of(#[trigger] r@[k], self.entries()[i]),
            forall|j: int, k: int| 0 <= j < k < r@.len() ==> (#[trigger] r@[j]).start_spec() < (#[trigger] r@[k]).start_spec(),
    {
        let mut regions: Vec<IpaRegion> = Vec::new();
        let mut previous: Option<u64> = None;
        loop
            invariant
                self.wf(),
                regions_inv(*self, regions@, previous),
            ensures
                regions_inv(*self, regions@, previous),
                forall|i: int|
                    0 <= i < self.entries().len() && (#[trigger] entry_ipa_range(self.entries()[i])) is Some
                        ==> at_or_below(previous, range_start(self.entries()[i])),
            decreases (match previous {
                Some(p) => u64::MAX - p,
                None => u64::MAX + 1,
            }),
        {
            match self.next_ipa_region(previous) {
                None => {
                    break;
                },
                Some(region) => {
                    let ghost old_regions = regions@;
                    regions.push(region);
                    proof {
                        lemma_regions_step(*self, old_regions, previous, region);
                    }
                    previous = Some(region.start().value());
                },
            }
        }
        proof {
            assert forall|i: int|
                0 <= i < self.entries().len() && (#[trigger] entry_ipa_range(self.entries()[i])) is Some
                    implies exists|k: int| 0 <= k < regions@.len() && is_range_of(#[trigger] regions@[k], self.entries()[i]) by {
                assert(at_or_below(previous, range_start(self.entries()[i])));
            }
        }
        regions
    }
}

/// What the regions found so far after `previous` satisfy: each is the
/// range of an allocation, every range starting at or below `previous` is
/// among them, they ascend, and the last starts at `previous`.
pub open spec fn regions_inv(vm: VmCtl, regions: Seq<IpaRegion>, previous: Option<u64>) -> bool {
    &&& previous is None <==> regions.len() == 0
    &&& previous matches Some(p) ==> regions.last().start_spec() == p
    &&& forall|k: int| 0 <= k < regions.len() ==> exists|i: int|
        0 <= i < vm.entries().len() && is_range_of(#[trigger] regions[k], vm.entries()[i])
    &&& forall|i: int|
        0 <= i < vm.entries().len() && (#[trigger] entry_ipa_range(vm.entries()[i])) is Some
            && at_or_below(previous, range_start(vm.entries()[i])) ==> exists|k: int|
            0 <= k < regions.len() && is_range_of(#[trigger] regions[k], vm.entries()[i])
    &&& forall|j: int, k: int| 0 <= j < k < regions.len() ==> (#[trigger] regions[j]).start_spec()
        < (#[trigger] regions[k]).start_spec()
}

/// Adding the next region keeps what the regions found so far satisfy.
#[verifier::spinoff_prover]
#[verifier::rlimit(40)]
proof fn lemma_regions_step(vm: VmCtl, regions: Seq<IpaRegion>, previous: Option<u64>, region: IpaRegion)
    requires
        vm.wf(),
        regions_inv(vm, regions, previous),
        exists|i: int| 0 <= i < vm.entries().len() && is_range_of(region, #[trigger] vm.entries()[i]),
        above(previous, region.start_spec()),
        forall|i: int|
            0 <= i < vm.entries().len() && (#[trigger] entry_ipa_range(vm.entries()[i])) is Some
                && above(previous, range_start(vm.entries()[i])) ==> range_start(vm.entries()[i])
                >= region.start_spec(),
    ensures
        regions_inv(vm, regions.push(region), Some(region.start_spec())),
{
    let all = regions.push(region);
    let m = region.start_spec();
    assert forall|k: int| 0 <= k < all.len() implies exists|i: int|
        0 <= i < vm.entries().len() && is_range_of(#[trigger] all[k], vm.entries()[i]) by {
        if k < regions.len() {
            assert(all[k] == regions[k]);
        }
    }
    assert forall|i: int|
        0 <= i < vm.entries().len() && (#[trigger] entry_ipa_range(vm.entries()[i])) is Some
            && at_or_below(Some(m), range_start(vm.entries()[i])) implies exists|k: int|
        0 <= k < all.len() && is_range_of(#[trigger] all[k], vm.entries()[i]) by {
        if at_or_below(previous, range_start(vm.entries()[i])) {
            let k = choose|k: int| 0 <= k < regions.len() && is_range_of(#[trigger] regions[k], vm.entries()[i]);
            assert(all[k] == regions[k]);
        } else {
            assert(range_start(vm.entries()[i]) == m);
            let j = choose|j: int| 0 <= j < vm.entries().len() && is_range_of(region, #[trigger] vm.entries()[j]);
            if j != i {
                assert(entry_shape_ok(vm.entries()[i]));
                assert(entry_shape_ok(vm.entries()[j]));
                assert(ranges_overlap(
                    vm.entries()[i].ipa_range_spec()->Some_0,
                    vm.entries()[j].ipa_range_spec()->Some_0,
                ));
            }
            assert(is_range_of(all[regions.len() as int], vm.entries()[i]));
        }
    }
    assert forall|j: int, k: int| 0 <= j < k < all.len() implies (#[trigger] all[j]).start_spec()
        < (#[trigger] all[k]).start_spec() by {
        if k == regions.len() {
            assert(all[j] == regions[j]);
            if j < regions.len() - 1 {
                assert(regions[j].start_spec() < regions.last().start_spec());
            }
        } else {
            assert(all[j] == regions[j] && all[k] == regions[k]);
        }
    }
}

// ----- Text -----

/// The name of a usage.
pub open spec fn usage_text(u: VmMemUsage) -> Seq<char> {
    match u {
        VmMemUsage::Image => "Image"@,
        VmMemUsage::Dtb => "DTB"@,
        VmMemUsage::Stack => "Stack"@,
        VmMemUsage::Guard => "Guard"@,
        VmMemUsage::Scratch => "Scratch"@,
        VmMemUsage::PageTable => "PageTable"@,
    }
}

/// One `pa: ` line per table page.
pub open spec fn page_lines(tables: Seq<u64>) -> Seq<char>
    decreases tables.len(),
{
    if tables.len() == 0 {
        Seq::empty()
    } else {
        page_lines(tables.drop_last()) + "pa: "@ + hex_text(tables.last()) + "\n"@
    }
}

/// The description of allocation `e`, followed by a newline.
pub open spec fn entry_text(e: VmMem, tables: Seq<u64>) -> Seq<char> {
    match e {
        VmMem::IpaPa(r) => "ipa:"@ + hex_text(r.ipa@) + " pa:"@ + hex_text(r.pa@) + " size:"@ + dec_text(
            r.size as nat,
        ) + " usage:"@ + usage_text(r.usage) + "\n"@,
        VmMem::IpaOnly(r) => "ipa:"@ + hex_text(r.base@) + " size:"@ + dec_text(r.size as nat)
            + " usage:"@ + usage_text(r.usage) + "\n"@,
        VmMem::PaOnly(u) => "usage: "@ + usage_text(u) + " size:"@ + dec_text(tables.len() * 4096)
            + "\n"@ + page_lines(tables) + "\n"@,
    }
}

/// The descriptions of all allocations, oldest first.
pub open spec fn entries_text(entries: Seq<VmMem>, tables: Seq<u64>) -> Seq<char>
    decreases entries.len(),
{
    if entries.len() == 0 {
        Seq::empty()
    } else {
        entries_text(entries.drop_last(), tables) + entry_text(entries.last(), tables)
    }
}

impl VmCtl {
    fn append_entry(&self, text: &mut String, index: usize)
        requires
            self.wf(),
            index < self.entries().len(),
        ensures
            final(text)@ == old(text)@ + entry_text(self.entries()[index as int], self.table_pas()),
    {
        match self.vm_mem[index] {
            VmMem::IpaPa(r) => {
                text.append("ipa:");
                append_hex(text, r.ipa.value());
                text.append(" pa:");
                append_hex(text, r.pa.value());
                text.append(" size:");
                append_decimal(text, r.size as u64);
                text.append(" usage:");
                text.append(r.usage.to_string().as_str());
                text.append("\n");
            },
            VmMem::IpaOnly(r) => {
                text.append("ipa:");
                append_hex(text, r.base.value());
                text.append(" size:");
                append_decimal(text, r.size as u64);
                text.append(" usage:");
                text.append(r.usage.to_string().as_str());
                text.append("\n");
            },
            VmMem::PaOnly(u) => {
                proof {
                    assert(self.vm_mem@[index as int] is PaOnly);
                    lemma_pages_sum_at_least_tables(self.vm_mem@, self.table_pages@.len() as nat);
                }
                text.append("usage: ");
                text.append(u.to_string().as_str());
                text.append(" size:");
                append_decimal(text, (self.table_pages.len() * 4096) as u64);
                text.append("\n");
                let ghost start = text@;
                let mut k: usize = 0;
                while k < self.table_pages.len()
                    invariant
                        k <= self.table_pages@.len(),
                        self.wf(),
                        text@ == start + page_lines(self.table_pas().subrange(0, k as int)),
                    decreases self.table_pages@.len() - k,
                {
                    text.append("pa: ");
                    append_hex(text, self.table_pages[k].value());
                    text.append("\n");
                    proof {
                        let next = self.table_pas().subrange(0, k + 1);
                        assert(next.drop_last() =~= self.table_pas().subrange(0, k as int));
                        assert(next.last() == self.table_pages@[k as int]@);
                    }
                    k += 1;
                }
                proof {
                    assert(self.table_pas().subrange(0, k as int) =~= self.table_pas());
                }
                text.append("\n");
            },
        }
    }

    /// One description per allocation, oldest first.
    pub fn to_string(&self) -> (r: String)
        requires
            self.wf(),
        ensures
            r@ == entries_text(self.entries(), self.table_pas()),
    {
        let mut text = String::new();
        let mut i: usize = 0;
        while i < self.vm_mem.len()
            invariant
                i <= self.vm_mem@.len(),
                self.wf(),
                text@ == entries_text(self.entries().subrange(0, i as int), self.table_pas()),
            decreases self.vm_mem@.len() - i,
        {
            self.append_entry(&mut text, i);
            proof {
                let next = self.entries().subrange(0, i + 1);
                assert(next.drop_last() =~= self.entries().subrange(0, i as int));
            }
            i += 1;
        }
        proof {
            assert(self.entries().subrange(0, i as int) =~= self.entries());
        }
        text
    }
}

/// The page-table allocation counts every table page.
proof fn lemma_pages_sum_at_least_tables(entries: Seq<VmMem>, n: nat)
    requires
        exists|i: int| 0 <= i < entries.len() && #[trigger] entries[i] is PaOnly,
    ensures
        pages_sum(entries, n) >= n,
    decreases entries.len(),
{
    if entries.last() is PaOnly {
    } else {
        let i = choose|i: int| 0 <= i < entries.len() && #[trigger] entries[i] is PaOnly;
        assert(entries.drop_last()[i] is PaOnly);
        lemma_pages_sum_at_least_tables(entries.drop_last(), n);
    }
}

// ----- Laws -----

/// The pages in use in `a` are those in use in `a0` and the pages the VM
/// holds, which were not among them: what the allocator gave out since `a0`
/// is exactly what the VM holds.
pub open spec fn balanced<const B: usize>(
    a0: &PageAllocator<B>,
    a: &PageAllocator<B>,
    vm: VmCtl,
) -> bool {
    &&& a.in_use_set() == a0.in_use_set().union(vm.owned_pages())
    &&& vm.owned_pages().disjoint(a0.in_use_set())
}

/// A VM that holds nothing is balanced against the allocator as it is.
pub proof fn law_empty_vm_is_balanced<const B: usize>(a0: &PageAllocator<B>, vm: VmCtl)
    requires
        vm.entries() == Seq::<VmMem>::empty(),
        vm.table_pas() == Seq::<u64>::empty(),
    ensures
        balanced(a0, a0, vm),
{
    assert(vm.owned_pages() =~= Set::<int>::empty());
    assert(a0.in_use_set().union(Set::<int>::empty()) =~= a0.in_use_set());
}

/// Allocating and mapping keep a VM balanced: each grows the allocator's
/// in-use pages by exactly what the VM newly holds.
pub proof fn law_growth_keeps_balance<const B: usize>(
    a0: &PageAllocator<B>,
    a1: &PageAllocator<B>,
    a2: &PageAllocator<B>,
    vm1: VmCtl,
    vm2: VmCtl,
)
    requires
        balanced(a0, a1, vm1),
        grew_with(vm1, vm2, a1, a2),
    ensures
        balanced(a0, a2, vm2),
{
    assert forall|p: int| #[trigger] a2.in_use_set().contains(p) == a0.in_use_set().union(
        vm2.owned_pages(),
    ).contains(p) by {
        if vm1.owned_pages().contains(p) {
            assert(vm2.owned_pages().contains(p));
        }
    }
    assert(a2.in_use_set() =~= a0.in_use_set().union(vm2.owned_pages()));
    assert forall|p: int| #[trigger] vm2.owned_pages().contains(p) implies !a0.in_use_set().contains(p) by {
        if !vm1.owned_pages().contains(p) {
            assert(vm2.owned_pages().difference(vm1.owned_pages()).contains(p));
            assert(!a1.in_use_set().contains(p));
        }
    }
}

/// Tearing a balanced VM down gives every page back: the allocator is left
/// with the pages in use it had before the VM took any.
pub proof fn law_teardown_restores_allocator<const B: usize>(
    a0: &PageAllocator<B>,
    a1: &PageAllocator<B>,
    a2: &PageAllocator<B>,
    vm: VmCtl,
)
    requires
        balanced(a0, a1, vm),
        a2.in_use_set() == a1.in_use_set().difference(vm.owned_pages()),
    ensures
        a2.in_use_set() == a0.in_use_set(),
{
    assert(a2.in_use_set() =~= a0.in_use_set());
}

} // verus!
