//! A flat three-state physical-page allocator over two page bitmaps.
use vstd::prelude::*;
use vstd::string::StringExecFns;
use vstd::set_lib::{set_int_range, lemma_int_range, lemma_len_subset, lemma_len_union};
use crate::system_info::{FixedList, PhysAddr, PhysRegion, RegionError};

verus! {

broadcast use {vstd::set::group_set_axioms, PhysAddr::lemma_spec_new, PhysRegion::lemma_spec_new};

pub const PAGE_SIZE: u64 = 4096;
pub const MAX_PHYSICAL_ADDRESS: u64 = 0x1_0000_0000;
pub const PAGE_BITMAP_BYTES: usize = 0x2_0000;

#[derive(Debug, Clone, Copy, PartialEq, Eq, Structural)]
pub enum PageState {
    Reserved,
    InUse,
    Unused,
}

#[derive(Debug, Clone, Copy, PartialEq, Eq, Structural)]
pub enum AllocatorError {
    AddressOverflow,
    NotInitialized,
    InvalidRegion(RegionError),
    PhysicalAddressOutOfRange,
    Exhausted,
    UnalignedPage,
    ReservedPage,
    DoubleFree,
    InvalidIpa,
    OverlappingIpa,
    AlreadyAllocated,
    InvalidateParameter,
    Unexpected,
}

#[derive(Debug, Clone, Copy, PartialEq, Eq, Structural)]
pub struct AllocatorStats {
    /// Page-aligned 4 KiB pages of RAM, including firmware carve-outs.
    pub ram_pages: usize,
    /// RAM pages that the allocator never hands out.
    pub reserved_pages: usize,
    /// Allocator-controlled pages that are currently occupied.
    pub in_use_pages: usize,
    /// Allocator-controlled pages that an allocation may return.
    pub unused_pages: usize,
}

/// Bit `i` of a packed little-endian bitmap.
pub open spec fn bit_of(bytes: Seq<u8>, i: int) -> bool {
    bytes[i / 8] & (1u8 << ((i % 8) as u8)) != 0
}

/// A bitmap and its cached set-bit count.
pub struct PageBitmap<const BYTES: usize> {
    bits: [u8; BYTES],
    set_pages: usize,
}

proof fn lemma_bit_set(b: u8, k: u8, m: u8)
    requires
        k < 8,
        m < 8,
    ensures
        (b | (1u8 << k)) & (1u8 << k) != 0,
        (b & !(1u8 << k)) & (1u8 << k) == 0,
        m != k ==> (b | (1u8 << k)) & (1u8 << m) == b & (1u8 << m),
        m != k ==> (b & !(1u8 << k)) & (1u8 << m) == b & (1u8 << m),
{
    assert((b | (1u8 << k)) & (1u8 << k) != 0) by (bit_vector)
        requires
            k < 8,
    ;
    assert((b & !(1u8 << k)) & (1u8 << k) == 0) by (bit_vector)
        requires
            k < 8,
    ;
    assert(m != k ==> (b | (1u8 << k)) & (1u8 << m) == b & (1u8 << m)) by (bit_vector)
        requires
            k < 8,
            m < 8,
    ;
    assert(m != k ==> (b & !(1u8 << k)) & (1u8 << m) == b & (1u8 << m)) by (bit_vector)
        requires
            k < 8,
            m < 8,
    ;
}

impl<const BYTES: usize> PageBitmap<BYTES> {
    /// The indices of the set bits.
    pub closed spec fn view(&self) -> Set<int> {
        Set::new(|i: int| 0 <= i < BYTES * 8 && bit_of(self.bits@, i))
    }

    pub closed spec fn count(&self) -> nat {
        self.set_pages as nat
    }

    /// The storage covers `BYTES * 8` pages and the count matches the bits.
    pub closed spec fn wf(&self) -> bool {
        &&& self.bits@.len() == BYTES
        &&& self.view().len() == self.set_pages
        &&& BYTES * 8 <= usize::MAX
    }

    pub proof fn lemma_wf(&self)
        requires
            self.wf(),
        ensures
            self.view().finite(),
            self.view().len() == self.count(),
            self.view().subset_of(set_int_range(0, BYTES * 8)),
            self.count() <= BYTES * 8,
            BYTES * 8 <= usize::MAX,
    {
        lemma_int_range(0, BYTES * 8);
        lemma_len_subset(self.view(), set_int_range(0, BYTES * 8));
    }

    pub fn zeroed() -> (r: Self)
        requires
            BYTES * 8 <= usize::MAX,
        ensures
            r.wf(),
            r.view() == Set::<int>::empty(),
    {
        let r = PageBitmap { bits: [0u8; BYTES], set_pages: 0 };
        proof {
            assert forall|i: int| 0 <= i < BYTES * 8 implies !bit_of(r.bits@, i) by {
                let k = (i % 8) as u8;
                assert(0u8 & (1u8 << k) == 0) by (bit_vector);
            }
            assert(r.view() =~= Set::<int>::empty());
        }
        r
    }

    /// Whether the bit for `index` is set.
    pub fn is_set(&self, index: usize) -> (r: bool)
        requires
            self.wf(),
            index < BYTES * 8,
        ensures
            r == self.view().contains(index as int),
    {
        self.bits[index / 8] & (1u8 << ((index % 8) as u8)) != 0
    }

    /// The cached number of set bits.
    pub fn pages(&self) -> (r: usize)
        ensures
            r == self.count(),
    {
        self.set_pages
    }

    pub fn clear(&mut self)
        requires
            old(self).wf(),
        ensures
            final(self).wf(),
            final(self).view() == Set::<int>::empty(),
    {
        let mut j: usize = 0;
        while j < BYTES
            invariant
                self.bits@.len() == BYTES,
                j <= BYTES,
                forall|i: int| 0 <= i < j ==> self.bits@[i] == 0,
            decreases BYTES - j,
        {
            self.bits[j] = 0;
            j += 1;
        }
        self.set_pages = 0;
        proof {
            assert forall|i: int| 0 <= i < BYTES * 8 implies !bit_of(self.bits@, i) by {
                let k = (i % 8) as u8;
                assert(0u8 & (1u8 << k) == 0) by (bit_vector);
            }
            assert(self.view() =~= Set::<int>::empty());
        }
    }

    /// Sets or clears the bit for `index`, keeping the count exact.
    pub fn set_bit(&mut self, index: usize, value: bool)
        requires
            old(self).wf(),
            index < BYTES * 8,
        ensures
            final(self).wf(),
            final(self).view() == (if value {
                old(self).view().insert(index as int)
            } else {
                old(self).view().remove(index as int)
            }),
    {
        proof {
            self.lemma_wf();
        }
        let old_bit = self.is_set(index);
        if old_bit == value {
            proof {
                if value {
                    assert(self.view() =~= self.view().insert(index as int));
                } else {
                    assert(self.view() =~= self.view().remove(index as int));
                }
            }
            return;
        }
        let ghost before = self.view();
        let byte = self.bits[index / 8];
        let k = (index % 8) as u8;
        let mask = 1u8 << k;
        let new_byte = if value {
            byte | mask
        } else {
            byte & !mask
        };
        self.bits[index / 8] = new_byte;
        if value {
            self.set_pages = self.set_pages + 1;
        } else {
            self.set_pages = self.set_pages - 1;
        }
        proof {
            let expected = if value {
                before.insert(index as int)
            } else {
                before.remove(index as int)
            };
            assert forall|i: int| 0 <= i < BYTES * 8 implies bit_of(self.bits@, i) == expected.contains(i) by {
                let m = (i % 8) as u8;
                lemma_bit_set(byte, k, m);
                if i / 8 != index / 8 {
                    assert(self.bits@[i / 8] == old(self).bits@[i / 8]);
                } else if i != index {
                    assert(m != k);
                }
            }
            assert(self.view() =~= expected);
        }
    }
}


/// The smallest page boundary at or above `x`.
pub open spec fn page_ceil(x: int) -> int {
    crate::page::round_up(x, PAGE_SIZE as int)
}

/// The largest page boundary at or below `x`.
pub open spec fn page_floor(x: int) -> int {
    x - x % (PAGE_SIZE as int)
}

pub(crate) fn align_down(value: u64, alignment: u64) -> (r: u64)
    requires
        alignment == PAGE_SIZE,
    ensures
        r == page_floor(value as int),
{
    assert(value & !0xfffu64 == value - value % 4096) by (bit_vector);
    value & !(alignment - 1)
}

pub(crate) fn align_up(value: u64, alignment: u64) -> (r: Option<u64>)
    requires
        alignment == PAGE_SIZE,
    ensures
        r == (if value + PAGE_SIZE - 1 <= u64::MAX {
            Some(page_ceil(value as int) as u64)
        } else {
            None::<u64>
        }),
{
    proof {
        crate::page::lemma_round_up(value as int, 4096);
    }
    match value.checked_add(alignment - 1) {
        Some(v) => Some(align_down(v, alignment)),
        None => None,
    }
}

/// A flat three-state physical-page allocator.
///
/// `managed` marks the pages that the allocator controls; every other page
/// (reserved RAM, MMIO, unpopulated space) is `Reserved`. A managed page is
/// `InUse` when its `in_use` bit is set and `Unused` otherwise.
pub struct PageAllocator<'a, const BITMAP_BYTES: usize> {
    managed: &'a mut PageBitmap<BITMAP_BYTES>,
    in_use: &'a mut PageBitmap<BITMAP_BYTES>,
    ram_pages: usize,
}

impl<'a, const BITMAP_BYTES: usize> PageAllocator<'a, BITMAP_BYTES> {
    pub closed spec fn managed_set(&self) -> Set<int> {
        self.managed.view()
    }

    pub closed spec fn in_use_set(&self) -> Set<int> {
        self.in_use.view()
    }

    pub closed spec fn managed_count(&self) -> nat {
        self.managed.count()
    }

    pub closed spec fn in_use_count(&self) -> nat {
        self.in_use.count()
    }

    pub closed spec fn ram_pages_spec(&self) -> nat {
        self.ram_pages as nat
    }

    /// Number of pages in the physical aperture covered by the bitmaps.
    pub open spec fn page_count() -> int {
        BITMAP_BYTES * 8
    }

    /// Both bitmaps are consistent, every in-use bit names a managed page,
    /// and every page address fits in 64 bits.
    pub closed spec fn wf(&self) -> bool {
        &&& self.managed.wf()
        &&& self.in_use.wf()
        &&& self.in_use.view().subset_of(self.managed.view())
        &&& BITMAP_BYTES * 8 * PAGE_SIZE <= u64::MAX
    }

    pub open spec fn state_of(&self, index: int) -> PageState {
        if !self.managed_set().contains(index) {
            PageState::Reserved
        } else if self.in_use_set().contains(index) {
            PageState::InUse
        } else {
            PageState::Unused
        }
    }

    /// Pages `[start, start + pages)` lie in the aperture and are all unused.
    pub open spec fn free_run(&self, start: int, pages: int) -> bool {
        &&& 0 <= start
        &&& start + pages <= Self::page_count()
        &&& forall|j: int| start <= j < start + pages ==> #[trigger] self.state_of(j) == PageState::Unused
    }

    /// The statistics add up: of a well-formed allocator whose managed pages
    /// number at most its RAM pages, the reserved, in-use and unused pages
    /// together are its RAM pages, none of the three counts going negative.
    /// Every operation keeps the managed pages and the RAM pages as they are,
    /// so this holds from construction on.
    pub proof fn lemma_stats_add_up(&self)
        requires
            self.wf(),
            self.managed_set().len() <= self.ram_pages_spec(),
        ensures
            self.in_use_set().len() <= self.managed_set().len(),
            (self.ram_pages_spec() - self.managed_set().len()) + self.in_use_set().len() + (
            self.managed_set().len() - self.in_use_set().len()) == self.ram_pages_spec(),
            self.in_use_set() == Set::new(|p: int| self.state_of(p) == PageState::InUse),
            self.managed_set().difference(self.in_use_set()) == Set::new(
                |p: int| self.state_of(p) == PageState::Unused,
            ),
    {
        self.lemma_wf();
        lemma_len_subset(self.in_use_set(), self.managed_set());
        assert(self.in_use_set() =~= Set::new(|p: int| self.state_of(p) == PageState::InUse));
        assert(self.managed_set().difference(self.in_use_set()) =~= Set::new(
            |p: int| self.state_of(p) == PageState::Unused,
        ));
    }

    /// Releasing the pages whose frames lie in `[lo, hi)` (from `a0` to `a1`)
    /// frees exactly those that were in use: each of them is unused
    /// afterwards, a reserved one stays reserved, every other page keeps its
    /// state. Releasing the same range again (from `a1` to `a2`) frees no
    /// page and changes none.
    pub proof fn lemma_release_states(a0: &Self, a1: &Self, a2: &Self, lo: int, hi: int)
        requires
            a0.wf(),
            a1.managed_set() == a0.managed_set(),
            a1.in_use_set() == a0.in_use_set().difference(released_pages(a0.in_use_set(), lo, hi)),
            a2.managed_set() == a1.managed_set(),
            a2.in_use_set() == a1.in_use_set().difference(released_pages(a1.in_use_set(), lo, hi)),
        ensures
            released_pages(a0.in_use_set(), lo, hi) == Set::new(
                |p: int| lo <= p * PAGE_SIZE < hi && a0.state_of(p) == PageState::InUse,
            ),
            forall|p: int|
                lo <= p * PAGE_SIZE < hi ==> #[trigger] a1.state_of(p) == (if a0.state_of(p)
                    == PageState::Reserved {
                    PageState::Reserved
                } else {
                    PageState::Unused
                }),
            forall|p: int| !(lo <= p * PAGE_SIZE < hi) ==> #[trigger] a1.state_of(p) == a0.state_of(p),
            released_pages(a1.in_use_set(), lo, hi).len() == 0,
            forall|p: int| #[trigger] a2.state_of(p) == a1.state_of(p),
    {
        a0.lemma_wf();
        assert(released_pages(a0.in_use_set(), lo, hi) =~= Set::new(
            |p: int| lo <= p * PAGE_SIZE < hi && a0.state_of(p) == PageState::InUse,
        ));
        lemma_release_twice(a0.in_use_set(), lo, hi);
    }

    /// What well-formedness gives: finite page sets, in-use pages among the
    /// managed ones, and managed pages inside the bitmaps.
    pub proof fn lemma_wf(&self)
        requires
            self.wf(),
        ensures
            self.managed_set().finite(),
            self.in_use_set().finite(),
            self.in_use_set().subset_of(self.managed_set()),
            self.in_use_count() <= self.managed_count(),
            self.managed_count() == self.managed_set().len(),
            self.in_use_count() == self.in_use_set().len(),
            BITMAP_BYTES * 8 * PAGE_SIZE <= u64::MAX,
            forall|i: int| #[trigger] self.managed_set().contains(i) ==> 0 <= i < BITMAP_BYTES * 8,
    {
        self.managed.lemma_wf();
        self.in_use.lemma_wf();
        lemma_len_subset(self.in_use.view(), self.managed.view());
    }

    /// Every in-use page lies in the aperture.
    pub proof fn lemma_in_use_in_aperture(&self)
        requires
            self.wf(),
        ensures
            forall|i: int| #[trigger] self.in_use_set().contains(i) ==> 0 <= i < Self::page_count(),
    {
        self.lemma_wf();
    }

    fn aperture_end(&self) -> (r: u64)
        requires
            self.wf(),
        ensures
            r == BITMAP_BYTES * 8 * PAGE_SIZE,
    {
        BITMAP_BYTES as u64 * 8 * PAGE_SIZE
    }

    fn bitmap_index(&self, address: u64) -> (r: Result<usize, AllocatorError>)
        requires
            self.wf(),
        ensures
            address / PAGE_SIZE < BITMAP_BYTES * 8 ==> r == Ok::<usize, AllocatorError>(
                (address / PAGE_SIZE) as usize,
            ),
            address / PAGE_SIZE >= BITMAP_BYTES * 8 ==> r == Err::<usize, AllocatorError>(
                AllocatorError::PhysicalAddressOutOfRange,
            ),
    {
        proof {
            self.managed.lemma_wf();
        }
        let page = address / PAGE_SIZE;
        if page >= BITMAP_BYTES as u64 * 8 {
            return Err(AllocatorError::PhysicalAddressOutOfRange);
        }
        Ok(page as usize)
    }

    pub fn state(&self, page: PhysAddr) -> (r: Result<PageState, AllocatorError>)
        requires
            self.wf(),
        ensures
            page@ % PAGE_SIZE != 0 ==> r == Err::<PageState, AllocatorError>(
                AllocatorError::UnalignedPage,
            ),
            page@ % PAGE_SIZE == 0 && page@ / PAGE_SIZE >= Self::page_count() ==> r == Err::<
                PageState,
                AllocatorError,
            >(AllocatorError::PhysicalAddressOutOfRange),
            page@ % PAGE_SIZE == 0 && page@ / PAGE_SIZE < Self::page_count() ==> r == Ok::<
                PageState,
                AllocatorError,
            >(self.state_of((page@ / PAGE_SIZE) as int)),
    {
        let value = page.value();
        assert(value & 0xfff == value % 4096) by {
            crate::page::lemma_low_bits();
        }
        if value & (PAGE_SIZE - 1) != 0 {
            return Err(AllocatorError::UnalignedPage);
        }
        let index = self.bitmap_index(value)?;
        if !self.managed.is_set(index) {
            Ok(PageState::Reserved)
        } else if self.in_use.is_set(index) {
            Ok(PageState::InUse)
        } else {
            Ok(PageState::Unused)
        }
    }

    pub fn stats(&self) -> (r: AllocatorStats)
        requires
            self.wf(),
            self.managed_set().len() <= self.ram_pages_spec(),
        ensures
            r == (AllocatorStats {
                ram_pages: self.ram_pages_spec() as usize,
                reserved_pages: (self.ram_pages_spec() - self.managed_set().len()) as usize,
                in_use_pages: self.in_use_set().len() as usize,
                unused_pages: (self.managed_set().len() - self.in_use_set().len()) as usize,
            }),
    {
        proof {
            self.lemma_wf();
        }
        AllocatorStats {
            ram_pages: self.ram_pages,
            reserved_pages: self.ram_pages - self.managed.pages(),
            in_use_pages: self.in_use.pages(),
            unused_pages: self.managed.pages() - self.in_use.pages(),
        }
    }

    /// Allocates the lowest-addressed unused managed page.
    pub fn allocate(&mut self) -> (r: Result<PhysAddr, AllocatorError>)
        requires
            old(self).wf(),
        ensures
            final(self).wf(),
            contiguous_allocated(old(self), final(self), 1, r),
    {
        self.allocate_contiguous(1)
    }

    /// Allocates the lowest-addressed run of `pages` contiguous unused
    /// managed pages and marks the whole run in use.
    #[verifier::rlimit(30)]
    pub fn allocate_contiguous(&mut self, pages: usize) -> (r: Result<PhysAddr, AllocatorError>)
        requires
            old(self).wf(),
        ensures
            final(self).wf(),
            contiguous_allocated(old(self), final(self), pages as int, r),
    {
        proof {
            self.lemma_wf();
        }
        if pages == 0 {
            return Err(AllocatorError::Exhausted);
        }
        match self.find_free_run(pages) {
            Some(start) => {
                self.mark_in_use_run(start, pages);
                let r = PhysAddr::new(start as u64 * PAGE_SIZE);
                proof {
                    lemma_spec_new_eq(r, (start * PAGE_SIZE) as u64);
                    assert(old(self).free_run(start as int, pages as int));
                }
                Ok(r)
            },
            None => {
                proof {
                    assert(!exists|s: int| old(self).free_run(s, pages as int));
                }
                Err(AllocatorError::Exhausted)
            },
        }
    }

    /// The start of the lowest run of `pages` unused pages.
    fn find_free_run(&self, pages: usize) -> (r: Option<usize>)
        requires
            self.wf(),
            pages > 0,
        ensures
            match r {
                Some(s) => self.free_run(s as int, pages as int) && forall|s2: int|
                    0 <= s2 < s ==> !self.free_run(s2, pages as int),
                None => forall|s: int| !self.free_run(s, pages as int),
            },
    {
        proof {
            self.lemma_wf();
        }
        let mut run_start: usize = 0;
        let mut run_len: usize = 0;
        let mut index: usize = 0;
        let n = BITMAP_BYTES * 8;
        while index < n
            invariant
                self.wf(),
                n == BITMAP_BYTES * 8,
                0 < pages,
                index <= n,
                run_len < pages,
                run_start + run_len == index,
                forall|j: int| run_start <= j < index ==> #[trigger] self.state_of(j) == PageState::Unused,
                run_start > 0 ==> self.state_of(run_start - 1) != PageState::Unused,
                forall|s: int| 0 <= s && s + pages <= index ==> !#[trigger] self.free_run(s, pages as int),
            decreases n - index,
        {
            if self.managed.is_set(index) && !self.in_use.is_set(index) {
                if run_len == 0 {
                    run_start = index;
                }
                run_len += 1;
                if run_len == pages {
                    let ghost start = run_start as int;
                    proof {
                        assert(self.free_run(start, pages as int));
                        assert forall|s: int| 0 <= s < start implies !#[trigger] self.free_run(s, pages as int) by {
                            if s + pages > index {
                                assert(self.state_of(start - 1) != PageState::Unused);
                            }
                        }
                    }
                    return Some(run_start);
                }
            } else {
                proof {
                    assert forall|s: int| 0 <= s && s + pages <= index + 1 implies !#[trigger] self.free_run(s, pages as int) by {
                        if s + pages == index + 1 {
                            assert(self.state_of(index as int) != PageState::Unused);
                        }
                    }
                }
                run_len = 0;
                run_start = index + 1;
            }
            index += 1;
        }
        None
    }

    /// Allocates the highest-addressed unused managed page.
    pub fn allocate_high(&mut self) -> (r: Result<PhysAddr, AllocatorError>)
        requires
            old(self).wf(),
        ensures
            final(self).wf(),
            final(self).managed_set() == old(self).managed_set(),
            final(self).ram_pages_spec() == old(self).ram_pages_spec(),
            (exists|i: int| 0 <= i < Self::page_count() && #[trigger] old(self).state_of(i) == PageState::Unused) ==> exists|i: int|
                #![trigger old(self).state_of(i)]
                {
                    &&& 0 <= i < Self::page_count()
                    &&& old(self).state_of(i) == PageState::Unused
                    &&& forall|j: int| i < j < Self::page_count() ==> #[trigger] old(self).state_of(j) != PageState::Unused
                    &&& r == Ok::<PhysAddr, AllocatorError>(PhysAddr::spec_new((i * PAGE_SIZE) as u64))
                    &&& final(self).in_use_set() == old(self).in_use_set().insert(i)
                },
            !(exists|i: int| 0 <= i < Self::page_count() && #[trigger] old(self).state_of(i) == PageState::Unused) ==> r == Err::<
                PhysAddr,
                AllocatorError,
            >(AllocatorError::Exhausted) && final(self).in_use_set() == old(self).in_use_set(),
    {
        proof {
            self.lemma_wf();
        }
        let n = BITMAP_BYTES * 8;
        let mut index = n;
        while index > 0
            invariant
                self.wf(),
                *self == *old(self),
                n == BITMAP_BYTES * 8,
                index <= n,
                forall|j: int| index <= j < n ==> #[trigger] self.state_of(j) != PageState::Unused,
            decreases index,
        {
            index -= 1;
            if self.managed.is_set(index) && !self.in_use.is_set(index) {
                let ghost i = index as int;
                self.in_use.set_bit(index, true);
                let r = PhysAddr::new(index as u64 * PAGE_SIZE);
                proof {
                    lemma_spec_new_eq(r, (index * PAGE_SIZE) as u64);
                    assert(old(self).state_of(i) == PageState::Unused);
                    assert(self.in_use_set().subset_of(self.managed_set()));
                }
                return Ok(r);
            }
        }
        Err(AllocatorError::Exhausted)
    }

    /// Allocates the lowest unused managed page whose frame lies entirely
    /// inside `requested`.
    pub fn allocate_in(&mut self, requested: PhysRegion) -> (r: Result<PhysAddr, AllocatorError>)
        requires
            old(self).wf(),
        ensures
            final(self).wf(),
            final(self).managed_set() == old(self).managed_set(),
            final(self).ram_pages_spec() == old(self).ram_pages_spec(),
            requested.start_spec() + PAGE_SIZE - 1 > u64::MAX ==> r == Err::<PhysAddr, AllocatorError>(
                AllocatorError::AddressOverflow,
            ) && final(self).in_use_set() == old(self).in_use_set(),
            requested.start_spec() + PAGE_SIZE - 1 <= u64::MAX ==> {
                let lo = page_ceil(requested.start_spec() as int);
                let hi = page_floor(requested.end_spec());
                let fits = |i: int|
                    0 <= i < Self::page_count() && lo <= i * PAGE_SIZE < hi && old(self).state_of(i)
                        == PageState::Unused;
                &&& (exists|i: int| #[trigger] fits(i)) ==> exists|i: int|
                    #![trigger fits(i)]
                    {
                        &&& fits(i)
                        &&& forall|j: int| 0 <= j < i ==> !#[trigger] fits(j)
                        &&& r == Ok::<PhysAddr, AllocatorError>(PhysAddr::spec_new((i * PAGE_SIZE) as u64))
                        &&& final(self).in_use_set() == old(self).in_use_set().insert(i)
                    }
                &&& !(exists|i: int| #[trigger] fits(i)) ==> r == Err::<PhysAddr, AllocatorError>(
                    AllocatorError::Exhausted,
                ) && final(self).in_use_set() == old(self).in_use_set()
            },
    {
        proof {
            self.lemma_wf();
        }
        requested.well_formed();
        let start = match align_up(requested.start().value(), PAGE_SIZE) {
            Some(s) => s,
            None => {
                return Err(AllocatorError::AddressOverflow);
            },
        };
        let floor_end = align_down(requested.end().value(), PAGE_SIZE);
        let aperture = self.aperture_end();
        let end = if floor_end < aperture {
            floor_end
        } else {
            aperture
        };
        let ghost lo = page_ceil(requested.start_spec() as int);
        let ghost hi = page_floor(requested.end_spec());
        let ghost fits = |i: int|
            0 <= i < Self::page_count() && lo <= i * PAGE_SIZE < hi && old(self).state_of(i)
                == PageState::Unused;
        proof {
            crate::page::lemma_round_up(requested.start_spec() as int, 4096);
            assert(start % 4096 == 0);
        }
        let mut page = start;
        while page < end
            invariant
                self.wf(),
                *self == *old(self),
                page % PAGE_SIZE == 0,
                start <= page,
                start == lo,
                lo == page_ceil(requested.start_spec() as int),
                hi == page_floor(requested.end_spec()),
                requested.start_spec() + PAGE_SIZE - 1 <= u64::MAX,
                end <= aperture,
                end <= hi,
                end == hi || end == aperture,
                aperture == BITMAP_BYTES * 8 * PAGE_SIZE,
                end % PAGE_SIZE == 0,
                fits == (|i: int|
                    0 <= i < Self::page_count() && lo <= i * PAGE_SIZE < hi && old(self).state_of(i)
                        == PageState::Unused),
                forall|j: int| 0 <= j && j * PAGE_SIZE < page ==> !#[trigger] fits(j),
            decreases end - page,
        {
            let state = self.state(PhysAddr::new(page));
            proof {
                assert(page / 4096 < BITMAP_BYTES * 8) by (nonlinear_arith)
                    requires page < BITMAP_BYTES * 8 * 4096;
            }
            if let Ok(PageState::Unused) = state {
                let index = self.bitmap_index(page).unwrap();
                let ghost i = index as int;
                proof {
                    assert(i * 4096 == page) by (nonlinear_arith)
                        requires i == page / 4096, page % 4096 == 0;
                    assert(fits(i));
                }
                self.in_use.set_bit(index, true);
                let r = PhysAddr::new(page);
                proof {
                    lemma_spec_new_eq(r, (i * PAGE_SIZE) as u64);
                    assert(self.in_use_set().subset_of(self.managed_set()));
                }
                return Ok(r);
            }
            proof {
                let i = (page / 4096) as int;
                assert(i * 4096 == page) by (nonlinear_arith)
                    requires i == page / 4096, page % 4096 == 0;
                assert forall|j: int| 0 <= j && j * PAGE_SIZE < page + PAGE_SIZE implies !#[trigger] fits(j) by {
                    if j * 4096 >= page {
                        assert(j == i) by (nonlinear_arith)
                            requires j * 4096 >= i * 4096, j * 4096 < i * 4096 + 4096;
                    }
                }
            }
            page = page + PAGE_SIZE;
        }
        proof {
            assert forall|j: int| !#[trigger] fits(j) by {
                if fits(j) {
                    if j * 4096 >= page {
                        if end == aperture {
                            assert(j * 4096 >= BITMAP_BYTES * 8 * 4096);
                            assert(j >= BITMAP_BYTES * 8) by (nonlinear_arith)
                                requires j * 4096 >= BITMAP_BYTES * 8 * 4096;
                        }
                    }
                }
            }
        }
        Err(AllocatorError::Exhausted)
    }

    /// Returns an in-use page to the allocator.
    pub fn free(&mut self, page: PhysAddr) -> (r: Result<(), AllocatorError>)
        requires
            old(self).wf(),
        ensures
            final(self).wf(),
            page_freed(old(self), final(self), page, r),
    {
        match self.state(page)? {
            PageState::Reserved => Err(AllocatorError::ReservedPage),
            PageState::Unused => Err(AllocatorError::DoubleFree),
            PageState::InUse => {
                let index = self.bitmap_index(page.value())?;
                self.in_use.set_bit(index, false);
                Ok(())
            },
        }
    }

    /// Changes the in-use managed pages whose frames lie entirely inside
    /// `region` to unused, returning how many changed.
    pub fn release(&mut self, region: PhysRegion) -> (r: Result<usize, AllocatorError>)
        requires
            old(self).wf(),
        ensures
            final(self).wf(),
            final(self).managed_set() == old(self).managed_set(),
            final(self).ram_pages_spec() == old(self).ram_pages_spec(),
            region.start_spec() + PAGE_SIZE - 1 > u64::MAX ==> r == Err::<usize, AllocatorError>(
                AllocatorError::AddressOverflow,
            ) && final(self).in_use_set() == old(self).in_use_set(),
            region.start_spec() + PAGE_SIZE - 1 <= u64::MAX ==> {
                let freed = released_pages(
                    old(self).in_use_set(),
                    page_ceil(region.start_spec() as int),
                    page_floor(region.end_spec()),
                );
                &&& r == Ok::<usize, AllocatorError>(freed.len() as usize)
                &&& final(self).in_use_set() == old(self).in_use_set().difference(freed)
            },
    {
        proof {
            self.lemma_wf();
        }
        region.well_formed();
        let start = match align_up(region.start().value(), PAGE_SIZE) {
            Some(s) => s,
            None => {
                return Err(AllocatorError::AddressOverflow);
            },
        };
        let floor_end = align_down(region.end().value(), PAGE_SIZE);
        let aperture = self.aperture_end();
        let end = if floor_end < aperture {
            floor_end
        } else {
            aperture
        };
        let ghost lo = page_ceil(region.start_spec() as int);
        let ghost hi = page_floor(region.end_spec());
        let ghost old_in_use = self.in_use_set();
        proof {
            crate::page::lemma_round_up(region.start_spec() as int, 4096);
        }
        let mut released: usize = 0;
        let mut page = start;
        proof {
            assert(released_pages(old_in_use, lo, page as int) =~= Set::<int>::empty());
            assert(self.in_use_set() =~= old_in_use.difference(Set::<int>::empty()));
        }
        while page < end
            invariant
                self.wf(),
                self.managed_set() == old(self).managed_set(),
                self.ram_pages_spec() == old(self).ram_pages_spec(),
                old_in_use == old(self).in_use_set(),
                old_in_use.finite(),
                page % PAGE_SIZE == 0,
                start <= page,
                start == lo,
                lo == page_ceil(region.start_spec() as int),
                hi == page_floor(region.end_spec()),
                region.start_spec() + PAGE_SIZE - 1 <= u64::MAX,
                end <= aperture,
                end <= hi,
                end == hi || end == aperture,
                aperture == BITMAP_BYTES * 8 * PAGE_SIZE,
                end % PAGE_SIZE == 0,
                self.in_use_set() == old_in_use.difference(released_pages(old_in_use, lo, page as int)),
                released == released_pages(old_in_use, lo, page as int).len(),
                released_pages(old_in_use, lo, page as int).finite(),
                released <= page / PAGE_SIZE,
                page == start || page <= end,
                old_in_use.subset_of(self.managed_set()),
            decreases end - page,
        {
            let index = self.bitmap_index(page).unwrap();
            let ghost i = index as int;
            proof {
                assert(page / 4096 < BITMAP_BYTES * 8) by (nonlinear_arith)
                    requires page < BITMAP_BYTES * 8 * 4096;
                assert(i * 4096 == page) by (nonlinear_arith)
                    requires i == page / 4096, page % 4096 == 0;
                assert(released_pages(old_in_use, lo, page + 4096) =~= if old_in_use.contains(i) {
                    released_pages(old_in_use, lo, page as int).insert(i)
                } else {
                    released_pages(old_in_use, lo, page as int)
                }) by {
                    assert forall|j: int| #[trigger] released_pages(old_in_use, lo, page + 4096).contains(j) == (if old_in_use.contains(i) {
                        released_pages(old_in_use, lo, page as int).insert(i)
                    } else {
                        released_pages(old_in_use, lo, page as int)
                    }).contains(j) by {
                        if j * 4096 >= page && j * 4096 < page + 4096 {
                            assert(j == i) by (nonlinear_arith)
                                requires j * 4096 >= i * 4096, j * 4096 < i * 4096 + 4096;
                        }
                    }
                }
                assert(!released_pages(old_in_use, lo, page as int).contains(i));
            }
            if self.managed.is_set(index) && self.in_use.is_set(index) {
                self.in_use.set_bit(index, false);
                released += 1;
                proof {
                    assert(self.in_use_set() =~= old_in_use.difference(released_pages(old_in_use, lo, page + 4096)));
                }
            } else {
                proof {
                    assert(self.in_use_set() =~= old_in_use.difference(released_pages(old_in_use, lo, page + 4096)));
                }
            }
            proof {
                assert(page + 4096 <= end) by (nonlinear_arith)
                    requires page % 4096 == 0, end % 4096 == 0, page < end;
            }
            page = page + PAGE_SIZE;
        }
        proof {
            self.lemma_wf();
            assert(released_pages(old_in_use, lo, page as int) =~= released_pages(old_in_use, lo, hi)) by {
                assert forall|j: int| #[trigger] released_pages(old_in_use, lo, hi).contains(j) implies j * 4096 < page by {
                    if end == aperture && j * 4096 >= page {
                        assert(self.managed_set().contains(j));
                        assert(j * 4096 >= BITMAP_BYTES * 8 * 4096);
                        assert(j >= BITMAP_BYTES * 8) by (nonlinear_arith)
                            requires j * 4096 >= BITMAP_BYTES * 8 * 4096;
                    }
                }
            }
        }
        Ok(released)
    }

    /// Builds an allocator over `managed` and `in_use`, both cleared first.
    ///
    /// Pages whose frames lie entirely inside an `allocatable` region become
    /// managed and in use; those inside an `initially_unused` region are then
    /// released.
    pub fn new<const R: usize, const A: usize, const U: usize>(
        ram: &FixedList<PhysRegion, R>,
        allocatable: &FixedList<PhysRegion, A>,
        initially_unused: &FixedList<PhysRegion, U>,
        managed: &'a mut PageBitmap<BITMAP_BYTES>,
        in_use: &'a mut PageBitmap<BITMAP_BYTES>,
    ) -> (r: Result<Self, AllocatorError>)
        requires
            old(managed).wf(),
            old(in_use).wf(),
            BITMAP_BYTES * 8 * PAGE_SIZE <= u64::MAX,
        ensures
            BITMAP_BYTES == 0 ==> r == Err::<Self, AllocatorError>(
                AllocatorError::PhysicalAddressOutOfRange,
            ),
            BITMAP_BYTES > 0 ==> match count_from(ram@, 0, 0) {
                Err(e) => r == Err::<Self, AllocatorError>(e),
                Ok(ram_pages) => match first_mark_error(allocatable@, 0, Self::page_count() * PAGE_SIZE) {
                    Some(e) => r == Err::<Self, AllocatorError>(e),
                    None => match first_overflow(initially_unused@, 0) {
                        Some(e) => r == Err::<Self, AllocatorError>(e),
                        None => (r matches Ok(a) && {
                            &&& a.wf()
                            &&& a.ram_pages_spec() == ram_pages
                            &&& a.managed_set() == pages_of(allocatable@, allocatable@.len() as int)
                            &&& pages_of(allocatable@, allocatable@.len() as int).subset_of(
                                pages_of(ram@, ram@.len() as int),
                            ) ==> a.managed_set().len() <= a.ram_pages_spec()
                            &&& a.in_use_set() == a.managed_set().difference(
                                pages_of(initially_unused@, initially_unused@.len() as int),
                            )
                        }),
                    },
                },
            },
    {
        validate_bitmaps(managed, in_use)?;
        managed.clear();
        in_use.clear();
        let ram_pages = count_pages(ram)?;
        let mut allocator = PageAllocator { managed, in_use, ram_pages };
        proof {
            assert(allocator.managed_set() =~= pages_of(allocatable@, 0));
        }
        let mut k: usize = 0;
        while k < allocatable.len()
            invariant
                allocator.wf(),
                allocator.ram_pages_spec() == ram_pages,
                count_from(ram@, 0, 0) == Ok::<int, AllocatorError>(ram_pages as int),
                BITMAP_BYTES > 0,
                k <= allocatable@.len(),
                first_mark_error(allocatable@, 0, Self::page_count() * PAGE_SIZE) == first_mark_error(
                    allocatable@,
                    k as int,
                    Self::page_count() * PAGE_SIZE,
                ),
                allocator.managed_set() == pages_of(allocatable@, k as int),
                allocator.in_use_set() == Set::<int>::empty(),
            decreases allocatable@.len() - k,
        {
            let region = *allocatable.get(k).unwrap();
            allocator.mark_managed(region)?;
            k += 1;
        }
        allocator.mark_all_managed_in_use();
        let mut k: usize = 0;
        proof {
            assert(allocator.in_use_set() =~= allocator.managed_set().difference(pages_of(initially_unused@, 0)));
        }
        while k < initially_unused.len()
            invariant
                allocator.wf(),
                allocator.ram_pages_spec() == ram_pages,
                count_from(ram@, 0, 0) == Ok::<int, AllocatorError>(ram_pages as int),
                BITMAP_BYTES > 0,
                first_mark_error(allocatable@, 0, Self::page_count() * PAGE_SIZE) is None,
                k <= initially_unused@.len(),
                first_overflow(initially_unused@, 0) == first_overflow(initially_unused@, k as int),
                allocator.managed_set() == pages_of(allocatable@, allocatable@.len() as int),
                allocator.in_use_set() == allocator.managed_set().difference(
                    pages_of(initially_unused@, k as int),
                ),
            decreases initially_unused@.len() - k,
        {
            let region = *initially_unused.get(k).unwrap();
            let ghost before = allocator.in_use_set();
            allocator.release(region)?;
            proof {
                let freed = released_pages(before, page_ceil(region.start_spec() as int), page_floor(region.end_spec()));
                assert(allocator.in_use_set() =~= allocator.managed_set().difference(
                    pages_of(initially_unused@, k + 1),
                )) by {
                    assert forall|p: int| #[trigger] freed.contains(p) == (before.contains(p) && covered_pages(region).contains(p)) by {
                        if before.contains(p) {
                            allocator.lemma_wf();
                        }
                    }
                }
            }
            k += 1;
        }
        proof {
            lemma_count_from(ram@, 0, 0, ram_pages as int);
            lemma_pages_of_len(ram@, ram@.len() as int);
            if pages_of(allocatable@, allocatable@.len() as int).subset_of(
                pages_of(ram@, ram@.len() as int),
            ) {
                lemma_len_subset(
                    pages_of(allocatable@, allocatable@.len() as int),
                    pages_of(ram@, ram@.len() as int),
                );
            }
        }
        Ok(allocator)
    }

    /// Wraps bitmaps that an earlier allocator filled.
    pub fn from_existing(
        managed: &'a mut PageBitmap<BITMAP_BYTES>,
        in_use: &'a mut PageBitmap<BITMAP_BYTES>,
        ram_pages: usize,
    ) -> (r: Result<Self, AllocatorError>)
        requires
            old(managed).wf(),
            old(in_use).wf(),
            old(in_use).view().subset_of(old(managed).view()),
            BITMAP_BYTES * 8 * PAGE_SIZE <= u64::MAX,
        ensures
            BITMAP_BYTES == 0 ==> r == Err::<Self, AllocatorError>(
                AllocatorError::PhysicalAddressOutOfRange,
            ),
            BITMAP_BYTES > 0 && (ram_pages > BITMAP_BYTES * 8 || old(managed).count() > ram_pages)
                ==> r == Err::<Self, AllocatorError>(AllocatorError::AddressOverflow),
            BITMAP_BYTES > 0 && ram_pages <= BITMAP_BYTES * 8 && old(managed).count() <= ram_pages
                ==> (r matches Ok(a) && a.wf() && a.managed_set() == old(managed).view()
                && a.in_use_set() == old(in_use).view() && a.ram_pages_spec() == ram_pages),
    {
        validate_bitmaps(managed, in_use)?;
        proof {
            managed.lemma_wf();
            in_use.lemma_wf();
            lemma_len_subset(in_use.view(), managed.view());
        }
        if ram_pages > BITMAP_BYTES * 8 || managed.pages() > ram_pages || in_use.pages()
            > managed.pages() {
            return Err(AllocatorError::AddressOverflow);
        }
        Ok(PageAllocator { managed, in_use, ram_pages })
    }

    /// Adds the pages whose frames lie entirely inside `region` to the
    /// managed set.
    fn mark_managed(&mut self, region: PhysRegion) -> (r: Result<(), AllocatorError>)
        requires
            old(self).wf(),
        ensures
            final(self).wf(),
            final(self).in_use_set() == old(self).in_use_set(),
            final(self).ram_pages_spec() == old(self).ram_pages_spec(),
            r == (match mark_error(region, Self::page_count() * PAGE_SIZE) {
                Some(e) => Err(e),
                None => Ok::<(), AllocatorError>(()),
            }),
            r is Ok ==> final(self).managed_set() == old(self).managed_set().union(
                covered_pages(region),
            ),
            r is Err ==> final(self).managed_set() == old(self).managed_set(),
    {
        proof {
            self.lemma_wf();
        }
        region.well_formed();
        let start = match align_up(region.start().value(), PAGE_SIZE) {
            Some(s) => s,
            None => {
                return Err(AllocatorError::AddressOverflow);
            },
        };
        let end = align_down(region.end().value(), PAGE_SIZE);
        if end > self.aperture_end() {
            return Err(AllocatorError::PhysicalAddressOutOfRange);
        }
        let ghost old_managed = self.managed_set();
        let ghost lo = start as int;
        proof {
            crate::page::lemma_round_up(region.start_spec() as int, 4096);
        }
        let mut page = start;
        while page < end
            invariant
                self.wf(),
                self.in_use_set() == old(self).in_use_set(),
                self.ram_pages_spec() == old(self).ram_pages_spec(),
                old_managed == old(self).managed_set(),
                page % PAGE_SIZE == 0,
                start <= page,
                lo == start,
                start == page_ceil(region.start_spec() as int),
                end == page_floor(region.end_spec()),
                end <= BITMAP_BYTES * 8 * PAGE_SIZE,
                end % PAGE_SIZE == 0,
                page == start || page <= end,
                self.managed_set() == old_managed.union(
                    pages_between(lo, page as int),
                ),
            decreases end - page,
        {
            let index = self.bitmap_index(page).unwrap();
            let ghost i = index as int;
            proof {
                assert(page / 4096 < BITMAP_BYTES * 8) by (nonlinear_arith)
                    requires page < BITMAP_BYTES * 8 * 4096;
                assert(i * 4096 == page) by (nonlinear_arith)
                    requires i == page / 4096, page % 4096 == 0;
                assert(page + 4096 <= end) by (nonlinear_arith)
                    requires page % 4096 == 0, end % 4096 == 0, page < end;
            }
            self.managed.set_bit(index, true);
            proof {
                assert forall|p: int| #[trigger] pages_between(lo, page + 4096).contains(p) == pages_between(lo, page as int).insert(i).contains(p) by {
                    if p * 4096 >= page && p * 4096 < page + 4096 {
                        assert(p == i) by (nonlinear_arith)
                            requires p * 4096 >= i * 4096, p * 4096 < i * 4096 + 4096;
                    }
                }
                assert(self.managed_set() =~= old_managed.union(pages_between(lo, page + 4096)));
                assert(self.in_use_set().subset_of(self.managed_set()));
            }
            page = page + PAGE_SIZE;
        }
        proof {
            assert(self.managed_set() =~= old_managed.union(covered_pages(region)));
        }
        Ok(())
    }

    /// Marks every managed page in use.
    fn mark_all_managed_in_use(&mut self)
        requires
            old(self).wf(),
        ensures
            final(self).wf(),
            final(self).managed_set() == old(self).managed_set(),
            final(self).in_use_set() == old(self).managed_set(),
            final(self).ram_pages_spec() == old(self).ram_pages_spec(),
    {
        proof {
            self.lemma_wf();
        }
        let n = BITMAP_BYTES * 8;
        let mut index: usize = 0;
        while index < n
            invariant
                self.wf(),
                n == BITMAP_BYTES * 8,
                index <= n,
                self.managed_set() == old(self).managed_set(),
                self.ram_pages_spec() == old(self).ram_pages_spec(),
                old(self).in_use_set().subset_of(self.in_use_set()),
                forall|j: int| 0 <= j < index && #[trigger] self.managed_set().contains(j) ==> self.in_use_set().contains(j),
                forall|j: int| index <= j && #[trigger] self.in_use_set().contains(j) ==> old(self).in_use_set().contains(j),
            decreases n - index,
        {
            if self.managed.is_set(index) {
                self.in_use.set_bit(index, true);
            }
            index += 1;
        }
        proof {
            self.lemma_wf();
            assert(self.in_use_set() =~= self.managed_set());
        }
    }

    /// Marks pages `[start, start + pages)` in use.
    fn mark_in_use_run(&mut self, start: usize, pages: usize)
        requires
            old(self).wf(),
            old(self).free_run(start as int, pages as int),
        ensures
            final(self).wf(),
            final(self).managed_set() == old(self).managed_set(),
            final(self).in_use_set() == old(self).in_use_set().union(
                Set::new(|j: int| start <= j < start + pages),
            ),
            final(self).ram_pages_spec() == old(self).ram_pages_spec(),
    {
        let mut page = start;
        while page < start + pages
            invariant
                self.wf(),
                self.managed_set() == old(self).managed_set(),
                self.ram_pages_spec() == old(self).ram_pages_spec(),
                start <= page <= start + pages,
                start + pages <= BITMAP_BYTES * 8,
                old(self).free_run(start as int, pages as int),
                self.in_use_set() == old(self).in_use_set().union(Set::new(|j: int| start <= j < page)),
            decreases start + pages - page,
        {
            proof {
                assert(old(self).state_of(page as int) == PageState::Unused);
            }
            self.in_use.set_bit(page, true);
            proof {
                assert(self.in_use_set() =~= old(self).in_use_set().union(Set::new(|j: int| start <= j < page + 1)));
            }
            page += 1;
        }
    }
}

proof fn lemma_spec_new_eq(a: PhysAddr, v: u64)
    requires
        a@ == v,
    ensures
        a == PhysAddr::spec_new(v),
{
    PhysAddr::lemma_view_injective(a, PhysAddr::spec_new(v));
}

/// The number of whole pages inside `region`: none where it holds no
/// whole page.
pub open spec fn region_pages(region: PhysRegion) -> int {
    if page_floor(region.end_spec()) > page_ceil(region.start_spec() as int) {
        (page_floor(region.end_spec()) - page_ceil(region.start_spec() as int)) / PAGE_SIZE as int
    } else {
        0
    }
}

/// Counting the pages of `region` overflows or leaves the 4 GiB aperture.
pub open spec fn count_error(region: PhysRegion) -> Option<AllocatorError> {
    if region.start_spec() + PAGE_SIZE - 1 > u64::MAX {
        Some(AllocatorError::AddressOverflow)
    } else if page_floor(region.end_spec()) > MAX_PHYSICAL_ADDRESS {
        Some(AllocatorError::PhysicalAddressOutOfRange)
    } else {
        None
    }
}

/// The total of `acc` and the page counts of `regions[i..]`, or the first
/// error met while adding them up in order.
pub open spec fn count_from(regions: Seq<PhysRegion>, i: int, acc: int) -> Result<
    int,
    AllocatorError,
>
    decreases regions.len() - i,
{
    if i >= regions.len() || i < 0 {
        Ok(acc)
    } else {
        match count_error(regions[i]) {
            Some(e) => Err(e),
            None => if acc + region_pages(regions[i]) > usize::MAX {
                Err(AllocatorError::AddressOverflow)
            } else {
                count_from(regions, i + 1, acc + region_pages(regions[i]))
            },
        }
    }
}

/// The first error of marking `regions[i..]` managed, in order.
pub open spec fn first_mark_error(regions: Seq<PhysRegion>, i: int, aperture_end: int) -> Option<
    AllocatorError,
>
    decreases regions.len() - i,
{
    if i >= regions.len() || i < 0 {
        None
    } else {
        match mark_error(regions[i], aperture_end) {
            Some(e) => Some(e),
            None => first_mark_error(regions, i + 1, aperture_end),
        }
    }
}

/// `AddressOverflow` if the start of some region of `regions[i..]` cannot
/// be rounded up to a page.
pub open spec fn first_overflow(regions: Seq<PhysRegion>, i: int) -> Option<AllocatorError>
    decreases regions.len() - i,
{
    if i >= regions.len() || i < 0 {
        None
    } else if regions[i].start_spec() + PAGE_SIZE - 1 > u64::MAX {
        Some(AllocatorError::AddressOverflow)
    } else {
        first_overflow(regions, i + 1)
    }
}

/// The pages covered by `regions[..k]`.
pub open spec fn pages_of(regions: Seq<PhysRegion>, k: int) -> Set<int>
    decreases k,
{
    if k <= 0 {
        Set::empty()
    } else {
        pages_of(regions, k - 1).union(covered_pages(regions[k - 1]))
    }
}

/// The page counts of `regions[..k]` added up.
pub open spec fn prefix_pages(regions: Seq<PhysRegion>, k: int) -> int
    decreases k,
{
    if k <= 0 {
        0
    } else {
        prefix_pages(regions, k - 1) + region_pages(regions[k - 1])
    }
}

/// A region covers exactly as many pages as it counts.
proof fn lemma_covered_pages_len(region: PhysRegion)
    ensures
        covered_pages(region).finite(),
        covered_pages(region).len() == region_pages(region),
        region_pages(region) >= 0,
{
    let ceil = page_ceil(region.start_spec() as int);
    let floor = page_floor(region.end_spec());
    assert(ceil % 4096 == 0 && ceil >= 0) by {
        let x = region.start_spec() as int;
        assert((x + (4096 - x % 4096) % 4096) % 4096 == 0);
    }
    assert(floor % 4096 == 0);
    if floor > ceil {
        assert(covered_pages(region) =~= set_int_range(ceil / 4096, floor / 4096));
        lemma_int_range(ceil / 4096, floor / 4096);
    } else {
        assert(covered_pages(region) =~= set_int_range(0, 0));
        lemma_int_range(0, 0);
    }
}

/// The pages of `regions[..k]` are no more than their counts added up.
proof fn lemma_pages_of_len(regions: Seq<PhysRegion>, k: int)
    ensures
        pages_of(regions, k).finite(),
        pages_of(regions, k).len() <= prefix_pages(regions, k),
    decreases k,
{
    if k > 0 {
        lemma_pages_of_len(regions, k - 1);
        lemma_covered_pages_len(regions[k - 1]);
        lemma_len_union(pages_of(regions, k - 1), covered_pages(regions[k - 1]));
    }
}

/// Counting from region `i` with `acc` already counted adds the counts of
/// the regions from `i` on.
proof fn lemma_count_from(regions: Seq<PhysRegion>, i: int, acc: int, n: int)
    requires
        0 <= i <= regions.len(),
        count_from(regions, i, acc) == Ok::<int, AllocatorError>(n),
    ensures
        n == acc + prefix_pages(regions, regions.len() as int) - prefix_pages(regions, i),
    decreases regions.len() - i,
{
    if i < regions.len() {
        lemma_count_from(regions, i + 1, acc + region_pages(regions[i]), n);
    }
}

fn validate_bitmaps<const BYTES: usize>(
    _managed: &PageBitmap<BYTES>,
    _in_use: &PageBitmap<BYTES>,
) -> (r: Result<(), AllocatorError>)
    ensures
        BYTES == 0 ==> r == Err::<(), AllocatorError>(AllocatorError::PhysicalAddressOutOfRange),
        BYTES > 0 ==> r is Ok,
{
    if BYTES == 0 {
        Err(AllocatorError::PhysicalAddressOutOfRange)
    } else {
        Ok(())
    }
}

/// Adds up the whole pages of every region, in order.
fn count_pages<const N: usize>(regions: &FixedList<PhysRegion, N>) -> (r: Result<
    usize,
    AllocatorError,
>)
    ensures
        match r {
            Ok(n) => count_from(regions@, 0, 0) == Ok::<int, AllocatorError>(n as int),
            Err(e) => count_from(regions@, 0, 0) == Err::<int, AllocatorError>(e),
        },
{
    let mut pages: usize = 0;
    let mut i: usize = 0;
    while i < regions.len()
        invariant
            i <= regions@.len(),
            count_from(regions@, 0, 0) == count_from(regions@, i as int, pages as int),
        decreases regions@.len() - i,
    {
        let region = *regions.get(i).unwrap();
        region.well_formed();
        let start = match align_up(region.start().value(), PAGE_SIZE) {
            Some(s) => s,
            None => {
                return Err(AllocatorError::AddressOverflow);
            },
        };
        let end = align_down(region.end().value(), PAGE_SIZE);
        if end > MAX_PHYSICAL_ADDRESS {
            return Err(AllocatorError::PhysicalAddressOutOfRange);
        }
        proof {
            assert(count_error(regions@[i as int]) is None);
        }
        let count = if end > start {
            (end - start) / PAGE_SIZE
        } else {
            0
        };
        pages = match pages.checked_add(count as usize) {
            Some(p) => p,
            None => {
                return Err(AllocatorError::AddressOverflow);
            },
        };
        i += 1;
    }
    Ok(pages)
}

/// The page-aligned region that covers `region`.
pub fn page_covering(region: PhysRegion) -> (r: Result<PhysRegion, AllocatorError>)
    ensures
        region.end_spec() + PAGE_SIZE - 1 > u64::MAX ==> r == Err::<PhysRegion, AllocatorError>(
            AllocatorError::AddressOverflow,
        ),
        region.end_spec() + PAGE_SIZE - 1 <= u64::MAX && page_ceil(region.end_spec())
            > MAX_PHYSICAL_ADDRESS ==> r == Err::<PhysRegion, AllocatorError>(
            AllocatorError::PhysicalAddressOutOfRange,
        ),
        region.end_spec() + PAGE_SIZE - 1 <= u64::MAX && page_ceil(region.end_spec())
            <= MAX_PHYSICAL_ADDRESS ==> r == Ok::<PhysRegion, AllocatorError>(
            PhysRegion::spec_new(
                page_floor(region.start_spec() as int) as u64,
                (page_ceil(region.end_spec()) - page_floor(region.start_spec() as int)) as u64,
            ),
        ),
{
    region.well_formed();
    let start = align_down(region.start().value(), PAGE_SIZE);
    let end = match align_up(region.end().value(), PAGE_SIZE) {
        Some(e) => e,
        None => {
            return Err(AllocatorError::AddressOverflow);
        },
    };
    if end > MAX_PHYSICAL_ADDRESS {
        return Err(AllocatorError::PhysicalAddressOutOfRange);
    }
    proof {
        crate::page::lemma_round_up(region.end_spec(), 4096);
    }
    match PhysRegion::from_bounds(PhysAddr::new(start), PhysAddr::new(end)) {
        Ok(r) => Ok(r),
        Err(e) => Err(AllocatorError::InvalidRegion(e)),
    }
}

/// The pages whose frames start in `[lo, hi)`.
pub open spec fn pages_between(lo: int, hi: int) -> Set<int> {
    Set::new(|p: int| 0 <= p && lo <= p * PAGE_SIZE < hi)
}

/// The pages whose 4 KiB frames lie entirely inside `region`.
pub open spec fn covered_pages(region: PhysRegion) -> Set<int> {
    Set::new(
        |p: int|
            0 <= p && page_ceil(region.start_spec() as int) <= p * PAGE_SIZE < page_floor(
                region.end_spec(),
            ),
    )
}

/// Why marking `region` managed fails in an aperture ending at `aperture_end`.
pub open spec fn mark_error(region: PhysRegion, aperture_end: int) -> Option<AllocatorError> {
    if region.start_spec() + PAGE_SIZE - 1 > u64::MAX {
        Some(AllocatorError::AddressOverflow)
    } else if page_floor(region.end_spec()) > aperture_end {
        Some(AllocatorError::PhysicalAddressOutOfRange)
    } else {
        None
    }
}

/// The in-use pages whose frames lie in `[lo, hi)`.
pub open spec fn released_pages(in_use: Set<int>, lo: int, hi: int) -> Set<int> {
    in_use.filter(|j: int| lo <= j * PAGE_SIZE < hi)
}

/// Releasing a range twice frees nothing the second time: after the pages
/// of `[lo, hi)` that were in use are released, none of that range is in
/// use, so a second release finds no page to free and leaves the in-use
/// pages as they are.
pub proof fn lemma_release_twice(in_use: Set<int>, lo: int, hi: int)
    requires
        in_use.finite(),
    ensures
        released_pages(in_use.difference(released_pages(in_use, lo, hi)), lo, hi) == Set::<int>::empty(),
        released_pages(in_use.difference(released_pages(in_use, lo, hi)), lo, hi).len() == 0,
        in_use.difference(released_pages(in_use, lo, hi)).difference(
            released_pages(in_use.difference(released_pages(in_use, lo, hi)), lo, hi),
        ) == in_use.difference(released_pages(in_use, lo, hi)),
{
    let after = in_use.difference(released_pages(in_use, lo, hi));
    assert(released_pages(after, lo, hi) =~= Set::<int>::empty());
    assert(after.difference(Set::<int>::empty()) =~= after);
}

/// The result of allocating a run of `pages` pages from `old`: the lowest
/// free run, now in use, or `Exhausted` with nothing changed when there is
/// no such run (or no page was requested).
pub open spec fn contiguous_allocated<const B: usize>(
    old: &PageAllocator<B>,
    new: &PageAllocator<B>,
    pages: int,
    r: Result<PhysAddr, AllocatorError>,
) -> bool {
    &&& new.managed_set() == old.managed_set()
    &&& new.ram_pages_spec() == old.ram_pages_spec()
    &&& (pages > 0 && exists|s: int| old.free_run(s, pages)) ==> exists|s: int|
        #![trigger old.free_run(s, pages)]
        {
            &&& old.free_run(s, pages)
            &&& forall|s2: int| 0 <= s2 < s ==> !old.free_run(s2, pages)
            &&& r == Ok::<PhysAddr, AllocatorError>(PhysAddr::spec_new((s * PAGE_SIZE) as u64))
            &&& new.in_use_set() == old.in_use_set().union(Set::new(|j: int| s <= j < s + pages))
        }
    &&& !(pages > 0 && exists|s: int| old.free_run(s, pages)) ==> r == Err::<
        PhysAddr,
        AllocatorError,
    >(AllocatorError::Exhausted) && new.in_use_set() == old.in_use_set()
}


/// What freeing `page` does: an unaligned page or one beyond the aperture is
/// refused; a reserved page or an unused one is refused as such; an in-use
/// page becomes unused. Nothing else changes.
pub open spec fn page_freed<const B: usize>(
    old: &PageAllocator<B>,
    new: &PageAllocator<B>,
    page: PhysAddr,
    r: Result<(), AllocatorError>,
) -> bool {
    &&& new.managed_set() == old.managed_set()
    &&& new.ram_pages_spec() == old.ram_pages_spec()
    &&& page@ % PAGE_SIZE != 0 ==> r == Err::<(), AllocatorError>(AllocatorError::UnalignedPage)
    &&& page@ % PAGE_SIZE == 0 && page@ / PAGE_SIZE >= PageAllocator::<B>::page_count() ==> r
        == Err::<(), AllocatorError>(AllocatorError::PhysicalAddressOutOfRange)
    &&& page@ % PAGE_SIZE == 0 && page@ / PAGE_SIZE < PageAllocator::<B>::page_count() ==> {
        let i = (page@ / PAGE_SIZE) as int;
        match old.state_of(i) {
            PageState::Reserved => r == Err::<(), AllocatorError>(AllocatorError::ReservedPage),
            PageState::Unused => r == Err::<(), AllocatorError>(AllocatorError::DoubleFree),
            PageState::InUse => r is Ok && new.in_use_set() == old.in_use_set().remove(i),
        }
    }
    &&& r is Err ==> new.in_use_set() == old.in_use_set()
}

/// Freeing the page that an allocation returned gives it back: the freeing
/// succeeds, and the allocator is left with the pages in use that it had
/// before the allocation.
pub proof fn law_free_undoes_allocate<const B: usize>(
    a0: &PageAllocator<B>,
    a1: &PageAllocator<B>,
    a2: &PageAllocator<B>,
    page: PhysAddr,
    r: Result<(), AllocatorError>,
)
    requires
        a0.wf(),
        contiguous_allocated(a0, a1, 1, Ok::<PhysAddr, AllocatorError>(page)),
        page_freed(a1, a2, page, r),
    ensures
        r is Ok,
        a2.in_use_set() == a0.in_use_set(),
        a2.managed_set() == a0.managed_set(),
{
    let s = choose|s: int| {
        &&& a0.free_run(s, 1)
        &&& forall|s2: int| 0 <= s2 < s ==> !a0.free_run(s2, 1)
        &&& Ok::<PhysAddr, AllocatorError>(page) == Ok::<PhysAddr, AllocatorError>(
            PhysAddr::spec_new((s * PAGE_SIZE) as u64),
        )
        &&& a1.in_use_set() == a0.in_use_set().union(Set::new(|j: int| s <= j < s + 1))
    };
    assert(a0.state_of(s) == PageState::Unused);
    PhysAddr::lemma_spec_new((s * PAGE_SIZE) as u64);
    assert(page@ == s * PAGE_SIZE);
    assert(page@ % PAGE_SIZE == 0);
    assert(page@ / PAGE_SIZE == s);
    assert(Set::new(|j: int| s <= j < s + 1).contains(s));
    assert(a1.state_of(s) == PageState::InUse);
    assert(a2.in_use_set() =~= a0.in_use_set());
}

impl AllocatorError {
    /// The error as it is shown: the variant's name, with the region error's in brackets.
    pub open spec fn debug_text(self) -> Seq<char> {
        match self {
            AllocatorError::AddressOverflow => "AddressOverflow"@,
            AllocatorError::NotInitialized => "NotInitialized"@,
            AllocatorError::InvalidRegion(e) => "InvalidRegion("@ + e.debug_text() + ")"@,
            AllocatorError::PhysicalAddressOutOfRange => "PhysicalAddressOutOfRange"@,
            AllocatorError::Exhausted => "Exhausted"@,
            AllocatorError::UnalignedPage => "UnalignedPage"@,
            AllocatorError::ReservedPage => "ReservedPage"@,
            AllocatorError::DoubleFree => "DoubleFree"@,
            AllocatorError::InvalidIpa => "InvalidIpa"@,
            AllocatorError::OverlappingIpa => "OverlappingIpa"@,
            AllocatorError::AlreadyAllocated => "AlreadyAllocated"@,
            AllocatorError::InvalidateParameter => "InvalidateParameter"@,
            AllocatorError::Unexpected => "Unexpected"@,
        }
    }

    /// The error as it is shown.
    pub fn to_string(&self) -> (r: String)
        ensures
            r@ == self.debug_text(),
    {
        match self {
            AllocatorError::AddressOverflow => {
                String::from_str("AddressOverflow")
            }
            AllocatorError::NotInitialized => {
                String::from_str("NotInitialized")
            }
            AllocatorError::InvalidRegion(e) => {
                let mut text = String::from_str("InvalidRegion(");
                text.append(e.debug_name());
                text.append(")");
                text
            }
            AllocatorError::PhysicalAddressOutOfRange => {
                String::from_str("PhysicalAddressOutOfRange")
            }
            AllocatorError::Exhausted => {
                String::from_str("Exhausted")
            }
            AllocatorError::UnalignedPage => {
                String::from_str("UnalignedPage")
            }
            AllocatorError::ReservedPage => {
                String::from_str("ReservedPage")
            }
            AllocatorError::DoubleFree => {
                String::from_str("DoubleFree")
            }
            AllocatorError::InvalidIpa => {
                String::from_str("InvalidIpa")
            }
            AllocatorError::OverlappingIpa => {
                String::from_str("OverlappingIpa")
            }
            AllocatorError::AlreadyAllocated => {
                String::from_str("AlreadyAllocated")
            }
            AllocatorError::InvalidateParameter => {
                String::from_str("InvalidateParameter")
            }
            AllocatorError::Unexpected => {
                String::from_str("Unexpected")
            }
        }
    }
}

} // verus!
