//! Identity mappings of tvisor's own image and devices in its EL2 stage-1
//! tables, and the check that the bootstrap tables map what tvisor needs.
use vstd::prelude::*;
use vstd::string::StringExecFns;
use crate::el2_translation::{
    Mapping, MemoryType, TableModel, TableSet, TableStorage, Translation, TranslationError,
    chunk_level, expected_translation, mapped, mapping_check, pa_bits_from_parange, pa_bits_of,
    storage_full, table_in_way, translates, walk_model, reach, grown_within, grown_over, model_wf,
    lemma_grown_over_refl, lemma_grown_over_widen, lemma_grown_over_trans, lemma_way_was_there,
    lemma_way_in_block, lemma_chunk_level_is_block_rule, block_rule, fits_block, level_bytes,
    entry_index, walk_from, table_index_of, next_table_pa,
};
use crate::aarch64_reg::{HcrEl2, IdAa64Mmfr0El1, bit_is_one};
use crate::gicv2::GicV2Info;
use crate::page_allocator::{
    AllocatorError, AllocatorStats, PageAllocator, PageBitmap, PageState, align_down, align_up,
    page_ceil, page_covering, page_floor, count_from, first_mark_error, first_overflow, pages_of,
    prefix_pages, region_pages,
    MAX_PHYSICAL_ADDRESS, PAGE_SIZE,
};
use crate::fdt::{be_cell, read_be32};
use crate::memory_map::MemoryMap;
use crate::system_info::{FixedList, PhysAddr, PhysRegion};

verus! {

#[derive(Debug, Clone, Copy, PartialEq, Eq, Structural)]
pub enum PrepareError {
    AddressOverflow,
    Translation(TranslationError),
    Allocator(AllocatorError),
    Validation,
}

impl From<TranslationError> for PrepareError {
    fn from(error: TranslationError) -> (r: Self)
        ensures
            r == PrepareError::Translation(error),
    {
        PrepareError::Translation(error)
    }
}

impl vstd::std_specs::convert::FromSpecImpl<TranslationError> for PrepareError {
    open spec fn obeys_from_spec() -> bool {
        true
    }

    open spec fn from_spec(error: TranslationError) -> PrepareError {
        PrepareError::Translation(error)
    }
}

impl From<AllocatorError> for PrepareError {
    fn from(error: AllocatorError) -> (r: Self)
        ensures
            r == PrepareError::Allocator(error),
    {
        PrepareError::Allocator(error)
    }
}

impl vstd::std_specs::convert::FromSpecImpl<AllocatorError> for PrepareError {
    open spec fn obeys_from_spec() -> bool {
        true
    }

    open spec fn from_spec(error: AllocatorError) -> PrepareError {
        PrepareError::Allocator(error)
    }
}

#[derive(Debug, Clone, Copy, PartialEq, Eq, Structural)]
pub struct BootstrapPageTable {
    pub root_pa: u64,
    pub pa_range: u8,
}

#[derive(Debug, Clone, Copy, PartialEq, Eq, Structural)]
pub struct AllocatorInitResult {
    pub stats: AllocatorStats,
    pub live_dtb: PhysRegion,
}

#[derive(Debug, Clone, Copy, PartialEq, Eq, Structural)]
pub enum AllocatorInitError {
    Allocator(AllocatorError),
    InvalidDtb,
    DtbAllocatable,
}

impl From<AllocatorError> for AllocatorInitError {
    fn from(error: AllocatorError) -> (r: Self)
        ensures
            r == AllocatorInitError::Allocator(error),
    {
        AllocatorInitError::Allocator(error)
    }
}

impl vstd::std_specs::convert::FromSpecImpl<AllocatorError> for AllocatorInitError {
    open spec fn obeys_from_spec() -> bool {
        true
    }

    open spec fn from_spec(error: AllocatorError) -> AllocatorInitError {
        AllocatorInitError::Allocator(error)
    }
}

/// The mapping of `[start, end)` onto itself.
pub open spec fn identity_mapping(
    start: u64,
    end: u64,
    memory_type: MemoryType,
    writable: bool,
    executable: bool,
) -> Mapping {
    Mapping { va: start, pa: start, size: (end - start) as u64, memory_type, writable, executable }
}

/// The whole pages from `start` to `end`; none where the range is empty.
pub open spec fn span_pages(start: int, end: int) -> int {
    if start < end {
        (end - start) / 4096
    } else {
        0
    }
}

/// How installing `mapping` through the tables ended, as a preparation
/// error: the mapping's own check fails exactly where the tables refuse it,
/// and otherwise only running out of pages or meeting a conflicting entry
/// stops it.
pub open spec fn install_result(
    old: TableModel,
    new: TableModel,
    pa_bits: u8,
    mapping: Mapping,
    r: Result<(), PrepareError>,
) -> bool {
    &&& mapped(old, new, mapping, r is Ok)
    &&& mapping_check(mapping, pa_bits) matches Some(e) ==> r == Err::<(), PrepareError>(
        PrepareError::Translation(e),
    ) && new == old
    &&& mapping_check(mapping, pa_bits) is None && r is Err ==> r == Err::<(), PrepareError>(
        PrepareError::Translation(TranslationError::TableExhausted),
    ) || r == Err::<(), PrepareError>(PrepareError::Translation(TranslationError::ConflictingEntry))
    &&& r == Err::<(), PrepareError>(PrepareError::Translation(TranslationError::TableExhausted))
        ==> storage_full(new) && old.used + 2 * (mapping.size / 4096) > old.pages.len()
        && missing_table(old, mapping)
    &&& new.used <= old.used + 2 * (mapping.size / 4096)
    &&& r == Err::<(), PrepareError>(PrepareError::Translation(TranslationError::ConflictingEntry))
        ==> conflicts(old, mapping)
    &&& r is Ok ==> free_or_same(old, mapping)
    &&& grown_within(old, new, mapping.va as int, mapping.va + mapping.size)
}

/// Some address of `mapping` already translates in `old`, or `old` holds a
/// table where one of its leaves must go.
pub open spec fn conflicts(old: TableModel, mapping: Mapping) -> bool {
    exists|v: u64| #![trigger translates(old, v)]
        mapping.va <= v < mapping.va + mapping.size && (translates(old, v) || table_in_way(
            old,
            v,
            chunk_level(mapping.va as int, mapping.pa as int, mapping.size as int, v as int),
        ))
}

/// Some address of `mapping` lacks, in `old`, a table that its leaf needs.
pub open spec fn missing_table(old: TableModel, mapping: Mapping) -> bool {
    exists|v: u64|
        mapping.va <= v < mapping.va + mapping.size && reach(
            old,
            v,
            chunk_level(mapping.va as int, mapping.pa as int, mapping.size as int, v as int),
        ) is None
}

/// `m` grew from the fresh tables `mf`, whose root is empty, by entries
/// covering addresses of `s` only, and translates nothing outside `s`.
pub open spec fn grown_from_fresh(mf: TableModel, m: TableModel, s: Set<int>) -> bool {
    &&& model_wf(mf)
    &&& model_wf(m)
    &&& forall|i: int| 0 <= i < 512 ==> #[trigger] mf.pages[0][i] == 0u64
    &&& grown_over(mf, m, s)
    &&& forall|v: u64|
        v < 0x80_0000_0000u64 && !s.contains(v as int) ==> #[trigger] walk_model(m, v) == Ok::<
            Option<Translation>,
            TranslationError,
        >(None)
}

/// Fresh tables translate nothing and start with their root alone.
pub proof fn lemma_fresh(m: TableModel)
    requires
        model_wf(m),
        forall|i: int| 0 <= i < 512 ==> #[trigger] m.pages[0][i] == 0u64,
        forall|v: u64| v < 0x80_0000_0000u64 ==> #[trigger] walk_model(m, v) == Ok::<
            Option<Translation>,
            TranslationError,
        >(None),
    ensures
        grown_from_fresh(m, m, Set::<int>::empty()),
{
    lemma_grown_over_refl(m, Set::<int>::empty());
}

/// A mapping that avoids every address that tables grown from fresh ones
/// cover meets no conflict in them.
pub proof fn lemma_no_conflict(mf: TableModel, m: TableModel, s: Set<int>, mapping: Mapping)
    requires
        grown_from_fresh(mf, m, s),
        mapping.va % 4096 == 0,
        mapping.pa % 4096 == 0,
        mapping.size % 4096 == 0,
        mapping.va + mapping.size <= 0x80_0000_0000,
        forall|a: int| s.contains(a) ==> !(mapping.va <= a < mapping.va + mapping.size),
    ensures
        !conflicts(m, mapping),
{
    if conflicts(m, mapping) {
        let v = choose|v: u64| #![trigger translates(m, v)]
            mapping.va <= v < mapping.va + mapping.size && (translates(m, v) || table_in_way(
                m,
                v,
                chunk_level(mapping.va as int, mapping.pa as int, mapping.size as int, v as int),
            ));
        assert(!s.contains(v as int));
        assert(!translates(m, v));
        let level = chunk_level(mapping.va as int, mapping.pa as int, mapping.size as int, v as int);
        lemma_chunk_level_is_block_rule(mapping.va as int, mapping.pa as int, mapping.size as int, v as int);
        assert(1 <= level <= 2);
        let lb = level_bytes(level);
        assert(fits_block(mapping.va as int, mapping.pa as int, mapping.va + mapping.size, v as int, lb));
        let b = (v - v % (lb as u64)) as u64;
        assert(b as int == v as int - v as int % lb);
        lemma_way_in_block(m, v, level);
        assert(b % (lb as u64) == 0) by {
            vstd::arithmetic::div_mod::lemma_fundamental_div_mod(v as int, lb);
            vstd::arithmetic::div_mod::lemma_mod_multiples_basic(v as int / lb, lb);
            assert(b as int == (v as int / lb) * lb);
        }
        lemma_way_was_there(mf, m, s, b, level);
        assert(mf.pages[0][entry_index(1, b as int)] == 0u64) by {
            assert(0 <= entry_index(1, b as int) < 512);
        }
        assert(0u64 & 1 == 0) by {
            crate::page::lemma_bit_constants();
        }
        assert(reach(mf, b, 1) == Some(0int));
        if level == 2 {
            assert(reach(mf, b, 2) is None);
        }
        assert(!table_in_way(mf, b, level));
        assert(false);
    }
}

/// The block of `level` holding `v` lies inside `[lo, hi)`.
pub open spec fn block_inside(v: int, level: int, lo: int, hi: int) -> bool {
    lo <= v - v % level_bytes(level) && v - v % level_bytes(level) + level_bytes(level) <= hi
}

/// A conflict met mapping a range that tables grown from `m0` have not
/// touched was there in `m0`: an address of the range translated, or a
/// table lay where a block leaf inside the range must go.
pub proof fn lemma_conflict_was_there(m0: TableModel, m: TableModel, s: Set<int>, mapping: Mapping)
    requires
        model_wf(m0),
        model_wf(m),
        grown_over(m0, m, s),
        forall|v: u64| v < 0x80_0000_0000u64 && !s.contains(v as int) ==> #[trigger] walk_model(m, v)
            == walk_model(m0, v),
        mapping.va % 4096 == 0,
        mapping.pa % 4096 == 0,
        mapping.size % 4096 == 0,
        mapping.va + mapping.size <= 0x80_0000_0000,
        forall|a: int| s.contains(a) ==> !(mapping.va <= a < mapping.va + mapping.size),
        conflicts(m, mapping),
    ensures
        exists|v: u64| #![trigger translates(m0, v)]
            mapping.va <= v < mapping.va + mapping.size && (translates(m0, v) || exists|level: int|
                1 <= level <= 2 && #[trigger] table_in_way(m0, v, level) && block_inside(
                    v as int,
                    level,
                    mapping.va as int,
                    mapping.va + mapping.size,
                )),
{
    let v = choose|v: u64| #![trigger translates(m, v)]
        mapping.va <= v < mapping.va + mapping.size && (translates(m, v) || table_in_way(
            m,
            v,
            chunk_level(mapping.va as int, mapping.pa as int, mapping.size as int, v as int),
        ));
    assert(!s.contains(v as int));
    if translates(m, v) {
        assert(translates(m0, v));
    } else {
        let level = chunk_level(mapping.va as int, mapping.pa as int, mapping.size as int, v as int);
        lemma_chunk_level_is_block_rule(mapping.va as int, mapping.pa as int, mapping.size as int, v as int);
        assert(1 <= level <= 2);
        let lb = level_bytes(level);
        assert(fits_block(mapping.va as int, mapping.pa as int, mapping.va + mapping.size, v as int, lb));
        let b = (v - v % (lb as u64)) as u64;
        assert(b as int == v as int - v as int % lb);
        lemma_way_in_block(m, v, level);
        lemma_way_in_block(m0, v, level);
        assert(b % (lb as u64) == 0) by {
            vstd::arithmetic::div_mod::lemma_fundamental_div_mod(v as int, lb);
            vstd::arithmetic::div_mod::lemma_mod_multiples_basic(v as int / lb, lb);
            assert(b as int == (v as int / lb) * lb);
        }
        lemma_way_was_there(m0, m, s, b, level);
        assert(table_in_way(m0, v, level) && block_inside(v as int, level, mapping.va as int, mapping.va
            + mapping.size));
    }
    assert(translates(m0, v) || exists|level: int|
        1 <= level <= 2 && #[trigger] table_in_way(m0, v, level) && block_inside(
            v as int,
            level,
            mapping.va as int,
            mapping.va + mapping.size,
        ));
    assert(mapping.va <= v < mapping.va + mapping.size);
    assert(translates(m0, v) ==> exists|w: u64| #![trigger translates(m0, w)] w == v && translates(m0, w));
    assert(exists|w: u64| #![trigger translates(m0, w)]
        mapping.va <= w < mapping.va + mapping.size && (translates(m0, w) || exists|level: int|
            1 <= level <= 2 && #[trigger] table_in_way(m0, w, level) && block_inside(
                w as int,
                level,
                mapping.va as int,
                mapping.va + mapping.size,
            ))) by {
        assert(translates(m0, v) || !translates(m0, v));
    }
}

/// A successful mapping over an address range keeps the tables grown from
/// the fresh ones, now over that range too.
pub proof fn lemma_fresh_step(mf: TableModel, m: TableModel, m2: TableModel, s: Set<int>, mapping: Mapping)
    requires
        grown_from_fresh(mf, m, s),
        model_wf(m2),
        grown_within(m, m2, mapping.va as int, mapping.va + mapping.size),
        mapped(m, m2, mapping, true),
    ensures
        grown_from_fresh(mf, m2, s.union(Set::new(|a: int| mapping.va <= a < mapping.va + mapping.size))),
{
    let r = Set::new(|a: int| mapping.va <= a < mapping.va + mapping.size);
    let s2 = s.union(r);
    lemma_grown_over_widen(mf, m, s, s2);
    lemma_grown_over_trans(mf, m, m2, s2, r);
}

/// Every address of `mapping` was unmapped in `old`, or already translated
/// as `mapping` does.
pub open spec fn free_or_same(old: TableModel, mapping: Mapping) -> bool {
    forall|v: u64|
        mapping.va <= v < mapping.va + mapping.size ==> #[trigger] walk_model(old, v) == Ok::<
            Option<Translation>,
            TranslationError,
        >(None) || walk_model(old, v) == Ok::<Option<Translation>, TranslationError>(
            Some(expected_translation(mapping, v)),
        )
}

fn install<const N: usize>(tables: &mut TableSet<'_, N>, mapping: Mapping) -> (r: Result<
    (),
    PrepareError,
>)
    requires
        old(tables).wf(),
    ensures
        final(tables).wf(),
        final(tables).model().base == old(tables).model().base,
        final(tables).pa_width() == old(tables).pa_width(),
        install_result(
            old(tables).model(),
            final(tables).model(),
            old(tables).pa_width(),
            mapping,
            r,
        ),
{
    match tables.map(mapping) {
        Ok(()) => Ok(()),
        Err(e) => Err(PrepareError::from(e)),
    }
}

/// Maps `[start, end)` onto itself as Normal memory.
pub fn map_identity<const N: usize>(
    tables: &mut TableSet<'_, N>,
    start: u64,
    end: u64,
    writable: bool,
    executable: bool,
) -> (r: Result<(), PrepareError>)
    requires
        old(tables).wf(),
    ensures
        final(tables).wf(),
        final(tables).model().base == old(tables).model().base,
        final(tables).pa_width() == old(tables).pa_width(),
        start % 4096 != 0 || end % 4096 != 0 || start >= end ==> r == Err::<(), PrepareError>(
            PrepareError::Validation,
        ) && final(tables).model() == old(tables).model(),
        !(start % 4096 != 0 || end % 4096 != 0 || start >= end) ==> install_result(
            old(tables).model(),
            final(tables).model(),
            old(tables).pa_width(),
            identity_mapping(start, end, MemoryType::Normal, writable, executable),
            r,
        ),
        final(tables).model().used <= old(tables).model().used + 2 * span_pages(start as int, end as int),
        r == Err::<(), PrepareError>(PrepareError::Translation(TranslationError::TableExhausted))
            ==> old(tables).model().used + 2 * span_pages(start as int, end as int) > N,
        grown_within(old(tables).model(), final(tables).model(), start as int, end as int),
{
    proof {
        tables.lemma_wf_pages();
        lemma_grown_over_refl(tables.model(), Set::new(|a: int| start <= a < end));
    }
    assert(start & 0xfff == start % 4096) by {
        crate::page::lemma_low_bits();
    }
    assert(end & 0xfff == end % 4096) by {
        crate::page::lemma_low_bits();
    }
    if start & 0xfff != 0 || end & 0xfff != 0 || start >= end {
        return Err(PrepareError::Validation);
    }
    install(
        tables,
        Mapping {
            va: start,
            pa: start,
            size: end - start,
            memory_type: MemoryType::Normal,
            writable,
            executable,
        },
    )
}

/// Identity-maps a page-aligned MMIO region as writable, non-executable
/// Device-nGnRE memory.
pub fn map_identity_device<const N: usize>(tables: &mut TableSet<'_, N>, region: PhysRegion) -> (r:
    Result<(), PrepareError>)
    requires
        old(tables).wf(),
    ensures
        final(tables).wf(),
        final(tables).model().base == old(tables).model().base,
        final(tables).pa_width() == old(tables).pa_width(),
        region.start_spec() % 4096 != 0 || region.end_spec() % 4096 != 0 ==> r == Err::<
            (),
            PrepareError,
        >(PrepareError::Validation) && final(tables).model() == old(tables).model(),
        !(region.start_spec() % 4096 != 0 || region.end_spec() % 4096 != 0) ==> install_result(
            old(tables).model(),
            final(tables).model(),
            old(tables).pa_width(),
            identity_mapping(
                region.start_spec(),
                region.end_spec() as u64,
                MemoryType::Device,
                true,
                false,
            ),
            r,
        ),
        final(tables).model().used <= old(tables).model().used + 2 * span_pages(
            region.start_spec() as int,
            region.end_spec(),
        ),
        r == Err::<(), PrepareError>(PrepareError::Translation(TranslationError::TableExhausted))
            ==> old(tables).model().used + 2 * span_pages(region.start_spec() as int, region.end_spec())
            > N,
        grown_within(old(tables).model(), final(tables).model(), region.start_spec() as int, region.end_spec()),
{
    proof {
        tables.lemma_wf_pages();
        lemma_grown_over_refl(tables.model(), Set::new(|a: int| region.start_spec() <= a < region.end_spec()));
    }
    region.well_formed();
    let start = region.start().value();
    let end = region.end().value();
    assert(start & 0xfff == start % 4096) by {
        crate::page::lemma_low_bits();
    }
    assert(end & 0xfff == end % 4096) by {
        crate::page::lemma_low_bits();
    }
    if start & 0xfff != 0 || end & 0xfff != 0 {
        return Err(PrepareError::Validation);
    }
    install(
        tables,
        Mapping {
            va: start,
            pa: start,
            size: region.size(),
            memory_type: MemoryType::Device,
            writable: true,
            executable: false,
        },
    )
}

/// The page-aligned part of `region`: its start rounded up and its end
/// rounded down to page boundaries.
pub open spec fn in_inner(region: PhysRegion, v: int) -> bool {
    page_ceil(region.start_spec() as int) <= v < page_floor(region.end_spec())
}

/// The pages that exclusion `ex` withholds: its start rounded down and its
/// end rounded up; none where rounding its end up would overflow.
pub open spec fn excluded_range(ex: PhysRegion) -> Option<(int, int)> {
    if ex.end_spec() + 4095 > u64::MAX {
        None
    } else {
        Some((page_floor(ex.start_spec() as int), page_ceil(ex.end_spec())))
    }
}

pub open spec fn in_excluded(ex: PhysRegion, v: int) -> bool {
    excluded_range(ex) matches Some((a, b)) && a <= v < b
}

pub open spec fn excluded(exclusions: Seq<PhysRegion>, v: int) -> bool {
    exists|i: int| 0 <= i < exclusions.len() && #[trigger] in_excluded(exclusions[i], v)
}

/// Address `v` lies in the page-aligned part of a region and in no
/// exclusion.
pub open spec fn covered(regions: Seq<PhysRegion>, exclusions: Seq<PhysRegion>, v: int) -> bool {
    &&& exists|j: int| 0 <= j < regions.len() && #[trigger] in_inner(regions[j], v)
    &&& !excluded(exclusions, v)
}

/// `v` translates to itself as Normal memory with the given permissions.
pub open spec fn identity_at(m: TableModel, v: u64, writable: bool, executable: bool) -> bool {
    walk_model(m, v) matches Ok(Some(t)) && t.pa == v && t.memory_type == MemoryType::Normal
        && t.writable == writable && t.executable == executable
}

/// The page that holds address `v`.
pub open spec fn page_of(v: int) -> int {
    v - v % 4096
}

/// Page `p` lies whole inside `region`.
pub open spec fn whole_page_in(region: PhysRegion, p: int) -> bool {
    p % 4096 == 0 && region.start_spec() <= p && p + 4096 <= region.end_spec()
}

/// Page `p` is withheld by exclusion `ex`: it lies between the exclusion's
/// start rounded down and its end rounded up, where that rounding fits.
pub open spec fn page_withheld(ex: PhysRegion, p: int) -> bool {
    ex.end_spec() + 4095 <= u64::MAX && page_floor(ex.start_spec() as int) <= p < page_ceil(ex.end_spec())
}

/// The addresses that the regions-minus-exclusions maps cover are exactly
/// those whose page lies whole inside one of the regions and is withheld
/// by none of the exclusions.
pub proof fn lemma_covered_by_pages(regions: Seq<PhysRegion>, exclusions: Seq<PhysRegion>, v: int)
    requires
        0 <= v,
    ensures
        covered(regions, exclusions, v) <==> ((exists|j: int|
            0 <= j < regions.len() && #[trigger] whole_page_in(regions[j], page_of(v))) && !(exists|
            i: int,
        | 0 <= i < exclusions.len() && #[trigger] page_withheld(exclusions[i], page_of(v)))),
{
    let p = page_of(v);
    assert(p % 4096 == 0 && p <= v < p + 4096);
    assert forall|r: PhysRegion| #[trigger] in_inner(r, v) <==> whole_page_in(r, p) by {
        let s = r.start_spec() as int;
        let e = r.end_spec();
        assert(page_ceil(s) % 4096 == 0 && s <= page_ceil(s) < s + 4096) by {
            assert((s + (4096 - s % 4096) % 4096) % 4096 == 0);
        }
        assert(page_floor(e) % 4096 == 0 && page_floor(e) <= e < page_floor(e) + 4096);
    }
    assert forall|x: PhysRegion| #[trigger] in_excluded(x, v) <==> page_withheld(x, p) by {
        let s = x.start_spec() as int;
        let e = x.end_spec();
        assert(page_ceil(e) % 4096 == 0 && e <= page_ceil(e) < e + 4096) by {
            assert((e + (4096 - e % 4096) % 4096) % 4096 == 0);
        }
        assert(page_floor(s) % 4096 == 0 && page_floor(s) <= s < page_floor(s) + 4096);
    }
    if exists|j: int| 0 <= j < regions.len() && #[trigger] whole_page_in(regions[j], p) {
        let j = choose|j: int| 0 <= j < regions.len() && #[trigger] whole_page_in(regions[j], p);
        assert(in_inner(regions[j], v));
    }
    if exists|j: int| 0 <= j < regions.len() && #[trigger] in_inner(regions[j], v) {
        let j = choose|j: int| 0 <= j < regions.len() && #[trigger] in_inner(regions[j], v);
        assert(whole_page_in(regions[j], p));
    }
    if exists|i: int| 0 <= i < exclusions.len() && #[trigger] page_withheld(exclusions[i], p) {
        let i = choose|i: int| 0 <= i < exclusions.len() && #[trigger] page_withheld(exclusions[i], p);
        assert(in_excluded(exclusions[i], v));
    }
    if excluded(exclusions, v) {
        let i = choose|i: int| 0 <= i < exclusions.len() && #[trigger] in_excluded(exclusions[i], v);
        assert(page_withheld(exclusions[i], p));
    }
}

/// What mapping regions minus exclusions does, page by page: where every
/// covered address translates to itself and every other address as before,
/// an address whose page lies whole inside a region and is withheld by no
/// exclusion (its start rounded down, its end rounded up) translates to
/// itself, and any other address translates as before.
pub proof fn lemma_identity_by_pages(
    before: TableModel,
    after: TableModel,
    regions: Seq<PhysRegion>,
    exclusions: Seq<PhysRegion>,
    writable: bool,
    executable: bool,
    v: u64,
)
    requires
        forall|x: u64|
            !covered(regions, exclusions, x as int) ==> #[trigger] walk_model(after, x) == walk_model(
                before,
                x,
            ),
        forall|x: u64|
            covered(regions, exclusions, x as int) ==> #[trigger] identity_at(after, x, writable, executable),
    ensures
        (exists|j: int| 0 <= j < regions.len() && #[trigger] whole_page_in(regions[j], page_of(v as int)))
            && !(exists|i: int|
            0 <= i < exclusions.len() && #[trigger] page_withheld(exclusions[i], page_of(v as int)))
            ==> identity_at(after, v, writable, executable),
        !((exists|j: int| 0 <= j < regions.len() && #[trigger] whole_page_in(regions[j], page_of(v as int)))
            && !(exists|i: int|
            0 <= i < exclusions.len() && #[trigger] page_withheld(exclusions[i], page_of(v as int))))
            ==> walk_model(after, v) == walk_model(before, v),
{
    lemma_covered_by_pages(regions, exclusions, v as int);
    if covered(regions, exclusions, v as int) {
        assert(identity_at(after, v, writable, executable));
    } else {
        assert(walk_model(after, v) == walk_model(before, v));
    }
}

/// No two regions share a whole page.
pub open spec fn inners_apart(regions: Seq<PhysRegion>) -> bool {
    forall|i: int, j: int|
        0 <= i < j < regions.len() ==> {
            let (a, b) = (page_ceil(#[trigger] regions[i].start_spec() as int), page_floor(regions[i].end_spec()));
            let (c, d) = (page_ceil(#[trigger] regions[j].start_spec() as int), page_floor(regions[j].end_spec()));
            a >= b || c >= d || b <= c || d <= a
        }
}

/// Every region's start rounds up to a page, and the whole pages of each
/// lie in the 39-bit virtual space and below `2^pa_bits`.
pub open spec fn regions_fit(regions: Seq<PhysRegion>, pa_bits: u8) -> bool {
    forall|i: int|
        0 <= i < regions.len() ==> {
            &&& #[trigger] regions[i].start_spec() + 4095 <= u64::MAX
            &&& page_ceil(regions[i].start_spec() as int) < page_floor(regions[i].end_spec()) ==> {
                &&& page_floor(regions[i].end_spec()) <= 0x80_0000_0000
                &&& page_floor(regions[i].end_spec()) <= (1u64 << pa_bits) as int
            }
        }
}

/// Every address of the block of `level` holding `v` is covered.
pub open spec fn block_covered(regions: Seq<PhysRegion>, exclusions: Seq<PhysRegion>, v: int, level: int) -> bool {
    forall|w: int|
        v - v % level_bytes(level) <= w < v - v % level_bytes(level) + level_bytes(level)
            ==> #[trigger] covered(regions, exclusions, w)
}

/// `m0` already maps something where the covered pages go: a covered
/// address translates, or a table lies where a block leaf over covered
/// addresses must go.
pub open spec fn regions_blocked(m0: TableModel, regions: Seq<PhysRegion>, exclusions: Seq<PhysRegion>) -> bool {
    exists|v: u64| #![trigger translates(m0, v)]
        covered(regions, exclusions, v as int) && (translates(m0, v) || exists|level: int|
            1 <= level <= 2 && #[trigger] table_in_way(m0, v, level) && block_covered(
                regions,
                exclusions,
                v as int,
                level,
            ))
}

/// The addresses the regions-minus-exclusions map has handled: the whole
/// pages of the first `j` regions and `[start, cursor)`.
pub open spec fn done_set(regions: Seq<PhysRegion>, j: int, start: int, cursor: int) -> Set<int> {
    Set::new(
        |a: int| (exists|i: int| 0 <= i < j && #[trigger] in_inner(regions[i], a)) || (start <= a < cursor),
    )
}

/// Outside `s`, `m` translates as `m0` does.
pub open spec fn untouched_beyond(m0: TableModel, m: TableModel, s: Set<int>) -> bool {
    forall|v: u64| v < 0x80_0000_0000u64 && !s.contains(v as int) ==> #[trigger] walk_model(m, v)
        == walk_model(m0, v)
}

/// Translating as `m0` outside a set is translating as `m0` outside any set
/// around it.
proof fn lemma_untouched_widen(m0: TableModel, m: TableModel, s: Set<int>, s2: Set<int>)
    requires
        untouched_beyond(m0, m, s),
        s.subset_of(s2),
    ensures
        untouched_beyond(m0, m, s2),
{
}

/// Exclusion `ex` withholds pages of `[cursor, end)`.
pub open spec fn relevant(ex: PhysRegion, cursor: int, end: int) -> bool {
    excluded_range(ex) matches Some((a, b)) && b > cursor && a < end
}

/// Among the exclusions that withhold pages of `[cursor, end)`, the first
/// with the lowest start, as its page range.
fn next_exclusion<const E: usize>(exclusions: &FixedList<PhysRegion, E>, cursor: u64, end: u64) -> (r: Option<(u64, u64)>)
    ensures
        r is None ==> forall|i: int|
            0 <= i < exclusions@.len() ==> !relevant(#[trigger] exclusions@[i], cursor as int, end as int),
        r matches Some((a, b)) ==> {
            &&& exists|i: int|
                0 <= i < exclusions@.len() && relevant(#[trigger] exclusions@[i], cursor as int, end as int)
                    && excluded_range(exclusions@[i]) == Some((a as int, b as int))
            &&& forall|i: int|
                0 <= i < exclusions@.len() && relevant(#[trigger] exclusions@[i], cursor as int, end as int)
                    ==> a <= excluded_range(exclusions@[i]).unwrap().0
        },
{
    let mut next: Option<(u64, u64)> = None;
    let mut k: usize = 0;
    while k < exclusions.len()
        invariant
            k <= exclusions@.len(),
            next is None ==> forall|i: int|
                0 <= i < k ==> !relevant(#[trigger] exclusions@[i], cursor as int, end as int),
            next matches Some((a, b)) ==> {
                &&& exists|i: int|
                    0 <= i < k && relevant(#[trigger] exclusions@[i], cursor as int, end as int)
                        && excluded_range(exclusions@[i]) == Some((a as int, b as int))
                &&& forall|i: int|
                    0 <= i < k && relevant(#[trigger] exclusions@[i], cursor as int, end as int) ==> a
                        <= excluded_range(exclusions@[i]).unwrap().0
            },
        decreases exclusions@.len() - k,
    {
        let excluded = exclusions.at(k);
        let excluded_start = align_down(excluded.start().value(), 4096);
        match align_up(excluded.end().value(), 4096) {
            None => {},
            Some(excluded_end) => {
                if excluded_end > cursor && excluded_start < end {
                    let better = match next {
                        None => true,
                        Some((a, _)) => excluded_start < a,
                    };
                    if better {
                        next = Some((excluded_start, excluded_end));
                    }
                }
            },
        }
        proof {
            assert(exclusions@[k as int] == excluded);
        }
        k += 1;
    }
    next
}

/// After identity-mapping the covered piece `[c, d)`, what was identity
/// mapped stays so, the piece is identity mapped, and addresses that no
/// region covers still translate as at the start.
proof fn lemma_piece(
    before: TableModel,
    after: TableModel,
    c: u64,
    d: u64,
    writable: bool,
    executable: bool,
    regions: Seq<PhysRegion>,
    exclusions: Seq<PhysRegion>,
    m0: TableModel,
    j: int,
    start: int,
)
    requires
        c < d,
        mapped(before, after, identity_mapping(c, d, MemoryType::Normal, writable, executable), true),
        forall|v: u64| c <= v < d ==> covered(regions, exclusions, v as int),
        forall|v: u64|
            !covered(regions, exclusions, v as int) ==> #[trigger] walk_model(before, v)
                == walk_model(m0, v),
        forall|v: u64|
            (exists|i: int| 0 <= i < j && #[trigger] in_inner(regions[i], v as int)) && !excluded(
                exclusions,
                v as int,
            ) ==> #[trigger] identity_at(before, v, writable, executable),
        forall|v: u64|
            start <= v < c && !excluded(exclusions, v as int) ==> #[trigger] identity_at(
                before,
                v,
                writable,
                executable,
            ),
    ensures
        forall|v: u64|
            !covered(regions, exclusions, v as int) ==> #[trigger] walk_model(after, v)
                == walk_model(m0, v),
        forall|v: u64|
            (exists|i: int| 0 <= i < j && #[trigger] in_inner(regions[i], v as int)) && !excluded(
                exclusions,
                v as int,
            ) ==> #[trigger] identity_at(after, v, writable, executable),
        forall|v: u64|
            start <= v < d && !excluded(exclusions, v as int) ==> #[trigger] identity_at(
                after,
                v,
                writable,
                executable,
            ),
{
    let m = identity_mapping(c, d, MemoryType::Normal, writable, executable);
    assert forall|v: u64| c <= v < d implies #[trigger] identity_at(after, v, writable, executable) by {
        assert(walk_model(after, v) == Ok::<
            Option<crate::el2_translation::Translation>,
            TranslationError,
        >(Some(crate::el2_translation::expected_translation(m, v))));
    }
    assert forall|v: u64| !(c <= v < d) implies #[trigger] walk_model(after, v) == walk_model(
        before,
        v,
    ) by {}
    assert forall|v: u64|
        (exists|i: int| 0 <= i < j && #[trigger] in_inner(regions[i], v as int)) && !excluded(
            exclusions,
            v as int,
        ) implies #[trigger] identity_at(after, v, writable, executable) by {
        if !(c <= v < d) {
            assert(walk_model(after, v) == walk_model(before, v));
            assert(identity_at(before, v, writable, executable));
        }
    }
    assert forall|v: u64|
        start <= v < d && !excluded(exclusions, v as int) implies #[trigger] identity_at(
        after,
        v,
        writable,
        executable,
    ) by {
        if v < c {
            assert(walk_model(after, v) == walk_model(before, v));
            assert(identity_at(before, v, writable, executable));
        }
    }
}

/// Identity-maps the page-aligned part of each region as Normal memory,

/// Whole pages add up over adjacent page-aligned ranges.
proof fn lemma_span_add(a: int, b: int, c: int)
    requires
        a <= b <= c,
        a % 4096 == 0,
        b % 4096 == 0,
        c % 4096 == 0,
    ensures
        span_pages(a, b) + span_pages(b, c) == span_pages(a, c),
        span_pages(a, b) >= 0,
{
    assert((b - a) / 4096 + (c - b) / 4096 == (c - a) / 4096) by (nonlinear_arith)
        requires
            a <= b <= c,
            a % 4096 == 0,
            b % 4096 == 0,
            c % 4096 == 0,
    {
        assert(b - a == 4096 * ((b - a) / 4096));
        assert(c - b == 4096 * ((c - b) / 4096));
        assert(c - a == 4096 * ((b - a) / 4096) + 4096 * ((c - b) / 4096));
    }
}

/// Page counts of a prefix of `regions` grow with the prefix.
proof fn lemma_prefix_pages_mono(regions: Seq<PhysRegion>, i: int, k: int)
    requires
        i <= k,
    ensures
        prefix_pages(regions, i) <= prefix_pages(regions, k),
    decreases k - i,
{
    if i < k {
        lemma_prefix_pages_mono(regions, i, k - 1);
        if k > 0 {
            assert(prefix_pages(regions, k) == prefix_pages(regions, k - 1) + region_pages(regions[k - 1]));
        }
    }
}

/// Identity-maps the covered piece `[cursor, piece_end)` of region `j`,
/// whose whole pages start at `start`, for the regions-minus-exclusions map
/// that began from `m0`.
#[verifier::spinoff_prover]
#[verifier::rlimit(100)]
fn map_piece<const T: usize>(
    tables: &mut TableSet<'_, T>,
    cursor: u64,
    piece_end: u64,
    writable: bool,
    executable: bool,
    Ghost(m0): Ghost<TableModel>,
    Ghost(regions): Ghost<Seq<PhysRegion>>,
    Ghost(exclusions): Ghost<Seq<PhysRegion>>,
    Ghost(j): Ghost<int>,
    Ghost(start): Ghost<int>,
) -> (r: Result<(), PrepareError>)
    requires
        old(tables).wf(),
        model_wf(m0),
        0 <= j < regions.len(),
        start == page_ceil(regions[j].start_spec() as int),
        start <= cursor < piece_end <= page_floor(regions[j].end_spec()),
        cursor % 4096 == 0,
        piece_end % 4096 == 0,
        forall|v: int| cursor <= v < piece_end ==> #[trigger] covered(regions, exclusions, v),
        grown_over(m0, old(tables).model(), done_set(regions, j, start, cursor as int)),
        untouched_beyond(m0, old(tables).model(), done_set(regions, j, start, cursor as int)),
    ensures
        final(tables).wf(),
        final(tables).model().base == old(tables).model().base,
        final(tables).pa_width() == old(tables).pa_width(),
        install_result(
            old(tables).model(),
            final(tables).model(),
            old(tables).pa_width(),
            identity_mapping(cursor, piece_end, MemoryType::Normal, writable, executable),
            r,
        ),
        final(tables).model().used <= old(tables).model().used + 2 * span_pages(cursor as int, piece_end as int),
        r == Err::<(), PrepareError>(PrepareError::Translation(TranslationError::TableExhausted))
            ==> old(tables).model().used + 2 * span_pages(cursor as int, piece_end as int) > T,
        r is Err ==> r matches Err(PrepareError::Translation(_)),
        r is Ok ==> grown_over(m0, final(tables).model(), done_set(regions, j, start, piece_end as int))
            && untouched_beyond(m0, final(tables).model(), done_set(regions, j, start, piece_end as int)),
        r == Err::<(), PrepareError>(PrepareError::Translation(TranslationError::ConflictingEntry))
            ==> !inners_apart(regions) || regions_blocked(m0, regions, exclusions),
        r == Err::<(), PrepareError>(PrepareError::Translation(TranslationError::VirtualAddressOutOfRange))
            ==> piece_end > 0x80_0000_0000,
        r == Err::<(), PrepareError>(PrepareError::Translation(TranslationError::PhysicalAddressOutOfRange))
            ==> piece_end > (1u64 << old(tables).pa_width()) as int,
        r matches Err(PrepareError::Translation(e)) ==> e == TranslationError::TableExhausted || e
            == TranslationError::ConflictingEntry || e == TranslationError::VirtualAddressOutOfRange || e
            == TranslationError::PhysicalAddressOutOfRange,
        inners_apart(regions) && !regions_blocked(m0, regions, exclusions) && piece_end
            <= 0x80_0000_0000 && piece_end <= (1u64 << old(tables).pa_width()) as int && old(
            tables,
        ).model().used + 2 * span_pages(cursor as int, piece_end as int) <= T ==> r is Ok,
{
    let ghost m = tables.model();
    let ghost s = done_set(regions, j, start, cursor as int);
    let ghost mapping = identity_mapping(cursor, piece_end, MemoryType::Normal, writable, executable);
    proof {
        tables.lemma_wf_pages();
        assert(mapping.va + mapping.size == piece_end);
        if inners_apart(regions) && piece_end <= 0x80_0000_0000 {
            assert forall|a: int| s.contains(a) implies !(mapping.va <= a < mapping.va + mapping.size) by {
                if exists|i: int| 0 <= i < j && #[trigger] in_inner(regions[i], a) {
                    let i = choose|i: int| 0 <= i < j && #[trigger] in_inner(regions[i], a);
                    if mapping.va <= a < mapping.va + mapping.size {
                        assert(in_inner(regions[j], a));
                        let _ = regions[i].start_spec();
                        let _ = regions[j].start_spec();
                        assert(false);
                    }
                }
            }
            if conflicts(m, mapping) {
                lemma_conflict_was_there(m0, m, s, mapping);
                let v = choose|v: u64| #![trigger translates(m0, v)]
                    mapping.va <= v < mapping.va + mapping.size && (translates(m0, v) || exists|level: int|
                        1 <= level <= 2 && #[trigger] table_in_way(m0, v, level) && block_inside(
                            v as int,
                            level,
                            mapping.va as int,
                            mapping.va + mapping.size,
                        ));
                assert(mapping.va + mapping.size == piece_end);
                assert(covered(regions, exclusions, v as int));
                if !translates(m0, v) {
                    let level = choose|level: int|
                        1 <= level <= 2 && #[trigger] table_in_way(m0, v, level) && block_inside(
                            v as int,
                            level,
                            mapping.va as int,
                            mapping.va + mapping.size,
                        );
                    let x = v as int;
                    assert forall|w: int|
                        x - x % level_bytes(level) <= w < x - x % level_bytes(level) + level_bytes(level)
                            implies #[trigger] covered(regions, exclusions, w) by {
                        assert(cursor <= w < piece_end);
                    }
                    assert(block_covered(regions, exclusions, v as int, level));
                }
                assert(regions_blocked(m0, regions, exclusions));
            }
        }
    }
    let r = map_identity(tables, cursor, piece_end, writable, executable);
    proof {
        tables.lemma_wf_pages();
        if r is Ok {
            let s2 = done_set(regions, j, start, piece_end as int);
            let pr = Set::new(|a: int| cursor <= a < piece_end);
            assert(s.subset_of(s2));
            assert(pr.subset_of(s2));
            lemma_grown_over_widen(m0, m, s, s2);
            lemma_grown_over_trans(m0, m, tables.model(), s2, pr);
            assert forall|v: u64| v < 0x80_0000_0000u64 && !s2.contains(v as int) implies #[trigger] walk_model(
                tables.model(),
                v,
            ) == walk_model(m0, v) by {
                assert(!(cursor <= v < piece_end));
                assert(walk_model(tables.model(), v) == walk_model(m, v));
            }
        }
    }
    r
}


/// leaving out every page that an exclusion touches.
#[verifier::spinoff_prover]
#[verifier::rlimit(100)]
pub fn map_identity_regions_excluding<const T: usize, const R: usize, const E: usize>(
    tables: &mut TableSet<'_, T>,
    regions: &FixedList<PhysRegion, R>,
    exclusions: &FixedList<PhysRegion, E>,
    writable: bool,
    executable: bool,
) -> (r: Result<(), PrepareError>)
    requires
        old(tables).wf(),
    ensures
        final(tables).wf(),
        final(tables).model().base == old(tables).model().base,
        final(tables).pa_width() == old(tables).pa_width(),
        r is Err ==> r == Err::<(), PrepareError>(PrepareError::AddressOverflow) || r matches Err(
            PrepareError::Translation(_),
        ),
        r == Err::<(), PrepareError>(PrepareError::AddressOverflow) ==> exists|j: int|
            0 <= j < regions@.len() && #[trigger] regions@[j].start_spec() + 4095 > u64::MAX,
        r == Err::<(), PrepareError>(PrepareError::Translation(TranslationError::TableExhausted))
            ==> storage_full(final(tables).model()) && old(tables).model().used + 2 * prefix_pages(
            regions@,
            regions@.len() as int,
        ) > T,
        forall|v: u64|
            !covered(regions@, exclusions@, v as int) ==> #[trigger] walk_model(
                final(tables).model(),
                v,
            ) == walk_model(old(tables).model(), v),
        r is Ok ==> forall|v: u64|
            covered(regions@, exclusions@, v as int) ==> #[trigger] identity_at(
                final(tables).model(),
                v,
                writable,
                executable,
            ),
        r == Err::<(), PrepareError>(PrepareError::Translation(TranslationError::ConflictingEntry))
            ==> !inners_apart(regions@) || regions_blocked(old(tables).model(), regions@, exclusions@),
        r == Err::<(), PrepareError>(PrepareError::Translation(TranslationError::VirtualAddressOutOfRange))
            ==> exists|j: int|
            0 <= j < regions@.len() && page_ceil(#[trigger] regions@[j].start_spec() as int) < page_floor(
                regions@[j].end_spec(),
            ) && page_floor(regions@[j].end_spec()) > 0x80_0000_0000,
        r == Err::<(), PrepareError>(PrepareError::Translation(TranslationError::PhysicalAddressOutOfRange))
            ==> exists|j: int|
            0 <= j < regions@.len() && page_ceil(#[trigger] regions@[j].start_spec() as int) < page_floor(
                regions@[j].end_spec(),
            ) && page_floor(regions@[j].end_spec()) > (1u64 << old(tables).pa_width()) as int,
        r matches Err(PrepareError::Translation(e)) ==> e == TranslationError::TableExhausted || e
            == TranslationError::ConflictingEntry || e == TranslationError::VirtualAddressOutOfRange || e
            == TranslationError::PhysicalAddressOutOfRange,
        inners_apart(regions@) && regions_fit(regions@, old(tables).pa_width()) && old(
            tables,
        ).model().used + 2 * prefix_pages(regions@, regions@.len() as int) <= T && !regions_blocked(
            old(tables).model(),
            regions@,
            exclusions@,
        ) ==> r is Ok,
{
    let rs = regions;
    let es = exclusions;
    let ghost m0 = tables.model();
    proof {
        tables.lemma_wf_pages();
        lemma_grown_over_refl(m0, done_set(regions@, 0, 0, 0));
    }
    let mut j: usize = 0;
    while j < rs.len()
        invariant
            tables.wf(),
            m0 == old(tables).model(),
            tables.model().base == old(tables).model().base,
            tables.pa_width() == old(tables).pa_width(),
            rs@ == regions@,
            es@ == exclusions@,
            j <= rs@.len(),
            tables.model().used <= m0.used + 2 * prefix_pages(regions@, j as int),
            model_wf(m0),
            grown_over(m0, tables.model(), done_set(regions@, j as int, 0, 0)),
            untouched_beyond(m0, tables.model(), done_set(regions@, j as int, 0, 0)),
            forall|v: u64|
                !covered(regions@, exclusions@, v as int) ==> #[trigger] walk_model(
                    tables.model(),
                    v,
                ) == walk_model(m0, v),
            forall|v: u64|
                (exists|i: int| 0 <= i < j && #[trigger] in_inner(regions@[i], v as int))
                    && !excluded(exclusions@, v as int) ==> #[trigger] identity_at(
                    tables.model(),
                    v,
                    writable,
                    executable,
                ),
        decreases rs@.len() - j,
    {
        let region = rs.at(j);
        let start = match align_up(region.start().value(), 4096) {
            Some(s) => s,
            None => {
                proof {
                    assert(regions@[j as int].start_spec() + 4095 > u64::MAX);
                }
                return Err(PrepareError::AddressOverflow);
            },
        };
        let end = align_down(region.end().value(), 4096);
        let ghost u_j = tables.model().used;
        proof {
            lemma_prefix_pages_mono(regions@, j as int + 1, regions@.len() as int);
        }
        let mut cursor = start;
        proof {
            assert(done_set(regions@, j as int, 0, 0) =~= done_set(regions@, j as int, start as int, cursor as int));
        }
        while cursor < end
            invariant
                tables.wf(),
                m0 == old(tables).model(),
                tables.model().base == old(tables).model().base,
                tables.pa_width() == old(tables).pa_width(),
                rs@ == regions@,
                es@ == exclusions@,
                j < rs@.len(),
                region == regions@[j as int],
                start == page_ceil(region.start_spec() as int),
                end == page_floor(region.end_spec()),
                start <= cursor,
                cursor <= end || cursor == start,
                cursor % 4096 == 0,
                end % 4096 == 0,
                start % 4096 == 0,
                u_j <= m0.used + 2 * prefix_pages(regions@, j as int),
                prefix_pages(regions@, j as int + 1) <= prefix_pages(regions@, regions@.len() as int),
                model_wf(m0),
                grown_over(m0, tables.model(), done_set(regions@, j as int, start as int, cursor as int)),
                untouched_beyond(m0, tables.model(), done_set(regions@, j as int, start as int, cursor as int)),
                tables.model().used <= u_j + 2 * span_pages(start as int, cursor as int),
                forall|v: u64|
                    !covered(regions@, exclusions@, v as int) ==> #[trigger] walk_model(
                        tables.model(),
                        v,
                    ) == walk_model(m0, v),
                forall|v: u64|
                    (exists|i: int| 0 <= i < j && #[trigger] in_inner(regions@[i], v as int))
                        && !excluded(exclusions@, v as int) ==> #[trigger] identity_at(
                        tables.model(),
                        v,
                        writable,
                        executable,
                    ),
                forall|v: u64|
                    start <= v < cursor && !excluded(exclusions@, v as int) ==> #[trigger] identity_at(
                        tables.model(),
                        v,
                        writable,
                        executable,
                    ),
            decreases end - cursor,
        {
            let next = next_exclusion(es, cursor, end);
            match next {
                None => {
                    proof {
                        assert forall|v: u64| cursor <= v < end implies covered(
                            regions@,
                            exclusions@,
                            v as int,
                        ) by {
                            assert forall|i: int| 0 <= i < exclusions@.len() implies !in_excluded(
                                #[trigger] exclusions@[i],
                                v as int,
                            ) by {
                                assert(!relevant(exclusions@[i], cursor as int, end as int));
                            }
                            assert(in_inner(regions@[j as int], v as int));
                        }
                    }
                    let ghost before = tables.model();
                    proof {
                        lemma_span_add(start as int, cursor as int, end as int);
                    }
                    map_piece(
                        tables,
                        cursor,
                        end,
                        writable,
                        executable,
                        Ghost(m0),
                        Ghost(regions@),
                        Ghost(exclusions@),
                        Ghost(j as int),
                        Ghost(start as int),
                    )?;
                    proof {
                        lemma_piece(
                            before,
                            tables.model(),
                            cursor,
                            end,
                            writable,
                            executable,
                            regions@,
                            exclusions@,
                            m0,
                            j as int,
                            start as int,
                        );
                    }
                    cursor = end;
                },
                Some((excluded_start, excluded_end)) => {
                    let ghost old_cursor = cursor;
                    proof {
                        let i = choose|i: int|
                            0 <= i < exclusions@.len() && relevant(
                                #[trigger] exclusions@[i],
                                cursor as int,
                                end as int,
                            ) && excluded_range(exclusions@[i]) == Some(
                                (excluded_start as int, excluded_end as int),
                            );
                        assert forall|v: u64|
                            cursor <= v < excluded_start && v < end implies covered(
                            regions@,
                            exclusions@,
                            v as int,
                        ) by {
                            assert forall|i2: int| 0 <= i2 < exclusions@.len() implies !in_excluded(
                                #[trigger] exclusions@[i2],
                                v as int,
                            ) by {
                                if in_excluded(exclusions@[i2], v as int) {
                                    assert(relevant(exclusions@[i2], cursor as int, end as int));
                                }
                            }
                            assert(in_inner(regions@[j as int], v as int));
                        }
                        assert forall|v: u64| excluded_start <= v < excluded_end implies excluded(
                            exclusions@,
                            v as int,
                        ) by {
                            assert(in_excluded(exclusions@[i], v as int));
                        }
                    }
                    if excluded_start > cursor {
                        let piece_end = if excluded_start < end {
                            excluded_start
                        } else {
                            end
                        };
                        let ghost before = tables.model();
                        proof {
                            lemma_span_add(start as int, cursor as int, piece_end as int);
                            lemma_span_add(start as int, piece_end as int, end as int);
                        }
                        map_piece(
                            tables,
                            cursor,
                            piece_end,
                            writable,
                            executable,
                            Ghost(m0),
                            Ghost(regions@),
                            Ghost(exclusions@),
                            Ghost(j as int),
                            Ghost(start as int),
                        )?;
                        proof {
                            lemma_piece(
                                before,
                                tables.model(),
                                cursor,
                                piece_end,
                                writable,
                                executable,
                                regions@,
                                exclusions@,
                                m0,
                                j as int,
                                start as int,
                            );
                        }
                    }
                    let advanced = if excluded_end > cursor {
                        excluded_end
                    } else {
                        cursor
                    };
                    proof {
                        lemma_span_add(start as int, cursor as int, end as int);
                        if advanced < end {
                            lemma_span_add(start as int, cursor as int, advanced as int);
                        }
                    }
                    let ghost s_now = if excluded_start > old_cursor {
                        done_set(
                            regions@,
                            j as int,
                            start as int,
                            if excluded_start < end { excluded_start as int } else { end as int },
                        )
                    } else {
                        done_set(regions@, j as int, start as int, old_cursor as int)
                    };
                    cursor = if advanced < end {
                        advanced
                    } else {
                        end
                    };
                    proof {
                        let s2 = done_set(regions@, j as int, start as int, cursor as int);
                        assert(s_now.subset_of(s2));
                        lemma_grown_over_widen(m0, tables.model(), s_now, s2);
                        lemma_untouched_widen(m0, tables.model(), s_now, s2);
                    }
                },
            }
        }
        proof {
            if cursor != start {
                lemma_span_add(start as int, cursor as int, end as int);
            }
            let s_in = done_set(regions@, j as int, start as int, cursor as int);
            let s_out = done_set(regions@, j as int + 1, 0, 0);
            assert forall|a: int| s_in.contains(a) implies s_out.contains(a) by {
                if start <= a < cursor {
                    assert(in_inner(regions@[j as int], a));
                } else {
                    let i = choose|i: int| 0 <= i < j && #[trigger] in_inner(regions@[i], a);
                    assert(0 <= i < j + 1);
                }
            }
            lemma_grown_over_widen(m0, tables.model(), s_in, s_out);
            lemma_untouched_widen(m0, tables.model(), s_in, s_out);
            assert(prefix_pages(regions@, j as int + 1) == prefix_pages(regions@, j as int) + region_pages(
                regions@[j as int],
            ));
            assert forall|v: u64|
                (exists|i: int| 0 <= i < j + 1 && #[trigger] in_inner(regions@[i], v as int))
                    && !excluded(exclusions@, v as int) implies #[trigger] identity_at(
                tables.model(),
                v,
                writable,
                executable,
            ) by {
                if in_inner(regions@[j as int], v as int) {
                } else {
                    let i = choose|i: int| 0 <= i < j + 1 && #[trigger] in_inner(regions@[i], v as int);
                    assert(0 <= i < j && in_inner(regions@[i], v as int));
                }
            }
        }
        j += 1;
    }
    Ok(())
}

/// The link addresses of tvisor's image sections and boot areas.
#[derive(Debug, Clone, Copy, PartialEq, Eq, Structural)]
pub struct ImageLayout {
    pub text_start: u64,
    pub text_end: u64,
    pub vectors_start: u64,
    pub vectors_end: u64,
    pub rodata_start: u64,
    pub rodata_end: u64,
    pub writable_start: u64,
    pub writable_end: u64,
    pub boot_stack_guard_start: u64,
    pub boot_stack_guard_end: u64,
    pub boot_stack_bottom: u64,
    pub boot_stack_top: u64,
    pub bootstrap_tables_start: u64,
    pub bootstrap_tables_end: u64,
    pub payload_start: u64,
    pub payload_end: u64,
}

/// Why address `va` fails to translate to itself with the given
/// attributes, if it does.
pub open spec fn identity_check(
    m: TableModel,
    va: u64,
    writable: bool,
    executable: bool,
    memory_type: MemoryType,
) -> Option<PrepareError> {
    match walk_model(m, va) {
        Err(e) => Some(PrepareError::Translation(e)),
        Ok(None) => Some(PrepareError::Validation),
        Ok(Some(t)) => if t.pa != va || t.writable != writable || t.executable != executable
            || t.memory_type != memory_type {
            Some(PrepareError::Validation)
        } else {
            None
        },
    }
}

/// Why guard address `va` fails to be unmapped, if it does.
pub open spec fn guard_check(m: TableModel, va: u64) -> Option<PrepareError> {
    match walk_model(m, va) {
        Err(e) => Some(PrepareError::Translation(e)),
        Ok(Some(_)) => Some(PrepareError::Validation),
        Ok(None) => None,
    }
}

/// The addresses that the bootstrap tables must map to themselves, with
/// their writability, executability and memory type.
pub open spec fn bootstrap_checks(layout: ImageLayout, uart: u64, live_dtb_pages: PhysRegion) -> Seq<
    (u64, bool, bool, MemoryType),
> {
    seq![
        (layout.text_start, false, true, MemoryType::Normal),
        (layout.payload_start, false, false, MemoryType::Normal),
        ((layout.payload_end - 1) as u64, false, false, MemoryType::Normal),
        (layout.vectors_start, false, true, MemoryType::Normal),
        (layout.rodata_start, false, false, MemoryType::Normal),
        (layout.writable_start, true, false, MemoryType::Normal),
        (layout.boot_stack_bottom, true, false, MemoryType::Normal),
        (layout.bootstrap_tables_start, true, false, MemoryType::Normal),
        ((layout.bootstrap_tables_end - 1) as u64, true, false, MemoryType::Normal),
        (live_dtb_pages.start_spec(), false, false, MemoryType::Normal),
        ((live_dtb_pages.end_spec() - 1) as u64, false, false, MemoryType::Normal),
        (uart, true, false, MemoryType::Device),
    ]
}

/// The first failing check among `checks[i..]`.
pub open spec fn first_check_error(m: TableModel, checks: Seq<(u64, bool, bool, MemoryType)>, i: int) -> Option<
    PrepareError,
>
    decreases checks.len() - i,
{
    if i < 0 || i >= checks.len() {
        None
    } else {
        match identity_check(m, checks[i].0, checks[i].1, checks[i].2, checks[i].3) {
            Some(e) => Some(e),
            None => first_check_error(m, checks, i + 1),
        }
    }
}

/// Why the bootstrap tables fail to map what tvisor needs, if they do: the
/// identity checks in order, then the first and last byte of the stack guard,
/// which must stay unmapped.
pub open spec fn bootstrap_validation(
    m: TableModel,
    layout: ImageLayout,
    uart: u64,
    live_dtb_pages: PhysRegion,
) -> Option<PrepareError> {
    match first_check_error(m, bootstrap_checks(layout, uart, live_dtb_pages), 0) {
        Some(e) => Some(e),
        None => match guard_check(m, layout.boot_stack_guard_start) {
            Some(e) => Some(e),
            None => guard_check(m, (layout.boot_stack_guard_end - 1) as u64),
        },
    }
}

/// Checks that the bootstrap tables map tvisor's sections, the live DTB and
/// the UART to themselves with the intended attributes, and leave the stack
/// guard unmapped.
pub fn validate_bootstrap_page_table<const N: usize>(
    tables: &TableSet<'_, N>,
    layout: &ImageLayout,
    uart: u64,
    live_dtb_pages: PhysRegion,
) -> (r: Result<(), PrepareError>)
    requires
        tables.wf(),
        layout.payload_end >= 1,
        layout.bootstrap_tables_end >= 1,
        layout.boot_stack_guard_end >= 1,
    ensures
        r == (match bootstrap_validation(tables.model(), *layout, uart, live_dtb_pages) {
            Some(e) => Err(e),
            None => Ok(()),
        }),
{
    let arena_start = layout.bootstrap_tables_start;
    let arena_end = layout.bootstrap_tables_end;
    live_dtb_pages.well_formed();
    let checks = [
        (layout.text_start, false, true, MemoryType::Normal),
        (layout.payload_start, false, false, MemoryType::Normal),
        (layout.payload_end - 1, false, false, MemoryType::Normal),
        (layout.vectors_start, false, true, MemoryType::Normal),
        (layout.rodata_start, false, false, MemoryType::Normal),
        (layout.writable_start, true, false, MemoryType::Normal),
        (layout.boot_stack_bottom, true, false, MemoryType::Normal),
        (arena_start, true, false, MemoryType::Normal),
        (arena_end - 1, true, false, MemoryType::Normal),
        (live_dtb_pages.start().value(), false, false, MemoryType::Normal),
        (live_dtb_pages.end().value() - 1, false, false, MemoryType::Normal),
        (uart, true, false, MemoryType::Device),
    ];
    let ghost m = tables.model();
    let ghost expected = bootstrap_checks(*layout, uart, live_dtb_pages);
    proof {
        assert(checks@ =~= expected);
    }
    let mut i: usize = 0;
    while i < 12
        invariant
            tables.wf(),
            m == tables.model(),
            checks@ == expected,
            expected == bootstrap_checks(*layout, uart, live_dtb_pages),
            i <= 12,
            first_check_error(m, expected, 0) == first_check_error(m, expected, i as int),
        decreases 12 - i,
    {
        let (va, writable, executable, memory_type) = checks[i];
        let translation = match tables.walk(va) {
            Err(e) => return Err(PrepareError::Translation(e)),
            Ok(None) => return Err(PrepareError::Validation),
            Ok(Some(t)) => t,
        };
        if translation.pa != va || translation.writable != writable || translation.executable
            != executable || translation.memory_type != memory_type {
            return Err(PrepareError::Validation);
        }
        i += 1;
    }
    let guard_first = layout.boot_stack_guard_start;
    let guard_last = layout.boot_stack_guard_end - 1;
    match tables.walk(guard_first) {
        Err(e) => return Err(PrepareError::Translation(e)),
        Ok(Some(_)) => return Err(PrepareError::Validation),
        Ok(None) => {},
    }
    match tables.walk(guard_last) {
        Err(e) => return Err(PrepareError::Translation(e)),
        Ok(Some(_)) => return Err(PrepareError::Validation),
        Ok(None) => {},
    }
    Ok(())
}

/// The `i`-th mapping that the bootstrap tables are built from, in order:
/// the image's text, vectors, read-only data and writable data, the boot
/// stack, the tables themselves, the payload, the live DTB, the UART and
/// the four GIC interfaces.
pub open spec fn boot_mapping(
    layout: ImageLayout,
    live_dtb_pages: PhysRegion,
    uart_region: PhysRegion,
    gic: GicV2Info,
    i: int,
) -> Mapping {
    if i == 0 {
        identity_mapping(layout.text_start, layout.text_end, MemoryType::Normal, false, true)
    } else if i == 1 {
        identity_mapping(layout.vectors_start, layout.vectors_end, MemoryType::Normal, false, true)
    } else if i == 2 {
        identity_mapping(layout.rodata_start, layout.rodata_end, MemoryType::Normal, false, false)
    } else if i == 3 {
        identity_mapping(layout.writable_start, layout.writable_end, MemoryType::Normal, true, false)
    } else if i == 4 {
        identity_mapping(layout.boot_stack_bottom, layout.boot_stack_top, MemoryType::Normal, true, false)
    } else if i == 5 {
        identity_mapping(
            layout.bootstrap_tables_start,
            layout.bootstrap_tables_end,
            MemoryType::Normal,
            true,
            false,
        )
    } else if i == 6 {
        identity_mapping(layout.payload_start, layout.payload_end, MemoryType::Normal, false, false)
    } else if i == 7 {
        identity_mapping(
            live_dtb_pages.start_spec(),
            live_dtb_pages.end_spec() as u64,
            MemoryType::Normal,
            false,
            false,
        )
    } else {
        let region = if i == 8 {
            uart_region
        } else if i == 9 {
            gic.distributor_spec()
        } else if i == 10 {
            gic.cpu_interface_spec()
        } else if i == 11 {
            gic.hypervisor_interface_spec()
        } else {
            gic.virtual_cpu_interface_spec()
        };
        identity_mapping(region.start_spec(), region.end_spec() as u64, MemoryType::Device, true, false)
    }
}

/// The address range `[start, end)` of the `i`-th bootstrap mapping.
pub open spec fn boot_range(
    layout: ImageLayout,
    live_dtb_pages: PhysRegion,
    uart_region: PhysRegion,
    gic: GicV2Info,
    i: int,
) -> (int, int) {
    let m = boot_mapping(layout, live_dtb_pages, uart_region, gic, i);
    let end = if i == 0 {
        layout.text_end as int
    } else if i == 1 {
        layout.vectors_end as int
    } else if i == 2 {
        layout.rodata_end as int
    } else if i == 3 {
        layout.writable_end as int
    } else if i == 4 {
        layout.boot_stack_top as int
    } else if i == 5 {
        layout.bootstrap_tables_end as int
    } else if i == 6 {
        layout.payload_end as int
    } else if i == 7 {
        live_dtb_pages.end_spec()
    } else if i == 8 {
        uart_region.end_spec()
    } else if i == 9 {
        gic.distributor_spec().end_spec()
    } else if i == 10 {
        gic.cpu_interface_spec().end_spec()
    } else if i == 11 {
        gic.hypervisor_interface_spec().end_spec()
    } else {
        gic.virtual_cpu_interface_spec().end_spec()
    };
    (m.va as int, end)
}

/// No two of the thirteen bootstrap ranges share an address.
pub open spec fn boot_ranges_apart(
    layout: ImageLayout,
    live_dtb_pages: PhysRegion,
    uart_region: PhysRegion,
    gic: GicV2Info,
) -> bool {
    forall|i: int, j: int|
        0 <= i < j < 13 ==> #[trigger] boot_range(layout, live_dtb_pages, uart_region, gic, i).1
            <= #[trigger] boot_range(layout, live_dtb_pages, uart_region, gic, j).0 || boot_range(
            layout,
            live_dtb_pages,
            uart_region,
            gic,
            j,
        ).1 <= boot_range(layout, live_dtb_pages, uart_region, gic, i).0
}

/// The addresses of the first `k` bootstrap ranges.
pub open spec fn boot_covered(
    layout: ImageLayout,
    live_dtb_pages: PhysRegion,
    uart_region: PhysRegion,
    gic: GicV2Info,
    k: int,
) -> Set<int> {
    Set::new(
        |a: int|
            exists|j: int|
                0 <= j < k && boot_range(layout, live_dtb_pages, uart_region, gic, j).0 <= a
                    < #[trigger] boot_range(layout, live_dtb_pages, uart_region, gic, j).1,
    )
}

/// The bootstrap tables can be built: the table arena holds `n` pages, the
/// physical-address range is known, every range is non-empty, page-aligned
/// and inside both the 39-bit virtual and the physical address space, no
/// two ranges share an address, the stack guard lies outside all of them
/// and inside the virtual address space, and the arena has room for two
/// tables per page mapped besides the root.
#[verifier::opaque]
pub open spec fn bootstrap_feasible(
    layout: ImageLayout,
    pa_range: u8,
    live_dtb_pages: PhysRegion,
    uart_region: PhysRegion,
    gic: GicV2Info,
    n: int,
) -> bool {
    &&& layout.bootstrap_tables_start % 4096 == 0
    &&& layout.bootstrap_tables_end % 4096 == 0
    &&& layout.bootstrap_tables_end - layout.bootstrap_tables_start == n * 4096
    &&& pa_bits_of(pa_range) matches Some(bits) && forall|i: int|
        0 <= i < 13 ==> {
            let r = #[trigger] boot_range(layout, live_dtb_pages, uart_region, gic, i);
            &&& r.0 % 4096 == 0
            &&& r.1 % 4096 == 0
            &&& r.0 < r.1
            &&& r.1 <= 0x80_0000_0000
            &&& r.1 <= (1u64 << bits) as int
        }
    &&& boot_ranges_apart(layout, live_dtb_pages, uart_region, gic)
    &&& layout.boot_stack_guard_start < layout.boot_stack_guard_end <= 0x80_0000_0000
    &&& !boot_covered(layout, live_dtb_pages, uart_region, gic, 13).contains(
        layout.boot_stack_guard_start as int,
    )
    &&& !boot_covered(layout, live_dtb_pages, uart_region, gic, 13).contains(
        layout.boot_stack_guard_end - 1,
    )
    &&& 1 + 2 * bootstrap_pages(layout, live_dtb_pages, uart_region, gic) <= n
}

/// Each earlier bootstrap range translates as its mapping says.
pub open spec fn boot_mapped_so_far(
    m: TableModel,
    layout: ImageLayout,
    live_dtb_pages: PhysRegion,
    uart_region: PhysRegion,
    gic: GicV2Info,
    k: int,
) -> bool {
    forall|j: int, v: u64|
        0 <= j < k && boot_range(layout, live_dtb_pages, uart_region, gic, j).0 <= v < boot_range(
            layout,
            live_dtb_pages,
            uart_region,
            gic,
            j,
        ).1 ==> #[trigger] walk_model(m, v) == Ok::<Option<Translation>, TranslationError>(
            Some(expected_translation(boot_mapping(layout, live_dtb_pages, uart_region, gic, j), v)),
        ) && #[trigger] boot_range(layout, live_dtb_pages, uart_region, gic, j).0 == boot_range(
            layout,
            live_dtb_pages,
            uart_region,
            gic,
            j,
        ).0
}

/// Where the bootstrap ranges stand apart and the `k`-th one is page-aligned
/// and inside the virtual address space, tables grown from fresh ones over
/// the first `k` ranges meet no conflict mapping it.
pub proof fn lemma_boot_free(
    mf: TableModel,
    m: TableModel,
    layout: ImageLayout,
    live_dtb_pages: PhysRegion,
    uart_region: PhysRegion,
    gic: GicV2Info,
    k: int,
)
    requires
        0 <= k < 13,
        grown_from_fresh(mf, m, boot_covered(layout, live_dtb_pages, uart_region, gic, k)),
        boot_ranges_apart(layout, live_dtb_pages, uart_region, gic),
        boot_mapping(layout, live_dtb_pages, uart_region, gic, k).va % 4096 == 0,
        boot_mapping(layout, live_dtb_pages, uart_region, gic, k).size % 4096 == 0,
        boot_range(layout, live_dtb_pages, uart_region, gic, k).1 <= 0x80_0000_0000,
        boot_range(layout, live_dtb_pages, uart_region, gic, k).0 < boot_range(
            layout,
            live_dtb_pages,
            uart_region,
            gic,
            k,
        ).1,
        boot_mapping(layout, live_dtb_pages, uart_region, gic, k).va + boot_mapping(
            layout,
            live_dtb_pages,
            uart_region,
            gic,
            k,
        ).size == boot_range(layout, live_dtb_pages, uart_region, gic, k).1,
    ensures
        !conflicts(m, boot_mapping(layout, live_dtb_pages, uart_region, gic, k)),
{
    let mapping = boot_mapping(layout, live_dtb_pages, uart_region, gic, k);
    let s = boot_covered(layout, live_dtb_pages, uart_region, gic, k);
    assert forall|a: int| s.contains(a) implies !(mapping.va <= a < mapping.va + mapping.size) by {
        let j = choose|j: int|
            0 <= j < k && boot_range(layout, live_dtb_pages, uart_region, gic, j).0 <= a
                < #[trigger] boot_range(layout, live_dtb_pages, uart_region, gic, j).1;
        assert(boot_range(layout, live_dtb_pages, uart_region, gic, j).1 <= boot_range(
            layout,
            live_dtb_pages,
            uart_region,
            gic,
            k,
        ).0 || boot_range(layout, live_dtb_pages, uart_region, gic, k).1 <= boot_range(
            layout,
            live_dtb_pages,
            uart_region,
            gic,
            j,
        ).0);
    }
    lemma_no_conflict(mf, m, s, mapping);
}

/// Mapping the `k`-th bootstrap range whole keeps the tables grown from
/// fresh ones, now over the first `k + 1` ranges, and, where the ranges
/// stand apart, every earlier range still translates as its mapping says.
pub proof fn lemma_boot_step(
    mf: TableModel,
    m: TableModel,
    m2: TableModel,
    layout: ImageLayout,
    live_dtb_pages: PhysRegion,
    uart_region: PhysRegion,
    gic: GicV2Info,
    k: int,
)
    requires
        0 <= k < 13,
        grown_from_fresh(mf, m, boot_covered(layout, live_dtb_pages, uart_region, gic, k)),
        boot_ranges_apart(layout, live_dtb_pages, uart_region, gic) ==> boot_mapped_so_far(
            m,
            layout,
            live_dtb_pages,
            uart_region,
            gic,
            k,
        ),
        model_wf(m2),
        grown_within(
            m,
            m2,
            boot_mapping(layout, live_dtb_pages, uart_region, gic, k).va as int,
            boot_mapping(layout, live_dtb_pages, uart_region, gic, k).va + boot_mapping(
                layout,
                live_dtb_pages,
                uart_region,
                gic,
                k,
            ).size,
        ),
        mapped(m, m2, boot_mapping(layout, live_dtb_pages, uart_region, gic, k), true),
        boot_mapping(layout, live_dtb_pages, uart_region, gic, k).va + boot_mapping(
            layout,
            live_dtb_pages,
            uart_region,
            gic,
            k,
        ).size == boot_range(layout, live_dtb_pages, uart_region, gic, k).1,
    ensures
        grown_from_fresh(mf, m2, boot_covered(layout, live_dtb_pages, uart_region, gic, k + 1)),
        boot_ranges_apart(layout, live_dtb_pages, uart_region, gic) ==> boot_mapped_so_far(
            m2,
            layout,
            live_dtb_pages,
            uart_region,
            gic,
            k + 1,
        ),
{
    let mapping = boot_mapping(layout, live_dtb_pages, uart_region, gic, k);
    let s = boot_covered(layout, live_dtb_pages, uart_region, gic, k);
    let s1 = boot_covered(layout, live_dtb_pages, uart_region, gic, k + 1);
    let r = Set::new(|a: int| mapping.va <= a < mapping.va + mapping.size);
    lemma_fresh_step(mf, m, m2, s, mapping);
    assert(s.union(r) =~= s1) by {
        assert forall|a: int| s1.contains(a) implies s.union(r).contains(a) by {
            let j = choose|j: int|
                0 <= j < k + 1 && boot_range(layout, live_dtb_pages, uart_region, gic, j).0 <= a
                    < #[trigger] boot_range(layout, live_dtb_pages, uart_region, gic, j).1;
            if j < k {
                assert(s.contains(a));
            }
        }
        assert forall|a: int| s.union(r).contains(a) implies s1.contains(a) by {
            if s.contains(a) {
                let j = choose|j: int|
                    0 <= j < k && boot_range(layout, live_dtb_pages, uart_region, gic, j).0 <= a
                        < #[trigger] boot_range(layout, live_dtb_pages, uart_region, gic, j).1;
                assert(0 <= j < k + 1);
            } else {
                assert(boot_range(layout, live_dtb_pages, uart_region, gic, k).0 <= a < boot_range(
                    layout,
                    live_dtb_pages,
                    uart_region,
                    gic,
                    k,
                ).1);
            }
        }
    }
    if boot_ranges_apart(layout, live_dtb_pages, uart_region, gic) {
        assert forall|j: int, v: u64|
            0 <= j < k + 1 && boot_range(layout, live_dtb_pages, uart_region, gic, j).0 <= v
                < boot_range(layout, live_dtb_pages, uart_region, gic, j).1 implies #[trigger] walk_model(
            m2,
            v,
        ) == Ok::<Option<Translation>, TranslationError>(
            Some(expected_translation(boot_mapping(layout, live_dtb_pages, uart_region, gic, j), v)),
        ) && #[trigger] boot_range(layout, live_dtb_pages, uart_region, gic, j).0 == boot_range(
            layout,
            live_dtb_pages,
            uart_region,
            gic,
            j,
        ).0 by {
            if j < k {
                assert(boot_range(layout, live_dtb_pages, uart_region, gic, j).1 <= boot_range(
                    layout,
                    live_dtb_pages,
                    uart_region,
                    gic,
                    k,
                ).0 || boot_range(layout, live_dtb_pages, uart_region, gic, k).1 <= boot_range(
                    layout,
                    live_dtb_pages,
                    uart_region,
                    gic,
                    j,
                ).0);
                assert(walk_model(m2, v) == walk_model(m, v));
                assert(walk_model(m, v) == Ok::<Option<Translation>, TranslationError>(
                    Some(expected_translation(boot_mapping(layout, live_dtb_pages, uart_region, gic, j), v)),
                ));
            }
        }
    }
}

/// What a feasible bootstrap gives the checks made before any table is
/// built: a page-aligned arena of exactly `n` pages inside the physical
/// address range, and a known physical address width.
proof fn lemma_feasible_arena(
    layout: ImageLayout,
    pa_range: u8,
    live_dtb_pages: PhysRegion,
    uart_region: PhysRegion,
    gic: GicV2Info,
    n: int,
)
    requires
        bootstrap_feasible(layout, pa_range, live_dtb_pages, uart_region, gic, n),
    ensures
        layout.bootstrap_tables_start % 4096 == 0,
        layout.bootstrap_tables_end % 4096 == 0,
        layout.bootstrap_tables_end - layout.bootstrap_tables_start == n * 4096,
        n >= 1,
        pa_bits_of(pa_range) matches Some(bits) && layout.bootstrap_tables_end <= (1u64 << bits) as int,
{
    reveal(bootstrap_feasible);
    let r = boot_range(layout, live_dtb_pages, uart_region, gic, 5);
    assert(r.0 < r.1);
    lemma_boot_pages_upto(layout, live_dtb_pages, uart_region, gic);
    lemma_boot_pages_mono(layout, live_dtb_pages, uart_region, gic, 0, 13);
    reveal_with_fuel(boot_pages_upto, 1);
}

/// A walk fails only on an address beyond the 39-bit space or a corrupt
/// table, never with a conflict.
proof fn lemma_walk_from_error(pages: Seq<Seq<u64>>, used: int, base: int, t: int, level: int, va: u64)
    ensures
        walk_from(pages, used, base, t, level, va) != Err::<Option<Translation>, TranslationError>(
            TranslationError::ConflictingEntry,
        ),
    decreases 3 - level,
{
    if 1 <= level < 3 && 0 <= t < pages.len() {
        let d = pages[t][entry_index(level, va as int)];
        if let Some(c) = table_index_of(base, used, next_table_pa(d) as int) {
            lemma_walk_from_error(pages, used, base, c, level + 1, va);
        }
    }
}

/// The checks of the bootstrap tables fail with a conflict nowhere.
proof fn lemma_checks_error(m: TableModel, checks: Seq<(u64, bool, bool, MemoryType)>, c: int)
    ensures
        first_check_error(m, checks, c) != Some(PrepareError::Translation(TranslationError::ConflictingEntry)),
    decreases checks.len() - c,
{
    if 0 <= c < checks.len() {
        if walk_model(m, checks[c].0) is Err && checks[c].0 < 0x80_0000_0000u64 {
            lemma_walk_from_error(m.pages, m.used, m.base, 0, 1, checks[c].0);
        }
        lemma_checks_error(m, checks, c + 1);
    }
}

/// The bootstrap validation fails with a conflict never.
proof fn lemma_validation_error(m: TableModel, layout: ImageLayout, uart: u64, live_dtb_pages: PhysRegion)
    ensures
        bootstrap_validation(m, layout, uart, live_dtb_pages) != Some(
            PrepareError::Translation(TranslationError::ConflictingEntry),
        ),
{
    lemma_checks_error(m, bootstrap_checks(layout, uart, live_dtb_pages), 0);
    let g0 = layout.boot_stack_guard_start;
    let g1 = (layout.boot_stack_guard_end - 1) as u64;
    if g0 < 0x80_0000_0000u64 {
        lemma_walk_from_error(m.pages, m.used, m.base, 0, 1, g0);
    }
    if g1 < 0x80_0000_0000u64 {
        lemma_walk_from_error(m.pages, m.used, m.base, 0, 1, g1);
    }
}

/// Tables grown from fresh ones over the thirteen bootstrap ranges, each of
/// which translates as its mapping says, pass the bootstrap validation.
pub proof fn lemma_boot_validates(
    mf: TableModel,
    m: TableModel,
    layout: ImageLayout,
    pa_range: u8,
    live_dtb_pages: PhysRegion,
    uart_region: PhysRegion,
    gic: GicV2Info,
    n: int,
)
    requires
        bootstrap_feasible(layout, pa_range, live_dtb_pages, uart_region, gic, n),
        grown_from_fresh(mf, m, boot_covered(layout, live_dtb_pages, uart_region, gic, 13)),
        boot_mapped_so_far(m, layout, live_dtb_pages, uart_region, gic, 13),
    ensures
        bootstrap_validation(m, layout, uart_region.start_spec(), live_dtb_pages) is None,
{
    reveal(bootstrap_feasible);
    let checks = bootstrap_checks(layout, uart_region.start_spec(), live_dtb_pages);
    let idx = seq![0int, 6, 6, 1, 2, 3, 4, 5, 5, 7, 7, 8];
    assert forall|c: int| 0 <= c < 12 implies identity_check(
        m,
        #[trigger] checks[c].0,
        checks[c].1,
        checks[c].2,
        checks[c].3,
    ) is None by {
        let j = idx[c];
        let r = boot_range(layout, live_dtb_pages, uart_region, gic, j);
        assert(0 <= j < 13);
        assert(r.0 % 4096 == 0 && r.1 % 4096 == 0 && r.0 < r.1);
        let v = checks[c].0;
        assert(r.0 <= v < r.1);
        assert(walk_model(m, v) == Ok::<Option<Translation>, TranslationError>(
            Some(expected_translation(boot_mapping(layout, live_dtb_pages, uart_region, gic, j), v)),
        ) && boot_range(layout, live_dtb_pages, uart_region, gic, j).0 == r.0);
    }
    assert forall|c: int| 0 <= c <= 12 implies #[trigger] first_check_error(m, checks, c) is None by {
        lemma_checks_pass(m, checks, c);
    }
    let g0 = layout.boot_stack_guard_start;
    let g1 = (layout.boot_stack_guard_end - 1) as u64;
    assert(walk_model(m, g0) == Ok::<Option<Translation>, TranslationError>(None));
    assert(walk_model(m, g1) == Ok::<Option<Translation>, TranslationError>(None));
}

/// Checks that each pass leave no first failing check from `c` on.
proof fn lemma_checks_pass(m: TableModel, checks: Seq<(u64, bool, bool, MemoryType)>, c: int)
    requires
        0 <= c <= checks.len(),
        forall|d: int| 0 <= d < checks.len() ==> identity_check(
            m,
            #[trigger] checks[d].0,
            checks[d].1,
            checks[d].2,
            checks[d].3,
        ) is None,
    ensures
        first_check_error(m, checks, c) is None,
    decreases checks.len() - c,
{
    if c < checks.len() {
        lemma_checks_pass(m, checks, c + 1);
    }
}

/// The whole pages of the first `k` bootstrap ranges.
pub open spec fn boot_pages_upto(
    layout: ImageLayout,
    live_dtb_pages: PhysRegion,
    uart_region: PhysRegion,
    gic: GicV2Info,
    k: int,
) -> int
    decreases k,
{
    if k <= 0 {
        0
    } else {
        let r = boot_range(layout, live_dtb_pages, uart_region, gic, k - 1);
        boot_pages_upto(layout, live_dtb_pages, uart_region, gic, k - 1) + span_pages(r.0, r.1)
    }
}

/// The pages of all thirteen ranges are those that [`bootstrap_pages`]
/// adds up, and no prefix has more.
proof fn lemma_boot_pages_upto(
    layout: ImageLayout,
    live_dtb_pages: PhysRegion,
    uart_region: PhysRegion,
    gic: GicV2Info,
)
    ensures
        boot_pages_upto(layout, live_dtb_pages, uart_region, gic, 13) == bootstrap_pages(
            layout,
            live_dtb_pages,
            uart_region,
            gic,
        ),
        forall|k: int|
            0 <= k <= 13 ==> #[trigger] boot_pages_upto(layout, live_dtb_pages, uart_region, gic, k)
                <= boot_pages_upto(layout, live_dtb_pages, uart_region, gic, 13),
{
    reveal_with_fuel(boot_pages_upto, 14);
    assert forall|k: int| 0 <= k <= 13 implies #[trigger] boot_pages_upto(
        layout,
        live_dtb_pages,
        uart_region,
        gic,
        k,
    ) <= boot_pages_upto(layout, live_dtb_pages, uart_region, gic, 13) by {
        lemma_boot_pages_mono(layout, live_dtb_pages, uart_region, gic, k, 13);
    }
}

proof fn lemma_boot_pages_mono(
    layout: ImageLayout,
    live_dtb_pages: PhysRegion,
    uart_region: PhysRegion,
    gic: GicV2Info,
    k: int,
    k2: int,
)
    requires
        k <= k2,
    ensures
        boot_pages_upto(layout, live_dtb_pages, uart_region, gic, k) <= boot_pages_upto(
            layout,
            live_dtb_pages,
            uart_region,
            gic,
            k2,
        ),
    decreases k2 - k,
{
    if k < k2 {
        lemma_boot_pages_mono(layout, live_dtb_pages, uart_region, gic, k, k2 - 1);
        if k2 > 0 {
            let r = boot_range(layout, live_dtb_pages, uart_region, gic, k2 - 1);
            assert(span_pages(r.0, r.1) >= 0) by {
                if r.0 < r.1 {
                    assert((r.1 - r.0) / 4096 >= 0);
                }
            }
        }
    }
}

/// What the bootstrap build has reached before its `k`-th mapping: tables
/// grown from the fresh `mf` over the first `k` ranges, each translating as
/// its mapping says where the ranges stand apart, with at most two tables
/// per page mapped besides the root.
#[verifier::opaque]
pub open spec fn boot_progress<const N: usize>(
    mf: TableModel,
    tables: &TableSet<'_, N>,
    g: (ImageLayout, PhysRegion, PhysRegion, GicV2Info, u8),
    k: int,
) -> bool {
    &&& tables.wf()
    &&& grown_from_fresh(mf, tables.model(), boot_covered(g.0, g.1, g.2, g.3, k))
    &&& boot_ranges_apart(g.0, g.1, g.2, g.3) ==> boot_mapped_so_far(tables.model(), g.0, g.1, g.2, g.3, k)
    &&& tables.model().used <= 1 + 2 * boot_pages_upto(g.0, g.1, g.2, g.3, k)
    &&& pa_bits_of(g.4) == Some(tables.pa_width())
}

/// Identity-maps the `k`-th bootstrap range, `[start, end)`, as Normal
/// memory.
#[verifier::spinoff_prover]
#[verifier::rlimit(100)]
fn boot_step<const N: usize>(
    tables: &mut TableSet<'_, N>,
    start: u64,
    end: u64,
    writable: bool,
    executable: bool,
    Ghost(mf): Ghost<TableModel>,
    Ghost(g): Ghost<(ImageLayout, PhysRegion, PhysRegion, GicV2Info, u8)>,
    Ghost(k): Ghost<int>,
) -> (r: Result<(), PrepareError>)
    requires
        0 <= k < 13,
        boot_mapping(g.0, g.1, g.2, g.3, k) == identity_mapping(
            start,
            end,
            MemoryType::Normal,
            writable,
            executable,
        ),
        boot_range(g.0, g.1, g.2, g.3, k) == (start as int, end as int),
        boot_progress(mf, old(tables), g, k),
    ensures
        final(tables).wf(),
        final(tables).model().base == old(tables).model().base,
        final(tables).pa_width() == old(tables).pa_width(),
        r is Ok ==> boot_progress(mf, final(tables), g, k + 1),
        r matches Err(PrepareError::Translation(TranslationError::ConflictingEntry)) ==> !boot_ranges_apart(
            g.0,
            g.1,
            g.2,
            g.3,
        ),
        r == Err::<(), PrepareError>(PrepareError::Translation(TranslationError::TableExhausted))
            ==> 1 + 2 * boot_pages_upto(g.0, g.1, g.2, g.3, k + 1) > N,
        bootstrap_feasible(g.0, g.4, g.1, g.2, g.3, N as int) ==> r is Ok,
{
    proof {
        reveal(boot_progress);
        reveal(bootstrap_feasible);
    }
    proof {
        tables.lemma_wf_pages();
        let mk = boot_mapping(g.0, g.1, g.2, g.3, k);
        let rk = boot_range(g.0, g.1, g.2, g.3, k);
        if boot_ranges_apart(g.0, g.1, g.2, g.3) && mk.va % 4096 == 0 && mk.size % 4096 == 0 && rk.1
            <= 0x80_0000_0000 && rk.0 < rk.1 && mk.va + mk.size == rk.1 {
            lemma_boot_free(mf, tables.model(), g.0, g.1, g.2, g.3, k);
        }
        if bootstrap_feasible(g.0, g.4, g.1, g.2, g.3, N as int) {
            lemma_boot_pages_upto(g.0, g.1, g.2, g.3);
            let r = boot_range(g.0, g.1, g.2, g.3, k);
            assert(r.0 % 4096 == 0 && r.1 % 4096 == 0 && r.0 < r.1 && r.1 <= 0x80_0000_0000);
            assert(boot_pages_upto(g.0, g.1, g.2, g.3, k + 1) <= boot_pages_upto(g.0, g.1, g.2, g.3, 13));
            lemma_boot_free(mf, tables.model(), g.0, g.1, g.2, g.3, k);
        }
    }
    let ghost m = tables.model();
    let r = map_identity(tables, start, end, writable, executable);
    proof {
        tables.lemma_wf_pages();
        if r is Ok {
            lemma_boot_step(mf, m, tables.model(), g.0, g.1, g.2, g.3, k);
        }
    }
    r
}

/// Identity-maps the `k`-th bootstrap range, `region`, as Device memory.
#[verifier::spinoff_prover]
#[verifier::rlimit(100)]
fn boot_step_device<const N: usize>(
    tables: &mut TableSet<'_, N>,
    region: PhysRegion,
    Ghost(mf): Ghost<TableModel>,
    Ghost(g): Ghost<(ImageLayout, PhysRegion, PhysRegion, GicV2Info, u8)>,
    Ghost(k): Ghost<int>,
) -> (r: Result<(), PrepareError>)
    requires
        0 <= k < 13,
        boot_mapping(g.0, g.1, g.2, g.3, k) == identity_mapping(
            region.start_spec(),
            region.end_spec() as u64,
            MemoryType::Device,
            true,
            false,
        ),
        boot_range(g.0, g.1, g.2, g.3, k) == (region.start_spec() as int, region.end_spec()),
        boot_progress(mf, old(tables), g, k),
    ensures
        final(tables).wf(),
        final(tables).model().base == old(tables).model().base,
        final(tables).pa_width() == old(tables).pa_width(),
        r is Ok ==> boot_progress(mf, final(tables), g, k + 1),
        r matches Err(PrepareError::Translation(TranslationError::ConflictingEntry)) ==> !boot_ranges_apart(
            g.0,
            g.1,
            g.2,
            g.3,
        ),
        r == Err::<(), PrepareError>(PrepareError::Translation(TranslationError::TableExhausted))
            ==> 1 + 2 * boot_pages_upto(g.0, g.1, g.2, g.3, k + 1) > N,
        bootstrap_feasible(g.0, g.4, g.1, g.2, g.3, N as int) ==> r is Ok,
{
    region.well_formed();
    proof {
        reveal(boot_progress);
        reveal(bootstrap_feasible);
    }
    proof {
        tables.lemma_wf_pages();
        let mk = boot_mapping(g.0, g.1, g.2, g.3, k);
        let rk = boot_range(g.0, g.1, g.2, g.3, k);
        if boot_ranges_apart(g.0, g.1, g.2, g.3) && mk.va % 4096 == 0 && mk.size % 4096 == 0 && rk.1
            <= 0x80_0000_0000 && rk.0 < rk.1 && mk.va + mk.size == rk.1 {
            lemma_boot_free(mf, tables.model(), g.0, g.1, g.2, g.3, k);
        }
        if bootstrap_feasible(g.0, g.4, g.1, g.2, g.3, N as int) {
            lemma_boot_pages_upto(g.0, g.1, g.2, g.3);
            let r = boot_range(g.0, g.1, g.2, g.3, k);
            assert(r.0 % 4096 == 0 && r.1 % 4096 == 0 && r.0 < r.1 && r.1 <= 0x80_0000_0000);
            assert(boot_pages_upto(g.0, g.1, g.2, g.3, k + 1) <= boot_pages_upto(g.0, g.1, g.2, g.3, 13));
            lemma_boot_free(mf, tables.model(), g.0, g.1, g.2, g.3, k);
        }
    }
    let ghost m = tables.model();
    let r = map_identity_device(tables, region);
    proof {
        tables.lemma_wf_pages();
        if r is Ok {
            lemma_boot_step(mf, m, tables.model(), g.0, g.1, g.2, g.3, k);
        }
    }
    r
}

/// The whole pages of the ranges that the bootstrap tables map: the image's
/// sections, the boot stack, the tables themselves, the payload, the live
/// DTB, the UART and the four GIC interfaces.
pub open spec fn bootstrap_pages(
    layout: ImageLayout,
    live_dtb_pages: PhysRegion,
    uart_region: PhysRegion,
    gic: GicV2Info,
) -> int {
    span_pages(layout.text_start as int, layout.text_end as int) + span_pages(
        layout.vectors_start as int,
        layout.vectors_end as int,
    ) + span_pages(layout.rodata_start as int, layout.rodata_end as int) + span_pages(
        layout.writable_start as int,
        layout.writable_end as int,
    ) + span_pages(layout.boot_stack_bottom as int, layout.boot_stack_top as int) + span_pages(
        layout.bootstrap_tables_start as int,
        layout.bootstrap_tables_end as int,
    ) + span_pages(layout.payload_start as int, layout.payload_end as int) + span_pages(
        live_dtb_pages.start_spec() as int,
        live_dtb_pages.end_spec(),
    ) + span_pages(uart_region.start_spec() as int, uart_region.end_spec()) + span_pages(
        gic.distributor_spec().start_spec() as int,
        gic.distributor_spec().end_spec(),
    ) + span_pages(gic.cpu_interface_spec().start_spec() as int, gic.cpu_interface_spec().end_spec())
        + span_pages(
        gic.hypervisor_interface_spec().start_spec() as int,
        gic.hypervisor_interface_spec().end_spec(),
    ) + span_pages(
        gic.virtual_cpu_interface_spec().start_spec() as int,
        gic.virtual_cpu_interface_spec().end_spec(),
    )
}

/// Maps the thirteen bootstrap ranges in order, stopping at the first that
/// fails.
#[verifier::spinoff_prover]
#[verifier::rlimit(100)]
fn boot_steps<const N: usize>(
    tables: &mut TableSet<'_, N>,
    layout: &ImageLayout,
    live_dtb_pages: PhysRegion,
    uart_region: PhysRegion,
    gic: GicV2Info,
    Ghost(mf): Ghost<TableModel>,
    Ghost(g): Ghost<(ImageLayout, PhysRegion, PhysRegion, GicV2Info, u8)>,
) -> (r: Result<(), PrepareError>)
    requires
        g.0 == *layout,
        g.1 == live_dtb_pages,
        g.2 == uart_region,
        g.3 == gic,
        boot_progress(mf, old(tables), g, 0),
    ensures
        final(tables).wf(),
        final(tables).model().base == old(tables).model().base,
        final(tables).pa_width() == old(tables).pa_width(),
        r is Ok ==> boot_progress(mf, final(tables), g, 13),
        r matches Err(PrepareError::Translation(TranslationError::ConflictingEntry)) ==> !boot_ranges_apart(
            g.0,
            g.1,
            g.2,
            g.3,
        ),
        r == Err::<(), PrepareError>(PrepareError::Translation(TranslationError::TableExhausted))
            ==> 1 + 2 * bootstrap_pages(g.0, g.1, g.2, g.3) > N,
        bootstrap_feasible(g.0, g.4, g.1, g.2, g.3, N as int) ==> r is Ok,
{
    proof {
        lemma_boot_pages_upto(g.0, g.1, g.2, g.3);
    }
    live_dtb_pages.well_formed();
    boot_step(tables, layout.text_start, layout.text_end, false, true, Ghost(mf), Ghost(g), Ghost(0))?;
    boot_step(tables, layout.vectors_start, layout.vectors_end, false, true, Ghost(mf), Ghost(g), Ghost(1))?;
    boot_step(tables, layout.rodata_start, layout.rodata_end, false, false, Ghost(mf), Ghost(g), Ghost(2))?;
    boot_step(tables, layout.writable_start, layout.writable_end, true, false, Ghost(mf), Ghost(g), Ghost(3))?;
    boot_step(
        tables,
        layout.boot_stack_bottom,
        layout.boot_stack_top,
        true,
        false,
        Ghost(mf),
        Ghost(g),
        Ghost(4),
    )?;
    boot_step(tables, layout.bootstrap_tables_start, layout.bootstrap_tables_end, true, false, Ghost(mf), Ghost(g), Ghost(5))?;
    boot_step(tables, layout.payload_start, layout.payload_end, false, false, Ghost(mf), Ghost(g), Ghost(6))?;
    // The complete live DTB pages are mapped read-only.
    boot_step(
        tables,
        live_dtb_pages.start().value(),
        live_dtb_pages.end().value(),
        false,
        false,
        Ghost(mf),
        Ghost(g),
        Ghost(7),
    )?;
    boot_step_device(tables, uart_region, Ghost(mf), Ghost(g), Ghost(8))?;
    // The GIC interfaces are mapped one by one: the DTB need not place them
    // contiguously.
    boot_step_device(tables, gic.distributor(), Ghost(mf), Ghost(g), Ghost(9))?;
    boot_step_device(tables, gic.cpu_interface(), Ghost(mf), Ghost(g), Ghost(10))?;
    boot_step_device(tables, gic.hypervisor_interface(), Ghost(mf), Ghost(g), Ghost(11))?;
    boot_step_device(tables, gic.virtual_cpu_interface(), Ghost(mf), Ghost(g), Ghost(12))?;
    Ok(())
}


/// Builds tvisor's bootstrap EL2 tables in `storage`, which lies at the
/// layout's table arena: the image sections with their permissions, the live
/// DTB read-only, the UART and the four GIC interfaces as Device memory; then
/// validates the result.
#[verifier::spinoff_prover]
#[verifier::rlimit(100)]
pub fn build_bootstrap_page_table<'a, const N: usize>(
    storage: &'a mut TableStorage<N>,
    layout: &ImageLayout,
    pa_range: u8,
    live_dtb_pages: PhysRegion,
    uart_region: PhysRegion,
    gic: GicV2Info,
) -> (r: Result<TableSet<'a, N>, PrepareError>)
    requires
        layout.payload_end >= 1,
        layout.bootstrap_tables_end >= 1,
        layout.boot_stack_guard_end >= 1,
    ensures
        layout.bootstrap_tables_start % 4096 != 0 || layout.bootstrap_tables_end % 4096 != 0
            || layout.bootstrap_tables_end - layout.bootstrap_tables_start != N * 4096 ==> r matches Err(
            PrepareError::Validation,
        ),
        !(layout.bootstrap_tables_start % 4096 != 0 || layout.bootstrap_tables_end % 4096 != 0
            || layout.bootstrap_tables_end - layout.bootstrap_tables_start != N * 4096) && pa_bits_of(
            pa_range,
        ) is None ==> r matches Err(PrepareError::Translation(TranslationError::InvalidPaBits)),
        r == Err::<TableSet<'a, N>, PrepareError>(
            PrepareError::Translation(TranslationError::TableExhausted),
        ) ==> 1 + 2 * bootstrap_pages(*layout, live_dtb_pages, uart_region, gic) > N,
        bootstrap_feasible(*layout, pa_range, live_dtb_pages, uart_region, gic, N as int) ==> r is Ok,
        r matches Err(PrepareError::Translation(TranslationError::ConflictingEntry)) ==> !boot_ranges_apart(
            *layout,
            live_dtb_pages,
            uart_region,
            gic,
        ),
        r matches Ok(tables) ==> {
            &&& tables.wf()
            &&& tables.model().base == layout.bootstrap_tables_start
            &&& pa_bits_of(pa_range) == Some(tables.pa_width())
            &&& bootstrap_validation(
                tables.model(),
                *layout,
                uart_region.start_spec(),
                live_dtb_pages,
            ) is None
            &&& boot_ranges_apart(*layout, live_dtb_pages, uart_region, gic) ==> boot_mapped_so_far(
                tables.model(),
                *layout,
                live_dtb_pages,
                uart_region,
                gic,
                13,
            )
            &&& forall|v: u64|
                v < 0x80_0000_0000u64 && !boot_covered(*layout, live_dtb_pages, uart_region, gic, 13).contains(
                    v as int,
                ) ==> #[trigger] walk_model(tables.model(), v) == Ok::<Option<Translation>, TranslationError>(
                    None,
                )
        },
{
    let pt_area_start = layout.bootstrap_tables_start;
    let pt_area_end = layout.bootstrap_tables_end;
    proof {
        if bootstrap_feasible(*layout, pa_range, live_dtb_pages, uart_region, gic, N as int) {
            lemma_feasible_arena(*layout, pa_range, live_dtb_pages, uart_region, gic, N as int);
        }
    }
    assert(pt_area_start & 0xfff == pt_area_start % 4096) by {
        crate::page::lemma_low_bits();
    }
    assert(pt_area_end & 0xfff == pt_area_end % 4096) by {
        crate::page::lemma_low_bits();
    }
    if pt_area_start & 0xfff != 0 || pt_area_end & 0xfff != 0 {
        return Err(PrepareError::Validation);
    }
    let size = match pt_area_end.checked_sub(pt_area_start) {
        Some(d) => d,
        None => return Err(PrepareError::Validation),
    };
    if N as u64 > u64::MAX / 4096 || size != N as u64 * 4096 {
        return Err(PrepareError::Validation);
    }
    let pa_bits = match pa_bits_from_parange(pa_range) {
        Ok(b) => b,
        Err(e) => return Err(PrepareError::Translation(e)),
    };
    let mut tables = match TableSet::new(storage, pt_area_start, pa_bits) {
        Ok(t) => t,
        Err(e) => return Err(PrepareError::Translation(e)),
    };
    let ghost mf = tables.model();
    proof {
        tables.lemma_wf_pages();
        lemma_fresh(mf);
        assert(boot_covered(*layout, live_dtb_pages, uart_region, gic, 0) =~= Set::<int>::empty());
        lemma_boot_pages_upto(*layout, live_dtb_pages, uart_region, gic);
    }
    let ghost g = (*layout, live_dtb_pages, uart_region, gic, pa_range);
    proof {
        reveal(boot_progress);
        reveal_with_fuel(boot_pages_upto, 1);
        assert(boot_progress(mf, &tables, g, 0));
    }
    boot_steps(&mut tables, layout, live_dtb_pages, uart_region, gic, Ghost(mf), Ghost(g))?;
    proof {
        reveal(boot_progress);
        if bootstrap_feasible(*layout, pa_range, live_dtb_pages, uart_region, gic, N as int) {
            reveal(bootstrap_feasible);
            lemma_boot_validates(
                mf,
                tables.model(),
                *layout,
                pa_range,
                live_dtb_pages,
                uart_region,
                gic,
                N as int,
            );
        }
    }
    proof {
        lemma_validation_error(tables.model(), *layout, uart_region.start_spec(), live_dtb_pages);
    }
    validate_bootstrap_page_table(&tables, layout, uart_region.start().value(), live_dtb_pages)?;
    Ok(tables)
}

/// Why the CPU cannot take tvisor's bootstrap translation regime, if it
/// cannot: ID_AA64MMFR0_EL1 and HCR_EL2 must both be readable, the 4 KiB
/// granule must be supported (TGran4 is 0), and stage-2 translation
/// (HCR_EL2.VM) and the host extensions (HCR_EL2.E2H) must be off.
pub open spec fn prerequisites_refused(mmfr0: Option<IdAa64Mmfr0El1>, hcr: Option<HcrEl2>) -> bool {
    ||| mmfr0 is None
    ||| (mmfr0 matches Some(m) && (m.value >> 28) & 0xf != 0)
    ||| hcr is None
    ||| (hcr matches Some(h) && (bit_is_one(h.value, 0) || bit_is_one(h.value, 34)))
}

/// Checks the CPU features the bootstrap tables rely on and gives the
/// physical-address range that ID_AA64MMFR0_EL1 reports; a register is
/// `None` where it could not be read.
pub fn bootstrap_prerequisites(mmfr0: Option<IdAa64Mmfr0El1>, hcr: Option<HcrEl2>) -> (r: Result<
    u8,
    PrepareError,
>)
    ensures
        prerequisites_refused(mmfr0, hcr) ==> r == Err::<u8, PrepareError>(PrepareError::Validation),
        !prerequisites_refused(mmfr0, hcr) ==> (r matches Ok(pa_range) && pa_range as u64
            == mmfr0->Some_0.value & 0xf),
{
    let m = match mmfr0 {
        Some(m) => m,
        None => return Err(PrepareError::Validation),
    };
    if m.tgran4() != 0 {
        return Err(PrepareError::Validation);
    }
    let h = match hcr {
        Some(h) => h,
        None => return Err(PrepareError::Validation),
    };
    if h.bit_vm() || h.bit_e2h() {
        return Err(PrepareError::Validation);
    }
    Ok(m.parange())
}

/// The live DTB region holds a blob of exactly its size: room for the magic
/// and total-size words of `header`, its first eight bytes, the magic
/// `0xd00dfeed`, and a total size equal to the region's.
pub open spec fn live_dtb_ok(region: PhysRegion, header: Seq<u8>) -> bool {
    &&& region.size_spec() >= 8
    &&& be_cell(header, 0) == 0xd00d_feed
    &&& be_cell(header, 4) == region.size_spec()
}

/// Checks the live DTB region against `header`, the region's first eight
/// bytes (read only when the region holds them).
pub fn validate_live_dtb(region: PhysRegion, header: [u8; 8]) -> (r: Result<(), AllocatorInitError>)
    ensures
        r == (if live_dtb_ok(region, header@) {
            Ok(())
        } else {
            Err(AllocatorInitError::InvalidDtb)
        }),
{
    if region.size() < 8 {
        return Err(AllocatorInitError::InvalidDtb);
    }
    let bytes = header.as_slice();
    if read_be32(bytes, 0) != 0xd00d_feed || read_be32(bytes, 4) as u64 != region.size() {
        return Err(AllocatorInitError::InvalidDtb);
    }
    Ok(())
}

/// Why rounding `region` out to whole pages fails, if it does.
pub open spec fn covering_error(region: PhysRegion) -> Option<AllocatorError> {
    if region.end_spec() + PAGE_SIZE - 1 > u64::MAX {
        Some(AllocatorError::AddressOverflow)
    } else if page_ceil(region.end_spec()) > MAX_PHYSICAL_ADDRESS {
        Some(AllocatorError::PhysicalAddressOutOfRange)
    } else {
        None
    }
}

/// Why building an allocator with `bytes` bitmap bytes over RAM `ram`,
/// managing `usable` and leaving all of it unused, fails, if it does.
pub open spec fn takeover_allocator_error(bytes: int, ram: Seq<PhysRegion>, usable: Seq<PhysRegion>) -> Option<
    AllocatorError,
> {
    if bytes == 0 {
        Some(AllocatorError::PhysicalAddressOutOfRange)
    } else {
        match count_from(ram, 0, 0) {
            Err(e) => Some(e),
            Ok(_) => match first_mark_error(usable, 0, bytes * 8 * PAGE_SIZE) {
                Some(e) => Some(e),
                None => first_overflow(usable, 0),
            },
        }
    }
}

/// Some page of the live DTB, rounded out to whole pages, is usable RAM.
pub open spec fn dtb_page_usable(memory_map: MemoryMap, live_dtb: PhysRegion) -> bool {
    exists|p: int|
        page_floor(live_dtb.start_spec() as int) / 4096 <= p < page_ceil(live_dtb.end_spec()) / 4096
            && #[trigger] pages_of(memory_map.usable_spec(), memory_map.usable_spec().len() as int).contains(p)
}

/// Builds the physical-page allocator over `managed` and `in_use` once
/// tvisor runs on its own tables: every usable RAM page managed and unused,
/// and the pages of the live DTB, whose first eight bytes are `header`, left
/// reserved.
#[verifier::spinoff_prover]
#[verifier::rlimit(80)]
pub fn initialize_allocator_after_takeover<'a, const B: usize>(
    memory_map: &MemoryMap,
    live_dtb: PhysRegion,
    header: [u8; 8],
    managed: &'a mut PageBitmap<B>,
    in_use: &'a mut PageBitmap<B>,
) -> (r: Result<PageAllocator<'a, B>, AllocatorInitError>)
    requires
        old(managed).wf(),
        old(in_use).wf(),
        B * 8 * PAGE_SIZE <= u64::MAX,
    ensures
        !live_dtb_ok(live_dtb, header@) ==> r == Err::<PageAllocator<'a, B>, AllocatorInitError>(
            AllocatorInitError::InvalidDtb,
        ),
        live_dtb_ok(live_dtb, header@) ==> (covering_error(live_dtb) matches Some(e) ==> r == Err::<
            PageAllocator<'a, B>,
            AllocatorInitError,
        >(AllocatorInitError::Allocator(e))),
        live_dtb_ok(live_dtb, header@) && covering_error(live_dtb) is None ==> (
        takeover_allocator_error(
            B as int,
            memory_map.ram_spec(),
            memory_map.usable_spec(),
        ) matches Some(e) ==> r == Err::<PageAllocator<'a, B>, AllocatorInitError>(
            AllocatorInitError::Allocator(e),
        )),
        live_dtb_ok(live_dtb, header@) && covering_error(live_dtb) is None && takeover_allocator_error(
            B as int,
            memory_map.ram_spec(),
            memory_map.usable_spec(),
        ) is None ==> if dtb_page_usable(*memory_map, live_dtb) {
            r == Err::<PageAllocator<'a, B>, AllocatorInitError>(AllocatorInitError::DtbAllocatable)
        } else if page_ceil(live_dtb.end_spec()) / 4096 > B * 8 {
            r == Err::<PageAllocator<'a, B>, AllocatorInitError>(
                AllocatorInitError::Allocator(AllocatorError::PhysicalAddressOutOfRange),
            )
        } else {
            r is Ok
        },
        r matches Ok(a) ==> {
            &&& live_dtb_ok(live_dtb, header@)
            &&& a.wf()
            &&& a.managed_set() == pages_of(memory_map.usable_spec(), memory_map.usable_spec().len() as int)
            &&& a.in_use_set() == Set::<int>::empty()
            &&& forall|p: int|
                page_floor(live_dtb.start_spec() as int) / 4096 <= p < page_ceil(live_dtb.end_spec())
                    / 4096 ==> a.state_of(p) == PageState::Reserved
        },
{
    match validate_live_dtb(live_dtb, header) {
        Ok(()) => {},
        Err(e) => return Err(e),
    }
    let live_dtb_pages = match page_covering(live_dtb) {
        Ok(pages) => pages,
        Err(e) => return Err(AllocatorInitError::Allocator(e)),
    };
    let allocator = match PageAllocator::new(
        memory_map.ram(),
        memory_map.usable_ram(),
        memory_map.usable_ram(),
        managed,
        in_use,
    ) {
        Ok(a) => a,
        Err(e) => return Err(AllocatorInitError::Allocator(e)),
    };
    proof {
        assert(allocator.in_use_set() =~= Set::<int>::empty());
    }
    let mut page = live_dtb_pages.start().value();
    let end = live_dtb_pages.end().value();
    proof {
        crate::page::lemma_round_up(live_dtb.end_spec(), 4096);
        crate::page::lemma_round_down_multiple(live_dtb.start_spec() as int, 4096);
        PhysRegion::lemma_spec_new(
            page_floor(live_dtb.start_spec() as int) as u64,
            (page_ceil(live_dtb.end_spec()) - page_floor(live_dtb.start_spec() as int)) as u64,
        );
        assert(page == page_floor(live_dtb.start_spec() as int));
        assert(end == page_ceil(live_dtb.end_spec()));
    }
    while page < end
        invariant
            live_dtb_ok(live_dtb, header@),
            allocator.wf(),
            allocator.managed_set() == pages_of(memory_map.usable_spec(), memory_map.usable_spec().len() as int),
            allocator.in_use_set() == Set::<int>::empty(),
            page % 4096 == 0,
            end % 4096 == 0,
            page_floor(live_dtb.start_spec() as int) <= page <= end,
            page_floor(live_dtb.start_spec() as int) % 4096 == 0,
            end == page_ceil(live_dtb.end_spec()),
            end <= MAX_PHYSICAL_ADDRESS,
            page_floor(live_dtb.start_spec() as int) < end,
            page == page_floor(live_dtb.start_spec() as int) || page / 4096 <= B * 8,
            covering_error(live_dtb) is None,
            takeover_allocator_error(B as int, memory_map.ram_spec(), memory_map.usable_spec()) is None,
            forall|p: int|
                page_floor(live_dtb.start_spec() as int) / 4096 <= p < page / 4096 ==> allocator.state_of(p)
                    == PageState::Reserved,
        decreases end - page,
    {
        match allocator.state(PhysAddr::new(page)) {
            Ok(PageState::Reserved) => {},
            Ok(_) => {
                proof {
                    let p = (page / 4096) as int;
                    assert(allocator.managed_set().contains(p));
                    assert(dtb_page_usable(*memory_map, live_dtb));
                }
                return Err(AllocatorInitError::DtbAllocatable);
            },
            Err(e) => {
                proof {
                    allocator.lemma_wf();
                    assert(page / 4096 >= B * 8);
                    assert(!dtb_page_usable(*memory_map, live_dtb)) by {
                        if dtb_page_usable(*memory_map, live_dtb) {
                            let p = choose|p: int|
                                page_floor(live_dtb.start_spec() as int) / 4096 <= p < page_ceil(
                                    live_dtb.end_spec(),
                                ) / 4096 && #[trigger] pages_of(
                                    memory_map.usable_spec(),
                                    memory_map.usable_spec().len() as int,
                                ).contains(p);
                            assert(allocator.managed_set().contains(p));
                            if p < page / 4096 {
                                assert(allocator.state_of(p) == PageState::Reserved);
                            }
                        }
                    }
                }
                return Err(AllocatorInitError::Allocator(e));
            },
        }
        page = page + 4096;
    }
    proof {
        assert(!dtb_page_usable(*memory_map, live_dtb)) by {
            if dtb_page_usable(*memory_map, live_dtb) {
                let p = choose|p: int|
                    page_floor(live_dtb.start_spec() as int) / 4096 <= p < page_ceil(
                        live_dtb.end_spec(),
                    ) / 4096 && #[trigger] pages_of(
                        memory_map.usable_spec(),
                        memory_map.usable_spec().len() as int,
                    ).contains(p);
                assert(allocator.managed_set().contains(p));
                assert(allocator.state_of(p) == PageState::Reserved);
            }
        }
    }
    Ok(allocator)
}

/// Identity-maps the usable RAM, writable and not executable, in tvisor's
/// tables, leaving out the pages of the live DTB.
pub fn map_usable_ram<const T: usize, const R: usize>(
    tables: &mut TableSet<'_, T>,
    usable_ram: &FixedList<PhysRegion, R>,
    live_dtb_pages: PhysRegion,
) -> (r: Result<(), PrepareError>)
    requires
        old(tables).wf(),
    ensures
        final(tables).wf(),
        final(tables).model().base == old(tables).model().base,
        final(tables).pa_width() == old(tables).pa_width(),
        forall|v: u64|
            !covered(usable_ram@, seq![live_dtb_pages], v as int) ==> #[trigger] walk_model(
                final(tables).model(),
                v,
            ) == walk_model(old(tables).model(), v),
        r is Ok ==> forall|v: u64|
            covered(usable_ram@, seq![live_dtb_pages], v as int) ==> #[trigger] identity_at(
                final(tables).model(),
                v,
                true,
                false,
            ),
        r is Err ==> r == Err::<(), PrepareError>(PrepareError::AddressOverflow) || r matches Err(
            PrepareError::Translation(_),
        ),
        r == Err::<(), PrepareError>(PrepareError::AddressOverflow) ==> exists|j: int|
            0 <= j < usable_ram@.len() && #[trigger] usable_ram@[j].start_spec() + 4095 > u64::MAX,
        r == Err::<(), PrepareError>(PrepareError::Translation(TranslationError::TableExhausted))
            ==> storage_full(final(tables).model()) && old(tables).model().used + 2 * prefix_pages(
            usable_ram@,
            usable_ram@.len() as int,
        ) > T,
        r == Err::<(), PrepareError>(PrepareError::Translation(TranslationError::ConflictingEntry))
            ==> !inners_apart(usable_ram@) || regions_blocked(
            old(tables).model(),
            usable_ram@,
            seq![live_dtb_pages],
        ),
        r == Err::<(), PrepareError>(PrepareError::Translation(TranslationError::VirtualAddressOutOfRange))
            ==> exists|j: int|
            0 <= j < usable_ram@.len() && page_ceil(#[trigger] usable_ram@[j].start_spec() as int)
                < page_floor(usable_ram@[j].end_spec()) && page_floor(usable_ram@[j].end_spec())
                > 0x80_0000_0000,
        r == Err::<(), PrepareError>(PrepareError::Translation(TranslationError::PhysicalAddressOutOfRange))
            ==> exists|j: int|
            0 <= j < usable_ram@.len() && page_ceil(#[trigger] usable_ram@[j].start_spec() as int)
                < page_floor(usable_ram@[j].end_spec()) && page_floor(usable_ram@[j].end_spec()) > (1u64
                << old(tables).pa_width()) as int,
        r matches Err(PrepareError::Translation(e)) ==> e == TranslationError::TableExhausted || e
            == TranslationError::ConflictingEntry || e == TranslationError::VirtualAddressOutOfRange || e
            == TranslationError::PhysicalAddressOutOfRange,
        inners_apart(usable_ram@) && regions_fit(usable_ram@, old(tables).pa_width()) && old(
            tables,
        ).model().used + 2 * prefix_pages(usable_ram@, usable_ram@.len() as int) <= T
            && !regions_blocked(old(tables).model(), usable_ram@, seq![live_dtb_pages]) ==> r is Ok,
{
    let mut exclusions = FixedList::<PhysRegion, 1>::new();
    match exclusions.push(live_dtb_pages) {
        Ok(()) => {},
        Err(_) => return Err(PrepareError::Validation),
    }
    proof {
        assert(exclusions@ =~= seq![live_dtb_pages]);
    }
    map_identity_regions_excluding(tables, usable_ram, &exclusions, true, false)
}

impl PrepareError {
    /// The error as it is shown: the variant's name, with the inner error's in brackets.
    pub open spec fn debug_text(self) -> Seq<char> {
        match self {
            PrepareError::AddressOverflow => "AddressOverflow"@,
            PrepareError::Translation(e) => "Translation("@ + e.debug_text() + ")"@,
            PrepareError::Allocator(e) => "Allocator("@ + e.debug_text() + ")"@,
            PrepareError::Validation => "Validation"@,
        }
    }

    /// The error as it is shown.
    pub fn to_string(&self) -> (r: String)
        ensures
            r@ == self.debug_text(),
    {
        match self {
            PrepareError::AddressOverflow => {
                String::from_str("AddressOverflow")
            }
            PrepareError::Translation(e) => {
                let mut text = String::from_str("Translation(");
                text.append(e.debug_name());
                text.append(")");
                text
            }
            PrepareError::Allocator(e) => {
                let mut text = String::from_str("Allocator(");
                let inner = e.to_string();
                text.append(inner.as_str());
                text.append(")");
                text
            }
            PrepareError::Validation => {
                String::from_str("Validation")
            }
        }
    }
}

impl AllocatorInitError {
    /// The error as it is shown: the variant's name, with the allocator error's in brackets.
    pub open spec fn debug_text(self) -> Seq<char> {
        match self {
            AllocatorInitError::Allocator(e) => "Allocator("@ + e.debug_text() + ")"@,
            AllocatorInitError::InvalidDtb => "InvalidDtb"@,
            AllocatorInitError::DtbAllocatable => "DtbAllocatable"@,
        }
    }

    /// The error as it is shown.
    pub fn to_string(&self) -> (r: String)
        ensures
            r@ == self.debug_text(),
    {
        match self {
            AllocatorInitError::Allocator(e) => {
                let mut text = String::from_str("Allocator(");
                let inner = e.to_string();
                text.append(inner.as_str());
                text.append(")");
                text
            }
            AllocatorInitError::InvalidDtb => {
                String::from_str("InvalidDtb")
            }
            AllocatorInitError::DtbAllocatable => {
                String::from_str("DtbAllocatable")
            }
        }
    }
}

} // verus!
