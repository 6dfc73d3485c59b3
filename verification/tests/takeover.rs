use tvisor::aarch64_reg::{CurrentEL, HcrEl2, IdAa64Mmfr0El1, IdAa64Pfr0El1, MpidrEl1, SctlrEl2, VbarEl2};
use tvisor::el2_translation::{TableStorage, TranslationError};
use tvisor::gicv2::GicV2Info;
use tvisor::handoff::{HandoffError, handoff_check};
use tvisor::memory_map::MemoryMap;
use tvisor::mm::{
    AllocatorInitError, ImageLayout, PrepareError, bootstrap_prerequisites, build_bootstrap_page_table,
    initialize_allocator_after_takeover,
};
use tvisor::page_allocator::{AllocatorError, PageAllocator, PageBitmap};
use tvisor::system_info::{FixedList, PhysAddr, PhysRegion};

fn region(start: u64, size: u64) -> PhysRegion {
    PhysRegion::new(PhysAddr::new(start), size).unwrap()
}

fn el2() -> CurrentEL {
    CurrentEL { value: 2 << 2 }
}

#[test]
fn handoff_at_el2_little_endian_with_aligned_vectors_passes() {
    let r = handoff_check(
        el2(),
        Some(SctlrEl2 { value: 0 }),
        Some(VbarEl2 { value: 0x4000_0800 }),
        Some(IdAa64Pfr0El1 { value: 0x1100 }),
        Some(MpidrEl1 { value: 0x8000_0000 }),
    );
    assert_eq!(r, Ok(()));
    // Registers that could not be read pass their own checks, but MPIDR_EL1.
    assert_eq!(handoff_check(el2(), None, None, None, Some(MpidrEl1 { value: 0 })), Ok(()));
}

#[test]
fn handoff_is_refused_for_each_failed_check() {
    let mpidr = Some(MpidrEl1 { value: 0 });
    assert_eq!(
        handoff_check(CurrentEL { value: 1 << 2 }, None, None, None, mpidr),
        Err(HandoffError::NotEl2)
    );
    assert_eq!(
        handoff_check(el2(), Some(SctlrEl2 { value: 1 << 25 }), None, None, mpidr),
        Err(HandoffError::BigEndian)
    );
    assert_eq!(
        handoff_check(el2(), None, Some(VbarEl2 { value: 0x4000_0400 }), None, mpidr),
        Err(HandoffError::VectorsUnaligned)
    );
    assert_eq!(
        handoff_check(el2(), None, None, Some(IdAa64Pfr0El1 { value: 0x11 }), mpidr),
        Err(HandoffError::El2NotImplemented)
    );
    assert_eq!(handoff_check(el2(), None, None, None, None), Err(HandoffError::MpidrUnavailable));
    // The level is checked first.
    assert_eq!(
        handoff_check(CurrentEL { value: 0 }, Some(SctlrEl2 { value: 1 << 25 }), None, None, None),
        Err(HandoffError::NotEl2)
    );
}

#[test]
fn bootstrap_prerequisites_need_4k_granule_and_no_vm_or_e2h() {
    let mmfr0 = Some(IdAa64Mmfr0El1 { value: 0x0000_0000_0010_0025 });
    assert_eq!(bootstrap_prerequisites(mmfr0, Some(HcrEl2 { value: 1 << 31 })), Ok(5));
    assert_eq!(
        bootstrap_prerequisites(None, Some(HcrEl2 { value: 0 })),
        Err(PrepareError::Validation)
    );
    assert_eq!(
        bootstrap_prerequisites(Some(IdAa64Mmfr0El1 { value: 0xf000_0005 }), Some(HcrEl2 { value: 0 })),
        Err(PrepareError::Validation)
    );
    assert_eq!(bootstrap_prerequisites(mmfr0, None), Err(PrepareError::Validation));
    assert_eq!(bootstrap_prerequisites(mmfr0, Some(HcrEl2 { value: 1 })), Err(PrepareError::Validation));
    assert_eq!(
        bootstrap_prerequisites(mmfr0, Some(HcrEl2 { value: 1 << 34 })),
        Err(PrepareError::Validation)
    );
}

#[test]
fn ram_region_without_a_whole_page_counts_no_pages() {
    let mut ram = FixedList::<PhysRegion, 1>::new();
    ram.push(region(0x1100, 0x100)).unwrap();
    let allocatable = FixedList::<PhysRegion, 1>::new();
    let unused = FixedList::<PhysRegion, 1>::new();
    let (mut managed, mut in_use) = (PageBitmap::<1>::zeroed(), PageBitmap::<1>::zeroed());
    let allocator =
        PageAllocator::new(&ram, &allocatable, &unused, &mut managed, &mut in_use).unwrap();
    let stats = allocator.stats();
    assert_eq!(stats.ram_pages, 0);
    assert_eq!(stats.reserved_pages + stats.in_use_pages + stats.unused_pages, stats.ram_pages);
}

#[test]
fn live_dtb_beyond_the_bitmaps_is_out_of_range() {
    let mut map = MemoryMap::empty();
    map.insert_ram(region(0, 0x8000)).unwrap();
    map.finalize().unwrap();
    let mut h = [0u8; 8];
    h[..4].copy_from_slice(&0xd00d_feedu32.to_be_bytes());
    h[4..].copy_from_slice(&0x1000u32.to_be_bytes());
    let (mut managed, mut in_use) = (PageBitmap::<1>::zeroed(), PageBitmap::<1>::zeroed());
    assert!(matches!(
        initialize_allocator_after_takeover(&map, region(0x8000, 0x1000), h, &mut managed, &mut in_use),
        Err(AllocatorInitError::Allocator(AllocatorError::PhysicalAddressOutOfRange))
    ));
}

#[test]
fn bootstrap_tables_too_small_run_out_of_pages() {
    let layout = ImageLayout {
        text_start: 0x0400_0000,
        text_end: 0x0401_0000,
        vectors_start: 0x0401_0000,
        vectors_end: 0x0401_1000,
        rodata_start: 0x0401_1000,
        rodata_end: 0x0401_4000,
        writable_start: 0x0401_4000,
        writable_end: 0x0401_8000,
        boot_stack_guard_start: 0x0401_8000,
        boot_stack_guard_end: 0x0401_9000,
        boot_stack_bottom: 0x0401_9000,
        boot_stack_top: 0x0402_1000,
        bootstrap_tables_start: 0x0402_1000,
        bootstrap_tables_end: 0x0402_3000,
        payload_start: 0x0403_1000,
        payload_end: 0x0403_2000,
    };
    let gic = GicV2Info::new(
        region(0xff84_1000, 0x1000),
        region(0xff84_2000, 0x2000),
        region(0xff84_4000, 0x2000),
        region(0xff84_6000, 0x2000),
    )
    .unwrap();
    let mut storage = TableStorage::<2>::zeroed();
    let result = build_bootstrap_page_table(
        &mut storage,
        &layout,
        4,
        region(0x2eff_1000, 0xf000),
        region(0xfe21_5000, 0x1000),
        gic,
    );
    assert!(matches!(
        result,
        Err(PrepareError::Translation(TranslationError::TableExhausted))
    ));
}
