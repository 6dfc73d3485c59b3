use tvisor::page_allocator::{
    AllocatorError, AllocatorStats, PageAllocator, PageBitmap, PageState, page_covering,
};
use tvisor::system_info::{FixedList, PhysAddr, PhysRegion};

fn region(start: u64, size: u64) -> PhysRegion {
    PhysRegion::new(PhysAddr::new(start), size).unwrap()
}

#[test]
fn counted_bitmap_keeps_set_page_count_consistent() {
    let mut bitmap = PageBitmap::<1>::zeroed();
    assert!(!bitmap.is_set(3));
    assert_eq!(bitmap.pages(), 0);

    bitmap.set_bit(3, true);
    assert!(bitmap.is_set(3));
    assert_eq!(bitmap.pages(), 1);

    bitmap.set_bit(3, true);
    assert_eq!(bitmap.pages(), 1);

    bitmap.set_bit(3, false);
    assert!(!bitmap.is_set(3));
    assert_eq!(bitmap.pages(), 0);
}

#[test]
fn represents_reserved_in_use_and_unused_pages_in_flat_aperture() {
    let mut ram = FixedList::<_, 2>::new();
    ram.push(region(0x1000, 0x5000)).unwrap();
    let mut allocatable = FixedList::<_, 1>::new();
    allocatable.push(region(0x2000, 0x4000)).unwrap();
    let mut unused = FixedList::<_, 1>::new();
    unused.push(region(0x2000, 0x2000)).unwrap();
    let (mut managed, mut in_use) = (PageBitmap::<1>::zeroed(), PageBitmap::<1>::zeroed());
    let allocator =
        PageAllocator::new(&ram, &allocatable, &unused, &mut managed, &mut in_use).unwrap();

    assert_eq!(allocator.state(PhysAddr::new(0)), Ok(PageState::Reserved));
    assert_eq!(
        allocator.state(PhysAddr::new(0x1000)),
        Ok(PageState::Reserved)
    );
    assert_eq!(
        allocator.state(PhysAddr::new(0x2000)),
        Ok(PageState::Unused)
    );
    assert_eq!(allocator.state(PhysAddr::new(0x4000)), Ok(PageState::InUse));
    assert_eq!(
        allocator.stats(),
        AllocatorStats {
            ram_pages: 5,
            reserved_pages: 1,
            in_use_pages: 2,
            unused_pages: 2
        }
    );
}

#[test]
fn reserved_holes_stop_contiguous_allocations() {
    let mut ram = FixedList::<_, 1>::new();
    ram.push(region(0, 0x8000)).unwrap();
    let mut allocatable = FixedList::<_, 2>::new();
    allocatable.push(region(0x1000, 0x2000)).unwrap();
    allocatable.push(region(0x4000, 0x3000)).unwrap();
    let unused = allocatable.clone();
    let (mut managed, mut in_use) = (PageBitmap::<1>::zeroed(), PageBitmap::<1>::zeroed());
    let mut allocator =
        PageAllocator::new(&ram, &allocatable, &unused, &mut managed, &mut in_use).unwrap();

    assert_eq!(allocator.allocate_contiguous(3), Ok(PhysAddr::new(0x4000)));
    assert_eq!(allocator.allocate_contiguous(2), Ok(PhysAddr::new(0x1000)));
    assert_eq!(allocator.allocate(), Err(AllocatorError::Exhausted));
}

#[test]
fn allocates_highest_unused_managed_page() {
    let mut ram = FixedList::<_, 1>::new();
    ram.push(region(0, 0x8000)).unwrap();
    let mut allocatable = FixedList::<_, 2>::new();
    allocatable.push(region(0x1000, 0x2000)).unwrap();
    allocatable.push(region(0x5000, 0x2000)).unwrap();
    let unused = allocatable.clone();
    let (mut managed, mut in_use) = (PageBitmap::<1>::zeroed(), PageBitmap::<1>::zeroed());
    let mut allocator =
        PageAllocator::new(&ram, &allocatable, &unused, &mut managed, &mut in_use).unwrap();

    assert_eq!(allocator.allocate_high(), Ok(PhysAddr::new(0x6000)));
    assert_eq!(allocator.allocate_high(), Ok(PhysAddr::new(0x5000)));
}

#[test]
fn reclaims_in_use_pages_but_not_unavailable_addresses() {
    let mut ram = FixedList::<_, 1>::new();
    ram.push(region(0x1000, 0x5000)).unwrap();
    let mut allocatable = FixedList::<_, 1>::new();
    allocatable.push(region(0x2000, 0x4000)).unwrap();
    let (mut managed, mut in_use) = (PageBitmap::<1>::zeroed(), PageBitmap::<1>::zeroed());
    let mut allocator = PageAllocator::new(
        &ram,
        &allocatable,
        &FixedList::<PhysRegion, 0>::new(),
        &mut managed,
        &mut in_use,
    )
    .unwrap();

    assert_eq!(allocator.release(region(0x1000, 0x3000)), Ok(2));
    assert_eq!(
        allocator.state(PhysAddr::new(0x1000)),
        Ok(PageState::Reserved)
    );
    assert_eq!(
        allocator.state(PhysAddr::new(0x2000)),
        Ok(PageState::Unused)
    );
    assert_eq!(allocator.state(PhysAddr::new(0x4000)), Ok(PageState::InUse));
}

#[test]
fn rejects_invalid_and_double_frees() {
    let mut ram = FixedList::<_, 1>::new();
    ram.push(region(0x1000, 0x3000)).unwrap();
    let mut allocatable = FixedList::<_, 1>::new();
    allocatable.push(region(0x2000, 0x2000)).unwrap();
    let mut unused = FixedList::<_, 1>::new();
    unused.push(region(0x2000, 0x1000)).unwrap();
    let (mut managed, mut in_use) = (PageBitmap::<1>::zeroed(), PageBitmap::<1>::zeroed());
    let mut allocator =
        PageAllocator::new(&ram, &allocatable, &unused, &mut managed, &mut in_use).unwrap();

    assert_eq!(
        allocator.free(PhysAddr::new(0x2001)),
        Err(AllocatorError::UnalignedPage)
    );
    assert_eq!(
        allocator.free(PhysAddr::new(0x1000)),
        Err(AllocatorError::ReservedPage)
    );
    assert_eq!(
        allocator.free(PhysAddr::new(0x2000)),
        Err(AllocatorError::DoubleFree)
    );
    assert_eq!(allocator.free(PhysAddr::new(0x3000)), Ok(()));
}

#[test]
fn rejects_addresses_outside_bitmap_aperture() {
    let mut ram = FixedList::<_, 1>::new();
    ram.push(region(0, 0x1000)).unwrap();
    let (mut managed, mut in_use) = (PageBitmap::<1>::zeroed(), PageBitmap::<1>::zeroed());
    let allocator = PageAllocator::new(&ram, &ram, &ram, &mut managed, &mut in_use).unwrap();
    assert_eq!(
        allocator.state(PhysAddr::new(0x8000)),
        Err(AllocatorError::PhysicalAddressOutOfRange)
    );
}

#[test]
fn page_cover_rounds_outward() {
    assert_eq!(
        page_covering(region(0x3100, 0x100)).unwrap(),
        region(0x3000, 0x1000)
    );
}

#[test]
fn freeing_an_allocated_page_restores_the_allocator() {
    let mut ram = FixedList::<_, 1>::new();
    ram.push(region(0, 0x8000)).unwrap();
    let mut allocatable = FixedList::<_, 1>::new();
    allocatable.push(region(0x2000, 0x3000)).unwrap();
    let unused = allocatable.clone();
    let (mut managed, mut in_use) = (PageBitmap::<1>::zeroed(), PageBitmap::<1>::zeroed());
    let mut allocator =
        PageAllocator::new(&ram, &allocatable, &unused, &mut managed, &mut in_use).unwrap();
    let before = allocator.stats();
    let page = allocator.allocate().unwrap();
    assert_eq!(page, PhysAddr::new(0x2000));
    assert_eq!(allocator.state(page), Ok(PageState::InUse));
    assert_eq!(allocator.free(page), Ok(()));
    assert_eq!(allocator.state(page), Ok(PageState::Unused));
    assert_eq!(allocator.stats(), before);
    assert_eq!(allocator.free(page), Err(AllocatorError::DoubleFree));
}

#[test]
fn allocations_take_the_lowest_unused_page() {
    let mut ram = FixedList::<_, 1>::new();
    ram.push(region(0, 0x8000)).unwrap();
    let mut allocatable = FixedList::<_, 1>::new();
    allocatable.push(region(0x3000, 0x3000)).unwrap();
    let unused = allocatable.clone();
    let (mut managed, mut in_use) = (PageBitmap::<1>::zeroed(), PageBitmap::<1>::zeroed());
    let mut allocator =
        PageAllocator::new(&ram, &allocatable, &unused, &mut managed, &mut in_use).unwrap();
    assert_eq!(allocator.allocate(), Ok(PhysAddr::new(0x3000)));
    assert_eq!(allocator.allocate(), Ok(PhysAddr::new(0x4000)));
    assert_eq!(allocator.free(PhysAddr::new(0x3000)), Ok(()));
    assert_eq!(allocator.allocate(), Ok(PhysAddr::new(0x3000)));
    assert_eq!(allocator.allocate_contiguous(2), Err(AllocatorError::Exhausted));
}

#[test]
fn releasing_a_range_twice_frees_nothing_the_second_time() {
    let mut ram = FixedList::<_, 1>::new();
    ram.push(region(0x1000, 0x5000)).unwrap();
    let mut allocatable = FixedList::<_, 1>::new();
    allocatable.push(region(0x2000, 0x4000)).unwrap();
    let (mut managed, mut in_use) = (PageBitmap::<1>::zeroed(), PageBitmap::<1>::zeroed());
    let mut allocator = PageAllocator::new(
        &ram,
        &allocatable,
        &FixedList::<PhysRegion, 0>::new(),
        &mut managed,
        &mut in_use,
    )
    .unwrap();
    assert_eq!(allocator.release(region(0x2000, 0x2000)), Ok(2));
    let before = allocator.stats();
    assert_eq!(allocator.release(region(0x2000, 0x2000)), Ok(0));
    assert_eq!(allocator.stats(), before);
    assert_eq!(
        before.reserved_pages + before.in_use_pages + before.unused_pages,
        before.ram_pages
    );
}
