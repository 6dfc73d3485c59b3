use tvisor::system_info::{CapacityError, FixedList, PhysAddr, PhysRegion, RegionError};

fn region(start: u64, size: u64) -> PhysRegion {
    PhysRegion::new(PhysAddr::new(start), size).unwrap()
}

#[test]
fn constructs_regions_at_low_and_high_addresses() {
    let low = region(0x1000, 0x2000);
    let high = region(0x1_0000_0000, 0x4000);

    assert_eq!(low.end(), PhysAddr::new(0x3000));
    assert_eq!(high.end(), PhysAddr::new(0x1_0000_4000));
}

#[test]
fn rejects_invalid_regions() {
    assert_eq!(
        PhysRegion::new(PhysAddr::new(0x1000), 0),
        Err(RegionError::Empty)
    );
    assert_eq!(
        PhysRegion::from_bounds(PhysAddr::new(0x2000), PhysAddr::new(0x1000)),
        Err(RegionError::EndBeforeStart)
    );
    assert_eq!(
        PhysRegion::from_bounds(PhysAddr::new(0x1000), PhysAddr::new(0x1000)),
        Err(RegionError::Empty)
    );
    assert_eq!(
        PhysRegion::new(PhysAddr::new(u64::MAX), 1),
        Err(RegionError::AddressOverflow)
    );
    assert_eq!(
        PhysRegion::new_aligned(PhysAddr::new(0x1000), 0, 0x1000),
        Err(RegionError::Empty)
    );
    assert_eq!(
        PhysRegion::new_aligned(PhysAddr::new(0x1000), 1, 3),
        Err(RegionError::InvalidAlignment)
    );
}

#[test]
fn rounds_aligned_regions_outward() {
    assert_eq!(
        PhysRegion::new_aligned(PhysAddr::new(0x1fff), 2, 0x1000).unwrap(),
        region(0x1000, 0x2000)
    );
}

#[test]
fn checks_address_and_region_containment_at_boundaries() {
    let outer = region(0x1000, 0x2000);
    let inner = region(0x1800, 0x800);

    assert!(outer.contains_address(PhysAddr::new(0x1000)));
    assert!(outer.contains_address(PhysAddr::new(0x2fff)));
    assert!(!outer.contains_address(PhysAddr::new(0x3000)));
    assert!(outer.contains_region(inner));
    assert!(outer.contains_region(outer));
    assert!(!inner.contains_region(outer));
}

#[test]
fn distinguishes_overlap_and_adjacency() {
    let base = region(0x1000, 0x1000);
    let disjoint = region(0x3000, 0x1000);
    let adjacent = region(0x2000, 0x1000);
    let partial = region(0x1800, 0x1000);
    let contained = region(0x1400, 0x100);

    assert!(!base.overlaps(disjoint));
    assert!(!base.is_adjacent(disjoint));
    assert!(!base.overlaps(adjacent));
    assert!(base.is_adjacent(adjacent));
    assert!(base.overlaps(partial));
    assert!(partial.overlaps(base));
    assert!(base.overlaps(contained));
}

#[test]
fn checked_address_addition_detects_overflow() {
    assert_eq!(
        PhysAddr::new(0x1000).checked_add(0x20),
        Some(PhysAddr::new(0x1020))
    );
    assert_eq!(PhysAddr::new(u64::MAX).checked_add(1), None);
}

#[test]
fn fixed_list_preserves_insertion_order_and_capacity() {
    let mut list = FixedList::<u32, 2>::new();
    assert!(list.is_empty());
    assert_eq!(list.capacity(), 2);

    list.push(10).unwrap();
    list.push(20).unwrap();
    assert!(list.is_full());
    assert_eq!(list.len(), 2);
    assert_eq!(list.get(0), Some(&10));
    assert_eq!(list.get(1), Some(&20));
    assert_eq!(list.get(2), None);
    assert_eq!(list.iter().flatten().copied().collect::<Vec<_>>(), [10, 20]);
    assert_eq!((&list).into_iter().flatten().copied().collect::<Vec<_>>(), [10, 20]);

    let error = list.push(30).unwrap_err();
    assert_eq!(error.capacity(), 2);
    assert_eq!(list.iter().flatten().copied().collect::<Vec<_>>(), [10, 20]);
}

#[test]
fn fixed_list_clear_insert_remove_work() {
    let mut list = FixedList::<u32, 3>::new();
    list.push(10).unwrap();
    list.push(30).unwrap();

    list.insert(1, 20).unwrap();
    assert_eq!(list.iter().flatten().copied().collect::<Vec<_>>(), [10, 20, 30]);

    let removed = list.remove(1).unwrap();
    assert_eq!(removed, 20);
    assert_eq!(list.iter().flatten().copied().collect::<Vec<_>>(), [10, 30]);

    list.clear();
    assert!(list.is_empty());
    assert_eq!(list.iter().flatten().copied().collect::<Vec<_>>(), []);
}

#[test]
fn zero_capacity_list_is_consistently_full() {
    let mut list = FixedList::<u32, 0>::new();
    assert!(list.is_empty());
    assert!(list.is_full());
    assert_eq!(list.push(1), Err(CapacityError { capacity: 0 }));
    assert_eq!(list.iter().len(), 0);
}

#[test]
fn formats_addresses_regions_and_errors_stably() {
    assert_eq!(
        PhysAddr::new(0x0400_0000).to_string(),
        "0x0000000004000000"
    );
    assert_eq!(
        region(0x0400_0000, 0x20_0000).to_string(),
        "[0x0000000004000000, 0x0000000004200000)"
    );
    assert_eq!(
        RegionError::AddressOverflow.to_string(),
        "physical region end overflows"
    );
    assert_eq!(
        CapacityError { capacity: 4 }.to_string(),
        "fixed-capacity list is full (capacity 4)"
    );
}

#[test]
fn formats_extreme_values() {
    assert_eq!(PhysAddr::new(u64::MAX).to_string(), "0xffffffffffffffff");
    assert_eq!(PhysAddr::new(0).to_string(), "0x0000000000000000");
    assert_eq!(
        CapacityError { capacity: 200 }.to_string(),
        "fixed-capacity list is full (capacity 200)"
    );
    assert_eq!(
        CapacityError { capacity: 0 }.to_string(),
        "fixed-capacity list is full (capacity 0)"
    );
    assert_eq!(
        RegionError::InvalidAlignment.to_string(),
        "region alignment is not a power of two"
    );
}
