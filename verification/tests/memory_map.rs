use tvisor::memory_map::{MemoryMap, MemoryMapError};
use tvisor::system_info::{PhysAddr, PhysRegion};

fn region(start: u64, size: u64) -> PhysRegion {
    PhysRegion::new(PhysAddr::new(start), size).unwrap()
}

#[test]
fn sorts_merges_and_subtracts_all_overlap_shapes() {
    let mut map = MemoryMap::empty();
    map.insert_ram(region(0x1000, 0x9000)).unwrap();
    map.insert_reserved(region(0x7000, 0x1000)).unwrap();
    map.insert_reserved(region(0x3000, 0x1000)).unwrap();
    map.insert_reserved(region(0x3800, 0x1800)).unwrap();
    map.insert_reserved(region(0x9000, 0x2000)).unwrap();

    map.finalize().unwrap();

    assert_eq!(map.reserved().len(), 3);
    assert_eq!(
        map.usable_ram()
            .iter()
            .flatten()
            .copied()
            .collect::<std::vec::Vec<_>>(),
        [
            region(0x1000, 0x2000),
            region(0x5000, 0x2000),
            region(0x8000, 0x1000)
        ]
    );
}

#[test]
fn inventories_firmware_carveout_but_excludes_it_from_usable_ram() {
    let mut map = MemoryMap::empty();
    map.insert_ram(region(0, 0x8000)).unwrap();
    map.insert_ram(region(0x8000, 0x1000)).unwrap();
    map.insert_reserved(region(0x2000, 0x3000)).unwrap();
    map.insert_reserved(region(0x8000, 0x1000)).unwrap();

    map.finalize().unwrap();

    assert_eq!(
        map.ram().iter().flatten().copied().collect::<std::vec::Vec<_>>(),
        [region(0, 0x9000)]
    );
    assert_eq!(
        map.reserved().iter().flatten().copied().collect::<std::vec::Vec<_>>(),
        [region(0x2000, 0x3000), region(0x8000, 0x1000)]
    );
    assert_eq!(
        map.usable_ram()
            .iter()
            .flatten()
            .copied()
            .collect::<std::vec::Vec<_>>(),
        [region(0, 0x2000), region(0x5000, 0x3000)]
    );
}

#[test]
fn rejects_ram_mmio_conflict() {
    let mut map = MemoryMap::empty();
    map.insert_ram(region(0x1_0000_0000, 0x4000)).unwrap();
    map.insert_mmio(region(0x1_0000_1000, 0x1000)).unwrap();

    assert!(matches!(
        map.finalize(),
        Err(MemoryMapError::RamMmioConflict { .. })
    ));
}

#[test]
fn every_explicit_reservation_is_excluded_from_usable_ram() {
    let mut map = MemoryMap::empty();
    map.insert_ram(region(0, 0x10_000)).unwrap();
    map.insert_reserved(region(0x2000, 0x1000)).unwrap();
    map.insert_reserved(region(0x8000, 0x2000)).unwrap();

    map.finalize().unwrap();

    assert_eq!(
        map.reserved().iter().flatten().copied().collect::<std::vec::Vec<_>>(),
        [region(0x2000, 0x1000), region(0x8000, 0x2000)]
    );
    assert_eq!(
        map.usable_ram()
            .iter()
            .flatten()
            .copied()
            .collect::<std::vec::Vec<_>>(),
        [
            region(0, 0x2000),
            region(0x3000, 0x5000),
            region(0xa000, 0x6000)
        ]
    );
}
