use tvisor::memory_map::MemoryMapError;
use tvisor::platform::{CapacityKind, PlatformError, memory_error, page_rounded_region};
use tvisor::system_info::{PhysAddr, PhysRegion, RegionError};

#[test]
fn page_rounding_covers_unaligned_blob() {
    assert_eq!(
        page_rounded_region(PhysAddr::new(0x2eff_1f00), 0xe0b7),
        PhysRegion::new(PhysAddr::new(0x2eff_1000), 0xf000)
    );
}

#[test]
fn page_rounding_keeps_aligned_blobs_and_rejects_overflow() {
    assert_eq!(
        page_rounded_region(PhysAddr::new(0x3000), 0x2000),
        PhysRegion::new(PhysAddr::new(0x3000), 0x2000)
    );
    assert_eq!(
        page_rounded_region(PhysAddr::new(0x3000), 0),
        Err(RegionError::Empty)
    );
    assert_eq!(
        page_rounded_region(PhysAddr::new(u64::MAX - 0x10), 0x8),
        Err(RegionError::AddressOverflow)
    );
}

#[test]
fn memory_map_errors_keep_their_capacity() {
    assert_eq!(
        memory_error(CapacityKind::Reserved, MemoryMapError::Capacity { capacity: 8 }),
        PlatformError::Capacity {
            kind: CapacityKind::Reserved,
            capacity: 8
        }
    );
    assert_eq!(
        memory_error(
            CapacityKind::Ram,
            MemoryMapError::InvalidRegion(RegionError::Empty)
        ),
        PlatformError::InvalidMemory
    );
}
