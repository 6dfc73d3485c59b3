use tvisor::el2_translation::{MemoryType, TableSet, TableStorage};
use tvisor::memory_map::MemoryMap;
use tvisor::mm::{
    AllocatorInitError, initialize_allocator_after_takeover, map_usable_ram, validate_live_dtb,
};
use tvisor::page_allocator::{PageBitmap, PageState};
use tvisor::system_info::{FixedList, PhysAddr, PhysRegion};

fn region(start: u64, size: u64) -> PhysRegion {
    PhysRegion::new(PhysAddr::new(start), size).unwrap()
}

fn header(size: u32) -> [u8; 8] {
    let mut h = [0u8; 8];
    h[..4].copy_from_slice(&0xd00d_feedu32.to_be_bytes());
    h[4..].copy_from_slice(&size.to_be_bytes());
    h
}

#[test]
fn live_dtb_must_match_its_header() {
    let dtb = region(0x8000, 0x1800);
    assert_eq!(validate_live_dtb(dtb, header(0x1800)), Ok(()));
    assert_eq!(validate_live_dtb(dtb, header(0x1000)), Err(AllocatorInitError::InvalidDtb));
    let mut bad_magic = header(0x1800);
    bad_magic[0] = 0;
    assert_eq!(validate_live_dtb(dtb, bad_magic), Err(AllocatorInitError::InvalidDtb));
    assert_eq!(
        validate_live_dtb(region(0x8000, 4), header(4)),
        Err(AllocatorInitError::InvalidDtb)
    );
}

#[test]
fn allocator_starts_with_usable_ram_unused_and_the_dtb_reserved() {
    let mut map = MemoryMap::empty();
    map.insert_ram(region(0, 0x20000)).unwrap();
    map.insert_reserved(region(0x8000, 0x2000)).unwrap();
    map.finalize().unwrap();
    let dtb = region(0x8000, 0x1800);
    let (mut managed, mut in_use) = (PageBitmap::<4>::zeroed(), PageBitmap::<4>::zeroed());
    let allocator =
        initialize_allocator_after_takeover(&map, dtb, header(0x1800), &mut managed, &mut in_use)
            .unwrap();
    assert_eq!(allocator.state(PhysAddr::new(0x8000)), Ok(PageState::Reserved));
    assert_eq!(allocator.state(PhysAddr::new(0x9000)), Ok(PageState::Reserved));
    assert_eq!(allocator.state(PhysAddr::new(0xa000)), Ok(PageState::Unused));
    assert_eq!(allocator.stats().in_use_pages, 0);
    assert_eq!(allocator.stats().unused_pages, 30);

    let (mut managed, mut in_use) = (PageBitmap::<4>::zeroed(), PageBitmap::<4>::zeroed());
    assert!(matches!(
        initialize_allocator_after_takeover(&map, dtb, header(0x1000), &mut managed, &mut in_use),
        Err(AllocatorInitError::InvalidDtb)
    ));
    // A DTB in usable RAM would be handed out: refused.
    let (mut managed, mut in_use) = (PageBitmap::<4>::zeroed(), PageBitmap::<4>::zeroed());
    assert!(matches!(
        initialize_allocator_after_takeover(
            &map,
            region(0x4000, 0x1000),
            header(0x1000),
            &mut managed,
            &mut in_use
        ),
        Err(AllocatorInitError::DtbAllocatable)
    ));
}

#[test]
fn maps_usable_ram_around_the_live_dtb() {
    let mut usable = FixedList::<PhysRegion, 2>::new();
    usable.push(region(0x4000_0000, 0x8000)).unwrap();
    let mut storage = TableStorage::<8>::zeroed();
    let mut tables = TableSet::new(&mut storage, 0x3000_0000, 44).unwrap();
    map_usable_ram(&mut tables, &usable, region(0x4000_2000, 0x1000)).unwrap();
    let t = tables.walk(0x4000_1000).unwrap().unwrap();
    assert_eq!(t.pa, 0x4000_1000);
    assert_eq!(t.memory_type, MemoryType::Normal);
    assert!(t.writable && !t.executable);
    assert_eq!(tables.walk(0x4000_2000).unwrap(), None);
    assert!(tables.walk(0x4000_3000).unwrap().is_some());
    assert_eq!(tables.walk(0x4000_8000).unwrap(), None);
}
