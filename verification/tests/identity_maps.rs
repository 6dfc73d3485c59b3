use tvisor::el2_translation::{MemoryType, TableSet, TableStorage, Translation, TranslationError};
use tvisor::gicv2::GicV2Info;
use tvisor::mm::{
    ImageLayout, PrepareError, build_bootstrap_page_table, map_identity, map_identity_device,
    map_identity_regions_excluding, validate_bootstrap_page_table,
};
use tvisor::system_info::{FixedList, PhysAddr, PhysRegion};

fn region(start: u64, size: u64) -> PhysRegion {
    PhysRegion::new(PhysAddr::new(start), size).unwrap()
}

#[test]
fn identity_maps_normal_and_device_memory() {
    let mut storage = TableStorage::<8>::zeroed();
    let mut tables = TableSet::new(&mut storage, 0x3000_0000, 44).unwrap();
    map_identity(&mut tables, 0x0400_0000, 0x0400_2000, false, true).unwrap();
    map_identity_device(&mut tables, region(0xfe21_5000, 0x1000)).unwrap();
    assert_eq!(
        tables.walk(0x0400_1234).unwrap(),
        Some(Translation {
            pa: 0x0400_1234,
            memory_type: MemoryType::Normal,
            writable: false,
            executable: true,
            level: 3,
        })
    );
    let uart = tables.walk(0xfe21_5040).unwrap().unwrap();
    assert_eq!(uart.pa, 0xfe21_5040);
    assert_eq!(uart.memory_type, MemoryType::Device);
    assert!(uart.writable && !uart.executable);
    assert_eq!(tables.walk(0x0400_2000).unwrap(), None);
}

#[test]
fn identity_maps_reject_unaligned_or_empty_ranges() {
    let mut storage = TableStorage::<4>::zeroed();
    let mut tables = TableSet::new(&mut storage, 0x3000_0000, 44).unwrap();
    assert_eq!(
        map_identity(&mut tables, 0x1001, 0x2000, true, false),
        Err(PrepareError::Validation)
    );
    assert_eq!(
        map_identity(&mut tables, 0x2000, 0x2000, true, false),
        Err(PrepareError::Validation)
    );
    assert_eq!(
        map_identity_device(&mut tables, region(0x1000, 0x800)),
        Err(PrepareError::Validation)
    );
    assert_eq!(
        map_identity(&mut tables, 1 << 40, (1 << 40) + 0x1000, true, false),
        Err(PrepareError::Translation(TranslationError::VirtualAddressOutOfRange))
    );
    assert_eq!(tables.used_pages(), 1);
}

#[test]
fn excluded_pages_stay_unmapped() {
    let mut storage = TableStorage::<8>::zeroed();
    let mut tables = TableSet::new(&mut storage, 0x3000_0000, 44).unwrap();
    let mut regions = FixedList::<PhysRegion, 2>::new();
    regions.push(region(0x10_0800, 0x8000)).unwrap();
    let mut exclusions = FixedList::<PhysRegion, 2>::new();
    exclusions.push(region(0x10_3100, 0x100)).unwrap();
    map_identity_regions_excluding(&mut tables, &regions, &exclusions, true, false).unwrap();
    // The region's partial first page and its last partial page are left out.
    assert_eq!(tables.walk(0x10_0800).unwrap(), None);
    assert_eq!(tables.walk(0x10_1000).unwrap().unwrap().pa, 0x10_1000);
    assert_eq!(tables.walk(0x10_2fff).unwrap().unwrap().pa, 0x10_2fff);
    // The whole page touched by the exclusion is left out.
    assert_eq!(tables.walk(0x10_3000).unwrap(), None);
    assert_eq!(tables.walk(0x10_3fff).unwrap(), None);
    assert_eq!(tables.walk(0x10_4000).unwrap().unwrap().pa, 0x10_4000);
    assert_eq!(tables.walk(0x10_7fff).unwrap().unwrap().pa, 0x10_7fff);
    assert_eq!(tables.walk(0x10_8000).unwrap(), None);
}

fn layout() -> ImageLayout {
    ImageLayout {
        text_start: 0x0400_0000,
        text_end: 0x0401_0000,
        vectors_start: 0x0401_0000,
        vectors_end: 0x0401_1000,
        rodata_start: 0x0401_1000,
        rodata_end: 0x0401_4000,
        writable_start: 0x0401_4000,
        writable_end: 0x0401_8000,
        boot_stack_guard_start: 0x0401_8000,
        boot_stack_guard_end: 0x0401_9000,
        boot_stack_bottom: 0x0401_9000,
        boot_stack_top: 0x0402_1000,
        bootstrap_tables_start: 0x0402_1000,
        bootstrap_tables_end: 0x0403_1000,
        payload_start: 0x0403_1000,
        payload_end: 0x0403_2000,
    }
}

fn gic() -> GicV2Info {
    GicV2Info::new(
        region(0xff84_1000, 0x1000),
        region(0xff84_2000, 0x2000),
        region(0xff84_4000, 0x1000),
        region(0xff84_6000, 0x2000),
    )
    .unwrap()
}

#[test]
fn bootstrap_tables_map_the_image_and_leave_the_stack_guard_out() {
    let mut storage = TableStorage::<16>::zeroed();
    let layout = layout();
    let tables = build_bootstrap_page_table(
        &mut storage,
        &layout,
        4,
        region(0x2eff_1000, 0xf000),
        region(0xfe21_5000, 0x1000),
        gic(),
    )
    .unwrap();
    assert_eq!(tables.root_pa(), 0x0402_1000);
    assert_eq!(tables.walk(0x0401_8000).unwrap(), None);
    let text = tables.walk(0x0400_0000).unwrap().unwrap();
    assert!(text.executable && !text.writable);
    let data = tables.walk(0x0401_4000).unwrap().unwrap();
    assert!(data.writable && !data.executable);
    assert_eq!(
        tables.walk(0xff84_6000).unwrap().unwrap().memory_type,
        MemoryType::Device
    );
    assert_eq!(
        validate_bootstrap_page_table(
            &tables,
            &layout,
            0xfe21_5000,
            region(0x2eff_1000, 0xf000)
        ),
        Ok(())
    );
}

#[test]
fn bootstrap_arena_must_match_the_storage() {
    let mut storage = TableStorage::<8>::zeroed();
    let result = build_bootstrap_page_table(
        &mut storage,
        &layout(),
        4,
        region(0x2eff_1000, 0xf000),
        region(0xfe21_5000, 0x1000),
        gic(),
    );
    assert!(matches!(result, Err(PrepareError::Validation)));
    let mut storage = TableStorage::<16>::zeroed();
    let result = build_bootstrap_page_table(
        &mut storage,
        &layout(),
        9,
        region(0x2eff_1000, 0xf000),
        region(0xfe21_5000, 0x1000),
        gic(),
    );
    assert!(matches!(
        result,
        Err(PrepareError::Translation(TranslationError::InvalidPaBits))
    ));
}
