use tvisor::el2_translation::{
    L1_SIZE, L2_SIZE, Mapping, MemoryType, PAGE_SIZE, TableSet, TableStorage, TranslationError,
};

fn mapping(va: u64, pa: u64, size: u64) -> Mapping {
    Mapping {
        va,
        pa,
        size,
        memory_type: MemoryType::Normal,
        writable: true,
        executable: false,
    }
}

#[test]
fn mapping_uses_the_largest_aligned_leaf_that_fits() {
    let mut storage = TableStorage::<8>::zeroed();
    let mut tables = TableSet::new(&mut storage, 0x3000_0000, 44).unwrap();
    // 4 KiB pages up to the 2 MiB boundary, then a 2 MiB block, then pages.
    tables
        .map(mapping(0x001f_e000, 0x001f_e000, 2 * PAGE_SIZE + L2_SIZE + PAGE_SIZE))
        .unwrap();
    assert_eq!(tables.walk(0x001f_e000).unwrap().unwrap().level, 3);
    assert_eq!(tables.walk(0x001f_f000).unwrap().unwrap().level, 3);
    assert_eq!(tables.walk(0x0020_0000).unwrap().unwrap().level, 2);
    assert_eq!(tables.walk(0x003f_ffff).unwrap().unwrap().level, 2);
    assert_eq!(tables.walk(0x0040_0000).unwrap().unwrap().level, 3);
    assert_eq!(tables.walk(0x0040_1000).unwrap(), None);
}

#[test]
fn a_misaligned_physical_range_forces_smaller_leaves() {
    let mut storage = TableStorage::<8>::zeroed();
    let mut tables = TableSet::new(&mut storage, 0x3000_0000, 44).unwrap();
    tables.map(mapping(0, 0x1000, L2_SIZE)).unwrap();
    let t = tables.walk(0x1_2345).unwrap().unwrap();
    assert_eq!(t.level, 3);
    assert_eq!(t.pa, 0x1_3345);
}

#[test]
fn remapping_identically_succeeds_and_other_mappings_are_kept() {
    let mut storage = TableStorage::<8>::zeroed();
    let mut tables = TableSet::new(&mut storage, 0x3000_0000, 44).unwrap();
    tables.map(mapping(L1_SIZE, L1_SIZE, L1_SIZE)).unwrap();
    tables.map(mapping(0x1000, 0x8000, PAGE_SIZE)).unwrap();
    assert_eq!(tables.map(mapping(0x1000, 0x8000, PAGE_SIZE)), Ok(()));
    assert_eq!(tables.walk(0x1000).unwrap().unwrap().pa, 0x8000);
    assert_eq!(tables.walk(L1_SIZE + 5).unwrap().unwrap().pa, L1_SIZE + 5);
    assert_eq!(tables.walk(L1_SIZE + 5).unwrap().unwrap().level, 1);
    // A block over a range that already holds a table conflicts.
    assert_eq!(
        tables.map(mapping(0, 0, L1_SIZE)),
        Err(TranslationError::ConflictingEntry)
    );
}

#[test]
fn table_set_construction_checks_its_storage() {
    let mut storage = TableStorage::<1>::zeroed();
    assert!(matches!(
        TableSet::new(&mut storage, 0x3000_0100, 44),
        Err(TranslationError::InvalidTableBase)
    ));
    let mut storage = TableStorage::<1>::zeroed();
    assert!(matches!(
        TableSet::new(&mut storage, 0x3000_0000, 31),
        Err(TranslationError::InvalidPaBits)
    ));
    let mut storage = TableStorage::<0>::zeroed();
    assert!(matches!(
        TableSet::new(&mut storage, 0x3000_0000, 44),
        Err(TranslationError::TableExhausted)
    ));
    let mut storage = TableStorage::<2>::zeroed();
    assert!(matches!(
        TableSet::new(&mut storage, 0xffff_f000, 32),
        Err(TranslationError::PhysicalAddressOutOfRange)
    ));
    let mut storage = TableStorage::<2>::zeroed();
    let tables = TableSet::new(&mut storage, 0x3000_0000, 44).unwrap();
    assert_eq!(tables.used_pages(), 1);
    assert!(tables.page(0).is_some());
    assert!(tables.page(1).is_none());
    assert_eq!(tables.walk(1 << 39), Err(TranslationError::VirtualAddressOutOfRange));
    assert_eq!(
        {
            let mut storage = TableStorage::<2>::zeroed();
            let mut t = TableSet::new(&mut storage, 0x3000_0000, 44).unwrap();
            t.map(mapping(0, 0, 0))
        },
        Err(TranslationError::EmptyMapping)
    );
}

#[test]
fn gigabyte_blocks_need_the_whole_block_inside_and_matching_offsets() {
    let mut storage = TableStorage::<8>::zeroed();
    let mut tables = TableSet::new(&mut storage, 0x3000_0000, 44).unwrap();
    tables
        .map(mapping(0x3fe0_0000, 0x3fe0_0000, L2_SIZE + L1_SIZE + L2_SIZE))
        .unwrap();
    assert_eq!(tables.walk(0x3fe0_1000).unwrap().unwrap().level, 2);
    assert_eq!(tables.walk(0x4000_1000).unwrap().unwrap().level, 1);
    assert_eq!(tables.walk(0x8000_0000).unwrap().unwrap().level, 2);

    // Offsets that differ modulo 1 GiB leave only 2 MiB blocks.
    let mut storage = TableStorage::<8>::zeroed();
    let mut tables = TableSet::new(&mut storage, 0x3000_0000, 44).unwrap();
    tables.map(mapping(0x4000_0000, 0x8020_0000, L1_SIZE)).unwrap();
    let t = tables.walk(0x4000_0000).unwrap().unwrap();
    assert_eq!(t.level, 2);
    assert_eq!(t.pa, 0x8020_0000);
}
