use tvisor::el2_translation::{
    L1_SIZE, L2_SIZE, MAIR_EL2_VALUE, Mapping, MemoryType, PAGE_SIZE, TCR_EL2_RES1, TableSet,
    TableStorage, Translation, TranslationError, VA_BITS, leaf_descriptor, register_values,
};

fn mapping(va: u64, pa: u64, size: u64) -> Mapping {
    Mapping {
        va,
        pa,
        size,
        memory_type: MemoryType::Normal,
        writable: true,
        executable: false,
    }
}

#[test]
fn maps_and_walks_each_leaf_level() {
    let mut storage = TableStorage::<8>::zeroed();
    let mut tables = TableSet::new(&mut storage, 0x3000_0000, 44).unwrap();
    tables.map(mapping(0, 0, L1_SIZE)).unwrap();
    tables
        .map(mapping(0x4000_0000, 0x4000_0000, L2_SIZE))
        .unwrap();
    tables
        .map(mapping(0x5000_1000, 0x6000_1000, PAGE_SIZE))
        .unwrap();

    assert_eq!(tables.walk(0x1234).unwrap().unwrap().level, 1);
    assert_eq!(
        tables.walk(0x401f_ffff).unwrap().unwrap(),
        Translation {
            pa: 0x401f_ffff,
            memory_type: MemoryType::Normal,
            writable: true,
            executable: false,
            level: 2,
        }
    );
    assert_eq!(tables.walk(0x5000_1234).unwrap().unwrap().pa, 0x6000_1234);
}

#[test]
fn preserves_permissions_and_memory_type() {
    let mut storage = TableStorage::<4>::zeroed();
    let mut tables = TableSet::new(&mut storage, 0x3000_0000, 44).unwrap();
    tables
        .map(Mapping {
            va: 0xfe21_5000,
            pa: 0xfe21_5000,
            size: PAGE_SIZE,
            memory_type: MemoryType::Device,
            writable: true,
            executable: false,
        })
        .unwrap();
    let uart = tables.walk(0xfe21_5040).unwrap().unwrap();
    assert_eq!(uart.memory_type, MemoryType::Device);
    assert!(uart.writable);
    assert!(!uart.executable);
}

#[test]
fn encodes_el2_xn_in_bit_54() {
    let executable = Mapping {
        executable: true,
        ..mapping(0x400_1000, 0x400_1000, PAGE_SIZE)
    };
    let non_executable = mapping(0x400_2000, 0x400_2000, PAGE_SIZE);
    let executable_descriptor = leaf_descriptor(3, executable.pa, executable);
    let non_executable_descriptor = leaf_descriptor(3, non_executable.pa, non_executable);

    assert_eq!(executable_descriptor & (1 << 54), 0);
    assert_ne!(non_executable_descriptor & (1 << 54), 0);
    assert_eq!(executable_descriptor & (1 << 53), 0);
    assert_eq!(non_executable_descriptor & (1 << 53), 0);
}

#[test]
fn leaves_guard_unmapped_and_rejects_conflicts() {
    let mut storage = TableStorage::<4>::zeroed();
    let mut tables = TableSet::new(&mut storage, 0x3000_0000, 44).unwrap();
    tables
        .map(mapping(0x405a_000, 0x405a_000, PAGE_SIZE))
        .unwrap();
    assert_eq!(tables.walk(0x4059_000).unwrap(), None);
    assert_eq!(
        tables.map(mapping(0x405a_000, 0x505a_000, PAGE_SIZE)),
        Err(TranslationError::ConflictingEntry)
    );
}

#[test]
fn rejects_invalid_ranges_and_table_exhaustion() {
    let mut one_storage = TableStorage::<1>::zeroed();
    let mut one = TableSet::new(&mut one_storage, 0x3000_0000, 44).unwrap();
    assert_eq!(
        one.map(mapping(0x1000, 0x1000, PAGE_SIZE)),
        Err(TranslationError::TableExhausted)
    );
    let mut storage = TableStorage::<4>::zeroed();
    let mut tables = TableSet::new(&mut storage, 0x3000_0000, 36).unwrap();
    assert_eq!(
        tables.map(mapping(1 << VA_BITS, 0, PAGE_SIZE)),
        Err(TranslationError::VirtualAddressOutOfRange)
    );
    assert_eq!(
        tables.map(mapping(0, 1 << 36, PAGE_SIZE)),
        Err(TranslationError::PhysicalAddressOutOfRange)
    );
    assert_eq!(
        tables.map(mapping(1, 0, PAGE_SIZE)),
        Err(TranslationError::UnalignedMapping)
    );
}

#[test]
fn encodes_expected_mair_attributes() {
    assert_eq!(MAIR_EL2_VALUE, 0x04ff);
}

#[test]
fn constructs_phase7_register_values() {
    let registers = register_values(0x3000_0000, 4).unwrap();
    assert_eq!(registers.mair_el2, 0x04ff);
    assert_eq!(registers.ttbr0_el2, 0x3000_0000);
    assert_eq!(registers.tcr_el2 & 0x3f, 25);
    assert_eq!((registers.tcr_el2 >> 8) & 0b11, 0b01);
    assert_eq!((registers.tcr_el2 >> 10) & 0b11, 0b01);
    assert_eq!((registers.tcr_el2 >> 12) & 0b11, 0b11);
    assert_eq!((registers.tcr_el2 >> 14) & 0b11, 0b00);
    assert_eq!((registers.tcr_el2 >> 16) & 0b111, 4);
    assert_eq!(registers.tcr_el2 & TCR_EL2_RES1, TCR_EL2_RES1);
    assert_ne!(registers.sctlr_el2 & (1 << 0), 0);
    assert_ne!(registers.sctlr_el2 & (1 << 19), 0);
}
