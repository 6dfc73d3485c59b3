use tvisor::el2_translation::TranslationError;
use tvisor::page_allocator::{AllocatorError, PageAllocator, PageBitmap};
use tvisor::stage2_translation::{
    Stage2Access, Stage2Exec, Stage2MemoryType, encode_l3_page_descriptor,
};
use tvisor::system_info::{FixedList, PhysAddr, PhysRegion};
use tvisor::vmctl::{IpaAddr, VmCtl, VmMemUsage, MAX_GUEST_MEM_PAGES};

const MASK: u64 = 0x0000_ffff_ffff_f000;

fn region(start: u64, size: u64) -> PhysRegion {
    PhysRegion::new(PhysAddr::new(start), size).unwrap()
}

/// A 64-page aperture whose pages from 0x1000 up are free.
fn bitmaps() -> (PageBitmap<8>, PageBitmap<8>) {
    (PageBitmap::<8>::zeroed(), PageBitmap::<8>::zeroed())
}

fn allocator<'a>(managed: &'a mut PageBitmap<8>, in_use: &'a mut PageBitmap<8>) -> PageAllocator<'a, 8> {
    let mut ram = FixedList::<_, 1>::new();
    ram.push(region(0, 0x40000)).unwrap();
    let mut allocatable = FixedList::<_, 1>::new();
    allocatable.push(region(0x1000, 0x3f000)).unwrap();
    let mut unused = FixedList::<_, 1>::new();
    unused.push(region(0x1000, 0x3f000)).unwrap();
    PageAllocator::new(&ram, &allocatable, &unused, managed, in_use).unwrap()
}

/// The level-3 descriptor that the tables of `vm` give for `ipa`.
fn walk(vm: &VmCtl, ipa: u64) -> Option<u64> {
    let lookup = |pa: u64| -> Option<usize> {
        (0..vm.table_count()).find(|&i| vm.table_page(i).unwrap().0.value() == pa)
    };
    let (_, root) = vm.table_page(0)?;
    let e1 = root.entries()[((ipa >> 30) & 0x1ff) as usize];
    if e1 & 3 != 3 {
        return None;
    }
    let (_, l2) = vm.table_page(lookup(e1 & MASK)?)?;
    let e2 = l2.entries()[((ipa >> 21) & 0x1ff) as usize];
    if e2 & 3 != 3 {
        return None;
    }
    let (_, l3) = vm.table_page(lookup(e2 & MASK)?)?;
    let e3 = l3.entries()[((ipa >> 12) & 0x1ff) as usize];
    if e3 & 1 == 1 { Some(e3) } else { None }
}

#[test]
fn allocates_guest_memory_page_tables_and_guard() {
    let (mut m, mut u) = bitmaps();
    let mut alloc = allocator(&mut m, &mut u);
    let before = alloc.stats();
    let mut vm = VmCtl::new(1);
    assert_eq!(vm.vm_id(), 1);
    assert_eq!(vm.page_table_root(), None);

    let root = vm.vm_mem_alloc(&mut alloc, VmMemUsage::PageTable, None, 0x2000).unwrap();
    assert_eq!(root, Some(PhysAddr::new(0x1000)));
    assert_eq!(vm.page_table_root(), Some(PhysAddr::new(0x1000)));
    let image = vm
        .vm_mem_alloc(&mut alloc, VmMemUsage::Image, Some(IpaAddr::new(0x4000_0000)), 0x2800)
        .unwrap();
    assert_eq!(image, Some(PhysAddr::new(0x3000)));
    let guard = vm
        .vm_mem_alloc(&mut alloc, VmMemUsage::Guard, Some(IpaAddr::new(0x4000_3000)), 0x1000)
        .unwrap();
    assert_eq!(guard, None);
    assert_eq!(alloc.stats().in_use_pages, before.in_use_pages + 5);

    assert_eq!(vm.entry_pa(VmMemUsage::Image), vec![region(0x3000, 0x3000)]);
    assert_eq!(
        vm.entry_pa(VmMemUsage::PageTable),
        vec![region(0x1000, 0x1000), region(0x2000, 0x1000)]
    );
    assert!(vm.entry_pa(VmMemUsage::Guard).is_empty());
    assert!(vm.entry_pa(VmMemUsage::Dtb).is_empty());
    let image_ipa = vm.entry_ipa(VmMemUsage::Image).unwrap();
    assert_eq!(image_ipa.start(), IpaAddr::new(0x4000_0000));
    assert_eq!(image_ipa.size(), 0x3000);
    assert_eq!(image_ipa.end(), IpaAddr::new(0x4000_3000));
    assert!(vm.entry_ipa(VmMemUsage::PageTable).is_none());

    vm.release_all(&mut alloc);
    assert_eq!(alloc.stats(), before);
    assert_eq!(vm.page_table_root(), None);
    assert!(vm.ipa_regions().is_empty());
}

#[test]
fn refuses_invalid_allocations() {
    let (mut m, mut u) = bitmaps();
    let mut alloc = allocator(&mut m, &mut u);
    let mut vm = VmCtl::new(2);
    let ipa = Some(IpaAddr::new(0x4000_0000));
    assert_eq!(
        vm.vm_mem_alloc(&mut alloc, VmMemUsage::Image, None, 0x1000),
        Err(AllocatorError::InvalidateParameter)
    );
    assert_eq!(
        vm.vm_mem_alloc(&mut alloc, VmMemUsage::PageTable, ipa, 0x1000),
        Err(AllocatorError::InvalidateParameter)
    );
    assert_eq!(
        vm.vm_mem_alloc(&mut alloc, VmMemUsage::Image, Some(IpaAddr::new(0x4000_0800)), 0x1000),
        Err(AllocatorError::InvalidIpa)
    );
    assert_eq!(
        vm.vm_mem_alloc(&mut alloc, VmMemUsage::Image, ipa, 0),
        Err(AllocatorError::InvalidIpa)
    );
    assert_eq!(
        vm.vm_mem_alloc(&mut alloc, VmMemUsage::Image, Some(IpaAddr::new(0x7f_ffff_f000)), 0x2000),
        Err(AllocatorError::InvalidIpa)
    );
    assert_eq!(
        vm.vm_mem_alloc(&mut alloc, VmMemUsage::Image, Some(IpaAddr::new(0xffff_ffff_ffff_f000)), 0x2000),
        Err(AllocatorError::AddressOverflow)
    );
    assert_eq!(
        vm.vm_mem_alloc(&mut alloc, VmMemUsage::Image, ipa, usize::MAX),
        Err(AllocatorError::AddressOverflow)
    );
    assert_eq!(
        vm.vm_mem_alloc(&mut alloc, VmMemUsage::Image, ipa, (MAX_GUEST_MEM_PAGES + 1) * 4096),
        Err(AllocatorError::Exhausted)
    );
    vm.vm_mem_alloc(&mut alloc, VmMemUsage::Image, ipa, 0x1000).unwrap();
    assert_eq!(
        vm.vm_mem_alloc(&mut alloc, VmMemUsage::Image, Some(IpaAddr::new(0x5000_0000)), 0x1000),
        Err(AllocatorError::AlreadyAllocated)
    );
    assert_eq!(
        vm.vm_mem_alloc(&mut alloc, VmMemUsage::Dtb, Some(IpaAddr::new(0x3fff_f000)), 0x2000),
        Err(AllocatorError::OverlappingIpa)
    );
    // The allocator has 63 pages; 62 more cannot fit next to the one taken.
    assert_eq!(
        vm.vm_mem_alloc(&mut alloc, VmMemUsage::Scratch, Some(IpaAddr::new(0x5000_0000)), 63 * 4096),
        Err(AllocatorError::Exhausted)
    );
    vm.release_all(&mut alloc);
}

#[test]
fn maps_every_page_of_a_region_and_keeps_earlier_mappings() {
    let (mut m, mut u) = bitmaps();
    let mut alloc = allocator(&mut m, &mut u);
    let before = alloc.stats();
    let mut vm = VmCtl::new(3);
    vm.vm_mem_alloc(&mut alloc, VmMemUsage::PageTable, None, 0x1000).unwrap();
    let image = vm
        .vm_mem_alloc(&mut alloc, VmMemUsage::Image, Some(IpaAddr::new(0x4000_0000)), 0x3000)
        .unwrap()
        .unwrap();
    let dtb = vm
        .vm_mem_alloc(&mut alloc, VmMemUsage::Dtb, Some(IpaAddr::new(0x8000_0000)), 0x1000)
        .unwrap()
        .unwrap();
    let normal = (Stage2MemoryType::NormalWbWa, Stage2Access::ReadWrite, Stage2Exec::Executable);
    vm.map(&mut alloc, VmMemUsage::Image, normal.0, normal.1, normal.2, 1).unwrap();
    for k in 0..3u64 {
        assert_eq!(
            walk(&vm, 0x4000_0000 + k * 4096),
            Some(encode_l3_page_descriptor(image.value() + k * 4096, normal.0, normal.1, normal.2))
        );
    }
    assert_eq!(walk(&vm, 0x4000_3000), None);
    // Root, one level-2 and one level-3 table.
    assert_eq!(vm.table_count(), 3);

    let ro = (Stage2MemoryType::NormalWbWa, Stage2Access::ReadOnly, Stage2Exec::ExecuteNever);
    vm.map(&mut alloc, VmMemUsage::Dtb, ro.0, ro.1, ro.2, 1).unwrap();
    assert_eq!(
        walk(&vm, 0x8000_0000),
        Some(encode_l3_page_descriptor(dtb.value(), ro.0, ro.1, ro.2))
    );
    // A new level-1 slot needed its own level-2 and level-3 tables.
    assert_eq!(vm.table_count(), 5);
    assert_eq!(
        walk(&vm, 0x4000_1000),
        Some(encode_l3_page_descriptor(image.value() + 4096, normal.0, normal.1, normal.2))
    );

    // Mapping again with the same attributes changes nothing.
    vm.map(&mut alloc, VmMemUsage::Image, normal.0, normal.1, normal.2, 1).unwrap();
    assert_eq!(vm.table_count(), 5);
    // Mapping it with others conflicts.
    assert_eq!(
        vm.map(&mut alloc, VmMemUsage::Image, ro.0, ro.1, ro.2, 1),
        Err(TranslationError::ConflictingEntry)
    );

    vm.release_all(&mut alloc);
    assert_eq!(alloc.stats(), before);
}

#[test]
fn refuses_maps_without_memory_tables_or_known_address_range() {
    let (mut m, mut u) = bitmaps();
    let mut alloc = allocator(&mut m, &mut u);
    let mut vm = VmCtl::new(4);
    let t = (Stage2MemoryType::DeviceNgNre, Stage2Access::ReadWrite, Stage2Exec::ExecuteNever);
    assert_eq!(
        vm.map(&mut alloc, VmMemUsage::Image, t.0, t.1, t.2, 1),
        Err(TranslationError::InvalidateParameter)
    );
    vm.vm_mem_alloc(&mut alloc, VmMemUsage::Guard, Some(IpaAddr::new(0x1000)), 0x1000).unwrap();
    assert_eq!(
        vm.map(&mut alloc, VmMemUsage::Guard, t.0, t.1, t.2, 1),
        Err(TranslationError::InvalidateParameter)
    );
    vm.vm_mem_alloc(&mut alloc, VmMemUsage::Stack, Some(IpaAddr::new(0x10_0000)), 0x1000).unwrap();
    assert_eq!(
        vm.map(&mut alloc, VmMemUsage::Stack, t.0, t.1, t.2, 9),
        Err(TranslationError::Unexpected)
    );
    assert_eq!(
        vm.map(&mut alloc, VmMemUsage::Stack, t.0, t.1, t.2, 1),
        Err(TranslationError::Unexpected)
    );
    vm.release_all(&mut alloc);
}

#[test]
fn lists_guest_ranges_in_ascending_order_and_describes_allocations() {
    let (mut m, mut u) = bitmaps();
    let mut alloc = allocator(&mut m, &mut u);
    let mut vm = VmCtl::new(5);
    vm.vm_mem_alloc(&mut alloc, VmMemUsage::Dtb, Some(IpaAddr::new(0x8000_0000)), 0x1000).unwrap();
    vm.vm_mem_alloc(&mut alloc, VmMemUsage::PageTable, None, 0x1000).unwrap();
    vm.vm_mem_alloc(&mut alloc, VmMemUsage::Guard, Some(IpaAddr::new(0x2000)), 0x1000).unwrap();
    vm.vm_mem_alloc(&mut alloc, VmMemUsage::Image, Some(IpaAddr::new(0x4000_0000)), 0x1000).unwrap();
    let starts: Vec<u64> = vm.ipa_regions().iter().map(|r| r.start().value()).collect();
    assert_eq!(starts, vec![0x2000, 0x4000_0000, 0x8000_0000]);

    let text = vm.to_string();
    assert_eq!(
        text,
        "ipa:0x0000000080000000 pa:0x0000000000001000 size:4096 usage:DTB\n\
         usage: PageTable size:4096\npa: 0x0000000000002000\n\n\
         ipa:0x0000000000002000 size:4096 usage:Guard\n\
         ipa:0x0000000040000000 pa:0x0000000000003000 size:4096 usage:Image\n"
    );
    assert_eq!(IpaAddr::new(0x1234).to_string(), "0x0000000000001234");
    assert_eq!(VmMemUsage::PageTable.to_string(), "PageTable");
    assert!(!VmMemUsage::Guard.need_physical_memory());
    assert!(VmMemUsage::Scratch.need_physical_memory());
    vm.release_all(&mut alloc);
}
