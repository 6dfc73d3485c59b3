use tvisor::aarch64_reg::SpEl;
use tvisor::boot_mode::BootModeError;
use tvisor::el2_translation::TranslationError;
use tvisor::fdt::{ConsoleDiscoveryError, FdtArgError, ImageArgError};
use tvisor::gicv2::GicV2Error;
use tvisor::guest::GuestRunError;
use tvisor::linux_boot::{LinuxBootLayoutError, LinuxImageError};
use tvisor::memory_map::{MemoryMap, MemoryMapError};
use tvisor::mm::{AllocatorInitError, PrepareError};
use tvisor::mmio::{MmioDecodeError, MmioEmulationError, Pl011Error};
use tvisor::page_allocator::AllocatorError;
use tvisor::platform::{CapacityKind, PlatformError};
use tvisor::system_info::{PhysAddr, PhysRegion, RegionError};
use tvisor::vcpu::{VcpuExitReason, VcpuMmioError};

fn region(start: u64, size: u64) -> PhysRegion {
    PhysRegion::new(PhysAddr::new(start), size).unwrap()
}

#[test]
fn debug_shaped_errors_show_their_variant_names() {
    assert_eq!(TranslationError::TableExhausted.to_string(), "TableExhausted");
    assert_eq!(BootModeError::UnknownMode.to_string(), "UnknownMode");
    assert_eq!(AllocatorError::DoubleFree.to_string(), "DoubleFree");
    assert_eq!(
        AllocatorError::InvalidRegion(RegionError::EndBeforeStart).to_string(),
        "InvalidRegion(EndBeforeStart)"
    );
    assert_eq!(
        PrepareError::Translation(TranslationError::ConflictingEntry).to_string(),
        "Translation(ConflictingEntry)"
    );
    assert_eq!(
        PrepareError::Allocator(AllocatorError::InvalidRegion(RegionError::Empty)).to_string(),
        "Allocator(InvalidRegion(Empty))"
    );
    assert_eq!(PrepareError::Validation.to_string(), "Validation");
    assert_eq!(
        AllocatorInitError::Allocator(AllocatorError::Exhausted).to_string(),
        "Allocator(Exhausted)"
    );
    assert_eq!(AllocatorInitError::DtbAllocatable.to_string(), "DtbAllocatable");
    for error in [
        TranslationError::InvalidTableBase,
        TranslationError::AddressOverflow,
        TranslationError::Unexpected,
    ] {
        assert_eq!(error.to_string(), format!("{error:?}"));
    }
}

#[test]
fn linux_boot_errors_read_as_sentences() {
    assert_eq!(
        LinuxImageError::BadMagic.to_string(),
        "Linux Image header has an invalid magic value"
    );
    assert_eq!(
        LinuxBootLayoutError::Image(LinuxImageError::HeaderTooSmall).to_string(),
        "invalid Linux Image: Linux Image is shorter than its 64-byte header"
    );
    assert_eq!(
        LinuxBootLayoutError::InvalidRam.to_string(),
        "guest RAM base must be 2-MiB aligned and page sized"
    );
}

#[test]
fn mmio_errors_show_widths_in_decimal_and_offsets_in_hex() {
    assert_eq!(
        Pl011Error::UnsupportedWidth(2).to_string(),
        "PL011 does not support 2-byte accesses"
    );
    assert_eq!(
        Pl011Error::UnsupportedRead(0x48).to_string(),
        "unsupported PL011 read at offset 0x48"
    );
    assert_eq!(
        Pl011Error::UnsupportedWrite(0).to_string(),
        "unsupported PL011 write at offset 0x0"
    );
    assert_eq!(
        MmioEmulationError::UnmappedIpa(0x0900_1000).to_string(),
        "no virtual MMIO device at IPA 0x9001000"
    );
    assert_eq!(
        MmioEmulationError::Pl011(Pl011Error::UnsupportedWidth(8)).to_string(),
        "PL011 emulation failed: PL011 does not support 8-byte accesses"
    );
    assert_eq!(
        VcpuMmioError::Decode(MmioDecodeError::SignExtendingRead).to_string(),
        "cannot decode trapped MMIO: sign-extending MMIO read is unsupported"
    );
    assert_eq!(
        VcpuMmioError::Emulation(MmioEmulationError::GicDistributor).to_string(),
        "cannot emulate trapped MMIO: unsupported virtual GIC distributor access"
    );
}

#[test]
fn gic_and_guest_errors_carry_their_numbers() {
    assert_eq!(GicV2Error::InvalidIRQ(1020).to_string(), "InvalidIRQ(1020)");
    assert_eq!(GicV2Error::InvalidSPI(7).to_string(), "InvalidSPI(7)");
    assert_eq!(GicV2Error::Unexpected.to_string(), "Unexpected");
    assert_eq!(
        GuestRunError::GicV2(GicV2Error::InvalidSPI(31)).to_string(),
        "GicV2 setup failed: InvalidSPI(31)"
    );
    assert_eq!(
        GuestRunError::Translation(TranslationError::CorruptTable).to_string(),
        "guest translation setup failed: CorruptTable"
    );
    let reason = VcpuExitReason::Stage2DataAbort {
        ipa: 4096,
        is_write: true,
        dfsc: 7,
    };
    let exited = GuestRunError::Exited {
        vector: 8,
        esr_el2: 0x9200_0047,
        reason,
    };
    assert_eq!(
        exited.to_string(),
        format!(
            "Linux guest exited at EL2 vector 8 (ESR_EL2=0x0000000092000047): {reason:?}"
        )
    );
    let unknown = GuestRunError::Exited {
        vector: 12,
        esr_el2: 0,
        reason: VcpuExitReason::Unknown { ec: 0x3f, iss: 5 },
    };
    assert_eq!(
        unknown.to_string(),
        "Linux guest exited at EL2 vector 12 (ESR_EL2=0x0000000000000000): Unknown { ec: 63, iss: 5 }"
    );
}

#[test]
fn memory_map_and_platform_errors_describe_regions() {
    assert_eq!(
        MemoryMapError::Capacity { capacity: 16 }.to_string(),
        "normalized memory-map capacity is insufficient (capacity 16)"
    );
    assert_eq!(
        MemoryMapError::InvalidRegion(RegionError::AddressOverflow).to_string(),
        "invalid normalized region: physical region end overflows"
    );
    let conflict = MemoryMapError::RamMmioConflict {
        ram: region(0x1000, 0x1000),
        mmio: region(0x1800, 0x100),
    };
    assert_eq!(
        conflict.to_string(),
        "RAM [0x0000000000001000, 0x0000000000002000) overlaps MMIO [0x0000000000001800, 0x0000000000001900)"
    );
    assert_eq!(
        PlatformError::Capacity {
            kind: CapacityKind::Reserved,
            capacity: 8
        }
        .to_string(),
        "Reserved capacity 8 is insufficient"
    );
    assert_eq!(
        PlatformError::MemoryMap(MemoryMapError::Capacity { capacity: 4 }).to_string(),
        "invalid memory map: normalized memory-map capacity is insufficient (capacity 4)"
    );
    assert_eq!(
        PlatformError::UnboundedDynamicReservation.to_string(),
        "a dynamic reservation has no alloc-ranges; its possible placement is unknown"
    );
}

#[test]
fn memory_map_lists_each_inventory() {
    let mut map = MemoryMap::empty();
    map.insert_ram(region(0x1000, 0x3000)).unwrap();
    map.insert_reserved(region(0x2000, 0x1000)).unwrap();
    map.insert_mmio(region(0x9000_0000, 0x1000)).unwrap();
    map.finalize().unwrap();
    assert_eq!(
        map.to_string(),
        "Normalized memory map:\n\
         \x20 RAM        [0x0000000000001000, 0x0000000000004000)\n\
         \x20   RESERVED   [0x0000000000002000, 0x0000000000003000)\n\
         \x20   USABLE     [0x0000000000001000, 0x0000000000002000)\n\
         \x20   USABLE     [0x0000000000003000, 0x0000000000004000)\n\
         \x20 MMIO       [0x0000000090000000, 0x0000000090001000)\n"
    );
}

#[test]
fn argument_and_console_errors_read_as_sentences() {
    assert_eq!(
        ImageArgError::AddressOverflow.to_string(),
        "the image address or size overflows usize"
    );
    assert_eq!(FdtArgError::MissingAddress.to_string(), "the fdt= argument is missing");
    assert_eq!(
        ConsoleDiscoveryError::AddressNotMapped.to_string(),
        "the console address is not covered by parent ranges"
    );
    assert_eq!(SpEl::SpEL2.to_string(), "SP_EL2");
    assert_eq!(SpEl::Invalid.to_string(), "Invalid");
}
