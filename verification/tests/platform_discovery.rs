use tvisor::devicetree::{Fdt, FdtParseError, MemoryReservation};
use tvisor::fdt::discover_console;
use tvisor::memory_map::MemoryMap;
use tvisor::platform::{
    CapacityKind, PlatformError, discover_bcm2711_firmware_carveout, discover_memory_map,
    discover_mmio, discover_ram, discover_reservations,
};
use tvisor::system_info::{PhysAddr, PhysRegion};

/// Writes flattened device trees for the tests, token by token.
struct DtbWriter {
    structure: Vec<u8>,
    strings: Vec<u8>,
}

impl DtbWriter {
    fn new() -> Self {
        let mut writer = DtbWriter {
            structure: Vec::new(),
            strings: Vec::new(),
        };
        writer.begin("");
        writer
    }

    fn token(&mut self, token: u32) {
        self.structure.extend_from_slice(&token.to_be_bytes());
    }

    fn pad(&mut self) {
        while self.structure.len() % 4 != 0 {
            self.structure.push(0);
        }
    }

    fn begin(&mut self, name: &str) {
        self.token(1);
        self.structure.extend_from_slice(name.as_bytes());
        self.structure.push(0);
        self.pad();
    }

    fn end(&mut self) {
        self.token(2);
    }

    fn prop(&mut self, name: &str, value: &[u8]) {
        let offset = self.strings.len() as u32;
        self.strings.extend_from_slice(name.as_bytes());
        self.strings.push(0);
        self.token(3);
        self.token(value.len() as u32);
        self.token(offset);
        self.structure.extend_from_slice(value);
        self.pad();
    }

    fn cells(&mut self, name: &str, cells: &[u32]) {
        let mut value = Vec::new();
        for cell in cells {
            value.extend_from_slice(&cell.to_be_bytes());
        }
        self.prop(name, &value);
    }

    fn finish(mut self, reservations: &[(u64, u64)]) -> Vec<u8> {
        self.end();
        self.token(9);
        let off_mem = 40_u32;
        let reserve_bytes = 16 * (reservations.len() as u32 + 1);
        let off_struct = off_mem + reserve_bytes;
        let off_strings = off_struct + self.structure.len() as u32;
        let total = off_strings + self.strings.len() as u32;
        let mut blob = Vec::new();
        for field in [
            0xd00d_feed,
            total,
            off_struct,
            off_strings,
            off_mem,
            17,
            16,
            0,
            self.strings.len() as u32,
            self.structure.len() as u32,
        ] {
            blob.extend_from_slice(&field.to_be_bytes());
        }
        for (address, size) in reservations.iter().chain([(0, 0)].iter()) {
            blob.extend_from_slice(&address.to_be_bytes());
            blob.extend_from_slice(&size.to_be_bytes());
        }
        blob.extend_from_slice(&self.structure);
        blob.extend_from_slice(&self.strings);
        blob
    }
}

fn region(start: u64, size: u64) -> PhysRegion {
    PhysRegion::new(PhysAddr::new(start), size).unwrap()
}

fn pi4_like(with_unbounded_pool: bool) -> Vec<u8> {
    let mut w = DtbWriter::new();
    w.prop("compatible", b"raspberrypi,4-model-b\0brcm,bcm2711\0");
    w.cells("#address-cells", &[2]);
    w.cells("#size-cells", &[1]);
    w.begin("memory@0");
    w.prop("device_type", b"memory\0");
    w.cells("reg", &[0, 0, 0x3b40_0000, 1, 0, 0x8000_0000]);
    w.end();
    w.begin("reserved-memory");
    w.cells("#address-cells", &[2]);
    w.cells("#size-cells", &[1]);
    w.begin("linux,cma");
    w.prop("compatible", b"shared-dma-pool\0");
    w.cells("size", &[0x0400_0000]);
    w.prop("reusable", b"");
    if !with_unbounded_pool {
        w.cells("alloc-ranges", &[0, 0x2000_0000, 0x0800_0000]);
    }
    w.end();
    w.end();
    w.begin("soc");
    w.cells("#address-cells", &[1]);
    w.cells("#size-cells", &[1]);
    w.cells(
        "ranges",
        &[0x7e00_0000, 0, 0xfe00_0000, 0x0180_0000, 0x7c00_0000, 0, 0xfc00_0000, 0x0200_0000],
    );
    w.end();
    w.finish(&[(0x1000, 0x100)])
}

#[test]
fn reads_header_reservations_and_tree() {
    let blob = pi4_like(false);
    let fdt = Fdt::new(&blob).unwrap();
    assert_eq!(fdt.size, blob.len());
    assert_eq!(
        fdt.reservations,
        vec![MemoryReservation {
            address: 0x1000,
            size: 0x100
        }]
    );
    assert_eq!(fdt.tree.len(), 5);
    assert_eq!(fdt.tree.find_node(b"/memory"), Some(1));
    assert_eq!(fdt.tree.find_node(b"/reserved-memory/linux,cma"), Some(3));
}

#[test]
fn refuses_malformed_blobs() {
    assert_eq!(Fdt::new(&[0; 16]).err(), Some(FdtParseError::InvalidLength));
    let mut blob = pi4_like(false);
    blob[0] = 0;
    assert_eq!(Fdt::new(&blob).err(), Some(FdtParseError::InvalidMagic));
    let mut blob = pi4_like(false);
    blob[23] = 16;
    assert_eq!(
        Fdt::new(&blob).err(),
        Some(FdtParseError::UnsupportedVersion(16))
    );
    let mut blob = pi4_like(false);
    blob.push(0);
    assert_eq!(Fdt::new(&blob).err(), Some(FdtParseError::InvalidLength));
    let mut w = DtbWriter::new();
    w.begin("bad name");
    w.end();
    assert_eq!(
        Fdt::new(&w.finish(&[])).err(),
        Some(FdtParseError::InvalidNodeName)
    );
}

#[test]
fn discovers_ram_and_rejects_unbounded_dynamic_reservation_in_a_blob() {
    let blob = pi4_like(true);
    let fdt = Fdt::new(&blob).unwrap();
    let image = region(0x0400_0000, 0x20_0000);
    let mut map = MemoryMap::empty();

    discover_ram(&fdt.tree, &mut map).unwrap();
    assert_eq!(map.ram().len(), 2);
    assert_eq!(map.ram().get(0).unwrap(), &region(0, 0x3b40_0000));
    assert_eq!(map.ram().get(1).unwrap(), &region(0x1_0000_0000, 0x8000_0000));
    assert!(map.mmio().is_empty());

    let error =
        discover_reservations(&fdt, PhysAddr::new(0x0300_0123), image, &mut map).unwrap_err();
    assert_eq!(error, PlatformError::UnboundedDynamicReservation);
}

#[test]
fn reserves_header_entries_pools_dtb_and_image() {
    let blob = pi4_like(false);
    let fdt = Fdt::new(&blob).unwrap();
    let image = region(0x0400_0000, 0x20_0000);
    let mut map = MemoryMap::empty();
    discover_reservations(&fdt, PhysAddr::new(0x0300_0123), image, &mut map).unwrap();
    let reserved: Vec<PhysRegion> = map.reserved().iter().flatten().copied().collect();
    assert_eq!(
        reserved,
        vec![
            region(0x1000, 0x100),
            region(0x0300_0000, 0x1000),
            region(0x0400_0000, 0x20_0000),
            region(0x2000_0000, 0x0800_0000),
        ]
    );
}

#[test]
fn bcm2711_firmware_carveout_fills_the_first_gigabyte() {
    let blob = pi4_like(false);
    let fdt = Fdt::new(&blob).unwrap();
    let mut map = MemoryMap::empty();
    assert_eq!(
        discover_bcm2711_firmware_carveout(&fdt.tree, &mut map),
        Err(PlatformError::MissingMemory)
    );
    discover_ram(&fdt.tree, &mut map).unwrap();
    discover_bcm2711_firmware_carveout(&fdt.tree, &mut map).unwrap();
    assert_eq!(map.ram().get(0).unwrap(), &region(0, 0x4000_0000));
    assert_eq!(map.reserved().get(0).unwrap(), &region(0x3b40_0000, 0x04c0_0000));
}

#[test]
fn soc_ranges_become_mmio_windows() {
    let blob = pi4_like(false);
    let fdt = Fdt::new(&blob).unwrap();
    let mut map = MemoryMap::empty();
    discover_mmio(&fdt.tree, &mut map).unwrap();
    let windows: Vec<PhysRegion> = map.mmio().iter().flatten().copied().collect();
    // The two windows adjoin, so the normalized list holds them as one.
    assert_eq!(windows, vec![region(0xfc00_0000, 0x0380_0000)]);
}

#[test]
fn builds_the_whole_memory_map() {
    let blob = pi4_like(false);
    let fdt = Fdt::new(&blob).unwrap();
    let image = region(0x0400_0000, 0x20_0000);
    let mut map = MemoryMap::empty();
    discover_memory_map(&fdt, PhysAddr::new(0x0300_0000), image, &mut map).unwrap();
    let usable: Vec<PhysRegion> = map.usable_ram().iter().flatten().copied().collect();
    assert_eq!(
        usable,
        vec![
            region(0, 0x1000),
            region(0x1100, 0x0300_0000 - 0x1100),
            region(0x0300_1000, 0x0400_0000 - 0x0300_1000),
            region(0x0420_0000, 0x2000_0000 - 0x0420_0000),
            region(0x2800_0000, 0x3b40_0000 - 0x2800_0000),
            region(0x1_0000_0000, 0x8000_0000),
        ]
    );
}

#[test]
fn memory_map_needs_memory_and_room() {
    let mut w = DtbWriter::new();
    w.begin("chosen");
    w.end();
    let blob = w.finish(&[]);
    let fdt = Fdt::new(&blob).unwrap();
    let mut map = MemoryMap::empty();
    assert_eq!(
        discover_memory_map(&fdt, PhysAddr::new(0x100_0000), region(0x200_0000, 0x1000), &mut map),
        Err(PlatformError::MissingMemory)
    );

    let mut w = DtbWriter::new();
    for k in 0..9_u32 {
        w.begin(&format!("memory@{k}"));
        w.prop("device_type", b"memory\0");
        w.cells("reg", &[0, k * 0x20_0000, 0x1000]);
        w.end();
    }
    let blob = w.finish(&[]);
    let fdt = Fdt::new(&blob).unwrap();
    assert_eq!(
        discover_ram(&fdt.tree, &mut map),
        Err(PlatformError::Capacity {
            kind: CapacityKind::Ram,
            capacity: 8
        })
    );
}

#[test]
fn discovers_console_from_a_blob() {
    let mut w = DtbWriter::new();
    w.cells("#address-cells", &[2]);
    w.cells("#size-cells", &[1]);
    w.begin("chosen");
    w.prop("stdout-path", b"serial1:115200n8\0");
    w.end();
    w.begin("aliases");
    w.prop("serial1", b"/soc/serial@7e215040\0");
    w.end();
    w.begin("soc");
    w.cells("#address-cells", &[1]);
    w.cells("#size-cells", &[1]);
    w.cells("ranges", &[0x7e00_0000, 0, 0xfe00_0000, 0x0180_0000]);
    w.begin("serial@7e215040");
    w.prop("compatible", b"brcm,bcm2835-aux-uart\0");
    w.cells("reg", &[0x7e21_5040, 0x40]);
    w.cells("interrupts", &[0, 93, 4]);
    w.end();
    w.end();
    let blob = w.finish(&[]);
    let fdt = Fdt::new(&blob).unwrap();
    let console = discover_console(&fdt.tree).unwrap();
    assert_eq!(console.registers.start().value(), 0xfe21_5040);
    assert_eq!(console.irq, 125);
}
