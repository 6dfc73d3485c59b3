use tvisor::devicetree::DeviceTree;
use tvisor::fdt::{
    ConsoleDiscoveryError, GicV2DiscoveryError, discover_console, discover_gic_v2,
    resolve_stdout_path,
};

fn cell(value: u32) -> Vec<u8> {
    value.to_be_bytes().to_vec()
}

fn gic_registers() -> Vec<u8> {
    let mut registers = Vec::new();
    for (address, size) in [
        (0x1000_u32, 0x1000_u32),
        (0x2000, 0x1000),
        (0x4000, 0x1000),
        (0x6000, 0x2000),
    ] {
        registers.extend_from_slice(&address.to_be_bytes());
        registers.extend_from_slice(&size.to_be_bytes());
    }
    registers
}

fn soc_ranges() -> Vec<u8> {
    let mut ranges = Vec::new();
    ranges.extend_from_slice(&0_u32.to_be_bytes());
    ranges.extend_from_slice(&0xff84_0000_u64.to_be_bytes());
    ranges.extend_from_slice(&0x0010_0000_u32.to_be_bytes());
    ranges
}

#[test]
fn discovers_gicv2_regions_through_parent_ranges() {
    let mut tree = DeviceTree::new();
    assert!(tree.property(b"#address-cells", &cell(2)));
    assert!(tree.property(b"#size-cells", &cell(1)));
    assert!(tree.begin_node(b"soc"));
    assert!(tree.property(b"#address-cells", &cell(1)));
    assert!(tree.property(b"#size-cells", &cell(1)));
    assert!(tree.property(b"ranges", &soc_ranges()));
    assert!(tree.begin_node(b"interrupt-controller@1000"));
    assert!(tree.property(b"compatible", b"arm,gic-400\0"));
    assert!(tree.property(b"reg", &gic_registers()));
    assert!(tree.end_node());
    assert!(tree.end_node());

    let info = discover_gic_v2(&tree).unwrap();
    assert_eq!(info.distributor().start().value(), 0xff84_1000);
    assert_eq!(info.cpu_interface().start().value(), 0xff84_2000);
    assert_eq!(info.hypervisor_interface().start().value(), 0xff84_4000);
    assert_eq!(info.virtual_cpu_interface().start().value(), 0xff84_6000);
    assert_eq!(info.virtual_cpu_interface().size(), 0x2000);
}

#[test]
fn gic_discovery_reports_missing_disabled_and_unmapped_controllers() {
    let empty = DeviceTree::new();
    assert_eq!(
        discover_gic_v2(&empty),
        Err(GicV2DiscoveryError::MissingController)
    );

    let mut disabled = DeviceTree::new();
    disabled.begin_node(b"gic");
    disabled.property(b"compatible", b"arm,cortex-a15-gic\0");
    disabled.property(b"status", b"disabled\0");
    disabled.end_node();
    assert_eq!(
        discover_gic_v2(&disabled),
        Err(GicV2DiscoveryError::DisabledController)
    );

    let mut unmapped = DeviceTree::new();
    unmapped.begin_node(b"soc");
    unmapped.property(b"#address-cells", &cell(1));
    unmapped.property(b"#size-cells", &cell(1));
    unmapped.property(b"ranges", &soc_ranges());
    unmapped.begin_node(b"gic@900000");
    unmapped.property(b"compatible", b"brcm,other\0arm,gic-400\0");
    let mut registers = gic_registers();
    registers[0..4].copy_from_slice(&0x0090_0000_u32.to_be_bytes());
    unmapped.property(b"reg", &registers);
    unmapped.end_node();
    unmapped.end_node();
    assert_eq!(
        discover_gic_v2(&unmapped),
        Err(GicV2DiscoveryError::AddressNotMapped)
    );
}

#[test]
fn gic_discovery_rejects_too_few_interfaces_and_long_paths() {
    let mut short = DeviceTree::new();
    short.begin_node(b"gic");
    short.property(b"compatible", b"arm,gic-400\0");
    let registers = gic_registers();
    short.property(b"reg", &registers[0..24]);
    short.end_node();
    // The root's default cells are two address cells and one size cell, so
    // 24 bytes hold exactly two entries.
    assert_eq!(
        discover_gic_v2(&short),
        Err(GicV2DiscoveryError::MissingRegister)
    );

    let mut long = DeviceTree::new();
    long.begin_node(&[b'a'; 300]);
    long.end_node();
    assert_eq!(discover_gic_v2(&long), Err(GicV2DiscoveryError::PathTooLong));
}

fn console_tree(stdout_path: &[u8]) -> DeviceTree {
    let mut tree = DeviceTree::new();
    tree.property(b"#address-cells", &cell(2));
    tree.property(b"#size-cells", &cell(1));
    tree.begin_node(b"chosen");
    tree.property(b"stdout-path", stdout_path);
    tree.end_node();
    tree.begin_node(b"aliases");
    tree.property(b"serial1", b"/soc/serial@7e215040\0");
    tree.end_node();
    tree.begin_node(b"soc");
    tree.property(b"#address-cells", &cell(1));
    tree.property(b"#size-cells", &cell(1));
    let mut ranges = Vec::new();
    ranges.extend_from_slice(&0x7e00_0000_u32.to_be_bytes());
    ranges.extend_from_slice(&0xfe00_0000_u64.to_be_bytes());
    ranges.extend_from_slice(&0x0180_0000_u32.to_be_bytes());
    tree.property(b"ranges", &ranges);
    tree.begin_node(b"serial@7e215040");
    tree.property(b"compatible", b"brcm,bcm2835-aux-uart\0");
    let mut reg = cell(0x7e21_5040);
    reg.extend_from_slice(&cell(0x40));
    tree.property(b"reg", &reg);
    let mut interrupts = cell(0);
    interrupts.extend_from_slice(&cell(93));
    interrupts.extend_from_slice(&cell(4));
    tree.property(b"interrupts", &interrupts);
    tree.end_node();
    tree.end_node();
    tree
}

#[test]
fn discovers_console_through_alias_and_soc_ranges() {
    let tree = console_tree(b"serial1:115200n8\0");
    assert_eq!(resolve_stdout_path(&tree), Ok(&b"/soc/serial@7e215040"[..]));
    let console = discover_console(&tree).unwrap();
    assert_eq!(console.registers.start().value(), 0xfe21_5040);
    assert_eq!(console.registers.size(), 0x40);
    assert_eq!(console.irq, 125);
}

#[test]
fn discovers_console_by_absolute_path_and_name_without_unit_address() {
    let tree = console_tree(b"/soc/serial\0");
    let console = discover_console(&tree).unwrap();
    assert_eq!(console.registers.start().value(), 0xfe21_5040);
}

#[test]
fn console_discovery_reports_each_missing_piece() {
    assert_eq!(
        discover_console(&DeviceTree::new()),
        Err(ConsoleDiscoveryError::MissingChosen)
    );
    assert_eq!(
        discover_console(&console_tree(b":115200\0")),
        Err(ConsoleDiscoveryError::InvalidStdoutPath)
    );
    assert_eq!(
        discover_console(&console_tree(b"serial1")),
        Err(ConsoleDiscoveryError::InvalidStdoutPath)
    );
    assert_eq!(
        discover_console(&console_tree(b"serial0\0")),
        Err(ConsoleDiscoveryError::MissingAlias)
    );
    assert_eq!(
        discover_console(&console_tree(b"/soc/uart\0")),
        Err(ConsoleDiscoveryError::MissingConsoleNode)
    );
    let mut outside = console_tree(b"/soc/serial@7e215040\0");
    outside.begin_node(b"stray");
    outside.end_node();
    assert_eq!(
        discover_console(&outside).unwrap().irq,
        125
    );
}

#[test]
fn console_does_not_depend_on_how_stdout_path_names_it() {
    let plain = discover_console(&console_tree(b"/soc/serial@7e215040\0"));
    assert!(plain.is_ok());
    for text in [
        &b"/soc/serial@7e215040:115200n8\0"[..],
        &b"serial1\0"[..],
        &b"serial1:115200n8\0"[..],
    ] {
        assert_eq!(discover_console(&console_tree(text)), plain);
    }
}
