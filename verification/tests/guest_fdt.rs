use tvisor::guest_fdt::{
    GuestFdtConfig, GuestFdtError, GuestMemoryRegion, MAX_GUEST_MEMORY_REGIONS, build_guest_dtb,
};

/// A node of a parsed blob: its path and its properties in order.
struct ParsedNode {
    path: String,
    properties: Vec<(String, Vec<u8>)>,
}

fn be32_at(blob: &[u8], at: usize) -> u32 {
    u32::from_be_bytes(blob[at..at + 4].try_into().unwrap())
}

fn cstr_at(blob: &[u8], at: usize) -> String {
    let end = at + blob[at..].iter().position(|b| *b == 0).unwrap();
    String::from_utf8(blob[at..end].to_vec()).unwrap()
}

fn align4(n: usize) -> usize {
    (n + 3) & !3
}

/// Parses a version 17 blob by its header and structure block, checking the
/// layout on the way.
fn parse(blob: &[u8]) -> Vec<ParsedNode> {
    assert_eq!(be32_at(blob, 0), 0xd00d_feed);
    let totalsize = be32_at(blob, 4) as usize;
    let off_struct = be32_at(blob, 8) as usize;
    let off_strings = be32_at(blob, 12) as usize;
    let off_rsvmap = be32_at(blob, 16) as usize;
    assert_eq!(totalsize, blob.len());
    assert_eq!(be32_at(blob, 20), 17);
    assert_eq!(be32_at(blob, 24), 16);
    assert_eq!(be32_at(blob, 28), 0);
    let size_strings = be32_at(blob, 32) as usize;
    let size_struct = be32_at(blob, 36) as usize;
    assert_eq!(off_rsvmap, 40);
    assert!(blob[off_rsvmap..off_rsvmap + 16].iter().all(|b| *b == 0));
    assert_eq!(off_struct + size_struct, off_strings);
    assert_eq!(off_strings + size_strings, totalsize);

    let mut nodes: Vec<ParsedNode> = Vec::new();
    let mut stack: Vec<usize> = Vec::new();
    let mut at = off_struct;
    loop {
        let token = be32_at(blob, at);
        at += 4;
        match token {
            1 => {
                let name = cstr_at(blob, at);
                at = align4(at + name.len() + 1);
                let path = match stack.last() {
                    None => String::from("/"),
                    Some(&parent) if nodes[parent].path == "/" => format!("/{}", name),
                    Some(&parent) => format!("{}/{}", nodes[parent].path, name),
                };
                nodes.push(ParsedNode { path, properties: Vec::new() });
                stack.push(nodes.len() - 1);
            }
            2 => {
                stack.pop().unwrap();
            }
            3 => {
                let len = be32_at(blob, at) as usize;
                let name_offset = be32_at(blob, at + 4) as usize;
                at += 8;
                let value = blob[at..at + len].to_vec();
                at = align4(at + len);
                let name = cstr_at(blob, off_strings + name_offset);
                let node = *stack.last().unwrap();
                nodes[node].properties.push((name, value));
            }
            9 => break,
            other => panic!("unexpected token {other}"),
        }
    }
    assert!(stack.is_empty());
    assert_eq!(at, off_strings);
    nodes
}

fn node<'a>(nodes: &'a [ParsedNode], path: &str) -> Option<&'a ParsedNode> {
    nodes.iter().find(|n| n.path == path)
}

fn property<'a>(node: &'a ParsedNode, name: &str) -> Option<&'a [u8]> {
    node.properties
        .iter()
        .find(|(n, _)| n == name)
        .map(|(_, v)| v.as_slice())
}

fn as_str(value: &[u8]) -> &str {
    assert_eq!(value.last(), Some(&0));
    std::str::from_utf8(&value[..value.len() - 1]).unwrap()
}

fn as_str_list(value: &[u8]) -> Vec<&str> {
    assert_eq!(value.last(), Some(&0));
    value[..value.len() - 1]
        .split(|b| *b == 0)
        .map(|s| std::str::from_utf8(s).unwrap())
        .collect()
}

fn be_u32(value: &[u8]) -> u32 {
    u32::from_be_bytes(value.try_into().unwrap())
}

#[test]
fn builds_valid_guest_dtb_parseable_by_fdt() {
    let mut buf = [0_u8; 1024];
    let mem_regions = [
        GuestMemoryRegion { base: 0x4000_0000, size: 0x0000_2000 },
        GuestMemoryRegion { base: 0x4000_3000, size: 0x0000_1000 },
        GuestMemoryRegion { base: 0x4010_0000, size: 0x0000_1000 },
    ];
    let config = GuestFdtConfig { memory_regions: &mem_regions, bootargs: None };

    let size = build_guest_dtb(&mut buf, &config).expect("build guest dtb");
    assert!(size > 0 && size <= buf.len());

    let nodes = parse(&buf[..size]);
    let root = node(&nodes, "/").expect("root");
    assert_eq!(be_u32(property(root, "#address-cells").unwrap()), 2);
    assert_eq!(be_u32(property(root, "#size-cells").unwrap()), 2);
    assert_eq!(as_str(property(root, "model").unwrap()), "tvisor-virt-v1");
    assert_eq!(
        as_str_list(property(root, "compatible").unwrap()),
        ["tvisor,virt", "linux,dummy-virt"]
    );

    let chosen = node(&nodes, "/chosen").expect("/chosen node");
    assert!(property(chosen, "bootargs").is_none());

    node(&nodes, "/cpus").expect("/cpus node");
    let cpu0 = node(&nodes, "/cpus/cpu@0").expect("/cpus/cpu@0");
    assert_eq!(as_str(property(cpu0, "compatible").unwrap()), "arm,cortex-a72");
    assert!(property(cpu0, "enable-method").is_none());

    let mem = node(&nodes, "/memory@40000000").expect("/memory@40000000 node");
    assert_eq!(as_str(property(mem, "device_type").unwrap()), "memory");

    let reg = property(mem, "reg").expect("reg prop");
    assert_eq!(reg.len(), 48);
    assert_eq!(u64::from_be_bytes(reg[0..8].try_into().unwrap()), 0x4000_0000);
    assert_eq!(u64::from_be_bytes(reg[8..16].try_into().unwrap()), 0x0000_2000);
    assert_eq!(u64::from_be_bytes(reg[16..24].try_into().unwrap()), 0x4000_3000);
    assert_eq!(u64::from_be_bytes(reg[24..32].try_into().unwrap()), 0x0000_1000);
    assert_eq!(u64::from_be_bytes(reg[32..40].try_into().unwrap()), 0x4010_0000);
    assert_eq!(u64::from_be_bytes(reg[40..48].try_into().unwrap()), 0x0000_1000);
}

#[test]
fn includes_bootargs() {
    let mut buf = [0_u8; 1024];
    let mem_regions = [GuestMemoryRegion { base: 0x4000_0000, size: 0x0020_0000 }];
    let config = GuestFdtConfig { memory_regions: &mem_regions, bootargs: Some("console=hvc0") };

    let size = build_guest_dtb(&mut buf, &config).expect("build guest dtb");
    let nodes = parse(&buf[..size]);
    let chosen = node(&nodes, "/chosen").unwrap();
    assert_eq!(as_str(property(chosen, "bootargs").unwrap()), "console=hvc0");
}

#[test]
fn rejects_invalid_ram_config() {
    let mut buf = [0_u8; 1024];
    let invalid_regions = [GuestMemoryRegion { base: 0x4000_0001, size: 0x0020_0000 }];
    let config = GuestFdtConfig { memory_regions: &invalid_regions, bootargs: None };
    assert_eq!(build_guest_dtb(&mut buf, &config), Err(GuestFdtError::InvalidConfiguration));

    let empty_regions: [GuestMemoryRegion; 0] = [];
    let config_empty = GuestFdtConfig { memory_regions: &empty_regions, bootargs: None };
    assert_eq!(build_guest_dtb(&mut buf, &config_empty), Err(GuestFdtError::InvalidConfiguration));
}

#[test]
fn rejects_tiny_buffer() {
    let mut buf = [0_u8; 32];
    let mem_regions = [GuestMemoryRegion { base: 0x4000_0000, size: 0x0020_0000 }];
    let config = GuestFdtConfig { memory_regions: &mem_regions, bootargs: None };
    assert_eq!(build_guest_dtb(&mut buf, &config), Err(GuestFdtError::BufferTooSmall));
    assert!(buf.iter().all(|b| *b == 0));
}

#[test]
fn refuses_too_many_or_unaligned_regions_and_long_bootargs() {
    let mut buf = [0_u8; 1024];
    let region = GuestMemoryRegion { base: 0x4000_0000, size: 0x1000 };
    let many = [region; MAX_GUEST_MEMORY_REGIONS + 1];
    let config = GuestFdtConfig { memory_regions: &many, bootargs: None };
    assert_eq!(build_guest_dtb(&mut buf, &config), Err(GuestFdtError::InvalidConfiguration));

    for bad in [
        GuestMemoryRegion { base: 0x4000_0000, size: 0 },
        GuestMemoryRegion { base: 0x4000_0000, size: 0x1001 },
        GuestMemoryRegion { base: 0xffff_ffff_ffff_f000, size: 0x2000 },
    ] {
        let regions = [bad];
        let config = GuestFdtConfig { memory_regions: &regions, bootargs: None };
        assert_eq!(build_guest_dtb(&mut buf, &config), Err(GuestFdtError::InvalidConfiguration));
    }

    let long = "x".repeat(128);
    let regions = [region];
    let config = GuestFdtConfig { memory_regions: &regions, bootargs: Some(&long) };
    assert_eq!(build_guest_dtb(&mut buf, &config), Err(GuestFdtError::PropertyTooLarge));
    let just_fits = "x".repeat(127);
    let config = GuestFdtConfig { memory_regions: &regions, bootargs: Some(&just_fits) };
    assert!(build_guest_dtb(&mut buf, &config).is_ok());
}

#[test]
fn writes_exact_blob_and_leaves_the_rest_of_the_buffer() {
    let mut buf = [0xaa_u8; 512];
    let regions = [GuestMemoryRegion { base: 0x8000_0000, size: 0x10_0000 }];
    let config = GuestFdtConfig { memory_regions: &regions, bootargs: None };
    let size = build_guest_dtb(&mut buf, &config).unwrap();
    assert_eq!(be32_at(&buf, 4) as usize, size);
    assert!(buf[size..].iter().all(|b| *b == 0xaa));
    // Names are stored once each, in order of first use.
    let off_strings = be32_at(&buf, 12) as usize;
    assert_eq!(
        &buf[off_strings..size],
        b"#address-cells\0#size-cells\0model\0compatible\0device_type\0reg\0".as_slice()
    );
    let nodes = parse(&buf[..size]);
    assert!(node(&nodes, "/memory@80000000").is_some());
    let paths: Vec<&str> = nodes.iter().map(|n| n.path.as_str()).collect();
    assert_eq!(paths, ["/", "/chosen", "/cpus", "/cpus/cpu@0", "/memory@80000000"]);
}

#[test]
fn describes_errors() {
    assert_eq!(GuestFdtError::BufferTooSmall.to_string(), "guest DTB buffer capacity exceeded");
    assert_eq!(GuestFdtError::InvalidConfiguration.to_string(), "invalid guest DTB configuration");
    assert_eq!(
        GuestFdtError::NameTooLong.to_string(),
        "node or property name exceeds maximum limit"
    );
    assert_eq!(
        GuestFdtError::PropertyTooLarge.to_string(),
        "property value exceeds maximum limit"
    );
}
