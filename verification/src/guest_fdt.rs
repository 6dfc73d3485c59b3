//! The flattened device tree (FDT version 17) that describes the guest
//! platform to the guest kernel: the root with two address and size cells,
//! `/chosen` with the optional `bootargs`, `/cpus/cpu@0` and one memory node
//! that lists the guest RAM regions.
use vstd::prelude::*;
use vstd::string::{is_ascii, StringExecFns, StringSliceAdditionalSpecFns};

verus! {

// ----- Encodings -----

/// `x` as four big-endian bytes.
pub open spec fn be32(x: int) -> Seq<u8> {
    seq![
        ((x / 0x100_0000) % 0x100) as u8,
        ((x / 0x1_0000) % 0x100) as u8,
        ((x / 0x100) % 0x100) as u8,
        (x % 0x100) as u8,
    ]
}

/// `x` as eight big-endian bytes.
pub open spec fn be64(x: int) -> Seq<u8> {
    be32(x / 0x1_0000_0000) + be32(x % 0x1_0000_0000)
}

/// `s` followed by a NUL byte.
pub open spec fn cstr(s: Seq<u8>) -> Seq<u8> {
    s + seq![0u8]
}

/// The zero bytes that bring a length of `n` to a multiple of four.
pub open spec fn padding(n: nat) -> nat {
    ((4 - n % 4) % 4) as nat
}

/// `s` followed by zero bytes up to a multiple of four.
pub open spec fn pad4(s: Seq<u8>) -> Seq<u8> {
    s + Seq::new(padding(s.len()), |i: int| 0u8)
}

/// The lowercase ASCII hexadecimal digit of `d`.
pub open spec fn hex_ascii(d: int) -> u8 {
    if d < 10 {
        (0x30 + d) as u8
    } else {
        (0x57 + d) as u8
    }
}

/// The lowercase hexadecimal digits of `v` in ASCII, without leading zeros.
pub open spec fn hex_ascii_digits(v: nat) -> Seq<u8>
    decreases v,
{
    if v < 16 {
        seq![hex_ascii(v as int)]
    } else {
        hex_ascii_digits(v / 16) + seq![hex_ascii((v % 16) as int)]
    }
}

// ----- Structure block tokens -----

/// A node begins: its token and its NUL-terminated, padded name.
pub open spec fn begin_node(name: Seq<u8>) -> Seq<u8> {
    be32(1) + pad4(cstr(name))
}

/// A node ends.
pub open spec fn end_node() -> Seq<u8> {
    be32(2)
}

/// A property: its token, the length of its value, the offset of its name in
/// the strings block, and its padded value.
pub open spec fn prop(name_offset: int, value: Seq<u8>) -> Seq<u8> {
    be32(3) + be32(value.len() as int) + be32(name_offset) + pad4(value)
}

/// The end of the structure block.
pub open spec fn fdt_end() -> Seq<u8> {
    be32(9)
}

fn push_be32(v: &mut Vec<u8>, x: u32)
    ensures
        final(v)@ == old(v)@ + be32(x as int),
{
    v.push(((x / 0x100_0000) % 0x100) as u8);
    v.push(((x / 0x1_0000) % 0x100) as u8);
    v.push(((x / 0x100) % 0x100) as u8);
    v.push((x % 0x100) as u8);
    proof {
        assert(final(v)@ =~= old(v)@ + be32(x as int));
    }
}

fn push_be64(v: &mut Vec<u8>, x: u64)
    ensures
        final(v)@ == old(v)@ + be64(x as int),
{
    push_be32(v, (x / 0x1_0000_0000) as u32);
    push_be32(v, (x % 0x1_0000_0000) as u32);
    proof {
        assert(final(v)@ =~= old(v)@ + be64(x as int));
    }
}

fn push_bytes(v: &mut Vec<u8>, s: &[u8])
    ensures
        final(v)@ == old(v)@ + s@,
{
    let mut i: usize = 0;
    while i < s.len()
        invariant
            i <= s@.len(),
            v@ == old(v)@ + s@.subrange(0, i as int),
        decreases s@.len() - i,
    {
        v.push(s[i]);
        proof {
            assert(v@ =~= old(v)@ + s@.subrange(0, i + 1));
        }
        i += 1;
    }
    proof {
        assert(s@.subrange(0, s@.len() as int) =~= s@);
    }
}

fn push_zeros(v: &mut Vec<u8>, n: usize)
    ensures
        final(v)@ == old(v)@ + Seq::new(n as nat, |i: int| 0u8),
{
    let mut i: usize = 0;
    while i < n
        invariant
            i <= n,
            v@ == old(v)@ + Seq::new(i as nat, |k: int| 0u8),
        decreases n - i,
    {
        v.push(0);
        proof {
            assert(v@ =~= old(v)@ + Seq::new((i + 1) as nat, |k: int| 0u8));
        }
        i += 1;
    }
}

/// Appends `s` padded with zeros to a multiple of four bytes.
fn push_padded(v: &mut Vec<u8>, s: &[u8])
    ensures
        final(v)@ == old(v)@ + pad4(s@),
{
    push_bytes(v, s);
    push_zeros(v, (4 - s.len() % 4) % 4);
    proof {
        assert(final(v)@ =~= old(v)@ + pad4(s@));
    }
}

fn push_begin_node(v: &mut Vec<u8>, name: &[u8])
    ensures
        final(v)@ == old(v)@ + begin_node(name@),
        final(v)@.len() <= old(v)@.len() + 8 + name@.len(),
{
    proof {
        lemma_begin_node_len(name@);
    }
    push_be32(v, 1);
    let mut named: Vec<u8> = Vec::new();
    push_bytes(&mut named, name);
    named.push(0);
    proof {
        assert(named@ =~= cstr(name@));
    }
    push_padded(v, named.as_slice());
    proof {
        assert(final(v)@ =~= old(v)@ + begin_node(name@));
    }
}

fn push_end_node(v: &mut Vec<u8>)
    ensures
        final(v)@ == old(v)@ + end_node(),
{
    push_be32(v, 2);
}

fn push_prop(v: &mut Vec<u8>, name_offset: u32, value: &[u8])
    requires
        value@.len() <= u32::MAX,
    ensures
        final(v)@ == old(v)@ + prop(name_offset as int, value@),
        final(v)@.len() <= old(v)@.len() + 15 + value@.len(),
{
    proof {
        lemma_prop_len(name_offset as int, value@);
    }
    push_be32(v, 3);
    push_be32(v, value.len() as u32);
    push_be32(v, name_offset);
    push_padded(v, value);
    proof {
        assert(final(v)@ =~= old(v)@ + prop(name_offset as int, value@));
    }
}

/// The bytes of a property.
fn prop_bytes(name_offset: u32, value: &[u8]) -> (r: Vec<u8>)
    requires
        value@.len() <= u32::MAX,
    ensures
        r@ == prop(name_offset as int, value@),
        r@.len() <= 15 + value@.len(),
{
    let mut r: Vec<u8> = Vec::new();
    push_prop(&mut r, name_offset, value);
    proof {
        assert(r@ =~= prop(name_offset as int, value@));
    }
    r
}

/// The bytes that begin a node.
fn begin_node_bytes(name: &[u8]) -> (r: Vec<u8>)
    ensures
        r@ == begin_node(name@),
        r@.len() <= 8 + name@.len(),
{
    let mut r: Vec<u8> = Vec::new();
    push_begin_node(&mut r, name);
    proof {
        assert(r@ =~= begin_node(name@));
    }
    r
}

// ----- Configuration -----

/// Why a guest DTB was not built.
#[derive(Debug, Clone, Copy, PartialEq, Eq, Structural)]
pub enum GuestFdtError {
    BufferTooSmall,
    InvalidConfiguration,
    NameTooLong,
    PropertyTooLarge,
}

impl GuestFdtError {
    /// A one-line description of the error.
    pub fn to_string(&self) -> (r: String)
        ensures
            r@ == (match self {
                GuestFdtError::BufferTooSmall => "guest DTB buffer capacity exceeded"@,
                GuestFdtError::InvalidConfiguration => "invalid guest DTB configuration"@,
                GuestFdtError::NameTooLong => "node or property name exceeds maximum limit"@,
                GuestFdtError::PropertyTooLarge => "property value exceeds maximum limit"@,
            }),
    {
        let message = match self {
            GuestFdtError::BufferTooSmall => "guest DTB buffer capacity exceeded",
            GuestFdtError::InvalidConfiguration => "invalid guest DTB configuration",
            GuestFdtError::NameTooLong => "node or property name exceeds maximum limit",
            GuestFdtError::PropertyTooLarge => "property value exceeds maximum limit",
        };
        String::from_str(message)
    }
}

/// A region of guest RAM, as the guest sees it.
#[derive(Debug, Clone, Copy, PartialEq, Eq, Structural)]
pub struct GuestMemoryRegion {
    pub base: u64,
    pub size: u64,
}

pub const MAX_GUEST_MEMORY_REGIONS: usize = 4;

/// What the guest DTB describes: the guest RAM regions, the first of which
/// names the memory node, and the kernel command line.
#[derive(Debug, Clone, Copy, PartialEq, Eq)]
pub struct GuestFdtConfig<'a> {
    pub memory_regions: &'a [GuestMemoryRegion],
    pub bootargs: Option<&'a str>,
}

/// A RAM region is non-empty, page-aligned at both ends and inside the
/// 64-bit address space.
pub open spec fn region_valid(r: GuestMemoryRegion) -> bool {
    &&& r.size != 0
    &&& r.size % 4096 == 0
    &&& r.base % 4096 == 0
    &&& r.base + r.size <= u64::MAX
}

/// The bytes of the command line, where there is one.
pub open spec fn bootargs_bytes(bootargs: Option<&str>) -> Option<Seq<u8>> {
    match bootargs {
        Some(s) => Some(s.spec_bytes()),
        None => None,
    }
}

/// The error that a configuration is refused with, if any: between one and
/// four valid RAM regions, and a command line under 128 bytes.
pub open spec fn config_error(regions: Seq<GuestMemoryRegion>, bootargs: Option<Seq<u8>>) -> Option<
    GuestFdtError,
> {
    if regions.len() == 0 || regions.len() > MAX_GUEST_MEMORY_REGIONS || exists|i: int|
        0 <= i < regions.len() && !region_valid(#[trigger] regions[i]) {
        Some(GuestFdtError::InvalidConfiguration)
    } else if bootargs matches Some(b) && b.len() >= 128 {
        Some(GuestFdtError::PropertyTooLarge)
    } else {
        None
    }
}

fn validate_config(config: &GuestFdtConfig<'_>) -> (r: Result<(), GuestFdtError>)
    ensures
        r == (match config_error(config.memory_regions@, bootargs_bytes(config.bootargs)) {
            Some(e) => Err(e),
            None => Ok(()),
        }),
{
    let regions = config.memory_regions;
    if regions.len() == 0 || regions.len() > MAX_GUEST_MEMORY_REGIONS {
        return Err(GuestFdtError::InvalidConfiguration);
    }
    let mut i: usize = 0;
    while i < regions.len()
        invariant
            i <= regions@.len(),
            regions@ == config.memory_regions@,
            0 < regions@.len() <= MAX_GUEST_MEMORY_REGIONS,
            forall|k: int| 0 <= k < i ==> region_valid(#[trigger] regions@[k]),
        decreases regions@.len() - i,
    {
        let region = regions[i];
        proof {
            crate::page::lemma_low_bits();
        }
        if region.size == 0 || region.size & 0xfff != 0 || region.base & 0xfff != 0
            || region.base.checked_add(region.size).is_none() {
            proof {
                assert(!region_valid(regions@[i as int]));
                assert(exists|k: int| 0 <= k < regions@.len() && !region_valid(#[trigger] regions@[k]));
            }
            return Err(GuestFdtError::InvalidConfiguration);
        }
        i += 1;
    }
    match config.bootargs {
        Some(bootargs) => {
            if bootargs.as_bytes().len() >= 128 {
                return Err(GuestFdtError::PropertyTooLarge);
            }
        },
        None => {},
    }
    assert(!exists|k: int| 0 <= k < regions@.len() && !region_valid(#[trigger] regions@[k]));
    Ok(())
}

// ----- Property values -----

/// The NUL-terminated strings of `values`, one after the other.
pub open spec fn cstr_list(values: Seq<&str>) -> Seq<u8>
    decreases values.len(),
{
    if values.len() == 0 {
        seq![]
    } else {
        cstr_list(values.drop_last()) + cstr(values.last().spec_bytes())
    }
}

/// A string property value: the string and a NUL.
fn string_value(value: &str) -> (r: Vec<u8>)
    ensures
        r@ == cstr(value.spec_bytes()),
{
    let mut encoded: Vec<u8> = Vec::new();
    push_bytes(&mut encoded, value.as_bytes());
    encoded.push(0);
    proof {
        assert(encoded@ =~= cstr(value.spec_bytes()));
    }
    encoded
}

/// A string-list property value: each string followed by a NUL.
fn string_list_value(values: &[&str]) -> (r: Vec<u8>)
    ensures
        r@ == cstr_list(values@),
{
    let mut encoded: Vec<u8> = Vec::new();
    let mut i: usize = 0;
    while i < values.len()
        invariant
            i <= values@.len(),
            encoded@ == cstr_list(values@.subrange(0, i as int)),
        decreases values@.len() - i,
    {
        push_bytes(&mut encoded, values[i].as_bytes());
        encoded.push(0);
        proof {
            let next = values@.subrange(0, i + 1);
            assert(next.drop_last() =~= values@.subrange(0, i as int));
            assert(encoded@ =~= cstr_list(next));
        }
        i += 1;
    }
    proof {
        assert(values@.subrange(0, values@.len() as int) =~= values@);
    }
    encoded
}

/// `x` as a four-byte big-endian property value.
fn u32_value(x: u32) -> (r: Vec<u8>)
    ensures
        r@ == be32(x as int),
{
    let mut encoded: Vec<u8> = Vec::new();
    push_be32(&mut encoded, x);
    proof {
        assert(encoded@ =~= be32(x as int));
    }
    encoded
}

/// The `reg` value of the memory node: base and size of each region, as
/// big-endian 64-bit cells.
pub open spec fn reg_cells(regions: Seq<GuestMemoryRegion>) -> Seq<u8>
    decreases regions.len(),
{
    if regions.len() == 0 {
        seq![]
    } else {
        reg_cells(regions.drop_last()) + be64(regions.last().base as int) + be64(
            regions.last().size as int,
        )
    }
}

fn reg_value(regions: &[GuestMemoryRegion]) -> (r: Vec<u8>)
    ensures
        r@ == reg_cells(regions@),
{
    let mut encoded: Vec<u8> = Vec::new();
    let mut i: usize = 0;
    while i < regions.len()
        invariant
            i <= regions@.len(),
            encoded@ == reg_cells(regions@.subrange(0, i as int)),
        decreases regions@.len() - i,
    {
        push_be64(&mut encoded, regions[i].base);
        push_be64(&mut encoded, regions[i].size);
        proof {
            let next = regions@.subrange(0, i + 1);
            assert(next.drop_last() =~= regions@.subrange(0, i as int));
        }
        i += 1;
    }
    proof {
        assert(regions@.subrange(0, regions@.len() as int) =~= regions@);
    }
    encoded
}

fn push_hex_ascii(v: &mut Vec<u8>, x: u64)
    ensures
        final(v)@ == old(v)@ + hex_ascii_digits(x as nat),
    decreases x,
{
    if x >= 16 {
        push_hex_ascii(v, x / 16);
    }
    let d = x % 16;
    let digit: u8 = if d < 10 {
        (0x30 + d) as u8
    } else {
        (0x57 + d) as u8
    };
    v.push(digit);
    proof {
        assert(final(v)@ =~= old(v)@ + hex_ascii_digits(x as nat));
    }
}

/// The name of the memory node: `memory@` and the first region's base in hexadecimal.
fn memory_node_name(base: u64) -> (r: Vec<u8>)
    ensures
        r@ == "memory@".spec_bytes() + hex_ascii_digits(base as nat),
{
    let mut name: Vec<u8> = Vec::new();
    push_bytes(&mut name, "memory@".as_bytes());
    push_hex_ascii(&mut name, base);
    proof {
        assert(name@ =~= "memory@".spec_bytes() + hex_ascii_digits(base as nat));
    }
    name
}

// ----- The strings block -----

/// The names of the properties of the guest tree, each once, in the order of
/// their first use.
#[verifier::opaque]
pub open spec fn prop_names(has_bootargs: bool) -> Seq<Seq<u8>> {
    seq![
        "#address-cells".spec_bytes(),
        "#size-cells".spec_bytes(),
        "model".spec_bytes(),
        "compatible".spec_bytes(),
    ] + (if has_bootargs {
        seq!["bootargs".spec_bytes()]
    } else {
        Seq::empty()
    }) + seq!["device_type".spec_bytes(), "reg".spec_bytes()]
}

/// There are six property names, or seven with `bootargs`.
proof fn lemma_prop_names_len(has_bootargs: bool)
    ensures
        prop_names(has_bootargs).len() == device_type_index(has_bootargs) + 2,
{
    reveal(prop_names);
}

/// The strings block: each name followed by a NUL, in order.
#[verifier::opaque]
pub open spec fn strings_block(names: Seq<Seq<u8>>) -> Seq<u8>
    decreases names.len(),
{
    if names.len() == 0 {
        seq![]
    } else {
        strings_block(names.drop_last()) + cstr(names.last())
    }
}

/// The offset of name `k` in the strings block of `names`.
#[verifier::opaque]
pub open spec fn name_offset(names: Seq<Seq<u8>>, k: int) -> int {
    strings_block(names.take(k)).len() as int
}

/// The bytes of each name.
pub open spec fn name_bytes(names: Seq<&str>) -> Seq<Seq<u8>> {
    names.map_values(|n: &str| n.spec_bytes())
}

/// The strings block of `names`, and the offset of each name in it.
fn build_strings(names: &[&str]) -> (r: (Vec<u8>, Vec<u32>))
    requires
        names@.len() <= 8,
        forall|k: int| 0 <= k < names@.len() ==> (#[trigger] names@[k]).spec_bytes().len() < 64,
    ensures
        r.0@ == strings_block(name_bytes(names@)),
        r.0@.len() <= 65 * names@.len(),
        r.1@.len() == names@.len(),
        forall|k: int| 0 <= k < names@.len() ==> r.1@[k] == name_offset(name_bytes(names@), k),
{
    let ghost ns = name_bytes(names@);
    proof {
        reveal(strings_block);
        reveal(name_offset);
    }
    let mut strings: Vec<u8> = Vec::new();
    let mut offsets: Vec<u32> = Vec::new();
    let mut i: usize = 0;
    while i < names.len()
        invariant
            i <= names@.len() <= 8,
            ns == name_bytes(names@),
            forall|k: int| 0 <= k < names@.len() ==> (#[trigger] names@[k]).spec_bytes().len() < 64,
            strings@ == strings_block(ns.take(i as int)),
            strings@.len() <= 65 * i,
            offsets@.len() == i,
            forall|k: int| 0 <= k < i ==> offsets@[k] == name_offset(ns, k),
        decreases names@.len() - i,
    {
        proof {
            reveal(strings_block);
            reveal(name_offset);
        }
        offsets.push(strings.len() as u32);
        push_bytes(&mut strings, names[i].as_bytes());
        strings.push(0);
        proof {
            let next = ns.take(i + 1);
            assert(next.drop_last() =~= ns.take(i as int));
            assert(next.last() == names@[i as int].spec_bytes());
            assert(strings@ =~= strings_block(next));
        }
        i += 1;
    }
    proof {
        assert(ns.take(names@.len() as int) =~= ns);
    }
    (strings, offsets)
}

// ----- The guest tree -----

/// The UTF-8 bytes of a string whose characters are ASCII are as many as its characters.
proof fn lemma_ascii_len(s: &str)
    requires
        is_ascii(s),
    ensures
        s.spec_bytes().len() == s@.len(),
{
    broadcast use vstd::string::is_ascii_spec_bytes;
}

/// The lengths of the names and string values of the guest tree.
proof fn lemma_literal_lengths()
    ensures
        "#address-cells".spec_bytes().len() == 14,
        "#size-cells".spec_bytes().len() == 11,
        "model".spec_bytes().len() == 5,
        "compatible".spec_bytes().len() == 10,
        "bootargs".spec_bytes().len() == 8,
        "device_type".spec_bytes().len() == 11,
        "reg".spec_bytes().len() == 3,
        "tvisor-virt-v1".spec_bytes().len() == 14,
        "tvisor,virt".spec_bytes().len() == 11,
        "linux,dummy-virt".spec_bytes().len() == 16,
        "chosen".spec_bytes().len() == 6,
        "cpus".spec_bytes().len() == 4,
        "cpu@0".spec_bytes().len() == 5,
        "cpu".spec_bytes().len() == 3,
        "arm,cortex-a72".spec_bytes().len() == 14,
        "memory@".spec_bytes().len() == 7,
        "memory".spec_bytes().len() == 6,
{
    reveal_strlit("#address-cells");
    lemma_ascii_len("#address-cells");
    reveal_strlit("#size-cells");
    lemma_ascii_len("#size-cells");
    reveal_strlit("model");
    lemma_ascii_len("model");
    reveal_strlit("compatible");
    lemma_ascii_len("compatible");
    reveal_strlit("bootargs");
    lemma_ascii_len("bootargs");
    reveal_strlit("device_type");
    lemma_ascii_len("device_type");
    reveal_strlit("reg");
    lemma_ascii_len("reg");
    reveal_strlit("tvisor-virt-v1");
    lemma_ascii_len("tvisor-virt-v1");
    reveal_strlit("tvisor,virt");
    lemma_ascii_len("tvisor,virt");
    reveal_strlit("linux,dummy-virt");
    lemma_ascii_len("linux,dummy-virt");
    reveal_strlit("chosen");
    lemma_ascii_len("chosen");
    reveal_strlit("cpus");
    lemma_ascii_len("cpus");
    reveal_strlit("cpu@0");
    lemma_ascii_len("cpu@0");
    reveal_strlit("cpu");
    lemma_ascii_len("cpu");
    reveal_strlit("arm,cortex-a72");
    lemma_ascii_len("arm,cortex-a72");
    reveal_strlit("memory@");
    lemma_ascii_len("memory@");
    reveal_strlit("memory");
    lemma_ascii_len("memory");
}

/// The lengths of the memory node's name prefix and device type.
proof fn lemma_memory_literal_lengths()
    ensures
        "memory@".spec_bytes().len() == 7,
        "memory".spec_bytes().len() == 6,
{
    reveal_strlit("memory@");
    lemma_ascii_len("memory@");
    reveal_strlit("memory");
    lemma_ascii_len("memory");
}

/// The properties of the root node: two address and two size cells, the
/// model and the compatible strings.
#[verifier::opaque]
pub open spec fn root_props(ns: Seq<Seq<u8>>) -> Seq<u8> {
    prop(name_offset(ns, 0), be32(2)) + prop(name_offset(ns, 1), be32(2)) + prop(
        name_offset(ns, 2),
        cstr("tvisor-virt-v1".spec_bytes()),
    ) + prop(
        name_offset(ns, 3),
        cstr("tvisor,virt".spec_bytes()) + cstr("linux,dummy-virt".spec_bytes()),
    )
}

/// `/chosen`, with the command line where there is one.
#[verifier::opaque]
pub open spec fn chosen_node(ns: Seq<Seq<u8>>, bootargs: Option<Seq<u8>>) -> Seq<u8> {
    begin_node("chosen".spec_bytes()) + (match bootargs {
        Some(b) => prop(name_offset(ns, 4), cstr(b)),
        None => Seq::empty(),
    }) + end_node()
}

/// `cpu@0`, a Cortex-A72 with `reg` zero; `d` is the index of
/// `device_type` among the names.
#[verifier::opaque]
pub open spec fn cpu_node(ns: Seq<Seq<u8>>, d: int) -> Seq<u8> {
    begin_node("cpu@0".spec_bytes()) + prop(name_offset(ns, d), cstr("cpu".spec_bytes())) + prop(
        name_offset(ns, 3),
        cstr("arm,cortex-a72".spec_bytes()),
    ) + prop(name_offset(ns, d + 1), be32(0)) + end_node()
}

/// `/cpus` with one address cell and no size cells, holding `cpu@0`.
#[verifier::opaque]
pub open spec fn cpus_node(ns: Seq<Seq<u8>>, d: int) -> Seq<u8> {
    begin_node("cpus".spec_bytes()) + prop(name_offset(ns, 0), be32(1)) + prop(
        name_offset(ns, 1),
        be32(0),
    ) + cpu_node(ns, d) + end_node()
}

/// The memory node, named after the first region's base, with every region
/// in its `reg`; `d` is the index of `device_type` among the names.
#[verifier::opaque]
pub open spec fn memory_node(ns: Seq<Seq<u8>>, d: int, regions: Seq<GuestMemoryRegion>) -> Seq<
    u8,
> {
    begin_node("memory@".spec_bytes() + hex_ascii_digits(regions[0].base as nat)) + prop(
        name_offset(ns, d),
        cstr("memory".spec_bytes()),
    ) + prop(name_offset(ns, d + 1), reg_cells(regions)) + end_node()
}

/// The index of `device_type` among the property names.
pub open spec fn device_type_index(has_bootargs: bool) -> int {
    if has_bootargs {
        5
    } else {
        4
    }
}

/// The structure block of the guest tree.
pub open spec fn dt_struct(regions: Seq<GuestMemoryRegion>, bootargs: Option<Seq<u8>>) -> Seq<u8> {
    let ns = prop_names(bootargs is Some);
    let d = device_type_index(bootargs is Some);
    begin_node(Seq::empty()) + root_props(ns) + chosen_node(ns, bootargs) + cpus_node(ns, d)
        + memory_node(ns, d, regions) + end_node() + fdt_end()
}

/// The offsets `offsets` are those of the property names in their strings block.
pub open spec fn offsets_of(offsets: Seq<u32>, has_bootargs: bool) -> bool {
    &&& offsets.len() == device_type_index(has_bootargs) + 2
    &&& forall|k: int|
        0 <= k < offsets.len() ==> offsets[k] == name_offset(prop_names(has_bootargs), k)
}

/// The root's compatible strings.
fn compatible_value() -> (r: Vec<u8>)
    ensures
        r@ == cstr("tvisor,virt".spec_bytes()) + cstr("linux,dummy-virt".spec_bytes()),
{
    let compatible_names = ["tvisor,virt", "linux,dummy-virt"];
    let compatible = string_list_value(compatible_names.as_slice());
    proof {
        let c = seq!["tvisor,virt", "linux,dummy-virt"];
        assert(compatible_names@ =~= c);
        let first = c.drop_last();
        assert(first =~= seq!["tvisor,virt"]);
        assert(first.drop_last() =~= Seq::<&str>::empty());
        assert(cstr_list(first.drop_last()) == Seq::<u8>::empty());
        assert(cstr_list(first) =~= cstr("tvisor,virt".spec_bytes()));
    }
    compatible
}

fn root_props_bytes(offsets: &[u32], has_bootargs: bool) -> (r: Vec<u8>)
    requires
        offsets_of(offsets@, has_bootargs),
    ensures
        r@ == root_props(prop_names(has_bootargs)),
        r@.len() <= 256,
{
    proof {
        reveal(root_props);
    }
    proof {
        lemma_literal_lengths();
    }
    let two = u32_value(2);
    let mut r = prop_bytes(offsets[0], two.as_slice());
    push_prop(&mut r, offsets[1], two.as_slice());
    let model = string_value("tvisor-virt-v1");
    push_prop(&mut r, offsets[2], model.as_slice());
    let compatible = compatible_value();
    push_prop(&mut r, offsets[3], compatible.as_slice());
    r
}

fn chosen_bytes(offsets: &[u32], bootargs: Option<&str>) -> (r: Vec<u8>)
    requires
        offsets_of(offsets@, bootargs is Some),
        bootargs matches Some(b) ==> b.spec_bytes().len() < 128,
    ensures
        r@ == chosen_node(prop_names(bootargs is Some), bootargs_bytes(bootargs)),
        r@.len() <= 256,
{
    proof {
        reveal(chosen_node);
    }
    proof {
        lemma_literal_lengths();
    }
    let mut r = begin_node_bytes("chosen".as_bytes());
    let ghost opened = r@;
    match bootargs {
        Some(b) => {
            let value = string_value(b);
            push_prop(&mut r, offsets[4], value.as_slice());
        },
        None => {},
    }
    assert(r@.len() <= 14 + 15 + 129);
    proof {
        assert(r@ =~= opened + (match bootargs_bytes(bootargs) {
            Some(b) => prop(name_offset(prop_names(bootargs is Some), 4), cstr(b)),
            None => Seq::empty(),
        }));
    }
    push_end_node(&mut r);
    r
}

fn cpu_bytes(offsets: &[u32], has_bootargs: bool) -> (r: Vec<u8>)
    requires
        offsets_of(offsets@, has_bootargs),
    ensures
        r@ == cpu_node(prop_names(has_bootargs), device_type_index(has_bootargs)),
        r@.len() <= 128,
{
    proof {
        reveal(cpu_node);
    }
    proof {
        lemma_literal_lengths();
    }
    let d: usize = if has_bootargs {
        5
    } else {
        4
    };
    let mut r = begin_node_bytes("cpu@0".as_bytes());
    push_prop(&mut r, offsets[d], string_value("cpu").as_slice());
    push_prop(&mut r, offsets[3], string_value("arm,cortex-a72").as_slice());
    push_prop(&mut r, offsets[d + 1], u32_value(0).as_slice());
    push_end_node(&mut r);
    r
}

fn cpus_bytes(offsets: &[u32], has_bootargs: bool) -> (r: Vec<u8>)
    requires
        offsets_of(offsets@, has_bootargs),
    ensures
        r@ == cpus_node(prop_names(has_bootargs), device_type_index(has_bootargs)),
        r@.len() <= 256,
{
    proof {
        reveal(cpus_node);
    }
    proof {
        lemma_literal_lengths();
    }
    let mut r = begin_node_bytes("cpus".as_bytes());
    push_prop(&mut r, offsets[0], u32_value(1).as_slice());
    push_prop(&mut r, offsets[1], u32_value(0).as_slice());
    push_bytes(&mut r, cpu_bytes(offsets, has_bootargs).as_slice());
    push_end_node(&mut r);
    r
}

/// The `reg` cells of `regions` take sixteen bytes per region.
proof fn lemma_reg_cells_len(regions: Seq<GuestMemoryRegion>)
    ensures
        reg_cells(regions).len() == 16 * regions.len(),
    decreases regions.len(),
{
    if regions.len() > 0 {
        lemma_reg_cells_len(regions.drop_last());
    }
}

#[verifier::rlimit(40)]
fn memory_bytes(offsets: &[u32], has_bootargs: bool, regions: &[GuestMemoryRegion]) -> (r: Vec<u8>)
    requires
        offsets_of(offsets@, has_bootargs),
        1 <= regions@.len() <= MAX_GUEST_MEMORY_REGIONS,
    ensures
        r@ == memory_node(prop_names(has_bootargs), device_type_index(has_bootargs), regions@),
        r@.len() <= 256,
{
    proof {
        reveal(memory_node);
    }
    proof {
        lemma_memory_literal_lengths();
        lemma_reg_cells_len(regions@);
    }
    let d: usize = if has_bootargs {
        5
    } else {
        4
    };
    let name = memory_node_name(regions[0].base);
    proof {
        lemma_hex_ascii_len_u64(regions@[0].base);
    }
    let mut r = begin_node_bytes(name.as_slice());
    push_prop(&mut r, offsets[d], string_value("memory").as_slice());
    push_prop(&mut r, offsets[d + 1], reg_value(regions).as_slice());
    push_end_node(&mut r);
    r
}

// ----- Lengths -----

/// `16` to the power `k`.
pub open spec fn pow16(k: nat) -> nat
    decreases k,
{
    if k == 0 {
        1
    } else {
        16 * pow16((k - 1) as nat)
    }
}

/// A number below `16` to the power `k` has at most `k` hexadecimal digits.
proof fn lemma_hex_ascii_len(v: nat, k: nat)
    requires
        k >= 1,
        v < pow16(k),
    ensures
        hex_ascii_digits(v).len() <= k,
    decreases k,
{
    if v >= 16 {
        assert(k >= 2) by {
            if k == 1 {
                assert(pow16(1) == 16) by {
                    reveal_with_fuel(pow16, 2);
                }
            }
        }
        assert(v / 16 < pow16((k - 1) as nat));
        lemma_hex_ascii_len(v / 16, (k - 1) as nat);
    }
}

/// A 64-bit number has at most sixteen hexadecimal digits.
proof fn lemma_hex_ascii_len_u64(v: u64)
    ensures
        hex_ascii_digits(v as nat).len() <= 16,
{
    assert(pow16(16) == 0x1_0000_0000_0000_0000) by {
        reveal_with_fuel(pow16, 17);
    }
    lemma_hex_ascii_len(v as nat, 16);
}

proof fn lemma_pad4_len(s: Seq<u8>)
    ensures
        s.len() <= pad4(s).len() <= s.len() + 3,
{
}

proof fn lemma_prop_len(name_offset: int, value: Seq<u8>)
    ensures
        prop(name_offset, value).len() <= 15 + value.len(),
{
    lemma_pad4_len(value);
}

proof fn lemma_begin_node_len(name: Seq<u8>)
    ensures
        begin_node(name).len() <= 8 + name.len(),
{
    lemma_pad4_len(cstr(name));
}

// ----- The blob -----

/// The property names of the guest tree, as strings.
fn property_names(has_bootargs: bool) -> (r: Vec<&'static str>)
    ensures
        name_bytes(r@) == prop_names(has_bootargs),
        r@.len() <= 8,
        forall|k: int| 0 <= k < r@.len() ==> (#[trigger] r@[k]).spec_bytes().len() < 64,
{
    proof {
        lemma_literal_lengths();
    }
    let r = if has_bootargs {
        vec!["#address-cells", "#size-cells", "model", "compatible", "bootargs", "device_type", "reg"]
    } else {
        vec!["#address-cells", "#size-cells", "model", "compatible", "device_type", "reg"]
    };
    proof {
        reveal(prop_names);
        assert(name_bytes(r@) =~= prop_names(has_bootargs));
    }
    r
}

/// The guest tree in flattened form: its structure block and its strings block.
#[verifier::rlimit(60)]
fn build_tree(config: &GuestFdtConfig<'_>) -> (r: (Vec<u8>, Vec<u8>))
    requires
        config_error(config.memory_regions@, bootargs_bytes(config.bootargs)) is None,
    ensures
        r.0@ == dt_struct(config.memory_regions@, bootargs_bytes(config.bootargs)),
        r.1@ == strings_block(prop_names(config.bootargs is Some)),
        r.0@.len() <= 2048,
        r.1@.len() <= 520,
{
    let has_bootargs = config.bootargs.is_some();
    let names = property_names(has_bootargs);
    let (strings, offsets) = build_strings(names.as_slice());
    proof {
        lemma_prop_names_len(has_bootargs);
    }
    let empty: Vec<u8> = Vec::new();
    let mut tree = begin_node_bytes(empty.as_slice());
    push_bytes(&mut tree, root_props_bytes(offsets.as_slice(), has_bootargs).as_slice());
    push_bytes(&mut tree, chosen_bytes(offsets.as_slice(), config.bootargs).as_slice());
    push_bytes(&mut tree, cpus_bytes(offsets.as_slice(), has_bootargs).as_slice());
    push_bytes(
        &mut tree,
        memory_bytes(offsets.as_slice(), has_bootargs, config.memory_regions).as_slice(),
    );
    push_end_node(&mut tree);
    push_be32(&mut tree, 9);
    proof {
        assert(empty@ =~= Seq::<u8>::empty());
    }
    (tree, strings)
}

/// The header of a version 17 blob whose structure and strings blocks have
/// these lengths: the blob holds the header, an empty memory reservation
/// block, the structure block and the strings block, in that order.
pub open spec fn dtb_header(struct_len: int, strings_len: int) -> Seq<u8> {
    be32(0xd00d_feed) + be32(56 + struct_len + strings_len) + be32(56) + be32(56 + struct_len)
        + be32(40) + be32(17) + be32(16) + be32(0) + be32(strings_len) + be32(struct_len)
}

/// The guest DTB of a configuration.
pub open spec fn guest_dtb(regions: Seq<GuestMemoryRegion>, bootargs: Option<Seq<u8>>) -> Seq<u8> {
    let tree = dt_struct(regions, bootargs);
    let strings = strings_block(prop_names(bootargs is Some));
    dtb_header(tree.len() as int, strings.len() as int) + Seq::new(16, |i: int| 0u8) + tree
        + strings
}

/// The blob of a structure block and a strings block.
fn to_dtb(tree: &[u8], strings: &[u8]) -> (r: Vec<u8>)
    requires
        tree@.len() <= 2048,
        strings@.len() <= 520,
    ensures
        r@ == dtb_header(tree@.len() as int, strings@.len() as int) + Seq::new(16, |i: int| 0u8)
            + tree@ + strings@,
{
    let struct_len = tree.len() as u32;
    let strings_len = strings.len() as u32;
    let mut dtb: Vec<u8> = Vec::new();
    push_be32(&mut dtb, 0xd00d_feed);
    push_be32(&mut dtb, 56 + struct_len + strings_len);
    push_be32(&mut dtb, 56);
    push_be32(&mut dtb, 56 + struct_len);
    push_be32(&mut dtb, 40);
    push_be32(&mut dtb, 17);
    push_be32(&mut dtb, 16);
    push_be32(&mut dtb, 0);
    push_be32(&mut dtb, strings_len);
    push_be32(&mut dtb, struct_len);
    proof {
        assert(dtb@ =~= dtb_header(tree@.len() as int, strings@.len() as int));
    }
    push_zeros(&mut dtb, 16);
    push_bytes(&mut dtb, tree);
    push_bytes(&mut dtb, strings);
    dtb
}

/// Serializes the guest DTB of `config` into the start of `buffer`, leaving
/// the rest of it as it was, and returns its length.
pub fn build_guest_dtb(buffer: &mut [u8], config: &GuestFdtConfig<'_>) -> (r: Result<usize, GuestFdtError>)
    ensures
        match config_error(config.memory_regions@, bootargs_bytes(config.bootargs)) {
            Some(e) => r == Err::<usize, GuestFdtError>(e) && final(buffer)@ == old(buffer)@,
            None => {
                let dtb = guest_dtb(config.memory_regions@, bootargs_bytes(config.bootargs));
                if dtb.len() > old(buffer)@.len() {
                    &&& r == Err::<usize, GuestFdtError>(GuestFdtError::BufferTooSmall)
                    &&& final(buffer)@ == old(buffer)@
                } else {
                    &&& r == Ok::<usize, GuestFdtError>(dtb.len() as usize)
                    &&& final(buffer)@ == dtb + old(buffer)@.subrange(
                        dtb.len() as int,
                        old(buffer)@.len() as int,
                    )
                }
            },
        },
{
    match validate_config(config) {
        Err(e) => return Err(e),
        Ok(()) => {},
    }
    let (tree, strings) = build_tree(config);
    let dtb = to_dtb(tree.as_slice(), strings.as_slice());
    if dtb.len() > buffer.len() {
        return Err(GuestFdtError::BufferTooSmall);
    }
    let n = dtb.len();
    let mut i: usize = 0;
    while i < n
        invariant
            n == dtb@.len() <= buffer@.len(),
            i <= n,
            buffer@.len() == old(buffer)@.len(),
            buffer@ == dtb@.subrange(0, i as int) + old(buffer)@.subrange(
                i as int,
                old(buffer)@.len() as int,
            ),
        decreases n - i,
    {
        buffer[i] = dtb[i];
        proof {
            assert(buffer@ =~= dtb@.subrange(0, i + 1) + old(buffer)@.subrange(
                i + 1,
                old(buffer)@.len() as int,
            ));
        }
        i += 1;
    }
    proof {
        assert(dtb@.subrange(0, n as int) =~= dtb@);
    }
    Ok(n)
}

} // verus!
