//! The platform errors of memory-map discovery, and the page-rounded region
//! that the live DTB occupies.
use vstd::prelude::*;
use crate::text::{append_decimal, dec_text};
use vstd::string::StringExecFns;
use crate::memory_map::{
    MAX_MMIO_REGIONS, MAX_NORMALIZED_RESERVED_REGIONS, MAX_RAM_REGIONS, MAX_USABLE_RAM_REGIONS, MemoryMap,
    sorted_merged, MemoryMapError, covers, lemma_covers_concat, has_conflict, usable_of};
use crate::devicetree::{
    ArrayEntry, DeviceTree, Fdt, MemoryReservation, array_entry, cells_int, compatible_with, bus_address_cells, bus_size_cells, bytes_eq, cstr, cstr_of,
    address_cells, find_node_spec, lemma_found_entry_in_bounds, name_ranges, name_reg, prop_of,
    read_array_entry, read_cells_int, size_cells, status_value,
};
use crate::page_allocator::{page_ceil, page_floor};
use crate::page::{is_pow2, u64_is_power_of_two};
use crate::system_info::{PhysAddr, PhysRegion, RegionError};

verus! {

#[derive(Debug, Clone, Copy, PartialEq, Eq, Structural)]
pub enum CapacityKind {
    Ram,
    Reserved,
    Mmio,
}

#[derive(Debug, Clone, Copy, PartialEq, Eq, Structural)]
pub enum PlatformError {
    MissingMemory,
    InvalidMemory,
    InvalidReservation,
    ConflictingReservationAttributes,
    InvalidDynamicReservation,
    UnboundedDynamicReservation,
    MissingSocRanges,
    InvalidSocRanges,
    InvalidDtbRegion,
    MemoryMap(MemoryMapError),
    Capacity { kind: CapacityKind, capacity: usize },
}

/// The platform error for a memory-map insertion of `kind` that failed: a
/// full map keeps its capacity, any other failure is invalid memory.
pub fn memory_error(kind: CapacityKind, error: MemoryMapError) -> (r: PlatformError)
    ensures
        r == (match error {
            MemoryMapError::Capacity { capacity } => PlatformError::Capacity { kind, capacity },
            _ => PlatformError::InvalidMemory,
        }),
{
    match error {
        MemoryMapError::Capacity { capacity } => PlatformError::Capacity { kind, capacity },
        MemoryMapError::InvalidRegion(_) => PlatformError::InvalidMemory,
        MemoryMapError::RamMmioConflict { .. } => PlatformError::InvalidMemory,
    }
}

/// The whole pages that cover the `size` bytes at `start`.
pub fn page_rounded_region(start: PhysAddr, size: u64) -> (r: Result<PhysRegion, RegionError>)
    ensures
        start@ + size > u64::MAX || start@ + size + 4095 > u64::MAX ==> r == Err::<
            PhysRegion,
            RegionError,
        >(RegionError::AddressOverflow),
        start@ + size + 4095 <= u64::MAX ==> r == (if size == 0 && start@ % 4096 == 0 {
            Err::<PhysRegion, RegionError>(RegionError::Empty)
        } else {
            Ok(
                PhysRegion::spec_new(
                    page_floor(start@ as int) as u64,
                    (page_ceil(start@ + size) - page_floor(start@ as int)) as u64,
                ),
            )
        }),
{
    let end = match start.checked_add(size) {
        Some(e) => e,
        None => return Err(RegionError::AddressOverflow),
    };
    proof {
        PhysAddr::lemma_spec_new((start@ + size) as u64);
        PhysRegion::lemma_spec_new(
            page_floor(start@ as int) as u64,
            (page_ceil(start@ + size) - page_floor(start@ as int)) as u64,
        );
    }
    let rounded_start = crate::page_allocator::align_down(start.value(), 4096);
    let rounded_end = match crate::page_allocator::align_up(end.value(), 4096) {
        Some(e) => e,
        None => return Err(RegionError::AddressOverflow),
    };
    proof {
        crate::page::lemma_round_up(start@ + size, 4096);
    }
    PhysRegion::from_bounds(PhysAddr::new(rounded_start), PhysAddr::new(rounded_end))
}

impl CapacityKind {
    /// The name of the variant.
    pub open spec fn debug_text(self) -> Seq<char> {
        match self {
            CapacityKind::Ram => "Ram"@,
            CapacityKind::Reserved => "Reserved"@,
            CapacityKind::Mmio => "Mmio"@,
        }
    }

    pub(crate) fn debug_name(&self) -> (r: &'static str)
        ensures
            r@ == self.debug_text(),
    {
        match self {
            CapacityKind::Ram => "Ram",
            CapacityKind::Reserved => "Reserved",
            CapacityKind::Mmio => "Mmio",
        }
    }
}

impl PlatformError {
    /// What is wrong with the platform description, in words.
    pub open spec fn message(self) -> Seq<char> {
        match self {
            PlatformError::MissingMemory => "the DTB has no enabled memory node"@,
            PlatformError::InvalidMemory => "a DTB memory description is invalid"@,
            PlatformError::InvalidReservation => "a DTB reserved-memory description is invalid"@,
            PlatformError::ConflictingReservationAttributes => "a reserved-memory node has both no-map and reusable"@,
            PlatformError::InvalidDynamicReservation => "invalid dynamic reservation size or alignment"@,
            PlatformError::UnboundedDynamicReservation => "a dynamic reservation has no alloc-ranges; its possible placement is unknown"@,
            PlatformError::MissingSocRanges => "the /soc ranges property is missing"@,
            PlatformError::InvalidSocRanges => "the /soc ranges property is invalid"@,
            PlatformError::InvalidDtbRegion => "the live DTB physical region is invalid"@,
            PlatformError::MemoryMap(e) => "invalid memory map: "@ + e.message(),
            PlatformError::Capacity { kind, capacity } => kind.debug_text() + " capacity "@ + dec_text(capacity as nat) + " is insufficient"@,
        }
    }

    /// The error in words.
    pub fn to_string(&self) -> (r: String)
        ensures
            r@ == self.message(),
    {
        match self {
            PlatformError::MissingMemory => {
                String::from_str("the DTB has no enabled memory node")
            }
            PlatformError::InvalidMemory => {
                String::from_str("a DTB memory description is invalid")
            }
            PlatformError::InvalidReservation => {
                String::from_str("a DTB reserved-memory description is invalid")
            }
            PlatformError::ConflictingReservationAttributes => {
                String::from_str("a reserved-memory node has both no-map and reusable")
            }
            PlatformError::InvalidDynamicReservation => {
                String::from_str("invalid dynamic reservation size or alignment")
            }
            PlatformError::UnboundedDynamicReservation => {
                String::from_str("a dynamic reservation has no alloc-ranges; its possible placement is unknown")
            }
            PlatformError::MissingSocRanges => {
                String::from_str("the /soc ranges property is missing")
            }
            PlatformError::InvalidSocRanges => {
                String::from_str("the /soc ranges property is invalid")
            }
            PlatformError::InvalidDtbRegion => {
                String::from_str("the live DTB physical region is invalid")
            }
            PlatformError::MemoryMap(e) => {
                let mut text = String::from_str("invalid memory map: ");
                let inner = e.to_string();
                text.append(inner.as_str());
                text
            }
            PlatformError::Capacity { kind, capacity } => {
                let mut text = String::from_str(kind.debug_name());
                text.append(" capacity ");
                append_decimal(&mut text, *capacity as u64);
                text.append(" is insufficient");
                text
            }
        }
    }
}

// ----- Memory-map discovery -----

/// The bytes of `device_type`.
pub open spec fn name_device_type() -> Seq<u8> {
    seq![0x64u8, 0x65u8, 0x76u8, 0x69u8, 0x63u8, 0x65u8, 0x5fu8, 0x74u8, 0x79u8, 0x70u8, 0x65u8]
}

/// The bytes of `memory`.
pub open spec fn word_memory() -> Seq<u8> {
    seq![0x6du8, 0x65u8, 0x6du8, 0x6fu8, 0x72u8, 0x79u8]
}

/// `Ok(d + rest)` for `Ok(rest)`, the error itself otherwise.
pub open spec fn after(d: Seq<PhysRegion>, r: Result<Seq<PhysRegion>, PlatformError>) -> Result<
    Seq<PhysRegion>,
    PlatformError,
> {
    match r {
        Ok(rest) => Ok(d + rest),
        Err(e) => Err(e),
    }
}

proof fn lemma_after_assoc(
    a: Seq<PhysRegion>,
    b: Seq<PhysRegion>,
    r: Result<Seq<PhysRegion>, PlatformError>,
)
    ensures
        after(a, after(b, r)) == after(a + b, r),
{
    match r {
        Ok(rest) => {
            assert(a + (b + rest) =~= (a + b) + rest);
        },
        Err(_) => {},
    }
}

/// The regions that entries `e` onward of the `reg`-style value `v`, with
/// fields of `ac` and `sc` cells, describe; `error` at the first entry that
/// cannot be read or is no region.
pub open spec fn reg_regions(v: Seq<u8>, ac: int, sc: int, e: int, error: PlatformError) -> Result<
    Seq<PhysRegion>,
    PlatformError,
>
    decreases v.len() - e,
{
    if e < 0 || ac < 0 || sc < 0 {
        Ok(Seq::empty())
    } else {
        match array_entry(v, ac, sc, 0, e) {
            ArrayEntry::Missing => Ok(Seq::empty()),
            ArrayEntry::Found(start, size, _) => if size == 0 || start + size > u64::MAX {
                Err(error)
            } else {
                proof {
                    lemma_found_entry_in_bounds(v, ac, sc, 0, e);
                }
                after(seq![PhysRegion::spec_new(start, size)], reg_regions(v, ac, sc, e + 1, error))
            },
            _ => Err(error),
        }
    }
}

/// The RAM that node `i` describes: none unless it is a memory node; its
/// `reg` regions when it is an operational one.
pub open spec fn memory_node_regions(t: DeviceTree, i: int) -> Result<
    Seq<PhysRegion>,
    PlatformError,
> {
    match prop_of(t, i, name_device_type()) {
        None => Ok(Seq::empty()),
        Some(v) => match cstr_of(v) {
            None => Err(PlatformError::InvalidMemory),
            Some(s) => if s != word_memory() {
                Ok(Seq::empty())
            } else {
                match status_value(t, i) {
                    None => Err(PlatformError::InvalidMemory),
                    Some(false) => Ok(Seq::empty()),
                    Some(true) => match prop_of(t, i, name_reg()) {
                        None => Err(PlatformError::InvalidMemory),
                        Some(r) => reg_regions(
                            r,
                            bus_address_cells(t, i),
                            bus_size_cells(t, i),
                            0,
                            PlatformError::InvalidMemory,
                        ),
                    },
                }
            },
        },
    }
}

/// The RAM that the memory nodes among the root's children, from node `i`
/// on, describe, in document order; the first invalid description's error.
pub open spec fn ram_regions_from(t: DeviceTree, i: int) -> Result<Seq<PhysRegion>, PlatformError>
    decreases t.node_count() - i,
{
    if i < 1 || i >= t.node_count() {
        Ok(Seq::empty())
    } else {
        let here = if t.parent_of_node(i) != 0 {
            Ok(Seq::empty())
        } else {
            memory_node_regions(t, i)
        };
        match here {
            Err(e) => Err(e),
            Ok(rs) => after(rs, ram_regions_from(t, i + 1)),
        }
    }
}

/// The error of a RAM list that is full.
pub open spec fn ram_full() -> PlatformError {
    PlatformError::Capacity { kind: CapacityKind::Ram, capacity: MAX_RAM_REGIONS }
}

/// Adds the RAM that memory node `node` describes; whether it described any.
fn insert_memory_node(fdt: &DeviceTree, node: usize, map: &mut MemoryMap) -> (r: Result<
    bool,
    PlatformError,
>)
    requires
        fdt.wf(),
        node < fdt.node_count(),
        old(map).wf(),
    ensures
        final(map).wf(),
        final(map).reserved_spec() == old(map).reserved_spec(),
        final(map).mmio_spec() == old(map).mmio_spec(),
        final(map).usable_spec() == old(map).usable_spec(),
        r == Err::<bool, PlatformError>(ram_full()) ==> final(map).ram_spec().len() >= MAX_RAM_REGIONS
            && !(memory_node_regions(*fdt, node as int) matches Ok(rs) && rs.len() == 0),
        r == Err::<bool, PlatformError>(ram_full()) ==> (memory_node_regions(*fdt, node as int) matches Ok(rs)
            ==> forall|a: int| #[trigger]
            covers(final(map).ram_spec(), a) ==> covers(old(map).ram_spec(), a) || covers(rs, a)),
        match memory_node_regions(*fdt, node as int) {
            Err(e) => r == Err::<bool, PlatformError>(e) || r == Err::<bool, PlatformError>(ram_full()),
            Ok(rs) => r == Err::<bool, PlatformError>(ram_full()) || (r == Ok::<bool, PlatformError>(
                rs.len() > 0,
            ) && (forall|a: int| #[trigger]
                covers(final(map).ram_spec(), a) <==> covers(old(map).ram_spec(), a) || covers(rs, a))
                && (rs.len() == 0 ==> final(map).ram_spec() == old(map).ram_spec())),
        },
{
    let device_type: [u8; 11] = [0x64u8, 0x65u8, 0x76u8, 0x69u8, 0x63u8, 0x65u8, 0x5fu8, 0x74u8, 0x79u8, 0x70u8, 0x65u8];
    let memory: [u8; 6] = [0x6du8, 0x65u8, 0x6du8, 0x6fu8, 0x72u8, 0x79u8];
    let reg_name: [u8; 3] = [0x72u8, 0x65u8, 0x67u8];
    proof {
        assert(device_type@ =~= name_device_type());
        assert(memory@ =~= word_memory());
        assert(reg_name@ =~= name_reg());
    }
    let v = match fdt.property_value(node, &device_type) {
        None => return Ok(false),
        Some(v) => v,
    };
    let s = match cstr(v) {
        None => return Err(PlatformError::InvalidMemory),
        Some(s) => s,
    };
    if !bytes_eq(s, &memory) {
        return Ok(false);
    }
    match fdt.status_value(node) {
        None => return Err(PlatformError::InvalidMemory),
        Some(false) => return Ok(false),
        Some(true) => {},
    }
    let reg = match fdt.property_value(node, &reg_name) {
        None => return Err(PlatformError::InvalidMemory),
        Some(r) => r,
    };
    let (ac, sc) = fdt.bus_cells(node);
    let ghost total = reg_regions(reg@, ac as int, sc as int, 0, PlatformError::InvalidMemory);
    let ghost start_ram = map.ram_spec();
    let ghost mut done: Seq<PhysRegion> = Seq::empty();
    let mut any = false;
    let mut e: usize = 0;
    let rlen = reg.len();
    loop
        invariant
            map.wf(),
            map.reserved_spec() == old(map).reserved_spec(),
            map.mmio_spec() == old(map).mmio_spec(),
            map.usable_spec() == old(map).usable_spec(),
            start_ram == old(map).ram_spec(),
            rlen == reg@.len(),
            e <= rlen,
            total == reg_regions(reg@, ac as int, sc as int, 0, PlatformError::InvalidMemory),
            total == after(done, reg_regions(reg@, ac as int, sc as int, e as int, PlatformError::InvalidMemory)),
            forall|a: int| #[trigger] covers(map.ram_spec(), a) <==> covers(start_ram, a) || covers(done, a),
            any == (done.len() > 0),
            done.len() == 0 ==> map.ram_spec() == start_ram,
            memory_node_regions(*fdt, node as int) == total,
        decreases rlen - e,
    {
        match read_array_entry(reg, ac, sc, 0, e) {
            ArrayEntry::Missing => {
                proof {
                    assert(done + Seq::<PhysRegion>::empty() =~= done);
                }
                return Ok(any);
            },
            ArrayEntry::Found(start, size, _) => {
                let region = match PhysRegion::new(PhysAddr::new(start), size) {
                    Err(_) => return Err(PlatformError::InvalidMemory),
                    Ok(r) => r,
                };
                proof {
                    lemma_found_entry_in_bounds(reg@, ac as int, sc as int, 0, e as int);
                }
                let ghost before = map.ram_spec();
                match map.insert_ram(region) {
                    Err(err) => {
                        proof {
                            match reg_regions(reg@, ac as int, sc as int, e + 1, PlatformError::InvalidMemory) {
                                Ok(rest) => {
                                    assert((done + (seq![region] + rest)).len() >= 1);
                                },
                                Err(_) => {},
                            }
                            match reg_regions(reg@, ac as int, sc as int, e as int, PlatformError::InvalidMemory) {
                                Ok(rest) => {
                                    lemma_covers_concat(done, rest);
                                },
                                Err(_) => {},
                            }
                        }
                        return Err(memory_error(CapacityKind::Ram, err));
                    },
                    Ok(()) => {},
                }
                proof {
                    lemma_after_assoc(
                        done,
                        seq![region],
                        reg_regions(reg@, ac as int, sc as int, e + 1, PlatformError::InvalidMemory),
                    );
                    lemma_covers_concat(done, seq![region]);
                    assert forall|a: int| #[trigger] covers(seq![region], a) <==> region.contains_spec(a) by {
                        if region.contains_spec(a) {
                            assert(seq![region][0] == region);
                        }
                    }
                    done = done + seq![region];
                }
                any = true;
                e += 1;
            },
            _ => return Err(PlatformError::InvalidMemory),
        }
    }
}

/// Adds the RAM that the DTB's memory nodes describe: each enabled child of
/// the root whose `device_type` is `memory`, one region per `reg` entry.
pub fn discover_ram(fdt: &DeviceTree, map: &mut MemoryMap) -> (r: Result<(), PlatformError>)
    requires
        fdt.wf(),
        old(map).wf(),
    ensures
        final(map).wf(),
        final(map).reserved_spec() == old(map).reserved_spec(),
        final(map).mmio_spec() == old(map).mmio_spec(),
        final(map).usable_spec() == old(map).usable_spec(),
        r == Err::<(), PlatformError>(ram_full()) ==> final(map).ram_spec().len() >= MAX_RAM_REGIONS,
        match ram_regions_from(*fdt, 1) {
            Err(e) => r == Err::<(), PlatformError>(e) || r == Err::<(), PlatformError>(ram_full()),
            Ok(rs) => if rs.len() == 0 {
                r == Err::<(), PlatformError>(PlatformError::MissingMemory) && final(map).ram_spec()
                    == old(map).ram_spec()
            } else {
                r == Err::<(), PlatformError>(ram_full()) || (r is Ok && forall|a: int| #[trigger]
                    covers(final(map).ram_spec(), a) <==> covers(old(map).ram_spec(), a) || covers(
                        rs,
                        a,
                    ))
            },
        },
        r == Err::<(), PlatformError>(ram_full()) ==> (ram_regions_from(*fdt, 1) matches Ok(rs) ==> forall|
            a: int,
        | #[trigger] covers(final(map).ram_spec(), a) ==> covers(old(map).ram_spec(), a) || covers(rs, a)),
{
    let ghost total = ram_regions_from(*fdt, 1);
    let ghost start_ram = map.ram_spec();
    let ghost mut done: Seq<PhysRegion> = Seq::empty();
    let mut found = false;
    let n = fdt.len();
    let mut i: usize = 1;
    proof {
        match ram_regions_from(*fdt, 1) {
            Ok(rest) => {
                assert(Seq::<PhysRegion>::empty() + rest =~= rest);
            },
            Err(_) => {},
        }
    }
    while i < n
        invariant
            fdt.wf(),
            map.wf(),
            n == fdt.node_count(),
            1 <= i <= n,
            map.reserved_spec() == old(map).reserved_spec(),
            map.mmio_spec() == old(map).mmio_spec(),
            map.usable_spec() == old(map).usable_spec(),
            start_ram == old(map).ram_spec(),
            total == ram_regions_from(*fdt, 1),
            total == after(done, ram_regions_from(*fdt, i as int)),
            forall|a: int| #[trigger] covers(map.ram_spec(), a) <==> covers(start_ram, a) || covers(done, a),
            found == (done.len() > 0),
            done.len() == 0 ==> map.ram_spec() == start_ram,
        decreases n - i,
    {
        if fdt.parent(i) == 0 {
            let ghost before = map.ram_spec();
            let added = match insert_memory_node(fdt, i, map) {
                Ok(a) => a,
                Err(e) => {
                    proof {
                        if let Ok(all) = total {
                            let here = memory_node_regions(*fdt, i as int).unwrap();
                            let rest = ram_regions_from(*fdt, i + 1).unwrap();
                            assert(all == done + (here + rest));
                            lemma_covers_concat(done, here + rest);
                            lemma_covers_concat(here, rest);
                        }
                    }
                    return Err(e);
                },
            };
            proof {
                let rs = memory_node_regions(*fdt, i as int).unwrap();
                lemma_after_assoc(done, rs, ram_regions_from(*fdt, i + 1));
                lemma_covers_concat(done, rs);
                done = done + rs;
            }
            found = found || added;
        } else {
            proof {
                assert(done + Seq::<PhysRegion>::empty() =~= done);
                lemma_after_assoc(done, Seq::empty(), ram_regions_from(*fdt, i + 1));
            }
        }
        i += 1;
    }
    proof {
        assert(done + Seq::<PhysRegion>::empty() =~= done);
    }
    if found {
        Ok(())
    } else {
        Err(PlatformError::MissingMemory)
    }
}

/// The bytes of `/soc`.
pub open spec fn name_soc() -> Seq<u8> {
    seq![0x2fu8, 0x73u8, 0x6fu8, 0x63u8]
}

/// The MMIO windows that entries `e` onward of `/soc`'s `ranges` value `v`
/// (fields of `w0`, `w1` and `w2` cells) describe: the parent-bus side of
/// each range; an error at the first unreadable entry or empty window.
pub open spec fn soc_windows(v: Seq<u8>, w0: int, w1: int, w2: int, e: int) -> Result<
    Seq<PhysRegion>,
    PlatformError,
>
    decreases v.len() - e,
{
    if e < 0 || w0 < 0 || w1 < 0 || w2 < 0 {
        Ok(Seq::empty())
    } else {
        match array_entry(v, w0, w1, w2, e) {
            ArrayEntry::Missing => Ok(Seq::empty()),
            ArrayEntry::Found(_, start, size) => if size == 0 || start + size > u64::MAX {
                Err(PlatformError::InvalidSocRanges)
            } else {
                proof {
                    lemma_found_entry_in_bounds(v, w0, w1, w2, e);
                }
                after(seq![PhysRegion::spec_new(start, size)], soc_windows(v, w0, w1, w2, e + 1))
            },
            _ => Err(PlatformError::InvalidSocRanges),
        }
    }
}

/// The MMIO windows of the DTB: those of an operational `/soc`'s `ranges`;
/// none without a `/soc` or with one that is not operational.
pub open spec fn mmio_regions(t: DeviceTree) -> Result<Seq<PhysRegion>, PlatformError> {
    match find_node_spec(t, name_soc()) {
        None => Ok(Seq::empty()),
        Some(s) => match status_value(t, s) {
            None => Err(PlatformError::InvalidSocRanges),
            Some(false) => Ok(Seq::empty()),
            Some(true) => match prop_of(t, s, name_ranges()) {
                None => Err(PlatformError::MissingSocRanges),
                Some(v) => soc_windows(v, address_cells(t, s), bus_address_cells(t, s), size_cells(t, s), 0),
            },
        },
    }
}

/// The error of an MMIO list that is full.
pub open spec fn mmio_full() -> PlatformError {
    PlatformError::Capacity { kind: CapacityKind::Mmio, capacity: MAX_MMIO_REGIONS }
}

/// Adds the MMIO windows of `/soc`'s `ranges`: the CPU-side address and
/// length of every range.
pub fn discover_mmio(fdt: &DeviceTree, map: &mut MemoryMap) -> (r: Result<(), PlatformError>)
    requires
        fdt.wf(),
        old(map).wf(),
    ensures
        final(map).wf(),
        final(map).ram_spec() == old(map).ram_spec(),
        final(map).reserved_spec() == old(map).reserved_spec(),
        final(map).usable_spec() == old(map).usable_spec(),
        r == Err::<(), PlatformError>(mmio_full()) ==> final(map).mmio_spec().len() >= MAX_MMIO_REGIONS,
        match mmio_regions(*fdt) {
            Err(e) => r == Err::<(), PlatformError>(e) || r == Err::<(), PlatformError>(mmio_full()),
            Ok(ws) => r == Err::<(), PlatformError>(mmio_full()) || (r is Ok && forall|a: int|
                #[trigger] covers(final(map).mmio_spec(), a) <==> covers(old(map).mmio_spec(), a)
                    || covers(ws, a)),
        },
{
    let soc_path: [u8; 4] = [0x2fu8, 0x73u8, 0x6fu8, 0x63u8];
    let ranges_name: [u8; 6] = [0x72u8, 0x61u8, 0x6eu8, 0x67u8, 0x65u8, 0x73u8];
    proof {
        assert(soc_path@ =~= name_soc());
        assert(ranges_name@ =~= name_ranges());
        lemma_no_covers_empty();
    }
    let soc = match fdt.find_node(&soc_path) {
        None => return Ok(()),
        Some(s) => s,
    };
    match fdt.status_value(soc) {
        None => return Err(PlatformError::InvalidSocRanges),
        Some(false) => return Ok(()),
        Some(true) => {},
    }
    let v = match fdt.property_value(soc, &ranges_name) {
        None => return Err(PlatformError::MissingSocRanges),
        Some(v) => v,
    };
    let w0 = fdt.address_cells(soc);
    let (w1, _) = fdt.bus_cells(soc);
    let w2 = fdt.size_cells(soc);
    let ghost total = soc_windows(v@, w0 as int, w1 as int, w2 as int, 0);
    let ghost start_mmio = map.mmio_spec();
    let ghost mut done: Seq<PhysRegion> = Seq::empty();
    let mut e: usize = 0;
    let vlen = v.len();
    proof {
        match total {
            Ok(rest) => {
                assert(Seq::<PhysRegion>::empty() + rest =~= rest);
            },
            Err(_) => {},
        }
    }
    loop
        invariant
            map.wf(),
            map.ram_spec() == old(map).ram_spec(),
            map.reserved_spec() == old(map).reserved_spec(),
            map.usable_spec() == old(map).usable_spec(),
            start_mmio == old(map).mmio_spec(),
            vlen == v@.len(),
            e <= vlen,
            total == mmio_regions(*fdt),
            total == after(done, soc_windows(v@, w0 as int, w1 as int, w2 as int, e as int)),
            forall|a: int| #[trigger] covers(map.mmio_spec(), a) <==> covers(start_mmio, a) || covers(done, a),
        decreases vlen - e,
    {
        match read_array_entry(v, w0, w1, w2, e) {
            ArrayEntry::Missing => {
                proof {
                    assert(done + Seq::<PhysRegion>::empty() =~= done);
                }
                return Ok(());
            },
            ArrayEntry::Found(_, start, size) => {
                let region = match PhysRegion::new(PhysAddr::new(start), size) {
                    Err(_) => return Err(PlatformError::InvalidSocRanges),
                    Ok(r) => r,
                };
                proof {
                    lemma_found_entry_in_bounds(v@, w0 as int, w1 as int, w2 as int, e as int);
                }
                match map.insert_mmio(region) {
                    Err(err) => return Err(memory_error(CapacityKind::Mmio, err)),
                    Ok(()) => {},
                }
                proof {
                    lemma_after_assoc(done, seq![region], soc_windows(v@, w0 as int, w1 as int, w2 as int, e + 1));
                    lemma_covers_concat(done, seq![region]);
                    lemma_covers_single(region);
                    done = done + seq![region];
                }
                e += 1;
            },
            _ => return Err(PlatformError::InvalidSocRanges),
        }
    }
}

proof fn lemma_covers_single(region: PhysRegion)
    ensures
        forall|a: int| #[trigger] covers(seq![region], a) <==> region.contains_spec(a),
{
    assert forall|a: int| #[trigger] covers(seq![region], a) <==> region.contains_spec(a) by {
        if region.contains_spec(a) {
            assert(seq![region][0] == region);
        }
    }
}

proof fn lemma_no_covers_empty()
    ensures
        forall|a: int| !#[trigger] covers(Seq::<PhysRegion>::empty(), a),
{
}

/// The bytes of `brcm,bcm2711`.
pub open spec fn name_bcm2711() -> Seq<u8> {
    seq![0x62u8, 0x72u8, 0x63u8, 0x6du8, 0x2cu8, 0x62u8, 0x63u8, 0x6du8, 0x32u8, 0x37u8, 0x31u8, 0x31u8]
}

/// The first gigabyte, below which the BCM2711 firmware keeps memory that
/// it leaves out of the DTB's memory nodes.
pub const BCM2711_LOW_MEMORY_LIMIT: u64 = 0x4000_0000;

/// The end of the RAM region that starts at address zero, in a normalized
/// RAM list: its first region, when that starts at zero.
pub open spec fn low_ram_end(ram: Seq<PhysRegion>) -> Option<int> {
    if ram.len() > 0 && ram[0].start_spec() == 0 {
        Some(ram[0].end_spec())
    } else {
        None
    }
}

/// The error of a reservation list that is full.
pub open spec fn reserved_full() -> PlatformError {
    PlatformError::Capacity {
        kind: CapacityKind::Reserved,
        capacity: MAX_NORMALIZED_RESERVED_REGIONS,
    }
}

/// On a BCM2711 (a root compatible with `brcm,bcm2711`), adds the memory
/// between the end of the RAM at address zero and the first gigabyte, which
/// the firmware keeps for itself, both as RAM and as a permanent
/// reservation.
pub fn discover_bcm2711_firmware_carveout(fdt: &DeviceTree, map: &mut MemoryMap) -> (r: Result<
    (),
    PlatformError,
>)
    requires
        fdt.wf(),
        old(map).wf(),
    ensures
        final(map).wf(),
        final(map).mmio_spec() == old(map).mmio_spec(),
        final(map).usable_spec() == old(map).usable_spec(),
        !compatible_with(*fdt, 0, name_bcm2711()) ==> r is Ok && *final(map) == *old(map),
        compatible_with(*fdt, 0, name_bcm2711()) ==> match low_ram_end(old(map).ram_spec()) {
            None => r == Err::<(), PlatformError>(PlatformError::MissingMemory) && *final(map)
                == *old(map),
            Some(end) => if end >= BCM2711_LOW_MEMORY_LIMIT {
                r is Ok && *final(map) == *old(map)
            } else {
                let carveout = PhysRegion::spec_new(end as u64, (BCM2711_LOW_MEMORY_LIMIT - end) as u64);
                &&& r is Ok ==> forall|a: int| #[trigger]
                    covers(final(map).ram_spec(), a) <==> covers(old(map).ram_spec(), a)
                        || carveout.contains_spec(a)
                &&& r is Ok ==> forall|a: int| #[trigger]
                    covers(final(map).reserved_spec(), a) <==> covers(old(map).reserved_spec(), a)
                        || carveout.contains_spec(a)
                &&& r is Err ==> (r == Err::<(), PlatformError>(ram_full())
                    && final(map).ram_spec().len() >= MAX_RAM_REGIONS) || (r == Err::<
                    (),
                    PlatformError,
                >(reserved_full()) && final(map).reserved_spec().len()
                    >= MAX_NORMALIZED_RESERVED_REGIONS)
            },
        },
{
    let compatible: [u8; 12] = [0x62u8, 0x72u8, 0x63u8, 0x6du8, 0x2cu8, 0x62u8, 0x63u8, 0x6du8, 0x32u8, 0x37u8, 0x31u8, 0x31u8];
    proof {
        assert(compatible@ =~= name_bcm2711());
    }
    if !fdt.is_compatible(0, &compatible) {
        return Ok(());
    }
    let ram = map.ram();
    if ram.len() == 0 {
        return Err(PlatformError::MissingMemory);
    }
    let first = *ram.get(0).unwrap();
    if first.start().value() != 0 {
        return Err(PlatformError::MissingMemory);
    }
    let end = first.end().value();
    if end >= BCM2711_LOW_MEMORY_LIMIT {
        return Ok(());
    }
    let carveout = match PhysRegion::from_bounds(
        PhysAddr::new(end),
        PhysAddr::new(BCM2711_LOW_MEMORY_LIMIT),
    ) {
        Ok(region) => region,
        Err(_) => return Err(PlatformError::InvalidMemory),
    };
    match map.insert_ram(carveout) {
        Err(error) => return Err(memory_error(CapacityKind::Ram, error)),
        Ok(()) => {},
    }
    match map.insert_reserved(carveout) {
        Err(error) => return Err(memory_error(CapacityKind::Reserved, error)),
        Ok(()) => {},
    }
    Ok(())
}

// ----- Reservations -----

/// The bytes of `/reserved-memory`.
pub open spec fn name_reserved_memory() -> Seq<u8> {
    seq![0x2fu8, 0x72u8, 0x65u8, 0x73u8, 0x65u8, 0x72u8, 0x76u8, 0x65u8, 0x64u8, 0x2du8, 0x6du8, 0x65u8, 0x6du8, 0x6fu8, 0x72u8, 0x79u8]
}

/// The bytes of `no-map`.
pub open spec fn name_no_map() -> Seq<u8> {
    seq![0x6eu8, 0x6fu8, 0x2du8, 0x6du8, 0x61u8, 0x70u8]
}

/// The bytes of `reusable`.
pub open spec fn name_reusable() -> Seq<u8> {
    seq![0x72u8, 0x65u8, 0x75u8, 0x73u8, 0x61u8, 0x62u8, 0x6cu8, 0x65u8]
}

/// The bytes of `no-map-fixup`.
pub open spec fn name_no_map_fixup() -> Seq<u8> {
    seq![0x6eu8, 0x6fu8, 0x2du8, 0x6du8, 0x61u8, 0x70u8, 0x2du8, 0x66u8, 0x69u8, 0x78u8, 0x75u8, 0x70u8]
}

/// The bytes of `size`.
pub open spec fn name_size() -> Seq<u8> {
    seq![0x73u8, 0x69u8, 0x7au8, 0x65u8]
}

/// The bytes of `alignment`.
pub open spec fn name_alignment() -> Seq<u8> {
    seq![0x61u8, 0x6cu8, 0x69u8, 0x67u8, 0x6eu8, 0x6du8, 0x65u8, 0x6eu8, 0x74u8]
}

/// The bytes of `alloc-ranges`.
pub open spec fn name_alloc_ranges() -> Seq<u8> {
    seq![0x61u8, 0x6cu8, 0x6cu8, 0x6fu8, 0x63u8, 0x2du8, 0x72u8, 0x61u8, 0x6eu8, 0x67u8, 0x65u8, 0x73u8]
}

/// The regions of the header's memory reservation block from entry `k` on;
/// an error at the first that is no region.
pub open spec fn header_reservations(rs: Seq<MemoryReservation>, k: int) -> Result<
    Seq<PhysRegion>,
    PlatformError,
>
    decreases rs.len() - k,
{
    if k < 0 || k >= rs.len() {
        Ok(Seq::empty())
    } else if rs[k].size == 0 || rs[k].address + rs[k].size > u64::MAX {
        Err(PlatformError::InvalidReservation)
    } else {
        after(
            seq![PhysRegion::spec_new(rs[k].address, rs[k].size)],
            header_reservations(rs, k + 1),
        )
    }
}

/// The regions that `alloc-ranges` value `v` bounds a dynamic reservation
/// to; unbounded without entries.
pub open spec fn alloc_range_regions(v: Seq<u8>, ac: int, sc: int) -> Result<
    Seq<PhysRegion>,
    PlatformError,
> {
    match array_entry(v, ac, sc, 0, 0) {
        ArrayEntry::BadLayout => Err(PlatformError::InvalidReservation),
        ArrayEntry::Missing => Err(PlatformError::UnboundedDynamicReservation),
        _ => reg_regions(v, ac, sc, 0, PlatformError::InvalidReservation),
    }
}

/// What a dynamic reservation (one without `reg`) of node `i` reserves: its
/// whole `alloc-ranges`, once its `size` is non-zero and any `alignment` a
/// power of two.
pub open spec fn dynamic_reservation(t: DeviceTree, i: int) -> Result<
    Seq<PhysRegion>,
    PlatformError,
> {
    match prop_of(t, i, name_size()) {
        None => Err(PlatformError::InvalidReservation),
        Some(sv) => match cells_int(sv) {
            None => Err(PlatformError::InvalidReservation),
            Some(size) => if size == 0 {
                Err(PlatformError::InvalidDynamicReservation)
            } else {
                let aligned: Result<(), PlatformError> = match prop_of(t, i, name_alignment()) {
                    None => Ok(()),
                    Some(av) => match cells_int(av) {
                        None => Err(PlatformError::InvalidReservation),
                        Some(a) => if is_pow2(a as int) {
                            Ok(())
                        } else {
                            Err(PlatformError::InvalidDynamicReservation)
                        },
                    },
                };
                match aligned {
                    Err(e) => Err(e),
                    Ok(()) => match prop_of(t, i, name_alloc_ranges()) {
                        None => Err(PlatformError::UnboundedDynamicReservation),
                        Some(rv) => alloc_range_regions(
                            rv,
                            bus_address_cells(t, i),
                            bus_size_cells(t, i),
                        ),
                    },
                }
            },
        },
    }
}

/// What reserved-memory child `i` reserves: nothing when it is not
/// operational; its `reg` regions, or else its dynamic placement's range.
pub open spec fn reserved_node_regions(t: DeviceTree, i: int) -> Result<
    Seq<PhysRegion>,
    PlatformError,
> {
    match status_value(t, i) {
        None => Err(PlatformError::InvalidReservation),
        Some(false) => Ok(Seq::empty()),
        Some(true) => if prop_of(t, i, name_no_map()) is Some && prop_of(t, i, name_reusable()) is Some {
            Err(PlatformError::ConflictingReservationAttributes)
        } else if prop_of(t, i, name_no_map_fixup()) is Some {
            Err(PlatformError::InvalidReservation)
        } else {
            match prop_of(t, i, name_reg()) {
                Some(v) => reg_regions(
                    v,
                    bus_address_cells(t, i),
                    bus_size_cells(t, i),
                    0,
                    PlatformError::InvalidReservation,
                ),
                None => dynamic_reservation(t, i),
            }
        },
    }
}

/// What the children of node `parent`, from node `i` on, reserve, in order.
pub open spec fn reserved_children_from(t: DeviceTree, parent: int, i: int) -> Result<
    Seq<PhysRegion>,
    PlatformError,
>
    decreases t.node_count() - i,
{
    if i < 1 || i >= t.node_count() {
        Ok(Seq::empty())
    } else {
        let here = if t.parent_of_node(i) != parent {
            Ok(Seq::empty())
        } else {
            reserved_node_regions(t, i)
        };
        match here {
            Err(e) => Err(e),
            Ok(rs) => after(rs, reserved_children_from(t, parent, i + 1)),
        }
    }
}

/// What `/reserved-memory`'s children reserve; nothing without the node.
pub open spec fn reserved_memory_regions(t: DeviceTree) -> Result<Seq<PhysRegion>, PlatformError> {
    match find_node_spec(t, name_reserved_memory()) {
        None => Ok(Seq::empty()),
        Some(p) => reserved_children_from(t, p, 1),
    }
}

/// Everything that must stay reserved: the header's reservations, the
/// reserved-memory nodes', the page-rounded live DTB and tvisor's image.
pub open spec fn reservation_regions(
    f: Fdt,
    dtb_address: PhysAddr,
    tvisor_image: PhysRegion,
) -> Result<Seq<PhysRegion>, PlatformError> {
    match header_reservations(f.reservations@, 0) {
        Err(e) => Err(e),
        Ok(h) => match reserved_memory_regions(f.tree) {
            Err(e) => Err(e),
            Ok(n) => {
                let s = dtb_address@ + f.size;
                if s > u64::MAX || s + 4095 > u64::MAX || (f.size == 0 && dtb_address@ % 4096 == 0) {
                    Err(PlatformError::InvalidDtbRegion)
                } else {
                    Ok(
                        h + n + seq![
                            PhysRegion::spec_new(
                                page_floor(dtb_address@ as int) as u64,
                                (page_ceil(s) - page_floor(dtb_address@ as int)) as u64,
                            ),
                            tvisor_image,
                        ],
                    )
                }
            },
        },
    }
}

/// Adds `region` as a permanent reservation, extending `done`.
fn reserve(map: &mut MemoryMap, region: PhysRegion) -> (r: Result<
    (),
    PlatformError,
>)
    requires
        old(map).wf(),
    ensures
        final(map).wf(),
        final(map).ram_spec() == old(map).ram_spec(),
        final(map).mmio_spec() == old(map).mmio_spec(),
        final(map).usable_spec() == old(map).usable_spec(),
        r is Err ==> r == Err::<(), PlatformError>(reserved_full())
            && final(map).reserved_spec().len() >= MAX_NORMALIZED_RESERVED_REGIONS,
        r is Ok ==> forall|a: int| #[trigger] covers(final(map).reserved_spec(), a)
            <==> covers(old(map).reserved_spec(), a) || region.contains_spec(a),
{
    match map.insert_reserved(region) {
        Err(error) => Err(memory_error(CapacityKind::Reserved, error)),
        Ok(()) => Ok(()),
    }
}

/// The reservation list went from `old` to `new` as adding the regions of
/// `wanted` does, or the list filled up, or `wanted` names the error.
pub open spec fn reserved_outcome(
    wanted: Result<Seq<PhysRegion>, PlatformError>,
    r: Result<(), PlatformError>,
    old: Seq<PhysRegion>,
    new: Seq<PhysRegion>,
) -> bool {
    &&& r == Err::<(), PlatformError>(reserved_full()) ==> new.len() >= MAX_NORMALIZED_RESERVED_REGIONS
    &&& match wanted {
        Err(e) => r == Err::<(), PlatformError>(e) || r == Err::<(), PlatformError>(reserved_full()),
        Ok(rs) => r == Err::<(), PlatformError>(reserved_full()) || (r is Ok && forall|a: int|
            #[trigger] covers(new, a) <==> covers(old, a) || covers(rs, a)),
    }
}

/// Reserves the regions of the entries of `reg`-style value `v` (fields of
/// `ac` and `sc` cells); `error` for the first unreadable entry.
fn reserve_entries(map: &mut MemoryMap, v: &[u8], ac: u32, sc: u32, error: PlatformError) -> (r:
    Result<(), PlatformError>)
    requires
        old(map).wf(),
        error != reserved_full(),
    ensures
        final(map).wf(),
        final(map).ram_spec() == old(map).ram_spec(),
        final(map).mmio_spec() == old(map).mmio_spec(),
        final(map).usable_spec() == old(map).usable_spec(),
        reserved_outcome(
            reg_regions(v@, ac as int, sc as int, 0, error),
            r,
            old(map).reserved_spec(),
            final(map).reserved_spec(),
        ),
{
    let ghost total = reg_regions(v@, ac as int, sc as int, 0, error);
    let ghost start = map.reserved_spec();
    let ghost mut done: Seq<PhysRegion> = Seq::empty();
    let mut e: usize = 0;
    let vlen = v.len();
    proof {
        lemma_no_covers_empty();
        match total {
            Ok(rest) => {
                assert(Seq::<PhysRegion>::empty() + rest =~= rest);
            },
            Err(_) => {},
        }
    }
    loop
        invariant
            map.wf(),
            map.ram_spec() == old(map).ram_spec(),
            map.mmio_spec() == old(map).mmio_spec(),
            map.usable_spec() == old(map).usable_spec(),
            start == old(map).reserved_spec(),
            vlen == v@.len(),
            e <= vlen,
            error != reserved_full(),
            total == reg_regions(v@, ac as int, sc as int, 0, error),
            total == after(done, reg_regions(v@, ac as int, sc as int, e as int, error)),
            forall|a: int| #[trigger] covers(map.reserved_spec(), a) <==> covers(start, a) || covers(done, a),
        decreases vlen - e,
    {
        match read_array_entry(v, ac, sc, 0, e) {
            ArrayEntry::Missing => {
                proof {
                    assert(done + Seq::<PhysRegion>::empty() =~= done);
                }
                return Ok(());
            },
            ArrayEntry::Found(start_address, size, _) => {
                let region = match PhysRegion::new(PhysAddr::new(start_address), size) {
                    Err(_) => return Err(error),
                    Ok(r) => r,
                };
                proof {
                    lemma_found_entry_in_bounds(v@, ac as int, sc as int, 0, e as int);
                }
                reserve(map, region)?;
                proof {
                    lemma_after_assoc(done, seq![region], reg_regions(v@, ac as int, sc as int, e + 1, error));
                    lemma_covers_concat(done, seq![region]);
                    lemma_covers_single(region);
                    done = done + seq![region];
                }
                e += 1;
            },
            _ => return Err(error),
        }
    }
}

/// Reserves what reserved-memory child `node` reserves.
fn reserve_node(fdt: &DeviceTree, node: usize, map: &mut MemoryMap) -> (r: Result<(), PlatformError>)
    requires
        fdt.wf(),
        node < fdt.node_count(),
        old(map).wf(),
    ensures
        final(map).wf(),
        final(map).ram_spec() == old(map).ram_spec(),
        final(map).mmio_spec() == old(map).mmio_spec(),
        final(map).usable_spec() == old(map).usable_spec(),
        reserved_outcome(
            reserved_node_regions(*fdt, node as int),
            r,
            old(map).reserved_spec(),
            final(map).reserved_spec(),
        ),
{
    let no_map: [u8; 6] = [0x6eu8, 0x6fu8, 0x2du8, 0x6du8, 0x61u8, 0x70u8];
    let reusable: [u8; 8] = [0x72u8, 0x65u8, 0x75u8, 0x73u8, 0x61u8, 0x62u8, 0x6cu8, 0x65u8];
    let no_map_fixup: [u8; 12] = [0x6eu8, 0x6fu8, 0x2du8, 0x6du8, 0x61u8, 0x70u8, 0x2du8, 0x66u8, 0x69u8, 0x78u8, 0x75u8, 0x70u8];
    let reg_name: [u8; 3] = [0x72u8, 0x65u8, 0x67u8];
    let size_name: [u8; 4] = [0x73u8, 0x69u8, 0x7au8, 0x65u8];
    let alignment_name: [u8; 9] = [0x61u8, 0x6cu8, 0x69u8, 0x67u8, 0x6eu8, 0x6du8, 0x65u8, 0x6eu8, 0x74u8];
    let ranges_name: [u8; 12] = [0x61u8, 0x6cu8, 0x6cu8, 0x6fu8, 0x63u8, 0x2du8, 0x72u8, 0x61u8, 0x6eu8, 0x67u8, 0x65u8, 0x73u8];
    proof {
        assert(no_map@ =~= name_no_map());
        assert(reusable@ =~= name_reusable());
        assert(no_map_fixup@ =~= name_no_map_fixup());
        assert(reg_name@ =~= name_reg());
        assert(size_name@ =~= name_size());
        assert(alignment_name@ =~= name_alignment());
        assert(ranges_name@ =~= name_alloc_ranges());
        lemma_no_covers_empty();
    }
    match fdt.status_value(node) {
        None => return Err(PlatformError::InvalidReservation),
        Some(false) => return Ok(()),
        Some(true) => {},
    }
    if fdt.has_property(node, &no_map) && fdt.has_property(node, &reusable) {
        return Err(PlatformError::ConflictingReservationAttributes);
    }
    if fdt.has_property(node, &no_map_fixup) {
        return Err(PlatformError::InvalidReservation);
    }
    let (ac, sc) = fdt.bus_cells(node);
    if let Some(v) = fdt.property_value(node, &reg_name) {
        return reserve_entries(map, v, ac, sc, PlatformError::InvalidReservation);
    }
    let size_value = match fdt.property_value(node, &size_name) {
        None => return Err(PlatformError::InvalidReservation),
        Some(v) => v,
    };
    let size = match read_cells_int(size_value) {
        None => return Err(PlatformError::InvalidReservation),
        Some(s) => s,
    };
    if size == 0 {
        return Err(PlatformError::InvalidDynamicReservation);
    }
    if let Some(av) = fdt.property_value(node, &alignment_name) {
        match read_cells_int(av) {
            None => return Err(PlatformError::InvalidReservation),
            Some(a) => if !u64_is_power_of_two(a) {
                return Err(PlatformError::InvalidDynamicReservation);
            },
        }
    }
    let rv = match fdt.property_value(node, &ranges_name) {
        None => return Err(PlatformError::UnboundedDynamicReservation),
        Some(v) => v,
    };
    match read_array_entry(rv, ac, sc, 0, 0) {
        ArrayEntry::BadLayout => return Err(PlatformError::InvalidReservation),
        ArrayEntry::Missing => return Err(PlatformError::UnboundedDynamicReservation),
        _ => {},
    }
    reserve_entries(map, rv, ac, sc, PlatformError::InvalidReservation)
}

/// Reserves the regions of the header's memory reservation block.
fn reserve_header_block(rs: &Vec<MemoryReservation>, map: &mut MemoryMap) -> (r: Result<
    (),
    PlatformError,
>)
    requires
        old(map).wf(),
    ensures
        final(map).wf(),
        final(map).ram_spec() == old(map).ram_spec(),
        final(map).mmio_spec() == old(map).mmio_spec(),
        final(map).usable_spec() == old(map).usable_spec(),
        reserved_outcome(
            header_reservations(rs@, 0),
            r,
            old(map).reserved_spec(),
            final(map).reserved_spec(),
        ),
{
    let ghost start = map.reserved_spec();
    let ghost mut done: Seq<PhysRegion> = Seq::empty();
    let mut k: usize = 0;
    proof {
        lemma_no_covers_empty();
        match header_reservations(rs@, 0) {
            Ok(rest) => {
                assert(Seq::<PhysRegion>::empty() + rest =~= rest);
            },
            Err(_) => {},
        }
    }
    while k < rs.len()
        invariant
            map.wf(),
            map.ram_spec() == old(map).ram_spec(),
            map.mmio_spec() == old(map).mmio_spec(),
            map.usable_spec() == old(map).usable_spec(),
            start == old(map).reserved_spec(),
            k <= rs@.len(),
            header_reservations(rs@, 0) == after(done, header_reservations(rs@, k as int)),
            forall|a: int| #[trigger] covers(map.reserved_spec(), a) <==> covers(start, a) || covers(done, a),
        decreases rs@.len() - k,
    {
        let entry = rs[k];
        let region = match PhysRegion::new(PhysAddr::new(entry.address), entry.size) {
            Err(_) => return Err(PlatformError::InvalidReservation),
            Ok(r) => r,
        };
        reserve(map, region)?;
        proof {
            lemma_after_assoc(done, seq![region], header_reservations(rs@, k + 1));
            lemma_covers_concat(done, seq![region]);
            lemma_covers_single(region);
            done = done + seq![region];
        }
        k += 1;
    }
    proof {
        assert(done + Seq::<PhysRegion>::empty() =~= done);
    }
    Ok(())
}

/// Reserves what the enabled children of `/reserved-memory` reserve.
fn reserve_memory_nodes(tree: &DeviceTree, map: &mut MemoryMap) -> (r: Result<(), PlatformError>)
    requires
        tree.wf(),
        old(map).wf(),
    ensures
        final(map).wf(),
        final(map).ram_spec() == old(map).ram_spec(),
        final(map).mmio_spec() == old(map).mmio_spec(),
        final(map).usable_spec() == old(map).usable_spec(),
        reserved_outcome(
            reserved_memory_regions(*tree),
            r,
            old(map).reserved_spec(),
            final(map).reserved_spec(),
        ),
{
    let reserved_path: [u8; 16] = [0x2fu8, 0x72u8, 0x65u8, 0x73u8, 0x65u8, 0x72u8, 0x76u8, 0x65u8, 0x64u8, 0x2du8, 0x6du8, 0x65u8, 0x6du8, 0x6fu8, 0x72u8, 0x79u8];
    proof {
        assert(reserved_path@ =~= name_reserved_memory());
        lemma_no_covers_empty();
    }
    let parent = match tree.find_node(&reserved_path) {
        None => return Ok(()),
        Some(p) => p,
    };
    let ghost start = map.reserved_spec();
    let ghost mut done: Seq<PhysRegion> = Seq::empty();
    let n = tree.len();
    let mut i: usize = 1;
    proof {
        match reserved_children_from(*tree, parent as int, 1) {
            Ok(rest) => {
                assert(Seq::<PhysRegion>::empty() + rest =~= rest);
            },
            Err(_) => {},
        }
    }
    while i < n
        invariant
            tree.wf(),
            map.wf(),
            n == tree.node_count(),
            1 <= i <= n,
            map.ram_spec() == old(map).ram_spec(),
            map.mmio_spec() == old(map).mmio_spec(),
            map.usable_spec() == old(map).usable_spec(),
            start == old(map).reserved_spec(),
            reserved_memory_regions(*tree) == reserved_children_from(*tree, parent as int, 1),
            reserved_children_from(*tree, parent as int, 1) == after(
                done,
                reserved_children_from(*tree, parent as int, i as int),
            ),
            forall|a: int| #[trigger] covers(map.reserved_spec(), a) <==> covers(start, a) || covers(done, a),
        decreases n - i,
    {
        if tree.parent(i) == parent {
            reserve_node(tree, i, map)?;
            proof {
                let rs = reserved_node_regions(*tree, i as int)->Ok_0;
                lemma_after_assoc(done, rs, reserved_children_from(*tree, parent as int, i + 1));
                lemma_covers_concat(done, rs);
                done = done + rs;
            }
        } else {
            proof {
                assert(done + Seq::<PhysRegion>::empty() =~= done);
                lemma_after_assoc(done, Seq::empty(), reserved_children_from(*tree, parent as int, i + 1));
            }
        }
        i += 1;
    }
    proof {
        assert(done + Seq::<PhysRegion>::empty() =~= done);
    }
    Ok(())
}

/// Adds every permanent reservation: the entries of the DTB header's memory
/// reservation block, what the enabled children of `/reserved-memory`
/// reserve (fixed `reg` regions, or a dynamic reservation's whole
/// `alloc-ranges`), the pages of the live DTB at `dtb_address`, and
/// tvisor's own image.
pub fn discover_reservations(
    f: &Fdt,
    dtb_address: PhysAddr,
    tvisor_image: PhysRegion,
    map: &mut MemoryMap,
) -> (r: Result<(), PlatformError>)
    requires
        f.tree.wf(),
        old(map).wf(),
    ensures
        final(map).wf(),
        final(map).ram_spec() == old(map).ram_spec(),
        final(map).mmio_spec() == old(map).mmio_spec(),
        final(map).usable_spec() == old(map).usable_spec(),
        reserved_outcome(
            reservation_regions(*f, dtb_address, tvisor_image),
            r,
            old(map).reserved_spec(),
            final(map).reserved_spec(),
        ),
{
    let ghost m0 = map.reserved_spec();
    reserve_header_block(&f.reservations, map)?;
    let ghost h = header_reservations(f.reservations@, 0)->Ok_0;
    let ghost m1 = map.reserved_spec();
    reserve_memory_nodes(&f.tree, map)?;
    let ghost nodes = reserved_memory_regions(f.tree)->Ok_0;
    let ghost m2 = map.reserved_spec();
    let dtb_region = match page_rounded_region(dtb_address, f.size as u64) {
        Err(_) => return Err(PlatformError::InvalidDtbRegion),
        Ok(region) => region,
    };
    reserve(map, dtb_region)?;
    reserve(map, tvisor_image)?;
    proof {
        let tail = seq![dtb_region, tvisor_image];
        assert(tail =~= seq![dtb_region] + seq![tvisor_image]);
        lemma_covers_concat(h, nodes);
        lemma_covers_concat(h + nodes, tail);
        lemma_covers_concat(seq![dtb_region], seq![tvisor_image]);
        lemma_covers_single(dtb_region);
        lemma_covers_single(tvisor_image);
        assert(reservation_regions(*f, dtb_address, tvisor_image) == Ok::<
            Seq<PhysRegion>,
            PlatformError,
        >(h + nodes + tail));
    }
    Ok(())
}

// ----- The whole map -----

/// `rs` covers every address below `end`, and not `end` itself: the RAM
/// that starts at address zero ends at `end`.
pub open spec fn zero_run(rs: Seq<PhysRegion>, end: int) -> bool {
    &&& 0 < end
    &&& forall|a: int| 0 <= a < end ==> #[trigger] covers(rs, a)
    &&& !covers(rs, end)
}

/// Address `a` lies in the BCM2711 firmware carve-out: on a BCM2711, between
/// the end of the RAM at zero that `rs` describes and the first gigabyte.
pub open spec fn in_carveout(t: DeviceTree, rs: Seq<PhysRegion>, a: int) -> bool {
    &&& compatible_with(t, 0, name_bcm2711())
    &&& exists|end: int| zero_run(rs, end) && end <= a < BCM2711_LOW_MEMORY_LIMIT
}

/// In a normalized list that covers what `rs` covers, the region at zero
/// ends where the run of `rs` from zero does.
proof fn lemma_low_end(l: Seq<PhysRegion>, rs: Seq<PhysRegion>)
    requires
        sorted_merged(l),
        forall|a: int| #[trigger] covers(l, a) <==> covers(rs, a),
    ensures
        low_ram_end(l) matches Some(end) ==> zero_run(rs, end),
        low_ram_end(l) is None ==> !covers(rs, 0),
{
    if l.len() > 0 && l[0].start_spec() == 0 {
        let end = l[0].end_spec();
        assert forall|a: int| 0 <= a < end implies #[trigger] covers(rs, a) by {
            assert(l[0].contains_spec(a));
            assert(covers(l, a));
        }
        if covers(l, end) {
            let i = choose|i: int| 0 <= i < l.len() && (#[trigger] l[i]).contains_spec(end);
            if i > 0 {
                assert(l[0].end_spec() < l[i].start_spec());
            }
        }
        assert(l[0].wf());
    } else if covers(l, 0) {
        let i = choose|i: int| 0 <= i < l.len() && (#[trigger] l[i]).contains_spec(0);
        assert(l[0].wf());
        if i > 0 {
            assert(l[0].end_spec() < l[i].start_spec());
        }
    }
}

/// The run of RAM from zero has a single end.
proof fn lemma_zero_run_unique(rs: Seq<PhysRegion>, e1: int, e2: int)
    requires
        zero_run(rs, e1),
        zero_run(rs, e2),
    ensures
        e1 == e2,
{
    if e1 < e2 {
        assert(covers(rs, e1));
    } else if e2 < e1 {
        assert(covers(rs, e2));
    }
}

/// After the carve-out step, RAM and reservations cover what the memory
/// nodes and the carve-out give.
proof fn lemma_carveout(
    t: DeviceTree,
    rs: Seq<PhysRegion>,
    ram1: Seq<PhysRegion>,
    res1: Seq<PhysRegion>,
    ram2: Seq<PhysRegion>,
    res2: Seq<PhysRegion>,
)
    requires
        sorted_merged(ram1),
        forall|a: int| #[trigger] covers(ram1, a) <==> covers(rs, a),
        forall|a: int| !#[trigger] covers(res1, a),
        !compatible_with(t, 0, name_bcm2711()) ==> ram2 == ram1 && res2 == res1,
        compatible_with(t, 0, name_bcm2711()) ==> match low_ram_end(ram1) {
            None => false,
            Some(end) => if end >= BCM2711_LOW_MEMORY_LIMIT {
                ram2 == ram1 && res2 == res1
            } else {
                let carveout = PhysRegion::spec_new(end as u64, (BCM2711_LOW_MEMORY_LIMIT - end) as u64);
                &&& forall|a: int| #[trigger] covers(ram2, a) <==> covers(ram1, a) || carveout.contains_spec(a)
                &&& forall|a: int| #[trigger] covers(res2, a) <==> covers(res1, a) || carveout.contains_spec(a)
            },
        },
    ensures
        forall|a: int| #[trigger] covers(ram2, a) <==> covers(rs, a) || in_carveout(t, rs, a),
        forall|a: int| #[trigger] covers(res2, a) <==> in_carveout(t, rs, a),
{
    lemma_low_end(ram1, rs);
    if compatible_with(t, 0, name_bcm2711()) {
        let end = low_ram_end(ram1)->Some_0;
        assert(ram1[0].wf());
        if end < BCM2711_LOW_MEMORY_LIMIT {
            let carveout = PhysRegion::spec_new(end as u64, (BCM2711_LOW_MEMORY_LIMIT - end) as u64);
            PhysRegion::lemma_spec_new(end as u64, (BCM2711_LOW_MEMORY_LIMIT - end) as u64);
            assert forall|a: int| #[trigger] covers(ram2, a) <==> covers(rs, a) || in_carveout(t, rs, a) by {
                if in_carveout(t, rs, a) {
                    let e = choose|e: int| zero_run(rs, e) && e <= a < BCM2711_LOW_MEMORY_LIMIT;
                    lemma_zero_run_unique(rs, e, end);
                }
                if carveout.contains_spec(a) {
                    assert(zero_run(rs, end) && end <= a < BCM2711_LOW_MEMORY_LIMIT);
                }
            }
            assert forall|a: int| #[trigger] covers(res2, a) <==> in_carveout(t, rs, a) by {
                if in_carveout(t, rs, a) {
                    let e = choose|e: int| zero_run(rs, e) && e <= a < BCM2711_LOW_MEMORY_LIMIT;
                    lemma_zero_run_unique(rs, e, end);
                }
                if carveout.contains_spec(a) {
                    assert(zero_run(rs, end) && end <= a < BCM2711_LOW_MEMORY_LIMIT);
                }
            }
        } else {
            assert forall|a: int| !in_carveout(t, rs, a) by {
                if in_carveout(t, rs, a) {
                    let e = choose|e: int| zero_run(rs, e) && e <= a < BCM2711_LOW_MEMORY_LIMIT;
                    lemma_zero_run_unique(rs, e, end);
                }
            }
        }
    }
}

/// The device tree's own description of RAM, reservations or MMIO is
/// refused with `e`.
pub open spec fn described_error(f: Fdt, dtb_address: PhysAddr, tvisor_image: PhysRegion, e: PlatformError) -> bool {
    ||| ram_regions_from(f.tree, 1) == Err::<Seq<PhysRegion>, PlatformError>(e)
    ||| reservation_regions(f, dtb_address, tvisor_image) == Err::<Seq<PhysRegion>, PlatformError>(e)
    ||| mmio_regions(f.tree) == Err::<Seq<PhysRegion>, PlatformError>(e)
}

/// Builds the normalized memory map of the DTB `f`, which is loaded at
/// `dtb_address`, for tvisor's image `tvisor_image`, into `destination`:
/// the memory nodes' RAM, the BCM2711 firmware carve-out, every permanent
/// reservation, the `/soc` MMIO windows, then the usable RAM.
#[verifier::spinoff_prover]
#[verifier::rlimit(60)]
pub fn discover_memory_map(
    f: &Fdt,
    dtb_address: PhysAddr,
    tvisor_image: PhysRegion,
    destination: &mut MemoryMap,
) -> (r: Result<(), PlatformError>)
    requires
        f.tree.wf(),
    ensures
        final(destination).wf(),
        ram_regions_from(f.tree, 1) matches Err(e) ==> r == Err::<(), PlatformError>(e) || r == Err::<
            (),
            PlatformError,
        >(ram_full()),
        ram_regions_from(f.tree, 1) matches Ok(rs) && rs.len() == 0 ==> r == Err::<(), PlatformError>(
            PlatformError::MissingMemory,
        ),
        r == Err::<(), PlatformError>(ram_full()) ==> final(destination).ram_spec().len()
            >= MAX_RAM_REGIONS || described_error(*f, dtb_address, tvisor_image, ram_full()),
        r == Err::<(), PlatformError>(reserved_full()) ==> final(destination).reserved_spec().len()
            >= MAX_NORMALIZED_RESERVED_REGIONS || described_error(
            *f,
            dtb_address,
            tvisor_image,
            reserved_full(),
        ),
        r == Err::<(), PlatformError>(mmio_full()) ==> final(destination).mmio_spec().len()
            >= MAX_MMIO_REGIONS || described_error(*f, dtb_address, tvisor_image, mmio_full()),
        r matches Err(PlatformError::MemoryMap(e)) ==> described_error(
            *f,
            dtb_address,
            tvisor_image,
            PlatformError::MemoryMap(e),
        ) || has_conflict(final(destination).ram_spec(), final(destination).mmio_spec()) || (e
            == MemoryMapError::Capacity { capacity: MAX_USABLE_RAM_REGIONS } && usable_of(
            final(destination).ram_spec(),
            final(destination).reserved_spec(),
        ).len() > MAX_USABLE_RAM_REGIONS),
        r == Err::<(), PlatformError>(PlatformError::MissingMemory) ==> (ram_regions_from(f.tree, 1) matches Ok(
            rs,
        ) && rs.len() == 0) || (compatible_with(f.tree, 0, name_bcm2711()) && low_ram_end(
            final(destination).ram_spec(),
        ) is None) || described_error(*f, dtb_address, tvisor_image, PlatformError::MissingMemory),
        r matches Err(e) ==> e == ram_full() || e == reserved_full() || e == mmio_full() || e
            == PlatformError::MissingMemory || e is MemoryMap || described_error(
            *f,
            dtb_address,
            tvisor_image,
            e,
        ),
        r is Ok ==> {
            &&& ram_regions_from(f.tree, 1) matches Ok(rs)
            &&& reservation_regions(*f, dtb_address, tvisor_image) matches Ok(qs)
            &&& mmio_regions(f.tree) matches Ok(ws)
            &&& rs.len() > 0
            &&& forall|a: int| #[trigger]
                covers(final(destination).ram_spec(), a) <==> covers(rs, a) || in_carveout(f.tree, rs, a)
            &&& forall|a: int| #[trigger]
                covers(final(destination).reserved_spec(), a) <==> covers(qs, a) || in_carveout(
                    f.tree,
                    rs,
                    a,
                )
            &&& forall|a: int| #[trigger] covers(final(destination).mmio_spec(), a) <==> covers(ws, a)
            &&& sorted_merged(final(destination).usable_spec())
            &&& forall|a: int| #[trigger]
                covers(final(destination).usable_spec(), a) <==> covers(
                    final(destination).ram_spec(),
                    a,
                ) && !covers(final(destination).reserved_spec(), a)
        },
{
    destination.clear();
    proof {
        lemma_no_covers_empty();
    }
    discover_ram(&f.tree, destination)?;
    let ghost rs = ram_regions_from(f.tree, 1)->Ok_0;
    let ghost ram1 = destination.ram_spec();
    let ghost res1 = destination.reserved_spec();
    discover_bcm2711_firmware_carveout(&f.tree, destination)?;
    proof {
        lemma_carveout(f.tree, rs, ram1, res1, destination.ram_spec(), destination.reserved_spec());
    }
    discover_reservations(f, dtb_address, tvisor_image, destination)?;
    discover_mmio(&f.tree, destination)?;
    match destination.finalize() {
        Err(error) => Err(PlatformError::MemoryMap(error)),
        Ok(()) => Ok(()),
    }
}

} // verus!
