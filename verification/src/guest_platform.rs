//! Static guest-visible IPA layout of the tvisor virtual platform.
use vstd::prelude::*;
use crate::stage2_translation::IPA_BITS;

verus! {

pub const MIB: u64 = 1024 * 1024;
pub const DEFAULT_GUEST_RAM_SIZE: u64 = 512 * MIB;

#[derive(Debug, Clone, Copy, PartialEq, Eq, Structural)]
pub struct IpaRegion {
    start: u64,
    size: u64,
}

impl IpaRegion {
    pub closed spec fn start_spec(self) -> u64 {
        self.start
    }

    pub closed spec fn size_spec(self) -> u64 {
        self.size
    }

    pub fn new(start: u64, size: u64) -> (r: Self)
        ensures
            r.start_spec() == start,
            r.size_spec() == size,
    {
        IpaRegion { start, size }
    }

    pub fn start(self) -> (r: u64)
        ensures
            r == self.start_spec(),
    {
        self.start
    }

    pub fn size(self) -> (r: u64)
        ensures
            r == self.size_spec(),
    {
        self.size
    }

    pub fn end(self) -> (r: Option<u64>)
        ensures
            r == (if self.start_spec() + self.size_spec() <= u64::MAX {
                Some((self.start_spec() + self.size_spec()) as u64)
            } else {
                None::<u64>
            }),
    {
        self.start.checked_add(self.size)
    }

    /// Ranges share an address; a range whose end overflows overlaps
    /// everything.
    pub fn overlaps(self, other: Self) -> (r: bool)
        ensures
            r == (if self.start_spec() + self.size_spec() <= u64::MAX && other.start_spec()
                + other.size_spec() <= u64::MAX {
                self.start_spec() < other.start_spec() + other.size_spec() && other.start_spec()
                    < self.start_spec() + self.size_spec()
            } else {
                true
            }),
    {
        match (self.end(), other.end()) {
            (Some(end), Some(other_end)) => self.start < other_end && other.start < end,
            _ => true,
        }
    }
}

/// Complete RAM presented to the initial single-vCPU guest.
pub fn guest_ram() -> (r: IpaRegion)
    ensures
        r.start_spec() == 0x4000_0000,
        r.size_spec() == DEFAULT_GUEST_RAM_SIZE,
{
    IpaRegion::new(0x4000_0000, DEFAULT_GUEST_RAM_SIZE)
}

/// Guest-visible GICv2 virtual CPU interface, including GICV_DIR at +0x1000.
pub fn guest_gicv() -> (r: IpaRegion)
    ensures
        r.start_spec() == 0x0801_0000,
        r.size_spec() == 0x2000,
{
    IpaRegion::new(0x0801_0000, 0x2000)
}

/// Trapped, virtual PL011 UART interface.
pub fn guest_pl011() -> (r: IpaRegion)
    ensures
        r.start_spec() == 0x0900_0000,
        r.size_spec() == 0x1000,
{
    IpaRegion::new(0x0900_0000, 0x1000)
}

/// Trapped, virtual GICv2 distributor.
pub fn guest_gicd() -> (r: IpaRegion)
    ensures
        r.start_spec() == 0x0800_0000,
        r.size_spec() == 0x1000,
{
    IpaRegion::new(0x0800_0000, 0x1000)
}

/// The device windows mapped or trapped for the guest.
pub fn guest_device_regions() -> (r: [IpaRegion; 2])
    ensures
        r@[0].start_spec() == 0x0801_0000 && r@[0].size_spec() == 0x2000,
        r@[1].start_spec() == 0x0900_0000 && r@[1].size_spec() == 0x1000,
{
    [guest_gicv(), guest_pl011()]
}

#[derive(Debug, Clone, Copy, PartialEq, Eq, Structural)]
pub enum GuestPlatformError {
    EmptyRegion,
    UnalignedRegion,
    AddressOverflow,
    IpaOutOfRange,
    OverlappingRegions,
    InvalidDeviceSize,
}

/// The region is non-empty, page aligned, and ends inside the IPA space.
pub open spec fn valid_guest_region(r: IpaRegion) -> bool {
    &&& r.size_spec() != 0
    &&& r.start_spec() % 4096 == 0
    &&& r.size_spec() % 4096 == 0
    &&& r.start_spec() + r.size_spec() <= u64::MAX
    &&& r.start_spec() + r.size_spec() - 1 <= 0x7f_ffff_ffff
}

/// Validates the complete static guest IPA layout: every region is a valid
/// page-aligned window of the 39-bit IPA space, no two overlap, and the
/// device windows have their architectural sizes.
pub fn validate() -> (r: Result<(), GuestPlatformError>)
    ensures
        r is Ok,
{
    let regions = [guest_ram(), guest_gicv(), guest_pl011()];
    assert(1u64 << 39u8 == 0x80_0000_0000) by {
        crate::page::lemma_bit_constants();
    }
    let max_ipa: u64 = (1u64 << IPA_BITS) - 1;
    let mut index: usize = 0;
    while index < 3
        invariant
            index <= 3,
            max_ipa == 0x7f_ffff_ffff,
            regions@.len() == 3,
            regions@[0].start_spec() == 0x4000_0000 && regions@[0].size_spec() == DEFAULT_GUEST_RAM_SIZE,
            regions@[1].start_spec() == 0x0801_0000 && regions@[1].size_spec() == 0x2000,
            regions@[2].start_spec() == 0x0900_0000 && regions@[2].size_spec() == 0x1000,
        decreases 3 - index,
    {
        let region = regions[index];
        if region.size == 0 {
            return Err(GuestPlatformError::EmptyRegion);
        }
        let (start, size) = (region.start, region.size);
        assert(start & 0xfff == 0 && size & 0xfff == 0) by (bit_vector)
            requires
                (start == 0x4000_0000 && size == 0x2000_0000) || (start == 0x0801_0000 && size
                    == 0x2000) || (start == 0x0900_0000 && size == 0x1000),
        ;
        if start & 0xfff != 0 || size & 0xfff != 0 {
            return Err(GuestPlatformError::UnalignedRegion);
        }
        let end = match region.end() {
            Some(e) => e,
            None => {
                return Err(GuestPlatformError::AddressOverflow);
            },
        };
        if end - 1 > max_ipa {
            return Err(GuestPlatformError::IpaOutOfRange);
        }
        let mut other = index + 1;
        while other < 3
            invariant
                index < other <= 3,
                regions@.len() == 3,
                regions@[0].start_spec() == 0x4000_0000 && regions@[0].size_spec() == DEFAULT_GUEST_RAM_SIZE,
                regions@[1].start_spec() == 0x0801_0000 && regions@[1].size_spec() == 0x2000,
                regions@[2].start_spec() == 0x0900_0000 && regions@[2].size_spec() == 0x1000,
                region == regions@[index as int],
            decreases 3 - other,
        {
            if region.overlaps(regions[other]) {
                return Err(GuestPlatformError::OverlappingRegions);
            }
            other += 1;
        }
        index += 1;
    }
    if guest_gicv().size != 0x2000 || guest_pl011().size != 0x1000 {
        return Err(GuestPlatformError::InvalidDeviceSize);
    }
    Ok(())
}

} // verus!
