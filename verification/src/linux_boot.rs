//! Linux arm64 `Image` header parsing and guest-IPA boot-layout validation.
//!
//! The Image header, not a fixed address, decides the kernel entry point and
//! the extent the kernel occupies.
use vstd::prelude::*;
use vstd::string::StringExecFns;

verus! {

pub const LINUX_GUEST_RAM_IPA: u64 = 0x4000_0000;
pub const LINUX_GUEST_RAM_SIZE: u64 = 0x2000_0000;
pub const LINUX_IMAGE_BASE_ALIGNMENT: u64 = 0x20_0000;
pub const LINUX_DTB_CAPACITY: u64 = 0x20_0000;
pub const LINUX_IMAGE_HEADER_SIZE: usize = 64;
pub const LINUX_IMAGE_MAGIC: u32 = 0x644d_5241;

#[derive(Debug, Clone, Copy, PartialEq, Eq, Structural)]
pub enum LinuxImageError {
    HeaderTooSmall,
    BadMagic,
    LegacyImageSize,
    ImageTooLarge,
    BigEndianImage,
}

/// The Image header fields that affect loading and entry.
#[derive(Debug, Clone, Copy, PartialEq, Eq, Structural)]
pub struct LinuxImageHeader {
    pub text_offset: u64,
    pub image_size: u64,
    pub flags: u64,
}

/// The little-endian 32-bit value at `off`.
pub open spec fn le_u32(b: Seq<u8>, off: int) -> u32 {
    (b[off] as u32) | (b[off + 1] as u32) << 8u32 | (b[off + 2] as u32) << 16u32 | (b[off + 3]
        as u32) << 24u32
}

/// The little-endian 64-bit value at `off`.
pub open spec fn le_u64(b: Seq<u8>, off: int) -> u64 {
    (b[off] as u64) | (b[off + 1] as u64) << 8u64 | (b[off + 2] as u64) << 16u64 | (b[off + 3]
        as u64) << 24u64 | (b[off + 4] as u64) << 32u64 | (b[off + 5] as u64) << 40u64 | (b[off
        + 6] as u64) << 48u64 | (b[off + 7] as u64) << 56u64
}

fn read_le_u32(b: &[u8], off: usize) -> (r: u32)
    requires
        off + 4 <= b@.len(),
    ensures
        r == le_u32(b@, off as int),
{
    (b[off] as u32) | (b[off + 1] as u32) << 8u32 | (b[off + 2] as u32) << 16u32 | (b[off + 3]
        as u32) << 24u32
}

fn read_le_u64(b: &[u8], off: usize) -> (r: u64)
    requires
        off + 8 <= b@.len(),
    ensures
        r == le_u64(b@, off as int),
{
    (b[off] as u64) | (b[off + 1] as u64) << 8u64 | (b[off + 2] as u64) << 16u64 | (b[off + 3]
        as u64) << 24u64 | (b[off + 4] as u64) << 32u64 | (b[off + 5] as u64) << 40u64 | (b[off
        + 6] as u64) << 48u64 | (b[off + 7] as u64) << 56u64
}

/// The header that `image` declares, or why it is unusable.
pub open spec fn parse_spec(image: Seq<u8>) -> Result<LinuxImageHeader, LinuxImageError> {
    if image.len() < LINUX_IMAGE_HEADER_SIZE {
        Err(LinuxImageError::HeaderTooSmall)
    } else if le_u32(image, 56) != LINUX_IMAGE_MAGIC {
        Err(LinuxImageError::BadMagic)
    } else if le_u64(image, 24) & 1 != 0 {
        Err(LinuxImageError::BigEndianImage)
    } else if le_u64(image, 16) == 0 {
        Err(LinuxImageError::LegacyImageSize)
    } else if le_u64(image, 16) > image.len() {
        Err(LinuxImageError::ImageTooLarge)
    } else {
        Ok(
            LinuxImageHeader {
                text_offset: le_u64(image, 8),
                image_size: le_u64(image, 16),
                flags: le_u64(image, 24),
            },
        )
    }
}

impl LinuxImageHeader {
    pub fn parse(image: &[u8]) -> (r: Result<Self, LinuxImageError>)
        ensures
            r == parse_spec(image@),
    {
        if image.len() < LINUX_IMAGE_HEADER_SIZE {
            return Err(LinuxImageError::HeaderTooSmall);
        }
        let magic = read_le_u32(image, 56);
        if magic != LINUX_IMAGE_MAGIC {
            return Err(LinuxImageError::BadMagic);
        }
        let text_offset = read_le_u64(image, 8);
        let image_size = read_le_u64(image, 16);
        let flags = read_le_u64(image, 24);
        if flags & 1 != 0 {
            return Err(LinuxImageError::BigEndianImage);
        }
        if image_size == 0 {
            return Err(LinuxImageError::LegacyImageSize);
        }
        if image_size > image.len() as u64 {
            return Err(LinuxImageError::ImageTooLarge);
        }
        Ok(Self { text_offset, image_size, flags })
    }

    /// The kernel page size field, flags bits [2:1].
    pub fn page_size_encoding(self) -> (r: u8)
        ensures
            r as u64 == (self.flags >> 1u64) & 3,
    {
        let f = self.flags;
        assert((f >> 1u64) & 3 <= 3) by {
            crate::page::lemma_mask_bounds();
        }
        ((self.flags >> 1) & 0x3) as u8
    }

    /// The kernel must be placed below 48 bits (flags bit 3).
    pub fn requires_48bit_placement(self) -> (r: bool)
        ensures
            r == (self.flags & 8 != 0),
    {
        assert(1u64 << 3u64 == 8) by {
            crate::page::lemma_bit_constants();
        }
        self.flags & (1u64 << 3u64) != 0
    }
}

#[derive(Debug, Clone, Copy, PartialEq, Eq, Structural)]
pub enum LinuxBootLayoutError {
    Image(LinuxImageError),
    InvalidRam,
    ImageTooLarge,
    DtbTooLarge,
    InitrdTooLarge,
    AddressOverflow,
}

impl From<LinuxImageError> for LinuxBootLayoutError {
    fn from(error: LinuxImageError) -> (r: Self) {
        LinuxBootLayoutError::Image(error)
    }
}

impl vstd::std_specs::convert::FromSpecImpl<LinuxImageError> for LinuxBootLayoutError {
    open spec fn obeys_from_spec() -> bool {
        true
    }

    open spec fn from_spec(v: LinuxImageError) -> LinuxBootLayoutError {
        LinuxBootLayoutError::Image(v)
    }
}

/// `value` rounded up to a multiple of `alignment`.
pub open spec fn round_up_to(value: int, alignment: int) -> int {
    if value % alignment == 0 {
        value
    } else {
        value + (alignment - value % alignment)
    }
}

/// The placements of a standard arm64 Linux boot in guest RAM
/// `[ram_ipa, ram_ipa + ram_size)`: the Image at `ram_ipa + text_offset`,
/// a DTB window right after the Image's declared extent (8-byte aligned),
/// and an optional initrd on the next page boundary after the DTB window.
/// The result is `(image_ipa, dtb_ipa, initrd)`.
pub open spec fn placement(
    h: LinuxImageHeader,
    ram_ipa: u64,
    ram_size: u64,
    initrd_size: Option<u64>,
) -> Result<(u64, u64, Option<(u64, u64)>), LinuxBootLayoutError> {
    let ram_end = ram_ipa + ram_size;
    let image_ipa = ram_ipa + h.text_offset;
    let image_end = image_ipa + h.image_size;
    let dtb_ipa = round_up_to(image_end, 8);
    let dtb_end = dtb_ipa + LINUX_DTB_CAPACITY;
    if ram_ipa % LINUX_IMAGE_BASE_ALIGNMENT != 0 || ram_size % 4096 != 0 {
        Err(LinuxBootLayoutError::InvalidRam)
    } else if ram_end > u64::MAX || image_ipa > u64::MAX || image_end > u64::MAX {
        Err(LinuxBootLayoutError::AddressOverflow)
    } else if image_end > ram_end {
        Err(LinuxBootLayoutError::ImageTooLarge)
    } else if h.flags & 8 != 0 && image_end > 0x1_0000_0000_0000 {
        Err(LinuxBootLayoutError::ImageTooLarge)
    } else if dtb_ipa > u64::MAX || dtb_end > u64::MAX {
        Err(LinuxBootLayoutError::AddressOverflow)
    } else if dtb_end > ram_end {
        Err(LinuxBootLayoutError::DtbTooLarge)
    } else {
        match initrd_size {
            Some(size) if size != 0 => {
                let initrd_ipa = round_up_to(dtb_end, 4096);
                let initrd_end = initrd_ipa + round_up_to(size as int, 4096);
                if initrd_ipa > u64::MAX || round_up_to(size as int, 4096) > u64::MAX || initrd_end
                    > u64::MAX {
                    Err(LinuxBootLayoutError::AddressOverflow)
                } else if initrd_end > ram_end {
                    Err(LinuxBootLayoutError::InitrdTooLarge)
                } else {
                    Ok((image_ipa as u64, dtb_ipa as u64, Some((initrd_ipa as u64, size))))
                }
            },
            _ => Ok((image_ipa as u64, dtb_ipa as u64, None)),
        }
    }
}

/// Non-overlapping placements for a standard arm64 Linux boot.
#[derive(Debug, Clone, Copy, PartialEq, Eq)]
pub struct LinuxBootLayout {
    ram_ipa: u64,
    ram_size: u64,
    image: LinuxImageHeader,
    image_ipa: u64,
    dtb_ipa: u64,
    initrd: Option<(u64, u64)>,
}

/// AArch64 Linux boot-register contract at the EL2-to-EL1 `ERET`.
#[derive(Debug, Clone, Copy, PartialEq, Eq, Structural)]
pub struct LinuxBootRegisters {
    pub pc: u64,
    pub x0: u64,
    pub x1: u64,
    pub x2: u64,
    pub x3: u64,
}

fn align_up(value: u64, alignment: u64) -> (r: Result<u64, LinuxBootLayoutError>)
    requires
        alignment > 0,
    ensures
        round_up_to(value as int, alignment as int) <= u64::MAX ==> r == Ok::<
            u64,
            LinuxBootLayoutError,
        >(round_up_to(value as int, alignment as int) as u64),
        round_up_to(value as int, alignment as int) > u64::MAX ==> r == Err::<
            u64,
            LinuxBootLayoutError,
        >(LinuxBootLayoutError::AddressOverflow),
{
    let remainder = value % alignment;
    if remainder == 0 {
        Ok(value)
    } else {
        match value.checked_add(alignment - remainder) {
            Some(v) => Ok(v),
            None => Err(LinuxBootLayoutError::AddressOverflow),
        }
    }
}

impl LinuxBootLayout {
    pub closed spec fn ram_spec(&self) -> (u64, u64) {
        (self.ram_ipa, self.ram_size)
    }

    pub closed spec fn header_spec(&self) -> LinuxImageHeader {
        self.image
    }

    pub closed spec fn image_ipa_spec(&self) -> u64 {
        self.image_ipa
    }

    pub closed spec fn dtb_ipa_spec(&self) -> u64 {
        self.dtb_ipa
    }

    pub closed spec fn initrd_spec(&self) -> Option<(u64, u64)> {
        self.initrd
    }

    /// The layout in the default 512 MiB of guest RAM at 1 GiB.
    pub fn default_for_image(image: &[u8], initrd_size: Option<u64>) -> (r: Result<
        Self,
        LinuxBootLayoutError,
    >)
        ensures
            boot_layout_result(image@, LINUX_GUEST_RAM_IPA, LINUX_GUEST_RAM_SIZE, initrd_size, r),
    {
        Self::new(image, LINUX_GUEST_RAM_IPA, LINUX_GUEST_RAM_SIZE, initrd_size)
    }

    /// Places the Image at `ram_ipa + text_offset`; `ram_ipa` is the
    /// 2-MiB-aligned base that the arm64 boot protocol mandates. The DTB
    /// follows the declared Image extent, so it cannot overlap a valid
    /// `text_offset` such as 0x80000.
    pub fn new(image: &[u8], ram_ipa: u64, ram_size: u64, initrd_size: Option<u64>) -> (r: Result<
        Self,
        LinuxBootLayoutError,
    >)
        ensures
            boot_layout_result(image@, ram_ipa, ram_size, initrd_size, r),
    {
        let image_header = match LinuxImageHeader::parse(image) {
            Ok(h) => h,
            Err(e) => {
                return Err(LinuxBootLayoutError::Image(e));
            },
        };
        assert(ram_ipa & 0x1f_ffff == ram_ipa % 0x20_0000) by {
            crate::page::lemma_low_bits();
        }
        assert(ram_size & 0xfff == ram_size % 4096) by {
            crate::page::lemma_low_bits();
        }
        if ram_ipa & (LINUX_IMAGE_BASE_ALIGNMENT - 1) != 0 || ram_size & (4096 - 1) != 0 {
            return Err(LinuxBootLayoutError::InvalidRam);
        }
        let ram_end = match ram_ipa.checked_add(ram_size) {
            Some(v) => v,
            None => {
                return Err(LinuxBootLayoutError::AddressOverflow);
            },
        };
        let image_ipa = match ram_ipa.checked_add(image_header.text_offset) {
            Some(v) => v,
            None => {
                return Err(LinuxBootLayoutError::AddressOverflow);
            },
        };
        let image_end = match image_ipa.checked_add(image_header.image_size) {
            Some(v) => v,
            None => {
                return Err(LinuxBootLayoutError::AddressOverflow);
            },
        };
        if image_ipa < ram_ipa || image_end > ram_end {
            return Err(LinuxBootLayoutError::ImageTooLarge);
        }
        assert(1u64 << 48u64 == 0x1_0000_0000_0000) by {
            crate::page::lemma_bit_constants();
        }
        if image_header.requires_48bit_placement() && image_end > (1u64 << 48u64) {
            return Err(LinuxBootLayoutError::ImageTooLarge);
        }
        let dtb_ipa = align_up(image_end, 8)?;
        let dtb_end = match dtb_ipa.checked_add(LINUX_DTB_CAPACITY) {
            Some(v) => v,
            None => {
                return Err(LinuxBootLayoutError::AddressOverflow);
            },
        };
        if dtb_end > ram_end {
            return Err(LinuxBootLayoutError::DtbTooLarge);
        }
        let initrd = match initrd_size {
            None => None,
            Some(size) => {
                if size == 0 {
                    None
                } else {
                    let initrd_ipa = align_up(dtb_end, 4096)?;
                    let size_up = align_up(size, 4096)?;
                    let end = match initrd_ipa.checked_add(size_up) {
                        Some(v) => v,
                        None => {
                            return Err(LinuxBootLayoutError::AddressOverflow);
                        },
                    };
                    if end > ram_end {
                        return Err(LinuxBootLayoutError::InitrdTooLarge);
                    }
                    Some((initrd_ipa, size))
                }
            },
        };
        Ok(Self { ram_ipa, ram_size, image: image_header, image_ipa, dtb_ipa, initrd })
    }

    pub fn ram(&self) -> (r: (u64, u64))
        ensures
            r == self.ram_spec(),
    {
        (self.ram_ipa, self.ram_size)
    }

    pub fn image_header(&self) -> (r: LinuxImageHeader)
        ensures
            r == self.header_spec(),
    {
        self.image
    }

    /// The Image's IPA and declared size.
    pub fn image(&self) -> (r: (u64, u64))
        ensures
            r == (self.image_ipa_spec(), self.header_spec().image_size),
    {
        (self.image_ipa, self.image.image_size)
    }

    /// The DTB window's IPA and capacity.
    pub fn dtb(&self) -> (r: (u64, u64))
        ensures
            r == (self.dtb_ipa_spec(), LINUX_DTB_CAPACITY),
    {
        (self.dtb_ipa, LINUX_DTB_CAPACITY)
    }

    pub fn initrd(&self) -> (r: Option<(u64, u64)>)
        ensures
            r == self.initrd_spec(),
    {
        self.initrd
    }

    /// Entry at the Image with x0 holding the DTB address and x1-x3 zero.
    pub fn initial_registers(&self) -> (r: LinuxBootRegisters)
        ensures
            r == (LinuxBootRegisters {
                pc: self.image_ipa_spec(),
                x0: self.dtb_ipa_spec(),
                x1: 0,
                x2: 0,
                x3: 0,
            }),
    {
        LinuxBootRegisters { pc: self.image_ipa, x0: self.dtb_ipa, x1: 0, x2: 0, x3: 0 }
    }
}

/// `r` is the boot layout of `image` in guest RAM `[ram_ipa, ram_ipa + ram_size)`.
pub open spec fn boot_layout_result(
    image: Seq<u8>,
    ram_ipa: u64,
    ram_size: u64,
    initrd_size: Option<u64>,
    r: Result<LinuxBootLayout, LinuxBootLayoutError>,
) -> bool {
    match parse_spec(image) {
        Err(e) => r == Err::<LinuxBootLayout, LinuxBootLayoutError>(LinuxBootLayoutError::Image(e)),
        Ok(h) => match placement(h, ram_ipa, ram_size, initrd_size) {
            Err(e) => r == Err::<LinuxBootLayout, LinuxBootLayoutError>(e),
            Ok((image_ipa, dtb_ipa, initrd)) => (r matches Ok(l) && {
                &&& l.ram_spec() == (ram_ipa, ram_size)
                &&& l.header_spec() == h
                &&& l.image_ipa_spec() == image_ipa
                &&& l.dtb_ipa_spec() == dtb_ipa
                &&& l.initrd_spec() == initrd
            }),
        },
    }
}

/// A placement keeps the Image, the DTB window and the initrd inside guest
/// RAM, in that order and without overlap; the DTB is 8-byte aligned and the
/// initrd starts on a page boundary.
pub proof fn law_placements_do_not_overlap(
    h: LinuxImageHeader,
    ram_ipa: u64,
    ram_size: u64,
    initrd_size: Option<u64>,
)
    ensures
        placement(h, ram_ipa, ram_size, initrd_size) matches Ok((image_ipa, dtb_ipa, initrd))
            ==> {
            &&& ram_ipa <= image_ipa
            &&& image_ipa + h.image_size <= dtb_ipa
            &&& dtb_ipa % 8 == 0
            &&& dtb_ipa + LINUX_DTB_CAPACITY <= ram_ipa + ram_size
            &&& initrd matches Some((initrd_ipa, size)) ==> {
                &&& dtb_ipa + LINUX_DTB_CAPACITY <= initrd_ipa
                &&& initrd_ipa % 4096 == 0
                &&& initrd_ipa + size <= ram_ipa + ram_size
            }
        },
{
    let image_end = ram_ipa + h.text_offset + h.image_size;
    crate::page::lemma_round_up(image_end, 8);
    let dtb_end = round_up_to(image_end, 8) + LINUX_DTB_CAPACITY;
    crate::page::lemma_round_up(dtb_end, 4096);
    if let Some(size) = initrd_size {
        crate::page::lemma_round_up(size as int, 4096);
    }
}

impl LinuxImageError {
    /// What is wrong with the Image, in words.
    pub open spec fn message(self) -> Seq<char> {
        match self {
            LinuxImageError::HeaderTooSmall => "Linux Image is shorter than its 64-byte header"@,
            LinuxImageError::BadMagic => "Linux Image header has an invalid magic value"@,
            LinuxImageError::LegacyImageSize => "Linux Image has no authoritative image_size"@,
            LinuxImageError::ImageTooLarge => "Linux Image is shorter than its declared image_size"@,
            LinuxImageError::BigEndianImage => "big-endian arm64 Linux Images are unsupported"@,
        }
    }

    /// The error in words.
    pub fn to_string(&self) -> (r: String)
        ensures
            r@ == self.message(),
    {
        let text = match self {
            LinuxImageError::HeaderTooSmall => "Linux Image is shorter than its 64-byte header",
            LinuxImageError::BadMagic => "Linux Image header has an invalid magic value",
            LinuxImageError::LegacyImageSize => "Linux Image has no authoritative image_size",
            LinuxImageError::ImageTooLarge => "Linux Image is shorter than its declared image_size",
            LinuxImageError::BigEndianImage => "big-endian arm64 Linux Images are unsupported",
        };
        String::from_str(text)
    }
}

impl LinuxBootLayoutError {
    /// What is wrong with the layout, in words.
    pub open spec fn message(self) -> Seq<char> {
        match self {
            LinuxBootLayoutError::Image(e) => "invalid Linux Image: "@ + e.message(),
            LinuxBootLayoutError::InvalidRam => "guest RAM base must be 2-MiB aligned and page sized"@,
            LinuxBootLayoutError::ImageTooLarge => "Linux Image does not fit in guest RAM"@,
            LinuxBootLayoutError::DtbTooLarge => "reserved DTB window does not fit in guest RAM"@,
            LinuxBootLayoutError::InitrdTooLarge => "initrd does not fit in guest RAM"@,
            LinuxBootLayoutError::AddressOverflow => "guest boot layout address overflow"@,
        }
    }

    /// The error in words.
    pub fn to_string(&self) -> (r: String)
        ensures
            r@ == self.message(),
    {
        match self {
            LinuxBootLayoutError::Image(e) => {
                let mut text = String::from_str("invalid Linux Image: ");
                let inner = e.to_string();
                text.append(inner.as_str());
                text
            }
            LinuxBootLayoutError::InvalidRam => {
                String::from_str("guest RAM base must be 2-MiB aligned and page sized")
            }
            LinuxBootLayoutError::ImageTooLarge => {
                String::from_str("Linux Image does not fit in guest RAM")
            }
            LinuxBootLayoutError::DtbTooLarge => {
                String::from_str("reserved DTB window does not fit in guest RAM")
            }
            LinuxBootLayoutError::InitrdTooLarge => {
                String::from_str("initrd does not fit in guest RAM")
            }
            LinuxBootLayoutError::AddressOverflow => {
                String::from_str("guest boot layout address overflow")
            }
        }
    }
}

} // verus!
