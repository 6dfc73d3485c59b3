use tvisor::linux_boot::{
    LINUX_DTB_CAPACITY, LINUX_GUEST_RAM_IPA, LINUX_GUEST_RAM_SIZE, LINUX_IMAGE_HEADER_SIZE,
    LINUX_IMAGE_MAGIC, LinuxBootLayout, LinuxBootLayoutError, LinuxBootRegisters,
    LinuxImageError, LinuxImageHeader,
};
use tvisor::page::PAGE_SIZE;

fn image(text_offset: u64, image_size: u64, flags: u64) -> Vec<u8> {
    let mut image = vec![0; core::cmp::max(image_size as usize, LINUX_IMAGE_HEADER_SIZE)];
    image[8..16].copy_from_slice(&text_offset.to_le_bytes());
    image[16..24].copy_from_slice(&image_size.to_le_bytes());
    image[24..32].copy_from_slice(&flags.to_le_bytes());
    image[56..60].copy_from_slice(&LINUX_IMAGE_MAGIC.to_le_bytes());
    image
}

#[test]
fn layout_uses_image_header_for_entry_and_dtb_placement() {
    let image = image(0x80000, 12 * 1024 * 1024, 0b10);
    let layout = LinuxBootLayout::default_for_image(&image, Some(3 * 1024 * 1024)).unwrap();
    assert_eq!(layout.ram(), (LINUX_GUEST_RAM_IPA, LINUX_GUEST_RAM_SIZE));
    assert_eq!(
        layout.image(),
        (LINUX_GUEST_RAM_IPA + 0x80000, 12 * 1024 * 1024)
    );
    assert_eq!(
        layout.dtb(),
        (
            LINUX_GUEST_RAM_IPA + 0x80000 + 12 * 1024 * 1024,
            LINUX_DTB_CAPACITY
        )
    );
    assert_eq!(
        layout.initrd(),
        Some((
            LINUX_GUEST_RAM_IPA + 0x80000 + 14 * 1024 * 1024,
            3 * 1024 * 1024
        ))
    );
    assert_eq!(layout.image_header().page_size_encoding(), 1);
    assert_eq!(
        layout.initial_registers(),
        LinuxBootRegisters {
            pc: LINUX_GUEST_RAM_IPA + 0x80000,
            x0: LINUX_GUEST_RAM_IPA + 0x80000 + 12 * 1024 * 1024,
            x1: 0,
            x2: 0,
            x3: 0,
        }
    );
}

#[test]
fn rejects_invalid_headers_and_unaligned_ram_base() {
    assert_eq!(
        LinuxImageHeader::parse(&[]),
        Err(LinuxImageError::HeaderTooSmall)
    );
    let mut invalid = image(0x80000, 4096, 0);
    invalid[56] = 0;
    assert_eq!(
        LinuxImageHeader::parse(&invalid),
        Err(LinuxImageError::BadMagic)
    );
    let image = image(0x80000, 4096, 0);
    assert_eq!(
        LinuxBootLayout::new(
            &image,
            LINUX_GUEST_RAM_IPA + PAGE_SIZE as u64,
            LINUX_GUEST_RAM_SIZE,
            None
        ),
        Err(LinuxBootLayoutError::InvalidRam)
    );
}

#[test]
fn rejects_legacy_big_endian_and_oversized_images() {
    assert_eq!(
        LinuxImageHeader::parse(&image(0x80000, 0, 0)),
        Err(LinuxImageError::LegacyImageSize)
    );
    assert_eq!(
        LinuxImageHeader::parse(&image(0x80000, 4096, 1)),
        Err(LinuxImageError::BigEndianImage)
    );
    let mut short = image(0x80000, 4096, 0);
    short.truncate(64);
    assert_eq!(
        LinuxImageHeader::parse(&short),
        Err(LinuxImageError::ImageTooLarge)
    );
}

#[test]
fn placements_stay_in_ram_in_order() {
    let image = image(0x80000, 12 * 1024 * 1024, 0b10);
    let layout = LinuxBootLayout::default_for_image(&image, Some(3 * 1024 * 1024)).unwrap();
    let (image_ipa, image_size) = layout.image();
    let (dtb_ipa, dtb_size) = layout.dtb();
    let (initrd_ipa, initrd_size) = layout.initrd().unwrap();
    assert!(image_ipa >= LINUX_GUEST_RAM_IPA);
    assert!(image_ipa + image_size <= dtb_ipa);
    assert_eq!(dtb_ipa % 8, 0);
    assert!(dtb_ipa + dtb_size <= initrd_ipa);
    assert_eq!(initrd_ipa % 4096, 0);
    assert!(initrd_ipa + initrd_size <= LINUX_GUEST_RAM_IPA + LINUX_GUEST_RAM_SIZE);
    assert_eq!(
        LinuxBootLayout::default_for_image(&image, Some(LINUX_GUEST_RAM_SIZE)),
        Err(LinuxBootLayoutError::InitrdTooLarge)
    );
}
