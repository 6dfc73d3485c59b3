use tvisor::fdt::{
    ConsoleDiscoveryError, FdtArgError, ImageArgError, decode_console_gic_spi,
    fdt_address_from_uboot_args, image_from_uboot_args, parent_path,
};

#[test]
fn decodes_bootelf_argument_layout() {
    let fdt: &[u8] = b"fdt=37b3aca0\0";
    let argv = [Some(fdt)];

    let address = fdt_address_from_uboot_args(argv.len() as isize, Some(&argv));

    assert_eq!(address, Ok(0x37b3_aca0));
}

#[test]
fn decodes_go_argument_layout() {
    let entry: &[u8] = b"4001010\0";
    let fdt: &[u8] = b"fdt=0x37B3ACA0\0";
    let argv = [Some(entry), Some(fdt)];

    let address = fdt_address_from_uboot_args(argv.len() as isize, Some(&argv));

    assert_eq!(address, Ok(0x37b3_aca0));
}

#[test]
fn decodes_image_address_and_exact_file_size() {
    let entry: &[u8] = b"4001010\0";
    let image: &[u8] = b"image=0x04000000,0x305008\0";
    let argv = [Some(entry), Some(image)];

    let source = image_from_uboot_args(argv.len() as isize, Some(&argv))
        .expect("valid image argument");

    assert_eq!(source.address, 0x0400_0000);
    assert_eq!(source.size, 0x305008);
}

#[test]
fn rejects_image_without_a_file_size() {
    let image: &[u8] = b"image=4000000\0";
    let argv = [Some(image)];
    assert_eq!(
        image_from_uboot_args(argv.len() as isize, Some(&argv)),
        Err(ImageArgError::InvalidSize)
    );
}

#[test]
fn rejects_missing_fdt_argument() {
    let entry: &[u8] = b"4001010\0";
    let argv = [Some(entry)];

    let result = fdt_address_from_uboot_args(argv.len() as isize, Some(&argv));

    assert_eq!(result, Err(FdtArgError::MissingAddress));
}

#[test]
fn rejects_duplicate_fdt_arguments() {
    let first: &[u8] = b"fdt=1000\0";
    let second: &[u8] = b"fdt=2000\0";
    let argv = [Some(first), Some(second)];

    let result = fdt_address_from_uboot_args(argv.len() as isize, Some(&argv));

    assert_eq!(result, Err(FdtArgError::DuplicateAddress));
}

#[test]
fn rejects_non_hexadecimal_fdt_address() {
    let fdt: &[u8] = b"fdt=not-an-address\0";
    let argv = [Some(fdt)];

    let result = fdt_address_from_uboot_args(argv.len() as isize, Some(&argv));

    assert_eq!(result, Err(FdtArgError::InvalidAddress));
}

#[test]
fn rejects_zero_fdt_address() {
    let fdt: &[u8] = b"fdt=0\0";
    let argv = [Some(fdt)];

    let result = fdt_address_from_uboot_args(argv.len() as isize, Some(&argv));

    assert_eq!(result, Err(FdtArgError::ZeroAddress));
}

#[test]
fn decodes_level_high_gic_spi_for_console() {
    assert_eq!(
        decode_console_gic_spi(&[0, 0, 0, 0, 0, 0, 0, 93, 0, 0, 0, 4]),
        Ok(125)
    );
    assert_eq!(
        decode_console_gic_spi(&[0, 0, 0, 1, 0, 0, 0, 93, 0, 0, 0, 4]),
        Err(ConsoleDiscoveryError::InvalidInterrupt)
    );
}

#[test]
fn fdt_arguments_reject_bad_counts_null_vectors_and_unterminated_strings() {
    let fdt: &[u8] = b"fdt=1000\0";
    let argv = [Some(fdt)];
    assert_eq!(
        fdt_address_from_uboot_args(0, Some(&argv)),
        Err(FdtArgError::InvalidArgCount)
    );
    assert_eq!(
        fdt_address_from_uboot_args(17, Some(&argv)),
        Err(FdtArgError::InvalidArgCount)
    );
    assert_eq!(
        fdt_address_from_uboot_args(1, None),
        Err(FdtArgError::NullArgv)
    );
    let missing: [Option<&[u8]>; 1] = [None];
    assert_eq!(
        fdt_address_from_uboot_args(1, Some(&missing)),
        Err(FdtArgError::NullArgument)
    );
    let long = [b'a'; 64];
    let unterminated = [Some(&long[..])];
    assert_eq!(
        fdt_address_from_uboot_args(1, Some(&unterminated)),
        Err(FdtArgError::ArgumentTooLong)
    );
    let overflow: &[u8] = b"fdt=0x10000000000000000\0";
    let argv = [Some(overflow)];
    assert_eq!(
        fdt_address_from_uboot_args(1, Some(&argv)),
        Err(FdtArgError::AddressOverflow)
    );
}

#[test]
fn image_argument_errors_are_reported_per_field() {
    let cases: [(&[u8], ImageArgError); 6] = [
        (b"image=xyz,10\0", ImageArgError::InvalidAddress),
        (b"image=1000,xyz\0", ImageArgError::InvalidSize),
        (b"image=0,10\0", ImageArgError::ZeroAddress),
        (b"image=1000,0\0", ImageArgError::ZeroSize),
        (b"image=10000000000000000,1\0", ImageArgError::AddressOverflow),
        (b"image=,10\0", ImageArgError::InvalidAddress),
    ];
    for (argument, error) in cases {
        let argv = [Some(argument)];
        assert_eq!(image_from_uboot_args(1, Some(&argv)), Err(error));
    }
    let entry: &[u8] = b"4001010\0";
    let argv = [Some(entry)];
    assert_eq!(
        image_from_uboot_args(1, Some(&argv)),
        Err(ImageArgError::MissingImage)
    );
    let first: &[u8] = b"image=1000,10\0";
    let argv = [Some(first), Some(first)];
    assert_eq!(
        image_from_uboot_args(2, Some(&argv)),
        Err(ImageArgError::DuplicateImage)
    );
}

#[test]
fn console_interrupt_specifier_must_be_complete_and_in_range() {
    assert_eq!(
        decode_console_gic_spi(&[0, 0, 0, 0, 0, 0, 0, 93]),
        Err(ConsoleDiscoveryError::MissingInterrupt)
    );
    assert_eq!(
        decode_console_gic_spi(&[0, 0, 0, 0, 0, 0, 0, 93, 0, 0, 0, 1]),
        Err(ConsoleDiscoveryError::InvalidInterrupt)
    );
    assert_eq!(
        decode_console_gic_spi(&[0, 0, 0, 0, 0, 0, 3, 0xdc, 0, 0, 0, 4]),
        Err(ConsoleDiscoveryError::InvalidInterrupt)
    );
    assert_eq!(
        decode_console_gic_spi(&[0, 0, 0, 0, 0, 0, 3, 0xdb, 0, 0, 0, 4]),
        Ok(1019)
    );
}

#[test]
fn finds_parent_paths() {
    assert_eq!(parent_path("/soc/serial@7e215040"), Some("/soc"));
    assert_eq!(parent_path("/soc"), Some("/"));
    assert_eq!(parent_path("/"), None);
    assert_eq!(parent_path("relative"), None);
}

#[test]
fn parent_of_deep_and_unicode_paths() {
    assert_eq!(parent_path("/a/b/c"), Some("/a/b"));
    assert_eq!(parent_path("/\u{e9}t\u{e9}"), Some("/"));
    assert_eq!(parent_path("/soc/"), Some("/soc"));
    assert_eq!(parent_path(""), None);
}
