//! The U-Boot arguments that locate the DTB and a separately loaded Linux
//! Image, and the console interrupt specifier of the DTB.
use vstd::prelude::*;
use vstd::string::StringExecFns;
use vstd::string::StringSliceAdditionalSpecFns;
use vstd::utf8::{is_char_boundary, length_of_first_scalar, pop_first_scalar, valid_utf8};
use crate::boot_mode::{
    after_prefix, first_nul_from, has_prefix, starts_with, terminated_len, window_views,
};

use crate::devicetree::{
    ArrayEntry, DeviceTree, FdtParseError, TranslateError, compatible_with, cstr, cstr_of, find_byte, find_node_spec,
    index_from, is_utf8, name_aliases, name_chosen, name_gic_400, name_gic_a15, name_interrupts,
    name_mini_uart, name_stdout_path, path_of, capped_path_len, prop_of, reg_entry, status_okay,
    translate_device,
};
use crate::gicv2::{
    GicV2Info, REQUIRED_GICC_SIZE, REQUIRED_GICD_SIZE, REQUIRED_GICH_SIZE, REQUIRED_GICV_SIZE,
};
use crate::system_info::{ConsoleInfo, ConsoleKind, PhysAddr, PhysRegion};

verus! {

pub const MAX_UBOOT_ARGS: usize = 16;

#[derive(Debug, Clone, Copy, PartialEq, Eq, Structural)]
pub enum FdtArgError {
    InvalidArgCount,
    NullArgv,
    NullArgument,
    ArgumentTooLong,
    MissingAddress,
    DuplicateAddress,
    InvalidAddress,
    AddressOverflow,
    ZeroAddress,
}

/// A separately loaded Linux Image supplied by U-Boot. `size` is the exact
/// TFTP file length, not the header-declared in-memory Image extent.
#[derive(Debug, Clone, Copy, PartialEq, Eq, Structural)]
pub struct UbootImage {
    pub address: usize,
    pub size: usize,
}

#[derive(Debug, Clone, Copy, PartialEq, Eq, Structural)]
pub enum ImageArgError {
    InvalidArgCount,
    NullArgv,
    NullArgument,
    ArgumentTooLong,
    MissingImage,
    DuplicateImage,
    InvalidAddress,
    InvalidSize,
    AddressOverflow,
    ZeroAddress,
    ZeroSize,
}

/// The ASCII bytes of `fdt=`.
pub open spec fn fdt_key() -> Seq<u8> {
    seq![0x66u8, 0x64u8, 0x74u8, 0x3du8]
}

/// The ASCII bytes of `image=`.
pub open spec fn image_key() -> Seq<u8> {
    seq![0x69u8, 0x6du8, 0x61u8, 0x67u8, 0x65u8, 0x3du8]
}

/// The value of an ASCII hexadecimal digit.
pub open spec fn hex_digit(b: u8) -> Option<int> {
    if 0x30 <= b <= 0x39 {
        Some(b - 0x30)
    } else if 0x61 <= b <= 0x66 {
        Some(b - 0x61 + 10)
    } else if 0x41 <= b <= 0x46 {
        Some(b - 0x41 + 10)
    } else {
        None
    }
}

/// `s` without a leading `0x` or `0X`.
pub open spec fn strip_hex_prefix(s: Seq<u8>) -> Seq<u8> {
    if s.len() >= 2 && s[0] == 0x30 && (s[1] == 0x78 || s[1] == 0x58) {
        s.subrange(2, s.len() as int)
    } else {
        s
    }
}

/// The digits of `s[i..]` read onto `acc`, left to right: the first
/// non-digit is an invalid address, and exceeding `usize` an overflow.
pub open spec fn hex_fold(s: Seq<u8>, i: int, acc: int) -> Result<int, FdtArgError>
    decreases s.len() - i,
{
    if i < 0 || i >= s.len() {
        Ok(acc)
    } else {
        match hex_digit(s[i]) {
            None => Err(FdtArgError::InvalidAddress),
            Some(d) => if acc * 16 + d > usize::MAX {
                Err(FdtArgError::AddressOverflow)
            } else {
                hex_fold(s, i + 1, acc * 16 + d)
            },
        }
    }
}

/// The hexadecimal number `s`, with an optional `0x` prefix.
pub open spec fn hex_value(s: Seq<u8>) -> Result<int, FdtArgError> {
    let digits = strip_hex_prefix(s);
    if digits.len() == 0 {
        Err(FdtArgError::InvalidAddress)
    } else {
        hex_fold(digits, 0, 0)
    }
}

fn hex_digit_of(b: u8) -> (r: Option<usize>)
    ensures
        r matches Some(d) ==> hex_digit(b) == Some(d as int),
        r is None ==> hex_digit(b) is None,
{
    if b >= 0x30 && b <= 0x39 {
        Some((b - 0x30) as usize)
    } else if b >= 0x61 && b <= 0x66 {
        Some((b - 0x61) as usize + 10)
    } else if b >= 0x41 && b <= 0x46 {
        Some((b - 0x41) as usize + 10)
    } else {
        None
    }
}

/// Parses a hexadecimal address with an optional `0x` or `0X` prefix.
pub fn parse_hex_address(value: &[u8]) -> (r: Result<usize, FdtArgError>)
    ensures
        r == (match hex_value(value@) {
            Ok(a) => Ok::<usize, FdtArgError>(a as usize),
            Err(e) => Err(e),
        }),
        r matches Ok(a) ==> hex_value(value@) == Ok::<int, FdtArgError>(a as int),
{
    let digits: &[u8] = if value.len() >= 2 && value[0] == 0x30 && (value[1] == 0x78 || value[1]
        == 0x58) {
        &value[2..value.len()]
    } else {
        value
    };
    assert(digits@ == strip_hex_prefix(value@));
    if digits.len() == 0 {
        return Err(FdtArgError::InvalidAddress);
    }
    let mut address: usize = 0;
    let mut i: usize = 0;
    while i < digits.len()
        invariant
            i <= digits@.len(),
            digits@ == strip_hex_prefix(value@),
            digits@.len() > 0,
            hex_value(value@) == hex_fold(digits@, i as int, address as int),
        decreases digits@.len() - i,
    {
        let digit = match hex_digit_of(digits[i]) {
            Some(d) => d,
            None => return Err(FdtArgError::InvalidAddress),
        };
        address = match address.checked_mul(16) {
            Some(a) => match a.checked_add(digit) {
                Some(b) => b,
                None => return Err(FdtArgError::AddressOverflow),
            },
            None => return Err(FdtArgError::AddressOverflow),
        };
        i += 1;
    }
    Ok(address)
}

/// The image error for an address that failed to parse.
pub open spec fn image_address_error(error: FdtArgError) -> ImageArgError {
    match error {
        FdtArgError::AddressOverflow => ImageArgError::AddressOverflow,
        _ => ImageArgError::InvalidAddress,
    }
}

/// The image error for a size that failed to parse.
pub open spec fn image_size_error(error: FdtArgError) -> ImageArgError {
    match error {
        FdtArgError::AddressOverflow => ImageArgError::AddressOverflow,
        _ => ImageArgError::InvalidSize,
    }
}

fn map_image_address_error(error: FdtArgError) -> (r: ImageArgError)
    ensures
        r == image_address_error(error),
{
    match error {
        FdtArgError::InvalidAddress => ImageArgError::InvalidAddress,
        FdtArgError::AddressOverflow => ImageArgError::AddressOverflow,
        _ => ImageArgError::InvalidAddress,
    }
}

fn map_image_size_error(error: FdtArgError) -> (r: ImageArgError)
    ensures
        r == image_size_error(error),
{
    match error {
        FdtArgError::InvalidAddress => ImageArgError::InvalidSize,
        FdtArgError::AddressOverflow => ImageArgError::AddressOverflow,
        _ => ImageArgError::InvalidSize,
    }
}

/// The `fdt=` address found in `windows[i..n]` after `found`, each window
/// read in turn: a missing argument, one with no NUL in reach, a second
/// `fdt=` or an address that does not parse stops the search.
pub open spec fn fdt_fold(windows: Seq<Option<Seq<u8>>>, i: int, n: int, found: Option<int>) -> Result<
    Option<int>,
    FdtArgError,
>
    decreases n - i,
{
    if i < 0 || i >= n {
        Ok(found)
    } else {
        match windows[i] {
            None => Err(FdtArgError::NullArgument),
            Some(w) => match first_nul_from(w, 0) {
                None => Err(FdtArgError::ArgumentTooLong),
                Some(len) => {
                    let arg = w.subrange(0, len);
                    if !has_prefix(arg, fdt_key()) {
                        fdt_fold(windows, i + 1, n, found)
                    } else if found is Some {
                        Err(FdtArgError::DuplicateAddress)
                    } else {
                        match hex_value(after_prefix(arg, fdt_key())) {
                            Err(e) => Err(e),
                            Ok(a) => fdt_fold(windows, i + 1, n, Some(a)),
                        }
                    }
                },
            },
        }
    }
}

/// Finds tvisor's `fdt=<hex-address>` argument among U-Boot's `argc`
/// standalone-application arguments.
///
/// Both `bootelf` and `go` pass strings this way, but `go` also passes its
/// entry address as the first argument, so the tag is searched for rather
/// than taken by position. `argv` is `None` where the vector pointer is null;
/// otherwise entry `i` is `None` where argument pointer `i` is null, or the
/// bytes at that pointer up to its NUL or 64 bytes.
pub fn fdt_address_from_uboot_args(argc: isize, argv: Option<&[Option<&[u8]>]>) -> (r: Result<
    usize,
    FdtArgError,
>)
    requires
        1 <= argc <= MAX_UBOOT_ARGS ==> (argv matches Some(v) ==> argc <= v@.len()),
    ensures
        !(1 <= argc <= MAX_UBOOT_ARGS) ==> r == Err::<usize, FdtArgError>(
            FdtArgError::InvalidArgCount,
        ),
        1 <= argc <= MAX_UBOOT_ARGS ==> r == (match argv {
            None => Err(FdtArgError::NullArgv),
            Some(v) => match fdt_fold(window_views(v@), 0, argc as int, None) {
                Err(e) => Err(e),
                Ok(None) => Err(FdtArgError::MissingAddress),
                Ok(Some(a)) => if a == 0 {
                    Err(FdtArgError::ZeroAddress)
                } else {
                    Ok(a as usize)
                },
            },
        }),
{
    if argc < 1 || argc > MAX_UBOOT_ARGS as isize {
        return Err(FdtArgError::InvalidArgCount);
    }
    let count = argc as usize;
    let windows = match argv {
        None => return Err(FdtArgError::NullArgv),
        Some(v) => v,
    };
    let ghost views = window_views(windows@);
    let key = [0x66u8, 0x64u8, 0x74u8, 0x3du8];
    proof {
        assert(key@ =~= fdt_key());
    }
    let mut address: Option<usize> = None;
    let mut i: usize = 0;
    while i < count
        invariant
            count == argc,
            1 <= argc <= MAX_UBOOT_ARGS,
            argv == Some(windows),
            count <= windows@.len(),
            views == window_views(windows@),
            key@ == fdt_key(),
            i <= count,
            fdt_fold(views, 0, count as int, None) == fdt_fold(
                views,
                i as int,
                count as int,
                match address {
                    Some(a) => Some(a as int),
                    None => None,
                },
            ),
        decreases count - i,
    {
        let window = match windows[i] {
            None => return Err(FdtArgError::NullArgument),
            Some(w) => w,
        };
        proof {
            assert(views[i as int] == Some(window@));
        }
        let length = match terminated_len(window) {
            None => return Err(FdtArgError::ArgumentTooLong),
            Some(n) => n,
        };
        let argument = &window[0..length];
        if starts_with(argument, &key) {
            if address.is_some() {
                return Err(FdtArgError::DuplicateAddress);
            }
            let value = &argument[4..argument.len()];
            assert(value@ == after_prefix(argument@, fdt_key()));
            address = Some(parse_hex_address(value)?);
        }
        i += 1;
    }
    match address {
        None => Err(FdtArgError::MissingAddress),
        Some(a) => if a == 0 {
            Err(FdtArgError::ZeroAddress)
        } else {
            Ok(a)
        },
    }
}

/// The first comma of `s`.
pub open spec fn first_comma(s: Seq<u8>) -> Option<int> {
    if exists|k: int| 0 <= k < s.len() && s[k] == 0x2c {
        Some(choose|k: int| 0 <= k < s.len() && s[k] == 0x2c && forall|j: int| 0 <= j < k ==> s[j] != 0x2c)
    } else {
        None
    }
}

/// What an `image=` value says: `<hex-address>,<hex-size>`, both nonzero.
pub open spec fn image_value(v: Seq<u8>) -> Result<UbootImage, ImageArgError> {
    match first_comma(v) {
        None => Err(ImageArgError::InvalidSize),
        Some(k) => match hex_value(v.subrange(0, k)) {
            Err(e) => Err(image_address_error(e)),
            Ok(address) => match hex_value(v.subrange(k + 1, v.len() as int)) {
                Err(e) => Err(image_size_error(e)),
                Ok(size) => if address == 0 {
                    Err(ImageArgError::ZeroAddress)
                } else if size == 0 {
                    Err(ImageArgError::ZeroSize)
                } else {
                    Ok(UbootImage { address: address as usize, size: size as usize })
                },
            },
        },
    }
}

/// The `image=` argument found in `windows[i..n]` after `found`, each window
/// read in turn.
pub open spec fn image_fold(
    windows: Seq<Option<Seq<u8>>>,
    i: int,
    n: int,
    found: Option<UbootImage>,
) -> Result<Option<UbootImage>, ImageArgError>
    decreases n - i,
{
    if i < 0 || i >= n {
        Ok(found)
    } else {
        match windows[i] {
            None => Err(ImageArgError::NullArgument),
            Some(w) => match first_nul_from(w, 0) {
                None => Err(ImageArgError::ArgumentTooLong),
                Some(len) => {
                    let arg = w.subrange(0, len);
                    if !has_prefix(arg, image_key()) {
                        image_fold(windows, i + 1, n, found)
                    } else if found is Some {
                        Err(ImageArgError::DuplicateImage)
                    } else {
                        match image_value(after_prefix(arg, image_key())) {
                            Err(e) => Err(e),
                            Ok(image) => image_fold(windows, i + 1, n, Some(image)),
                        }
                    }
                },
            },
        }
    }
}

fn find_comma(s: &[u8]) -> (r: Option<usize>)
    ensures
        r matches Some(k) ==> first_comma(s@) == Some(k as int) && k < s@.len(),
        r is None ==> first_comma(s@) is None,
{
    let mut k: usize = 0;
    while k < s.len()
        invariant
            k <= s@.len(),
            forall|j: int| 0 <= j < k ==> s@[j] != 0x2c,
        decreases s@.len() - k,
    {
        if s[k] == 0x2c {
            proof {
                let c = choose|c: int| 0 <= c < s@.len() && s@[c] == 0x2c && forall|j: int|
                    0 <= j < c ==> s@[j] != 0x2c;
                assert(c == k) by {
                    if c < k {
                    } else if c > k {
                        assert(s@[k as int] == 0x2c);
                    }
                }
            }
            return Some(k);
        }
        k += 1;
    }
    None
}

/// Finds `image=<hex-address>,<hex-byte-size>` among U-Boot's standalone
/// arguments, given as for [`fdt_address_from_uboot_args`]. The explicit byte
/// count lets tvisor zero-fill a compact Image's BSS tail instead of reading
/// beyond the TFTP payload.
#[verifier::spinoff_prover]
#[verifier::rlimit(40)]
pub fn image_from_uboot_args(argc: isize, argv: Option<&[Option<&[u8]>]>) -> (r: Result<
    UbootImage,
    ImageArgError,
>)
    requires
        1 <= argc <= MAX_UBOOT_ARGS ==> (argv matches Some(v) ==> argc <= v@.len()),
    ensures
        !(1 <= argc <= MAX_UBOOT_ARGS) ==> r == Err::<UbootImage, ImageArgError>(
            ImageArgError::InvalidArgCount,
        ),
        1 <= argc <= MAX_UBOOT_ARGS ==> r == (match argv {
            None => Err(ImageArgError::NullArgv),
            Some(v) => match image_fold(window_views(v@), 0, argc as int, None) {
                Err(e) => Err(e),
                Ok(None) => Err(ImageArgError::MissingImage),
                Ok(Some(image)) => Ok(image),
            },
        }),
{
    if argc < 1 || argc > MAX_UBOOT_ARGS as isize {
        return Err(ImageArgError::InvalidArgCount);
    }
    let count = argc as usize;
    let windows = match argv {
        None => return Err(ImageArgError::NullArgv),
        Some(v) => v,
    };
    let ghost views = window_views(windows@);
    let key = [0x69u8, 0x6du8, 0x61u8, 0x67u8, 0x65u8, 0x3du8];
    proof {
        assert(key@ =~= image_key());
    }
    let mut image: Option<UbootImage> = None;
    let mut i: usize = 0;
    while i < count
        invariant
            count == argc,
            1 <= argc <= MAX_UBOOT_ARGS,
            argv == Some(windows),
            count <= windows@.len(),
            views == window_views(windows@),
            key@ == image_key(),
            i <= count,
            image_fold(views, 0, count as int, None) == image_fold(views, i as int, count as int, image),
        decreases count - i,
    {
        let window = match windows[i] {
            None => return Err(ImageArgError::NullArgument),
            Some(w) => w,
        };
        proof {
            assert(views[i as int] == Some(window@));
        }
        let length = match terminated_len(window) {
            None => return Err(ImageArgError::ArgumentTooLong),
            Some(n) => n,
        };
        let argument = &window[0..length];
        if starts_with(argument, &key) {
            if image.is_some() {
                return Err(ImageArgError::DuplicateImage);
            }
            let value = &argument[6..argument.len()];
            assert(value@ == after_prefix(argument@, image_key()));
            let separator = match find_comma(value) {
                Some(k) => k,
                None => return Err(ImageArgError::InvalidSize),
            };
            let address_text = &value[0..separator];
            let size_text = &value[separator + 1..value.len()];
            let address = match parse_hex_address(address_text) {
                Ok(a) => a,
                Err(e) => return Err(map_image_address_error(e)),
            };
            let size = match parse_hex_address(size_text) {
                Ok(s) => s,
                Err(e) => return Err(map_image_size_error(e)),
            };
            if address == 0 {
                return Err(ImageArgError::ZeroAddress);
            }
            if size == 0 {
                return Err(ImageArgError::ZeroSize);
            }
            image = Some(UbootImage { address, size });
        }
        i += 1;
    }
    match image {
        None => Err(ImageArgError::MissingImage),
        Some(found) => Ok(found),
    }
}

#[derive(Debug, Clone, Copy, PartialEq, Eq, Structural)]
pub enum ConsoleDiscoveryError {
    MissingChosen,
    MissingStdoutPath,
    InvalidStdoutPath,
    MissingAliases,
    MissingAlias,
    MissingConsoleNode,
    ConsoleDisabled,
    UnsupportedConsole,
    MissingRegister,
    InvalidRegister,
    MissingInterrupt,
    InvalidInterrupt,
    MissingParent,
    MissingRanges,
    AddressNotMapped,
    AddressOverflow,
}

/// The big-endian 32-bit cell at byte `i` of `s`.
pub open spec fn be_cell(s: Seq<u8>, i: int) -> int {
    s[i] * 0x100_0000 + s[i + 1] * 0x1_0000 + s[i + 2] * 0x100 + s[i + 3]
}

pub(crate) fn read_be32(s: &[u8], i: usize) -> (r: u32)
    requires
        i + 4 <= s@.len(),
    ensures
        r == be_cell(s@, i as int),
{
    (s[i] as u32) * 0x100_0000 + (s[i + 1] as u32) * 0x1_0000 + (s[i + 2] as u32) * 0x100 + (s[i
        + 3] as u32)
}

/// The GIC interrupt ID of the SPI in interrupt specifier `v`: too short a
/// value is missing; anything but a level-high SPI below the first
/// reserved ID is invalid.
pub open spec fn console_irq_of(v: Seq<u8>) -> Result<u32, ConsoleDiscoveryError> {
    if v.len() < 12 {
        Err(ConsoleDiscoveryError::MissingInterrupt)
    } else if be_cell(v, 0) != 0 || be_cell(v, 8) != 4 || be_cell(v, 4) + 32 >= 1020 {
        Err(ConsoleDiscoveryError::InvalidInterrupt)
    } else {
        Ok((be_cell(v, 4) + 32) as u32)
    }
}

/// Decodes the console's GIC interrupt: the standard three-cell SPI
/// specifier `<0, spi-number, level-high>`, as the GIC interrupt ID of that
/// SPI.
pub fn decode_console_gic_spi(interrupts: &[u8]) -> (r: Result<u32, ConsoleDiscoveryError>)
    ensures
        r == console_irq_of(interrupts@),
{
    if interrupts.len() < 12 {
        return Err(ConsoleDiscoveryError::MissingInterrupt);
    }
    let interrupt_type = read_be32(interrupts, 0);
    let interrupt_number = read_be32(interrupts, 4);
    let interrupt_flags = read_be32(interrupts, 8);
    if interrupt_type != 0 || interrupt_flags != 4 {
        return Err(ConsoleDiscoveryError::InvalidInterrupt);
    }
    match interrupt_number.checked_add(32) {
        Some(irq) => if irq < 1020 {
            Ok(irq)
        } else {
            Err(ConsoleDiscoveryError::InvalidInterrupt)
        },
        None => Err(ConsoleDiscoveryError::InvalidInterrupt),
    }
}

/// The last `/` among the first `k` bytes of `p`, or -1.
pub open spec fn last_slash_before(p: Seq<u8>, k: int) -> int
    decreases k,
{
    if k <= 0 {
        -1
    } else if p[k - 1] == 0x2f {
        k - 1
    } else {
        last_slash_before(p, k - 1)
    }
}

/// The path of the parent of node path `p`: everything before its last `/`,
/// or the root; none for the root itself or a relative path.
pub open spec fn parent_of(p: Seq<u8>) -> Option<Seq<u8>> {
    if p.len() == 0 || p[0] != 0x2f || p =~= seq![0x2fu8] {
        None
    } else {
        let j = last_slash_before(p, p.len() as int);
        if j == 0 {
            Some(seq![0x2fu8])
        } else {
            Some(p.subrange(0, j))
        }
    }
}

/// An ASCII byte of well-formed UTF-8 starts a character.
proof fn lemma_ascii_char_boundary(bytes: Seq<u8>, i: int)
    requires
        valid_utf8(bytes),
        0 <= i < bytes.len(),
        bytes[i] < 0x80,
    ensures
        is_char_boundary(bytes, i),
    decreases bytes.len(),
{
    if i > 0 {
        let l = length_of_first_scalar(bytes);
        assert(i >= l);
        let rest = pop_first_scalar(bytes);
        assert(rest[i - l] == bytes[i]);
        lemma_ascii_char_boundary(rest, i - l);
    }
}

/// In well-formed UTF-8 that starts with an ASCII byte, a character starts right after it.
proof fn lemma_boundary_after_ascii_start(bytes: Seq<u8>)
    requires
        valid_utf8(bytes),
        bytes.len() >= 1,
        bytes[0] < 0x80,
    ensures
        is_char_boundary(bytes, 1),
{
    assert(length_of_first_scalar(bytes) == 1);
    let rest = pop_first_scalar(bytes);
    assert(valid_utf8(rest));
    assert(is_char_boundary(rest, 0));
}

/// The path of the parent of node `path`.
pub fn parent_path(path: &str) -> (r: Option<&str>)
    ensures
        match parent_of(path.spec_bytes()) {
            None => r is None,
            Some(parent) => r matches Some(q) && q.spec_bytes() == parent,
        },
{
    let bytes = path.as_bytes();
    let n = bytes.len();
    if n == 0 || bytes[0] != 0x2f || (n == 1 && bytes[0] == 0x2f) {
        proof {
            if n == 1 && bytes@[0] == 0x2f {
                assert(bytes@ =~= seq![0x2fu8]);
            }
        }
        return None;
    }
    proof {
        assert(!(bytes@ =~= seq![0x2fu8]));
    }
    let mut k: usize = n;
    while k > 0 && bytes[k - 1] != 0x2f
        invariant
            1 <= k <= n,
            n == bytes@.len(),
            bytes@[0] == 0x2f,
            last_slash_before(bytes@, n as int) == last_slash_before(bytes@, k as int),
        decreases k,
    {
        k -= 1;
    }
    let separator = k - 1;
    proof {
        vstd::utf8::encode_utf8_valid_utf8(path@);
    }
    if separator == 0 {
        // The root: the leading `/` of the path.
        proof {
            lemma_boundary_after_ascii_start(bytes@);
            assert(bytes@.subrange(0, 1) =~= seq![0x2fu8]);
        }
        let (root, _) = path.split_at(1);
        return Some(root);
    }
    proof {
        lemma_ascii_char_boundary(bytes@, separator as int);
    }
    let (parent, _) = path.split_at(separator);
    Some(parent)
}

impl ImageArgError {
    /// Why no image was found, in words.
    pub open spec fn message(self) -> Seq<char> {
        match self {
            ImageArgError::InvalidArgCount => "invalid U-Boot argument count"@,
            ImageArgError::NullArgv => "U-Boot argv is null"@,
            ImageArgError::NullArgument => "a U-Boot argument is null"@,
            ImageArgError::ArgumentTooLong => "a U-Boot argument is too long"@,
            ImageArgError::MissingImage => "the image= argument is missing"@,
            ImageArgError::DuplicateImage => "multiple image= arguments were supplied"@,
            ImageArgError::InvalidAddress => "the image address is not hexadecimal"@,
            ImageArgError::InvalidSize => "the image size is not hexadecimal"@,
            ImageArgError::AddressOverflow => "the image address or size overflows usize"@,
            ImageArgError::ZeroAddress => "the image address is zero"@,
            ImageArgError::ZeroSize => "the image size is zero"@,
        }
    }

    /// The error in words.
    pub fn to_string(&self) -> (r: String)
        ensures
            r@ == self.message(),
    {
        let text = match self {
            ImageArgError::InvalidArgCount => "invalid U-Boot argument count",
            ImageArgError::NullArgv => "U-Boot argv is null",
            ImageArgError::NullArgument => "a U-Boot argument is null",
            ImageArgError::ArgumentTooLong => "a U-Boot argument is too long",
            ImageArgError::MissingImage => "the image= argument is missing",
            ImageArgError::DuplicateImage => "multiple image= arguments were supplied",
            ImageArgError::InvalidAddress => "the image address is not hexadecimal",
            ImageArgError::InvalidSize => "the image size is not hexadecimal",
            ImageArgError::AddressOverflow => "the image address or size overflows usize",
            ImageArgError::ZeroAddress => "the image address is zero",
            ImageArgError::ZeroSize => "the image size is zero",
        };
        String::from_str(text)
    }
}

impl FdtArgError {
    /// Why no DTB address was found, in words.
    pub open spec fn message(self) -> Seq<char> {
        match self {
            FdtArgError::InvalidArgCount => "invalid U-Boot argument count"@,
            FdtArgError::NullArgv => "U-Boot argv is null"@,
            FdtArgError::NullArgument => "a U-Boot argument is null"@,
            FdtArgError::ArgumentTooLong => "a U-Boot argument is too long"@,
            FdtArgError::MissingAddress => "the fdt= argument is missing"@,
            FdtArgError::DuplicateAddress => "multiple fdt= arguments were supplied"@,
            FdtArgError::InvalidAddress => "the fdt= address is not hexadecimal"@,
            FdtArgError::AddressOverflow => "the fdt= address overflows usize"@,
            FdtArgError::ZeroAddress => "the fdt= address is zero"@,
        }
    }

    /// The error in words.
    pub fn to_string(&self) -> (r: String)
        ensures
            r@ == self.message(),
    {
        let text = match self {
            FdtArgError::InvalidArgCount => "invalid U-Boot argument count",
            FdtArgError::NullArgv => "U-Boot argv is null",
            FdtArgError::NullArgument => "a U-Boot argument is null",
            FdtArgError::ArgumentTooLong => "a U-Boot argument is too long",
            FdtArgError::MissingAddress => "the fdt= argument is missing",
            FdtArgError::DuplicateAddress => "multiple fdt= arguments were supplied",
            FdtArgError::InvalidAddress => "the fdt= address is not hexadecimal",
            FdtArgError::AddressOverflow => "the fdt= address overflows usize",
            FdtArgError::ZeroAddress => "the fdt= address is zero",
        };
        String::from_str(text)
    }
}

impl ConsoleDiscoveryError {
    /// Why no console was found, in words.
    pub open spec fn message(self) -> Seq<char> {
        match self {
            ConsoleDiscoveryError::MissingChosen => "the /chosen node is missing"@,
            ConsoleDiscoveryError::MissingStdoutPath => "the /chosen stdout-path property is missing"@,
            ConsoleDiscoveryError::InvalidStdoutPath => "the stdout-path property is invalid"@,
            ConsoleDiscoveryError::MissingAliases => "stdout-path uses an alias but /aliases is missing"@,
            ConsoleDiscoveryError::MissingAlias => "the stdout-path alias is missing or invalid"@,
            ConsoleDiscoveryError::MissingConsoleNode => "the stdout-path console node is missing"@,
            ConsoleDiscoveryError::ConsoleDisabled => "the stdout-path console is not enabled"@,
            ConsoleDiscoveryError::UnsupportedConsole => "the stdout-path console type is unsupported"@,
            ConsoleDiscoveryError::MissingRegister => "the console has no reg entry"@,
            ConsoleDiscoveryError::InvalidRegister => "the console reg entry is invalid"@,
            ConsoleDiscoveryError::MissingInterrupt => "the console has no interrupt specifier"@,
            ConsoleDiscoveryError::InvalidInterrupt => "the console interrupt specifier is unsupported or invalid"@,
            ConsoleDiscoveryError::MissingParent => "the console path has no parent bus"@,
            ConsoleDiscoveryError::MissingRanges => "a console parent bus has no ranges property"@,
            ConsoleDiscoveryError::AddressNotMapped => "the console address is not covered by parent ranges"@,
            ConsoleDiscoveryError::AddressOverflow => "the translated console address overflows"@,
        }
    }

    /// The error in words.
    pub fn to_string(&self) -> (r: String)
        ensures
            r@ == self.message(),
    {
        let text = match self {
            ConsoleDiscoveryError::MissingChosen => "the /chosen node is missing",
            ConsoleDiscoveryError::MissingStdoutPath => "the /chosen stdout-path property is missing",
            ConsoleDiscoveryError::InvalidStdoutPath => "the stdout-path property is invalid",
            ConsoleDiscoveryError::MissingAliases => "stdout-path uses an alias but /aliases is missing",
            ConsoleDiscoveryError::MissingAlias => "the stdout-path alias is missing or invalid",
            ConsoleDiscoveryError::MissingConsoleNode => "the stdout-path console node is missing",
            ConsoleDiscoveryError::ConsoleDisabled => "the stdout-path console is not enabled",
            ConsoleDiscoveryError::UnsupportedConsole => "the stdout-path console type is unsupported",
            ConsoleDiscoveryError::MissingRegister => "the console has no reg entry",
            ConsoleDiscoveryError::InvalidRegister => "the console reg entry is invalid",
            ConsoleDiscoveryError::MissingInterrupt => "the console has no interrupt specifier",
            ConsoleDiscoveryError::InvalidInterrupt => "the console interrupt specifier is unsupported or invalid",
            ConsoleDiscoveryError::MissingParent => "the console path has no parent bus",
            ConsoleDiscoveryError::MissingRanges => "a console parent bus has no ranges property",
            ConsoleDiscoveryError::AddressNotMapped => "the console address is not covered by parent ranges",
            ConsoleDiscoveryError::AddressOverflow => "the translated console address overflows",
        };
        String::from_str(text)
    }
}

// ----- Console discovery -----

/// The console path that `/chosen/stdout-path` selects: the part of its
/// text before any `:`, itself when it is absolute, else the path held by
/// the `/aliases` property that it names.
pub open spec fn stdout_path_of(t: DeviceTree) -> Result<Seq<u8>, ConsoleDiscoveryError> {
    match find_node_spec(t, name_chosen()) {
        None => Err(ConsoleDiscoveryError::MissingChosen),
        Some(c) => match prop_of(t, c, name_stdout_path()) {
            None => Err(ConsoleDiscoveryError::MissingStdoutPath),
            Some(v) => match cstr_of(v) {
                None => Err(ConsoleDiscoveryError::InvalidStdoutPath),
                Some(text) => stdout_selection(t, text),
            },
        },
    }
}

/// The console path that the stdout-path text `text` selects in `t`.
pub open spec fn stdout_selection(t: DeviceTree, text: Seq<u8>) -> Result<Seq<u8>, ConsoleDiscoveryError> {
    let selector = text.subrange(0, index_from(text, 0, 0x3a));
    if selector.len() == 0 {
        Err(ConsoleDiscoveryError::InvalidStdoutPath)
    } else if selector[0] == 0x2f {
        Ok(selector)
    } else {
        match find_node_spec(t, name_aliases()) {
            None => Err(ConsoleDiscoveryError::MissingAliases),
            Some(a) => match prop_of(t, a, selector) {
                None => Err(ConsoleDiscoveryError::MissingAlias),
                Some(alias) => match cstr_of(alias) {
                    None => Err(ConsoleDiscoveryError::MissingAlias),
                    Some(path) => Ok(path),
                },
            },
        }
    }
}

/// `/aliases` in `t` holds a property `alias` whose text is `path`.
pub open spec fn alias_names(t: DeviceTree, alias: Seq<u8>, path: Seq<u8>) -> bool {
    &&& find_node_spec(t, name_aliases()) matches Some(a)
    &&& prop_of(t, a, alias) matches Some(v)
    &&& cstr_of(v) == Some(path)
}

/// The text of `/chosen`'s `stdout-path`, if there is one.
pub open spec fn stdout_text(t: DeviceTree) -> Option<Seq<u8>> {
    match find_node_spec(t, name_chosen()) {
        None => None,
        Some(c) => match prop_of(t, c, name_stdout_path()) {
            None => None,
            Some(v) => cstr_of(v),
        },
    }
}

/// A text with no `b` from `i` up to `n` finds its first `b` from `n` on.
proof fn lemma_index_from_skip(s: Seq<u8>, i: int, n: int, b: u8)
    requires
        0 <= i <= n <= s.len(),
        forall|k: int| i <= k < n ==> s[k] != b,
    ensures
        index_from(s, i, b) == index_from(s, n, b),
    decreases n - i,
{
    if i < n {
        lemma_index_from_skip(s, i + 1, n, b);
    }
}

/// Serial options after a `:` in `/chosen/stdout-path` leave the selected
/// console path, and so the console, unchanged; an absolute path selects
/// itself; and an `/aliases` name whose value is that path selects it too,
/// with or without options.
pub proof fn lemma_stdout_options_and_aliases(
    t: DeviceTree,
    path: Seq<u8>,
    options: Seq<u8>,
    alias: Seq<u8>,
)
    requires
        path.len() > 0,
        path[0] == 0x2f,
        forall|k: int| 0 <= k < path.len() ==> path[k] != 0x3a,
    ensures
        stdout_selection(t, path) == Ok::<Seq<u8>, ConsoleDiscoveryError>(path),
        stdout_selection(t, path + seq![0x3au8] + options) == stdout_selection(t, path),
        console_at(t, stdout_selection(t, path + seq![0x3au8] + options)) == console_at(
            t,
            stdout_selection(t, path),
        ),
        alias.len() > 0 && alias[0] != 0x2f && (forall|k: int| 0 <= k < alias.len() ==> alias[k] != 0x3a)
            && alias_names(t, alias, path) ==> stdout_selection(t, alias) == Ok::<
            Seq<u8>,
            ConsoleDiscoveryError,
        >(path) && stdout_selection(t, alias + seq![0x3au8] + options) == Ok::<
            Seq<u8>,
            ConsoleDiscoveryError,
        >(path),
{
    let with_options = path + seq![0x3au8] + options;
    lemma_index_from_skip(path, 0, path.len() as int, 0x3a);
    lemma_index_from_skip(with_options, 0, path.len() as int, 0x3a);
    assert(with_options[path.len() as int] == 0x3a);
    assert(with_options.subrange(0, path.len() as int) =~= path);
    assert(path.subrange(0, path.len() as int) =~= path);
    let alias_options = alias + seq![0x3au8] + options;
    if forall|k: int| 0 <= k < alias.len() ==> alias[k] != 0x3a {
        lemma_index_from_skip(alias, 0, alias.len() as int, 0x3a);
        lemma_index_from_skip(alias_options, 0, alias.len() as int, 0x3a);
        assert(alias_options[alias.len() as int] == 0x3a);
        assert(alias_options.subrange(0, alias.len() as int) =~= alias);
        assert(alias.subrange(0, alias.len() as int) =~= alias);
    }
}

/// The console found does not depend on how `/chosen/stdout-path` names it:
/// a tree whose stdout path is the absolute path `path`, and one that agrees
/// with it in everything but `stdout-path` values and whose stdout path is
/// `path` followed by serial options after a `:`, or an `/aliases` name
/// whose value is `path` (with or without options), give the same console,
/// or the same error.
pub proof fn lemma_console_ignores_stdout_form(
    t1: DeviceTree,
    t2: DeviceTree,
    path: Seq<u8>,
    options: Seq<u8>,
    alias: Seq<u8>,
)
    requires
        crate::devicetree::agree_but_property(t1, t2, name_stdout_path()),
        path.len() > 0,
        path[0] == 0x2f,
        forall|k: int| 0 <= k < path.len() ==> path[k] != 0x3a,
        stdout_text(t1) == Some(path),
        stdout_text(t2) == Some(path + seq![0x3au8] + options) || (alias.len() > 0 && alias[0] != 0x2f
            && (forall|k: int| 0 <= k < alias.len() ==> alias[k] != 0x3a) && alias_names(t2, alias, path) && (
        stdout_text(t2) == Some(alias) || stdout_text(t2) == Some(alias + seq![0x3au8] + options))),
    ensures
        console_of(t1) == console_of(t2),
{
    lemma_stdout_options_and_aliases(t1, path, options, alias);
    lemma_stdout_options_and_aliases(t2, path, options, alias);
    assert(stdout_path_of(t1) == Ok::<Seq<u8>, ConsoleDiscoveryError>(path));
    assert(stdout_path_of(t2) == Ok::<Seq<u8>, ConsoleDiscoveryError>(path));
    crate::devicetree::lemma_find_node_agree(t1, t2, name_stdout_path(), path);
    if let Some(n) = find_node_spec(t1, path) {
        let skip = name_stdout_path();
        assert(crate::devicetree::name_status().len() == 6);
        assert(crate::devicetree::name_compatible().len() == 10);
        assert(crate::devicetree::name_reg().len() == 3);
        assert(name_interrupts().len() == 10);
        assert(crate::devicetree::name_address_cells().len() == 14);
        assert(crate::devicetree::name_size_cells()[0] != skip[0]);
        assert(prop_of(t1, n, crate::devicetree::name_status()) == prop_of(t2, n, crate::devicetree::name_status()));
        assert(prop_of(t1, n, crate::devicetree::name_compatible()) == prop_of(
            t2,
            n,
            crate::devicetree::name_compatible(),
        ));
        assert(prop_of(t1, n, crate::devicetree::name_reg()) == prop_of(t2, n, crate::devicetree::name_reg()));
        assert(prop_of(t1, n, name_interrupts()) == prop_of(t2, n, name_interrupts()));
        assert(t1.parent_of_node(n) == t2.parent_of_node(n));
        let p = t1.parent_of_node(n);
        assert(prop_of(t1, p, crate::devicetree::name_address_cells()) == prop_of(
            t2,
            p,
            crate::devicetree::name_address_cells(),
        ));
        assert(prop_of(t1, p, crate::devicetree::name_size_cells()) == prop_of(
            t2,
            p,
            crate::devicetree::name_size_cells(),
        ));
        assert(reg_entry(t1, n, 0) == reg_entry(t2, n, 0));
        if let Some(ArrayEntry::Found(address, size, _)) = reg_entry(t1, n, 0) {
            crate::devicetree::lemma_translate_device_agree(t1, t2, path, address);
        }
    }
}

pub open spec fn path_result(r: Result<&[u8], ConsoleDiscoveryError>) -> Result<
    Seq<u8>,
    ConsoleDiscoveryError,
> {
    match r {
        Ok(p) => Ok(p@),
        Err(e) => Err(e),
    }
}

/// Finds the console path that `/chosen/stdout-path` selects, resolving an
/// alias through `/aliases` and dropping serial options after a `:`.
pub fn resolve_stdout_path(fdt: &DeviceTree) -> (r: Result<&[u8], ConsoleDiscoveryError>)
    requires
        fdt.wf(),
    ensures
        path_result(r) == stdout_path_of(*fdt),
{
    let chosen_path: [u8; 7] = [0x2fu8, 0x63u8, 0x68u8, 0x6fu8, 0x73u8, 0x65u8, 0x6eu8];
    let stdout_name: [u8; 11] = [0x73u8, 0x74u8, 0x64u8, 0x6fu8, 0x75u8, 0x74u8, 0x2du8, 0x70u8, 0x61u8, 0x74u8, 0x68u8];
    let aliases_path: [u8; 8] = [0x2fu8, 0x61u8, 0x6cu8, 0x69u8, 0x61u8, 0x73u8, 0x65u8, 0x73u8];
    proof {
        assert(chosen_path@ =~= name_chosen());
        assert(stdout_name@ =~= name_stdout_path());
        assert(aliases_path@ =~= name_aliases());
    }
    let chosen = match fdt.find_node(&chosen_path) {
        None => return Err(ConsoleDiscoveryError::MissingChosen),
        Some(c) => c,
    };
    let value = match fdt.property_value(chosen, &stdout_name) {
        None => return Err(ConsoleDiscoveryError::MissingStdoutPath),
        Some(v) => v,
    };
    let text = match cstr(value) {
        None => return Err(ConsoleDiscoveryError::InvalidStdoutPath),
        Some(t) => t,
    };
    let end = find_byte(text, 0, 0x3a);
    let selector = &text[0..end];
    proof {
        assert(selector@ =~= text@.subrange(0, index_from(text@, 0, 0x3a)));
    }
    if selector.len() == 0 {
        return Err(ConsoleDiscoveryError::InvalidStdoutPath);
    }
    if selector[0] == 0x2f {
        return Ok(selector);
    }
    let aliases = match fdt.find_node(&aliases_path) {
        None => return Err(ConsoleDiscoveryError::MissingAliases),
        Some(a) => a,
    };
    let alias = match fdt.property_value(aliases, selector) {
        None => return Err(ConsoleDiscoveryError::MissingAlias),
        Some(v) => v,
    };
    match cstr(alias) {
        None => Err(ConsoleDiscoveryError::MissingAlias),
        Some(path) => Ok(path),
    }
}

/// The console error for a failed address translation.
pub open spec fn console_translate_error(e: TranslateError) -> ConsoleDiscoveryError {
    match e {
        TranslateError::MissingParent => ConsoleDiscoveryError::MissingParent,
        TranslateError::MissingRanges => ConsoleDiscoveryError::MissingRanges,
        TranslateError::AddressNotMapped => ConsoleDiscoveryError::AddressNotMapped,
        TranslateError::AddressOverflow => ConsoleDiscoveryError::AddressOverflow,
    }
}

/// Carries the console's bus address `address` to the CPU's physical
/// address space, through the `ranges` of every bus above `device_path`.
pub fn translate_to_cpu_address(fdt: &DeviceTree, device_path: &[u8], address: u64) -> (r: Result<
    u64,
    ConsoleDiscoveryError,
>)
    requires
        fdt.wf(),
    ensures
        r == (match translate_device(*fdt, device_path@, address) {
            Ok(a) => Ok(a),
            Err(e) => Err(console_translate_error(e)),
        }),
{
    match fdt.translate_device(device_path, address) {
        Ok(a) => Ok(a),
        Err(TranslateError::MissingParent) => Err(ConsoleDiscoveryError::MissingParent),
        Err(TranslateError::MissingRanges) => Err(ConsoleDiscoveryError::MissingRanges),
        Err(TranslateError::AddressNotMapped) => Err(ConsoleDiscoveryError::AddressNotMapped),
        Err(TranslateError::AddressOverflow) => Err(ConsoleDiscoveryError::AddressOverflow),
    }
}

/// The console that `stdout-path` selects: an enabled Mini UART whose first
/// `reg` entry, at least `0x18` bytes, lies at a non-zero, 4-byte-aligned
/// CPU address once translated, with a level-high SPI.
pub open spec fn console_of(t: DeviceTree) -> Result<ConsoleInfo, ConsoleDiscoveryError> {
    console_at(t, stdout_path_of(t))
}

/// The console at the path that `selected` gives, or its error.
pub open spec fn console_at(t: DeviceTree, selected: Result<Seq<u8>, ConsoleDiscoveryError>) -> Result<
    ConsoleInfo,
    ConsoleDiscoveryError,
> {
    match selected {
        Err(e) => Err(e),
        Ok(path) => match find_node_spec(t, path) {
            None => Err(ConsoleDiscoveryError::MissingConsoleNode),
            Some(n) => if !status_okay(t, n) {
                Err(ConsoleDiscoveryError::ConsoleDisabled)
            } else if !compatible_with(t, n, name_mini_uart()) {
                Err(ConsoleDiscoveryError::UnsupportedConsole)
            } else {
                match reg_entry(t, n, 0) {
                    None => Err(ConsoleDiscoveryError::MissingRegister),
                    Some(ArrayEntry::Missing) => Err(ConsoleDiscoveryError::MissingRegister),
                    Some(ArrayEntry::Found(address, size, _)) => if size < 0x18 {
                        Err(ConsoleDiscoveryError::InvalidRegister)
                    } else {
                        match translate_device(t, path, address) {
                            Err(e) => Err(console_translate_error(e)),
                            Ok(pa) => if pa == 0 || pa % 4 != 0 || pa + size > u64::MAX {
                                Err(ConsoleDiscoveryError::InvalidRegister)
                            } else {
                                match prop_of(t, n, name_interrupts()) {
                                    None => Err(ConsoleDiscoveryError::MissingInterrupt),
                                    Some(v) => match console_irq_of(v) {
                                        Err(e) => Err(e),
                                        Ok(irq) => Ok(
                                            ConsoleInfo {
                                                kind: ConsoleKind::MiniUart,
                                                registers: PhysRegion::spec_new(pa, size),
                                                irq,
                                            },
                                        ),
                                    },
                                }
                            },
                        }
                    },
                    Some(_) => Err(ConsoleDiscoveryError::InvalidRegister),
                }
            },
        },
    }
}

/// Discovers the active console without touching it: the node that
/// `/chosen/stdout-path` selects, directly or through an alias, with its
/// first `reg` entry translated through every ancestor bus's `ranges` into
/// the CPU's physical address space, and its GIC interrupt.
pub fn discover_console(fdt: &DeviceTree) -> (r: Result<ConsoleInfo, ConsoleDiscoveryError>)
    requires
        fdt.wf(),
    ensures
        r == console_of(*fdt),
{
    let path = resolve_stdout_path(fdt)?;
    let node = match fdt.find_node(path) {
        None => return Err(ConsoleDiscoveryError::MissingConsoleNode),
        Some(n) => n,
    };
    if !fdt.status_okay(node) {
        return Err(ConsoleDiscoveryError::ConsoleDisabled);
    }
    let uart: [u8; 21] = [0x62u8, 0x72u8, 0x63u8, 0x6du8, 0x2cu8, 0x62u8, 0x63u8, 0x6du8, 0x32u8, 0x38u8, 0x33u8, 0x35u8, 0x2du8, 0x61u8, 0x75u8, 0x78u8, 0x2du8, 0x75u8, 0x61u8, 0x72u8, 0x74u8];
    let interrupts_name: [u8; 10] = [0x69u8, 0x6eu8, 0x74u8, 0x65u8, 0x72u8, 0x72u8, 0x75u8, 0x70u8, 0x74u8, 0x73u8];
    proof {
        assert(uart@ =~= name_mini_uart());
        assert(interrupts_name@ =~= name_interrupts());
    }
    if !fdt.is_compatible(node, &uart) {
        return Err(ConsoleDiscoveryError::UnsupportedConsole);
    }
    let kind = ConsoleKind::MiniUart;
    let (bus_address, register_size) = match fdt.reg_entry(node, 0) {
        None => return Err(ConsoleDiscoveryError::MissingRegister),
        Some(ArrayEntry::Missing) => return Err(ConsoleDiscoveryError::MissingRegister),
        Some(ArrayEntry::Found(address, size, _)) => (address, size),
        Some(_) => return Err(ConsoleDiscoveryError::InvalidRegister),
    };
    if register_size < kind.min_register_size() {
        return Err(ConsoleDiscoveryError::InvalidRegister);
    }
    let physical_address = translate_to_cpu_address(fdt, path, bus_address)?;
    if physical_address == 0 || physical_address % kind.min_alignment() != 0 {
        return Err(ConsoleDiscoveryError::InvalidRegister);
    }
    let registers = match PhysRegion::new(PhysAddr::new(physical_address), register_size) {
        Ok(r) => r,
        Err(_) => return Err(ConsoleDiscoveryError::InvalidRegister),
    };
    let interrupts = match fdt.property_value(node, &interrupts_name) {
        None => return Err(ConsoleDiscoveryError::MissingInterrupt),
        Some(v) => v,
    };
    let irq = decode_console_gic_spi(interrupts)?;
    Ok(ConsoleInfo { kind, registers, irq })
}

// ----- GICv2 discovery -----

#[derive(Debug, Clone, Copy, PartialEq, Eq, Structural)]
pub enum GicV2DiscoveryError {
    MissingController,
    DisabledController,
    InvalidRegister,
    MissingRegister,
    InvalidRegion,
    MissingParent,
    MissingRanges,
    AddressNotMapped,
    AddressOverflow,
    PathTooLong,
}

/// The longest DTB path that GICv2 discovery follows.
pub const MAX_FDT_PATH: usize = 256;

/// The GICv2 error for a failed address translation.
pub open spec fn gic_translate_error(e: TranslateError) -> GicV2DiscoveryError {
    match e {
        TranslateError::MissingParent => GicV2DiscoveryError::MissingParent,
        TranslateError::MissingRanges => GicV2DiscoveryError::MissingRanges,
        TranslateError::AddressNotMapped => GicV2DiscoveryError::AddressNotMapped,
        TranslateError::AddressOverflow => GicV2DiscoveryError::AddressOverflow,
    }
}

/// Whether node `i` is a GICv2 interrupt controller tvisor supports.
pub open spec fn is_gic_v2(t: DeviceTree, i: int) -> bool {
    compatible_with(t, i, name_gic_400()) || compatible_with(t, i, name_gic_a15())
}

/// The first node, in document order from node `i` on, that is a supported
/// GICv2; an error at the first node before it whose path is longer than
/// [`MAX_FDT_PATH`].
pub open spec fn gic_search(t: DeviceTree, i: int) -> Result<Option<int>, GicV2DiscoveryError>
    decreases t.node_count() - i,
{
    if i < 0 || i >= t.node_count() {
        Ok(None)
    } else if i > 0 && path_of(t, i).len() > MAX_FDT_PATH {
        Err(GicV2DiscoveryError::PathTooLong)
    } else if is_gic_v2(t, i) {
        Ok(Some(i))
    } else {
        gic_search(t, i + 1)
    }
}

/// Interface `k` of the GIC at node `n` and `path`: `reg` entry `k`,
/// translated to a CPU physical region.
pub open spec fn gic_region(t: DeviceTree, n: int, path: Seq<u8>, k: int) -> Result<
    PhysRegion,
    GicV2DiscoveryError,
> {
    match reg_entry(t, n, k) {
        None => Err(GicV2DiscoveryError::MissingRegister),
        Some(ArrayEntry::Missing) => Err(GicV2DiscoveryError::MissingRegister),
        Some(ArrayEntry::Found(address, size, _)) => match translate_device(t, path, address) {
            Err(e) => Err(gic_translate_error(e)),
            Ok(pa) => if size == 0 || pa + size > u64::MAX {
                Err(GicV2DiscoveryError::InvalidRegion)
            } else {
                Ok(PhysRegion::spec_new(pa, size))
            },
        },
        Some(_) => Err(GicV2DiscoveryError::InvalidRegister),
    }
}

/// The four interfaces of the GIC at node `n`, in `reg` order: distributor,
/// CPU interface, hypervisor interface, virtual CPU interface.
pub open spec fn gic_regions(t: DeviceTree, n: int, path: Seq<u8>) -> Result<
    (PhysRegion, PhysRegion, PhysRegion, PhysRegion),
    GicV2DiscoveryError,
> {
    match gic_region(t, n, path, 0) {
        Err(e) => Err(e),
        Ok(d) => match gic_region(t, n, path, 1) {
            Err(e) => Err(e),
            Ok(c) => match gic_region(t, n, path, 2) {
                Err(e) => Err(e),
                Ok(h) => match gic_region(t, n, path, 3) {
                    Err(e) => Err(e),
                    Ok(v) => Ok((d, c, h, v)),
                },
            },
        },
    }
}

/// Some interface is smaller than the registers tvisor uses.
pub open spec fn gic_too_small(r: (PhysRegion, PhysRegion, PhysRegion, PhysRegion)) -> bool {
    r.0.size_spec() < REQUIRED_GICD_SIZE || r.1.size_spec() < REQUIRED_GICC_SIZE
        || r.2.size_spec() < REQUIRED_GICH_SIZE || r.3.size_spec() < REQUIRED_GICV_SIZE
}

/// `info` describes exactly the four interfaces `r`.
pub open spec fn gic_info_is(info: GicV2Info, r: (PhysRegion, PhysRegion, PhysRegion, PhysRegion)) -> bool {
    &&& info.distributor_spec() == r.0
    &&& info.cpu_interface_spec() == r.1
    &&& info.hypervisor_interface_spec() == r.2
    &&& info.virtual_cpu_interface_spec() == r.3
}

/// What decoding the GIC at node `n` and `path` gives.
pub open spec fn gic_decoded(
    t: DeviceTree,
    n: int,
    path: Seq<u8>,
    r: Result<GicV2Info, GicV2DiscoveryError>,
) -> bool {
    match gic_regions(t, n, path) {
        Err(e) => r == Err::<GicV2Info, GicV2DiscoveryError>(e),
        Ok(regions) => if gic_too_small(regions) {
            r == Err::<GicV2Info, GicV2DiscoveryError>(GicV2DiscoveryError::InvalidRegion)
        } else {
            r matches Ok(info) && gic_info_is(info, regions)
        },
    }
}

/// Carries the GIC's bus address `address` to the CPU's physical address
/// space, through the `ranges` of every bus above `device_path`.
pub fn translate_gic_to_cpu_address(fdt: &DeviceTree, device_path: &[u8], address: u64) -> (r:
    Result<u64, GicV2DiscoveryError>)
    requires
        fdt.wf(),
    ensures
        r == (match translate_device(*fdt, device_path@, address) {
            Ok(a) => Ok(a),
            Err(e) => Err(gic_translate_error(e)),
        }),
{
    match fdt.translate_device(device_path, address) {
        Ok(a) => Ok(a),
        Err(TranslateError::MissingParent) => Err(GicV2DiscoveryError::MissingParent),
        Err(TranslateError::MissingRanges) => Err(GicV2DiscoveryError::MissingRanges),
        Err(TranslateError::AddressNotMapped) => Err(GicV2DiscoveryError::AddressNotMapped),
        Err(TranslateError::AddressOverflow) => Err(GicV2DiscoveryError::AddressOverflow),
    }
}

fn gic_interface(fdt: &DeviceTree, node: usize, path: &[u8], k: usize) -> (r: Result<
    PhysRegion,
    GicV2DiscoveryError,
>)
    requires
        fdt.wf(),
        node < fdt.node_count(),
    ensures
        r == gic_region(*fdt, node as int, path@, k as int),
{
    let (address, size) = match fdt.reg_entry(node, k) {
        None => return Err(GicV2DiscoveryError::MissingRegister),
        Some(ArrayEntry::Missing) => return Err(GicV2DiscoveryError::MissingRegister),
        Some(ArrayEntry::Found(address, size, _)) => (address, size),
        Some(_) => return Err(GicV2DiscoveryError::InvalidRegister),
    };
    let address = translate_gic_to_cpu_address(fdt, path, address)?;
    match PhysRegion::new(PhysAddr::new(address), size) {
        Ok(region) => Ok(region),
        Err(_) => Err(GicV2DiscoveryError::InvalidRegion),
    }
}

/// Decodes the GIC at `node`, whose path is `path`: its first four `reg`
/// entries, each translated to the CPU's physical address space, are the
/// distributor, CPU interface, hypervisor interface and virtual CPU
/// interface.
pub fn decode_gic_v2(fdt: &DeviceTree, node: usize, path: &[u8]) -> (r: Result<
    GicV2Info,
    GicV2DiscoveryError,
>)
    requires
        fdt.wf(),
        node < fdt.node_count(),
    ensures
        gic_decoded(*fdt, node as int, path@, r),
{
    let distributor = gic_interface(fdt, node, path, 0)?;
    let cpu_interface = gic_interface(fdt, node, path, 1)?;
    let hypervisor_interface = gic_interface(fdt, node, path, 2)?;
    let virtual_cpu_interface = gic_interface(fdt, node, path, 3)?;
    match GicV2Info::new(distributor, cpu_interface, hypervisor_interface, virtual_cpu_interface) {
        Some(info) => Ok(info),
        None => Err(GicV2DiscoveryError::InvalidRegion),
    }
}

/// What GICv2 discovery gives: the first supported GICv2 in document order,
/// enabled, decoded.
pub open spec fn gic_discovered(t: DeviceTree, r: Result<GicV2Info, GicV2DiscoveryError>) -> bool {
    match gic_search(t, 0) {
        Err(e) => r == Err::<GicV2Info, GicV2DiscoveryError>(e),
        Ok(None) => r == Err::<GicV2Info, GicV2DiscoveryError>(
            GicV2DiscoveryError::MissingController,
        ),
        Ok(Some(n)) => if !status_okay(t, n) {
            r == Err::<GicV2Info, GicV2DiscoveryError>(GicV2DiscoveryError::DisabledController)
        } else if !valid_utf8(path_of(t, n)) {
            r == Err::<GicV2Info, GicV2DiscoveryError>(GicV2DiscoveryError::InvalidRegister)
        } else {
            gic_decoded(t, n, path_of(t, n), r)
        },
    }
}

/// Finds the first supported GICv2 controller in document order, the order
/// of a depth-first walk from the root; none when there is none. A node
/// whose path exceeds [`MAX_FDT_PATH`] before it ends the search with an
/// error.
pub fn find_gic_v2(fdt: &DeviceTree) -> (r: Result<Option<GicV2Info>, GicV2DiscoveryError>)
    requires
        fdt.wf(),
    ensures
        match r {
            Ok(None) => gic_search(*fdt, 0) == Ok::<Option<int>, GicV2DiscoveryError>(None),
            Ok(Some(info)) => gic_discovered(*fdt, Ok(info)),
            Err(e) => e != GicV2DiscoveryError::MissingController && gic_discovered(*fdt, Err(e)),
        },
{
    let gic_400: [u8; 11] = [0x61u8, 0x72u8, 0x6du8, 0x2cu8, 0x67u8, 0x69u8, 0x63u8, 0x2du8, 0x34u8, 0x30u8, 0x30u8];
    let gic_a15: [u8; 18] = [0x61u8, 0x72u8, 0x6du8, 0x2cu8, 0x63u8, 0x6fu8, 0x72u8, 0x74u8, 0x65u8, 0x78u8, 0x2du8, 0x61u8, 0x31u8, 0x35u8, 0x2du8, 0x67u8, 0x69u8, 0x63u8];
    proof {
        assert(gic_400@ =~= name_gic_400());
        assert(gic_a15@ =~= name_gic_a15());
    }
    let count = fdt.len();
    // The capped path length of every node visited so far.
    let mut lengths: Vec<usize> = Vec::new();
    let mut i: usize = 0;
    while i < count
        invariant
            fdt.wf(),
            count == fdt.node_count(),
            i <= count,
            lengths@.len() == i,
            forall|j: int| 0 <= j < i ==> #[trigger] lengths@[j] == capped_path_len(*fdt, j),
            gic_search(*fdt, 0) == gic_search(*fdt, i as int),
            gic_400@ == name_gic_400(),
            gic_a15@ == name_gic_a15(),
        decreases count - i,
    {
        let length: usize = if i == 0 {
            1
        } else {
            let p = fdt.parent(i);
            let base: usize = if p == 0 {
                1
            } else {
                lengths[p] + 1
            };
            let name_len = fdt.name(i).len();
            if name_len >= 257 || base + name_len > 257 {
                257
            } else {
                base + name_len
            }
        };
        proof {
            reveal_with_fuel(path_of, 2);
            if i > 0 {
                let p = fdt.parent_of_node(i as int);
                assert(p < i);
            }
            assert(length == capped_path_len(*fdt, i as int));
        }
        lengths.push(length);
        if i > 0 && length > MAX_FDT_PATH {
            return Err(GicV2DiscoveryError::PathTooLong);
        }
        if fdt.is_compatible(i, &gic_400) || fdt.is_compatible(i, &gic_a15) {
            if !fdt.status_okay(i) {
                return Err(GicV2DiscoveryError::DisabledController);
            }
            let path = fdt.path(i);
            if !is_utf8(path.as_slice()) {
                return Err(GicV2DiscoveryError::InvalidRegister);
            }
            return match decode_gic_v2(fdt, i, path.as_slice()) {
                Ok(info) => Ok(Some(info)),
                Err(e) => Err(e),
            };
        }
        i += 1;
    }
    Ok(None)
}

/// Discovers the four GICv2 interfaces that hardware-backed list-register
/// delivery needs: the first supported, enabled GICv2 controller's `reg`
/// entries, translated through every parent bus's `ranges` into the CPU's
/// physical address space, in the order distributor, CPU interface,
/// hypervisor interface, virtual CPU interface.
pub fn discover_gic_v2(fdt: &DeviceTree) -> (r: Result<GicV2Info, GicV2DiscoveryError>)
    requires
        fdt.wf(),
    ensures
        gic_discovered(*fdt, r),
{
    match find_gic_v2(fdt)? {
        Some(info) => Ok(info),
        None => Err(GicV2DiscoveryError::MissingController),
    }
}

impl GicV2DiscoveryError {
    /// Why no GICv2 was found, in words.
    pub open spec fn message(self) -> Seq<char> {
        match self {
            GicV2DiscoveryError::MissingController => "no supported GICv2 interrupt controller is present"@,
            GicV2DiscoveryError::DisabledController => "the GICv2 interrupt controller is disabled"@,
            GicV2DiscoveryError::InvalidRegister => "the GICv2 reg property is invalid"@,
            GicV2DiscoveryError::MissingRegister => "the GICv2 reg property lacks a required interface"@,
            GicV2DiscoveryError::InvalidRegion => "a GICv2 interface is too small or unaligned"@,
            GicV2DiscoveryError::MissingParent => "the GICv2 node has no parent bus"@,
            GicV2DiscoveryError::MissingRanges => "a GICv2 parent bus has no ranges property"@,
            GicV2DiscoveryError::AddressNotMapped => "a GICv2 register address is not covered by parent ranges"@,
            GicV2DiscoveryError::AddressOverflow => "a GICv2 register address overflows"@,
            GicV2DiscoveryError::PathTooLong => "the GICv2 DTB path exceeds the supported length"@,
        }
    }

    /// The error in words.
    pub fn to_string(&self) -> (r: String)
        ensures
            r@ == self.message(),
    {
        let text = match self {
            GicV2DiscoveryError::MissingController => "no supported GICv2 interrupt controller is present",
            GicV2DiscoveryError::DisabledController => "the GICv2 interrupt controller is disabled",
            GicV2DiscoveryError::InvalidRegister => "the GICv2 reg property is invalid",
            GicV2DiscoveryError::MissingRegister => "the GICv2 reg property lacks a required interface",
            GicV2DiscoveryError::InvalidRegion => "a GICv2 interface is too small or unaligned",
            GicV2DiscoveryError::MissingParent => "the GICv2 node has no parent bus",
            GicV2DiscoveryError::MissingRanges => "a GICv2 parent bus has no ranges property",
            GicV2DiscoveryError::AddressNotMapped => "a GICv2 register address is not covered by parent ranges",
            GicV2DiscoveryError::AddressOverflow => "a GICv2 register address overflows",
            GicV2DiscoveryError::PathTooLong => "the GICv2 DTB path exceeds the supported length",
        };
        String::from_str(text)
    }
}

/// Why the DTB could not become tvisor's device tree.
#[derive(Debug, Clone, Copy, PartialEq, Eq, Structural)]
pub enum FdtInitError {
    AlreadyInitialized,
    Parse(FdtParseError),
}

impl FdtInitError {
    /// Why the DTB was not taken, in words.
    pub open spec fn message(self) -> Seq<char> {
        match self {
            FdtInitError::AlreadyInitialized => "the global FDT has already been initialized"@,
            FdtInitError::Parse(e) => "failed to parse FDT: "@ + e.debug_text(),
        }
    }

    /// The error in words.
    pub fn to_string(&self) -> (r: String)
        ensures
            r@ == self.message(),
    {
        match self {
            FdtInitError::AlreadyInitialized => {
                String::from_str("the global FDT has already been initialized")
            }
            FdtInitError::Parse(e) => {
                let mut text = String::from_str("failed to parse FDT: ");
                let inner = e.to_string();
                text.append(inner.as_str());
                text
            }
        }
    }
}

} // verus!
