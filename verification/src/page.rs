//! Page-size and power-of-two alignment arithmetic.
use vstd::prelude::*;
use vstd::arithmetic::power2::pow2;
use vstd::arithmetic::div_mod::{lemma_fundamental_div_mod, lemma_mod_multiples_basic};
use vstd::bits::{lemma_u64_low_bits_mask_is_mod, low_bits_mask};

verus! {

pub const PAGE_SIZE: usize = 0x1000;

/// `x` is a power of two that a 64-bit register can hold.
pub open spec fn is_pow2(x: int) -> bool {
    exists|k: nat| k < 64 && x == pow2(k)
}

/// The smallest multiple of `alignment` that is not below `value`.
pub open spec fn round_up(value: int, alignment: int) -> int {
    value + (alignment - value % alignment) % alignment
}

/// Whether `x` is a power of two: it equals `1 << k` for some `k` below 64.
pub(crate) fn u64_is_power_of_two(x: u64) -> (r: bool)
    ensures
        r == is_pow2(x as int),
{
    let mut k: u64 = 0;
    while k < 64
        invariant
            k <= 64,
            forall|j: nat| j < k ==> x != pow2(j),
        decreases 64 - k,
    {
        proof {
            vstd::bits::lemma_u64_pow2_no_overflow(k as nat);
            vstd::bits::lemma_u64_shl_is_mul(1, k);
        }
        if x == 1u64 << k {
            return true;
        }
        k += 1;
    }
    false
}

/// Whether `x` is a power of two, as [`u64_is_power_of_two`] decides it.
pub(crate) fn usize_is_power_of_two(x: usize) -> (r: bool)
    ensures
        r == is_pow2(x as int),
{
    u64_is_power_of_two(x as u64)
}

/// Masking with `alignment - 1` is the remainder modulo a power of two, and
/// masking with its complement rounds down.
pub proof fn lemma_pow2_mask(x: u64, a: u64)
    requires
        is_pow2(a as int),
    ensures
        a >= 1,
        x & ((a - 1) as u64) == x % a,
        x & !((a - 1) as u64) == x - x % a,
{
    let k = choose|k: nat| k < 64 && a == pow2(k);
    vstd::arithmetic::power2::lemma_pow2_pos(k);
    assert(low_bits_mask(k) == a - 1);
    lemma_u64_low_bits_mask_is_mod(x, k);
    let m = (a - 1) as u64;
    assert(x & !m == x - (x & m)) by (bit_vector);
}

/// The `usize` form of [`lemma_pow2_mask`].
pub proof fn lemma_pow2_mask_usize(x: usize, a: usize)
    requires
        is_pow2(a as int),
    ensures
        a >= 1,
        x & ((a - 1) as usize) == x % a,
        x & !((a - 1) as usize) == x - x % a,
{
    lemma_pow2_mask(x as u64, a as u64);
    let m = (a - 1) as usize;
    assert((x & m) as u64 == (x as u64) & (m as u64)) by (bit_vector);
    assert((x & !m) as u64 == (x as u64) & !(m as u64)) by (bit_vector);
}

/// Rounding `y` down to a multiple of `a` produces such a multiple.
pub proof fn lemma_round_down_multiple(y: int, a: int)
    requires
        a > 0,
        y >= 0,
    ensures
        (y - y % a) % a == 0,
        y - y % a > y - a,
        y - y % a <= y,
{
    lemma_fundamental_div_mod(y, a);
    lemma_mod_multiples_basic(y / a, a);
    assert(y - y % a == a * (y / a));
    assert((a * (y / a)) % a == 0) by {
        lemma_mod_multiples_basic(y / a, a);
        assert(y / a * a == a * (y / a)) by (nonlinear_arith);
    }
}

/// `round_up` is the unique multiple of `a` in `[value, value + a)`.
pub proof fn lemma_round_up(value: int, a: int)
    requires
        a > 0,
        value >= 0,
    ensures
        round_up(value, a) % a == 0,
        value <= round_up(value, a) < value + a,
        round_up(value, a) == (value + a - 1) - (value + a - 1) % a,
{
    let y = value + a - 1;
    lemma_round_down_multiple(y, a);
    lemma_fundamental_div_mod(value, a);
    lemma_fundamental_div_mod(y, a);
    if value % a == 0 {
        vstd::arithmetic::div_mod::lemma_mod_self_0(a);
        assert(round_up(value, a) == value);
        assert(y % a == a - 1) by {
            vstd::arithmetic::div_mod::lemma_mod_add_multiples_vanish(a - 1, a);
            assert(value == a * (value / a));
            vstd::arithmetic::div_mod::lemma_mod_multiples_vanish(value / a, a - 1, a);
            vstd::arithmetic::div_mod::lemma_small_mod((a - 1) as nat, a as nat);
        }
    } else {
        vstd::arithmetic::div_mod::lemma_small_mod((a - value % a) as nat, a as nat);
        assert(round_up(value, a) == value + a - value % a);
        assert(y % a == value % a - 1) by {
            assert(y == a * (value / a) + (value % a - 1) + a);
            vstd::arithmetic::div_mod::lemma_mod_multiples_vanish(value / a + 1, value % a - 1, a);
            assert(a * (value / a) + (value % a - 1) + a == a * (value / a + 1) + (value % a - 1)) by (nonlinear_arith);
            vstd::arithmetic::div_mod::lemma_small_mod((value % a - 1) as nat, a as nat);
        }
    }
}

pub fn is_page_aligned(addr: usize) -> (r: bool)
    ensures
        r == (addr % PAGE_SIZE == 0),
{
    proof {
        lemma_page_size_pow2();
    }
    is_aligned(addr, PAGE_SIZE)
}

pub proof fn lemma_page_size_pow2()
    ensures
        is_pow2(PAGE_SIZE as int),
        is_pow2(0x20_0000),
        is_pow2(0x4000_0000),
{
    vstd::arithmetic::power2::lemma2_to64();
    assert(pow2(12) == 4096);
    assert(pow2(21) == 0x20_0000);
    assert(pow2(30) == 0x4000_0000);
}

pub fn is_aligned(addr: usize, alignment: usize) -> (r: bool)
    ensures
        r == (is_pow2(alignment as int) && addr % alignment == 0),
{
    if !usize_is_power_of_two(alignment) {
        return false;
    }
    proof {
        lemma_pow2_mask_usize(addr, alignment);
    }
    addr & (alignment - 1) == 0
}

pub fn align_down(value: usize, alignment: usize) -> (r: Option<usize>)
    ensures
        r == (if is_pow2(alignment as int) {
            Some((value - value % alignment) as usize)
        } else {
            None::<usize>
        }),
{
    if !usize_is_power_of_two(alignment) {
        return None;
    }
    proof {
        lemma_pow2_mask_usize(value, alignment);
    }
    Some(value & !(alignment - 1))
}

pub fn align_up(value: usize, alignment: usize) -> (r: Option<usize>)
    ensures
        r == (if is_pow2(alignment as int) && value + alignment - 1 <= usize::MAX {
            Some(round_up(value as int, alignment as int) as usize)
        } else {
            None::<usize>
        }),
{
    if !usize_is_power_of_two(alignment) {
        return None;
    }
    proof {
        lemma_pow2_mask_usize(0, alignment);
    }
    match value.checked_add(alignment - 1) {
        Some(v) => {
            proof {
                lemma_pow2_mask_usize(v, alignment);
                lemma_round_up(value as int, alignment as int);
            }
            Some(v & !(alignment - 1))
        },
        None => None,
    }
}

pub fn page_offset(addr: usize) -> (r: usize)
    ensures
        r == addr % PAGE_SIZE,
{
    assert(addr & 0xfff == addr % 4096) by (bit_vector);
    addr & (PAGE_SIZE - 1)
}

pub fn page_address(addr: usize) -> (r: usize)
    ensures
        r == addr - addr % PAGE_SIZE,
{
    assert(addr & !0xfffusize == addr - addr % 4096) by (bit_vector);
    addr & !(PAGE_SIZE - 1)
}

/// Number of pages needed to hold `value` bytes.
pub fn round_up_to_page(value: usize) -> (r: usize)
    ensures
        r == round_up(value as int, PAGE_SIZE as int) / PAGE_SIZE as int,
{
    proof {
        lemma_round_up(value as int, PAGE_SIZE as int);
    }
    if is_page_aligned(value) {
        value / PAGE_SIZE
    } else {
        proof {
            lemma_fundamental_div_mod(value as int, PAGE_SIZE as int);
            assert(round_up(value as int, 4096) == value + 4096 - value % 4096);
            assert(round_up(value as int, 4096) == 4096 * (value / 4096 + 1)) by (nonlinear_arith)
                requires
                    round_up(value as int, 4096) == value + 4096 - value % 4096,
                    value == 4096 * (value / 4096) + value % 4096;
        }
        value / PAGE_SIZE + 1
    }
}

/// A masked value is at most its mask.
pub proof fn lemma_mask_bounds()
    by (bit_vector)
    ensures
        forall|x: u64, m: u64| #[trigger] (x & m) <= m,
        forall|x: u32, m: u32| #[trigger] (x & m) <= m,
{
}

/// The low bits of an address are its offset within an aligned block, and
/// clearing them rounds it down.
pub proof fn lemma_low_bits()
    by (bit_vector)
    ensures
        forall|x: u64| #[trigger] (x & 0xfffu64) == x % 4096,
        forall|x: u64| #[trigger] (x & 0xfu64) == x % 16,
        forall|x: u64| #[trigger] (x & 0x1f_ffffu64) == x % 0x20_0000,
        forall|x: u64| #[trigger] (x & !0xfffu64) == x - x % 4096,
{
}

/// Shifts and masks of constants that the address arithmetic uses.
pub proof fn lemma_bit_constants()
    by (bit_vector)
    ensures
        1u64 << 39u64 == 0x80_0000_0000u64,
        1u64 << 39u8 == 0x80_0000_0000u64,
        1u64 << 48u64 == 0x1_0000_0000_0000u64,
        1u64 << 3u64 == 8u64,
        0u64 & 1u64 == 0u64,
        1u64 | 2u64 == 3u64,
{
}

} // verus!
