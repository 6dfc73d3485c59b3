//! Numbers and flags rendered as text, digit by digit.
use vstd::prelude::*;
use vstd::string::StringExecFns;

verus! {

/// The lowercase hexadecimal digit of `d`.
pub open spec fn hex_char(d: int) -> char {
    if d < 10 {
        (0x30 + d) as char
    } else {
        (0x61 + d - 10) as char
    }
}

/// The decimal digit of `d`.
pub open spec fn dec_char(d: int) -> char {
    (0x30 + d) as char
}

/// `0x` and the sixteen hexadecimal digits of `v`, most significant first.
pub open spec fn hex_text(v: u64) -> Seq<char> {
    seq!['0', 'x'] + Seq::new(16, |i: int| hex_char(((v >> ((60 - 4 * i) as u64)) & 0xf) as int))
}

/// The decimal digits of `n`, without leading zeros.
pub open spec fn dec_text(n: nat) -> Seq<char>
    decreases n,
{
    if n < 10 {
        seq![dec_char(n as int)]
    } else {
        dec_text(n / 10) + seq![dec_char((n % 10) as int)]
    }
}

pub(crate) fn hex_digit_str(d: u64) -> (r: &'static str)
    requires
        d < 16,
    ensures
        r@ == seq![hex_char(d as int)],
{
    proof {
        reveal_strlit("0");
        reveal_strlit("1");
        reveal_strlit("2");
        reveal_strlit("3");
        reveal_strlit("4");
        reveal_strlit("5");
        reveal_strlit("6");
        reveal_strlit("7");
        reveal_strlit("8");
        reveal_strlit("9");
        reveal_strlit("a");
        reveal_strlit("b");
        reveal_strlit("c");
        reveal_strlit("d");
        reveal_strlit("e");
        reveal_strlit("f");
    }
    let r = match d {
        0 => "0",
        1 => "1",
        2 => "2",
        3 => "3",
        4 => "4",
        5 => "5",
        6 => "6",
        7 => "7",
        8 => "8",
        9 => "9",
        10 => "a",
        11 => "b",
        12 => "c",
        13 => "d",
        14 => "e",
        _ => "f",
    };
    proof {
        assert(r@ =~= seq![hex_char(d as int)]);
    }
    r
}

/// Appends `0x` and the sixteen hexadecimal digits of `value`.
pub(crate) fn append_hex(text: &mut String, value: u64)
    ensures
        final(text)@ == old(text)@ + hex_text(value),
{
    proof {
        reveal_strlit("0x");
    }
    text.append("0x");
    let ghost start = old(text)@;
    let mut i: u64 = 0;
    while i < 16
        invariant
            i <= 16,
            text@ == start + seq!['0', 'x'] + Seq::new(
                i as nat,
                |k: int| hex_char(((value >> ((60 - 4 * k) as u64)) & 0xf) as int),
            ),
        decreases 16 - i,
    {
        let digit = (value >> (60 - 4 * i)) & 0xf;
        proof {
            crate::page::lemma_mask_bounds();
        }
        let ghost before = text@;
        text.append(hex_digit_str(digit));
        proof {
            assert(text@ =~= start + seq!['0', 'x'] + Seq::new(
                (i + 1) as nat,
                |k: int| hex_char(((value >> ((60 - 4 * k) as u64)) & 0xf) as int),
            ));
        }
        i += 1;
    }
    proof {
        assert(text@ =~= old(text)@ + hex_text(value));
    }
}

/// Appends the decimal digits of `n`.
pub(crate) fn append_decimal(text: &mut String, n: u64)
    ensures
        final(text)@ == old(text)@ + dec_text(n as nat),
    decreases n,
{
    if n >= 10 {
        append_decimal(text, n / 10);
    }
    text.append(hex_digit_str(n % 10));
    proof {
        assert(hex_char((n % 10) as int) == dec_char((n % 10) as int));
        if n >= 10 {
            assert(final(text)@ =~= old(text)@ + dec_text(n as nat));
        } else {
            assert(final(text)@ =~= old(text)@ + dec_text(n as nat));
        }
    }
}

/// The low `width` hexadecimal digits of `v`, most significant first.
pub open spec fn hex_digits(v: nat, width: nat) -> Seq<char>
    decreases width,
{
    if width == 0 {
        seq![]
    } else {
        hex_digits(v / 16, (width - 1) as nat) + seq![hex_char((v % 16) as int)]
    }
}

/// The hexadecimal digits of `v` without leading zeros (`0` for zero).
pub open spec fn hex_min(v: nat) -> Seq<char>
    decreases v,
{
    if v < 16 {
        seq![hex_char(v as int)]
    } else {
        hex_min(v / 16) + seq![hex_char((v % 16) as int)]
    }
}

/// `0x` and the hexadecimal digits of `v` without leading zeros.
pub open spec fn hex_prefixed(v: nat) -> Seq<char> {
    seq!['0', 'x'] + hex_min(v)
}

/// `0x` and exactly `width` hexadecimal digits of `v`, zero-padded; for a
/// `v` below `16` to the power `width`, the digits of `v`.
pub open spec fn hex_wide(v: nat, width: nat) -> Seq<char> {
    seq!['0', 'x'] + hex_digits(v, width)
}

/// `true` or `false`.
pub open spec fn bool_text(b: bool) -> Seq<char> {
    if b {
        "true"@
    } else {
        "false"@
    }
}

/// Appends the low `width` hexadecimal digits of `v`.
fn append_hex_digits(text: &mut String, v: u64, width: u64)
    ensures
        final(text)@ == old(text)@ + hex_digits(v as nat, width as nat),
    decreases width,
{
    if width > 0 {
        append_hex_digits(text, v / 16, width - 1);
        text.append(hex_digit_str(v % 16));
        proof {
            assert(final(text)@ =~= old(text)@ + hex_digits(v as nat, width as nat));
        }
    } else {
        proof {
            assert(final(text)@ =~= old(text)@ + hex_digits(v as nat, width as nat));
        }
    }
}

/// Appends `0x` and `width` zero-padded hexadecimal digits of `v`.
pub(crate) fn append_hex_wide(text: &mut String, v: u64, width: u64)
    ensures
        final(text)@ == old(text)@ + hex_wide(v as nat, width as nat),
{
    proof {
        reveal_strlit("0x");
    }
    text.append("0x");
    append_hex_digits(text, v, width);
    proof {
        assert(final(text)@ =~= old(text)@ + hex_wide(v as nat, width as nat));
    }
}

/// Appends the hexadecimal digits of `v` without leading zeros.
pub(crate) fn append_hex_min(text: &mut String, v: u64)
    ensures
        final(text)@ == old(text)@ + hex_min(v as nat),
    decreases v,
{
    if v >= 16 {
        append_hex_min(text, v / 16);
    }
    text.append(hex_digit_str(v % 16));
    proof {
        assert(final(text)@ =~= old(text)@ + hex_min(v as nat));
    }
}

/// Appends `0x` and the hexadecimal digits of `v` without leading zeros.
pub(crate) fn append_hex_prefixed(text: &mut String, v: u64)
    ensures
        final(text)@ == old(text)@ + hex_prefixed(v as nat),
{
    proof {
        reveal_strlit("0x");
    }
    text.append("0x");
    append_hex_min(text, v);
    proof {
        assert(final(text)@ =~= old(text)@ + hex_prefixed(v as nat));
    }
}

/// Appends `true` or `false`.
pub(crate) fn append_bool(text: &mut String, b: bool)
    ensures
        final(text)@ == old(text)@ + bool_text(b),
{
    if b {
        text.append("true");
    } else {
        text.append("false");
    }
}

} // verus!
