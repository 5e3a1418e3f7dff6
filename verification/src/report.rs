//! Rendering byte sizes as text with binary-prefix units.
//!
//! A size is shown as `size / 1024^n` for the largest unit below it,
//! with exactly two decimal digits truncated toward zero, then the
//! unit's suffix. Sizes too large for the largest unit fall back to the
//! raw digit string. No column padding is applied; alignment is cosmetic
//! and left to the caller.

use vstd::arithmetic::div_mod::{lemma_div_is_ordered, lemma_div_is_ordered_by_denominator};
use vstd::prelude::*;
use vstd::string::StringExecFns;

verus! {

pub const BYTES_PER_KIB: u64 = 1024;

pub const BYTES_PER_MIB: u64 = 1024 * 1024;

pub const BYTES_PER_GIB: u64 = 1024 * 1024 * 1024;

pub const BYTES_PER_TIB: u64 = 1024 * 1024 * 1024 * 1024;

pub const BYTES_PER_PIB: u64 = 1024 * 1024 * 1024 * 1024 * 1024;

pub const BYTES_PER_EIB: u64 = 1024 * 1024 * 1024 * 1024 * 1024 * 1024;

pub open spec fn digit_char(d: nat) -> char {
    if d == 0 {
        '0'
    } else if d == 1 {
        '1'
    } else if d == 2 {
        '2'
    } else if d == 3 {
        '3'
    } else if d == 4 {
        '4'
    } else if d == 5 {
        '5'
    } else if d == 6 {
        '6'
    } else if d == 7 {
        '7'
    } else if d == 8 {
        '8'
    } else {
        '9'
    }
}

/// The decimal digits of `n`, most significant first, with no sign and
/// no leading zero except for zero itself.
pub open spec fn dec_digits(n: nat) -> Seq<char>
    decreases n,
{
    if n < 10 {
        seq![digit_char(n)]
    } else {
        dec_digits(n / 10) + seq![digit_char(n % 10)]
    }
}

/// A two-digit fraction, left-padded with a zero.
pub open spec fn frac2_digits(f: nat) -> Seq<char>
    recommends
        f < 100,
{
    if f < 10 {
        seq!['0', digit_char(f)]
    } else {
        dec_digits(f)
    }
}

/// `scaled` counts hundredths: rendered as `<whole>.<frac>` with exactly
/// two fraction digits.
pub open spec fn two_decimal(scaled: nat) -> Seq<char> {
    dec_digits(scaled / 100) + seq!['.'] + frac2_digits(scaled % 100)
}

/// The rendered form of a byte size.
pub open spec fn spec_format_bytes(bytes: u64) -> Seq<char> {
    if bytes < BYTES_PER_KIB {
        two_decimal((bytes * 100) as nat) + " B"@
    } else if bytes < BYTES_PER_MIB {
        two_decimal(bytes as nat * 100 / BYTES_PER_KIB as nat) + " KiB"@
    } else if bytes < BYTES_PER_GIB {
        two_decimal(bytes as nat * 100 / BYTES_PER_MIB as nat) + " MiB"@
    } else if bytes < BYTES_PER_TIB {
        two_decimal(bytes as nat * 100 / BYTES_PER_GIB as nat) + " GiB"@
    } else if bytes < BYTES_PER_PIB {
        two_decimal(bytes as nat * 100 / BYTES_PER_TIB as nat) + " TiB"@
    } else if bytes < BYTES_PER_EIB {
        two_decimal(bytes as nat * 100 / BYTES_PER_PIB as nat) + " PiB"@
    } else {
        dec_digits(bytes as nat)
    }
}

/// Appends one decimal digit.
fn push_digit(s: &mut String, d: u64)
    requires
        d < 10,
    ensures
        final(s)@ == old(s)@ + seq![digit_char(d as nat)],
{
    if d == 0 {
        proof {
            reveal_strlit("0");
        }
        s.append("0");
    } else if d == 1 {
        proof {
            reveal_strlit("1");
        }
        s.append("1");
    } else if d == 2 {
        proof {
            reveal_strlit("2");
        }
        s.append("2");
    } else if d == 3 {
        proof {
            reveal_strlit("3");
        }
        s.append("3");
    } else if d == 4 {
        proof {
            reveal_strlit("4");
        }
        s.append("4");
    } else if d == 5 {
        proof {
            reveal_strlit("5");
        }
        s.append("5");
    } else if d == 6 {
        proof {
            reveal_strlit("6");
        }
        s.append("6");
    } else if d == 7 {
        proof {
            reveal_strlit("7");
        }
        s.append("7");
    } else if d == 8 {
        proof {
            reveal_strlit("8");
        }
        s.append("8");
    } else {
        proof {
            reveal_strlit("9");
        }
        s.append("9");
    }
    proof {
        assert(s@ =~= old(s)@ + seq![digit_char(d as nat)]);
    }
}

/// Appends the decimal digits of `n`.
fn push_decimal(s: &mut String, n: u64)
    ensures
        final(s)@ == old(s)@ + dec_digits(n as nat),
    decreases n,
{
    if n >= 10 {
        push_decimal(s, n / 10);
    }
    push_digit(s, n % 10);
    proof {
        if n >= 10 {
            assert(s@ =~= old(s)@ + dec_digits(n as nat));
        }
    }
}

/// Appends `scaled` hundredths as `<whole>.<frac>`.
fn push_two_decimal(s: &mut String, scaled: u64)
    ensures
        final(s)@ == old(s)@ + two_decimal(scaled as nat),
{
    push_decimal(s, scaled / 100);
    proof {
        reveal_strlit(".");
    }
    s.append(".");
    let f: u64 = scaled % 100;
    if f < 10 {
        push_digit(s, 0);
        push_digit(s, f);
        proof {
            assert(frac2_digits(f as nat) =~= seq![digit_char(0)] + seq![
                digit_char(f as nat),
            ]);
        }
    } else {
        push_decimal(s, f);
    }
    proof {
        assert("."@ =~= seq!['.']);
        assert(s@ =~= old(s)@ + two_decimal(scaled as nat));
    }
}

/// `bytes * 100 / unit`, computed without overflowing.
fn scale_hundredths(bytes: u64, unit: u64) -> (r: u64)
    requires
        unit >= 1024,
    ensures
        r == bytes as nat * 100 / unit as nat,
{
    let wide: u128 = (bytes as u128) * 100 / (unit as u128);
    proof {
        lemma_div_is_ordered_by_denominator(bytes as int * 100, 1024, unit as int);
        lemma_div_is_ordered(bytes as int * 100, u64::MAX as int * 100, 1024);
        assert(u64::MAX as int * 100 / 1024 < u64::MAX);
    }
    wide as u64
}

/// Renders a byte size with binary-prefix units and two truncated
/// decimal digits, falling back to the raw digit string above the
/// largest unit.
pub fn format_bytes(bytes: u64) -> (s: String)
    ensures
        s@ == spec_format_bytes(bytes),
{
    let mut s = String::new();
    if bytes < BYTES_PER_KIB {
        push_two_decimal(&mut s, bytes * 100);
        s.append(" B");
        proof {
            assert(s@ =~= spec_format_bytes(bytes));
        }
    } else if bytes < BYTES_PER_MIB {
        let scaled = scale_hundredths(bytes, BYTES_PER_KIB);
        push_two_decimal(&mut s, scaled);
        s.append(" KiB");
        proof {
            assert(s@ =~= spec_format_bytes(bytes));
        }
    } else if bytes < BYTES_PER_GIB {
        let scaled = scale_hundredths(bytes, BYTES_PER_MIB);
        push_two_decimal(&mut s, scaled);
        s.append(" MiB");
        proof {
            assert(s@ =~= spec_format_bytes(bytes));
        }
    } else if bytes < BYTES_PER_TIB {
        let scaled = scale_hundredths(bytes, BYTES_PER_GIB);
        push_two_decimal(&mut s, scaled);
        s.append(" GiB");
        proof {
            assert(s@ =~= spec_format_bytes(bytes));
        }
    } else if bytes < BYTES_PER_PIB {
        let scaled = scale_hundredths(bytes, BYTES_PER_TIB);
        push_two_decimal(&mut s, scaled);
        s.append(" TiB");
        proof {
            assert(s@ =~= spec_format_bytes(bytes));
        }
    } else if bytes < BYTES_PER_EIB {
        let scaled = scale_hundredths(bytes, BYTES_PER_PIB);
        push_two_decimal(&mut s, scaled);
        s.append(" PiB");
        proof {
            assert(s@ =~= spec_format_bytes(bytes));
        }
    } else {
        push_decimal(&mut s, bytes);
        proof {
            assert(s@ =~= spec_format_bytes(bytes));
        }
    }
    s
}

} // verus!
