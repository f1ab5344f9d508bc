//! Sizes in bytes as text: the largest binary unit that fits, with two
//! decimals for terabytes and gigabytes, one for megabytes and none for
//! kilobytes.
//!
//! The number shown is the quotient as double-precision arithmetic gives it,
//! rounded to the decimals shown with ties going to the even digit. Both
//! steps are stated here over integers: a size first becomes the nearest
//! number with 53 significant bits, and the division by a power of two is
//! then exact.

use crate::text::{chars_of, decimal, decimal_chars, digit_char, digit_to_char, text_of};
use vstd::arithmetic::div_mod::lemma_div_denominator;
use vstd::prelude::*;

verus! {

/// The bytes of a kilobyte.
pub const KB: u64 = 1024;

/// The bytes of a megabyte.
pub const MB: u64 = 1048576;

/// The bytes of a gigabyte.
pub const GB: u64 = 1073741824;

/// The bytes of a terabyte.
pub const TB: u64 = 1099511627776;

/// The least number that takes more than 53 bits.
pub const DOUBLE_LIMIT: u64 = 9007199254740992;

/// `n / unit` rounded to the nearest whole number, a tie going to the even one.
pub open spec fn round_half_even(n: nat, unit: nat) -> nat {
    let q = n / unit;
    let r = n % unit;
    if 2 * r > unit || (2 * r == unit && q % 2 == 1) {
        q + 1
    } else {
        q
    }
}

/// The distance between neighbouring double-precision numbers at `n`: the
/// power of two that leaves `n` with 53 significant bits.
pub open spec fn spacing(n: nat) -> nat
    decreases n,
{
    if n < DOUBLE_LIMIT {
        1
    } else {
        2 * spacing(n / 2)
    }
}

/// The double-precision number nearest to `n`, a tie going to the one with
/// the even last bit. Below 2^53 every whole number is its own nearest.
pub open spec fn nearest_double(n: nat) -> nat {
    round_half_even(n, spacing(n)) * spacing(n)
}

/// `q` hundredths written with two decimals.
pub open spec fn two_decimals(q: nat) -> Seq<char> {
    decimal(q / 100) + seq!['.', digit_char((q / 10) % 10), digit_char(q % 10)]
}

/// `q` tenths written with one decimal.
pub open spec fn one_decimal(q: nat) -> Seq<char> {
    decimal(q / 10) + seq!['.', digit_char(q % 10)]
}

/// The text for a size of `bytes` bytes.
pub open spec fn formatted_bytes(bytes: u64) -> Seq<char> {
    if bytes >= TB {
        two_decimals(round_half_even(nearest_double(bytes as nat) * 100, TB as nat)) + " TB"@
    } else if bytes >= GB {
        two_decimals(round_half_even(bytes as nat * 100, GB as nat)) + " GB"@
    } else if bytes >= MB {
        one_decimal(round_half_even(bytes as nat * 10, MB as nat)) + " MB"@
    } else if bytes >= KB {
        decimal(round_half_even(bytes as nat, KB as nat)) + " KB"@
    } else {
        decimal(bytes as nat) + " B"@
    }
}

/// `n / unit` rounded to the nearest whole number, a tie going to the even one.
pub fn rounded(n: u128, unit: u128) -> (q: u128)
    requires
        unit > 0,
    ensures
        q == round_half_even(n as nat, unit as nat),
        q <= n / unit + 1,
{
    let q = n / unit;
    let r = n % unit;
    if r > unit - r || (r == unit - r && q % 2 == 1) {
        // Rounding up takes a unit of two at least, which leaves room above
        // the quotient.
        assert(unit >= 2);
        assert(q * 2 <= n) by (nonlinear_arith)
            requires
                q == n / unit,
                unit >= 2,
                n >= 0,
        ;
        q + 1
    } else {
        q
    }
}

/// The double-precision number nearest to `bytes`.
pub fn to_double(bytes: u64) -> (m: u128)
    ensures
        m == nearest_double(bytes as nat),
        m <= 0x2_0000_0000_0000_0000,
{
    let mut unit: u64 = 1;
    let mut top: u64 = bytes;
    while top >= DOUBLE_LIMIT
        invariant
            1 <= unit <= 4096,
            top == bytes as int / unit as int,
            top * unit <= bytes,
            spacing(bytes as nat) == unit * spacing(top as nat),
        decreases top,
    {
        proof {
            lemma_div_denominator(bytes as int, unit as int, 2);
            assert((top / 2) * (unit * 2) <= top * unit) by (nonlinear_arith)
                requires
                    unit >= 1,
                    top >= 0,
            ;
            assert(unit < 2048) by (nonlinear_arith)
                requires
                    top >= 9007199254740992,
                    top * unit <= bytes,
                    bytes < 0x1_0000_0000_0000_0000,
                    unit >= 1,
            ;
            assert(unit * (2 * spacing((top / 2) as nat)) == (unit * 2) * spacing(
                (top / 2) as nat,
            )) by (nonlinear_arith);
        }
        top = top / 2;
        unit = unit * 2;
    }
    let q = rounded(bytes as u128, unit as u128);
    proof {
        assert(spacing(top as nat) == 1);
        assert(spacing(bytes as nat) == unit) by (nonlinear_arith)
            requires
                spacing(bytes as nat) == unit * spacing(top as nat),
                spacing(top as nat) == 1,
        ;
        assert(q * unit <= 0x2_0000_0000_0000_0000) by (nonlinear_arith)
            requires
                q <= top + 1,
                1 <= unit <= 4096,
                top * unit <= bytes,
                bytes < 0x1_0000_0000_0000_0000,
        ;
    }
    q * (unit as u128)
}

/// Appends the text `s` to `out`.
fn push_text(out: &mut Vec<char>, s: &str)
    ensures
        final(out)@ == old(out)@ + s@,
{
    let mut tail = chars_of(s);
    out.append(&mut tail);
}

/// `q` hundredths written with two decimals.
fn two_decimal_chars(q: u128) -> (out: Vec<char>)
    requires
        q <= 0xffff_ffff_ffff_ffff,
    ensures
        out@ == two_decimals(q as nat),
{
    let mut out = decimal_chars((q / 100) as u64);
    out.push('.');
    out.push(digit_to_char(((q / 10) % 10) as u64));
    out.push(digit_to_char((q % 10) as u64));
    assert(out@ =~= two_decimals(q as nat));
    out
}

/// `q` tenths written with one decimal.
fn one_decimal_chars(q: u128) -> (out: Vec<char>)
    requires
        q <= 0xffff_ffff_ffff_ffff,
    ensures
        out@ == one_decimal(q as nat),
{
    let mut out = decimal_chars((q / 10) as u64);
    out.push('.');
    out.push(digit_to_char((q % 10) as u64));
    assert(out@ =~= one_decimal(q as nat));
    out
}

/// The text for a size of `bytes` bytes.
pub fn format_bytes(bytes: u64) -> (r: String)
    ensures
        r@ == formatted_bytes(bytes),
{
    let mut out: Vec<char>;
    if bytes >= TB {
        let m = to_double(bytes);
        out = two_decimal_chars(rounded(m * 100, TB as u128));
        push_text(&mut out, " TB");
    } else if bytes >= GB {
        out = two_decimal_chars(rounded(bytes as u128 * 100, GB as u128));
        push_text(&mut out, " GB");
    } else if bytes >= MB {
        out = one_decimal_chars(rounded(bytes as u128 * 10, MB as u128));
        push_text(&mut out, " MB");
    } else if bytes >= KB {
        out = decimal_chars(rounded(bytes as u128, KB as u128) as u64);
        push_text(&mut out, " KB");
    } else {
        out = decimal_chars(bytes);
        push_text(&mut out, " B");
    }
    text_of(&out)
}

} // verus!
