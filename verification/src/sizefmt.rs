//! Human-readable byte counts: binary (1024-based) units, two decimal places
//! above the base unit, ties rounded to even.

use vstd::arithmetic::div_mod::lemma_div_is_ordered_by_denominator;
use vstd::prelude::*;

use crate::numfmt::{dec_str, digit_char, digit_to_string, u64_to_dec_string};

verus! {

/// `num / den` rounded to the nearest integer, ties to the even neighbour.
pub open spec fn round_half_even(num: int, den: int) -> int
    recommends
        den > 0,
        num >= 0,
{
    let q = num / den;
    let r = num % den;
    if 2 * r < den {
        q
    } else if 2 * r > den {
        q + 1
    } else if q % 2 == 0 {
        q
    } else {
        q + 1
    }
}

/// `n` hundredths written as a fixed-point decimal with two fraction digits.
pub open spec fn hundredths_str(n: nat) -> Seq<char> {
    dec_str(n / 100) + "."@ + seq![digit_char((n / 10) % 10), digit_char(n % 10)]
}

/// `size / den` written with two fraction digits, rounding ties to even.
pub open spec fn scaled_str(size: u64, den: int) -> Seq<char>
    recommends
        den > 0,
{
    hundredths_str(round_half_even(100 * size, den) as nat)
}

/// The human-readable rendering of a byte count: an integer below 1024 B,
/// otherwise two decimals in the largest binary unit up to TiB.
pub open spec fn human_size(size: u64) -> Seq<char> {
    if size < 1024 {
        dec_str(size as nat) + " B"@
    } else if size < 1048576 {
        scaled_str(size, 1024) + " KiB"@
    } else if size < 1073741824 {
        scaled_str(size, 1048576) + " MiB"@
    } else if size < 1099511627776 {
        scaled_str(size, 1073741824) + " GiB"@
    } else {
        scaled_str(size, 1099511627776) + " TiB"@
    }
}

fn round_div(num: u128, den: u128) -> (r: u128)
    requires
        den > 0,
        den % 2 == 0,
        num < u128::MAX,
    ensures
        r == round_half_even(num as int, den as int),
        r <= num as int / den as int + 1,
{
    let q = num / den;
    let rem = num % den;
    let half = den / 2;
    if rem < half {
        q
    } else if rem > half {
        q + 1
    } else if q % 2 == 0 {
        q
    } else {
        q + 1
    }
}

fn scaled_string(size: u64, den: u64) -> (s: String)
    requires
        den >= 1024,
        den % 2 == 0,
    ensures
        s@ == scaled_str(size, den as int),
{
    let num: u128 = 100u128 * (size as u128);
    let n = round_div(num, den as u128);
    proof {
        lemma_div_is_ordered_by_denominator(num as int, 1024, den as int);
        assert(num as int / 1024 < 0x10000000000000000int) by (nonlinear_arith)
            requires
                num <= 100 * 0xffffffffffffffffu64,
        ;
    }
    let n64 = n as u64;
    let mut s = u64_to_dec_string(n64 / 100);
    s.append(".");
    let d1 = digit_to_string((n64 / 10) % 10);
    s.append(d1.as_str());
    let d2 = digit_to_string(n64 % 10);
    s.append(d2.as_str());
    proof {
        assert(s@ =~= scaled_str(size, den as int));
    }
    s
}

/// Renders `size` bytes in the largest fitting binary unit.
pub fn human_size_string(size: u64) -> (s: String)
    ensures
        s@ == human_size(size),
{
    if size < 1024 {
        let mut s = u64_to_dec_string(size);
        s.append(" B");
        s
    } else if size < 1048576 {
        let mut s = scaled_string(size, 1024);
        s.append(" KiB");
        s
    } else if size < 1073741824 {
        let mut s = scaled_string(size, 1048576);
        s.append(" MiB");
        s
    } else if size < 1099511627776 {
        let mut s = scaled_string(size, 1073741824);
        s.append(" GiB");
        s
    } else {
        let mut s = scaled_string(size, 1099511627776);
        s.append(" TiB");
        s
    }
}

} // verus!
