//! Human-readable magnitude strings: a byte count rendered with the largest
//! binary unit it reaches (T, G, M, K, or plain bytes), one decimal digit
//! rounded to nearest, and a fixed field width of five characters before the
//! unit letter.

use vstd::prelude::*;
use crate::gradient::hex_digit_str;
use crate::gradient::spec_hex_digit;

verus! {

pub const UNIT_T: u64 = 0x10000000000;

pub const UNIT_G: u64 = 0x40000000;

pub const UNIT_M: u64 = 0x100000;

pub const UNIT_K: u64 = 0x400;

/// Decimal digit sequence of `n`, most significant first, no leading zeros
/// (a single `'0'` for zero).
pub open spec fn spec_digits(n: nat) -> Seq<char>
    decreases n,
{
    if n < 10 {
        seq![spec_hex_digit(n as int)]
    } else {
        spec_digits(n / 10).push(spec_hex_digit((n % 10) as int))
    }
}

/// Left-pad with spaces to a field width of five characters.
pub open spec fn spec_pad5(s: Seq<char>) -> Seq<char> {
    if s.len() >= 5 {
        s
    } else {
        Seq::new((5 - s.len()) as nat, |j: int| ' ') + s
    }
}

/// Tenths digit of `bytes / unit`, rounded to the nearest tenth (halves
/// away from zero); 10 means the rounding carries into the whole part.
pub open spec fn spec_tenths(bytes: nat, unit: nat) -> int {
    (((bytes % unit) * 10 + unit / 2) / unit) as int
}

/// `bytes` scaled by `unit`: the whole part, a dot, and the rounded tenths
/// digit (carrying into the whole part when it rounds up to a full unit),
/// padded to the fixed width.
pub open spec fn spec_scaled(bytes: nat, unit: nat) -> Seq<char> {
    if spec_tenths(bytes, unit) == 10 {
        spec_pad5(spec_digits(bytes / unit + 1) + seq!['.', '0'])
    } else {
        spec_pad5(spec_digits(bytes / unit) + seq!['.', spec_hex_digit(spec_tenths(bytes, unit))])
    }
}

/// The rendered magnitude: the largest unit among T, G, M, K that `bytes`
/// reaches, or the plain byte count with no decimal point below 1024.
pub open spec fn spec_humanize(bytes: nat) -> Seq<char> {
    if bytes >= UNIT_T {
        spec_scaled(bytes, UNIT_T as nat).push('T')
    } else if bytes >= UNIT_G {
        spec_scaled(bytes, UNIT_G as nat).push('G')
    } else if bytes >= UNIT_M {
        spec_scaled(bytes, UNIT_M as nat).push('M')
    } else if bytes >= UNIT_K {
        spec_scaled(bytes, UNIT_K as nat).push('K')
    } else {
        spec_pad5(spec_digits(bytes)).push('B')
    }
}

pub(crate) fn u64_to_string(n: u64) -> (r: String)
    ensures
        r@ =~= spec_digits(n as nat),
    decreases n,
{
    if n < 10 {
        String::from_str(hex_digit_str(n))
    } else {
        let rest = u64_to_string(n / 10);
        rest.concat(hex_digit_str(n % 10))
    }
}

pub(crate) fn pad5(s: String) -> (r: String)
    ensures
        r@ =~= spec_pad5(s@),
{
    let len = s.as_str().unicode_len();
    if len >= 5 {
        s
    } else {
        let mut p = String::new();
        let mut i: usize = 0;
        while i < 5 - len
            invariant
                i <= 5 - len,
                len == s@.len(),
                len < 5,
                p@ =~= Seq::new(i as nat, |j: int| ' '),
            decreases 5 - len - i,
        {
            proof {
                reveal_strlit(" ");
            }
            p.append(" ");
            assert(p@ =~= Seq::new((i + 1) as nat, |j: int| ' '));
            i = i + 1;
        }
        p.concat(s.as_str())
    }
}

fn scaled(bytes: u64, unit: u64, suffix: &'static str) -> (r: String)
    requires
        UNIT_K <= unit <= UNIT_T,
    ensures
        r@ =~= spec_scaled(bytes as nat, unit as nat) + suffix@,
{
    let whole = bytes / unit;
    let rem = bytes % unit;
    proof {
        vstd::arithmetic::div_mod::lemma_multiply_divide_lt(
            (rem as int) * 10 + (unit as int) / 2,
            unit as int,
            11,
        );
        vstd::arithmetic::div_mod::lemma_div_is_ordered_by_denominator(
            bytes as int,
            2,
            unit as int,
        );
    }
    let tenth = (rem * 10 + unit / 2) / unit;
    proof {
        reveal_strlit(".");
    }
    let body = if tenth == 10 {
        u64_to_string(whole + 1).concat(".").concat(hex_digit_str(0))
    } else {
        u64_to_string(whole).concat(".").concat(hex_digit_str(tenth))
    };
    pad5(body).concat(suffix)
}

/// The byte count `bytes` rendered as a fixed-width magnitude string, e.g.
/// `"  1.0G"`; counts below 1024 are printed as a plain integer with a `B`
/// suffix and no decimal point.
pub fn humanize(bytes: u64) -> (r: String)
    ensures
        r@ =~= spec_humanize(bytes as nat),
{
    proof {
        reveal_strlit("T");
        reveal_strlit("G");
        reveal_strlit("M");
        reveal_strlit("K");
        reveal_strlit("B");
    }
    if bytes >= UNIT_T {
        scaled(bytes, UNIT_T, "T")
    } else if bytes >= UNIT_G {
        scaled(bytes, UNIT_G, "G")
    } else if bytes >= UNIT_M {
        scaled(bytes, UNIT_M, "M")
    } else if bytes >= UNIT_K {
        scaled(bytes, UNIT_K, "K")
    } else {
        pad5(u64_to_string(bytes)).concat("B")
    }
}

} // verus!
