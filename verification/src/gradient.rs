//! Gradient mapper: an activity ratio in [0, 1] rendered as a six-hex-digit
//! RGB color, green at 0 through yellow at 1/2 to red at 1.

use vstd::prelude::*;

verus! {

/// An exact rational in [0, 1]: `num / den` with `den > 0` and `num <= den`.
/// Stands for the normalized activity ratio that the gradient maps to a color.
#[derive(Clone, Copy, PartialEq, Eq, Structural, Debug)]
pub struct Ratio {
    pub num: u64,
    pub den: u64,
}

impl Ratio {
    pub open spec fn wf(self) -> bool {
        self.den > 0 && self.num <= self.den
    }

    /// Build the ratio `num / den`, saturating the numerator at the
    /// denominator so the value never exceeds 1.
    pub fn new(num: u64, den: u64) -> (r: Ratio)
        requires
            den > 0,
        ensures
            r.wf(),
            r.den == den,
            r.num == if num <= den { num } else { den },
    {
        if num <= den {
            Ratio { num, den }
        } else {
            Ratio { num: den, den }
        }
    }
}

/// Red channel of the gradient: rises linearly from 0 to 255 as the ratio
/// goes from 0 to 1/2, then stays saturated at 255.
pub open spec fn spec_red(num: int, den: int) -> int {
    if 2 * num < den {
        (2 * num * 255) / den
    } else {
        255
    }
}

/// Green channel of the gradient: stays saturated at 255 up to ratio 1/2,
/// then falls linearly from 255 to 0 as the ratio goes from 1/2 to 1.
pub open spec fn spec_green(num: int, den: int) -> int {
    if 2 * num < den {
        255
    } else {
        (2 * (den - num) * 255) / den
    }
}

/// The sixteen uppercase hexadecimal digit characters.
pub open spec fn spec_hex_digit(d: int) -> char {
    seq!['0', '1', '2', '3', '4', '5', '6', '7', '8', '9', 'A', 'B', 'C', 'D', 'E', 'F'][d]
}

/// A channel value 0..=255 as two uppercase hexadecimal digits.
pub open spec fn spec_hex2(v: int) -> Seq<char> {
    seq![spec_hex_digit(v / 16), spec_hex_digit(v % 16)]
}

/// The full color string: red channel, green channel, then a zero blue
/// channel, each as two uppercase hexadecimal digits.
pub open spec fn spec_color(num: int, den: int) -> Seq<char> {
    spec_hex2(spec_red(num, den)) + spec_hex2(spec_green(num, den)) + seq!['0', '0']
}

pub(crate) fn hex_digit_str(d: u64) -> (r: &'static str)
    requires
        d < 16,
    ensures
        r@ =~= seq![spec_hex_digit(d as int)],
{
    proof {
        reveal_strlit("0");
        reveal_strlit("1");
        reveal_strlit("2");
        reveal_strlit("3");
        reveal_strlit("4");
        reveal_strlit("5");
        reveal_strlit("6");
        reveal_strlit("7");
        reveal_strlit("8");
        reveal_strlit("9");
        reveal_strlit("A");
        reveal_strlit("B");
        reveal_strlit("C");
        reveal_strlit("D");
        reveal_strlit("E");
        reveal_strlit("F");
    }
    if d == 0 {
        "0"
    } else if d == 1 {
        "1"
    } else if d == 2 {
        "2"
    } else if d == 3 {
        "3"
    } else if d == 4 {
        "4"
    } else if d == 5 {
        "5"
    } else if d == 6 {
        "6"
    } else if d == 7 {
        "7"
    } else if d == 8 {
        "8"
    } else if d == 9 {
        "9"
    } else if d == 10 {
        "A"
    } else if d == 11 {
        "B"
    } else if d == 12 {
        "C"
    } else if d == 13 {
        "D"
    } else if d == 14 {
        "E"
    } else {
        "F"
    }
}

fn hex_byte(v: u64) -> (r: String)
    requires
        v < 256,
    ensures
        r@ =~= spec_hex2(v as int),
{
    let hi = hex_digit_str(v / 16);
    let lo = hex_digit_str(v % 16);
    String::from_str(hi).concat(lo)
}

fn get_red(value: &Ratio) -> (r: String)
    requires
        value.wf(),
    ensures
        r@ =~= spec_hex2(spec_red(value.num as int, value.den as int)),
{
    let n = value.num as u128;
    let d = value.den as u128;
    let red: u64 = if 2 * n < d {
        proof {
            vstd::arithmetic::div_mod::lemma_multiply_divide_lt(
                2 * (value.num as int) * 255,
                value.den as int,
                256,
            );
        }
        ((2 * n * 255) / d) as u64
    } else {
        255
    };
    hex_byte(red)
}

fn get_green(value: &Ratio) -> (r: String)
    requires
        value.wf(),
    ensures
        r@ =~= spec_hex2(spec_green(value.num as int, value.den as int)),
{
    let n = value.num as u128;
    let d = value.den as u128;
    let green: u64 = if 2 * n < d {
        255
    } else {
        proof {
            vstd::arithmetic::div_mod::lemma_multiply_divide_lt(
                2 * ((value.den as int) - (value.num as int)) * 255,
                value.den as int,
                256,
            );
        }
        ((2 * (d - n) * 255) / d) as u64
    };
    hex_byte(green)
}

/// Color for an activity ratio: the two-segment linear gradient from green
/// through yellow to red, as six uppercase hexadecimal digits (blue is 0).
pub fn get_color(value: &Ratio) -> (r: String)
    requires
        value.wf(),
    ensures
        r@ =~= spec_color(value.num as int, value.den as int),
{
    let red = get_red(value);
    let green = get_green(value);
    proof {
        reveal_strlit("00");
    }
    red.concat(green.as_str()).concat("00")
}

/// Law: for ratios at or below one half the green channel is fully
/// saturated, and for ratios at or above one half the red channel is.
pub proof fn lemma_gradient_saturation(num: int, den: int)
    requires
        0 < den,
        0 <= num <= den,
    ensures
        2 * num <= den ==> spec_green(num, den) == 255,
        2 * num >= den ==> spec_red(num, den) == 255,
{
    if 2 * num == den {
        assert(2 * (den - num) == den);
        vstd::arithmetic::div_mod::lemma_div_by_multiple(255, den);
        assert(2 * (den - num) * 255 == 255 * den);
        assert((255 * den) / den == 255);
    }
}

} // verus!
