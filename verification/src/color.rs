//! The color writer's computation: gamma-2 encoding, clamping and 8-bit
//! quantization of a linear pixel color, and the exact text line emitted
//! for it.

use vstd::prelude::*;
use vstd::string::StringExecFns;
use crate::fixed::{SCALE, tdiv, fx_sqrt_s, fx_sqrt, fx_raw_div, lemma_tdiv_upper};
use crate::vec3::{Vec3, V3};

verus! {

/// Clamp ceiling for a gamma-encoded channel (0.999), so that the scaled
/// level stays below 256.
pub const CHANNEL_CLAMP: i64 = 999_000;

/// Largest linear channel value the writer accepts.
pub const CHANNEL_INPUT_MAX: i64 = 4_000_000_000_000;

/// The 8-bit output level of one linear channel: gamma-2 encode (square
/// root), clamp into `[0, 0.999]`, scale by 256 and floor. A negative
/// input quantizes to zero.
pub open spec fn color_level_s(c: int) -> int {
    if c < 0 {
        0
    } else {
        let g = fx_sqrt_s(c);
        let k = if g > CHANNEL_CLAMP as int {
            CHANNEL_CLAMP as int
        } else {
            g
        };
        tdiv(256 * k, SCALE as int)
    }
}

/// The character of one decimal digit.
pub open spec fn digit_char_s(d: int) -> char {
    if d == 0 {
        '0'
    } else if d == 1 {
        '1'
    } else if d == 2 {
        '2'
    } else if d == 3 {
        '3'
    } else if d == 4 {
        '4'
    } else if d == 5 {
        '5'
    } else if d == 6 {
        '6'
    } else if d == 7 {
        '7'
    } else if d == 8 {
        '8'
    } else {
        '9'
    }
}

/// The decimal digit string of a natural number, most significant first.
pub open spec fn dec_digits_s(n: nat) -> Seq<char>
    decreases n,
{
    if n < 10 {
        seq![digit_char_s(n as int)]
    } else {
        dec_digits_s(n / 10).push(digit_char_s((n % 10) as int))
    }
}

/// The exact text the color writer emits for one pixel (newline
/// excluded): the three 8-bit levels, space separated.
pub open spec fn color_line_s(pixel: V3) -> Seq<char> {
    dec_digits_s(color_level_s(pixel.x) as nat) + seq![' '] + dec_digits_s(
        color_level_s(pixel.y) as nat,
    ) + seq![' '] + dec_digits_s(color_level_s(pixel.z) as nat)
}

/// Quantizes one linear channel to its 8-bit output level.
pub fn color_level(c: i64) -> (level: i64)
    requires
        c <= CHANNEL_INPUT_MAX,
    ensures
        level as int == color_level_s(c as int),
        0 <= level <= 255,
{
    if c < 0 {
        return 0;
    }
    let g = fx_sqrt(c);
    let k = if g > CHANNEL_CLAMP {
        CHANNEL_CLAMP
    } else {
        g
    };
    proof {
        lemma_tdiv_upper(256 * (k as int), SCALE as int, 255);
    }
    fx_raw_div(256 * k, SCALE)
}

/// The text of one decimal digit.
fn digit_str(d: u8) -> (s: &'static str)
    requires
        d < 10,
    ensures
        s@ == seq![digit_char_s(d as int)],
{
    proof {
        reveal_strlit("0");
        reveal_strlit("1");
        reveal_strlit("2");
        reveal_strlit("3");
        reveal_strlit("4");
        reveal_strlit("5");
        reveal_strlit("6");
        reveal_strlit("7");
        reveal_strlit("8");
        reveal_strlit("9");
    }
    if d == 0 {
        "0"
    } else if d == 1 {
        "1"
    } else if d == 2 {
        "2"
    } else if d == 3 {
        "3"
    } else if d == 4 {
        "4"
    } else if d == 5 {
        "5"
    } else if d == 6 {
        "6"
    } else if d == 7 {
        "7"
    } else if d == 8 {
        "8"
    } else {
        "9"
    }
}

/// The decimal text of a number.
pub fn to_decimal(n: u32) -> (s: String)
    ensures
        s@ == dec_digits_s(n as nat),
    decreases n,
{
    if n < 10 {
        <String as StringExecFns>::from_str(digit_str(n as u8))
    } else {
        let mut s = to_decimal(n / 10);
        let d = digit_str((n % 10) as u8);
        s.append(d);
        proof {
            assert(dec_digits_s((n / 10) as nat).push(digit_char_s((n % 10) as int))
                =~= dec_digits_s((n / 10) as nat) + seq![digit_char_s((n % 10) as int)]);
        }
        s
    }
}

/// The color writer's text for one pixel: the three channels gamma-2
/// corrected, clamped to `[0, 0.999]`, scaled to 8-bit levels and
/// space separated.
pub fn clamp_color(pixel_color: Vec3) -> (s: String)
    requires
        pixel_color@.x <= CHANNEL_INPUT_MAX as int,
        pixel_color@.y <= CHANNEL_INPUT_MAX as int,
        pixel_color@.z <= CHANNEL_INPUT_MAX as int,
    ensures
        s@ == color_line_s(pixel_color@),
{
    let r = color_level(pixel_color.x);
    let g = color_level(pixel_color.y);
    let b = color_level(pixel_color.z);
    let mut s = to_decimal(r as u32);
    proof {
        reveal_strlit(" ");
        assert(" "@ =~= seq![' ']);
    }
    s.append(" ");
    let gs = to_decimal(g as u32);
    s.append(gs.as_str());
    s.append(" ");
    let bs = to_decimal(b as u32);
    s.append(bs.as_str());
    s
}

} // verus!
