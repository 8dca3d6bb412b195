//! Converts an RGBA pixel to a luminance value and selects a glyph from an
//! ordered character ramp, darkest first.
//!
//! Luminance uses the standard luma weights `0.299 r + 0.587 g + 0.114 b`,
//! carried in thousandths so that everything stays in exact integer
//! arithmetic: a pixel's luminance lies in `[0, 255000]` and the full-scale
//! white point is `255000`.

use vstd::prelude::*;
use vstd::arithmetic::div_mod::lemma_div_is_ordered;
use vstd::arithmetic::mul::lemma_mul_inequality;

verus! {

/// Full-scale luminance (thousandths of the 0..=255 channel range).
pub const LUMA_SCALE: u32 = 255000;

/// Luminance of an RGB triple in thousandths: `299 r + 587 g + 114 b`.
pub open spec fn luma_millis(r: u8, g: u8, b: u8) -> int {
    299 * r + 587 * g + 114 * b
}

/// The luminance actually used for ramp lookup: inversion mirrors the value
/// around the scale's midpoint.
pub open spec fn effective_luma(r: u8, g: u8, b: u8, invert: bool) -> int {
    if invert {
        LUMA_SCALE - luma_millis(r, g, b)
    } else {
        luma_millis(r, g, b)
    }
}

/// Ramp index for a luminance value: `round(luma / 255000 * (len - 1))`,
/// written as a single floor division.
pub open spec fn spec_char_index(luma: int, len: int) -> int {
    (2 * luma * (len - 1) + LUMA_SCALE) / (2 * LUMA_SCALE as int)
}

/// Computes the luminance of a pixel in thousandths.
pub fn calculate_brightness(r: u8, g: u8, b: u8) -> (l: u32)
    ensures
        l == luma_millis(r, g, b),
        l <= LUMA_SCALE,
{
    299 * r as u32 + 587 * g as u32 + 114 * b as u32
}

/// Applies the inversion flag to a luminance value.
pub fn apply_invert(luma: u32, invert: bool) -> (l: u32)
    requires
        luma <= LUMA_SCALE,
    ensures
        l <= LUMA_SCALE,
        invert ==> l == LUMA_SCALE - luma,
        !invert ==> l == luma,
{
    if invert {
        LUMA_SCALE - luma
    } else {
        luma
    }
}

/// Selects the ramp index for a luminance value, rounding to the nearest
/// bucket; the result always lies inside the ramp.
pub fn calculate_char_index(luma: u32, chars_len: usize) -> (idx: usize)
    requires
        luma <= LUMA_SCALE,
        2 <= chars_len <= 256,
    ensures
        idx == spec_char_index(luma as int, chars_len as int),
        idx < chars_len,
{
    proof {
        assert(2 * (luma as int) * (chars_len - 1) <= 2 * LUMA_SCALE as int * 255)
            by (nonlinear_arith)
            requires
                luma <= LUMA_SCALE,
                2 <= chars_len <= 256,
        ;
        assert(2 * (luma as int) * (chars_len - 1) >= 0) by (nonlinear_arith)
            requires
                luma >= 0,
                2 <= chars_len,
        ;
    }
    let num: u64 = 2 * luma as u64 * (chars_len - 1) as u64 + LUMA_SCALE as u64;
    let idx: u64 = num / (2 * LUMA_SCALE as u64);
    proof {
        lemma_char_index_in_range(luma as int, chars_len as int);
    }
    idx as usize
}

/// A ramp index never reaches past the last glyph.
pub proof fn lemma_char_index_in_range(luma: int, len: int)
    requires
        0 <= luma <= LUMA_SCALE,
        2 <= len <= 256,
    ensures
        0 <= spec_char_index(luma, len) < len,
{
    let scale = LUMA_SCALE as int;
    let num = 2 * luma * (len - 1) + scale;
    assert(num <= 2 * scale * (len - 1) + scale && num >= 0) by (nonlinear_arith)
        requires
            0 <= luma <= scale,
            2 <= len,
            num == 2 * luma * (len - 1) + scale,
    ;
    assert((2 * scale * (len - 1) + scale) / (2 * scale) == len - 1) by (nonlinear_arith)
        requires
            scale == LUMA_SCALE as int,
            2 <= len <= 256,
    ;
    lemma_div_is_ordered(num, 2 * scale * (len - 1) + scale, 2 * scale);
    lemma_div_is_ordered(0, num, 2 * scale);
}

/// Raising luminance never lowers the chosen ramp index.
pub proof fn lemma_char_index_monotonic(luma1: int, luma2: int, len: int)
    requires
        0 <= luma1 <= luma2 <= LUMA_SCALE,
        2 <= len <= 256,
    ensures
        spec_char_index(luma1, len) <= spec_char_index(luma2, len),
{
    lemma_mul_inequality(2 * luma1, 2 * luma2, len - 1);
    lemma_div_is_ordered(
        2 * luma1 * (len - 1) + LUMA_SCALE,
        2 * luma2 * (len - 1) + LUMA_SCALE,
        2 * LUMA_SCALE as int,
    );
    assert(2 * luma1 * (len - 1) == (2 * luma1) * (len - 1)) by (nonlinear_arith);
    assert(2 * luma2 * (len - 1) == (2 * luma2) * (len - 1)) by (nonlinear_arith);
}

/// With inversion switched on, raising raw luminance never raises the chosen
/// ramp index: inversion reverses the monotonic direction.
pub proof fn lemma_invert_reverses_direction(luma1: int, luma2: int, len: int)
    requires
        0 <= luma1 <= luma2 <= LUMA_SCALE,
        2 <= len <= 256,
    ensures
        spec_char_index(LUMA_SCALE - luma2, len) <= spec_char_index(LUMA_SCALE - luma1, len),
{
    lemma_char_index_monotonic(LUMA_SCALE - luma2, LUMA_SCALE - luma1, len);
}

} // verus!
