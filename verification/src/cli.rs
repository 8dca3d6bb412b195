//! Command-line-level computations: speed and frame-rate adjustment of
//! delay lists, character-grid sizing for pixel targets, and custom ramp
//! validation.

use vstd::prelude::*;
use crate::error::MonochoraError;
use crate::config::spec_has_duplicates;
use crate::font::{is_control_char, spec_is_control};
use crate::ratio::Ratio;
use crate::strutil::str_chars;

verus! {

/// A value clamped into the `u16` range.
pub open spec fn spec_clamp_u16(v: int) -> int {
    if v > 65535 {
        65535
    } else if v < 0 {
        0
    } else {
        v
    }
}

/// The consistent per-frame delay for a target frame rate:
/// `1000 ms / fps`, floored and clamped to the type's range.
pub open spec fn spec_fps_delay(fps: Ratio) -> int {
    spec_clamp_u16(1000 * fps.den as int / fps.num as int)
}

/// A delay divided by a speed multiplier, at least one millisecond.
pub open spec fn spec_speed_delay(delay: int, speed: Ratio) -> int {
    let adjusted = spec_clamp_u16(delay * speed.den as int / speed.num as int);
    if adjusted < 1 {
        1
    } else {
        adjusted
    }
}

/// Adjusts a delay list for playback speed: a target frame rate makes every
/// delay the rate's period; a speed multiplier divides each delay, floored
/// to at least one millisecond; neither leaves the list unchanged. A frame
/// rate wins over a speed multiplier.
pub fn calculate_adjusted_frame_delays(
    original_delays: &Vec<u16>,
    speed: Option<Ratio>,
    fps: Option<Ratio>,
) -> (r: Vec<u16>)
    requires
        speed matches Some(s) ==> s.wf(),
        fps matches Some(f) ==> f.wf(),
    ensures
        r@.len() == original_delays@.len(),
        match fps {
            Some(f) => forall|i: int| 0 <= i < r@.len() ==> #[trigger] r@[i] == spec_fps_delay(f),
            None => match speed {
                Some(s) => forall|i: int|
                    0 <= i < r@.len() ==> #[trigger] r@[i] == spec_speed_delay(
                        original_delays@[i] as int,
                        s,
                    ),
                None => r@ == original_delays@,
            },
        },
{
    if let Some(f) = fps {
        proof {
            crate::ratio::lemma_u32_product_fits(1000, f.den as int);
            crate::ratio::lemma_div_nonneg_le(1000 * f.den as int, f.num as int);
        }
        let wide: u64 = 1000u64 * f.den as u64 / f.num as u64;
        let target: u16 = if wide > 65535 {
            65535
        } else {
            wide as u16
        };
        let mut out: Vec<u16> = Vec::new();
        let mut i: usize = 0;
        while i < original_delays.len()
            invariant
                i <= original_delays@.len(),
                out@.len() == i as int,
                target == spec_fps_delay(f),
                forall|q: int| 0 <= q < i ==> #[trigger] out@[q] == spec_fps_delay(f),
            decreases original_delays.len() - i,
        {
            out.push(target);
            i = i + 1;
        }
        return out;
    }
    if let Some(s) = speed {
        let mut out: Vec<u16> = Vec::new();
        let mut i: usize = 0;
        while i < original_delays.len()
            invariant
                i <= original_delays@.len(),
                s.wf(),
                out@.len() == i as int,
                forall|q: int|
                    0 <= q < i ==> #[trigger] out@[q] == spec_speed_delay(
                        original_delays@[q] as int,
                        s,
                    ),
            decreases original_delays.len() - i,
        {
            let d = original_delays[i];
            proof {
                crate::ratio::lemma_u32_product_fits(d as int, s.den as int);
                crate::ratio::lemma_div_nonneg_le(d as int * s.den as int, s.num as int);
            }
            let wide: u64 = d as u64 * s.den as u64 / s.num as u64;
            let adjusted: u16 = if wide > 65535 {
                65535
            } else {
                wide as u16
            };
            let v: u16 = if adjusted < 1 {
                1
            } else {
                adjusted
            };
            out.push(v);
            i = i + 1;
        }
        return out;
    }
    let mut out: Vec<u16> = Vec::new();
    let mut i: usize = 0;
    while i < original_delays.len()
        invariant
            i <= original_delays@.len(),
            out@ == original_delays@.subrange(0, i as int),
        decreases original_delays.len() - i,
    {
        out.push(original_delays[i]);
        proof {
            assert(out@ =~= original_delays@.subrange(0, i + 1));
        }
        i = i + 1;
    }
    proof {
        assert(out@ =~= original_delays@);
    }
    out
}

/// The character-grid size for a pixel target: cells half a font-size wide
/// and one font-size tall.
pub open spec fn spec_gif_char_dims(target_w: int, target_h: int, font_size: int) -> (int, int) {
    (crate::ratio::clamp_u32(2 * target_w / font_size, 0), target_h / font_size)
}

/// Derives the character-grid size that fills a pixel target at a font
/// size: a zero font size or an empty resulting grid is rejected.
pub fn calculate_gif_char_dimensions(target_w: u32, target_h: u32, font_size: u32) -> (r: Result<
    (u32, u32),
    MonochoraError,
>)
    ensures
        font_size == 0 ==> r == Err::<(u32, u32), MonochoraError>(
            MonochoraError::InvalidFontSize { size: 0u32 },
        ),
        font_size > 0 ==> {
            let d = spec_gif_char_dims(target_w as int, target_h as int, font_size as int);
            if d.0 == 0 || d.1 == 0 {
                r matches Err(MonochoraError::InvalidDimensions { width, height }) && width == d.0
                    && height == d.1
            } else {
                r == Ok::<(u32, u32), MonochoraError>((d.0 as u32, d.1 as u32))
            }
        },
{
    if font_size == 0 {
        return Err(MonochoraError::InvalidFontSize { size: 0 });
    }
    proof {
        crate::ratio::lemma_div_nonneg_le(2 * target_w as int, font_size as int);
        vstd::arithmetic::div_mod::lemma_div_is_ordered(
            2 * target_w as int,
            2 * u32::MAX as int,
            font_size as int,
        );
        crate::ratio::lemma_div_nonneg_le(target_h as int, font_size as int);
    }
    let chars_width: u32 = crate::ratio::clamp_to_u32(
        2u64 * target_w as u64 / font_size as u64,
        0,
    );
    let chars_height: u32 = target_h / font_size;
    if chars_width == 0 || chars_height == 0 {
        return Err(
            MonochoraError::InvalidDimensions { width: chars_width, height: chars_height },
        );
    }
    Ok((chars_width, chars_height))
}

/// Whether a character may appear in a custom ramp: no control characters
/// except tab and newline.
pub open spec fn spec_ramp_char_ok(c: char) -> bool {
    !spec_is_control(c) || c == '\t' || c == '\n'
}

/// Validates a custom character ramp: 2 to 256 glyphs, no control
/// characters except tab and newline, and no duplicates.
pub fn validate_charset_string(charset: &str) -> (r: Result<(), MonochoraError>)
    ensures
        r is Ok <==> (2 <= charset@.len() <= 256 && (forall|i: int|
            0 <= i < charset@.len() ==> spec_ramp_char_ok(#[trigger] charset@[i]))
            && !spec_has_duplicates(charset@)),
        r matches Err(e) ==> e matches MonochoraError::Config(_),
{
    let cs = str_chars(charset);
    if cs.len() < 2 {
        return Err(
            MonochoraError::Config("Character set must contain at least 2 characters".to_owned()),
        );
    }
    if cs.len() > 256 {
        return Err(
            MonochoraError::Config("Character set cannot exceed 256 characters".to_owned()),
        );
    }
    let mut i: usize = 0;
    while i < cs.len()
        invariant
            i <= cs@.len(),
            cs@ == charset@,
            forall|q: int| 0 <= q < i ==> spec_ramp_char_ok(#[trigger] cs@[q]),
        decreases cs.len() - i,
    {
        let c = cs[i];
        if is_control_char(c) && c != '\t' && c != '\n' {
            return Err(
                MonochoraError::Config(
                    "Character set contains invalid control character".to_owned(),
                ),
            );
        }
        i = i + 1;
    }
    let mut a: usize = 0;
    while a < cs.len()
        invariant
            a <= cs@.len(),
            cs@ == charset@,
            forall|i2: int, j2: int| 0 <= i2 < j2 < cs@.len() && i2 < a ==> cs@[i2] != cs@[j2],
        decreases cs.len() - a,
    {
        let mut b: usize = a + 1;
        while b < cs.len()
            invariant
                a < b <= cs@.len(),
                cs@ == charset@,
                forall|j2: int| a < j2 < b ==> cs@[a as int] != cs@[j2],
            decreases cs.len() - b,
        {
            if cs[a] == cs[b] {
                return Err(
                    MonochoraError::Config(
                        "Character set contains duplicate characters".to_owned(),
                    ),
                );
            }
            b = b + 1;
        }
        a = a + 1;
    }
    Ok(())
}

} // verus!
