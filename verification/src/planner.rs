//! Derives the target character-grid size from the source pixel size and a
//! render configuration.
//!
//! Resolution order, first matching rule wins: an explicit scale factor;
//! explicit width and height; width only; height only; the source size.
//! Every division is an exact rational floor, and every derived dimension is
//! clamped to at least one cell.

use vstd::prelude::*;
use crate::config::AsciiConverterConfig;
use crate::error::MonochoraError;
use crate::ratio::{clamp_u32, scale_by_ratios_clamped, Ratio};

verus! {

/// Width under a scale factor: `img_w * scale`, floored, at least 1.
pub open spec fn spec_scaled_width(img_w: int, s: Ratio) -> int {
    clamp_u32(img_w * s.num as int * 1 / (s.den as int * 1), 1)
}

/// Height under a scale factor: `img_h * scale / char_aspect`, floored, at
/// least 1.
pub open spec fn spec_scaled_height(img_h: int, s: Ratio, a: Ratio) -> int {
    clamp_u32(img_h * s.num as int * a.den as int / (s.den as int * a.num as int), 1)
}

/// Height preserving the source aspect for a chosen width:
/// `w * img_h / img_w / char_aspect`, floored, at least 1.
pub open spec fn spec_fit_height(w: int, img_w: int, img_h: int, a: Ratio) -> int {
    clamp_u32(w * img_h * a.den as int / (img_w * a.num as int), 1)
}

/// Height when only aspect correction applies: `img_h / char_aspect`,
/// floored, at least 1.
pub open spec fn spec_squashed_height(img_h: int, a: Ratio) -> int {
    clamp_u32(img_h * a.den as int * 1 / (a.num as int * 1), 1)
}

/// Width preserving the source aspect for a chosen height:
/// `h * img_w / img_h * char_aspect`, floored, at least 1.
pub open spec fn spec_fit_width(h: int, img_w: int, img_h: int, a: Ratio) -> int {
    clamp_u32(h * img_w * a.num as int / (img_h * a.den as int), 1)
}

/// The planner's whole behaviour: which rule fires on a given configuration
/// and what it yields, including every rejection.
pub open spec fn spec_target_dimensions(img_w: u32, img_h: u32, c: AsciiConverterConfig) -> Result<
    (u32, u32),
    MonochoraError,
> {
    if img_w == 0 || img_h == 0 {
        Err(MonochoraError::InvalidDimensions { width: img_w, height: img_h })
    } else if c.scale_factor is Some {
        let s = c.scale_factor->0;
        if !s.wf() {
            Err(MonochoraError::Config(arbitrary()))
        } else {
            Ok(
                (
                    spec_scaled_width(img_w as int, s) as u32,
                    spec_scaled_height(img_h as int, s, c.char_aspect) as u32,
                ),
            )
        }
    } else if c.width is Some && c.height is Some {
        let w = c.width->0;
        let h = c.height->0;
        if w == 0 || h == 0 {
            Err(MonochoraError::InvalidDimensions { width: w, height: h })
        } else {
            Ok((w, h))
        }
    } else if c.width is Some {
        let w = c.width->0;
        if w == 0 {
            Err(MonochoraError::InvalidDimensions { width: w, height: 0u32 })
        } else if c.preserve_aspect_ratio {
            Ok((w, spec_fit_height(w as int, img_w as int, img_h as int, c.char_aspect) as u32))
        } else {
            Ok((w, spec_squashed_height(img_h as int, c.char_aspect) as u32))
        }
    } else if c.height is Some {
        let h = c.height->0;
        if h == 0 {
            Err(MonochoraError::InvalidDimensions { width: 0u32, height: h })
        } else if c.preserve_aspect_ratio {
            Ok((spec_fit_width(h as int, img_w as int, img_h as int, c.char_aspect) as u32, h))
        } else {
            Ok((img_w, h))
        }
    } else {
        if c.preserve_aspect_ratio {
            Ok((img_w, spec_squashed_height(img_h as int, c.char_aspect) as u32))
        } else {
            Ok((img_w, img_h))
        }
    }
}

/// Stands in for an exact message in the spec above; only the variant shape
/// is pinned there, the exec function produces the real text.
pub open spec fn spec_config_error_shape(r: Result<(u32, u32), MonochoraError>) -> bool {
    r matches Err(MonochoraError::Config(_))
}

/// Plans the character-grid size for a source image under a configuration.
///
/// Matches `spec_target_dimensions` exactly except that the spec cannot
/// carry message text: where the spec yields a `Config` error the result is
/// a `Config` error with the scale-factor message.
pub fn calculate_target_dimensions(img_w: u32, img_h: u32, c: &AsciiConverterConfig) -> (r: Result<
    (u32, u32),
    MonochoraError,
>)
    requires
        c.aspect_ok(),
    ensures
        match spec_target_dimensions(img_w, img_h, *c) {
            Ok(d) => r == Ok::<(u32, u32), MonochoraError>(d),
            Err(MonochoraError::Config(_)) => (r matches Err(MonochoraError::Config(m)) && m@
                == "Scale factor must be positive"@),
            Err(e) => r == Err::<(u32, u32), MonochoraError>(e),
        },
        r matches Ok(d) ==> d.0 >= 1 && d.1 >= 1,
{
    if img_w == 0 || img_h == 0 {
        return Err(MonochoraError::InvalidDimensions { width: img_w, height: img_h });
    }
    if let Some(s) = &c.scale_factor {
        if s.num == 0 || s.den == 0 {
            return Err(MonochoraError::Config("Scale factor must be positive".to_owned()));
        }
        let w = scale_by_ratios_clamped(img_w, s.num, 1, s.den, 1, 1);
        let h = scale_by_ratios_clamped(img_h, s.num, c.char_aspect.den, s.den, c.char_aspect.num, 1);
        return Ok((w, h));
    }
    if let (Some(w), Some(h)) = (c.width, c.height) {
        if w == 0 || h == 0 {
            return Err(MonochoraError::InvalidDimensions { width: w, height: h });
        }
        return Ok((w, h));
    }
    if let Some(w) = c.width {
        if w == 0 {
            return Err(MonochoraError::InvalidDimensions { width: w, height: 0 });
        }
        let h = if c.preserve_aspect_ratio {
            scale_by_ratios_clamped(w, img_h, c.char_aspect.den, img_w, c.char_aspect.num, 1)
        } else {
            scale_by_ratios_clamped(img_h, c.char_aspect.den, 1, c.char_aspect.num, 1, 1)
        };
        return Ok((w, h));
    }
    if let Some(h) = c.height {
        if h == 0 {
            return Err(MonochoraError::InvalidDimensions { width: 0, height: h });
        }
        let w = if c.preserve_aspect_ratio {
            scale_by_ratios_clamped(h, img_w, c.char_aspect.num, img_h, c.char_aspect.den, 1)
        } else {
            img_w
        };
        return Ok((w, h));
    }
    let h = if c.preserve_aspect_ratio {
        scale_by_ratios_clamped(img_h, c.char_aspect.den, 1, c.char_aspect.num, 1, 1)
    } else {
        img_h
    };
    Ok((img_w, h))
}

/// With a scale factor set, the planned size never consults the source
/// aspect ratio: flipping aspect preservation, or replacing the explicit
/// width and height targets, changes nothing.
pub proof fn lemma_scale_mode_ignores_aspect_flag(
    img_w: u32,
    img_h: u32,
    c1: AsciiConverterConfig,
    c2: AsciiConverterConfig,
)
    requires
        c1.scale_factor is Some,
        c2.scale_factor == c1.scale_factor,
        c2.char_aspect == c1.char_aspect,
        img_w > 0,
        img_h > 0,
    ensures
        spec_target_dimensions(img_w, img_h, c1) == spec_target_dimensions(img_w, img_h, c2),
{
}

/// With explicit width and height, the planned size is those values
/// verbatim, whatever the source size: the source aspect ratio is never
/// consulted.
pub proof fn lemma_explicit_mode_ignores_source(
    w1: u32,
    h1: u32,
    w2: u32,
    h2: u32,
    c: AsciiConverterConfig,
)
    requires
        c.scale_factor is None,
        c.width matches Some(w) && w > 0,
        c.height matches Some(h) && h > 0,
        w1 > 0,
        h1 > 0,
        w2 > 0,
        h2 > 0,
    ensures
        spec_target_dimensions(w1, h1, c) == spec_target_dimensions(w2, h2, c),
        spec_target_dimensions(w1, h1, c) == Ok::<(u32, u32), MonochoraError>(
            (c.width->0, c.height->0),
        ),
{
}

/// The planner never returns a zero dimension.
pub proof fn lemma_planner_never_zero(img_w: u32, img_h: u32, c: AsciiConverterConfig)
    ensures
        spec_target_dimensions(img_w, img_h, c) matches Ok(d) ==> d.0 >= 1 && d.1 >= 1,
{
}

} // verus!
