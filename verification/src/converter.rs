//! Maps a decoded RGBA image to a two-dimensional character grid, one row
//! per output line, by nearest-neighbor sampling and ramp lookup.
//!
//! The monochrome path emits a plain glyph string per row; the colored path
//! emits the same glyph sequence with each opaque cell bracketed by an
//! inline foreground-color escape, ending with a reset.

use vstd::prelude::*;
use crate::ansi::{push_encoded_cell, push_reset, spec_cell, spec_encode_cell, spec_reset_seq,
    ColoredCharacter};
use crate::brightness::{apply_invert, calculate_brightness, calculate_char_index, effective_luma,
    spec_char_index};
use crate::color::{spec_rgb, Rgb};
use crate::config::AsciiConverterConfig;
use crate::error::MonochoraError;
use crate::planner::{calculate_target_dimensions, spec_target_dimensions};
use crate::strutil::chars_to_string;

verus! {

/// A decoded image: RGBA bytes in row-major order, four bytes per pixel.
#[derive(Debug, Clone)]
pub struct PixelBuffer {
    pub width: u32,
    pub height: u32,
    pub data: Vec<u8>,
}

impl PixelBuffer {
    /// The byte buffer holds exactly four bytes for every pixel.
    pub open spec fn wf(self) -> bool {
        self.data@.len() == 4 * self.width as int * self.height as int
    }

    /// Channel `k` (0 red, 1 green, 2 blue, 3 alpha) of the pixel at (x, y).
    pub open spec fn spec_channel(self, x: int, y: int, k: int) -> u8 {
        self.data@[4 * (y * self.width as int + x) + k]
    }

    /// Wraps an RGBA byte buffer, refusing one whose length does not match
    /// the dimensions.
    pub fn from_rgba(width: u32, height: u32, data: Vec<u8>) -> (r: Option<PixelBuffer>)
        ensures
            r matches Some(pb) ==> pb.wf() && pb.width == width && pb.height == height && pb.data@
                == data@,
            r is None <==> data@.len() != 4 * width as int * height as int,
    {
        proof {
            crate::ratio::lemma_u32_product_fits(width as int, height as int);
            assert(4 * (width as int * height as int) == 4 * width as int * height as int)
                by (nonlinear_arith);
        }
        let expected: u128 = 4u128 * ((width as u128) * (height as u128));
        if data.len() as u128 == expected {
            Some(PixelBuffer { width, height, data })
        } else {
            None
        }
    }

    /// Reads the pixel at (x, y) as `(r, g, b, a)`.
    pub fn get_pixel(&self, x: u32, y: u32) -> (p: (u8, u8, u8, u8))
        requires
            self.wf(),
            x < self.width,
            y < self.height,
        ensures
            p.0 == self.spec_channel(x as int, y as int, 0),
            p.1 == self.spec_channel(x as int, y as int, 1),
            p.2 == self.spec_channel(x as int, y as int, 2),
            p.3 == self.spec_channel(x as int, y as int, 3),
    {
        let n = self.data.len();
        proof {
            lemma_pixel_index_bounds(
                self.width as int,
                self.height as int,
                x as int,
                y as int,
            );
            crate::ratio::lemma_u32_product_fits(y as int, self.width as int);
        }
        let base: u64 = 4 * (y as u64 * self.width as u64 + x as u64);
        let i = base as usize;
        (self.data[i], self.data[i + 1], self.data[i + 2], self.data[i + 3])
    }
}

/// A pixel index stays inside the buffer.
pub proof fn lemma_pixel_index_bounds(w: int, h: int, x: int, y: int)
    requires
        0 <= x < w,
        0 <= y < h,
    ensures
        0 <= 4 * (y * w + x),
        4 * (y * w + x) + 3 < 4 * w * h,
{
    assert(0 <= 4 * (y * w + x) && 4 * (y * w + x) + 3 < 4 * w * h) by (nonlinear_arith)
        requires
            0 <= x < w,
            0 <= y < h,
    ;
}

/// The source coordinate sampled for an output coordinate: a floor-scaled
/// index, clamped to the last source row or column. This is nearest-neighbor
/// sampling with no smoothing.
pub open spec fn spec_sample(dst: int, dst_total: int, src_total: int) -> int {
    let scaled = dst * src_total / dst_total;
    if scaled > src_total - 1 {
        src_total - 1
    } else {
        scaled
    }
}

/// Computes the sampled source coordinate.
pub fn sample_coord(dst: u32, dst_total: u32, src_total: u32) -> (s: u32)
    requires
        dst_total > 0,
        src_total > 0,
    ensures
        s == spec_sample(dst as int, dst_total as int, src_total as int),
        s < src_total,
{
    proof {
        crate::ratio::lemma_u32_product_fits(dst as int, src_total as int);
        crate::ratio::lemma_div_nonneg_le(
            dst as int * src_total as int,
            dst_total as int,
        );
    }
    let scaled: u64 = dst as u64 * src_total as u64 / dst_total as u64;
    if scaled > src_total as u64 - 1 {
        src_total - 1
    } else {
        scaled as u32
    }
}

/// The glyph chosen for the source pixel at (sx, sy): a fully transparent
/// pixel maps unconditionally to the space glyph, bypassing the ramp; any
/// other pixel picks the ramp glyph for its (possibly inverted) luminance.
pub open spec fn spec_glyph_at(
    img: PixelBuffer,
    cs: Seq<char>,
    invert: bool,
    sx: int,
    sy: int,
) -> char {
    if img.spec_channel(sx, sy, 3) == 0 {
        ' '
    } else {
        cs[spec_char_index(
            effective_luma(
                img.spec_channel(sx, sy, 0),
                img.spec_channel(sx, sy, 1),
                img.spec_channel(sx, sy, 2),
                invert,
            ),
            cs.len() as int,
        )]
    }
}

/// One monochrome output row: the glyphs for every sampled cell.
pub open spec fn spec_mono_row(
    img: PixelBuffer,
    cs: Seq<char>,
    invert: bool,
    tw: int,
    th: int,
    y: int,
) -> Seq<char> {
    Seq::new(
        tw as nat,
        |x: int|
            spec_glyph_at(
                img,
                cs,
                invert,
                spec_sample(x, tw, img.width as int),
                spec_sample(y, th, img.height as int),
            ),
    )
}

/// The serialized form of one colored cell: a transparent pixel is a bare
/// space, an opaque pixel is its color escape followed by its glyph.
pub open spec fn spec_colored_chunk(
    img: PixelBuffer,
    cs: Seq<char>,
    invert: bool,
    tw: int,
    th: int,
    y: int,
    x: int,
) -> Seq<char> {
    let sx = spec_sample(x, tw, img.width as int);
    let sy = spec_sample(y, th, img.height as int);
    if img.spec_channel(sx, sy, 3) == 0 {
        seq![' ']
    } else {
        spec_encode_cell(
            spec_cell(
                spec_glyph_at(img, cs, invert, sx, sy),
                spec_rgb(
                    img.spec_channel(sx, sy, 0),
                    img.spec_channel(sx, sy, 1),
                    img.spec_channel(sx, sy, 2),
                ),
            ),
        )
    }
}

/// The first `upto` serialized cells of one colored output row.
pub open spec fn spec_colored_row_prefix(
    img: PixelBuffer,
    cs: Seq<char>,
    invert: bool,
    tw: int,
    th: int,
    y: int,
    upto: int,
) -> Seq<char>
    decreases upto,
{
    if upto <= 0 {
        Seq::empty()
    } else {
        spec_colored_row_prefix(img, cs, invert, tw, th, y, upto - 1) + spec_colored_chunk(
            img,
            cs,
            invert,
            tw,
            th,
            y,
            upto - 1,
        )
    }
}

/// One whole colored output row: every serialized cell, then the reset.
pub open spec fn spec_colored_row(
    img: PixelBuffer,
    cs: Seq<char>,
    invert: bool,
    tw: int,
    th: int,
    y: int,
) -> Seq<char> {
    spec_colored_row_prefix(img, cs, invert, tw, th, y, tw) + spec_reset_seq()
}

/// The glyph for one pixel's channel values under a ramp.
fn glyph_for_pixel(r: u8, g: u8, b: u8, a: u8, invert: bool, charset: &Vec<char>) -> (ch: char)
    requires
        2 <= charset@.len() <= 256,
    ensures
        a == 0 ==> ch == ' ',
        a != 0 ==> ch == charset@[spec_char_index(
            effective_luma(r, g, b, invert),
            charset@.len() as int,
        )],
{
    if a == 0 {
        return ' ';
    }
    let luma = calculate_brightness(r, g, b);
    let luma = apply_invert(luma, invert);
    let idx = calculate_char_index(luma, charset.len());
    charset[idx]
}

/// Converts an image to a grid of plain glyph rows.
///
/// Rejects an invalid configuration or an empty image exactly as
/// `is_validate_error` and `spec_target_dimensions` describe; otherwise
/// yields one row per planned output line, each row being exactly
/// `spec_mono_row` of its index.
pub fn image_to_ascii(image: &PixelBuffer, config: &AsciiConverterConfig) -> (r: Result<
    Vec<String>,
    MonochoraError,
>)
    requires
        image.wf(),
    ensures
        !config.valid() ==> (r matches Err(e) && config.is_validate_error(e)),
        config.valid() ==> match spec_target_dimensions(image.width, image.height, *config) {
            Ok(d) => r matches Ok(lines) && lines@.len() == d.1 && (forall|y: int|
                0 <= y < d.1 ==> #[trigger] lines@[y]@ == spec_mono_row(
                    *image,
                    config.spec_charset(),
                    config.invert,
                    d.0 as int,
                    d.1 as int,
                    y,
                )),
            Err(e) => r == Err::<Vec<String>, MonochoraError>(e),
        },
{
    if let Err(e) = config.validate() {
        return Err(e);
    }
    let chars = config.get_charset();
    proof {
        config.lemma_valid_charset_len();
    }
    if image.width == 0 || image.height == 0 {
        return Err(
            MonochoraError::InvalidDimensions { width: image.width, height: image.height },
        );
    }
    let (tw, th) = match calculate_target_dimensions(image.width, image.height, config) {
        Ok(d) => d,
        Err(e) => {
            return Err(e);
        },
    };
    let ghost cs = config.spec_charset();
    let ghost inv = config.invert;
    let mut lines: Vec<String> = Vec::new();
    let mut y: u32 = 0;
    while y < th
        invariant
            image.wf(),
            2 <= chars@.len() <= 256,
            chars@ == cs,
            inv == config.invert,
            tw >= 1,
            th >= 1,
            image.width >= 1,
            image.height >= 1,
            y <= th,
            lines@.len() == y as int,
            forall|j: int|
                0 <= j < y as int ==> #[trigger] lines@[j]@ == spec_mono_row(
                    *image,
                    cs,
                    inv,
                    tw as int,
                    th as int,
                    j,
                ),
        decreases th - y,
    {
        let sy = sample_coord(y, th, image.height);
        let mut line: Vec<char> = Vec::new();
        let mut x: u32 = 0;
        while x < tw
            invariant
                image.wf(),
                2 <= chars@.len() <= 256,
                chars@ == cs,
                inv == config.invert,
                tw >= 1,
                th >= 1,
                image.width >= 1,
                image.height >= 1,
                y < th,
                sy == spec_sample(y as int, th as int, image.height as int),
                sy < image.height,
                x <= tw,
                line@.len() == x as int,
                forall|j: int|
                    0 <= j < x as int ==> line@[j] == #[trigger] spec_mono_row(
                        *image,
                        cs,
                        inv,
                        tw as int,
                        th as int,
                        y as int,
                    )[j],
            decreases tw - x,
        {
            let sx = sample_coord(x, tw, image.width);
            let (pr, pg, pb, pa) = image.get_pixel(sx, sy);
            let ch = glyph_for_pixel(pr, pg, pb, pa, config.invert, &chars);
            line.push(ch);
            x = x + 1;
        }
        let rendered = chars_to_string(&line);
        proof {
            assert(rendered@ =~= spec_mono_row(*image, cs, inv, tw as int, th as int, y as int));
        }
        lines.push(rendered);
        y = y + 1;
    }
    Ok(lines)
}

/// Converts an image to a grid of colored glyph rows with inline
/// foreground-color escapes, one escape per opaque cell, each row ending
/// with a reset.
pub fn image_to_colored_ascii(image: &PixelBuffer, config: &AsciiConverterConfig) -> (r: Result<
    Vec<String>,
    MonochoraError,
>)
    requires
        image.wf(),
    ensures
        !config.valid() ==> (r matches Err(e) && config.is_validate_error(e)),
        config.valid() ==> match spec_target_dimensions(image.width, image.height, *config) {
            Ok(d) => r matches Ok(lines) && lines@.len() == d.1 && (forall|y: int|
                0 <= y < d.1 ==> #[trigger] lines@[y]@ == spec_colored_row(
                    *image,
                    config.spec_charset(),
                    config.invert,
                    d.0 as int,
                    d.1 as int,
                    y,
                )),
            Err(e) => r == Err::<Vec<String>, MonochoraError>(e),
        },
{
    if let Err(e) = config.validate() {
        return Err(e);
    }
    let chars = config.get_charset();
    proof {
        config.lemma_valid_charset_len();
    }
    if image.width == 0 || image.height == 0 {
        return Err(
            MonochoraError::InvalidDimensions { width: image.width, height: image.height },
        );
    }
    let (tw, th) = match calculate_target_dimensions(image.width, image.height, config) {
        Ok(d) => d,
        Err(e) => {
            return Err(e);
        },
    };
    let ghost cs = config.spec_charset();
    let ghost inv = config.invert;
    let mut lines: Vec<String> = Vec::new();
    let mut y: u32 = 0;
    while y < th
        invariant
            image.wf(),
            2 <= chars@.len() <= 256,
            chars@ == cs,
            inv == config.invert,
            tw >= 1,
            th >= 1,
            image.width >= 1,
            image.height >= 1,
            y <= th,
            lines@.len() == y as int,
            forall|j: int|
                0 <= j < y as int ==> #[trigger] lines@[j]@ == spec_colored_row(
                    *image,
                    cs,
                    inv,
                    tw as int,
                    th as int,
                    j,
                ),
        decreases th - y,
    {
        let sy = sample_coord(y, th, image.height);
        let mut line: Vec<char> = Vec::new();
        let mut x: u32 = 0;
        while x < tw
            invariant
                image.wf(),
                2 <= chars@.len() <= 256,
                chars@ == cs,
                inv == config.invert,
                tw >= 1,
                th >= 1,
                image.width >= 1,
                image.height >= 1,
                y < th,
                sy == spec_sample(y as int, th as int, image.height as int),
                sy < image.height,
                x <= tw,
                line@ == spec_colored_row_prefix(
                    *image,
                    cs,
                    inv,
                    tw as int,
                    th as int,
                    y as int,
                    x as int,
                ),
            decreases tw - x,
        {
            let sx = sample_coord(x, tw, image.width);
            let (pr, pg, pb, pa) = image.get_pixel(sx, sy);
            if pa == 0 {
                line.push(' ');
            } else {
                let ch = glyph_for_pixel(pr, pg, pb, pa, config.invert, &chars);
                push_encoded_cell(
                    &mut line,
                    ColoredCharacter { character: ch, color: Rgb { r: pr, g: pg, b: pb } },
                );
            }
            proof {
                assert(line@ =~= spec_colored_row_prefix(
                    *image,
                    cs,
                    inv,
                    tw as int,
                    th as int,
                    y as int,
                    x + 1,
                ));
            }
            x = x + 1;
        }
        push_reset(&mut line);
        let rendered = chars_to_string(&line);
        proof {
            assert(rendered@ =~= spec_colored_row(*image, cs, inv, tw as int, th as int, y as int));
        }
        lines.push(rendered);
        y = y + 1;
    }
    Ok(lines)
}


/// Whether `lines` is exactly the conversion of `img` under configuration
/// `c`: the planned number of rows, each row the monochrome or colored
/// rendering of its index.
pub open spec fn spec_is_ascii_frame(
    lines: Seq<String>,
    img: PixelBuffer,
    c: AsciiConverterConfig,
    colored: bool,
) -> bool {
    match spec_target_dimensions(img.width, img.height, c) {
        Ok(d) => lines.len() == d.1 && (forall|y: int|
            0 <= y < d.1 ==> #[trigger] lines[y]@ == (if colored {
                spec_colored_row(img, c.spec_charset(), c.invert, d.0 as int, d.1 as int, y)
            } else {
                spec_mono_row(img, c.spec_charset(), c.invert, d.0 as int, d.1 as int, y)
            })),
        Err(_) => false,
    }
}


/// The cells a parse of a colored row yields from cell `x` on, with `cur`
/// the color current at that point: a transparent cell is a space carrying
/// the current color, an opaque cell carries its own pixel color, which
/// then becomes current.
pub open spec fn spec_expected_cells(
    img: PixelBuffer,
    cs: Seq<char>,
    invert: bool,
    tw: int,
    th: int,
    y: int,
    x: int,
    cur: Rgb,
) -> Seq<ColoredCharacter>
    decreases tw - x,
{
    if x < 0 || x >= tw {
        Seq::empty()
    } else {
        let sx = spec_sample(x, tw, img.width as int);
        let sy = spec_sample(y, th, img.height as int);
        if img.spec_channel(sx, sy, 3) == 0 {
            seq![spec_cell(' ', cur)] + spec_expected_cells(img, cs, invert, tw, th, y, x + 1, cur)
        } else {
            let col = spec_rgb(
                img.spec_channel(sx, sy, 0),
                img.spec_channel(sx, sy, 1),
                img.spec_channel(sx, sy, 2),
            );
            seq![spec_cell(spec_glyph_at(img, cs, invert, sx, sy), col)] + spec_expected_cells(
                img,
                cs,
                invert,
                tw,
                th,
                y,
                x + 1,
                col,
            )
        }
    }
}

/// The expected cells carry exactly the monochrome row's glyphs, and every
/// opaque cell carries its pixel's color.
pub proof fn lemma_expected_cells_shape(
    img: PixelBuffer,
    cs: Seq<char>,
    invert: bool,
    tw: int,
    th: int,
    y: int,
    x: int,
    cur: Rgb,
)
    requires
        0 <= x <= tw,
    ensures
        spec_expected_cells(img, cs, invert, tw, th, y, x, cur).len() == tw - x,
        forall|j: int|
            0 <= j < tw - x ==> (#[trigger] spec_expected_cells(
                img,
                cs,
                invert,
                tw,
                th,
                y,
                x,
                cur,
            )[j]).character == spec_mono_row(img, cs, invert, tw, th, y)[x + j],
        forall|j: int|
            0 <= j < tw - x && img.spec_channel(
                spec_sample(x + j, tw, img.width as int),
                spec_sample(y, th, img.height as int),
                3,
            ) != 0 ==> (#[trigger] spec_expected_cells(img, cs, invert, tw, th, y, x, cur)[j]).color
                == spec_rgb(
                img.spec_channel(
                    spec_sample(x + j, tw, img.width as int),
                    spec_sample(y, th, img.height as int),
                    0,
                ),
                img.spec_channel(
                    spec_sample(x + j, tw, img.width as int),
                    spec_sample(y, th, img.height as int),
                    1,
                ),
                img.spec_channel(
                    spec_sample(x + j, tw, img.width as int),
                    spec_sample(y, th, img.height as int),
                    2,
                ),
            ),
    decreases tw - x,
{
    if x < tw {
        let sx = spec_sample(x, tw, img.width as int);
        let sy = spec_sample(y, th, img.height as int);
        if img.spec_channel(sx, sy, 3) == 0 {
            lemma_expected_cells_shape(img, cs, invert, tw, th, y, x + 1, cur);
        } else {
            let col = spec_rgb(
                img.spec_channel(sx, sy, 0),
                img.spec_channel(sx, sy, 1),
                img.spec_channel(sx, sy, 2),
            );
            lemma_expected_cells_shape(img, cs, invert, tw, th, y, x + 1, col);
        }
    }
}

/// An earlier serialized-row prefix is a prefix of a later one.
pub proof fn lemma_colored_prefix_extends(
    img: PixelBuffer,
    cs: Seq<char>,
    invert: bool,
    tw: int,
    th: int,
    y: int,
    a: int,
    b: int,
)
    requires
        0 <= a <= b,
    ensures
        spec_colored_row_prefix(img, cs, invert, tw, th, y, a).len() <= spec_colored_row_prefix(
            img,
            cs,
            invert,
            tw,
            th,
            y,
            b,
        ).len(),
        spec_colored_row_prefix(img, cs, invert, tw, th, y, b).subrange(
            0,
            spec_colored_row_prefix(img, cs, invert, tw, th, y, a).len() as int,
        ) == spec_colored_row_prefix(img, cs, invert, tw, th, y, a),
    decreases b - a,
{
    if b > a {
        lemma_colored_prefix_extends(img, cs, invert, tw, th, y, a, b - 1);
        let pa = spec_colored_row_prefix(img, cs, invert, tw, th, y, a);
        let pb1 = spec_colored_row_prefix(img, cs, invert, tw, th, y, b - 1);
        let pb = spec_colored_row_prefix(img, cs, invert, tw, th, y, b);
        assert(pb == pb1 + spec_colored_chunk(img, cs, invert, tw, th, y, b - 1));
        assert(pb.subrange(0, pa.len() as int) =~= pb1.subrange(0, pa.len() as int));
    }
}

/// The parse of a serialized colored row, read from cell `x` on with `cur`
/// current, yields exactly the expected cells.
pub proof fn lemma_row_parse_from(
    img: PixelBuffer,
    cs: Seq<char>,
    invert: bool,
    tw: int,
    th: int,
    y: int,
    s: Seq<char>,
    x: int,
    cur: Rgb,
)
    requires
        img.wf(),
        img.width >= 1,
        img.height >= 1,
        tw >= 1,
        th >= 1,
        0 <= y < th,
        2 <= cs.len() <= 256,
        forall|k: int| 0 <= k < cs.len() ==> cs[k] != '\x1b',
        s == spec_colored_row(img, cs, invert, tw, th, y),
        0 <= x <= tw,
    ensures
        crate::ansi::spec_parse_from(
            s,
            spec_colored_row_prefix(img, cs, invert, tw, th, y, x).len() as int,
            cur,
        ) == spec_expected_cells(img, cs, invert, tw, th, y, x, cur),
    decreases tw - x,
{
    let full = spec_colored_row_prefix(img, cs, invert, tw, th, y, tw);
    let pos = spec_colored_row_prefix(img, cs, invert, tw, th, y, x).len() as int;
    lemma_colored_prefix_extends(img, cs, invert, tw, th, y, x, tw);
    if x == tw {
        assert(pos == full.len());
        assert(s.len() == full.len() + 4);
        assert(forall|k: int|
            0 <= k < 4 ==> s[full.len() + k] == #[trigger] spec_reset_seq()[k]);
        assert(crate::ansi::spec_reset_at(s, pos));
        assert(crate::ansi::spec_parse_from(s, pos, cur) == crate::ansi::spec_parse_from(
            s,
            pos + 4,
            cur,
        ));
        assert(crate::ansi::spec_parse_from(s, pos + 4, cur) =~= Seq::<
            ColoredCharacter,
        >::empty());
    } else {
        let chunk = spec_colored_chunk(img, cs, invert, tw, th, y, x);
        let px1 = spec_colored_row_prefix(img, cs, invert, tw, th, y, x + 1);
        assert(px1 == spec_colored_row_prefix(img, cs, invert, tw, th, y, x) + chunk);
        lemma_colored_prefix_extends(img, cs, invert, tw, th, y, x + 1, tw);
        assert(forall|k: int|
            0 <= k < chunk.len() ==> s[pos + k] == #[trigger] chunk[k]) by {
            assert(forall|k: int|
                0 <= k < chunk.len() ==> px1[pos + k] == #[trigger] chunk[k]);
            assert(forall|k: int|
                0 <= k < px1.len() ==> s[k] == #[trigger] px1[k]) by {
                assert(forall|k: int|
                    0 <= k < px1.len() ==> full.subrange(0, px1.len() as int)[k]
                        == #[trigger] px1[k]);
                assert(forall|k: int|
                    0 <= k < full.len() ==> s[k] == #[trigger] full[k]) by {
                    assert(s == full + spec_reset_seq());
                }
            }
        }
        let sx = spec_sample(x, tw, img.width as int);
        let sy = spec_sample(y, th, img.height as int);
        lemma_row_parse_from(img, cs, invert, tw, th, y, s, x + 1, cur);
        if img.spec_channel(sx, sy, 3) == 0 {
            assert(chunk == seq![' ']);
            assert(s[pos + 0] == chunk[0]);
            assert(s[pos] == ' ');
            crate::ansi::lemma_parse_step_text(s, pos, cur);
            assert(crate::ansi::spec_parse_from(s, pos, cur) =~= seq![spec_cell(' ', cur)]
                + crate::ansi::spec_parse_from(s, pos + 1, cur));
            assert(px1.len() == pos + 1);
        } else {
            let col = spec_rgb(
                img.spec_channel(sx, sy, 0),
                img.spec_channel(sx, sy, 1),
                img.spec_channel(sx, sy, 2),
            );
            let glyph = spec_glyph_at(img, cs, invert, sx, sy);
            let cc = spec_cell(glyph, col);
            assert(glyph != '\x1b') by {
                crate::brightness::lemma_char_index_in_range(
                    crate::brightness::effective_luma(
                        img.spec_channel(sx, sy, 0),
                        img.spec_channel(sx, sy, 1),
                        img.spec_channel(sx, sy, 2),
                        invert,
                    ),
                    cs.len() as int,
                );
            }
            assert(chunk == spec_encode_cell(cc));
            assert(s.subrange(pos, pos + chunk.len() as int) =~= chunk);
            assert(pos + chunk.len() <= s.len());
            crate::ansi::lemma_parse_encoded_cell(s, pos, cc, cur);
            lemma_row_parse_from(img, cs, invert, tw, th, y, s, x + 1, col);
            assert(px1.len() == pos + chunk.len());
        }
    }
}

/// Round trip: parsing a serialized colored row reconstructs its cells
/// exactly, glyph for glyph, with every opaque cell carrying its pixel
/// color. The ramp must not contain the escape character itself.
pub proof fn lemma_colored_row_roundtrip(
    img: PixelBuffer,
    cs: Seq<char>,
    invert: bool,
    tw: int,
    th: int,
    y: int,
    default_color: Rgb,
)
    requires
        img.wf(),
        img.width >= 1,
        img.height >= 1,
        tw >= 1,
        th >= 1,
        0 <= y < th,
        2 <= cs.len() <= 256,
        forall|k: int| 0 <= k < cs.len() ==> cs[k] != '\x1b',
    ensures
        crate::ansi::spec_parse_line(
            spec_colored_row(img, cs, invert, tw, th, y),
            default_color,
        ) == spec_expected_cells(img, cs, invert, tw, th, y, 0, default_color),
        crate::ansi::spec_parse_line(
            spec_colored_row(img, cs, invert, tw, th, y),
            default_color,
        ).len() == tw,
        forall|j: int|
            0 <= j < tw ==> (#[trigger] crate::ansi::spec_parse_line(
                spec_colored_row(img, cs, invert, tw, th, y),
                default_color,
            )[j]).character == spec_mono_row(img, cs, invert, tw, th, y)[j],
{
    let s = spec_colored_row(img, cs, invert, tw, th, y);
    lemma_row_parse_from(img, cs, invert, tw, th, y, s, 0, default_color);
    assert(spec_colored_row_prefix(img, cs, invert, tw, th, y, 0).len() == 0);
    lemma_expected_cells_shape(img, cs, invert, tw, th, y, 0, default_color);
}


} // verus!
