//! Lays a character grid out as paint operations on a pixel canvas: one
//! operation per monochrome line, one per color run of a colored line, each
//! with all other positions blanked so inter-run text does not shift.

use vstd::prelude::*;
use crate::ansi::{parse_cells, spec_parse_line, ColoredCharacter};
use crate::color::{spec_rgb, Rgb};
use crate::error::MonochoraError;
use crate::ratio::Ratio;
use crate::strutil::{chars_to_string, str_chars};

verus! {

/// The hard upper bound on the requested font size, in pixels.
pub const MAX_FONT_SIZE: u32 = 200;

/// The hard upper bound on the line-height multiplier.
pub const MAX_LINE_HEIGHT_MULTIPLIER: u32 = 10;

/// Fixed vertical padding added under the last grid line of a derived
/// canvas, in pixels.
pub const DEFAULT_PADDING: u32 = 20;

/// How a character grid is rendered to pixels: glyph size, colors, line
/// spacing, and whether cells carry their own colors.
#[derive(Debug, Clone)]
pub struct AsciiGifOutputOptions {
    pub font_size: u32,
    pub bg_color: Rgb,
    pub text_color: Rgb,
    pub line_height_multiplier: Ratio,
    pub preserve_input_dimensions: bool,
    pub colored: bool,
}

impl AsciiGifOutputOptions {
    /// The font size is positive and within the hard bound.
    pub open spec fn font_size_ok(self) -> bool {
        0 < self.font_size <= MAX_FONT_SIZE
    }

    /// The line-height multiplier is a positive fraction of at most ten.
    pub open spec fn line_height_ok(self) -> bool {
        self.line_height_multiplier.wf() && self.line_height_multiplier.spec_le_int(
            MAX_LINE_HEIGHT_MULTIPLIER as int,
        )
    }

    /// Whether the options are usable at all.
    pub open spec fn valid(self) -> bool {
        self.font_size_ok() && self.line_height_ok()
    }

    /// Rejects unusable options, the font size first.
    pub fn validate(&self) -> (r: Result<(), MonochoraError>)
        ensures
            r is Ok <==> self.valid(),
            !self.font_size_ok() ==> r == Err::<(), MonochoraError>(
                MonochoraError::InvalidFontSize { size: self.font_size },
            ),
            self.font_size_ok() && !self.line_height_ok() ==> (r matches Err(
                MonochoraError::Config(m),
            ) && m@ == "Invalid line height multiplier"@),
    {
        if self.font_size == 0 || self.font_size > MAX_FONT_SIZE {
            return Err(MonochoraError::InvalidFontSize { size: self.font_size });
        }
        if self.line_height_multiplier.num == 0 || self.line_height_multiplier.den == 0 {
            return Err(MonochoraError::Config("Invalid line height multiplier".to_owned()));
        }
        if !self.line_height_multiplier.le_int(MAX_LINE_HEIGHT_MULTIPLIER) {
            return Err(MonochoraError::Config("Invalid line height multiplier".to_owned()));
        }
        Ok(())
    }
}

impl Default for AsciiGifOutputOptions {
    /// The defaults: 14-pixel glyphs, white text on black, single-spaced,
    /// input dimensions preserved, monochrome.
    fn default() -> (r: Self)
        ensures
            r.font_size == 14,
            r.bg_color == spec_rgb(0, 0, 0),
            r.text_color == spec_rgb(255, 255, 255),
            r.line_height_multiplier == (Ratio { num: 1u32, den: 1u32 }),
            r.preserve_input_dimensions,
            !r.colored,
            r.valid(),
    {
        AsciiGifOutputOptions {
            font_size: 14,
            bg_color: Rgb { r: 0, g: 0, b: 0 },
            text_color: Rgb { r: 255, g: 255, b: 255 },
            line_height_multiplier: Ratio { num: 1, den: 1 },
            preserve_input_dimensions: true,
            colored: false,
        }
    }
}

/// The default foreground used when a colored line names no color before its
/// first glyph.
pub open spec fn spec_black() -> Rgb {
    spec_rgb(0, 0, 0)
}

/// The number of visible glyphs in a line: for a line carrying escapes, the
/// number of parsed cells; otherwise its plain character count.
pub open spec fn spec_visible_len(line: Seq<char>) -> int {
    spec_parse_line(line, spec_black()).len() as int
}

/// Whether a line carries an escape character.
pub open spec fn spec_has_escape(line: Seq<char>) -> bool {
    exists|k: int| 0 <= k < line.len() && line[k] == '\x1b'
}

/// Whether a character sequence holds the escape character.
pub fn has_escape(line: &Vec<char>) -> (r: bool)
    ensures
        r == spec_has_escape(line@),
{
    let mut k: usize = 0;
    while k < line.len()
        invariant
            k <= line.len(),
            forall|q: int| 0 <= q < k ==> line@[q] != '\x1b',
        decreases line.len() - k,
    {
        if line[k] == '\x1b' {
            return true;
        }
        k = k + 1;
    }
    false
}

/// Counts the visible glyphs of one line. A plain line counts every
/// character; a line with escapes counts its parsed cells.
pub fn calculate_line_character_count(line: &str) -> (n: usize)
    ensures
        n == spec_visible_len(line@),
{
    let cs = str_chars(line);
    if has_escape(&cs) {
        let cells = parse_cells(&cs, Rgb { r: 0, g: 0, b: 0 });
        cells.len()
    } else {
        proof {
            lemma_parse_plain_len(cs@, spec_black(), 0);
        }
        cs.len()
    }
}

/// A line without escapes parses to one cell per character.
pub proof fn lemma_parse_plain_len(s: Seq<char>, cur: Rgb, i: int)
    requires
        0 <= i <= s.len(),
        forall|k: int| 0 <= k < s.len() ==> s[k] != '\x1b',
    ensures
        crate::ansi::spec_parse_from(s, i, cur).len() == s.len() - i,
    decreases s.len() - i,
{
    if i < s.len() {
        lemma_parse_plain_len(s, cur, i + 1);
    }
}

/// The sizes derived from a grid of frames: the canvas dimensions in cells,
/// and the raw maxima they came from.
#[derive(Debug, Clone)]
pub struct RenderDimensions {
    pub width: u32,
    pub height: u32,
    pub max_line_length: usize,
    pub max_lines: usize,
}

/// The longest visible line among the first `k` lines of one frame.
pub open spec fn spec_frame_max_len(fr: Seq<String>, k: int) -> int
    decreases k,
{
    if k <= 0 {
        0
    } else {
        let prev = spec_frame_max_len(fr, k - 1);
        let cur = spec_visible_len(fr[k - 1]@);
        if cur > prev {
            cur
        } else {
            prev
        }
    }
}

/// The longest visible line among the first `k` frames.
pub open spec fn spec_frames_max_len(fs: Seq<Vec<String>>, k: int) -> int
    decreases k,
{
    if k <= 0 {
        0
    } else {
        let prev = spec_frames_max_len(fs, k - 1);
        let cur = spec_frame_max_len(fs[k - 1]@, fs[k - 1]@.len() as int);
        if cur > prev {
            cur
        } else {
            prev
        }
    }
}

/// The tallest frame among the first `k` frames, in lines.
pub open spec fn spec_frames_max_lines(fs: Seq<Vec<String>>, k: int) -> int
    decreases k,
{
    if k <= 0 {
        0
    } else {
        let prev = spec_frames_max_lines(fs, k - 1);
        let cur = fs[k - 1]@.len() as int;
        if cur > prev {
            cur
        } else {
            prev
        }
    }
}

/// Clamps a count into the `u32` range.
pub open spec fn spec_clamp_count(v: int) -> u32 {
    if v > u32::MAX {
        u32::MAX as u32
    } else {
        v as u32
    }
}

/// Measures a frame grid: the longest visible line and the tallest frame.
/// Rejects an empty frame list and frames with no content at all.
pub fn calculate_dimensions_from_ascii(frames: &Vec<Vec<String>>) -> (r: Result<
    RenderDimensions,
    MonochoraError,
>)
    ensures
        r is Ok <==> frames@.len() > 0 && spec_frames_max_len(frames@, frames@.len() as int) > 0
            && spec_frames_max_lines(frames@, frames@.len() as int) > 0,
        r matches Ok(rd) ==> {
            &&& rd.max_line_length == spec_frames_max_len(frames@, frames@.len() as int)
            &&& rd.max_lines == spec_frames_max_lines(frames@, frames@.len() as int)
            &&& rd.width == spec_clamp_count(rd.max_line_length as int)
            &&& rd.height == spec_clamp_count(rd.max_lines as int)
        },
        r matches Err(e) ==> (e matches MonochoraError::Config(m) && (m@
            == "No ASCII frames provided"@ || m@ == "ASCII frames contain no content"@)),
        frames@.len() == 0 ==> (r matches Err(MonochoraError::Config(m)) && m@
            == "No ASCII frames provided"@),
{
    if frames.len() == 0 {
        return Err(MonochoraError::Config("No ASCII frames provided".to_owned()));
    }
    let mut max_len: usize = 0;
    let mut max_lines: usize = 0;
    let mut i: usize = 0;
    while i < frames.len()
        invariant
            i <= frames@.len(),
            max_len == spec_frames_max_len(frames@, i as int),
            max_lines == spec_frames_max_lines(frames@, i as int),
        decreases frames.len() - i,
    {
        let frame = &frames[i];
        let mut j: usize = 0;
        let ghost entry_max = max_len;
        while j < frame.len()
            invariant
                j <= frame@.len(),
                frame == &frames@[i as int],
                i < frames@.len(),
                spec_frame_max_len(frame@, j as int) <= max_len,
                max_len == entry_max || max_len == spec_frame_max_len(frame@, j as int),
                entry_max <= max_len,
            decreases frame.len() - j,
        {
            let n = calculate_line_character_count(frame[j].as_str());
            if n > max_len {
                max_len = n;
            }
            j = j + 1;
        }
        proof {
            let full = spec_frame_max_len(frame@, frame@.len() as int);
            assert(max_len == if full > entry_max as int {
                full
            } else {
                entry_max as int
            });
        }
        if frame.len() > max_lines {
            max_lines = frame.len();
        }
        i = i + 1;
    }
    if max_len == 0 || max_lines == 0 {
        return Err(MonochoraError::Config("ASCII frames contain no content".to_owned()));
    }
    let width = if max_len as u64 > u32::MAX as u64 {
        u32::MAX
    } else {
        max_len as u32
    };
    let height = if max_lines as u64 > u32::MAX as u64 {
        u32::MAX
    } else {
        max_lines as u32
    };
    Ok(RenderDimensions { width, height, max_line_length: max_len, max_lines })
}

/// The derived canvas size when no explicit target is given: the grid width
/// times a character cell six tenths of the font size wide, and the grid
/// height times the spaced line height, plus fixed padding; saturating at
/// the `u32` range.
pub open spec fn spec_derived_canvas(rd: RenderDimensions, o: AsciiGifOutputOptions) -> (
    int,
    int,
) {
    let char_w = o.font_size as int * 6 / 10;
    let line_h = o.font_size as int * o.line_height_multiplier.num as int
        / o.line_height_multiplier.den as int;
    (
        crate::ratio::clamp_u32(rd.width as int * char_w, 0),
        crate::ratio::clamp_u32(rd.height as int * line_h + DEFAULT_PADDING, 0),
    )
}

/// Chooses the output canvas size: an explicit target wins; otherwise the
/// canvas is derived from the measured grid and the options.
pub fn calculate_render_dimensions(
    rd: &RenderDimensions,
    options: &AsciiGifOutputOptions,
    target_dimensions: Option<(u32, u32)>,
) -> (r: (u32, u32))
    requires
        options.valid(),
    ensures
        target_dimensions matches Some(t) ==> r == t,
        target_dimensions is None ==> r.0 == spec_derived_canvas(*rd, *options).0 && r.1
            == spec_derived_canvas(*rd, *options).1,
{
    match target_dimensions {
        Some(t) => t,
        None => {
            let char_w: u32 = options.font_size * 6 / 10;
            let line_h: u32 = crate::ratio::mul_ratio_clamped(
                options.font_size,
                options.line_height_multiplier,
                0,
            );
            proof {
                assert(options.font_size as int * options.line_height_multiplier.num as int
                    <= options.font_size as int * options.line_height_multiplier.den as int * 10
                    && options.font_size as int * options.line_height_multiplier.den as int * 10
                    / options.line_height_multiplier.den as int == options.font_size as int * 10)
                    by (nonlinear_arith)
                    requires
                        options.line_height_multiplier.wf(),
                        options.line_height_multiplier.num as int <= 10
                            * options.line_height_multiplier.den as int,
                        options.font_size >= 0,
                ;
                crate::ratio::lemma_div_nonneg_le(
                    options.font_size as int * options.line_height_multiplier.num as int,
                    options.line_height_multiplier.den as int,
                );
                vstd::arithmetic::div_mod::lemma_div_is_ordered(
                    options.font_size as int * options.line_height_multiplier.num as int,
                    options.font_size as int * options.line_height_multiplier.den as int * 10,
                    options.line_height_multiplier.den as int,
                );
                assert(line_h as int == options.font_size as int
                    * options.line_height_multiplier.num as int
                    / options.line_height_multiplier.den as int);
                assert(line_h <= 2000);
            }
            proof {
                crate::ratio::lemma_u32_product_fits(rd.width as int, char_w as int);
                assert(0 <= rd.height as int * line_h as int <= u32::MAX as int * 2000)
                    by (nonlinear_arith)
                    requires
                        0 <= line_h <= 2000,
                        0 <= rd.height <= u32::MAX,
                ;
            }
            let w_px: u64 = rd.width as u64 * char_w as u64;
            let h_px: u64 = rd.height as u64 * line_h as u64 + DEFAULT_PADDING as u64;
            (
                crate::ratio::clamp_to_u32(w_px, 0),
                crate::ratio::clamp_to_u32(h_px, 0),
            )
        },
    }
}


/// One paint operation: draw `text` at pixel position (x, y) in `color`,
/// with glyph positions preserved by blanks inside the text itself.
#[derive(Debug, Clone)]
pub struct PaintOp {
    pub x: u32,
    pub y: u32,
    pub color: Rgb,
    pub text: String,
}

/// The mathematical description of one paint operation.
pub struct OpSpec {
    pub y: int,
    pub color: Rgb,
    pub text: Seq<char>,
}

/// An operation description from its parts.
pub open spec fn spec_mk_op(y: int, color: Rgb, text: Seq<char>) -> OpSpec {
    OpSpec { y, color, text }
}

/// The produced operations realize their descriptions, all at the left
/// margin.
pub open spec fn spec_ops_match(ops: Seq<PaintOp>, specs: Seq<OpSpec>) -> bool {
    &&& ops.len() == specs.len()
    &&& forall|k: int|
        0 <= k < ops.len() ==> {
            &&& (#[trigger] ops[k]).x == 0
            &&& ops[k].y == specs[k].y
            &&& ops[k].color == specs[k].color
            &&& ops[k].text@ == specs[k].text
        }
}

/// Realizations concatenate along with their descriptions.
pub proof fn lemma_ops_match_concat(
    a: Seq<PaintOp>,
    b: Seq<OpSpec>,
    c: Seq<PaintOp>,
    d: Seq<OpSpec>,
)
    requires
        spec_ops_match(a, b),
        spec_ops_match(c, d),
    ensures
        spec_ops_match(a + c, b + d),
{
    assert forall|k: int| 0 <= k < (a + c).len() implies {
        &&& ((a + c)[k]).x == 0
        &&& (a + c)[k].y == (b + d)[k].y
        &&& (a + c)[k].color == (b + d)[k].color
        &&& (a + c)[k].text@ == (b + d)[k].text
    } by {
        if k < a.len() {
            assert((a + c)[k] == a[k] && (b + d)[k] == b[k]);
        } else {
            assert((a + c)[k] == c[k - a.len()] && (b + d)[k] == d[k - a.len()]);
        }
    }
}

/// The end of the color run that starts before `j` with color `c`: the
/// first index at or after `j` whose cell differs in color.
pub open spec fn spec_run_end_from(cells: Seq<ColoredCharacter>, c: Rgb, j: int) -> int
    decreases cells.len() - j,
{
    if j < cells.len() && cells[j].color == c {
        spec_run_end_from(cells, c, j + 1)
    } else {
        j
    }
}

/// A run's end lies between its scan start and the end of the cells, the
/// whole run shares its color, and the run is maximal.
pub proof fn lemma_run_end_bounds(cells: Seq<ColoredCharacter>, c: Rgb, j: int)
    requires
        0 <= j <= cells.len(),
    ensures
        j <= spec_run_end_from(cells, c, j) <= cells.len(),
        forall|q: int| j <= q < spec_run_end_from(cells, c, j) ==> (#[trigger] cells[q]).color == c,
        spec_run_end_from(cells, c, j) < cells.len() ==> cells[spec_run_end_from(
            cells,
            c,
            j,
        )].color != c,
    decreases cells.len() - j,
{
    if j < cells.len() && cells[j].color == c {
        lemma_run_end_bounds(cells, c, j + 1);
    }
}

/// The positioned text for a run: the run's own glyphs in place, every
/// other position blanked, so inter-run text does not shift.
pub open spec fn spec_positioned(cells: Seq<ColoredCharacter>, start: int, end: int) -> Seq<
    char,
> {
    Seq::new(cells.len(), |k: int| if start <= k < end {
        cells[k].character
    } else {
        ' '
    })
}

/// The operations for one colored line from cell `i` on: one per maximal
/// run of identical color.
pub open spec fn spec_colored_line_ops(
    cells: Seq<ColoredCharacter>,
    y: int,
    i: int,
) -> Seq<OpSpec>
    decreases cells.len() - i,
{
    if i < 0 || i >= cells.len() {
        Seq::empty()
    } else {
        let e = spec_run_end_from(cells, cells[i].color, i + 1);
        if i < e <= cells.len() {
            seq![spec_mk_op(y, cells[i].color, spec_positioned(cells, i, e))]
                + spec_colored_line_ops(cells, y, e)
        } else {
            Seq::empty()
        }
    }
}

/// The operations for one line: a colored line with escapes is split into
/// runs of its parsed cells; anything else is painted whole in the text
/// color.
pub open spec fn spec_line_ops(line: Seq<char>, y: int, o: AsciiGifOutputOptions) -> Seq<
    OpSpec,
> {
    if o.colored && spec_has_escape(line) {
        spec_colored_line_ops(spec_parse_line(line, o.text_color), y, 0)
    } else {
        seq![spec_mk_op(y, o.text_color, line)]
    }
}

/// Whether grid row `idx` fits on the canvas: its top must stay a full
/// glyph above the bottom edge.
pub open spec fn spec_row_included(idx: int, font_size: int, height: int) -> bool {
    idx * font_size < height - font_size
}

/// All the operations for the first `k` lines of a frame; rows that would
/// overflow the canvas are skipped.
pub open spec fn spec_frame_ops(
    lines: Seq<String>,
    o: AsciiGifOutputOptions,
    height: int,
    k: int,
) -> Seq<OpSpec>
    decreases k,
{
    if k <= 0 {
        Seq::empty()
    } else {
        spec_frame_ops(lines, o, height, k - 1) + (if spec_row_included(
            k - 1,
            o.font_size as int,
            height,
        ) {
            spec_line_ops(lines[k - 1]@, (k - 1) * o.font_size as int, o)
        } else {
            Seq::empty()
        })
    }
}

/// Once a row overflows the canvas, every later row does too, so the
/// operations stop growing.
pub proof fn lemma_frame_ops_stable(
    lines: Seq<String>,
    o: AsciiGifOutputOptions,
    height: int,
    stop: int,
    k: int,
)
    requires
        0 <= stop <= k,
        o.font_size >= 1,
        !spec_row_included(stop, o.font_size as int, height),
    ensures
        spec_frame_ops(lines, o, height, k) == spec_frame_ops(lines, o, height, stop),
    decreases k - stop,
{
    if k > stop {
        lemma_frame_ops_stable(lines, o, height, stop, k - 1);
        assert(!spec_row_included(k - 1, o.font_size as int, height)) by {
            assert(stop * o.font_size as int <= (k - 1) * o.font_size as int)
                by (nonlinear_arith)
                requires
                    0 <= stop <= k - 1,
                    o.font_size >= 1,
            ;
        }
        assert(spec_frame_ops(lines, o, height, k) =~= spec_frame_ops(lines, o, height, k - 1));
    }
}

/// Builds the positioned text for one run.
fn positioned_text(cells: &Vec<ColoredCharacter>, start: usize, end: usize) -> (t: String)
    requires
        start <= end <= cells@.len(),
    ensures
        t@ == spec_positioned(cells@, start as int, end as int),
{
    let mut out: Vec<char> = Vec::new();
    let mut k: usize = 0;
    while k < cells.len()
        invariant
            k <= cells@.len(),
            start <= end <= cells@.len(),
            out@.len() == k as int,
            forall|q: int|
                0 <= q < k as int ==> out@[q] == #[trigger] spec_positioned(
                    cells@,
                    start as int,
                    end as int,
                )[q],
        decreases cells.len() - k,
    {
        if start <= k && k < end {
            out.push(cells[k].character);
        } else {
            out.push(' ');
        }
        k = k + 1;
    }
    let t = chars_to_string(&out);
    proof {
        assert(t@ =~= spec_positioned(cells@, start as int, end as int));
    }
    t
}

/// Splits one colored line into per-run paint operations.
fn layout_colored_line(cells: &Vec<ColoredCharacter>, y: u32) -> (ops: Vec<PaintOp>)
    ensures
        spec_ops_match(ops@, spec_colored_line_ops(cells@, y as int, 0)),
{
    let mut ops: Vec<PaintOp> = Vec::new();
    let ghost all = spec_colored_line_ops(cells@, y as int, 0);
    proof {
        assert(spec_ops_match(ops@, Seq::<OpSpec>::empty()));
        assert(Seq::<OpSpec>::empty() + all =~= all);
    }
    let mut i: usize = 0;
    while i < cells.len()
        invariant
            i <= cells@.len(),
            exists|done: Seq<OpSpec>|
                #[trigger] spec_ops_match(ops@, done) && all == done + spec_colored_line_ops(
                    cells@,
                    y as int,
                    i as int,
                ),
            all == spec_colored_line_ops(cells@, y as int, 0),
        decreases cells.len() - i,
    {
        let color = cells[i].color;
        let mut e: usize = i + 1;
        while e < cells.len() && color_eq(cells[e].color, color)
            invariant
                i < e <= cells@.len(),
                color == cells@[i as int].color,
                spec_run_end_from(cells@, color, i + 1) == spec_run_end_from(
                    cells@,
                    color,
                    e as int,
                ),
            decreases cells.len() - e,
        {
            e = e + 1;
        }
        proof {
            lemma_run_end_bounds(cells@, color, e as int);
        }
        let text = positioned_text(cells, i, e);
        let op = PaintOp { x: 0, y, color, text };
        let ghost done0 = choose|done: Seq<OpSpec>|
            #[trigger] spec_ops_match(ops@, done) && all == done + spec_colored_line_ops(
                cells@,
                y as int,
                i as int,
            );
        ops.push(op);
        proof {
            let this = spec_mk_op(y as int, color, spec_positioned(cells@, i as int, e as int));
            let done1 = done0.push(this);
            assert(spec_ops_match(ops@, done1)) by {
                assert(ops@ == ops@.subrange(0, ops@.len() - 1).push(ops@[ops@.len() - 1]));
                assert(forall|k: int|
                    0 <= k < done0.len() ==> done1[k] == done0[k] && ops@[k] == #[trigger] ops@.subrange(
                        0,
                        ops@.len() - 1,
                    )[k]);
            }
            assert(spec_colored_line_ops(cells@, y as int, i as int) == seq![this]
                + spec_colored_line_ops(cells@, y as int, e as int));
            assert(all =~= done1 + spec_colored_line_ops(cells@, y as int, e as int)) by {
                assert(all == done0 + (seq![this] + spec_colored_line_ops(
                    cells@,
                    y as int,
                    e as int,
                )));
            }
        }
        i = e;
    }
    proof {
        let done0 = choose|done: Seq<OpSpec>|
            #[trigger] spec_ops_match(ops@, done) && all == done + spec_colored_line_ops(
                cells@,
                y as int,
                i as int,
            );
        assert(spec_colored_line_ops(cells@, y as int, i as int) == Seq::<OpSpec>::empty());
        assert(all =~= done0);
    }
    ops
}

/// Compares two colors for equality.
fn color_eq(a: Rgb, b: Rgb) -> (r: bool)
    ensures
        r == (a == b),
{
    a.r == b.r && a.g == b.g && a.b == b.b
}

/// Lays one frame out as paint operations: one per monochrome line, one per
/// color run of a colored line, skipping rows that would overflow the
/// canvas.
pub fn layout_frame(lines: &Vec<String>, options: &AsciiGifOutputOptions, height: u32) -> (ops:
    Vec<PaintOp>)
    requires
        options.valid(),
    ensures
        spec_ops_match(ops@, spec_frame_ops(lines@, *options, height as int, lines@.len() as int)),
{
    let mut ops: Vec<PaintOp> = Vec::new();
    let ghost o = *options;
    proof {
        assert(spec_ops_match(ops@, Seq::<OpSpec>::empty()));
        assert(spec_frame_ops(lines@, o, height as int, 0) == Seq::<OpSpec>::empty());
    }
    let mut idx: usize = 0;
    let fs = options.font_size;
    while idx < lines.len()
        invariant
            idx <= lines@.len(),
            o == *options,
            o.valid(),
            fs == o.font_size,
            idx as int * fs as int <= u32::MAX as int * 200,
            exists|done: Seq<OpSpec>|
                #[trigger] spec_ops_match(ops@, done) && done == spec_frame_ops(
                    lines@,
                    o,
                    height as int,
                    idx as int,
                ),
        decreases lines.len() - idx,
    {
        let y64: u64 = idx as u64 * fs as u64;
        let limit: u64 = if height > fs {
            (height - fs) as u64
        } else {
            0
        };
        if y64 >= limit {
            proof {
                assert(!spec_row_included(idx as int, fs as int, height as int));
                lemma_frame_ops_stable(
                    lines@,
                    o,
                    height as int,
                    idx as int,
                    lines@.len() as int,
                );
            }
            return ops;
        }
        let y = y64 as u32;
        let line_chars = str_chars(lines[idx].as_str());
        let line_ops: Vec<PaintOp> = if options.colored && has_escape(&line_chars) {
            let cells = parse_cells(&line_chars, options.text_color);
            layout_colored_line(&cells, y)
        } else {
            let mut single: Vec<PaintOp> = Vec::new();
            let text = chars_to_string(&line_chars);
            single.push(PaintOp { x: 0, y, color: options.text_color, text });
            proof {
                assert(spec_ops_match(
                    single@,
                    seq![spec_mk_op(y as int, o.text_color, lines@[idx as int]@)],
                ));
            }
            single
        };
        let ghost done0 = choose|done: Seq<OpSpec>|
            #[trigger] spec_ops_match(ops@, done) && done == spec_frame_ops(
                lines@,
                o,
                height as int,
                idx as int,
            );
        let ghost line_specs = spec_line_ops(lines@[idx as int]@, y as int, o);
        let mut line_ops_m = line_ops;
        let ghost ops0 = ops@;
        ops.append(&mut line_ops_m);
        proof {
            lemma_ops_match_concat(ops0, done0, ops@.subrange(ops0.len() as int, ops@.len() as int), line_specs);
            assert(ops@ =~= ops0 + ops@.subrange(ops0.len() as int, ops@.len() as int));
            assert(spec_frame_ops(lines@, o, height as int, idx + 1) == done0 + line_specs);
            assert(spec_ops_match(ops@, done0 + line_specs));
            assert(idx as int * fs as int + fs as int <= u32::MAX as int * 200) by (nonlinear_arith)
                requires
                    (idx as int) * (fs as int) < (height as int),
                    height <= u32::MAX,
                    1 <= fs <= 200,
            ;
            assert((idx + 1) as int * fs as int == idx as int * fs as int + fs as int)
                by (nonlinear_arith);
        }
        idx = idx + 1;
    }
    proof {
        let done0 = choose|done: Seq<OpSpec>|
            #[trigger] spec_ops_match(ops@, done) && done == spec_frame_ops(
                lines@,
                o,
                height as int,
                idx as int,
            );
    }
    ops
}

} // verus!
