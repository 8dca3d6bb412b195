//! Decodes an animated image into full-size RGBA frames: each container
//! frame is validated and composited at its position onto an opaque
//! full-size canvas, and per-frame delays are normalized to milliseconds.

use vstd::prelude::*;
use crate::converter::PixelBuffer;
use crate::error::MonochoraError;

verus! {

/// Decoded sources larger than this many pixels are refused outright.
pub const MAX_PIXELS: u64 = 100000000;

/// At most this many frames are decoded from one animation.
pub const MAX_FRAMES: usize = 10000;

/// The fallback display delay, in milliseconds, where the container gives
/// none.
pub const DEFAULT_FRAME_DELAY_MS: u16 = 100;

/// How often an animation replays; `Finite(0)` plays it once.
#[derive(Debug, Clone, Copy, PartialEq, Eq, Structural)]
pub enum RepeatSpec {
    Finite(u16),
    Infinite,
}

/// One frame as the container yields it: an RGBA sub-rectangle at a
/// position, with its delay still in the container's 10 ms units.
#[derive(Debug, Clone)]
pub struct RawFrameData {
    pub buffer: Vec<u8>,
    pub delay_units: u16,
    pub width: u16,
    pub height: u16,
    pub left: u16,
    pub top: u16,
}

impl RawFrameData {
    /// Whether a raw frame fits its canvas and carries a whole RGBA buffer.
    pub open spec fn valid_for(self, canvas_width: u32, canvas_height: u32) -> bool {
        &&& self.width > 0
        &&& self.height > 0
        &&& (self.left as int) < canvas_width
        &&& (self.top as int) < canvas_height
        &&& self.buffer@.len() == 4 * self.width as int * self.height as int
    }

    /// Rejects a raw frame with empty dimensions, a position outside the
    /// canvas, or a buffer of the wrong size.
    pub fn validate(&self, canvas_width: u32, canvas_height: u32) -> (r: Result<
        (),
        MonochoraError,
    >)
        ensures
            r is Ok <==> self.valid_for(canvas_width, canvas_height),
            self.width == 0 || self.height == 0 ==> r == Err::<(), MonochoraError>(
                MonochoraError::InvalidDimensions {
                    width: self.width as u32,
                    height: self.height as u32,
                },
            ),
            r matches Err(e) ==> (e matches MonochoraError::InvalidDimensions { .. } || e matches
                MonochoraError::GifDecode(_)),
    {
        if self.width == 0 || self.height == 0 {
            return Err(
                MonochoraError::InvalidDimensions {
                    width: self.width as u32,
                    height: self.height as u32,
                },
            );
        }
        if self.left as u32 >= canvas_width || self.top as u32 >= canvas_height {
            return Err(
                MonochoraError::GifDecode("Frame position is outside canvas bounds".to_owned()),
            );
        }
        proof {
            assert(0 <= self.width as int * self.height as int <= 65535 * 65535 && 4 * (
            self.width as int * self.height as int) == 4 * self.width as int
                * self.height as int) by (nonlinear_arith)
                requires
                    self.width <= 65535,
                    self.height <= 65535,
            ;
        }
        let expected: u64 = 4u64 * (self.width as u64 * self.height as u64);
        if self.buffer.len() as u64 != expected {
            return Err(MonochoraError::GifDecode("Frame buffer size mismatch".to_owned()));
        }
        Ok(())
    }
}

/// One decoded frame: a full-size RGBA image and its display delay in
/// milliseconds.
#[derive(Debug, Clone)]
pub struct GifFrame {
    pub image: PixelBuffer,
    pub delay_time_ms: u16,
}

/// A decoded animation: its frames, the source pixel size, and how often it
/// replays (0 meaning forever).
#[derive(Debug, Clone)]
pub struct GifData {
    pub frames: Vec<GifFrame>,
    pub width: u32,
    pub height: u32,
    pub loop_count: u16,
}

impl GifData {
    /// Every frame is a well-formed image of the animation's full size.
    pub open spec fn wf(self) -> bool {
        forall|i: int|
            0 <= i < self.frames@.len() ==> {
                &&& (#[trigger] self.frames@[i]).image.wf()
                &&& self.frames@[i].image.width == self.width
                &&& self.frames@[i].image.height == self.height
            }
    }

    /// The sum of the first `k` frame delays, in milliseconds.
    pub open spec fn spec_duration_prefix(self, k: int) -> int
        decreases k,
    {
        if k <= 0 {
            0
        } else {
            self.spec_duration_prefix(k - 1) + self.frames@[k - 1].delay_time_ms
        }
    }

    /// The total duration of one loop iteration, in milliseconds.
    pub fn total_duration_ms(&self) -> (d: u64)
        requires
            self.frames@.len() <= MAX_FRAMES,
        ensures
            d == self.spec_duration_prefix(self.frames@.len() as int),
    {
        let mut d: u64 = 0;
        let mut i: usize = 0;
        while i < self.frames.len()
            invariant
                i <= self.frames@.len() <= MAX_FRAMES,
                d == self.spec_duration_prefix(i as int),
                d <= i * 65535,
            decreases self.frames.len() - i,
        {
            d = d + self.frames[i].delay_time_ms as u64;
            i = i + 1;
        }
        d
    }

    /// The mean frame delay in milliseconds; the fallback default when the
    /// animation has no frames.
    pub fn average_frame_delay(&self) -> (d: u16)
        requires
            self.frames@.len() <= MAX_FRAMES,
        ensures
            self.frames@.len() == 0 ==> d == DEFAULT_FRAME_DELAY_MS,
            self.frames@.len() > 0 ==> d == self.spec_duration_prefix(
                self.frames@.len() as int,
            ) / self.frames@.len() as int,
    {
        if self.frames.len() == 0 {
            return DEFAULT_FRAME_DELAY_MS;
        }
        let total = self.total_duration_ms();
        let avg = total / self.frames.len() as u64;
        proof {
            lemma_duration_prefix_bound(*self, self.frames@.len() as int);
            vstd::arithmetic::div_mod::lemma_div_is_ordered(
                self.spec_duration_prefix(self.frames@.len() as int),
                65535 * self.frames@.len() as int,
                self.frames@.len() as int,
            );
            assert(65535 * self.frames@.len() as int / self.frames@.len() as int == 65535)
                by (nonlinear_arith)
                requires
                    self.frames@.len() > 0,
            ;
            crate::ratio::lemma_div_nonneg_le(
                self.spec_duration_prefix(self.frames@.len() as int),
                self.frames@.len() as int,
            );
        }
        avg as u16
    }

    /// Rejects an animation with no frames, an empty canvas, or any frame
    /// whose image is not exactly the canvas size.
    pub fn validate(&self) -> (r: Result<(), MonochoraError>)
        ensures
            r is Ok <==> (self.frames@.len() > 0 && self.width > 0 && self.height > 0 && forall|
                i: int,
            |
                0 <= i < self.frames@.len() ==> (#[trigger] self.frames@[i]).image.width
                    == self.width && self.frames@[i].image.height == self.height),
            r matches Err(e) ==> (e matches MonochoraError::GifDecode(_) || e matches
                MonochoraError::InvalidDimensions { .. }),
    {
        if self.frames.len() == 0 {
            return Err(MonochoraError::GifDecode("GIF has no frames".to_owned()));
        }
        if self.width == 0 || self.height == 0 {
            return Err(
                MonochoraError::InvalidDimensions { width: self.width, height: self.height },
            );
        }
        let mut i: usize = 0;
        while i < self.frames.len()
            invariant
                i <= self.frames@.len(),
                forall|q: int|
                    0 <= q < i ==> (#[trigger] self.frames@[q]).image.width == self.width
                        && self.frames@[q].image.height == self.height,
            decreases self.frames.len() - i,
        {
            let f = &self.frames[i];
            if f.image.width != self.width || f.image.height != self.height {
                return Err(MonochoraError::GifDecode("Frame has incorrect dimensions".to_owned()));
            }
            i = i + 1;
        }
        Ok(())
    }
}

/// A delay-prefix sum is bounded by the frame count times the largest delay.
pub proof fn lemma_duration_prefix_bound(g: GifData, k: int)
    requires
        0 <= k <= g.frames@.len(),
    ensures
        0 <= g.spec_duration_prefix(k) <= k * 65535,
    decreases k,
{
    if k > 0 {
        lemma_duration_prefix_bound(g, k - 1);
        assert((k - 1) * 65535 + 65535 == k * 65535) by (nonlinear_arith);
    }
}

/// An open decode stream over an in-memory animation.
#[verifier::external_body]
pub struct GifDecoderHandle<'a> {
    inner: gif::Decoder<&'a [u8]>,
}

/// Relies on gif's DecodeOptions::read_info, with RGBA color output
/// selected so that every decoded frame buffer holds four bytes per pixel;
/// decoding failures come back as their message.
#[verifier::external_body]
fn gif_open_decoder(data: &[u8]) -> (r: Result<GifDecoderHandle<'_>, String>)
    ensures
        true,
{
    let mut options = gif::DecodeOptions::new();
    options.set_color_output(gif::ColorOutput::RGBA);
    match options.read_info(data) {
        Ok(inner) => Ok(GifDecoderHandle { inner }),
        Err(e) => Err(format!("{}", e)),
    }
}

/// Relies on gif's Decoder::width and Decoder::height: the logical screen
/// size from the container header.
#[verifier::external_body]
fn gif_canvas_size(d: &GifDecoderHandle<'_>) -> (r: (u16, u16))
    ensures
        true,
{
    (d.inner.width(), d.inner.height())
}

/// Relies on gif's Decoder::repeat: the container's repetition count, read
/// from its loop extension; the default without one is `Finite(0)`.
#[verifier::external_body]
fn gif_repeat(d: &GifDecoderHandle<'_>) -> (r: RepeatSpec)
    ensures
        true,
{
    match d.inner.repeat() {
        gif::Repeat::Finite(n) => RepeatSpec::Finite(n),
        gif::Repeat::Infinite => RepeatSpec::Infinite,
    }
}

/// Relies on gif's Decoder::read_next_frame: yields the next frame's
/// sub-rectangle, RGBA buffer and raw delay, `None` at the end of the
/// stream, or the decoding error's message.
#[verifier::external_body]
fn gif_next_frame(d: &mut GifDecoderHandle<'_>) -> (r: Result<Option<RawFrameData>, String>)
    ensures
        true,
{
    match d.inner.read_next_frame() {
        Ok(Some(f)) => Ok(Some(RawFrameData {
            buffer: f.buffer.to_vec(),
            delay_units: f.delay,
            width: f.width,
            height: f.height,
            left: f.left,
            top: f.top,
        })),
        Ok(None) => Ok(None),
        Err(e) => Err(format!("{}", e)),
    }
}

/// A container repetition count as a playback loop count: infinite is 0
/// (the loop-count convention for "run forever"), a finite count of zero --
/// the container's way of saying "play once" -- is one iteration, and any
/// other finite count is itself.
pub open spec fn spec_loop_count(repeat: RepeatSpec) -> u16 {
    match repeat {
        RepeatSpec::Infinite => 0u16,
        RepeatSpec::Finite(n) => if n == 0 {
            1u16
        } else {
            n
        },
    }
}

/// Maps a container repetition count to the playback loop count.
pub fn loop_count_from_repeat(repeat: RepeatSpec) -> (n: u16)
    ensures
        n == spec_loop_count(repeat),
{
    match repeat {
        RepeatSpec::Infinite => 0,
        RepeatSpec::Finite(r) => if r == 0 {
            1
        } else {
            r
        },
    }
}

/// A raw container delay normalized to milliseconds: ten milliseconds per
/// unit, the fallback default for a zero delay, saturating at the type's
/// range.
pub open spec fn spec_delay_ms(units: int) -> int {
    if units == 0 {
        DEFAULT_FRAME_DELAY_MS as int
    } else if units * 10 > 65535 {
        65535
    } else {
        units * 10
    }
}

/// Normalizes a raw container delay to milliseconds.
pub fn normalize_delay(units: u16) -> (ms: u16)
    ensures
        ms == spec_delay_ms(units as int),
        ms >= 1,
{
    if units == 0 {
        DEFAULT_FRAME_DELAY_MS
    } else if units > 6553 {
        65535
    } else {
        units * 10
    }
}

/// The canvas byte at channel `k` of (x, y) after compositing a raw frame
/// onto a black transparent canvas: inside the frame's rectangle the
/// frame's own byte, elsewhere zero.
pub open spec fn spec_composited_channel(raw: RawFrameData, cw: int, x: int, y: int, k: int) -> u8 {
    if raw.left <= x < raw.left + raw.width && raw.top <= y < raw.top + raw.height {
        raw.buffer@[4 * ((y - raw.top) * raw.width as int + (x - raw.left)) + k]
    } else {
        0u8
    }
}

/// Composites one raw frame onto a full-size canvas at its position,
/// clipping anything that hangs past the canvas edge.
pub fn create_frame_from_raw(raw: &RawFrameData, canvas_width: u32, canvas_height: u32) -> (r:
    Result<GifFrame, MonochoraError>)
    requires
        raw.valid_for(canvas_width, canvas_height),
        4 * canvas_width as int * canvas_height as int <= usize::MAX,
    ensures
        r matches Ok(f) ==> {
            &&& f.image.wf()
            &&& f.image.width == canvas_width
            &&& f.image.height == canvas_height
            &&& f.delay_time_ms == spec_delay_ms(raw.delay_units as int)
            &&& forall|x: int, y: int, k: int|
                0 <= x < canvas_width && 0 <= y < canvas_height && 0 <= k < 4
                    ==> #[trigger] f.image.spec_channel(x, y, k) == spec_composited_channel(
                    *raw,
                    canvas_width as int,
                    x,
                    y,
                    k,
                )
        },
        r is Ok,
{
    proof {
        crate::ratio::lemma_u32_product_fits(canvas_width as int, canvas_height as int);
        assert(4 * (canvas_width as int * canvas_height as int) == 4 * canvas_width as int
            * canvas_height as int) by (nonlinear_arith);
    }
    let src_len = raw.buffer.len();
    let canvas_size: usize = (4u64 * (canvas_width as u64 * canvas_height as u64)) as usize;
    let mut buffer: Vec<u8> = Vec::new();
    let mut z: usize = 0;
    while z < canvas_size
        invariant
            z <= canvas_size,
            buffer@.len() == z as int,
            forall|q: int| 0 <= q < z ==> buffer@[q] == 0u8,
        decreases canvas_size - z,
    {
        buffer.push(0u8);
        z = z + 1;
    }
    proof {
        assert forall|xx: int, yy: int, kk: int|
            0 <= xx < canvas_width && 0 <= yy < canvas_height && 0 <= kk < 4 implies #[trigger] buffer@[
        4 * (yy * canvas_width as int + xx) + kk] == 0u8 by {
            crate::converter::lemma_pixel_index_bounds(
                canvas_width as int,
                canvas_height as int,
                xx,
                yy,
            );
        }
    }
    let mut y: u32 = 0;
    let fw = raw.width as u32;
    let fh = raw.height as u32;
    let left = raw.left as u32;
    let top = raw.top as u32;
    while y < fh
        invariant
            raw.valid_for(canvas_width, canvas_height),
            4 * canvas_width as int * canvas_height as int <= usize::MAX,
            fw == raw.width as u32,
            fh == raw.height as u32,
            left == raw.left as u32,
            top == raw.top as u32,
            y <= fh,
            src_len == raw.buffer@.len(),
            buffer@.len() == 4 * canvas_width as int * canvas_height as int,
            forall|xx: int, yy: int, kk: int|
                0 <= xx < canvas_width && 0 <= yy < canvas_height && 0 <= kk < 4 ==> #[trigger] buffer@[4
                    * (yy * canvas_width as int + xx) + kk] == (if raw.left <= xx < raw.left
                    + raw.width && raw.top <= yy < raw.top + y {
                    raw.buffer@[4 * ((yy - raw.top) * raw.width as int + (xx - raw.left)) + kk]
                } else {
                    0u8
                }),
        decreases fh - y,
    {
        let mut x: u32 = 0;
        while x < fw
            invariant
                raw.valid_for(canvas_width, canvas_height),
                4 * canvas_width as int * canvas_height as int <= usize::MAX,
                fw == raw.width as u32,
                fh == raw.height as u32,
                left == raw.left as u32,
                top == raw.top as u32,
                y < fh,
                x <= fw,
                src_len == raw.buffer@.len(),
                buffer@.len() == 4 * canvas_width as int * canvas_height as int,
                forall|xx: int, yy: int, kk: int|
                    0 <= xx < canvas_width && 0 <= yy < canvas_height && 0 <= kk < 4 ==> #[trigger] buffer@[
                    4 * (yy * canvas_width as int + xx) + kk] == (if raw.left <= xx < raw.left
                        + raw.width && raw.top <= yy < (raw.top + y) + (if xx < raw.left + x {
                        1int
                    } else {
                        0int
                    }) {
                        raw.buffer@[4 * ((yy - raw.top) * raw.width as int + (xx - raw.left)) + kk]
                    } else {
                        0u8
                    }),
            decreases fw - x,
        {
            let canvas_x: u64 = left as u64 + x as u64;
            let canvas_y: u64 = top as u64 + y as u64;
            if canvas_x < canvas_width as u64 && canvas_y < canvas_height as u64 {
                proof {
                    crate::converter::lemma_pixel_index_bounds(
                        canvas_width as int,
                        canvas_height as int,
                        canvas_x as int,
                        canvas_y as int,
                    );
                    crate::converter::lemma_pixel_index_bounds(
                        raw.width as int,
                        raw.height as int,
                        x as int,
                        y as int,
                    );
                    crate::ratio::lemma_u32_product_fits(
                        canvas_y as int,
                        canvas_width as int,
                    );
                    crate::ratio::lemma_u32_product_fits(y as int, raw.width as int);
                    assert(4 * (canvas_y as int * canvas_width as int + canvas_x as int) + 3 < 4
                        * canvas_width as int * canvas_height as int);
                    assert(4 * (y as int * raw.width as int + x as int) + 3 < 4
                        * raw.width as int * raw.height as int);
                }
                let src_base: usize = (4u64 * (y as u64 * fw as u64 + x as u64)) as usize;
                let dst_base: usize = (4u64 * (canvas_y * canvas_width as u64 + canvas_x)) as usize;
                let ghost buf0 = buffer@;
                buffer[dst_base] = raw.buffer[src_base];
                buffer[dst_base + 1] = raw.buffer[src_base + 1];
                buffer[dst_base + 2] = raw.buffer[src_base + 2];
                buffer[dst_base + 3] = raw.buffer[src_base + 3];
                proof {
                    lemma_blit_step(
                        buf0,
                        buffer@,
                        *raw,
                        canvas_width as int,
                        canvas_height as int,
                        x as int,
                        y as int,
                    );
                }
            }
            x = x + 1;
        }
        y = y + 1;
    }
    let delay_time_ms = normalize_delay(raw.delay_units);
    let image = PixelBuffer { width: canvas_width, height: canvas_height, data: buffer };
    Ok(GifFrame { image, delay_time_ms })
}

/// Writing the four channel bytes of one canvas pixel extends the
/// composited region by exactly that pixel.
pub proof fn lemma_blit_step(
    buf0: Seq<u8>,
    buf1: Seq<u8>,
    raw: RawFrameData,
    cw: int,
    ch: int,
    x: int,
    y: int,
)
    requires
        0 <= x < raw.width,
        0 <= y < raw.height,
        raw.left + x < cw,
        raw.top + y < ch,
        buf0.len() == 4 * cw * ch,
        buf1.len() == buf0.len(),
        raw.buffer.len() == 4 * raw.width as int * raw.height as int,
        forall|q: int|
            0 <= q < buf0.len() && !(4 * ((raw.top + y) * cw + (raw.left + x)) <= q < 4 * ((raw.top
                + y) * cw + (raw.left + x)) + 4) ==> buf1[q] == #[trigger] buf0[q],
        forall|kk: int|
            0 <= kk < 4 ==> #[trigger] buf1[4 * ((raw.top + y) * cw + (raw.left + x)) + kk]
                == raw.buffer@[4 * (y * raw.width as int + x) + kk],
        forall|xx: int, yy: int, kk: int|
            0 <= xx < cw && 0 <= yy < ch && 0 <= kk < 4 ==> #[trigger] buf0[4 * (yy * cw + xx) + kk]
                == (if raw.left <= xx < raw.left + raw.width && raw.top <= yy < (raw.top + y) + (
            if xx < raw.left + x {
                1int
            } else {
                0int
            }) {
                raw.buffer@[4 * ((yy - raw.top) * raw.width as int + (xx - raw.left)) + kk]
            } else {
                0u8
            }),
    ensures
        forall|xx: int, yy: int, kk: int|
            0 <= xx < cw && 0 <= yy < ch && 0 <= kk < 4 ==> #[trigger] buf1[4 * (yy * cw + xx) + kk]
                == (if raw.left <= xx < raw.left + raw.width && raw.top <= yy < (raw.top + y) + (
            if xx < raw.left + x + 1 {
                1int
            } else {
                0int
            }) {
                raw.buffer@[4 * ((yy - raw.top) * raw.width as int + (xx - raw.left)) + kk]
            } else {
                0u8
            }),
{
    let tx = raw.left + x;
    let ty = raw.top + y;
    assert forall|xx: int, yy: int, kk: int|
        0 <= xx < cw && 0 <= yy < ch && 0 <= kk < 4 implies #[trigger] buf1[4 * (yy * cw + xx) + kk]
        == (if raw.left <= xx < raw.left + raw.width && raw.top <= yy < (raw.top + y) + (if xx
        < raw.left + x + 1 {
        1int
    } else {
        0int
    }) {
        raw.buffer@[4 * ((yy - raw.top) * raw.width as int + (xx - raw.left)) + kk]
    } else {
        0u8
    }) by {
        lemma_pixel_offsets_distinct(cw, ch, xx, yy, tx, ty);
        assert(0 <= 4 * (yy * cw + xx) + kk < 4 * cw * ch) by (nonlinear_arith)
            requires
                0 <= xx < cw,
                0 <= yy < ch,
                0 <= kk < 4,
        ;
        if xx == tx && yy == ty {
            assert(buf1[4 * (ty * cw + tx) + kk] == raw.buffer@[4 * (y * raw.width as int + x)
                + kk]);
        } else {
            assert(buf1[4 * (yy * cw + xx) + kk] == buf0[4 * (yy * cw + xx) + kk]);
        }
    }
}

/// Distinct pixels occupy disjoint four-byte ranges.
pub proof fn lemma_pixel_offsets_distinct(cw: int, ch: int, x1: int, y1: int, x2: int, y2: int)
    requires
        0 <= x1 < cw,
        0 <= y1 < ch,
        0 <= x2 < cw,
        0 <= y2 < ch,
    ensures
        (x1 != x2 || y1 != y2) ==> (4 * (y1 * cw + x1) + 4 <= 4 * (y2 * cw + x2) || 4 * (y2 * cw
            + x2) + 4 <= 4 * (y1 * cw + x1)),
{
    if x1 != x2 || y1 != y2 {
        assert(y1 * cw + x1 != y2 * cw + x2 && (y1 * cw + x1 < y2 * cw + x2 || y2 * cw + x2 < y1
            * cw + x1)) by (nonlinear_arith)
            requires
                0 <= x1 < cw,
                0 <= y1 < ch,
                0 <= x2 < cw,
                0 <= y2 < ch,
                x1 != x2 || y1 != y2,
        ;
    }
}


/// Decodes a whole animation from its container bytes: validates the canvas
/// and every frame, composites each frame onto a full-size canvas,
/// normalizes delays, and preserves the container's repetition count. A
/// decode failure mid-stream ends the frame list early; an animation that
/// yields no frame at all is an error.
pub fn decode_gif_bytes(data: &[u8]) -> (r: Result<GifData, MonochoraError>)
    ensures
        r matches Ok(g) ==> {
            &&& g.wf()
            &&& 0 < g.frames@.len() <= MAX_FRAMES
            &&& g.width > 0
            &&& g.height > 0
            &&& g.width as int * g.height as int <= MAX_PIXELS
            &&& forall|i: int|
                0 <= i < g.frames@.len() ==> (#[trigger] g.frames@[i]).delay_time_ms >= 1
        },
        r matches Err(e) ==> (e matches MonochoraError::GifDecode(_) || e matches
            MonochoraError::InvalidDimensions { .. } || e
            == MonochoraError::InsufficientMemory),
{
    let mut dec = match gif_open_decoder(data) {
        Ok(d) => d,
        Err(m) => {
            return Err(MonochoraError::GifDecode(m));
        },
    };
    let (w16, h16) = gif_canvas_size(&dec);
    let width = w16 as u32;
    let height = h16 as u32;
    if width == 0 || height == 0 {
        return Err(MonochoraError::InvalidDimensions { width, height });
    }
    proof {
        assert(0 <= width as int * height as int <= 65535 * 65535 && 4 * (width as int
            * height as int) == 4 * width as int * height as int) by (nonlinear_arith)
            requires
                width <= 65535,
                height <= 65535,
        ;
    }
    let total_pixels: u64 = width as u64 * height as u64;
    if total_pixels > MAX_PIXELS {
        return Err(MonochoraError::InsufficientMemory);
    }
    let repeat = gif_repeat(&dec);
    let mut frames: Vec<GifFrame> = Vec::new();
    let mut done = false;
    while !done && frames.len() < MAX_FRAMES
        invariant
            width > 0,
            height > 0,
            width as int * height as int <= MAX_PIXELS,
            4 * width as int * height as int <= usize::MAX,
            frames@.len() <= MAX_FRAMES,
            forall|i: int|
                0 <= i < frames@.len() ==> {
                    &&& (#[trigger] frames@[i]).image.wf()
                    &&& frames@[i].image.width == width
                    &&& frames@[i].image.height == height
                    &&& frames@[i].delay_time_ms >= 1
                },
        decreases MAX_FRAMES - frames.len() + (if done { 0int } else { 1int }),
    {
        match gif_next_frame(&mut dec) {
            Ok(Some(raw)) => {
                if let Err(e) = raw.validate(width, height) {
                    return Err(e);
                }
                let frame = match create_frame_from_raw(&raw, width, height) {
                    Ok(f) => f,
                    Err(e) => {
                        return Err(e);
                    },
                };
                frames.push(frame);
            },
            Ok(None) => {
                done = true;
            },
            Err(_) => {
                done = true;
            },
        }
    }
    if frames.len() == 0 {
        return Err(MonochoraError::GifDecode("No valid frames found in GIF".to_owned()));
    }
    let loop_count = loop_count_from_repeat(repeat);
    Ok(GifData { frames, width, height, loop_count })
}

} // verus!
