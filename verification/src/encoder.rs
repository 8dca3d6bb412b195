//! Re-encodes rendered character-grid frames as an indexed-color animation:
//! plans the canvas and paint operations, quantizes painted frames against
//! the palette, and serializes the frames in order to container bytes.

use vstd::prelude::*;
use std::collections::HashMap;
use crate::color::Rgb;
use crate::decoder::RepeatSpec;
use crate::error::MonochoraError;
use crate::painter::{calculate_dimensions_from_ascii, calculate_render_dimensions, layout_frame,
    spec_clamp_count, spec_derived_canvas, spec_frame_ops, spec_frames_max_len,
    spec_frames_max_lines, spec_ops_match, AsciiGifOutputOptions, PaintOp, RenderDimensions};
use crate::palette::{create_color_cache, create_enhanced_color_palette, create_optimized_palette,
    quantize_image, spec_cache_wf};

verus! {

/// An open container encoder writing to memory.
#[verifier::external_body]
pub struct GifEncoderHandle {
    inner: gif::Encoder<Vec<u8>>,
}

/// Relies on gif's Encoder::new: starts a container with the given logical
/// screen size and global palette. Its only failure is a palette of more
/// than 256 color triples; every write goes through `Vec<u8>`'s Write
/// implementation, which std documents as infallible, so a palette within
/// the bound always succeeds.
#[verifier::external_body]
fn gif_encoder_new(width: u16, height: u16, palette: &[u8]) -> (r: Result<
    GifEncoderHandle,
    String,
>)
    ensures
        palette@.len() <= 768 ==> r is Ok,
{
    match gif::Encoder::new(Vec::new(), width, height, palette) {
        Ok(inner) => Ok(GifEncoderHandle { inner }),
        Err(e) => Err(format!("{}", e)),
    }
}

/// Relies on gif's Encoder::set_repeat: writes the repetition extension
/// (or nothing at all for zero finite repetitions). The handle always holds
/// a live encoder, and its `Vec<u8>` writer is infallible, so this cannot
/// fail.
#[verifier::external_body]
fn gif_encoder_set_repeat(enc: &mut GifEncoderHandle, repeat: &RepeatSpec) -> (r: Result<
    (),
    String,
>)
    ensures
        r is Ok,
{
    let value = match repeat {
        RepeatSpec::Finite(n) => gif::Repeat::Finite(*n),
        RepeatSpec::Infinite => gif::Repeat::Infinite,
    };
    enc.inner.set_repeat(value).map_err(|e| format!("{}", e))
}

/// Relies on gif's Frame::from_palette_pixels and Encoder::write_frame: the
/// frame is built from already-indexed pixels and written with the given
/// delay in the container's 10 ms units. The constructor panics unless the
/// pixel count matches the size exactly and the palette fits, so those are
/// required here. No success is promised: the encoder reserves a
/// compression buffer and reports allocation failure as an error.
#[verifier::external_body]
fn gif_encoder_write_frame(
    enc: &mut GifEncoderHandle,
    width: u16,
    height: u16,
    indexed: &Vec<u8>,
    palette: &Vec<u8>,
    delay_units: u16,
) -> (r: Result<(), String>)
    requires
        indexed@.len() == width as int * height as int,
        palette@.len() <= 768,
    ensures
        true,
{
    let mut frame = gif::Frame::from_palette_pixels(
        width,
        height,
        indexed.as_slice(),
        palette.as_slice(),
        None,
    );
    frame.delay = delay_units;
    enc.inner.write_frame(&frame).map_err(|e| format!("{}", e))
}

/// Relies on gif's Encoder::into_inner: finishes the container and hands
/// back the written bytes. The handle always holds a live encoder, and the
/// trailer write into its `Vec<u8>` writer is infallible, so this cannot
/// fail.
#[verifier::external_body]
fn gif_encoder_finish(enc: GifEncoderHandle) -> (r: Result<Vec<u8>, String>)
    ensures
        r is Ok,
{
    enc.inner.into_inner().map_err(|e| format!("{}", e))
}

/// A frame delay in milliseconds converted to the container's 10 ms units,
/// floored to at least one unit so no frame has zero duration.
pub open spec fn spec_delay_units(ms: int) -> int {
    if ms / 10 < 1 {
        1
    } else {
        ms / 10
    }
}

/// Converts a millisecond delay to container units, at least one.
pub fn delay_to_units(ms: u16) -> (u: u16)
    ensures
        u == spec_delay_units(ms as int),
        u >= 1,
{
    let v = ms / 10;
    if v < 1 {
        1
    } else {
        v
    }
}

/// The delay, in milliseconds, used for frame `i` of an encoding run: the
/// frame's own entry, else the first entry, else the fixed default.
pub open spec fn spec_encoding_delay(delays: Seq<u16>, i: int) -> int {
    if 0 <= i < delays.len() {
        delays[i] as int
    } else if delays.len() > 0 {
        delays[0] as int
    } else {
        crate::decoder::DEFAULT_FRAME_DELAY_MS as int
    }
}

/// Picks the delay for frame `i` from the delay list.
pub fn encoding_delay(delays: &Vec<u16>, i: usize) -> (d: u16)
    ensures
        d == spec_encoding_delay(delays@, i as int),
{
    if i < delays.len() {
        delays[i]
    } else if delays.len() > 0 {
        delays[0]
    } else {
        crate::decoder::DEFAULT_FRAME_DELAY_MS
    }
}

/// The canvas plan and paint operations for one whole encoding run.
pub struct GifRenderPlan {
    pub width: u16,
    pub height: u16,
    pub frame_ops: Vec<Vec<PaintOp>>,
}

/// The canvas size a plan will pick: the explicit target if given, else
/// the size derived from the measured grid.
pub open spec fn spec_plan_canvas(
    ascii_frames: Seq<Vec<String>>,
    o: AsciiGifOutputOptions,
    target_dimensions: Option<(u32, u32)>,
) -> (int, int) {
    match target_dimensions {
        Some(t) => (t.0 as int, t.1 as int),
        None => {
            let rd = RenderDimensions {
                width: spec_clamp_count(spec_frames_max_len(ascii_frames, ascii_frames.len() as int)),
                height: spec_clamp_count(
                    spec_frames_max_lines(ascii_frames, ascii_frames.len() as int),
                ),
                max_line_length: arbitrary(),
                max_lines: arbitrary(),
            };
            spec_derived_canvas(rd, o)
        },
    }
}

/// Everything a plan demands of its inputs: valid options, at least one
/// frame and one delay, a grid with content, a nonzero explicit target, and
/// a canvas that fits the container's 16-bit frame size.
pub open spec fn spec_plan_accepted(
    ascii_frames: Seq<Vec<String>>,
    frame_delays: Seq<u16>,
    o: AsciiGifOutputOptions,
    target_dimensions: Option<(u32, u32)>,
) -> bool {
    &&& o.valid()
    &&& ascii_frames.len() > 0
    &&& frame_delays.len() > 0
    &&& spec_frames_max_len(ascii_frames, ascii_frames.len() as int) > 0
    &&& spec_frames_max_lines(ascii_frames, ascii_frames.len() as int) > 0
    &&& (target_dimensions matches Some(t) ==> t.0 > 0 && t.1 > 0)
    &&& {
        let c = spec_plan_canvas(ascii_frames, o, target_dimensions);
        1 <= c.0 <= 65535 && 1 <= c.1 <= 65535
    }
}

/// Plans an encoding run: validates the options and inputs, measures the
/// grid, picks the canvas size, and lays every frame out as paint
/// operations. The canvas must fit the container's 16-bit frame size.
pub fn plan_gif_render(
    ascii_frames: &Vec<Vec<String>>,
    frame_delays: &Vec<u16>,
    options: &AsciiGifOutputOptions,
    target_dimensions: Option<(u32, u32)>,
) -> (r: Result<GifRenderPlan, MonochoraError>)
    ensures
        r is Ok <==> spec_plan_accepted(ascii_frames@, frame_delays@, *options, target_dimensions),
        r matches Ok(plan) ==> {
            &&& plan.width == spec_plan_canvas(ascii_frames@, *options, target_dimensions).0
            &&& plan.height == spec_plan_canvas(ascii_frames@, *options, target_dimensions).1
            &&& plan.width > 0
            &&& plan.height > 0
            &&& plan.frame_ops@.len() == ascii_frames@.len()
            &&& forall|i: int|
                0 <= i < ascii_frames@.len() ==> spec_ops_match(
                    (#[trigger] plan.frame_ops@[i])@,
                    spec_frame_ops(
                        ascii_frames@[i]@,
                        *options,
                        plan.height as int,
                        ascii_frames@[i]@.len() as int,
                    ),
                )
        },
{
    if let Err(e) = options.validate() {
        return Err(e);
    }
    if ascii_frames.len() == 0 {
        return Err(MonochoraError::Config("No ASCII frames to convert".to_owned()));
    }
    if frame_delays.len() == 0 {
        return Err(MonochoraError::Config("No frame delays provided".to_owned()));
    }
    let dims = match calculate_dimensions_from_ascii(ascii_frames) {
        Ok(d) => d,
        Err(e) => {
            return Err(e);
        },
    };
    if let Some((tw, th)) = target_dimensions {
        if tw == 0 || th == 0 {
            return Err(MonochoraError::InvalidDimensions { width: tw, height: th });
        }
    }
    let (width, height) = calculate_render_dimensions(&dims, options, target_dimensions);
    if width == 0 || height == 0 {
        return Err(MonochoraError::InvalidDimensions { width, height });
    }
    if width > 65535 || height > 65535 {
        return Err(MonochoraError::InvalidDimensions { width, height });
    }
    let mut frame_ops: Vec<Vec<PaintOp>> = Vec::new();
    let mut i: usize = 0;
    while i < ascii_frames.len()
        invariant
            i <= ascii_frames@.len(),
            options.valid(),
            height <= 65535,
            frame_ops@.len() == i as int,
            forall|q: int|
                0 <= q < i ==> spec_ops_match(
                    (#[trigger] frame_ops@[q])@,
                    spec_frame_ops(
                        ascii_frames@[q]@,
                        *options,
                        height as int,
                        ascii_frames@[q]@.len() as int,
                    ),
                ),
        decreases ascii_frames.len() - i,
    {
        let ops = layout_frame(&ascii_frames[i], options, height);
        frame_ops.push(ops);
        i = i + 1;
    }
    Ok(GifRenderPlan { width: width as u16, height: height as u16, frame_ops })
}

/// The error text for a painted buffer of the wrong size, naming the
/// offending frame index.
pub open spec fn spec_size_mismatch_message(i: int) -> Seq<char> {
    "Frame "@ + crate::display::spec_dec_u64(i) + " has incorrect data size"@
}

/// Quantizes painted frame buffers and writes them, in order, to container
/// bytes. Every buffer must hold exactly three bytes per canvas pixel; the
/// sizes are all checked before any container work, and the first mismatch
/// aborts the whole batch with an error naming that frame's index, so no
/// frame of a bad batch is ever written. On success every buffer had the
/// right size; success itself also needs the container encoder's frame
/// writes, whose compression buffers can fail to allocate, so it cannot be
/// promised outright.
pub fn encode_gif_frames(
    width: u16,
    height: u16,
    colored: bool,
    bg_color: Rgb,
    text_color: Rgb,
    frames_rgb: &Vec<Vec<u8>>,
    frame_delays: &Vec<u16>,
    loop_count: u16,
) -> (r: Result<Vec<u8>, MonochoraError>)
    ensures
        r is Ok ==> forall|i: int|
            0 <= i < frames_rgb@.len() ==> (#[trigger] frames_rgb@[i])@.len() == 3
                * width as int * height as int,
        forall|i: int|
            0 <= i < frames_rgb@.len() && (#[trigger] frames_rgb@[i])@.len() != 3 * width as int
                * height as int && (forall|q: int|
                0 <= q < i ==> (#[trigger] frames_rgb@[q])@.len() == 3 * width as int
                    * height as int) ==> (r matches Err(MonochoraError::GifDecode(m)) && m@
                == spec_size_mismatch_message(i)),
        r matches Err(e) ==> e matches MonochoraError::GifDecode(_),
{
    proof {
        assert(0 <= width as int * height as int <= 65535 * 65535 && 3 * (width as int
            * height as int) == 3 * width as int * height as int) by (nonlinear_arith)
            requires
                width <= 65535,
                height <= 65535,
        ;
    }
    let expected: u64 = 3u64 * (width as u64 * height as u64);
    let mut i: usize = 0;
    while i < frames_rgb.len()
        invariant
            i <= frames_rgb@.len(),
            expected == 3 * width as int * height as int,
            forall|q: int|
                0 <= q < i ==> (#[trigger] frames_rgb@[q])@.len() == 3 * width as int
                    * height as int,
        decreases frames_rgb.len() - i,
    {
        if frames_rgb[i].len() as u64 != expected {
            let mut text: Vec<char> = Vec::new();
            crate::display::push_str_chars(&mut text, "Frame ");
            crate::display::push_decimal_u64(&mut text, i as u64);
            crate::display::push_str_chars(&mut text, " has incorrect data size");
            let message = crate::strutil::chars_to_string(&text);
            proof {
                assert(message@ =~= spec_size_mismatch_message(i as int));
            }
            return Err(MonochoraError::GifDecode(message));
        }
        i = i + 1;
    }
    let palette: Vec<u8> = if colored {
        create_enhanced_color_palette(bg_color)
    } else {
        create_optimized_palette(bg_color, text_color)
    };
    let cache: HashMap<u32, u8> = create_color_cache(&palette);
    let mut enc = match gif_encoder_new(width, height, palette.as_slice()) {
        Ok(e) => e,
        Err(m) => {
            proof {
                assert(false);
            }
            return Err(MonochoraError::GifDecode(m));
        },
    };
    let repeat = if loop_count == 0 {
        RepeatSpec::Infinite
    } else {
        RepeatSpec::Finite(loop_count)
    };
    if let Err(m) = gif_encoder_set_repeat(&mut enc, &repeat) {
        proof {
            assert(false);
        }
        return Err(MonochoraError::GifDecode(m));
    }
    let mut k: usize = 0;
    while k < frames_rgb.len()
        invariant
            k <= frames_rgb@.len(),
            spec_cache_wf(cache@, palette@),
            palette@.len() == 768,
            expected == 3 * width as int * height as int,
            forall|q: int|
                0 <= q < frames_rgb@.len() ==> (#[trigger] frames_rgb@[q])@.len() == 3
                    * width as int * height as int,
        decreases frames_rgb.len() - k,
    {
        let frame = &frames_rgb[k];
        proof {
            assert(3 * (width as int * height as int) == 3 * width as int * height as int)
                by (nonlinear_arith);
            let wh = width as int * height as int;
            assert(frame@.len() == 3 * wh);
            assert((3 * wh) % 3 == 0 && (3 * wh) / 3 == wh) by (nonlinear_arith);
            assert(frame@.len() % 3 == 0 && frame@.len() / 3 == wh);
        }
        let indexed = match quantize_image(frame, &palette, &cache) {
            Ok(v) => v,
            Err(_) => {
                proof {
                    assert(false);
                }
                return Err(MonochoraError::GifDecode(String::new()));
            },
        };
        let delay_ms = encoding_delay(frame_delays, k);
        let units = delay_to_units(delay_ms);
        if let Err(m) = gif_encoder_write_frame(&mut enc, width, height, &indexed, &palette, units)
        {
            return Err(MonochoraError::GifDecode(m));
        }
        k = k + 1;
    }
    match gif_encoder_finish(enc) {
        Ok(bytes) => Ok(bytes),
        Err(m) => {
            proof {
                assert(false);
            }
            Err(MonochoraError::GifDecode(m))
        },
    }
}

} // verus!
