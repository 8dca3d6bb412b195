//! The responsive frame manager: a frame cache keyed by the current
//! terminal dimensions, cleared whenever the dimensions actually change and
//! lazily regenerated at the new size.

use vstd::prelude::*;
use crate::config::AsciiConverterConfig;
use crate::converter::{image_to_ascii, image_to_colored_ascii, spec_is_ascii_frame};
use crate::decoder::GifData;
use crate::error::MonochoraError;
use crate::TerminalDimensions;

verus! {

/// Cells reserved horizontally for borders when fitting the terminal.
pub const TERMINAL_MARGIN_W: u32 = 2;

/// Cells reserved vertically for borders and the prompt.
pub const TERMINAL_MARGIN_H: u32 = 4;

/// The conversion target width for a terminal size: the margin is reserved,
/// and a terminal too narrow leaves nothing.
pub open spec fn spec_fit_width(d: TerminalDimensions) -> u32 {
    if d.width >= TERMINAL_MARGIN_W {
        (d.width - TERMINAL_MARGIN_W) as u32
    } else {
        0u32
    }
}

/// The conversion target height for a terminal size.
pub open spec fn spec_fit_height(d: TerminalDimensions) -> u32 {
    if d.height >= TERMINAL_MARGIN_H {
        (d.height - TERMINAL_MARGIN_H) as u32
    } else {
        0u32
    }
}

/// The configuration a regeneration run uses: the template with its target
/// width and height overridden by the terminal-derived size.
pub open spec fn spec_responsive_config(
    tpl: AsciiConverterConfig,
    w: u32,
    h: u32,
) -> AsciiConverterConfig {
    AsciiConverterConfig { width: Some(w), height: Some(h), ..tpl }
}

/// Whether a regeneration run at the given dimensions can succeed: the
/// terminal leaves room after the margins, and every frame (if any) can be
/// converted, which needs a valid derived configuration and a nonempty
/// source canvas.
pub open spec fn spec_regen_accepted(
    gif_data: GifData,
    tpl: AsciiConverterConfig,
    d: TerminalDimensions,
) -> bool {
    &&& spec_fit_width(d) != 0
    &&& spec_fit_height(d) != 0
    &&& (gif_data.frames@.len() > 0 ==> spec_responsive_config(
        tpl,
        spec_fit_width(d),
        spec_fit_height(d),
    ).valid() && gif_data.width > 0 && gif_data.height > 0)
}

/// Two frame grids with the same shape and the same text everywhere.
pub open spec fn spec_frames_like(a: Seq<Vec<String>>, b: Seq<Vec<String>>) -> bool {
    &&& a.len() == b.len()
    &&& forall|i: int|
        0 <= i < a.len() ==> {
            &&& (#[trigger] a[i])@.len() == b[i]@.len()
            &&& forall|j: int| 0 <= j < a[i]@.len() ==> (#[trigger] a[i]@[j])@ == b[i]@[j]@
        }
}

/// Owns the decoded animation, a conversion-configuration template, the
/// playback delays, the latest terminal dimensions, and the frame cache for
/// exactly those dimensions.
pub struct ResponsiveFrameManager {
    pub gif_data: GifData,
    pub config_template: AsciiConverterConfig,
    pub frame_delays: Vec<u16>,
    pub current_dimensions: TerminalDimensions,
    pub cached_frames: Option<Vec<Vec<String>>>,
    pub colored: bool,
}

impl ResponsiveFrameManager {
    /// The cache, when present, holds one converted grid per frame at the
    /// current dimensions.
    pub open spec fn cache_ok(self) -> bool {
        match self.cached_frames {
            Some(fs) => {
                &&& fs@.len() == self.gif_data.frames@.len()
                &&& forall|i: int|
                    0 <= i < fs@.len() ==> spec_is_ascii_frame(
                        (#[trigger] fs@[i])@,
                        self.gif_data.frames@[i].image,
                        spec_responsive_config(
                            self.config_template,
                            spec_fit_width(self.current_dimensions),
                            spec_fit_height(self.current_dimensions),
                        ),
                        self.colored,
                    )
            },
            None => true,
        }
    }

    /// Starts with an empty cache at the initial dimensions.
    pub fn new(
        gif_data: GifData,
        config_template: AsciiConverterConfig,
        frame_delays: Vec<u16>,
        initial_dimensions: TerminalDimensions,
        colored: bool,
    ) -> (m: ResponsiveFrameManager)
        ensures
            m.gif_data == gif_data,
            m.config_template == config_template,
            m.frame_delays == frame_delays,
            m.current_dimensions == initial_dimensions,
            m.cached_frames is None,
            m.colored == colored,
            m.cache_ok(),
    {
        ResponsiveFrameManager {
            gif_data,
            config_template,
            frame_delays,
            current_dimensions: initial_dimensions,
            cached_frames: None,
            colored,
        }
    }

    /// Applies a new terminal reading: identical dimensions are a no-op that
    /// keeps the cache, different ones replace the current dimensions and
    /// clear the cache. Returns whether regeneration is needed.
    pub fn update_dimensions(&mut self, new_dimensions: TerminalDimensions) -> (changed: bool)
        ensures
            changed == (new_dimensions != old(self).current_dimensions),
            !changed ==> *final(self) == *old(self),
            changed ==> *final(self) == (ResponsiveFrameManager {
                current_dimensions: new_dimensions,
                cached_frames: None,
                ..*old(self)
            }),
    {
        if new_dimensions.width != self.current_dimensions.width || new_dimensions.height
            != self.current_dimensions.height {
            self.current_dimensions = new_dimensions;
            self.cached_frames = None;
            true
        } else {
            proof {
                assert(new_dimensions == old(self).current_dimensions);
            }
            false
        }
    }

    /// Returns a copy of the playback delays.
    pub fn get_frame_delays(&self) -> (r: &Vec<u16>)
        ensures
            r == &self.frame_delays,
    {
        &self.frame_delays
    }

    /// Rebuilds the frame cache at the current dimensions: the margins are
    /// reserved, a terminal too small is a fatal error, and every source
    /// frame is converted at the derived size. On failure the cache is left
    /// as it was.
    pub fn regenerate_frames(&mut self) -> (r: Result<(), MonochoraError>)
        requires
            old(self).gif_data.wf(),
        ensures
            final(self).gif_data == old(self).gif_data,
            final(self).config_template == old(self).config_template,
            final(self).frame_delays == old(self).frame_delays,
            final(self).current_dimensions == old(self).current_dimensions,
            final(self).colored == old(self).colored,
            r is Ok <==> spec_regen_accepted(
                old(self).gif_data,
                old(self).config_template,
                old(self).current_dimensions,
            ),
            r is Ok ==> final(self).cached_frames is Some && final(self).cache_ok(),
            r is Err ==> final(self).cached_frames == old(self).cached_frames,
            spec_fit_width(old(self).current_dimensions) == 0 || spec_fit_height(
                old(self).current_dimensions,
            ) == 0 ==> (r matches Err(MonochoraError::Terminal(m)) && m@
                == "Terminal too small for display"@),
    {
        let target_width = if self.current_dimensions.width >= TERMINAL_MARGIN_W {
            self.current_dimensions.width - TERMINAL_MARGIN_W
        } else {
            0
        };
        let target_height = if self.current_dimensions.height >= TERMINAL_MARGIN_H {
            self.current_dimensions.height - TERMINAL_MARGIN_H
        } else {
            0
        };
        proof {
            assert(target_width == spec_fit_width(old(self).current_dimensions));
            assert(target_height == spec_fit_height(old(self).current_dimensions));
        }
        if target_width == 0 || target_height == 0 {
            return Err(MonochoraError::Terminal("Terminal too small for display".to_owned()));
        }
        let mut config = clone_config(&self.config_template);
        config.width = Some(target_width);
        config.height = Some(target_height);
        let ghost rc = spec_responsive_config(self.config_template, target_width, target_height);
        proof {
            assert(config.spec_charset() == rc.spec_charset());
            assert(config.valid() == rc.valid());
        }
        let mut new_frames: Vec<Vec<String>> = Vec::new();
        let mut i: usize = 0;
        while i < self.gif_data.frames.len()
            invariant
                old(self).gif_data.wf(),
                self.gif_data == old(self).gif_data,
                self.config_template == old(self).config_template,
                self.frame_delays == old(self).frame_delays,
                self.current_dimensions == old(self).current_dimensions,
                self.cached_frames == old(self).cached_frames,
                self.colored == old(self).colored,
                i <= self.gif_data.frames@.len(),
                target_width == spec_fit_width(old(self).current_dimensions),
                target_height == spec_fit_height(old(self).current_dimensions),
                spec_fit_width(old(self).current_dimensions) != 0,
                spec_fit_height(old(self).current_dimensions) != 0,
                rc == spec_responsive_config(
                    self.config_template,
                    target_width,
                    target_height,
                ),
                config.width == rc.width,
                config.height == rc.height,
                config.char_aspect == rc.char_aspect,
                config.invert == rc.invert,
                config.detailed == rc.detailed,
                config.preserve_aspect_ratio == rc.preserve_aspect_ratio,
                config.scale_factor == rc.scale_factor,
                config.spec_charset() == rc.spec_charset(),
                config.valid() == rc.valid(),
                i > 0 ==> rc.valid() && self.gif_data.width > 0 && self.gif_data.height > 0,
                new_frames@.len() == i as int,
                forall|q: int|
                    0 <= q < i ==> spec_is_ascii_frame(
                        (#[trigger] new_frames@[q])@,
                        self.gif_data.frames@[q].image,
                        rc,
                        self.colored,
                    ),
            decreases self.gif_data.frames.len() - i,
        {
            let frame_image = &self.gif_data.frames[i].image;
            let converted = if self.colored {
                image_to_colored_ascii(frame_image, &config)
            } else {
                image_to_ascii(frame_image, &config)
            };
            match converted {
                Ok(lines) => {
                    proof {
                        lemma_same_projection_same_plan(
                            frame_image.width,
                            frame_image.height,
                            config,
                            rc,
                        );
                    }
                    new_frames.push(lines);
                },
                Err(e) => {
                    proof {
                        let img = self.gif_data.frames@[i as int].image;
                        assert(self.gif_data.wf());
                        assert(img.width == self.gif_data.width && img.height
                            == self.gif_data.height);
                        assert(old(self).gif_data.frames@.len() > 0);
                        if config.valid() {
                            assert(crate::planner::spec_target_dimensions(
                                img.width,
                                img.height,
                                config,
                            ) is Err);
                            assert(img.width == 0 || img.height == 0);
                        }
                        assert(!spec_regen_accepted(
                            old(self).gif_data,
                            old(self).config_template,
                            old(self).current_dimensions,
                        ));
                    }
                    return Err(e);
                },
            }
            i = i + 1;
        }
        self.cached_frames = Some(new_frames);
        Ok(())
    }

    /// Returns the frames for the current dimensions, regenerating them only
    /// when the cache is empty.
    pub fn get_frames(&mut self) -> (r: Result<Vec<Vec<String>>, MonochoraError>)
        requires
            old(self).gif_data.wf(),
            old(self).cache_ok(),
        ensures
            final(self).gif_data == old(self).gif_data,
            final(self).config_template == old(self).config_template,
            final(self).frame_delays == old(self).frame_delays,
            final(self).current_dimensions == old(self).current_dimensions,
            final(self).colored == old(self).colored,
            final(self).cache_ok(),
            old(self).cached_frames is Some ==> *final(self) == *old(self),
            r is Ok <==> (old(self).cached_frames is Some || spec_regen_accepted(
                old(self).gif_data,
                old(self).config_template,
                old(self).current_dimensions,
            )),
            r is Err ==> final(self).cached_frames == old(self).cached_frames,
            old(self).cached_frames is None && (spec_fit_width(old(self).current_dimensions) == 0
                || spec_fit_height(old(self).current_dimensions) == 0) ==> (r matches Err(
                MonochoraError::Terminal(m),
            ) && m@ == "Terminal too small for display"@),
            r matches Ok(fs) ==> final(self).cached_frames matches Some(cached)
                && spec_frames_like(fs@, cached@),
    {
        if self.cached_frames.is_none() {
            if let Err(e) = self.regenerate_frames() {
                return Err(e);
            }
        }
        match &self.cached_frames {
            Some(frames) => Ok(clone_frames(frames)),
            None => Err(MonochoraError::Terminal("Terminal too small for display".to_owned())),
        }
    }
}

/// Two planner runs agree when every field the planner reads agrees.
proof fn lemma_same_projection_same_plan(
    w: u32,
    h: u32,
    a: AsciiConverterConfig,
    b: AsciiConverterConfig,
)
    requires
        a.width == b.width,
        a.height == b.height,
        a.char_aspect == b.char_aspect,
        a.preserve_aspect_ratio == b.preserve_aspect_ratio,
        a.scale_factor == b.scale_factor,
    ensures
        crate::planner::spec_target_dimensions(w, h, a) == crate::planner::spec_target_dimensions(
            w,
            h,
            b,
        ),
{
}

/// Copies a character vector.
fn clone_chars(v: &Vec<char>) -> (r: Vec<char>)
    ensures
        r@ == v@,
{
    let mut out: Vec<char> = Vec::new();
    let mut i: usize = 0;
    while i < v.len()
        invariant
            i <= v@.len(),
            out@ == v@.subrange(0, i as int),
        decreases v.len() - i,
    {
        out.push(v[i]);
        proof {
            assert(out@ =~= v@.subrange(0, i + 1));
        }
        i = i + 1;
    }
    proof {
        assert(out@ =~= v@);
    }
    out
}

/// Copies a conversion configuration.
fn clone_config(c: &AsciiConverterConfig) -> (r: AsciiConverterConfig)
    ensures
        r.width == c.width,
        r.height == c.height,
        r.char_aspect == c.char_aspect,
        r.invert == c.invert,
        r.detailed == c.detailed,
        r.preserve_aspect_ratio == c.preserve_aspect_ratio,
        r.scale_factor == c.scale_factor,
        r.spec_charset() == c.spec_charset(),
        r.valid() == c.valid(),
        r.custom_charset is Some <==> c.custom_charset is Some,
        r.custom_charset matches Some(cs) ==> c.custom_charset matches Some(cs2) && cs@ == cs2@,
{
    let custom_charset = match &c.custom_charset {
        Some(cs) => Some(clone_chars(cs)),
        None => None,
    };
    AsciiConverterConfig {
        width: c.width,
        height: c.height,
        char_aspect: c.char_aspect,
        invert: c.invert,
        detailed: c.detailed,
        preserve_aspect_ratio: c.preserve_aspect_ratio,
        scale_factor: c.scale_factor,
        custom_charset,
    }
}

/// Copies one frame's lines.
fn clone_frame(f: &Vec<String>) -> (r: Vec<String>)
    ensures
        r@.len() == f@.len(),
        forall|j: int| 0 <= j < f@.len() ==> (#[trigger] r@[j])@ == f@[j]@,
{
    let mut out: Vec<String> = Vec::new();
    let mut j: usize = 0;
    while j < f.len()
        invariant
            j <= f@.len(),
            out@.len() == j as int,
            forall|q: int| 0 <= q < j ==> (#[trigger] out@[q])@ == f@[q]@,
        decreases f.len() - j,
    {
        out.push(f[j].clone());
        j = j + 1;
    }
    out
}

/// Copies a whole frame grid.
fn clone_frames(fs: &Vec<Vec<String>>) -> (r: Vec<Vec<String>>)
    ensures
        spec_frames_like(r@, fs@),
{
    let mut out: Vec<Vec<String>> = Vec::new();
    let mut i: usize = 0;
    while i < fs.len()
        invariant
            i <= fs@.len(),
            out@.len() == i as int,
            forall|q: int|
                0 <= q < i ==> (#[trigger] out@[q])@.len() == fs@[q]@.len() && (forall|j: int|
                    0 <= j < fs@[q]@.len() ==> (#[trigger] out@[q]@[j])@ == fs@[q]@[j]@),
        decreases fs.len() - i,
    {
        out.push(clone_frame(&fs[i]));
        i = i + 1;
    }
    out
}

} // verus!
