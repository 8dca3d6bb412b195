//! Playback logic: the cooperative display loop's state machine, per-frame
//! delay resolution, input validation, and the plain-text dump of a frame
//! sequence.
//!
//! The loop itself multiplexes timers, resize notifications and key input
//! outside this crate; every decision it takes comes from
//! `PlaybackController::step`.

use vstd::prelude::*;
use crate::ansi::spec_digit_char;
use crate::error::MonochoraError;

verus! {

/// The fallback display delay in milliseconds.
pub const DISPLAY_DEFAULT_DELAY_MS: u16 = 100;

/// Where the playback loop stands.
#[derive(Debug, Clone, Copy, PartialEq, Eq, Structural)]
pub enum PlaybackState {
    Playing,
    Paused,
    Exiting,
}

/// One input to the playback loop: a frame-advance timer tick, a terminal
/// resize, or a classified key press.
#[derive(Debug, Clone, Copy, PartialEq, Eq, Structural)]
pub enum PlaybackEvent {
    Tick,
    Resized,
    KeyQuit,
    KeyPause,
    KeyOther,
}

/// What the loop must do next: paint a frame, regenerate the frame cache,
/// do nothing this round, or restore the terminal and stop.
#[derive(Debug, Clone, Copy, PartialEq, Eq, Structural)]
pub enum PlaybackAction {
    DrawFrame(usize),
    Regenerate,
    Wait,
    Exit,
}

/// The playback loop's whole state: frame position, loop-iteration budget
/// and mode. A loop count of zero runs forever.
#[derive(Debug, Clone, Copy, PartialEq, Eq, Structural)]
pub struct PlaybackController {
    pub total_frames: usize,
    pub loop_count: u16,
    pub current_frame: usize,
    pub current_iteration: u64,
    pub state: PlaybackState,
}

impl PlaybackController {
    /// The frame cursor always points at a real frame.
    pub open spec fn wf(self) -> bool {
        self.total_frames > 0 && self.current_frame < self.total_frames
    }

    /// Starts playing from the first frame of the first iteration.
    pub fn new(total_frames: usize, loop_count: u16) -> (c: PlaybackController)
        requires
            total_frames > 0,
        ensures
            c.wf(),
            c == (PlaybackController {
                total_frames,
                loop_count,
                current_frame: 0,
                current_iteration: 0,
                state: PlaybackState::Playing,
            }),
    {
        PlaybackController {
            total_frames,
            loop_count,
            current_frame: 0,
            current_iteration: 0,
            state: PlaybackState::Playing,
        }
    }

    /// Whether iteration `next` would exceed a finite loop budget.
    pub open spec fn spec_budget_done(self, next: int) -> bool {
        self.loop_count != 0 && next >= self.loop_count as int
    }

    /// Feeds one event to the loop and says what to do next.
    ///
    /// While playing: a tick paints the current frame and advances, wrapping
    /// into the next iteration and exiting once a finite budget is spent; a
    /// resize asks for regeneration and restarts the current iteration from
    /// frame 0; the quit key exits; the pause key pauses. While paused: any
    /// key resumes, ticks paint nothing, and a resize still asks for
    /// regeneration from frame 0. Once exiting, every event exits.
    pub fn step(&mut self, event: PlaybackEvent) -> (action: PlaybackAction)
        requires
            old(self).wf(),
        ensures
            final(self).wf(),
            final(self).total_frames == old(self).total_frames,
            final(self).loop_count == old(self).loop_count,
            old(self).state == PlaybackState::Exiting ==> *final(self) == *old(self) && action
                == PlaybackAction::Exit,
            old(self).state == PlaybackState::Playing ==> match event {
                PlaybackEvent::Tick => {
                    &&& action == PlaybackAction::DrawFrame(old(self).current_frame)
                    &&& if old(self).current_frame + 1 < old(self).total_frames {
                        *final(self) == (PlaybackController {
                            current_frame: (old(self).current_frame + 1) as usize,
                            ..*old(self)
                        })
                    } else {
                        let next = if old(self).current_iteration == u64::MAX {
                            u64::MAX as int
                        } else {
                            old(self).current_iteration + 1
                        };
                        final(self).current_frame == 0 && final(self).current_iteration == next
                            && final(self).state == (if old(self).spec_budget_done(next) {
                            PlaybackState::Exiting
                        } else {
                            PlaybackState::Playing
                        })
                    }
                },
                PlaybackEvent::Resized => action == PlaybackAction::Regenerate && *final(self) == (
                PlaybackController { current_frame: 0usize, ..*old(self) }),
                PlaybackEvent::KeyQuit => action == PlaybackAction::Exit && *final(self) == (
                PlaybackController { state: PlaybackState::Exiting, ..*old(self) }),
                PlaybackEvent::KeyPause => action == PlaybackAction::Wait && *final(self) == (
                PlaybackController { state: PlaybackState::Paused, ..*old(self) }),
                PlaybackEvent::KeyOther => action == PlaybackAction::Wait && *final(self) == *old(self),
            },
            old(self).state == PlaybackState::Paused ==> match event {
                PlaybackEvent::Tick => action == PlaybackAction::Wait && *final(self) == *old(self),
                PlaybackEvent::Resized => action == PlaybackAction::Regenerate && *final(self) == (
                PlaybackController { current_frame: 0usize, ..*old(self) }),
                _ => action == PlaybackAction::Wait && *final(self) == (PlaybackController {
                    state: PlaybackState::Playing,
                    ..*old(self)
                }),
            },
    {
        match self.state {
            PlaybackState::Exiting => PlaybackAction::Exit,
            PlaybackState::Playing => {
                match event {
                    PlaybackEvent::Tick => {
                        let frame = self.current_frame;
                        if self.current_frame + 1 < self.total_frames {
                            self.current_frame = self.current_frame + 1;
                        } else {
                            self.current_frame = 0;
                            if self.current_iteration < u64::MAX {
                                self.current_iteration = self.current_iteration + 1;
                            }
                            if self.loop_count != 0 && self.current_iteration
                                >= self.loop_count as u64 {
                                self.state = PlaybackState::Exiting;
                            }
                        }
                        PlaybackAction::DrawFrame(frame)
                    },
                    PlaybackEvent::Resized => {
                        self.current_frame = 0;
                        PlaybackAction::Regenerate
                    },
                    PlaybackEvent::KeyQuit => {
                        self.state = PlaybackState::Exiting;
                        PlaybackAction::Exit
                    },
                    PlaybackEvent::KeyPause => {
                        self.state = PlaybackState::Paused;
                        PlaybackAction::Wait
                    },
                    PlaybackEvent::KeyOther => PlaybackAction::Wait,
                }
            },
            PlaybackState::Paused => {
                match event {
                    PlaybackEvent::Tick => PlaybackAction::Wait,
                    PlaybackEvent::Resized => {
                        self.current_frame = 0;
                        PlaybackAction::Regenerate
                    },
                    _ => {
                        self.state = PlaybackState::Playing;
                        PlaybackAction::Wait
                    },
                }
            },
        }
    }
}

/// The delay shown for frame `i`: the frame's own entry, else the first
/// entry, else the fixed default; a zero entry also falls back to the
/// default.
pub open spec fn spec_display_delay(delays: Seq<u16>, i: int) -> int {
    let raw = if 0 <= i < delays.len() {
        delays[i] as int
    } else if delays.len() > 0 {
        delays[0] as int
    } else {
        DISPLAY_DEFAULT_DELAY_MS as int
    };
    if raw == 0 {
        DISPLAY_DEFAULT_DELAY_MS as int
    } else {
        raw
    }
}

/// Resolves the display delay for frame `i`.
pub fn resolve_frame_delay(delays: &Vec<u16>, i: usize) -> (d: u16)
    ensures
        d == spec_display_delay(delays@, i as int),
        d >= 1,
{
    let raw = if i < delays.len() {
        delays[i]
    } else if delays.len() > 0 {
        delays[0]
    } else {
        DISPLAY_DEFAULT_DELAY_MS
    };
    if raw == 0 {
        DISPLAY_DEFAULT_DELAY_MS
    } else {
        raw
    }
}

/// An empty delay list falls back to the fixed default for every frame.
pub proof fn lemma_empty_delays_use_default(delays: Seq<u16>, i: int)
    requires
        delays.len() == 0,
    ensures
        spec_display_delay(delays, i) == DISPLAY_DEFAULT_DELAY_MS as int,
{
}

/// Rejects an animation with no frames before playback starts. An empty
/// delay list is accepted: playback falls back to the fixed default delay
/// for every frame.
pub fn validate_animation_input(frames: &Vec<Vec<String>>, frame_delays: &Vec<u16>) -> (r: Result<
    (),
    MonochoraError,
>)
    ensures
        r is Ok <==> frames@.len() > 0,
        frames@.len() == 0 ==> (r matches Err(MonochoraError::Animation(m)) && m@
            == "No frames provided for animation"@),
{
    let _ = frame_delays;
    if frames.len() == 0 {
        return Err(MonochoraError::Animation("No frames provided for animation".to_owned()));
    }
    Ok(())
}

/// The decimal rendering of a non-negative number, most significant digit
/// first.
pub open spec fn spec_dec_u64(n: int) -> Seq<char>
    decreases n,
{
    if n < 10 {
        seq![spec_digit_char(n)]
    } else {
        spec_dec_u64(n / 10).push(spec_digit_char(n % 10))
    }
}

/// Appends the decimal rendering of a number.
pub fn push_decimal_u64(out: &mut Vec<char>, n: u64)
    ensures
        final(out)@ == old(out)@ + spec_dec_u64(n as int),
    decreases n,
{
    if n < 10 {
        out.push(crate::ansi::digit_char(n as u8));
        proof {
            assert(out@ =~= old(out)@ + spec_dec_u64(n as int));
        }
    } else {
        proof {
            vstd::arithmetic::div_mod::lemma_div_is_ordered(n as int / 10, n as int, 10int);
            assert(n as int / 10 < n as int) by (nonlinear_arith)
                requires
                    n >= 10,
            ;
        }
        push_decimal_u64(out, n / 10);
        out.push(crate::ansi::digit_char((n % 10) as u8));
        proof {
            assert(out@ =~= old(out)@ + spec_dec_u64(n as int));
        }
    }
}

/// The banner line between frames in a text dump: eighty equals signs.
pub open spec fn spec_separator() -> Seq<char> {
    Seq::new(80, |i: int| '=')
}

/// The text-dump block for one frame (frame numbers start at one): the
/// banner, a title line, the banner again, the frame's lines, and a blank
/// line.
pub open spec fn spec_frame_block(lines: Seq<String>, number: int) -> Seq<char> {
    spec_separator() + seq!['\n'] + "Frame "@ + spec_dec_u64(number) + seq!['\n']
        + spec_separator() + seq!['\n'] + spec_frame_lines(lines, lines.len() as int) + seq!['\n']
}

/// The first `k` lines of a frame, each ended by a newline.
pub open spec fn spec_frame_lines(lines: Seq<String>, k: int) -> Seq<char>
    decreases k,
{
    if k <= 0 {
        Seq::empty()
    } else {
        spec_frame_lines(lines, k - 1) + lines[k - 1]@ + seq!['\n']
    }
}

/// The whole text dump of the first `k` frames.
pub open spec fn spec_frames_dump(frames: Seq<Vec<String>>, k: int) -> Seq<char>
    decreases k,
{
    if k <= 0 {
        Seq::empty()
    } else {
        spec_frames_dump(frames, k - 1) + spec_frame_block(frames[k - 1]@, k)
    }
}

/// Builds the separator characters.
fn push_separator(out: &mut Vec<char>)
    ensures
        final(out)@ == old(out)@ + spec_separator(),
{
    let mut i: usize = 0;
    while i < 80
        invariant
            i <= 80,
            out@.len() == old(out)@.len() + i,
            forall|q: int| 0 <= q < out@.len() ==> out@[q] == (if q < old(out)@.len() {
                old(out)@[q]
            } else {
                '='
            }),
        decreases 80 - i,
    {
        out.push('=');
        i = i + 1;
    }
    proof {
        assert(out@ =~= old(out)@ + spec_separator());
    }
}

/// Formats a frame sequence as one plain-text dump: every frame as glyph
/// lines under a numbered banner. An empty sequence is rejected.
pub fn format_frames_for_file(frames: &Vec<Vec<String>>) -> (r: Result<String, MonochoraError>)
    requires
        frames@.len() < 0x1_0000_0000,
    ensures
        r is Ok <==> frames@.len() > 0,
        r matches Ok(text) ==> text@ == spec_frames_dump(frames@, frames@.len() as int),
        r matches Err(e) ==> (e matches MonochoraError::Animation(m) && m@
            == "No frames to save"@),
{
    if frames.len() == 0 {
        return Err(MonochoraError::Animation("No frames to save".to_owned()));
    }
    let mut out: Vec<char> = Vec::new();
    let mut i: usize = 0;
    while i < frames.len()
        invariant
            i <= frames@.len() < 0x1_0000_0000,
            out@ == spec_frames_dump(frames@, i as int),
        decreases frames.len() - i,
    {
        let ghost block_start = out@;
        push_separator(&mut out);
        out.push('\n');
        push_str_chars(&mut out, "Frame ");
        push_decimal_u64(&mut out, (i as u64) + 1);
        out.push('\n');
        push_separator(&mut out);
        out.push('\n');
        let frame = &frames[i];
        let mut j: usize = 0;
        while j < frame.len()
            invariant
                j <= frame@.len(),
                i < frames@.len(),
                frame == &frames@[i as int],
                out@ == block_start + spec_separator() + seq!['\n'] + "Frame "@ + spec_dec_u64(
                    i + 1,
                ) + seq!['\n'] + spec_separator() + seq!['\n'] + spec_frame_lines(
                    frame@,
                    j as int,
                ),
            decreases frame.len() - j,
        {
            push_str_chars(&mut out, frame[j].as_str());
            out.push('\n');
            proof {
                assert(out@ =~= block_start + spec_separator() + seq!['\n'] + "Frame "@
                    + spec_dec_u64(i + 1) + seq!['\n'] + spec_separator() + seq!['\n']
                    + spec_frame_lines(frame@, j + 1));
            }
            j = j + 1;
        }
        out.push('\n');
        proof {
            assert(out@ =~= spec_frames_dump(frames@, i + 1));
        }
        i = i + 1;
    }
    Ok(crate::strutil::chars_to_string(&out))
}

/// Appends every character of a string slice.
pub fn push_str_chars(out: &mut Vec<char>, s: &str)
    ensures
        final(out)@ == old(out)@ + s@,
{
    let cs = crate::strutil::str_chars(s);
    let mut k: usize = 0;
    while k < cs.len()
        invariant
            k <= cs@.len(),
            cs@ == s@,
            out@ == old(out)@ + s@.subrange(0, k as int),
        decreases cs.len() - k,
    {
        out.push(cs[k]);
        proof {
            assert(out@ =~= old(out)@ + s@.subrange(0, k + 1));
        }
        k = k + 1;
    }
    proof {
        assert(out@ =~= old(out)@ + s@);
    }
}

} // verus!
