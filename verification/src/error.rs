//! Error taxonomy for the conversion and playback pipeline.

use vstd::prelude::*;

verus! {

/// Everything that can go wrong while converting or playing back an
/// animation. Configuration problems are detected before any rendering
/// work starts; resource problems abort the current operation.
#[derive(Debug, Clone, PartialEq, Eq)]
pub enum MonochoraError {
    /// A source or target dimension was zero or out of range.
    InvalidDimensions { width: u32, height: u32 },
    /// Decoding or re-encoding the animation container failed.
    GifDecode(String),
    /// The font could not be loaded.
    FontLoad(String),
    /// The font cannot render these glyphs.
    UnsupportedFontCharacters { characters: String },
    /// The requested font size is zero or too large.
    InvalidFontSize { size: u32 },
    /// A terminal operation failed or the terminal is unusable.
    Terminal(String),
    /// A configuration value was rejected.
    Config(String),
    /// The source image is too large to process.
    InsufficientMemory,
    /// Animation playback or serialization failed.
    Animation(String),
}

} // verus!
