//! Renders animated raster images as character-cell art.
//!
//! The pipeline decodes an animation into RGBA frames, maps each frame to a
//! character grid (with optional per-cell color), and either re-encodes the
//! grids as a new indexed-color animation or plays them back responsively in
//! a terminal.
use vstd::prelude::*;
pub mod ansi;
pub mod brightness;
pub mod cli;
pub mod color;
pub mod config;
pub mod converter;
pub mod decoder;
pub mod display;
pub mod encoder;
pub mod error;
pub mod font;
pub mod painter;
pub mod palette;
pub mod planner;
pub mod ratio;
pub mod scheduler;
pub mod strutil;
pub mod web;
verus! {
/// A terminal's size in character cells; a new reading replaces the old one.
#[derive(Debug, Clone, Copy, PartialEq, Eq, Structural)]
pub struct TerminalDimensions {
    pub width: u32,
    pub height: u32,
}
impl TerminalDimensions {
    pub fn new(width: u32, height: u32) -> (r: Self)
        ensures
            r.width == width,
            r.height == height,
    {
        TerminalDimensions { width, height }
    }
}
} // verus!
