//! Shaping decisions of a text backend that has its lines shaped by CoreText.
//!
//! CoreText does the shaping; what stands around it is decided here: which font
//! a line asks for and with which cascade, the base direction of the line, which
//! part of the UTF-8 text each of CoreText's glyph runs covers, and what the
//! layout gets of each run.

pub mod direction;
pub mod families;
pub mod font;
pub mod laws;
pub mod runs;
pub mod shape;
pub mod text;
pub mod utf16;
