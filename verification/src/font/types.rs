//! What shaping produces.
use vstd::prelude::*;

pub use crate::units::Direction;

verus! {

/// One positioned glyph: its id in the font, its advances and offsets in
/// font units, and the byte offset in the text of the cluster it renders.
#[derive(Debug, Clone, Copy, PartialEq, Eq, Structural)]
pub struct ShapedGlyph {
    pub id: u32,
    pub x_advance: i32,
    pub y_advance: i32,
    pub x_offset: i32,
    pub y_offset: i32,
    pub cluster: u32,
}

/// A shaped piece of text: the text and its glyphs.
#[derive(Debug, Clone, PartialEq)]
pub struct ShapedRun {
    pub text: String,
    pub glyphs: Vec<ShapedGlyph>,
}

} // verus!
