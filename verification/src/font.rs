//! Fonts and text shaping: the font registry, the bidirectional run split
//! and the glyph stream that shaping produces.
pub mod glyph;
pub mod loader;
pub mod shaper;
pub mod types;
