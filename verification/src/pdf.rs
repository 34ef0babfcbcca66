//! The PDF side of the renderer that needs no floating point: glyph ids as
//! character codes, and the font tables built from shaped text.
pub mod encoding;
pub mod font;
pub mod table;
