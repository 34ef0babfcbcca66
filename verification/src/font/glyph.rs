//! Shaping a whole text in one direction, without bidirectional runs.
use vstd::prelude::*;

use crate::error::AppError;
use crate::font::loader::{rustybuzz_units_per_em, Font};
use crate::font::shaper::{rustybuzz_shape, shape_text};
use crate::font::types::{Direction, ShapedGlyph};

verus! {

impl ShapedGlyph {
    /// Shapes all of `text` in `direction`: the glyphs that rustybuzz gives,
    /// with clusters as byte offsets into `text`, or a font error where the
    /// font's data does not parse.
    pub fn get_shaped_glyphs(font: &Font, text: &str, direction: Direction) -> (r: Result<Vec<ShapedGlyph>, AppError>)
        ensures
            rustybuzz_units_per_em(font.data@) is None ==> (r matches Err(e) && e == AppError::FontError(e->FontError_0) && e->FontError_0@ == "Invalid font"@),
            rustybuzz_units_per_em(font.data@) is Some ==> (r matches Ok(g) && rustybuzz_shape(font.data@, text@, direction == Direction::RTL) == Some(g@)),
    {
        let rtl = match direction {
            Direction::RTL => true,
            Direction::LTR => false,
        };
        match shape_text(font.data.as_slice(), text, rtl) {
            Some(glyphs) => Ok(glyphs),
            None => Err(AppError::FontError(String::from_str("Invalid font"))),
        }
    }
}

} // verus!
