//! The properties that a declaration can set.
use vstd::prelude::*;

verus! {

/// A CSS property that the renderer understands.
#[derive(Debug, Clone, Copy, PartialEq, Eq, Structural, Hash)]
pub enum Property {
    Display,
    Direction,
    FontFamily,
    FontSize,
    FontWeight,
    LineHeight,
    TextAlign,
    Color,
    BackgroundColor,
    Margin,
    Padding,
    Border,
    Width,
    JustifyContent,
}

} // verus!
