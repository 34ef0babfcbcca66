//! Writing direction; the length units themselves are floating point and
//! live with the layout code outside the verified library.
use vstd::prelude::*;

verus! {

/// The direction in which a line of text runs.
#[derive(Debug, Clone, Copy, PartialEq, Eq, Structural, Hash)]
pub enum Direction {
    RTL,
    LTR,
}

} // verus!
