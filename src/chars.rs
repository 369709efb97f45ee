use vstd::prelude::*;

verus! {

/// The full block.
pub const FULL: char = '\u{2588}';

/// The upper half block.
pub const TOP: char = '\u{2580}';

/// The lower half block.
pub const BOTTOM: char = '\u{2584}';

/// The left half block.
pub const LEFT: char = '\u{258c}';

/// The right half block.
pub const RIGHT: char = '\u{2590}';

/// A set of box-drawing characters: the straight lines and the four corners.
#[derive(Clone, Copy, Debug, PartialEq, Eq, Structural)]
pub struct Lines {
    pub vertical: char,
    pub horizontal: char,
    pub top_left: char,
    pub top_right: char,
    pub bottom_left: char,
    pub bottom_right: char,
}

impl Lines {
    /// Thin box-drawing lines.
    pub fn thin() -> (l: Lines)
        ensures
            l == (Lines {
                vertical: '\u{2502}',
                horizontal: '\u{2500}',
                top_left: '\u{250c}',
                top_right: '\u{2510}',
                bottom_left: '\u{2514}',
                bottom_right: '\u{2518}',
            }),
    {
        Lines {
            vertical: '\u{2502}',
            horizontal: '\u{2500}',
            top_left: '\u{250c}',
            top_right: '\u{2510}',
            bottom_left: '\u{2514}',
            bottom_right: '\u{2518}',
        }
    }

    /// Heavy box-drawing lines.
    pub fn heavy() -> (l: Lines)
        ensures
            l == (Lines {
                vertical: '\u{2503}',
                horizontal: '\u{2501}',
                top_left: '\u{250f}',
                top_right: '\u{2513}',
                bottom_left: '\u{2517}',
                bottom_right: '\u{251b}',
            }),
    {
        Lines {
            vertical: '\u{2503}',
            horizontal: '\u{2501}',
            top_left: '\u{250f}',
            top_right: '\u{2513}',
            bottom_left: '\u{2517}',
            bottom_right: '\u{251b}',
        }
    }
}

} // verus!
