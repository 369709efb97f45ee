use vstd::prelude::*;

verus! {

/// The direction in which a measurement is taken.
#[derive(Clone, Copy, Debug, PartialEq, Eq, Structural)]
pub enum Orientation {
    Horizontal,
    Vertical,
}

/// Where content is kept along one axis when the terminal is resized.
#[derive(Clone, Copy, Debug, PartialEq, Eq, Structural)]
pub enum ResizeAxis {
    /// Either the top (vertical) or the left (horizontal).
    Start,
    /// Centered, rounding towards the start.
    CenterRoundDown,
    /// Centered, rounding towards the end.
    CenterRoundUp,
    /// Either the bottom (vertical) or the right (horizontal).
    End,
}

} // verus!
