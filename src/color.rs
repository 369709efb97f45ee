use vstd::prelude::*;

verus! {

/// The terminal color type, carried through the library without being inspected.
#[verifier::external_type_specification]
#[verifier::external_body]
pub struct ExColor(crossterm::style::Color);

/// The color `Rgb { r, g, b }` of the terminal color type.
pub uninterp spec fn rgb_color(rgb: (u8, u8, u8)) -> crossterm::style::Color;

/// Relies on the `crossterm::style::Color::Rgb` variant: builds the true color `(r, g, b)`.
#[verifier::external_body]
pub(crate) fn rgb(r: u8, g: u8, b: u8) -> (c: crossterm::style::Color)
    ensures
        c == rgb_color((r, g, b)),
{
    crossterm::style::Color::Rgb { r, g, b }
}

} // verus!
