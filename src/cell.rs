use vstd::prelude::*;
use crossterm::style::Color;

verus! {

/// The shapes a cell can show. Each one splits the character cell into a
/// "filled" part, drawn in the foreground color, and an "empty" part, drawn
/// in the background color.
#[derive(Clone, Copy, Debug, PartialEq, Eq, Structural)]
pub enum Glyph {
    /// Nothing filled: only the background shows.
    Space,
    /// Everything filled: only the foreground shows.
    Full,
    /// The left half filled.
    LeftHalf,
    /// The right half filled.
    RightHalf,
    /// The top half filled.
    TopHalf,
    /// The bottom half filled.
    BottomHalf,
}

impl Glyph {
    /// One of the four half-cell shapes.
    pub open spec fn is_half(self) -> bool {
        !(self is Space) && !(self is Full)
    }

    /// The two halves split the cell along the same line and fill opposite sides.
    pub open spec fn complements(self, other: Glyph) -> bool {
        (self is LeftHalf && other is RightHalf) || (self is RightHalf && other is LeftHalf)
            || (self is TopHalf && other is BottomHalf) || (self is BottomHalf
            && other is TopHalf)
    }

    /// The character that draws this shape.
    pub fn symbol(self) -> (c: char)
        ensures
            self is Space ==> c == ' ',
            self is Full ==> c == '\u{2588}',
            self is LeftHalf ==> c == '\u{258c}',
            self is RightHalf ==> c == '\u{2590}',
            self is TopHalf ==> c == '\u{2580}',
            self is BottomHalf ==> c == '\u{2584}',
    {
        match self {
            Glyph::Space => ' ',
            Glyph::Full => '\u{2588}',
            Glyph::LeftHalf => '\u{258c}',
            Glyph::RightHalf => '\u{2590}',
            Glyph::TopHalf => '\u{2580}',
            Glyph::BottomHalf => '\u{2584}',
        }
    }
}

/// One character position of the terminal: a shape with the colors of its
/// filled part (`fg`) and of its empty part (`bg`). An unset color lets the
/// layer below show through that part.
#[derive(Clone, Copy, Debug, PartialEq, Eq)]
pub struct Cell {
    pub glyph: Glyph,
    pub fg: Option<Color>,
    pub bg: Option<Color>,
}

/// `a` where it is set, else `b`.
pub open spec fn either(a: Option<Color>, b: Option<Color>) -> Option<Color> {
    if a is Some {
        a
    } else {
        b
    }
}

impl Cell {
    /// Only the channels that the shape shows carry a color: a space has no
    /// foreground and a full block no background.
    pub open spec fn wf(self) -> bool {
        &&& self.glyph is Space ==> self.fg is None
        &&& self.glyph is Full ==> self.bg is None
    }

    /// Some part of the cell still lets a lower layer show through.
    pub open spec fn see_through(self) -> bool {
        match self.glyph {
            Glyph::Space => self.bg is None,
            Glyph::Full => self.fg is None,
            _ => self.fg is None || self.bg is None,
        }
    }

    /// The fully transparent cell.
    pub open spec fn clear() -> Cell {
        Cell { glyph: Glyph::Space, fg: None, bg: None }
    }

    /// The fully transparent cell.
    pub fn transparent() -> (c: Cell)
        ensures
            c == Cell::clear(),
    {
        Cell { glyph: Glyph::Space, fg: None, bg: None }
    }

    /// A cell of the given shape; a channel that the shape does not show is left unset.
    pub fn new(glyph: Glyph, fg: Option<Color>, bg: Option<Color>) -> (c: Cell)
        ensures
            c.wf(),
            c.glyph == glyph,
            c.fg == (if glyph is Space { None } else { fg }),
            c.bg == (if glyph is Full { None } else { bg }),
    {
        match glyph {
            Glyph::Space => Cell { glyph, fg: None, bg },
            Glyph::Full => Cell { glyph, fg, bg: None },
            _ => Cell { glyph, fg, bg },
        }
    }
}

/// The cell that results from drawing `above` over `below`.
///
/// - An opaque `above` hides `below` entirely.
/// - The same shape: each channel set in `above` replaces that of `below`.
/// - A see-through space or full block is fully transparent: `below` stays.
/// - Complementary halves occupy the two sides of one cell: the empty side
///   of `below` takes the color of the filled side of `above`.
/// - A half over a uniform cell (space or full block): the unset channels of
///   the half show the uniform color.
/// - Otherwise (two perpendicular halves) no shape can show both: `above` wins.
pub open spec fn overlaid(below: Cell, above: Cell) -> Cell {
    if !above.see_through() {
        above
    } else if below.glyph == above.glyph {
        Cell { glyph: below.glyph, fg: either(above.fg, below.fg), bg: either(above.bg, below.bg) }
    } else if !above.glyph.is_half() {
        below
    } else if below.glyph.complements(above.glyph) {
        Cell { glyph: below.glyph, fg: below.fg, bg: above.fg }
    } else if below.glyph is Space {
        Cell { glyph: above.glyph, fg: either(above.fg, below.bg), bg: either(above.bg, below.bg) }
    } else if below.glyph is Full {
        Cell { glyph: above.glyph, fg: either(above.fg, below.fg), bg: either(above.bg, below.fg) }
    } else {
        above
    }
}

/// Whether a lower layer can still show through `c`: its shape has a part
/// whose color is unset.
pub fn underlay_possible(c: &Cell) -> (r: bool)
    ensures
        r == c.see_through(),
{
    match c.glyph {
        Glyph::Space => c.bg.is_none(),
        Glyph::Full => c.fg.is_none(),
        _ => c.fg.is_none() || c.bg.is_none(),
    }
}

fn pick(a: Option<Color>, b: Option<Color>) -> (r: Option<Color>)
    ensures
        r == either(a, b),
{
    match a {
        Some(_) => a,
        None => b,
    }
}

fn is_half(g: Glyph) -> (r: bool)
    ensures
        r == g.is_half(),
{
    !matches!(g, Glyph::Space | Glyph::Full)
}

fn complements(a: Glyph, b: Glyph) -> (r: bool)
    ensures
        r == a.complements(b),
{
    matches!(
        (a, b),
        (Glyph::LeftHalf, Glyph::RightHalf) | (Glyph::RightHalf, Glyph::LeftHalf) | (
            Glyph::TopHalf,
            Glyph::BottomHalf,
        ) | (Glyph::BottomHalf, Glyph::TopHalf)
    )
}

/// Draws `c2` over `c1`, storing the result in `c1`.
pub fn overlay(c1: &mut Cell, c2: &Cell)
    ensures
        *final(c1) == overlaid(*old(c1), *c2),
        old(c1).wf() && c2.wf() ==> final(c1).wf(),
{
    let below = *c1;
    let above = *c2;
    if !underlay_possible(c2) {
        *c1 = above;
    } else if below.glyph == above.glyph {
        *c1 = Cell { glyph: below.glyph, fg: pick(above.fg, below.fg), bg: pick(above.bg, below.bg) };
    } else if !is_half(above.glyph) {
    } else if complements(below.glyph, above.glyph) {
        *c1 = Cell { glyph: below.glyph, fg: below.fg, bg: above.fg };
    } else if matches!(below.glyph, Glyph::Space) {
        *c1 = Cell { glyph: above.glyph, fg: pick(above.fg, below.bg), bg: pick(above.bg, below.bg) };
    } else if matches!(below.glyph, Glyph::Full) {
        *c1 = Cell { glyph: above.glyph, fg: pick(above.fg, below.fg), bg: pick(above.bg, below.fg) };
    } else {
        *c1 = above;
    }
}

/// Draws `c1` over `c2`, storing the result in `c1`: `c2` is slid underneath.
pub fn underlay(c1: &mut Cell, c2: &Cell)
    ensures
        *final(c1) == overlaid(*c2, *old(c1)),
{
    let mut below = *c2;
    overlay(&mut below, c1);
    *c1 = below;
}

/// An opaque full block drawn over another full block replaces it, whatever
/// the color below.
pub proof fn lemma_full_over_full(x: Color, y: Color)
    ensures
        overlaid(
            Cell { glyph: Glyph::Full, fg: Some(x), bg: None },
            Cell { glyph: Glyph::Full, fg: Some(y), bg: None },
        ) == (Cell { glyph: Glyph::Full, fg: Some(y), bg: None }),
{
}

/// Drawing the fully transparent cell over any cell leaves it unchanged.
pub proof fn lemma_transparent_over(c: Cell)
    ensures
        overlaid(c, Cell::clear()) == c,
{
}

/// The color that `c` shows on the half of the cell that the half shape
/// `side` fills (`None`: that half is see-through).
pub open spec fn shown_on(c: Cell, side: Glyph) -> Option<Color> {
    if c.glyph == side || c.glyph is Full {
        c.fg
    } else if c.glyph.complements(side) || c.glyph is Space {
        c.bg
    } else {
        None
    }
}

/// Two complementary half cells with their empty sides unset merge into one
/// cell showing both colors, each on its own side, in whichever order they
/// are drawn.
pub proof fn lemma_complementary_halves(a: Glyph, b: Glyph, x: Color, y: Color)
    requires
        a.complements(b),
    ensures
        ({
            let ab = overlaid(
                Cell { glyph: a, fg: Some(x), bg: None },
                Cell { glyph: b, fg: Some(y), bg: None },
            );
            let ba = overlaid(
                Cell { glyph: b, fg: Some(y), bg: None },
                Cell { glyph: a, fg: Some(x), bg: None },
            );
            &&& shown_on(ab, a) == Some(x) && shown_on(ab, b) == Some(y)
            &&& shown_on(ba, a) == Some(x) && shown_on(ba, b) == Some(y)
        }),
        overlaid(Cell { glyph: a, fg: Some(x), bg: None }, Cell { glyph: b, fg: Some(y), bg: None })
            == (Cell { glyph: a, fg: Some(x), bg: Some(y) }),
{
}

} // verus!
