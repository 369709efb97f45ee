use vstd::prelude::*;
use crossterm::style::Color;
use crate::cell::{Cell, Glyph};

verus! {

/// How finely a character cell is addressed, chosen once from the font's
/// aspect ratio.
#[derive(Clone, Copy, Debug, PartialEq, Eq, Structural)]
pub enum PxScale {
    /// A point is half a cell high: each cell holds a top and a bottom point.
    HalfHeight,
    /// A point is half a cell wide: each cell holds a left and a right point.
    HalfWidth,
    /// A point is a whole cell.
    Whole,
}

impl PxScale {
    /// Picks the scale from the terminal's size in cells and in pixels.
    ///
    /// The aspect ratio of one cell is `(width_px / cols) / (height_px / rows)`.
    /// Below 0.75 (tall cells) a point is half a cell high, above 1.333 (wide
    /// cells) half a cell wide, and in between a whole cell. Where any of the
    /// sizes is unknown (zero), cells are taken to be tall.
    pub fn from_window_size(cols: u16, rows: u16, width_px: u16, height_px: u16) -> (s: PxScale)
        ensures
            ({
                let w = width_px as int * rows as int;
                let h = height_px as int * cols as int;
                s == if cols == 0 || rows == 0 || width_px == 0 || height_px == 0 {
                    PxScale::HalfHeight
                } else if 4 * w < 3 * h {
                    PxScale::HalfHeight
                } else if 1000 * w > 1333 * h {
                    PxScale::HalfWidth
                } else {
                    PxScale::Whole
                }
            }),
    {
        if cols == 0 || rows == 0 || width_px == 0 || height_px == 0 {
            return PxScale::HalfHeight;
        }
        proof {
            assert(width_px as int * rows as int <= 0xffff * 0xffff) by (nonlinear_arith)
                requires
                    width_px <= 0xffff,
                    rows <= 0xffff,
            ;
            assert(height_px as int * cols as int <= 0xffff * 0xffff) by (nonlinear_arith)
                requires
                    height_px <= 0xffff,
                    cols <= 0xffff,
            ;
        }
        let w: u64 = width_px as u64 * rows as u64;
        let h: u64 = height_px as u64 * cols as u64;
        if 4 * w < 3 * h {
            PxScale::HalfHeight
        } else if 1000 * w > 1333 * h {
            PxScale::HalfWidth
        } else {
            PxScale::Whole
        }
    }

    /// Points per cell across.
    pub open spec fn across(self) -> nat {
        if self is HalfWidth {
            2
        } else {
            1
        }
    }

    /// Points per cell down.
    pub open spec fn down(self) -> nat {
        if self is HalfHeight {
            2
        } else {
            1
        }
    }
}

/// The terminal surface that layers cover: its size in cells and the scale
/// of its points.
#[derive(Clone, Copy, Debug, PartialEq, Eq, Structural)]
pub struct Frame {
    pub cols: u16,
    pub rows: u16,
    pub scale: PxScale,
}

impl Frame {
    /// Number of cells.
    pub open spec fn size(self) -> nat {
        self.cols as nat * self.rows as nat
    }

    /// Number of addressable points across.
    pub open spec fn width(self) -> nat {
        self.cols as nat * self.scale.across()
    }

    /// Number of addressable points down.
    pub open spec fn height(self) -> nat {
        self.rows as nat * self.scale.down()
    }

    pub open spec fn in_bounds(self, x: int, y: int) -> bool {
        0 <= x < self.width() && 0 <= y < self.height()
    }

    /// Column of the cell holding point `(x, y)`.
    pub open spec fn col_of(self, x: int) -> int {
        x / self.scale.across() as int
    }

    /// Row of the cell holding point `(x, y)`.
    pub open spec fn row_of(self, y: int) -> int {
        y / self.scale.down() as int
    }

    /// Flattened (row-major) index of the cell holding point `(x, y)`.
    pub open spec fn index_of(self, x: int, y: int) -> int {
        self.row_of(y) * self.cols + self.col_of(x)
    }

    /// The part of its cell that point `(x, y)` fills.
    pub open spec fn glyph_at(self, x: int, y: int) -> Glyph {
        match self.scale {
            PxScale::HalfHeight => if y % 2 == 0 {
                Glyph::TopHalf
            } else {
                Glyph::BottomHalf
            },
            PxScale::HalfWidth => if x % 2 == 0 {
                Glyph::LeftHalf
            } else {
                Glyph::RightHalf
            },
            PxScale::Whole => Glyph::Full,
        }
    }

    /// The partial cell that plotting `color` at `(x, y)` draws.
    pub open spec fn mark(self, x: int, y: int, color: Color) -> Cell {
        Cell { glyph: self.glyph_at(x, y), fg: Some(color), bg: None }
    }

    /// The surface is at most twice 65535 points across and down.
    pub proof fn lemma_extent(self)
        ensures
            self.width() <= 0x1fffe,
            self.height() <= 0x1fffe,
    {
        if self.scale is HalfWidth {
            assert(self.width() == self.cols * 2);
        } else {
            assert(self.width() == self.cols * 1);
        }
        if self.scale is HalfHeight {
            assert(self.height() == self.rows * 2);
        } else {
            assert(self.height() == self.rows * 1);
        }
    }

    /// Number of cells, `cols * rows`.
    pub fn cell_count(&self) -> (n: usize)
        ensures
            n == self.size(),
    {
        proof {
            vstd::arithmetic::mul::lemma_mul_upper_bound(
                self.cols as int,
                0xffff,
                self.rows as int,
                0xffff,
            );
        }
        self.cols as usize * self.rows as usize
    }

    /// The resolution in points: `(width, height)`.
    pub fn resolution(&self) -> (r: (u32, u32))
        ensures
            r.0 == self.width(),
            r.1 == self.height(),
    {
        match self.scale {
            PxScale::HalfHeight => (self.cols as u32, 2 * self.rows as u32),
            PxScale::HalfWidth => (2 * self.cols as u32, self.rows as u32),
            PxScale::Whole => (self.cols as u32, self.rows as u32),
        }
    }

    /// Whether `(x, y)` lies on the surface.
    pub fn contains(&self, x: u32, y: u32) -> (b: bool)
        ensures
            b == self.in_bounds(x as int, y as int),
    {
        let (w, h) = self.resolution();
        x < w && y < h
    }

    /// Where point `(x, y)` lands: the index of its cell and the partial
    /// cell that `color` draws there.
    pub fn locate(&self, x: u32, y: u32, color: Color) -> (r: (usize, Cell))
        requires
            self.in_bounds(x as int, y as int),
        ensures
            r.0 == self.index_of(x as int, y as int),
            r.0 < self.size(),
            r.1 == self.mark(x as int, y as int, color),
    {
        let (col, row, glyph) = match self.scale {
            PxScale::HalfHeight => (
                x,
                y / 2,
                if y % 2 == 0 {
                    Glyph::TopHalf
                } else {
                    Glyph::BottomHalf
                },
            ),
            PxScale::HalfWidth => (
                x / 2,
                y,
                if x % 2 == 0 {
                    Glyph::LeftHalf
                } else {
                    Glyph::RightHalf
                },
            ),
            PxScale::Whole => (x, y, Glyph::Full),
        };
        proof {
            let (c, r, n, m) = (col as int, row as int, self.cols as int, self.rows as int);
            assert(c < n && r < m);
            assert(r * n + c < m * n) by (nonlinear_arith)
                requires
                    0 <= c < n,
                    0 <= r < m,
            ;
            assert(m * n <= 0xffff * 0xffff) by (nonlinear_arith)
                requires
                    0 <= m <= 0xffff,
                    0 <= n <= 0xffff,
            ;
        }
        let i = row as usize * self.cols as usize + col as usize;
        (i, Cell { glyph, fg: Some(color), bg: None })
    }
}

} // verus!
