use vstd::prelude::*;
use crossterm::style::Color;
use crate::cell::{overlaid, underlay, underlay_possible, Cell};
use crate::claim::TerminalClaim;
use crate::dirty::DirtySet;
use crate::error::ErrorKind;
use crate::frame::Frame;
use crate::image::{bmp_size, image_paint};
use crate::layer::{drawn, solid, untouched, Layer};
use crate::raster::{lemma_touched_exact, line_ops, plot_all, rect_fault, rect_ops, touched};

verus! {

/// What the terminal shows at cell `i` of a stack of layers (bottom first),
/// looking down from layer `k`: each layer from `k` up is slid under the
/// layers above it, starting from the fully transparent cell.
pub open spec fn composite_from(layers: Seq<Seq<Cell>>, i: int, k: int) -> Cell
    decreases layers.len() - k,
{
    if k < 0 || k >= layers.len() {
        Cell::clear()
    } else {
        overlaid(layers[k][i], composite_from(layers, i, k + 1))
    }
}

/// What the terminal shows at cell `i` of a stack of layers (bottom first).
pub open spec fn composite(layers: Seq<Seq<Cell>>, i: int) -> Cell {
    composite_from(layers, i, 0)
}

/// Once the cells seen from layer `k` hide everything, the layers below
/// change nothing.
proof fn lemma_opaque_stops(layers: Seq<Seq<Cell>>, i: int, j: int, k: int)
    requires
        0 <= j <= k <= layers.len(),
        !composite_from(layers, i, k).see_through(),
    ensures
        composite_from(layers, i, j) == composite_from(layers, i, k),
    decreases k - j,
{
    if j < k {
        lemma_opaque_stops(layers, i, j + 1, k);
    }
}

/// One redrawn cell: where it is and what to write there.
#[derive(Clone, Copy, Debug, PartialEq, Eq)]
pub struct CellWrite {
    /// Flattened index of the cell.
    pub index: usize,
    /// Its column.
    pub col: u16,
    /// Its row.
    pub row: u16,
    /// The composited cell.
    pub cell: Cell,
}

/// A stack of layers over the terminal surface and the set of cells changed
/// since the last redraw.
pub struct Canvas {
    layers: Vec<Layer>,
    changed: DirtySet,
    frame: Frame,
}

/// `after` is `before` with `ops` plotted on layer `l`, first to last.
pub open spec fn painted(before: Canvas, after: Canvas, l: int, ops: Seq<(int, int, Color)>) -> bool {
    let f = before.frame_spec();
    &&& after.wf()
    &&& after.frame_spec() == f
    &&& after.stack() == before.stack().update(l, plot_all(before.stack()[l], f, ops))
    &&& after.dirty() == before.dirty().union(touched(f, ops))
}

/// `after` is `before`, untouched.
pub open spec fn unchanged(before: Canvas, after: Canvas) -> bool {
    &&& after.wf()
    &&& after.frame_spec() == before.frame_spec()
    &&& after.stack() == before.stack()
    &&& after.dirty() == before.dirty()
}

/// What creating a canvas over `frame` does: with the terminal's claim
/// free, it takes the claim and gives a canvas with no layers and every cell
/// to be drawn; with the claim held, it fails with `AlreadyExists`.
pub open spec fn created(
    before: TerminalClaim,
    after: TerminalClaim,
    frame: Frame,
    r: Result<Canvas, ErrorKind>,
) -> bool {
    &&& after.is_held()
    &&& before.is_held() ==> (r matches Err(ErrorKind::AlreadyExists))
    &&& !before.is_held() ==> r is Ok
    &&& r matches Ok(c) ==> {
        &&& c.wf()
        &&& c.frame_spec() == frame
        &&& c.stack() == Seq::<Seq<Cell>>::empty()
        &&& forall|i: int| 0 <= i < frame.size() <==> #[trigger] c.dirty().contains(i)
    }
}

/// While a canvas holds the terminal, creating another one fails with
/// `AlreadyExists`; once the first is closed, creating a new one succeeds.
pub proof fn lemma_one_canvas_at_a_time(
    claims: Seq<TerminalClaim>,
    frame: Frame,
    first: Result<Canvas, ErrorKind>,
    second: Result<Canvas, ErrorKind>,
    third: Result<Canvas, ErrorKind>,
)
    requires
        claims.len() == 5,
        created(claims[0], claims[1], frame, first),
        first is Ok,
        created(claims[1], claims[2], frame, second),
        !claims[3].is_held(),
        created(claims[3], claims[4], frame, third),
    ensures
        second matches Err(ErrorKind::AlreadyExists),
        third is Ok,
{
}

/// Starting from a canvas with nothing waiting to be redrawn, after any
/// sequence of drawing calls, each of which either drew its points or was
/// refused and changed nothing, the cells waiting to be redrawn are exactly
/// the cells that hold the points of the calls that drew.
pub proof fn lemma_dirty_exact(
    steps: Seq<Canvas>,
    layers: Seq<int>,
    calls: Seq<Seq<(int, int, Color)>>,
    drew: Seq<bool>,
)
    requires
        steps.len() == calls.len() + 1,
        layers.len() == calls.len(),
        drew.len() == calls.len(),
        steps[0].dirty() == Set::<int>::empty(),
        forall|k: int|
            0 <= k < calls.len() ==> if #[trigger] drew[k] {
                painted(steps[k], steps[k + 1], layers[k], calls[k])
            } else {
                unchanged(steps[k], steps[k + 1])
            },
    ensures
        forall|i: int|
            #[trigger] steps.last().dirty().contains(i) <==> exists|k: int, j: int|
                0 <= k < calls.len() && drew[k] && 0 <= j < calls[k].len()
                    && steps[0].frame_spec().index_of(calls[k][j].0, calls[k][j].1) == i,
{
    lemma_dirty_prefix(steps, layers, calls, drew, calls.len() as int);
}

proof fn lemma_dirty_prefix(
    steps: Seq<Canvas>,
    layers: Seq<int>,
    calls: Seq<Seq<(int, int, Color)>>,
    drew: Seq<bool>,
    n: int,
)
    requires
        0 <= n <= calls.len(),
        steps.len() == calls.len() + 1,
        layers.len() == calls.len(),
        drew.len() == calls.len(),
        steps[0].dirty() == Set::<int>::empty(),
        forall|k: int|
            0 <= k < calls.len() ==> if #[trigger] drew[k] {
                painted(steps[k], steps[k + 1], layers[k], calls[k])
            } else {
                unchanged(steps[k], steps[k + 1])
            },
    ensures
        steps[n].frame_spec() == steps[0].frame_spec(),
        forall|i: int|
            #[trigger] steps[n].dirty().contains(i) <==> exists|k: int, j: int|
                0 <= k < n && drew[k] && 0 <= j < calls[k].len()
                    && steps[0].frame_spec().index_of(calls[k][j].0, calls[k][j].1) == i,
    decreases n,
{
    if n > 0 {
        let m = n - 1;
        lemma_dirty_prefix(steps, layers, calls, drew, m);
        let f = steps[0].frame_spec();
        assert(drew[m] ==> painted(steps[m], steps[m + 1], layers[m], calls[m]));
        lemma_touched_exact(f, calls[m]);
        assert forall|i: int| #[trigger] steps[n].dirty().contains(i) <==> exists|k: int, j: int|
            0 <= k < n && drew[k] && 0 <= j < calls[k].len() && f.index_of(
                calls[k][j].0,
                calls[k][j].1,
            ) == i by {
            if exists|k: int, j: int|
                0 <= k < n && drew[k] && 0 <= j < calls[k].len() && f.index_of(
                    calls[k][j].0,
                    calls[k][j].1,
                ) == i {
                let (k, j) = choose|k: int, j: int|
                    0 <= k < n && drew[k] && 0 <= j < calls[k].len() && f.index_of(
                        calls[k][j].0,
                        calls[k][j].1,
                    ) == i;
                if k == m {
                    assert(touched(f, calls[m]).contains(i));
                } else {
                    assert(steps[m].dirty().contains(i));
                }
            }
            if steps[n].dirty().contains(i) && !steps[m].dirty().contains(i) {
                assert(drew[m]);
                assert(touched(f, calls[m]).contains(i));
                let j = choose|j: int|
                    0 <= j < calls[m].len() && f.index_of(calls[m][j].0, calls[m][j].1) == i;
                assert(0 <= m < n && drew[m] && 0 <= j < calls[m].len());
            }
        }
    }
}

impl Canvas {
    /// The surface the canvas covers.
    pub closed spec fn frame_spec(&self) -> Frame {
        self.frame
    }

    /// The cells of each layer, bottom first.
    pub closed spec fn stack(&self) -> Seq<Seq<Cell>> {
        Seq::new(self.layers@.len(), |k: int| self.layers@[k]@)
    }

    /// The cells changed since the last redraw.
    pub closed spec fn dirty(&self) -> Set<int> {
        self.changed@
    }

    /// Every layer covers the canvas's surface and the dirty set ranges over its cells.
    pub closed spec fn wf(&self) -> bool {
        &&& self.changed.wf()
        &&& self.changed.size() == self.frame.size()
        &&& forall|k: int|
            0 <= k < self.layers@.len() ==> (#[trigger] self.layers@[k]).ready(self.changed)
                && self.layers@[k].frame_spec() == self.frame
    }

    /// Creates a canvas over `frame`, taking the terminal's claim.
    ///
    /// Fails with `AlreadyExists`, leaving the claim as it is, while another
    /// canvas holds it. A new canvas has no layers and every cell is to be
    /// drawn.
    pub fn new(claim: &mut TerminalClaim, frame: Frame) -> (r: Result<Canvas, ErrorKind>)
        ensures
            created(*old(claim), *final(claim), frame, r),
    {
        if !claim.acquire() {
            return Err(ErrorKind::AlreadyExists);
        }
        let changed = DirtySet::full(frame.cell_count());
        let c = Canvas { layers: Vec::new(), changed, frame };
        assert(c.stack() =~= Seq::<Seq<Cell>>::empty());
        Ok(c)
    }

    /// Gives up the terminal's claim, so that a new canvas can be created.
    pub fn close(self, claim: &mut TerminalClaim)
        ensures
            !final(claim).is_held(),
    {
        claim.release();
    }

    /// The surface the canvas covers.
    pub fn frame(&self) -> (f: Frame)
        ensures
            f == self.frame_spec(),
    {
        self.frame
    }

    /// The resolution in points: `(width, height)`.
    pub fn resolution(&self) -> (r: (u32, u32))
        ensures
            r.0 == self.frame_spec().width(),
            r.1 == self.frame_spec().height(),
    {
        self.frame.resolution()
    }

    /// Number of layers.
    pub fn layer_count(&self) -> (n: usize)
        ensures
            n == self.stack().len(),
    {
        self.layers.len()
    }

    /// Whether cell `i` is waiting to be redrawn.
    pub fn is_dirty(&self, i: usize) -> (b: bool)
        ensures
            b == self.dirty().contains(i as int),
    {
        self.changed.contains(i)
    }

    /// The cell at flattened index `i` of layer `l`.
    pub fn cell(&self, l: usize, i: usize) -> (c: Cell)
        requires
            self.wf(),
            l < self.stack().len(),
            i < self.frame_spec().size(),
        ensures
            c == self.stack()[l as int][i as int],
    {
        self.layers[l].cell(i)
    }

    /// Adds a fully transparent layer on top of the stack and returns its
    /// handle, its position in the stack.
    pub fn new_layer(&mut self) -> (l: usize)
        requires
            old(self).wf(),
        ensures
            l == old(self).stack().len(),
            final(self).wf(),
            final(self).frame_spec() == old(self).frame_spec(),
            final(self).stack() == old(self).stack().push(
                Seq::new(old(self).frame_spec().size(), |i: int| Cell::clear()),
            ),
            final(self).dirty() == old(self).dirty(),
    {
        let l = self.layers.len();
        self.new_layer_at(l);
        l
    }

    /// Adds a fully transparent layer at position `i` of the stack; the
    /// layers from `i` up move one place higher.
    pub fn new_layer_at(&mut self, i: usize)
        requires
            old(self).wf(),
            i <= old(self).stack().len(),
        ensures
            final(self).wf(),
            final(self).frame_spec() == old(self).frame_spec(),
            final(self).stack() == old(self).stack().insert(
                i as int,
                Seq::new(old(self).frame_spec().size(), |k: int| Cell::clear()),
            ),
            final(self).dirty() == old(self).dirty(),
    {
        let layer = Layer::new(self.frame);
        self.layers.insert(i, layer);
        assert(self.stack() =~= old(self).stack().insert(
            i as int,
            Seq::new(old(self).frame_spec().size(), |k: int| Cell::clear()),
        ));
    }

    /// Plots `color` at point `p` of layer `l` (see `Layer::plot`).
    pub fn plot(&mut self, l: usize, p: (u16, u16), color: Color) -> (r: Result<(), ErrorKind>)
        requires
            old(self).wf(),
            l < old(self).stack().len(),
        ensures
            old(self).frame_spec().in_bounds(p.0 as int, p.1 as int) ==> r is Ok && painted(
                *old(self),
                *final(self),
                l as int,
                seq![(p.0 as int, p.1 as int, color)],
            ),
            !old(self).frame_spec().in_bounds(p.0 as int, p.1 as int) ==> r == Err::<(), ErrorKind>(
                ErrorKind::OutOfBounds(p.0 as u32, p.1 as u32),
            ) && unchanged(*old(self), *final(self)),
    {
        let ghost before = *self;
        let r = self.layers[l].plot(&mut self.changed, p, color);
        proof {
            Canvas::lemma_replaced(before, *self, l as int, seq![(p.0 as int, p.1 as int, color)]);
        }
        r
    }

    /// Draws the line from `p0` to `p1` on layer `l` (see `Layer::line`).
    pub fn line(&mut self, l: usize, p0: (u16, u16), p1: (u16, u16), color: Color) -> (r: Result<
        (),
        ErrorKind,
    >)
        requires
            old(self).wf(),
            l < old(self).stack().len(),
        ensures
            ({
                let f = old(self).frame_spec();
                let (x0, y0, x1, y1) = (p0.0 as int, p0.1 as int, p1.0 as int, p1.1 as int);
                if !f.in_bounds(x0, y0) {
                    r == Err::<(), ErrorKind>(ErrorKind::OutOfBounds(p0.0 as u32, p0.1 as u32))
                        && unchanged(*old(self), *final(self))
                } else if !f.in_bounds(x1, y1) {
                    r == Err::<(), ErrorKind>(ErrorKind::OutOfBounds(p1.0 as u32, p1.1 as u32))
                        && unchanged(*old(self), *final(self))
                } else {
                    r is Ok && painted(
                        *old(self),
                        *final(self),
                        l as int,
                        line_ops(x0, y0, x1, y1, color),
                    )
                }
            }),
    {
        let ghost before = *self;
        let r = self.layers[l].line(&mut self.changed, p0, p1, color);
        proof {
            Canvas::lemma_replaced(
                before,
                *self,
                l as int,
                line_ops(p0.0 as int, p0.1 as int, p1.0 as int, p1.1 as int, color),
            );
        }
        r
    }

    /// Fills a rectangle of layer `l` (see `Layer::fill_rect`).
    pub fn fill_rect(
        &mut self,
        l: usize,
        x: u16,
        y: u16,
        width: u16,
        height: u16,
        color: Color,
    ) -> (r: Result<(), ErrorKind>)
        requires
            old(self).wf(),
            l < old(self).stack().len(),
        ensures
            ({
                let f = old(self).frame_spec();
                match rect_fault(f, x as int, y as int, width as nat, height as nat) {
                    Some(p) => r == Err::<(), ErrorKind>(ErrorKind::OutOfBounds(p.0 as u32, p.1 as u32))
                        && unchanged(*old(self), *final(self)),
                    None => r is Ok && painted(
                        *old(self),
                        *final(self),
                        l as int,
                        rect_ops(x as int, y as int, width as nat, height as nat, solid(color)),
                    ),
                }
            }),
    {
        let ghost before = *self;
        let r = self.layers[l].fill_rect(&mut self.changed, x, y, width, height, color);
        proof {
            Canvas::lemma_replaced(
                before,
                *self,
                l as int,
                rect_ops(x as int, y as int, width as nat, height as nat, solid(color)),
            );
        }
        r
    }

    /// Draws image `img` on layer `l` (see `Layer::draw_img`).
    pub fn draw_img(&mut self, l: usize, x: u16, y: u16, img: &bmp::Image) -> (r: Result<(), ErrorKind>)
        requires
            old(self).wf(),
            l < old(self).stack().len(),
        ensures
            ({
                let f = old(self).frame_spec();
                let (w, h) = bmp_size(*img);
                match rect_fault(f, x as int, y as int, w as nat, h as nat) {
                    Some(p) => r == Err::<(), ErrorKind>(ErrorKind::OutOfBounds(p.0 as u32, p.1 as u32))
                        && unchanged(*old(self), *final(self)),
                    None => r is Ok && painted(
                        *old(self),
                        *final(self),
                        l as int,
                        rect_ops(x as int, y as int, w as nat, h as nat, image_paint(*img)),
                    ),
                }
            }),
    {
        let ghost before = *self;
        let r = self.layers[l].draw_img(&mut self.changed, x, y, img);
        proof {
            let (w, h) = bmp_size(*img);
            Canvas::lemma_replaced(
                before,
                *self,
                l as int,
                rect_ops(x as int, y as int, w as nat, h as nat, image_paint(*img)),
            );
        }
        r
    }

    /// What a drawing call on layer `l` did to that layer and the dirty set,
    /// seen on the whole canvas.
    proof fn lemma_replaced(before: Canvas, after: Canvas, l: int, ops: Seq<(int, int, Color)>)
        requires
            before.wf(),
            0 <= l < before.layers@.len(),
            after.frame == before.frame,
            after.layers@ == before.layers@.update(l, after.layers@[l]),
            drawn(before.layers@[l], after.layers@[l], before.changed, after.changed, ops)
                || untouched(before.layers@[l], after.layers@[l], before.changed, after.changed),
        ensures
            drawn(before.layers@[l], after.layers@[l], before.changed, after.changed, ops)
                ==> painted(before, after, l, ops),
            untouched(before.layers@[l], after.layers@[l], before.changed, after.changed)
                ==> unchanged(before, after),
    {
        assert(before.layers@[l].ready(before.changed));
        assert forall|k: int| 0 <= k < after.layers@.len() implies (#[trigger] after.layers@[k]).ready(
            after.changed,
        ) && after.layers@[k].frame_spec() == after.frame by {
            if k != l {
                assert(before.layers@[k].ready(before.changed));
            }
        }
        if drawn(before.layers@[l], after.layers@[l], before.changed, after.changed, ops) {
            assert(after.stack() =~= before.stack().update(
                l,
                plot_all(before.stack()[l], before.frame, ops),
            ));
        }
        if untouched(before.layers@[l], after.layers@[l], before.changed, after.changed) {
            assert(after.stack() =~= before.stack());
        }
    }

    /// What the terminal shows at cell `i`: starting from the fully
    /// transparent cell, each layer from the top down is slid underneath,
    /// stopping as soon as nothing can show through any more.
    pub fn composite_at(&self, i: usize) -> (c: Cell)
        requires
            self.wf(),
            i < self.frame_spec().size(),
        ensures
            c == composite(self.stack(), i as int),
    {
        let ghost stack = self.stack();
        let mut c = Cell::transparent();
        let mut k: usize = self.layers.len();
        while k > 0
            invariant
                self.wf(),
                i < self.frame_spec().size(),
                stack == self.stack(),
                k <= stack.len(),
                c == composite_from(stack, i as int, k as int),
            decreases k,
        {
            k = k - 1;
            assert(self.layers@[k as int].ready(self.changed));
            let below = self.layers[k].cell(i);
            assert(below == stack[k as int][i as int]);
            underlay(&mut c, &below);
            if !underlay_possible(&c) {
                proof {
                    lemma_opaque_stops(stack, i as int, 0, k as int);
                }
                return c;
            }
        }
        c
    }

    /// Redraws the changed cells: returns, for each cell changed since the
    /// last redraw, once and in no particular order, its position and the
    /// composited cell to write there; then clears the dirty set.
    pub fn update(&mut self) -> (writes: Vec<CellWrite>)
        requires
            old(self).wf(),
        ensures
            final(self).wf(),
            final(self).frame_spec() == old(self).frame_spec(),
            final(self).stack() == old(self).stack(),
            final(self).dirty() == Set::<int>::empty(),
            forall|k: int|
                0 <= k < writes@.len() ==> {
                    let w = #[trigger] writes@[k];
                    &&& old(self).dirty().contains(w.index as int)
                    &&& w.cell == composite(old(self).stack(), w.index as int)
                    &&& w.col == (w.index as int) % (old(self).frame_spec().cols as int)
                    &&& w.row == (w.index as int) / (old(self).frame_spec().cols as int)
                },
            forall|i: int|
                #[trigger] old(self).dirty().contains(i) ==> exists|k: int|
                    0 <= k < writes@.len() && #[trigger] writes@[k].index == i,
            forall|j: int, k: int|
                0 <= j < k < writes@.len() ==> #[trigger] writes@[j].index != #[trigger] writes@[k].index,
    {
        let cols = self.frame.cols;
        let pending = self.changed.pending();
        let mut writes: Vec<CellWrite> = Vec::new();
        let mut k: usize = 0;
        while k < pending.len()
            invariant
                *self == *old(self),
                self.wf(),
                cols == self.frame.cols,
                pending@.no_duplicates(),
                forall|m: int| 0 <= m < pending@.len() ==> self.dirty().contains(#[trigger] pending@[m] as int),
                k <= pending@.len(),
                writes@.len() == k,
                forall|m: int|
                    0 <= m < k ==> {
                        let w = #[trigger] writes@[m];
                        &&& w.index == pending@[m]
                        &&& w.cell == composite(self.stack(), w.index as int)
                        &&& w.col == (w.index as int) % (cols as int)
                        &&& w.row == (w.index as int) / (cols as int)
                    },
            decreases pending@.len() - k,
        {
            let i = pending[k];
            assert(self.dirty().contains(pending@[k as int] as int));
            proof {
                self.changed.lemma_in_range();
            }
            assert(i < self.frame.size());
            let cell = self.composite_at(i);
            proof {
                let (n, r) = (cols as int, self.frame.rows as int);
                assert(0 <= i < n * r);
                assert(n > 0) by (nonlinear_arith)
                    requires
                        0 <= i < n * r,
                        0 <= r,
                ;
                vstd::arithmetic::div_mod::lemma_fundamental_div_mod(i as int, n);
                assert(i as int / n < r) by (nonlinear_arith)
                    requires
                        0 <= i < n * r,
                        n > 0,
                        i as int == n * (i as int / n) + i as int % n,
                        0 <= i as int % n < n,
                ;
                assert(0 <= i as int / n) by (nonlinear_arith)
                    requires
                        0 <= i,
                        n > 0,
                        i as int == n * (i as int / n) + i as int % n,
                        0 <= i as int % n < n,
                ;
            }
            writes.push(CellWrite { index: i, col: (i % cols as usize) as u16, row: (i / cols as usize) as u16, cell });
            k = k + 1;
        }
        proof {
            assert forall|i: int| #[trigger] old(self).dirty().contains(i) implies exists|k: int|
                0 <= k < writes@.len() && #[trigger] writes@[k].index == i by {
                old(self).changed.lemma_in_range();
                assert(pending@.contains(i as usize));
                let m = choose|m: int| 0 <= m < pending@.len() && pending@[m] == i as usize;
                assert(writes@[m].index == i);
            }
        }
        self.changed.clear();
        proof {
            assert forall|m: int|
                0 <= m < self.layers@.len() implies (#[trigger] self.layers@[m]).ready(self.changed)
                && self.layers@[m].frame_spec() == self.frame by {
                assert(old(self).layers@[m].ready(old(self).changed));
            }
        }
        writes
    }
}

} // verus!
