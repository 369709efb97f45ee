use vstd::prelude::*;
use crossterm::style::Color;
use crate::cell::{overlay, Cell};
use crate::color::rgb;
use crate::dirty::DirtySet;
use crate::error::ErrorKind;
use crate::frame::Frame;
use crate::image::{bmp_size, image_height, image_paint, image_pixel, image_width};
use crate::raster::{
    abs, line_ops, line_steps, offset, plot_all, plotted, rect_fault, rect_ops, row_ops, touched,
    lemma_offset_ends, lemma_offset_step, lemma_plot_all_push,
};

verus! {

/// An independently drawable buffer of cells covering the whole surface.
///
/// Drawing on a layer also marks the changed cells in the dirty set of the
/// canvas that the layer belongs to, which is handed to each drawing call.
pub struct Layer {
    cells: Vec<Cell>,
    frame: Frame,
}

impl View for Layer {
    type V = Seq<Cell>;

    closed spec fn view(&self) -> Seq<Cell> {
        self.cells@
    }
}

/// Every color of a solid shape.
pub open spec fn solid(color: Color) -> spec_fn(int, int) -> Color {
    |dx: int, dy: int| color
}

/// `after` and `changed` are `before` and `dirty` with `ops` plotted, first to last.
pub open spec fn drawn(
    before: Layer,
    after: Layer,
    dirty: DirtySet,
    changed: DirtySet,
    ops: Seq<(int, int, Color)>,
) -> bool {
    &&& after.ready(changed)
    &&& after.frame_spec() == before.frame_spec()
    &&& after@ == plot_all(before@, before.frame_spec(), ops)
    &&& changed@ == dirty@.union(touched(before.frame_spec(), ops))
}

/// `after` and `changed` are `before` and `dirty`, untouched.
pub open spec fn untouched(before: Layer, after: Layer, dirty: DirtySet, changed: DirtySet) -> bool {
    &&& after.ready(changed)
    &&& after.frame_spec() == before.frame_spec()
    &&& after@ == before@
    &&& changed@ == dirty@
}

impl Layer {
    /// The surface that the layer covers.
    pub closed spec fn frame_spec(&self) -> Frame {
        self.frame
    }

    /// The layer holds one cell per cell of its surface.
    pub closed spec fn wf(&self) -> bool {
        self.cells@.len() == self.frame.size()
    }

    /// The layer is well formed and `changed` ranges over its cells.
    pub open spec fn ready(&self, changed: DirtySet) -> bool {
        &&& self.wf()
        &&& changed.wf()
        &&& changed.size() == self.frame_spec().size()
        &&& self@.len() == self.frame_spec().size()
    }

    /// A fully transparent layer covering `frame`.
    pub fn new(frame: Frame) -> (l: Layer)
        ensures
            l.wf(),
            l.frame_spec() == frame,
            l@ == Seq::new(frame.size(), |i: int| Cell::clear()),
    {
        let n = frame.cell_count();
        let mut cells: Vec<Cell> = Vec::new();
        let mut i: usize = 0;
        while i < n
            invariant
                i <= n,
                n == frame.size(),
                cells@ == Seq::new(i as nat, |k: int| Cell::clear()),
            decreases n - i,
        {
            cells.push(Cell::transparent());
            i = i + 1;
            assert(cells@ =~= Seq::new(i as nat, |k: int| Cell::clear()));
        }
        Layer { cells, frame }
    }

    /// The surface that the layer covers.
    pub fn frame(&self) -> (f: Frame)
        ensures
            f == self.frame_spec(),
    {
        self.frame
    }

    /// Number of cells in the layer.
    pub fn size(&self) -> (n: usize)
        ensures
            n == self@.len(),
    {
        self.cells.len()
    }

    /// The resolution in points: `(width, height)`.
    pub fn resolution(&self) -> (r: (u32, u32))
        ensures
            r.0 == self.frame_spec().width(),
            r.1 == self.frame_spec().height(),
    {
        self.frame.resolution()
    }

    /// The cell at flattened index `i`.
    pub fn cell(&self, i: usize) -> (c: Cell)
        requires
            i < self@.len(),
        ensures
            c == self@[i as int],
    {
        self.cells[i]
    }

    /// Plots a point known to lie on the surface.
    fn put(&mut self, changed: &mut DirtySet, x: u32, y: u32, color: Color)
        requires
            old(self).ready(*old(changed)),
            old(self).frame_spec().in_bounds(x as int, y as int),
        ensures
            final(self).ready(*final(changed)),
            final(self).frame_spec() == old(self).frame_spec(),
            final(self)@ == plotted(old(self)@, old(self).frame_spec(), x as int, y as int, color),
            final(changed)@ == old(changed)@.insert(
                old(self).frame_spec().index_of(x as int, y as int),
            ),
    {
        let (i, mark) = self.frame.locate(x, y, color);
        changed.insert(i);
        let mut c = self.cells[i];
        overlay(&mut c, &mark);
        self.cells.set(i, c);
    }

    /// Plots `color` at point `p`: the point's partial cell (the half of its
    /// cell that the point addresses, or the whole cell) is drawn over the
    /// cell in this layer, and the cell is marked as changed.
    ///
    /// A point off the surface is refused and nothing changes.
    pub fn plot(&mut self, changed: &mut DirtySet, p: (u16, u16), color: Color) -> (r: Result<
        (),
        ErrorKind,
    >)
        requires
            old(self).ready(*old(changed)),
        ensures
            old(self).frame_spec().in_bounds(p.0 as int, p.1 as int) ==> r is Ok && drawn(
                *old(self),
                *final(self),
                *old(changed),
                *final(changed),
                seq![(p.0 as int, p.1 as int, color)],
            ),
            !old(self).frame_spec().in_bounds(p.0 as int, p.1 as int) ==> r == Err::<(), ErrorKind>(
                ErrorKind::OutOfBounds(p.0 as u32, p.1 as u32),
            ) && untouched(*old(self), *final(self), *old(changed), *final(changed)),
    {
        if !self.frame.contains(p.0 as u32, p.1 as u32) {
            return Err(ErrorKind::OutOfBounds(p.0 as u32, p.1 as u32));
        }
        self.put(changed, p.0 as u32, p.1 as u32, color);
        proof {
            let ops = seq![(p.0 as int, p.1 as int, color)];
            lemma_plot_all_push(old(self)@, old(self).frame_spec(), Seq::empty(), ops[0]);
            assert(Seq::<(int, int, Color)>::empty().push(ops[0]) == ops);
            assert(changed@ =~= old(changed)@.union(touched(old(self).frame_spec(), ops)));
        }
        Ok(())
    }

    /// Draws the straight line from `p0` to `p1`, both ends included.
    ///
    /// The line takes one step per point along the axis of greater change;
    /// the other coordinate advances by the slope at each step and is rounded
    /// to the nearest point, so consecutive points touch. Equal ends give a
    /// single point. An end off the surface (`p0` checked first) is refused
    /// and nothing changes.
    pub fn line(&mut self, changed: &mut DirtySet, p0: (u16, u16), p1: (u16, u16), color: Color) -> (r:
        Result<(), ErrorKind>)
        requires
            old(self).ready(*old(changed)),
        ensures
            ({
                let f = old(self).frame_spec();
                let (x0, y0, x1, y1) = (p0.0 as int, p0.1 as int, p1.0 as int, p1.1 as int);
                if !f.in_bounds(x0, y0) {
                    r == Err::<(), ErrorKind>(ErrorKind::OutOfBounds(p0.0 as u32, p0.1 as u32))
                        && untouched(*old(self), *final(self), *old(changed), *final(changed))
                } else if !f.in_bounds(x1, y1) {
                    r == Err::<(), ErrorKind>(ErrorKind::OutOfBounds(p1.0 as u32, p1.1 as u32))
                        && untouched(*old(self), *final(self), *old(changed), *final(changed))
                } else {
                    r is Ok && drawn(
                        *old(self),
                        *final(self),
                        *old(changed),
                        *final(changed),
                        line_ops(x0, y0, x1, y1, color),
                    )
                }
            }),
    {
        if !self.frame.contains(p0.0 as u32, p0.1 as u32) {
            return Err(ErrorKind::OutOfBounds(p0.0 as u32, p0.1 as u32));
        }
        if !self.frame.contains(p1.0 as u32, p1.1 as u32) {
            return Err(ErrorKind::OutOfBounds(p1.0 as u32, p1.1 as u32));
        }
        let (x0, y0, x1, y1) = (p0.0 as u64, p0.1 as u64, p1.0 as u64, p1.1 as u64);
        let ax: u64 = if x1 >= x0 { x1 - x0 } else { x0 - x1 };
        let ay: u64 = if y1 >= y0 { y1 - y0 } else { y0 - y1 };
        let steps: u64 = if ax > ay { ax } else { ay };
        let ghost f = self.frame;
        let ghost ops = line_ops(x0 as int, y0 as int, x1 as int, y1 as int, color);
        let ghost dx = x1 - x0;
        let ghost dy = y1 - y0;
        assert(steps == line_steps(x0 as int, y0 as int, x1 as int, y1 as int));
        assert(abs(dx) == ax && abs(dy) == ay);
        let mut k: u64 = 0;
        proof {
            assert(ops.take(0) == Seq::<(int, int, Color)>::empty());
            assert(changed@ =~= changed@.union(touched(f, ops.take(0))));
        }
        while k <= steps
            invariant
                k <= steps + 1,
                steps <= 0xffff,
                ax <= steps,
                ay <= steps,
                abs(dx) == ax,
                abs(dy) == ay,
                dx == x1 - x0,
                dy == y1 - y0,
                f == old(self).frame_spec(),
                f.in_bounds(x0 as int, y0 as int),
                f.in_bounds(x1 as int, y1 as int),
                ops == line_ops(x0 as int, y0 as int, x1 as int, y1 as int, color),
                ops.len() == steps + 1,
                drawn(*old(self), *self, *old(changed), *changed, ops.take(k as int)),
            decreases steps + 1 - k,
        {
            proof {
                assert(2 * k * ax + steps <= 2 * 0xffff * 0xffff + 0xffff) by (nonlinear_arith)
                    requires
                        k <= steps,
                        steps <= 0xffff,
                        ax <= steps,
                ;
                assert(2 * k * ay + steps <= 2 * 0xffff * 0xffff + 0xffff) by (nonlinear_arith)
                    requires
                        k <= steps,
                        steps <= 0xffff,
                        ay <= steps,
                ;
            }
            let ox: u64 = if steps == 0 { 0 } else { (2 * k * ax + steps) / (2 * steps) };
            let oy: u64 = if steps == 0 { 0 } else { (2 * k * ay + steps) / (2 * steps) };
            proof {
                if steps > 0 {
                    if k < steps {
                        lemma_offset_step(k as int, dx, steps as int);
                        lemma_offset_step(k as int, dy, steps as int);
                    } else {
                        lemma_offset_ends(dx, steps as int);
                        lemma_offset_ends(dy, steps as int);
                    }
                }
                assert(ox == abs(offset(k as int, dx, steps as int)));
                assert(oy == abs(offset(k as int, dy, steps as int)));
            }
            let x: u64 = if x1 >= x0 { x0 + ox } else { x0 - ox };
            let y: u64 = if y1 >= y0 { y0 + oy } else { y0 - oy };
            let ghost op = ops[k as int];
            assert(op == (x as int, y as int, color));
            assert(f.in_bounds(x as int, y as int));
            proof {
                f.lemma_extent();
            }
            assert((x as u32) as int == x as int && (y as u32) as int == y as int);
            let ghost d_before = changed@;
            self.put(changed, x as u32, y as u32, color);
            proof {
                let next = ops.take(k + 1);
                assert(next == ops.take(k as int).push(op));
                lemma_plot_all_push(old(self)@, f, ops.take(k as int), op);
                assert(touched(f, next) == touched(f, ops.take(k as int)).insert(f.index_of(x as int, y as int)));
                assert(changed@ == d_before.insert(f.index_of(x as int, y as int)));
                assert(changed@ =~= old(changed)@.union(touched(f, next)));
            }
            k = k + 1;
        }
        assert(ops.take(k as int) == ops);
        Ok(())
    }

    /// Plots point `(x, y)`, which lies on the surface, as the next of the
    /// points `done` already plotted on `before`.
    fn put_next(
        &mut self,
        changed: &mut DirtySet,
        x: u64,
        y: u64,
        color: Color,
        Ghost(before): Ghost<Layer>,
        Ghost(dirty): Ghost<DirtySet>,
        Ghost(done): Ghost<Seq<(int, int, Color)>>,
    )
        requires
            drawn(before, *old(self), dirty, *old(changed), done),
            before.frame_spec().in_bounds(x as int, y as int),
        ensures
            drawn(before, *final(self), dirty, *final(changed), done.push((x as int, y as int, color))),
    {
        let ghost f = before.frame_spec();
        proof {
            f.lemma_extent();
        }
        assert((x as u32) as int == x as int && (y as u32) as int == y as int);
        let ghost d_before = changed@;
        self.put(changed, x as u32, y as u32, color);
        proof {
            let op = (x as int, y as int, color);
            lemma_plot_all_push(before@, f, done, op);
            assert(changed@ == d_before.insert(f.index_of(x as int, y as int)));
            assert(changed@ =~= dirty@.union(touched(f, done.push(op))));
        }
    }

    /// Fills the `width` by `height` rectangle whose upper left point is
    /// `(x, y)`: every point of it is plotted, row by row from the top, each
    /// row from the left, just as `plot` would in nested loops.
    ///
    /// A rectangle reaching past the right or bottom edge of the surface
    /// (an empty one included) is refused with the first point, in that
    /// order, that lies off the surface, and nothing changes.
    pub fn fill_rect(
        &mut self,
        changed: &mut DirtySet,
        x: u16,
        y: u16,
        width: u16,
        height: u16,
        color: Color,
    ) -> (r: Result<(), ErrorKind>)
        requires
            old(self).ready(*old(changed)),
        ensures
            ({
                let f = old(self).frame_spec();
                match rect_fault(f, x as int, y as int, width as nat, height as nat) {
                    Some(p) => r == Err::<(), ErrorKind>(ErrorKind::OutOfBounds(p.0 as u32, p.1 as u32))
                        && untouched(*old(self), *final(self), *old(changed), *final(changed)),
                    None => r is Ok && drawn(
                        *old(self),
                        *final(self),
                        *old(changed),
                        *final(changed),
                        rect_ops(x as int, y as int, width as nat, height as nat, solid(color)),
                    ),
                }
            }),
    {
        let (x, y, w, h): (u64, u64, u64, u64) = (x as u64, y as u64, width as u64, height as u64);
        let ghost paint = solid(color);
        let ghost f = self.frame;
        let ghost before = *self;
        let ghost dirty = *changed;
        let (rw, rh) = self.frame.resolution();
        if x + w > rw as u64 || y + h > rh as u64 {
            if !(x < rw as u64 && y < rh as u64) {
                return Err(ErrorKind::OutOfBounds(x as u32, y as u32));
            }
            if x + w > rw as u64 {
                return Err(ErrorKind::OutOfBounds(rw, y as u32));
            }
            return Err(ErrorKind::OutOfBounds(x as u32, rh));
        }
        proof {
            f.lemma_extent();
            assert(rect_ops(x as int, y as int, w as nat, 0, paint) == Seq::<(int, int, Color)>::empty());
            assert(changed@ =~= changed@.union(touched(f, Seq::<(int, int, Color)>::empty())));
        }
        let mut j: u64 = y;
        while j < y + h
            invariant
                y <= j <= y + h,
                f == old(self).frame_spec(),
                x + w <= f.width() && y + h <= f.height(),
                f.width() <= 0x1fffe && f.height() <= 0x1fffe && before.frame_spec() == f,
                paint == solid(color),
                drawn(before, *self, dirty, *changed, rect_ops(x as int, y as int, w as nat, (j - y) as nat, paint)),
            decreases y + h - j,
        {
            let ghost done = rect_ops(x as int, y as int, w as nat, (j - y) as nat, paint);
            assert(done + row_ops(x as int, y as int, j as int, 0, paint) == done);
            let mut i: u64 = x;
            while i < x + w
                invariant
                    x <= i <= x + w,
                    y <= j < y + h,
                    f == old(self).frame_spec(),
                    x + w <= f.width() && y + h <= f.height(),
                    f.width() <= 0x1fffe && f.height() <= 0x1fffe && before.frame_spec() == f,
                f.width() <= 0x1fffe && f.height() <= 0x1fffe && before.frame_spec() == f,
                    paint == solid(color),
                    done == rect_ops(x as int, y as int, w as nat, (j - y) as nat, paint),
                    drawn(before, *self, dirty, *changed, done + row_ops(x as int, y as int, j as int, (i - x) as nat, paint)),
                decreases x + w - i,
            {
                let c = color;
                let ghost row = row_ops(x as int, y as int, j as int, (i - x) as nat, paint);
                let ghost op = (i as int, j as int, c);
                proof {
                    assert(paint((i - x) as int, j - y) == c);
                    assert(row_ops(x as int, y as int, j as int, (i - x + 1) as nat, paint) == row.push(op));
                    assert((done + row).push(op) == done + row.push(op));
                }
                self.put_next(changed, i, j, c, Ghost(before), Ghost(dirty), Ghost(done + row));
                i = i + 1;
            }
            assert(rect_ops(x as int, y as int, w as nat, (j + 1 - y) as nat, paint) == done
                + row_ops(x as int, y as int, j as int, w as nat, paint));
            j = j + 1;
        }
        Ok(())
    }

    /// Draws the image `img` with its upper left corner at point `(x, y)`:
    /// each pixel is plotted in its own true color, row by row from the top,
    /// each row from the left.
    ///
    /// An image reaching past the right or bottom edge of the surface (an
    /// empty one included) is refused with the first point, in that order,
    /// that lies off the surface, and nothing changes.
    pub fn draw_img(&mut self, changed: &mut DirtySet, x: u16, y: u16, img: &bmp::Image) -> (r: Result<
        (),
        ErrorKind,
    >)
        requires
            old(self).ready(*old(changed)),
        ensures
            ({
                let f = old(self).frame_spec();
                let (w, h) = bmp_size(*img);
                match rect_fault(f, x as int, y as int, w as nat, h as nat) {
                    Some(p) => r == Err::<(), ErrorKind>(ErrorKind::OutOfBounds(p.0 as u32, p.1 as u32))
                        && untouched(*old(self), *final(self), *old(changed), *final(changed)),
                    None => r is Ok && drawn(
                        *old(self),
                        *final(self),
                        *old(changed),
                        *final(changed),
                        rect_ops(x as int, y as int, w as nat, h as nat, image_paint(*img)),
                    ),
                }
            }),
    {
        let (x, y, w, h): (u64, u64, u64, u64) = (
            x as u64,
            y as u64,
            image_width(img) as u64,
            image_height(img) as u64,
        );
        let ghost paint = image_paint(*img);
        let ghost f = self.frame;
        let ghost before = *self;
        let ghost dirty = *changed;
        let (rw, rh) = self.frame.resolution();
        if x + w > rw as u64 || y + h > rh as u64 {
            if !(x < rw as u64 && y < rh as u64) {
                return Err(ErrorKind::OutOfBounds(x as u32, y as u32));
            }
            if x + w > rw as u64 {
                return Err(ErrorKind::OutOfBounds(rw, y as u32));
            }
            return Err(ErrorKind::OutOfBounds(x as u32, rh));
        }
        proof {
            f.lemma_extent();
            assert(rect_ops(x as int, y as int, w as nat, 0, paint) == Seq::<(int, int, Color)>::empty());
            assert(changed@ =~= changed@.union(touched(f, Seq::<(int, int, Color)>::empty())));
        }
        let mut j: u64 = y;
        while j < y + h
            invariant
                y <= j <= y + h,
                f == old(self).frame_spec(),
                x + w <= f.width() && y + h <= f.height(),
                f.width() <= 0x1fffe && f.height() <= 0x1fffe && before.frame_spec() == f,
                paint == image_paint(*img),
                w == bmp_size(*img).0 && h == bmp_size(*img).1,
                drawn(before, *self, dirty, *changed, rect_ops(x as int, y as int, w as nat, (j - y) as nat, paint)),
            decreases y + h - j,
        {
            let ghost done = rect_ops(x as int, y as int, w as nat, (j - y) as nat, paint);
            assert(done + row_ops(x as int, y as int, j as int, 0, paint) == done);
            let mut i: u64 = x;
            while i < x + w
                invariant
                    x <= i <= x + w,
                    y <= j < y + h,
                    f == old(self).frame_spec(),
                    x + w <= f.width() && y + h <= f.height(),
                    f.width() <= 0x1fffe && f.height() <= 0x1fffe && before.frame_spec() == f,
                f.width() <= 0x1fffe && f.height() <= 0x1fffe && before.frame_spec() == f,
                    paint == image_paint(*img),
                    w == bmp_size(*img).0 && h == bmp_size(*img).1,
                    done == rect_ops(x as int, y as int, w as nat, (j - y) as nat, paint),
                    drawn(before, *self, dirty, *changed, done + row_ops(x as int, y as int, j as int, (i - x) as nat, paint)),
                decreases x + w - i,
            {
                let (pr, pg, pb) = image_pixel(img, (i - x) as u32, (j - y) as u32);
                let c = rgb(pr, pg, pb);
                let ghost row = row_ops(x as int, y as int, j as int, (i - x) as nat, paint);
                let ghost op = (i as int, j as int, c);
                proof {
                    assert(paint((i - x) as int, j - y) == c);
                    assert(row_ops(x as int, y as int, j as int, (i - x + 1) as nat, paint) == row.push(op));
                    assert((done + row).push(op) == done + row.push(op));
                }
                self.put_next(changed, i, j, c, Ghost(before), Ghost(dirty), Ghost(done + row));
                i = i + 1;
            }
            assert(rect_ops(x as int, y as int, w as nat, (j + 1 - y) as nat, paint) == done
                + row_ops(x as int, y as int, j as int, w as nat, paint));
            j = j + 1;
        }
        Ok(())
    }

}

} // verus!
