use vstd::prelude::*;
use crossterm::style::Color;
use crate::cell::{overlaid, Cell};
use crate::frame::Frame;

verus! {

/// The cells after plotting `color` at point `(x, y)`: the partial cell of
/// that point is drawn over the cell that holds it.
pub open spec fn plotted(cells: Seq<Cell>, f: Frame, x: int, y: int, color: Color) -> Seq<Cell> {
    let i = f.index_of(x, y);
    cells.update(i, overlaid(cells[i], f.mark(x, y, color)))
}

/// The cells after plotting each `(x, y, color)` of `ops`, first to last.
pub open spec fn plot_all(cells: Seq<Cell>, f: Frame, ops: Seq<(int, int, Color)>) -> Seq<Cell>
    decreases ops.len(),
{
    if ops.len() == 0 {
        cells
    } else {
        let (x, y, c) = ops.last();
        plotted(plot_all(cells, f, ops.drop_last()), f, x, y, c)
    }
}

/// The cells that plotting `ops` marks as changed.
pub open spec fn touched(f: Frame, ops: Seq<(int, int, Color)>) -> Set<int>
    decreases ops.len(),
{
    if ops.len() == 0 {
        Set::empty()
    } else {
        touched(f, ops.drop_last()).insert(f.index_of(ops.last().0, ops.last().1))
    }
}

/// The points `(x, y) .. (x + w - 1, y)` from left to right, each painted
/// with `paint` of its offset from the rectangle's origin `(ox, oy)`.
pub open spec fn row_ops(
    ox: int,
    oy: int,
    y: int,
    w: nat,
    paint: spec_fn(int, int) -> Color,
) -> Seq<(int, int, Color)>
    decreases w,
{
    if w == 0 {
        Seq::empty()
    } else {
        row_ops(ox, oy, y, (w - 1) as nat, paint).push(
            (ox + w - 1, y, paint(w - 1, y - oy)),
        )
    }
}

/// The points of the `w` by `h` rectangle at `(x, y)`, row by row from the
/// top, each row from the left, each painted with `paint` of its offset.
pub open spec fn rect_ops(x: int, y: int, w: nat, h: nat, paint: spec_fn(int, int) -> Color) -> Seq<
    (int, int, Color),
>
    decreases h,
{
    if h == 0 {
        Seq::empty()
    } else {
        rect_ops(x, y, w, (h - 1) as nat, paint) + row_ops(x, y, y + h - 1, w, paint)
    }
}

/// Where the `w` by `h` rectangle at `(x, y)` is refused: none if it ends
/// within the right and bottom edges of the surface (even when empty), else
/// the first point in the order of `rect_ops` that lies off the surface
/// (the origin, for an empty rectangle off the surface).
pub open spec fn rect_fault(f: Frame, x: int, y: int, w: nat, h: nat) -> Option<(int, int)> {
    if x + w <= f.width() && y + h <= f.height() {
        None
    } else if !f.in_bounds(x, y) {
        Some((x, y))
    } else if x + w > f.width() {
        Some((f.width() as int, y))
    } else {
        Some((x, f.height() as int))
    }
}

/// How far the line has moved along an axis of extent `d` after `k` of its
/// `s` steps: `k * d / s` rounded to the nearest point (halves away from zero).
pub open spec fn offset(k: int, d: int, s: int) -> int {
    if s <= 0 {
        0
    } else if d >= 0 {
        (2 * k * d + s) / (2 * s)
    } else {
        -((2 * k * (-d) + s) / (2 * s))
    }
}

pub open spec fn abs(a: int) -> int {
    if a < 0 {
        -a
    } else {
        a
    }
}

/// Number of steps of the line from `(x0, y0)` to `(x1, y1)`: its extent
/// along the axis of greater change.
pub open spec fn line_steps(x0: int, y0: int, x1: int, y1: int) -> int {
    let (ax, ay) = (abs(x1 - x0), abs(y1 - y0));
    if ax > ay {
        ax
    } else {
        ay
    }
}

/// The points of the line from `(x0, y0)` to `(x1, y1)`: one per step along
/// the axis of greater change, the other coordinate advancing by the slope
/// and rounded to the nearest point.
pub open spec fn line_ops(x0: int, y0: int, x1: int, y1: int, color: Color) -> Seq<(int, int, Color)> {
    let s = line_steps(x0, y0, x1, y1);
    Seq::new(
        (s + 1) as nat,
        |k: int| (x0 + offset(k, x1 - x0, s), y0 + offset(k, y1 - y0, s), color),
    )
}

pub proof fn lemma_plot_all_push(cells: Seq<Cell>, f: Frame, ops: Seq<(int, int, Color)>, op: (int, int, Color))
    ensures
        plot_all(cells, f, ops.push(op)) == plotted(plot_all(cells, f, ops), f, op.0, op.1, op.2),
        touched(f, ops.push(op)) == touched(f, ops).insert(f.index_of(op.0, op.1)),
{
    assert(ops.push(op).drop_last() == ops);
}

/// Rounding `k * d / s` moves by at most one point from one step to the next
/// and stays between 0 and `d`.
pub proof fn lemma_offset_step(k: int, d: int, s: int)
    requires
        0 <= k < s,
        abs(d) <= s,
    ensures
        abs(offset(k + 1, d, s) - offset(k, d, s)) <= 1,
        0 <= abs(offset(k, d, s)) <= abs(d),
{
    let a = abs(d);
    let m = 2 * s;
    let n = 2 * k * a + s;
    let q = n / m;
    let q1 = (n + 2 * a) / m;
    assert(2 * (k + 1) * a + s == n + 2 * a) by (nonlinear_arith)
        requires
            n == 2 * k * a + s,
    ;
    vstd::arithmetic::div_mod::lemma_fundamental_div_mod(n, m);
    vstd::arithmetic::div_mod::lemma_fundamental_div_mod(n + 2 * a, m);
    let r = n % m;
    let r1 = (n + 2 * a) % m;
    assert(0 <= r < m && 0 <= r1 < m);
    assert(n >= 0) by (nonlinear_arith)
        requires
            k >= 0,
            a >= 0,
            s > 0,
            n == 2 * k * a + s,
    ;
    assert(q >= 0 && q1 >= q && q1 <= q + 1) by (nonlinear_arith)
        requires
            n == m * q + r,
            n + 2 * a == m * q1 + r1,
            0 <= r < m,
            0 <= r1 < m,
            0 <= 2 * a <= m,
            n >= 0,
    ;
    assert(q <= a) by (nonlinear_arith)
        requires
            n == m * q + r,
            0 <= r,
            m == 2 * s,
            n == 2 * k * a + s,
            0 <= k < s,
            0 <= a,
    ;
}

/// The first offset is zero and the last reaches the far end exactly.
pub proof fn lemma_offset_ends(d: int, s: int)
    requires
        abs(d) <= s,
        s > 0,
    ensures
        offset(0, d, s) == 0,
        offset(s, d, s) == d,
{
    let a = abs(d);
    assert(2 * 0 * a + s == s) by (nonlinear_arith);
    vstd::arithmetic::div_mod::lemma_basic_div(s, 2 * s);
    assert(2 * s * a + s == (2 * s) * a + s) by (nonlinear_arith);
    vstd::arithmetic::div_mod::lemma_fundamental_div_mod_converse(2 * s * a + s, 2 * s, a, s);
}

/// A line starts exactly at its first end, finishes exactly at its second
/// (equal ends give the single point), and each of its points touches the
/// next: neither coordinate moves by more than one point per step.
pub proof fn lemma_line_ends_and_connected(x0: int, y0: int, x1: int, y1: int, color: Color)
    ensures
        ({
            let ops = line_ops(x0, y0, x1, y1, color);
            &&& ops.len() >= 1
            &&& ops[0] == (x0, y0, color)
            &&& ops.last() == (x1, y1, color)
            &&& forall|k: int|
                0 <= k < ops.len() - 1 ==> abs(#[trigger] ops[k + 1].0 - ops[k].0) <= 1 && abs(
                    ops[k + 1].1 - ops[k].1,
                ) <= 1
        }),
{
    let ops = line_ops(x0, y0, x1, y1, color);
    let s = line_steps(x0, y0, x1, y1);
    let (dx, dy) = (x1 - x0, y1 - y0);
    if s > 0 {
        lemma_offset_ends(dx, s);
        lemma_offset_ends(dy, s);
    }
    assert forall|k: int| 0 <= k < ops.len() - 1 implies abs(#[trigger] ops[k + 1].0 - ops[k].0) <= 1
        && abs(ops[k + 1].1 - ops[k].1) <= 1 by {
        lemma_offset_step(k, dx, s);
        lemma_offset_step(k, dy, s);
    }
}

/// The cells that plotting `ops` marks are exactly the cells that hold its points.
pub proof fn lemma_touched_exact(f: Frame, ops: Seq<(int, int, Color)>)
    ensures
        forall|i: int|
            #[trigger] touched(f, ops).contains(i) <==> exists|k: int|
                0 <= k < ops.len() && f.index_of(ops[k].0, ops[k].1) == i,
    decreases ops.len(),
{
    if ops.len() > 0 {
        let rest = ops.drop_last();
        lemma_touched_exact(f, rest);
        assert forall|i: int| #[trigger] touched(f, ops).contains(i) <==> exists|k: int|
            0 <= k < ops.len() && f.index_of(ops[k].0, ops[k].1) == i by {
            if touched(f, rest).contains(i) {
                let k = choose|k: int| 0 <= k < rest.len() && f.index_of(rest[k].0, rest[k].1) == i;
                assert(ops[k] == rest[k]);
            }
            if exists|k: int| 0 <= k < ops.len() && f.index_of(ops[k].0, ops[k].1) == i {
                let k = choose|k: int| 0 <= k < ops.len() && f.index_of(ops[k].0, ops[k].1) == i;
                if k < rest.len() {
                    assert(rest[k] == ops[k]);
                }
            }
        }
    }
}

} // verus!
