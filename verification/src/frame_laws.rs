//! What holds of frames across operations: reads after writes, and that
//! the difference of two frames turns one into the other.
use vstd::prelude::*;

use crate::frame::{
    CellView, DrawOpView, FrameView, blank_cell, lemma_index_in_bounds, lemma_index_unique, min_nat,
    outside_cell,
};
use crate::window::Color;

verus! {

/// A frame after one drawing operation: a cell operation replaces that cell,
/// a flush leaves the frame as it is.
pub open spec fn apply_op(f: FrameView, op: DrawOpView) -> FrameView {
    match op {
        DrawOpView::Cell { x, y, cell } => f.set(x as int, y as int, cell),
        DrawOpView::Flush => f,
    }
}

/// A frame after a sequence of drawing operations, applied in order.
pub open spec fn apply_ops(f: FrameView, ops: Seq<DrawOpView>) -> FrameView
    decreases ops.len(),
{
    if ops.len() == 0 {
        f
    } else {
        apply_op(apply_ops(f, ops.drop_last()), ops.last())
    }
}

/// Reading a cell after replacing one gives the new cell at that place and
/// the old cell everywhere else.
pub proof fn lemma_get_after_set(f: FrameView, x: int, y: int, c: CellView, x2: int, y2: int)
    requires
        f.wf(),
    ensures
        f.set(x, y, c).get(x2, y2) == (if x2 == x && y2 == y && f.in_bounds(x, y) {
            c
        } else {
            f.get(x2, y2)
        }),
        f.set(x, y, c).wf(),
        f.set(x, y, c).width == f.width,
        f.set(x, y, c).height == f.height,
{
    if f.in_bounds(x, y) {
        lemma_index_in_bounds(f.width as int, f.height as int, x, y);
        if f.in_bounds(x2, y2) {
            lemma_index_in_bounds(f.width as int, f.height as int, x2, y2);
            if f.index(x, y) == f.index(x2, y2) {
                lemma_index_unique(f.width as int, x, y, x2, y2);
            }
        }
    }
}

/// Every cell of a new frame is blank; off the frame, the outside cell is read.
pub proof fn lemma_blank_get(width: u16, height: u16, x: int, y: int)
    ensures
        FrameView::blank(width, height).wf(),
        FrameView::blank(width, height).get(x, y) == (if 0 <= x < width && 0 <= y < height {
            blank_cell()
        } else {
            outside_cell()
        }),
{
    let f = FrameView::blank(width, height);
    assert(0 <= width * height) by (nonlinear_arith);
    if f.in_bounds(x, y) {
        lemma_index_in_bounds(width as int, height as int, x, y);
    }
}

/// Reading a cell after a string was written: the cells of row `y` from
/// column `x` on, as far as the string and the frame reach, show its
/// characters in order; every other cell is as it was.
pub proof fn lemma_get_after_write(
    f: FrameView,
    x: u16,
    y: u16,
    s: Seq<char>,
    fg: Color,
    bg: Color,
    cx: int,
    cy: int,
)
    requires
        f.wf(),
    ensures
        f.write(x, y, s, fg, bg).wf(),
        f.write(x, y, s, fg, bg).get(cx, cy) == (if cy == y && f.in_bounds(cx, cy) && x <= cx < x
            + s.len() {
            CellView { symbol: seq![s[cx - x]], fg, bg }
        } else {
            f.get(cx, cy)
        }),
{
    let g = f.write(x, y, s, fg, bg);
    if f.in_bounds(cx, cy) {
        lemma_index_in_bounds(f.width as int, f.height as int, cx, cy);
        let k = f.index(cx, cy);
        let end = min_nat(x as nat + s.len(), f.width as nat);
        if y < f.height && f.index(x as int, y as int) <= k < f.index(end as int, y as int) {
            // the written range lies in row `y`
            if cy < y {
                assert((cy + 1) * f.width <= y * f.width) by (nonlinear_arith)
                    requires
                        cy + 1 <= y,
                        0 <= f.width,
                ;
                assert((cy + 1) * f.width == cy * f.width + f.width) by (nonlinear_arith);
            } else if cy > y {
                assert((y + 1) * f.width <= cy * f.width) by (nonlinear_arith)
                    requires
                        y + 1 <= cy,
                        0 <= f.width,
                ;
                assert((y + 1) * f.width == y * f.width + f.width) by (nonlinear_arith);
            }
        } else if cy == y && x <= cx < x + s.len() {
            assert(cx < end);
        }
    }
}

/// The difference of a frame with itself is empty.
pub proof fn lemma_diff_self(f: FrameView)
    ensures
        FrameView::diff(f, f) == Seq::<DrawOpView>::empty(),
{
    let m = min_nat(f.height as nat, f.height as nat);
    let w = min_nat(f.width as nat, f.width as nat);
    lemma_diff_rows_self(f, m, w);
}

proof fn lemma_diff_row_self(f: FrameView, y: nat, n: nat)
    ensures
        FrameView::diff_row(f, f, y, n) == Seq::<DrawOpView>::empty(),
    decreases n,
{
    if n > 0 {
        lemma_diff_row_self(f, y, (n - 1) as nat);
    }
}

proof fn lemma_diff_rows_self(f: FrameView, m: nat, w: nat)
    ensures
        FrameView::diff_rows(f, f, m, w) == Seq::<DrawOpView>::empty(),
    decreases m,
{
    if m > 0 {
        lemma_diff_rows_self(f, (m - 1) as nat, w);
        lemma_diff_row_self(f, (m - 1) as nat, w);
        assert(Seq::<DrawOpView>::empty() + Seq::<DrawOpView>::empty() =~= Seq::<
            DrawOpView,
        >::empty());
    }
}

/// What an operation of a frame difference is: a cell of the common region
/// where the two frames differ, carrying the second frame's cell.
pub open spec fn is_diff_op(a: FrameView, b: FrameView, op: DrawOpView) -> bool {
    match op {
        DrawOpView::Cell { x, y, cell } => {
            &&& x < min_nat(a.width as nat, b.width as nat)
            &&& y < min_nat(a.height as nat, b.height as nat)
            &&& a.get(x as int, y as int) != b.get(x as int, y as int)
            &&& cell == b.get(x as int, y as int)
        },
        DrawOpView::Flush => false,
    }
}

/// The place of a cell operation in row-major order, for a row width `w`.
pub open spec fn op_rank(op: DrawOpView, w: nat) -> int {
    match op {
        DrawOpView::Cell { x, y, cell } => y * w + x,
        DrawOpView::Flush => -1,
    }
}

proof fn lemma_diff_row_ops(a: FrameView, b: FrameView, y: nat, n: nat)
    requires
        y < min_nat(a.height as nat, b.height as nat),
        n <= min_nat(a.width as nat, b.width as nat),
    ensures
        forall|i: int|
            0 <= i < FrameView::diff_row(a, b, y, n).len() ==> {
                let op = #[trigger] FrameView::diff_row(a, b, y, n)[i];
                &&& is_diff_op(a, b, op)
                &&& op matches DrawOpView::Cell { x, y: oy, cell } && oy == y && x < n
            },
        forall|i: int, j: int|
            0 <= i < j < FrameView::diff_row(a, b, y, n).len() ==> op_rank(
                #[trigger] FrameView::diff_row(a, b, y, n)[i],
                1,
            ) < op_rank(#[trigger] FrameView::diff_row(a, b, y, n)[j], 1),
    decreases n,
{
    if n > 0 {
        lemma_diff_row_ops(a, b, y, (n - 1) as nat);
    }
}

proof fn lemma_diff_rows_ops(a: FrameView, b: FrameView, m: nat, w: nat)
    requires
        m <= min_nat(a.height as nat, b.height as nat),
        w == min_nat(a.width as nat, b.width as nat),
    ensures
        forall|i: int|
            0 <= i < FrameView::diff_rows(a, b, m, w).len() ==> {
                let op = #[trigger] FrameView::diff_rows(a, b, m, w)[i];
                &&& is_diff_op(a, b, op)
                &&& op matches DrawOpView::Cell { x, y, cell } && y < m
            },
        forall|i: int, j: int|
            0 <= i < j < FrameView::diff_rows(a, b, m, w).len() ==> op_rank(
                #[trigger] FrameView::diff_rows(a, b, m, w)[i],
                w,
            ) < op_rank(#[trigger] FrameView::diff_rows(a, b, m, w)[j], w),
    decreases m,
{
    if m > 0 {
        let y = (m - 1) as nat;
        lemma_diff_rows_ops(a, b, y, w);
        lemma_diff_row_ops(a, b, y, w);
        let r = FrameView::diff_rows(a, b, y, w);
        let row = FrameView::diff_row(a, b, y, w);
        let s = r + row;
        assert forall|i: int, j: int| 0 <= i < j < s.len() implies op_rank(#[trigger] s[i], w)
            < op_rank(#[trigger] s[j], w) by {
            if j < r.len() {
                assert(s[i] == r[i] && s[j] == r[j]);
            } else if i >= r.len() {
                assert(s[i] == row[i - r.len()] && s[j] == row[j - r.len()]);
                let oi = row[i - r.len()];
                let oj = row[j - r.len()];
                assert(op_rank(oi, 1) < op_rank(oj, 1));
                if let DrawOpView::Cell { x: xi, y: yi, cell: ci } = oi {
                    if let DrawOpView::Cell { x: xj, y: yj, cell: cj } = oj {
                        assert(yi == yj);
                    }
                }
            } else {
                assert(s[i] == r[i] && s[j] == row[j - r.len()]);
                let oi = r[i];
                let oj = row[j - r.len()];
                if let DrawOpView::Cell { x: xi, y: yi, cell: ci } = oi {
                    if let DrawOpView::Cell { x: xj, y: yj, cell: cj } = oj {
                        assert(yi + 1 <= yj);
                        assert((yi + 1) * w <= yj * w) by (nonlinear_arith)
                            requires
                                yi + 1 <= yj,
                                0 <= w,
                        ;
                        assert((yi + 1) * w == yi * w + w) by (nonlinear_arith);
                    }
                }
            }
        }
        assert forall|i: int| 0 <= i < s.len() implies {
            let op = #[trigger] s[i];
            &&& is_diff_op(a, b, op)
            &&& op matches DrawOpView::Cell { x, y: oy, cell } && oy < m
        } by {
            if i < r.len() {
                assert(s[i] == r[i]);
            } else {
                assert(s[i] == row[i - r.len()]);
            }
        }
    }
}

/// Every operation of the difference of `a` and `b` is a cell where the two
/// frames differ, carrying `b`'s cell, and the operations come in strict
/// row-major order, so no cell is named twice.
pub proof fn lemma_diff_sound(a: FrameView, b: FrameView)
    ensures
        forall|i: int|
            0 <= i < FrameView::diff(a, b).len() ==> is_diff_op(
                a,
                b,
                #[trigger] FrameView::diff(a, b)[i],
            ),
        forall|i: int, j: int|
            0 <= i < j < FrameView::diff(a, b).len() ==> op_rank(
                #[trigger] FrameView::diff(a, b)[i],
                min_nat(a.width as nat, b.width as nat),
            ) < op_rank(
                #[trigger] FrameView::diff(a, b)[j],
                min_nat(a.width as nat, b.width as nat),
            ),
{
    lemma_diff_rows_ops(
        a,
        b,
        min_nat(a.height as nat, b.height as nat),
        min_nat(a.width as nat, b.width as nat),
    );
}

proof fn lemma_diff_row_complete(a: FrameView, b: FrameView, y: nat, n: nat, x: nat)
    requires
        x < n,
        a.get(x as int, y as int) != b.get(x as int, y as int),
    ensures
        FrameView::diff_row(a, b, y, n).contains(
            DrawOpView::Cell { x: x as u16, y: y as u16, cell: b.get(x as int, y as int) },
        ),
    decreases n,
{
    let op = DrawOpView::Cell { x: x as u16, y: y as u16, cell: b.get(x as int, y as int) };
    let r = FrameView::diff_row(a, b, y, (n - 1) as nat);
    if x < n - 1 {
        lemma_diff_row_complete(a, b, y, (n - 1) as nat, x);
        let i = choose|i: int| 0 <= i < r.len() && r[i] == op;
        assert(FrameView::diff_row(a, b, y, n)[i] == op);
    } else {
        assert(FrameView::diff_row(a, b, y, n).last() == op);
    }
}

proof fn lemma_diff_rows_complete(a: FrameView, b: FrameView, m: nat, w: nat, x: nat, y: nat)
    requires
        x < w,
        y < m,
        a.get(x as int, y as int) != b.get(x as int, y as int),
    ensures
        FrameView::diff_rows(a, b, m, w).contains(
            DrawOpView::Cell { x: x as u16, y: y as u16, cell: b.get(x as int, y as int) },
        ),
    decreases m,
{
    let op = DrawOpView::Cell { x: x as u16, y: y as u16, cell: b.get(x as int, y as int) };
    let r = FrameView::diff_rows(a, b, (m - 1) as nat, w);
    let row = FrameView::diff_row(a, b, (m - 1) as nat, w);
    if y < m - 1 {
        lemma_diff_rows_complete(a, b, (m - 1) as nat, w, x, y);
        let i = choose|i: int| 0 <= i < r.len() && r[i] == op;
        assert((r + row)[i] == op);
    } else {
        lemma_diff_row_complete(a, b, (m - 1) as nat, w, x);
        let i = choose|i: int| 0 <= i < row.len() && row[i] == op;
        assert((r + row)[r.len() + i] == op);
    }
}

/// Every cell of the common region where the two frames differ is named by
/// an operation of their difference, with `b`'s cell.
pub proof fn lemma_diff_complete(a: FrameView, b: FrameView, x: nat, y: nat)
    requires
        x < min_nat(a.width as nat, b.width as nat),
        y < min_nat(a.height as nat, b.height as nat),
        a.get(x as int, y as int) != b.get(x as int, y as int),
    ensures
        FrameView::diff(a, b).contains(
            DrawOpView::Cell { x: x as u16, y: y as u16, cell: b.get(x as int, y as int) },
        ),
{
    lemma_diff_rows_complete(
        a,
        b,
        min_nat(a.height as nat, b.height as nat),
        min_nat(a.width as nat, b.width as nat),
        x,
        y,
    );
}

proof fn lemma_apply_concat(f: FrameView, s1: Seq<DrawOpView>, s2: Seq<DrawOpView>)
    ensures
        apply_ops(f, s1 + s2) == apply_ops(apply_ops(f, s1), s2),
    decreases s2.len(),
{
    if s2.len() == 0 {
        assert(s1 + s2 =~= s1);
    } else {
        lemma_apply_concat(f, s1, s2.drop_last());
        assert((s1 + s2).drop_last() =~= s1 + s2.drop_last());
        assert((s1 + s2).last() == s2.last());
    }
}

/// Applying one row of the difference of `a` and `b` to a frame that agrees
/// with `a` on that row makes the row agree with `b` and leaves the rest.
proof fn lemma_apply_row(a: FrameView, b: FrameView, f: FrameView, y: nat, n: nat)
    requires
        a.wf(),
        b.wf(),
        f.wf(),
        a.width == b.width && b.width == f.width,
        a.height == b.height && b.height == f.height,
        y < f.height,
        n <= f.width,
        forall|x: int| 0 <= x < n ==> #[trigger] f.get(x, y as int) == a.get(x, y as int),
    ensures
        ({
            let g = apply_ops(f, FrameView::diff_row(a, b, y, n));
            &&& g.wf()
            &&& g.width == f.width
            &&& g.height == f.height
            &&& forall|x: int, yy: int| #[trigger]
                g.get(x, yy) == (if yy == y && 0 <= x < n {
                    b.get(x, yy)
                } else {
                    f.get(x, yy)
                })
        }),
    decreases n,
{
    if n > 0 {
        let x0 = (n - 1) as nat;
        lemma_apply_row(a, b, f, y, x0);
        let g0 = apply_ops(f, FrameView::diff_row(a, b, y, x0));
        let ops = FrameView::diff_row(a, b, y, n);
        if a.get(x0 as int, y as int) != b.get(x0 as int, y as int) {
            let op = DrawOpView::Cell { x: x0 as u16, y: y as u16, cell: b.get(x0 as int, y as int) };
            assert(ops.drop_last() == FrameView::diff_row(a, b, y, x0));
            let g = apply_ops(f, ops);
            assert(g == g0.set(x0 as int, y as int, b.get(x0 as int, y as int)));
            assert forall|x: int, yy: int| #[trigger]
                g.get(x, yy) == (if yy == y && 0 <= x < n {
                    b.get(x, yy)
                } else {
                    f.get(x, yy)
                }) by {
                lemma_get_after_set(g0, x0 as int, y as int, b.get(x0 as int, y as int), x, yy);
            }
            lemma_get_after_set(g0, x0 as int, y as int, b.get(x0 as int, y as int), 0, 0);
        } else {
            assert(ops == FrameView::diff_row(a, b, y, x0));
            assert(f.get(x0 as int, y as int) == a.get(x0 as int, y as int));
        }
    }
}

proof fn lemma_apply_rows(a: FrameView, b: FrameView, m: nat)
    requires
        a.wf(),
        b.wf(),
        a.width == b.width,
        a.height == b.height,
        m <= a.height,
    ensures
        ({
            let g = apply_ops(a, FrameView::diff_rows(a, b, m, a.width as nat));
            &&& g.wf()
            &&& g.width == a.width
            &&& g.height == a.height
            &&& forall|x: int, y: int| #[trigger]
                g.get(x, y) == (if 0 <= y < m && 0 <= x < a.width {
                    b.get(x, y)
                } else {
                    a.get(x, y)
                })
        }),
    decreases m,
{
    if m > 0 {
        let y = (m - 1) as nat;
        let w = a.width as nat;
        lemma_apply_rows(a, b, y);
        let r = FrameView::diff_rows(a, b, y, w);
        let row = FrameView::diff_row(a, b, y, w);
        let g0 = apply_ops(a, r);
        lemma_apply_concat(a, r, row);
        lemma_apply_row(a, b, g0, y, w);
    }
}

/// A place `k` of a grid `w` wide and `h` high lies at column `k % w` of
/// row `k / w`.
proof fn lemma_index_cover(w: int, h: int, k: int)
    requires
        0 <= k < w * h,
        0 <= w,
        0 <= h,
    ensures
        w > 0,
        0 <= k % w < w,
        0 <= k / w < h,
        k == (k / w) * w + k % w,
{
    if w == 0 {
        assert(w * h == 0) by (nonlinear_arith)
            requires
                w == 0,
        ;
    }
    vstd::arithmetic::div_mod::lemma_fundamental_div_mod(k, w);
    assert(w * (k / w) == (k / w) * w) by (nonlinear_arith);
    vstd::arithmetic::div_mod::lemma_mod_bound(k, w);
    vstd::arithmetic::div_mod::lemma_div_pos_is_pos(k, w);
    if k / w >= h {
        assert((k / w) * w >= h * w) by (nonlinear_arith)
            requires
                k / w >= h,
                w > 0,
        ;
        assert(h * w == w * h) by (nonlinear_arith);
    }
}

/// Two frames of one size that show the same cell at every place are equal.
pub proof fn lemma_frame_ext(f: FrameView, g: FrameView)
    requires
        f.wf(),
        g.wf(),
        f.width == g.width,
        f.height == g.height,
        forall|x: int, y: int| f.in_bounds(x, y) ==> #[trigger] f.get(x, y) == g.get(x, y),
    ensures
        f == g,
{
    assert forall|k: int| 0 <= k < f.cells.len() implies f.cells[k] == g.cells[k] by {
        lemma_index_cover(f.width as int, f.height as int, k);
        let x = k % (f.width as int);
        let y = k / (f.width as int);
        assert(f.get(x, y) == g.get(x, y));
    }
    assert(f.cells =~= g.cells);
}

/// A terminal that shows `prev` shows `current` once the difference of the
/// two frames has been drawn, when both have the same size.
pub proof fn lemma_apply_diff(prev: FrameView, current: FrameView)
    requires
        prev.wf(),
        current.wf(),
        prev.width == current.width,
        prev.height == current.height,
    ensures
        apply_ops(prev, FrameView::diff(prev, current)) == current,
{
    lemma_apply_rows(prev, current, prev.height as nat);
    let g = apply_ops(prev, FrameView::diff(prev, current));
    assert(FrameView::diff(prev, current) == FrameView::diff_rows(
        prev,
        current,
        prev.height as nat,
        prev.width as nat,
    ));
    assert forall|x: int, y: int| g.in_bounds(x, y) implies #[trigger] g.get(x, y) == current.get(
        x,
        y,
    ) by {}
    lemma_frame_ext(g, current);
}

} // verus!
