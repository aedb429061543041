use vstd::prelude::*;

use crate::window::{Color, color_white, white};

verus! {

/// What a cell shows: its symbol and its two colours.
pub struct CellView {
    pub symbol: Seq<char>,
    pub fg: Color,
    pub bg: Color,
}

/// A cell that shows a space, white on the terminal's default background.
pub open spec fn blank_cell() -> CellView {
    CellView { symbol: seq![' '], fg: white(), bg: Color::Default }
}

/// What is read outside a frame: no symbol, white on the default background.
pub open spec fn outside_cell() -> CellView {
    CellView { symbol: Seq::empty(), fg: white(), bg: Color::Default }
}

/// One cell of a frame.
#[derive(Debug)]
pub struct FrameCell {
    pub symbol: String,
    pub fg: Color,
    pub bg: Color,
}

impl View for FrameCell {
    type V = CellView;

    open spec fn view(&self) -> CellView {
        CellView { symbol: self.symbol@, fg: self.fg, bg: self.bg }
    }
}

impl Clone for FrameCell {
    fn clone(&self) -> (r: Self)
        ensures
            r == *self,
    {
        FrameCell { symbol: self.symbol.clone(), fg: self.fg, bg: self.bg }
    }
}

impl PartialEq for FrameCell {
    fn eq(&self, other: &Self) -> (r: bool) {
        self.symbol == other.symbol && self.fg == other.fg && self.bg == other.bg
    }
}

impl vstd::std_specs::cmp::PartialEqSpecImpl for FrameCell {
    open spec fn obeys_eq_spec() -> bool {
        true
    }

    open spec fn eq_spec(&self, other: &FrameCell) -> bool {
        self@ == other@
    }
}

impl FrameCell {
    /// Whether two cells show the same thing.
    pub fn same_as(&self, other: &FrameCell) -> (r: bool)
        ensures
            r == (self@ == other@),
    {
        self.eq(other)
    }

    /// The cell that is read outside a frame.
    pub fn outside() -> (c: FrameCell)
        ensures
            c@ == outside_cell(),
    {
        FrameCell { symbol: String::new(), fg: color_white(), bg: Color::Default }
    }
}

impl Default for FrameCell {
    fn default() -> (c: FrameCell)
        ensures
            c@ == blank_cell(),
    {
        let symbol = String::from_str(" ");
        proof {
            reveal_strlit(" ");
            assert(symbol@ =~= seq![' ']);
        }
        FrameCell { symbol, fg: color_white(), bg: Color::Default }
    }
}

/// The text of a single character, as `char::to_string` gives it.
#[verifier::external_body]
fn char_string(ch: char) -> (s: String)
    ensures
        s@ == seq![ch],
{
    ch.to_string()
}

/// The characters of a string, in order, as `str::chars` yields them.
pub(crate) fn char_vec(s: &str) -> (v: Vec<char>)
    ensures
        v@ == s@,
{
    let mut v: Vec<char> = Vec::new();
    for ch in it: s.chars()
        invariant
            v@ == it.seq().take(it.index() as int),
    {
        v.push(ch);
    }
    v
}

/// An operation that brings a terminal from one frame to the next.
#[derive(Debug)]
pub enum DrawOp {
    Cell { x: u16, y: u16, cell: FrameCell },
    Flush,
}

pub enum DrawOpView {
    Cell { x: u16, y: u16, cell: CellView },
    Flush,
}

impl View for DrawOp {
    type V = DrawOpView;

    open spec fn view(&self) -> DrawOpView {
        match self {
            DrawOp::Cell { x, y, cell } => DrawOpView::Cell { x: *x, y: *y, cell: cell@ },
            DrawOp::Flush => DrawOpView::Flush,
        }
    }
}

impl Clone for DrawOp {
    fn clone(&self) -> (r: Self)
        ensures
            r@ == self@,
    {
        match self {
            DrawOp::Cell { x, y, cell } => DrawOp::Cell { x: *x, y: *y, cell: cell.clone() },
            DrawOp::Flush => DrawOp::Flush,
        }
    }
}

pub open spec fn ops_view(ops: Seq<DrawOp>) -> Seq<DrawOpView> {
    ops.map_values(|o: DrawOp| o@)
}

/// The contents of a frame: its size and its cells, row by row.
pub struct FrameView {
    pub width: u16,
    pub height: u16,
    pub cells: Seq<CellView>,
}

pub open spec fn min_nat(a: nat, b: nat) -> nat {
    if a <= b { a } else { b }
}

impl FrameView {
    pub open spec fn wf(self) -> bool {
        self.cells.len() == self.width * self.height
    }

    pub open spec fn in_bounds(self, x: int, y: int) -> bool {
        0 <= x < self.width && 0 <= y < self.height
    }

    /// Where the cell `(x, y)` is kept.
    pub open spec fn index(self, x: int, y: int) -> int {
        y * self.width + x
    }

    /// The cell at `(x, y)`, or the outside cell off the frame.
    pub open spec fn get(self, x: int, y: int) -> CellView {
        if self.in_bounds(x, y) {
            self.cells[self.index(x, y)]
        } else {
            outside_cell()
        }
    }

    /// The frame with the cell at `(x, y)` replaced; unchanged off the frame.
    pub open spec fn set(self, x: int, y: int, c: CellView) -> FrameView {
        if self.in_bounds(x, y) {
            FrameView { cells: self.cells.update(self.index(x, y), c), ..self }
        } else {
            self
        }
    }

    /// A frame of the given size whose cells are all blank.
    pub open spec fn blank(width: u16, height: u16) -> FrameView {
        FrameView { width, height, cells: Seq::new((width * height) as nat, |i: int| blank_cell()) }
    }

    /// The frame after `s` is written from `(x, y)` rightwards, one character
    /// per cell, cut at the right edge; unchanged when row `y` is off the frame.
    pub open spec fn write(self, x: u16, y: u16, s: Seq<char>, fg: Color, bg: Color) -> FrameView {
        let end = min_nat(x as nat + s.len(), self.width as nat);
        FrameView {
            cells: Seq::new(
                self.cells.len(),
                |k: int|
                    if y < self.height && self.index(x as int, y as int) <= k < self.index(
                        end as int,
                        y as int,
                    ) {
                        CellView { symbol: seq![s[k - self.index(x as int, y as int)]], fg, bg }
                    } else {
                        self.cells[k]
                    },
            ),
            ..self
        }
    }

    /// The operations for row `y`, columns `0..n`, where `a` and `b` differ.
    pub open spec fn diff_row(a: FrameView, b: FrameView, y: nat, n: nat) -> Seq<DrawOpView>
        decreases n,
    {
        if n == 0 {
            Seq::empty()
        } else {
            let x = (n - 1) as nat;
            let rest = FrameView::diff_row(a, b, y, x);
            if a.get(x as int, y as int) != b.get(x as int, y as int) {
                rest.push(DrawOpView::Cell { x: x as u16, y: y as u16, cell: b.get(x as int, y as int) })
            } else {
                rest
            }
        }
    }

    /// The operations for rows `0..m`, columns `0..w`, row by row.
    pub open spec fn diff_rows(a: FrameView, b: FrameView, m: nat, w: nat) -> Seq<DrawOpView>
        decreases m,
    {
        if m == 0 {
            Seq::empty()
        } else {
            FrameView::diff_rows(a, b, (m - 1) as nat, w) + FrameView::diff_row(a, b, (m - 1) as nat, w)
        }
    }

    /// The cells of the region the two frames share that `b` shows otherwise
    /// than `a`, row by row and left to right, each with `b`'s cell.
    pub open spec fn diff(a: FrameView, b: FrameView) -> Seq<DrawOpView> {
        FrameView::diff_rows(
            a,
            b,
            min_nat(a.height as nat, b.height as nat),
            min_nat(a.width as nat, b.width as nat),
        )
    }
}

/// A grid of cells the size of a window.
#[derive(Debug)]
pub struct Frame {
    cells: Vec<FrameCell>,
    pub(crate) width: u16,
    pub(crate) height: u16,
    outside: FrameCell,
}

pub(crate) proof fn lemma_index_in_bounds(w: int, h: int, x: int, y: int)
    requires
        0 <= x < w,
        0 <= y < h,
    ensures
        0 <= y * w + x < w * h,
        y * w + x + 1 <= w * h,
{
    assert(0 <= y * w) by (nonlinear_arith)
        requires
            0 <= y,
            0 <= w,
    ;
    assert(y * w + w <= h * w) by (nonlinear_arith)
        requires
            0 <= y < h,
            0 <= w,
    ;
    assert(h * w == w * h) by (nonlinear_arith);
}

pub(crate) proof fn lemma_index_unique(w: int, x1: int, y1: int, x2: int, y2: int)
    requires
        0 <= x1 < w,
        0 <= x2 < w,
        0 <= y1,
        0 <= y2,
        y1 * w + x1 == y2 * w + x2,
    ensures
        x1 == x2,
        y1 == y2,
{
    if y1 < y2 {
        assert((y1 + 1) * w <= y2 * w) by (nonlinear_arith)
            requires
                y1 + 1 <= y2,
                0 <= w,
        ;
        assert((y1 + 1) * w == y1 * w + w) by (nonlinear_arith);
    } else if y2 < y1 {
        assert((y2 + 1) * w <= y1 * w) by (nonlinear_arith)
            requires
                y2 + 1 <= y1,
                0 <= w,
        ;
        assert((y2 + 1) * w == y2 * w + w) by (nonlinear_arith);
    }
}

proof fn lemma_area_fits(w: u16, h: u16)
    ensures
        w * h <= 0xffff * 0xffff,
        0 <= w * h,
{
    assert(w * h <= 0xffff * 0xffff) by (nonlinear_arith)
        requires
            w <= 0xffff,
            h <= 0xffff,
    ;
    assert(0 <= w * h) by (nonlinear_arith)
        requires
            0 <= w,
            0 <= h,
    ;
}

/// A vector of `len` blank cells.
fn blank_cells(len: usize) -> (v: Vec<FrameCell>)
    ensures
        v@.len() == len,
        forall|i: int| 0 <= i < len ==> (#[trigger] v@[i])@ == blank_cell(),
{
    let mut v: Vec<FrameCell> = Vec::new();
    let mut i: usize = 0;
    while i < len
        invariant
            i <= len,
            v@.len() == i,
            forall|j: int| 0 <= j < i ==> (#[trigger] v@[j])@ == blank_cell(),
        decreases len - i,
    {
        v.push(FrameCell::default());
        i = i + 1;
    }
    v
}

impl View for Frame {
    type V = FrameView;

    closed spec fn view(&self) -> FrameView {
        FrameView {
            width: self.width,
            height: self.height,
            cells: self.cells@.map_values(|c: FrameCell| c@),
        }
    }
}

impl Clone for Frame {
    fn clone(&self) -> (f: Frame)
        ensures
            f@ == self@,
            f@.wf(),
    {
        proof {
            use_type_invariant(self);
        }
        let n = self.cells.len();
        let mut cells: Vec<FrameCell> = Vec::new();
        let mut i: usize = 0;
        while i < n
            invariant
                i <= n,
                n == self.cells@.len(),
                cells@.len() == i,
                forall|j: int| 0 <= j < i ==> (#[trigger] cells@[j])@ == self.cells@[j]@,
            decreases n - i,
        {
            cells.push(self.cells[i].clone());
            i = i + 1;
        }
        let f = Frame { cells, width: self.width, height: self.height, outside: FrameCell::outside() };
        assert(f@.cells =~= self@.cells);
        f
    }
}

impl Frame {
    #[verifier::type_invariant]
    spec fn inv(self) -> bool {
        &&& self.cells@.len() == self.width * self.height
        &&& self.outside@ == outside_cell()
    }

    /// A frame of `width` by `height` blank cells.
    pub fn new(width: u16, height: u16) -> (f: Frame)
        ensures
            f@ == FrameView::blank(width, height),
            f@.wf(),
    {
        proof {
            lemma_area_fits(width, height);
        }
        let len = (width as usize) * (height as usize);
        let cells = blank_cells(len);
        let f = Frame { cells, width, height, outside: FrameCell::outside() };
        assert(f@.cells =~= FrameView::blank(width, height).cells);
        f
    }

    /// The width and the height.
    pub fn size(&self) -> (r: (u16, u16))
        ensures
            r == (self@.width, self@.height),
            self@.wf(),
    {
        proof {
            use_type_invariant(self);
        }
        (self.width, self.height)
    }

    /// Makes every cell blank; the size stays.
    pub fn clear(&mut self)
        ensures
            final(self)@ == FrameView::blank(old(self)@.width, old(self)@.height),
            final(self)@.wf(),
    {
        let width = self.width;
        let height = self.height;
        *self = Frame::new(width, height);
    }

    /// Gives the frame a new size; every cell is blank afterwards.
    pub fn resize(&mut self, width: u16, height: u16)
        ensures
            final(self)@ == FrameView::blank(width, height),
            final(self)@.wf(),
    {
        proof {
            lemma_area_fits(width, height);
        }
        let len = (width as usize) * (height as usize);
        let cells = blank_cells(len);
        *self = Frame { cells, width, height, outside: FrameCell::outside() };
        assert(self@.cells =~= FrameView::blank(width, height).cells);
    }

    /// Replaces the cell at `(x, y)`; does nothing off the frame.
    pub fn set_cell(&mut self, x: u16, y: u16, cell: FrameCell)
        ensures
            old(self)@.wf(),
            final(self)@ == old(self)@.set(x as int, y as int, cell@),
            final(self)@.wf(),
    {
        proof {
            use_type_invariant(&*self);
        }
        if x < self.width && y < self.height {
            proof {
                lemma_index_in_bounds(self.width as int, self.height as int, x as int, y as int);
                lemma_area_fits(self.width, self.height);
            }
            let idx = (y as usize) * (self.width as usize) + (x as usize);
            let ghost cell_view = cell@;
            let mut taken = Frame { cells: Vec::new(), width: 0, height: 0, outside: FrameCell::outside() };
            std::mem::swap(self, &mut taken);
            let Frame { mut cells, width, height, outside } = taken;
            cells.set(idx, cell);
            *self = Frame { cells, width, height, outside };
            assert(self@.cells =~= old(self)@.cells.update(idx as int, cell_view));
        }
    }

    /// The cell at `(x, y)`; off the frame, a cell with no symbol.
    pub fn get_cell(&self, x: u16, y: u16) -> (c: &FrameCell)
        ensures
            c@ == self@.get(x as int, y as int),
            self@.wf(),
    {
        proof {
            use_type_invariant(self);
        }
        if x < self.width && y < self.height {
            proof {
                lemma_index_in_bounds(self.width as int, self.height as int, x as int, y as int);
                lemma_area_fits(self.width, self.height);
            }
            let idx = (y as usize) * (self.width as usize) + (x as usize);
            &self.cells[idx]
        } else {
            &self.outside
        }
    }

    /// Writes `s` from `(x, y)` rightwards, one character per cell, in the
    /// given colours; characters past the right edge are dropped.
    pub fn write_string(&mut self, x: u16, y: u16, s: &str, fg: Color, bg: Color)
        ensures
            old(self)@.wf(),
            final(self)@ == old(self)@.write(x, y, s@, fg, bg),
            final(self)@.wf(),
    {
        proof {
            use_type_invariant(&*self);
            assert(self@.cells =~= old(self)@.write(x, y, s@.take(0), fg, bg).cells);
        }
        let chars = char_vec(s);
        let n = chars.len();
        let mut i: usize = 0;
        while i < n && x as usize + i < self.width as usize
            invariant
                i <= n,
                n == chars@.len(),
                chars@ == s@,
                x + i <= self@.width || i == 0,
                self@ == old(self)@.write(x, y, s@.take(i as int), fg, bg),
            decreases n - i,
        {
            let cx = (x as usize + i) as u16;
            proof {
                use_type_invariant(&*self);
                if y < self@.height {
                    lemma_index_in_bounds(self@.width as int, self@.height as int, cx as int, y as int);
                }
            }
            let symbol = char_string(chars[i]);
            self.set_cell(cx, y, FrameCell { symbol, fg, bg });
            proof {
                assert(self@.cells =~= old(self)@.write(x, y, s@.take(i + 1), fg, bg).cells);
            }
            i = i + 1;
        }
        proof {
            use_type_invariant(&*self);
            assert(self@.cells =~= old(self)@.write(x, y, s@, fg, bg).cells);
        }
    }

    /// The operations that turn a terminal showing `self` into one showing
    /// `other`: one for each cell of their common region that differs, row by
    /// row and left to right, carrying `other`'s cell.
    pub fn diff(&self, other: &Frame) -> (ops: Vec<DrawOp>)
        ensures
            ops_view(ops@) == FrameView::diff(self@, other@),
            self@.wf(),
            other@.wf(),
    {
        proof {
            use_type_invariant(self);
            use_type_invariant(other);
        }
        let mut ops: Vec<DrawOp> = Vec::new();
        let mh = if self.height <= other.height { self.height } else { other.height };
        let mw = if self.width <= other.width { self.width } else { other.width };
        let mut y: u16 = 0;
        while y < mh
            invariant
                y <= mh,
                mh as nat == min_nat(self@.height as nat, other@.height as nat),
                mw as nat == min_nat(self@.width as nat, other@.width as nat),
                ops_view(ops@) == FrameView::diff_rows(self@, other@, y as nat, mw as nat),
            decreases mh - y,
        {
            let mut x: u16 = 0;
            while x < mw
                invariant
                    x <= mw,
                    y < mh,
                    ops_view(ops@) == FrameView::diff_rows(self@, other@, y as nat, mw as nat)
                        + FrameView::diff_row(self@, other@, y as nat, x as nat),
                decreases mw - x,
            {
                let a = self.get_cell(x, y);
                let b = other.get_cell(x, y);
                let ghost prev = ops@;
                if !a.same_as(b) {
                    ops.push(DrawOp::Cell { x, y, cell: b.clone() });
                    assert(ops_view(ops@) =~= ops_view(prev).push(ops@.last()@));
                }
                x = x + 1;
            }
            y = y + 1;
        }
        ops
    }
}

} // verus!