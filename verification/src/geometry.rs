use vstd::prelude::*;

verus! {

/// The sum `a + b`, clamped at `u16::MAX`.
pub open spec fn sat_add(a: u16, b: u16) -> u16 {
    if a + b > u16::MAX { u16::MAX } else { (a + b) as u16 }
}

/// The difference `a - b`, clamped at zero.
pub open spec fn sat_sub(a: u16, b: u16) -> u16 {
    if a <= b { 0 } else { (a - b) as u16 }
}

pub open spec fn max_u16(a: u16, b: u16) -> u16 {
    if a >= b { a } else { b }
}

pub open spec fn min_u16(a: u16, b: u16) -> u16 {
    if a <= b { a } else { b }
}

/// A rectangle of terminal cells: its top-left corner and its size.
#[derive(Debug, Clone, Copy, PartialEq, Eq, Structural)]
pub struct Rect {
    pub x: u16,
    pub y: u16,
    pub width: u16,
    pub height: u16,
}

impl Rect {
    /// One column past the right edge, clamped at `u16::MAX`.
    pub open spec fn right(self) -> u16 {
        sat_add(self.x, self.width)
    }

    /// One row past the bottom edge, clamped at `u16::MAX`.
    pub open spec fn bottom(self) -> u16 {
        sat_add(self.y, self.height)
    }

    /// Whether the cell `(x, y)` lies inside the (clamped) rectangle.
    pub open spec fn spec_contains(self, x: u16, y: u16) -> bool {
        &&& self.x <= x
        &&& x < self.right()
        &&& self.y <= y
        &&& y < self.bottom()
    }

    /// The overlap of two rectangles, computed on clamped edges.
    pub open spec fn spec_intersection(self, other: Rect) -> Rect {
        let x = max_u16(self.x, other.x);
        let y = max_u16(self.y, other.y);
        let x2 = min_u16(self.right(), other.right());
        let y2 = min_u16(self.bottom(), other.bottom());
        Rect { x, y, width: sat_sub(x2, x), height: sat_sub(y2, y) }
    }

    pub open spec fn spec_is_empty(self) -> bool {
        self.width == 0 || self.height == 0
    }

    /// The rectangle at the origin with no extent.
    pub fn zero() -> (r: Rect)
        ensures
            r == (Rect { x: 0, y: 0, width: 0, height: 0 }),
    {
        Rect { x: 0, y: 0, width: 0, height: 0 }
    }

    pub fn new(x: u16, y: u16, width: u16, height: u16) -> (r: Rect)
        ensures
            r == (Rect { x, y, width, height }),
    {
        Rect { x, y, width, height }
    }

    /// The same corner with a new size.
    pub fn resize(self, width: u16, height: u16) -> (r: Rect)
        ensures
            r == (Rect { x: self.x, y: self.y, width, height }),
    {
        Rect { x: self.x, y: self.y, width, height }
    }

    pub fn contains(&self, x: u16, y: u16) -> (b: bool)
        ensures
            b == self.spec_contains(x, y),
    {
        x >= self.x && x < self.x.saturating_add(self.width) && y >= self.y && y
            < self.y.saturating_add(self.height)
    }

    pub fn intersection(&self, other: &Rect) -> (r: Rect)
        ensures
            r == self.spec_intersection(*other),
    {
        let x = if self.x >= other.x { self.x } else { other.x };
        let y = if self.y >= other.y { self.y } else { other.y };
        let r1 = self.x.saturating_add(self.width);
        let r2 = other.x.saturating_add(other.width);
        let x2 = if r1 <= r2 { r1 } else { r2 };
        let b1 = self.y.saturating_add(self.height);
        let b2 = other.y.saturating_add(other.height);
        let y2 = if b1 <= b2 { b1 } else { b2 };
        Rect { x, y, width: x2.saturating_sub(x), height: y2.saturating_sub(y) }
    }

    pub fn is_empty(&self) -> (b: bool)
        ensures
            b == self.spec_is_empty(),
    {
        self.width == 0 || self.height == 0
    }
}

impl Default for Rect {
    fn default() -> (r: Rect)
        ensures
            r == (Rect { x: 0, y: 0, width: 0, height: 0 }),
    {
        Rect { x: 0, y: 0, width: 0, height: 0 }
    }
}

/// The overlap of two rectangles does not depend on their order.
pub proof fn lemma_intersection_commutes(a: Rect, b: Rect)
    ensures
        a.spec_intersection(b) == b.spec_intersection(a),
{
}

/// A cell lies in the overlap of two rectangles exactly when it lies in both.
pub proof fn lemma_intersection_contains(a: Rect, b: Rect, x: u16, y: u16)
    ensures
        a.spec_intersection(b).spec_contains(x, y) <==> (a.spec_contains(x, y)
            && b.spec_contains(x, y)),
{
}

/// The overlap of two rectangles is empty exactly when no cell lies in both.
pub proof fn lemma_intersection_empty(a: Rect, b: Rect)
    ensures
        a.spec_intersection(b).spec_is_empty() <==> !(exists|x: u16, y: u16|
            a.spec_contains(x, y) && b.spec_contains(x, y)),
{
    let i = a.spec_intersection(b);
    if !i.spec_is_empty() {
        assert(a.spec_contains(i.x, i.y) && b.spec_contains(i.x, i.y));
    } else {
        assert forall|x: u16, y: u16| !(a.spec_contains(x, y) && b.spec_contains(x, y)) by {
            lemma_intersection_contains(a, b, x, y);
        }
    }
}

/// A rectangle whose edges fit in `u16` overlaps itself exactly.
pub proof fn lemma_intersection_idempotent(a: Rect)
    requires
        a.x + a.width <= u16::MAX,
        a.y + a.height <= u16::MAX,
    ensures
        a.spec_intersection(a) == a,
{
}

/// A cell inside a rectangle stays inside after a resize that does not shrink it.
pub proof fn lemma_resize_grows(a: Rect, width: u16, height: u16, x: u16, y: u16)
    requires
        a.width <= width,
        a.height <= height,
        a.spec_contains(x, y),
    ensures
        (Rect { x: a.x, y: a.y, width, height }).spec_contains(x, y),
{
}

} // verus!
