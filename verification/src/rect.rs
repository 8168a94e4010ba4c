use vstd::prelude::*;

verus! {

/// Largest coordinate a rectangle corner may have; maps are far smaller.
pub const COORD_LIMIT: i32 = 1_000_000;

/// An axis-aligned rectangle with corners `(x1, y1)` and `(x2, y2)`; a room drawn as a
/// circle records twice its radius (the radius itself may be a half).
#[derive(Clone, Copy, Debug, PartialEq, Eq, Structural)]
pub struct Rect {
    pub x1: i32,
    pub x2: i32,
    pub y1: i32,
    pub y2: i32,
    pub radius_doubled: Option<i32>,
}

/// The midpoint of a rectangle, rounded down.
pub open spec fn spec_center(r: Rect) -> (int, int) {
    ((r.x1 + r.x2) / 2, (r.y1 + r.y2) / 2)
}

/// Two rectangles overlap or touch.
pub open spec fn spec_intersect(a: Rect, b: Rect) -> bool {
    a.x1 <= b.x2 && a.x2 >= b.x1 && a.y1 <= b.y2 && a.y2 >= b.y1
}

impl Rect {
    /// Corners are ordered and lie between zero and `COORD_LIMIT`; a circle's diameter is
    /// the rectangle's smaller side.
    pub open spec fn wf(&self) -> bool {
        &&& 0 <= self.x1 <= self.x2 <= COORD_LIMIT
        &&& 0 <= self.y1 <= self.y2 <= COORD_LIMIT
        &&& match self.radius_doubled {
            Some(m) => m == if self.x2 - self.x1 <= self.y2 - self.y1 { self.x2 - self.x1 } else { self.y2 - self.y1 },
            None => true,
        }
    }

    /// The rectangle with top-left corner `(x, y)`, `w` wide and `h` high.
    pub fn new(x: i32, y: i32, w: i32, h: i32) -> (r: Rect)
        requires
            0 <= x,
            0 <= y,
            0 <= w,
            0 <= h,
            x + w <= COORD_LIMIT,
            y + h <= COORD_LIMIT,
        ensures
            r.wf(),
            r.x1 == x,
            r.y1 == y,
            r.x2 == x + w,
            r.y2 == y + h,
            r.radius_doubled.is_none(),
    {
        Rect { x1: x, y1: y, x2: x + w, y2: y + h, radius_doubled: None }
    }

    /// Whether this rectangle overlaps or touches `other`.
    pub fn intersect(&self, other: &Rect) -> (b: bool)
        ensures
            b == spec_intersect(*self, *other),
    {
        self.x1 <= other.x2 && self.x2 >= other.x1 && self.y1 <= other.y2 && self.y2 >= other.y1
    }

    /// The midpoint, rounded down.
    pub fn center(&self) -> (c: (i32, i32))
        requires
            self.wf(),
        ensures
            c.0 == spec_center(*self).0,
            c.1 == spec_center(*self).1,
            self.x1 <= c.0 <= self.x2,
            self.y1 <= c.1 <= self.y2,
    {
        ((self.x1 + self.x2) / 2, (self.y1 + self.y2) / 2)
    }
}

/// Overlap is symmetric: `a` meets `b` exactly when `b` meets `a`.
pub proof fn lemma_intersect_symmetric(a: Rect, b: Rect)
    ensures
        spec_intersect(a, b) == spec_intersect(b, a),
{
}

/// A well-formed rectangle meets itself.
pub proof fn lemma_intersect_reflexive(a: Rect)
    requires
        a.wf(),
    ensures
        spec_intersect(a, a),
{
}

/// The tile `(x, y)` lies in `r`, its edges included.
pub open spec fn covers(r: Rect, x: int, y: int) -> bool {
    r.x1 <= x <= r.x2 && r.y1 <= y <= r.y2
}

/// Two well-formed rectangles meet exactly when some tile lies in both of them.
pub proof fn lemma_intersect_shares_a_tile(a: Rect, b: Rect)
    requires
        a.wf(),
        b.wf(),
    ensures
        spec_intersect(a, b) <==> exists|x: int, y: int| #[trigger] covers(a, x, y) && #[trigger] covers(b, x, y),
{
    if spec_intersect(a, b) {
        let x = if a.x1 <= b.x1 { b.x1 as int } else { a.x1 as int };
        let y = if a.y1 <= b.y1 { b.y1 as int } else { a.y1 as int };
        assert(covers(a, x, y) && covers(b, x, y));
    }
}

/// The centre of a rectangle is halfway between its corners on each axis, rounded down:
/// twice the centre is the sum of the corners, or one less.
pub proof fn lemma_center_is_midpoint(r: Rect)
    ensures
        2 * spec_center(r).0 <= r.x1 + r.x2 <= 2 * spec_center(r).0 + 1,
        2 * spec_center(r).1 <= r.y1 + r.y2 <= 2 * spec_center(r).1 + 1,
{
}

} // verus!
