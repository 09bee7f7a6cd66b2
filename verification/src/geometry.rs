use vstd::prelude::*;

verus! {

/// A position on the lattice, in ticks along each axis.
#[derive(Clone, Copy, Debug, PartialEq, Eq, Structural)]
pub struct Point {
    pub x: i64,
    pub y: i64,
}

impl Point {
    pub fn new(x: i64, y: i64) -> (p: Point)
        ensures
            p == (Point { x, y }),
    {
        Point { x, y }
    }
}

/// An axis-aligned bounding box given by its least and greatest corner.
///
/// A box built with [`Rect::new`] is always well formed. One written out
/// field by field may be degenerate, which [`Rect::wf`] tells.
#[derive(Clone, Copy, Debug, PartialEq, Eq, Structural)]
pub struct Rect {
    pub min: Point,
    pub max: Point,
}

pub open spec fn least(a: i64, b: i64) -> i64 {
    if a <= b {
        a
    } else {
        b
    }
}

pub open spec fn greatest(a: i64, b: i64) -> i64 {
    if a <= b {
        b
    } else {
        a
    }
}

impl Rect {
    /// The box holds at least one point: `min` is below or at `max` on both axes.
    pub open spec fn wf(self) -> bool {
        self.min.x <= self.max.x && self.min.y <= self.max.y
    }

    /// Whether `p` lies inside the box, borders included.
    pub open spec fn contains(self, p: Point) -> bool {
        self.min.x <= p.x <= self.max.x && self.min.y <= p.y <= self.max.y
    }

    /// The box spanned by two opposite corners, given in any order.
    pub fn new(a: Point, b: Point) -> (rect: Rect)
        ensures
            rect.wf(),
            rect.min == (Point { x: least(a.x, b.x), y: least(a.y, b.y) }),
            rect.max == (Point { x: greatest(a.x, b.x), y: greatest(a.y, b.y) }),
    {
        let (min_x, max_x) = if a.x <= b.x {
            (a.x, b.x)
        } else {
            (b.x, a.x)
        };
        let (min_y, max_y) = if a.y <= b.y {
            (a.y, b.y)
        } else {
            (b.y, a.y)
        };
        Rect { min: Point { x: min_x, y: min_y }, max: Point { x: max_x, y: max_y } }
    }

    /// The least corner.
    pub fn min(&self) -> (p: Point)
        ensures
            p == self.min,
    {
        self.min
    }

    /// The greatest corner.
    pub fn max(&self) -> (p: Point)
        ensures
            p == self.max,
    {
        self.max
    }

    /// Tells a degenerate box from a well-formed one.
    pub fn is_degenerate(&self) -> (degenerate: bool)
        ensures
            degenerate == !self.wf(),
    {
        self.min.x > self.max.x || self.min.y > self.max.y
    }
}

} // verus!
