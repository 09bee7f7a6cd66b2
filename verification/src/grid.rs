use crate::error::HeatmapError;
use crate::geometry::{Point, Rect};
use vstd::prelude::*;

verus! {

/// How many of the positions `min`, `min + step`, `min + 2 * step`, ... lie at
/// or below `max`: the number of cells along one axis, the border included.
pub open spec fn axis_count(min: int, max: int, step: int) -> nat {
    if min <= max && step > 0 {
        ((max - min) / step + 1) as nat
    } else {
        0
    }
}

/// Width and height of the lattice that `step` lays over `rect`, or the
/// reason why there is none.
pub open spec fn dimensions_of(rect: Rect, step: i64) -> Result<(usize, usize), HeatmapError> {
    let width = axis_count(rect.min.x as int, rect.max.x as int, step as int);
    let height = axis_count(rect.min.y as int, rect.max.y as int, step as int);
    if step <= 0 {
        Err(HeatmapError::NonPositiveStep)
    } else if !rect.wf() {
        Err(HeatmapError::DegenerateBox)
    } else if width * height > usize::MAX {
        Err(HeatmapError::IndexOverflow)
    } else {
        Ok((width as usize, height as usize))
    }
}

proof fn lemma_div_bounds(d: int, s: int)
    by (nonlinear_arith)
    requires
        d >= 0,
        s > 0,
    ensures
        0 <= d / s,
        (d / s) * s <= d < (d / s + 1) * s,
        d == (d / s) * s + d % s,
        0 <= d % s < s,
{
}

proof fn lemma_mul_le(a: int, b: int, s: int)
    by (nonlinear_arith)
    requires
        a <= b,
        s >= 0,
    ensures
        a * s <= b * s,
{
}

proof fn lemma_div_of_multiple(k: int, s: int)
    by (nonlinear_arith)
    requires
        k >= 0,
        s > 0,
    ensures
        (k * s) / s == k,
        (k * s) % s == 0,
{
}

proof fn lemma_cell_split(index: int, width: int, height: int)
    by (nonlinear_arith)
    requires
        width > 0,
        0 <= index < width * height,
    ensures
        0 <= index % width < width,
        0 <= index / width < height,
        index == (index / width) * width + index % width,
{
}

proof fn lemma_cell_join(row: int, col: int, width: int, height: int)
    by (nonlinear_arith)
    requires
        0 <= col < width,
        0 <= row < height,
    ensures
        0 <= row * width + col < width * height,
        (row * width + col) / width == row,
        (row * width + col) % width == col,
{
}

/// The count along an axis is what stepping from `min` until `max` is passed
/// arrives at: position number `k` is inside exactly when `k` is below the count.
pub proof fn lemma_axis_count_accumulates(min: int, max: int, step: int, k: int)
    requires
        step > 0,
        k >= 0,
    ensures
        k < axis_count(min, max, step) <==> min + k * step <= max,
{
    if min <= max {
        let d = max - min;
        lemma_div_bounds(d, step);
        if k <= d / step {
            lemma_mul_le(k, d / step, step);
        } else {
            lemma_mul_le(d / step + 1, k, step);
        }
    } else {
        lemma_mul_le(0, k, step);
    }
}

/// Where there is a lattice, it has at least one cell along each axis, its
/// width and height are the counts along x and y, and all its cells together
/// can be addressed.
pub proof fn lemma_dimensions_positive(rect: Rect, step: i64, size: (usize, usize))
    requires
        dimensions_of(rect, step) == Ok::<(usize, usize), HeatmapError>(size),
    ensures
        step > 0,
        rect.wf(),
        size.0 == axis_count(rect.min.x as int, rect.max.x as int, step as int),
        size.1 == axis_count(rect.min.y as int, rect.max.y as int, step as int),
        size.0 >= 1,
        size.1 >= 1,
        size.0 * size.1 <= usize::MAX,
{
    let width = axis_count(rect.min.x as int, rect.max.x as int, step as int);
    let height = axis_count(rect.min.y as int, rect.max.y as int, step as int);
    lemma_div_bounds(rect.max.x - rect.min.x, step as int);
    lemma_div_bounds(rect.max.y - rect.min.y, step as int);
    lemma_mul_le(1, height as int, width as int);
    lemma_mul_le(1, width as int, height as int);
}

fn count_along(min: i64, max: i64, step: i64) -> (count: u128)
    requires
        min <= max,
        step > 0,
    ensures
        count == axis_count(min as int, max as int, step as int),
        count >= 1,
{
    let span: u128 = (max as i128 - min as i128) as u128;
    proof {
        lemma_div_bounds(max - min, step as int);
    }
    span / (step as u128) + 1
}

/// Width and height of the lattice that starts at the least corner of `rect`
/// and advances by `step` along both axes, counted up to and including the
/// greatest corner where a position falls on it.
///
/// The count along an axis is the one that adding `step` again and again
/// arrives at before the greatest corner is passed. In whole ticks nothing is
/// rounded, so the quotient taken here is that count
/// (`lemma_axis_count_accumulates`), and the positions that
/// `get_coord_at_index` hands out are the ones counted (`lemma_cells_inside`).
/// The same box and step always give the same size.
pub fn dimensions(rect: Rect, step: i64) -> (dims: Result<(usize, usize), HeatmapError>)
    ensures
        dims == dimensions_of(rect, step),
{
    if step <= 0 {
        return Err(HeatmapError::NonPositiveStep);
    }
    if rect.is_degenerate() {
        return Err(HeatmapError::DegenerateBox);
    }
    let width: u128 = count_along(rect.min.x, rect.max.x, step);
    let height: u128 = count_along(rect.min.y, rect.max.y, step);
    if width > usize::MAX as u128 {
        proof {
            lemma_mul_le(1, height as int, width as int);
        }
        return Err(HeatmapError::IndexOverflow);
    }
    if height > usize::MAX as u128 {
        proof {
            lemma_mul_le(1, width as int, height as int);
        }
        return Err(HeatmapError::IndexOverflow);
    }
    match (width as usize).checked_mul(height as usize) {
        Some(_) => Ok((width as usize, height as usize)),
        None => Err(HeatmapError::IndexOverflow),
    }
}

/// A lattice over a bounding box, walked row by row from the least corner.
///
/// Cell `index` lies in row `index / width` and column `index % width`; its
/// position is the least corner plus `step` times the column along x and
/// `step` times the row along y.
#[derive(Debug, Clone, Copy)]
pub struct RectGridIterator {
    inner: Rect,
    step: i64,
    next: usize,
    size: (usize, usize),
}

impl RectGridIterator {
    /// The bounding box that the lattice covers.
    pub closed spec fn rect(self) -> Rect {
        self.inner
    }

    /// The distance between neighbouring cells, in ticks.
    pub closed spec fn step(self) -> i64 {
        self.step
    }

    /// Width and height, in cells.
    pub closed spec fn size(self) -> (usize, usize) {
        self.size
    }

    /// The index of the cell that `next` hands out next.
    pub closed spec fn cursor(self) -> usize {
        self.next
    }

    /// What holds of every lattice: its size is the one that its box and step
    /// give, all its cells can be addressed, and the cursor is not beyond them.
    #[verifier::type_invariant]
    pub open spec fn wf(self) -> bool {
        &&& dimensions_of(self.rect(), self.step()) == Ok::<(usize, usize), HeatmapError>(self.size())
        &&& self.cursor() <= self.cell_count()
    }

    pub open spec fn width(self) -> int {
        self.size().0 as int
    }

    pub open spec fn height(self) -> int {
        self.size().1 as int
    }

    /// Number of cells.
    pub open spec fn cell_count(self) -> int {
        self.width() * self.height()
    }

    pub open spec fn column_of(self, index: int) -> int {
        index % self.width()
    }

    pub open spec fn row_of(self, index: int) -> int {
        index / self.width()
    }

    /// Position of the cell in the given column, along x.
    pub open spec fn x_at(self, column: int) -> int {
        self.rect().min.x + column * self.step()
    }

    /// Position of the cell in the given row, along y.
    pub open spec fn y_at(self, row: int) -> int {
        self.rect().min.y + row * self.step()
    }

    /// Position of cell `index`.
    pub open spec fn coordinate(self, index: int) -> Point {
        Point {
            x: self.x_at(self.column_of(index)) as i64,
            y: self.y_at(self.row_of(index)) as i64,
        }
    }

    /// Position of cell `index`, where there is such a cell.
    pub open spec fn coordinate_at(self, index: int) -> Option<Point> {
        if 0 <= index < self.cell_count() {
            Some(self.coordinate(index))
        } else {
            None
        }
    }

    /// `p` is the position of some cell.
    pub open spec fn on_lattice(self, p: Point) -> bool {
        &&& self.rect().contains(p)
        &&& (p.x - self.rect().min.x) % (self.step() as int) == 0
        &&& (p.y - self.rect().min.y) % (self.step() as int) == 0
    }

    /// Column of the cell at position `p`.
    pub open spec fn column_at(self, p: Point) -> int {
        (p.x - self.rect().min.x) / (self.step() as int)
    }

    /// Row of the cell at position `p`.
    pub open spec fn row_at(self, p: Point) -> int {
        (p.y - self.rect().min.y) / (self.step() as int)
    }

    /// Index of the cell at position `p`.
    pub open spec fn index_at(self, p: Point) -> int {
        self.row_at(p) * self.width() + self.column_at(p)
    }

    /// A lattice has at least one cell, and every cell lies inside the box at
    /// exactly the position that its row and column give.
    pub proof fn lemma_cells_inside(self, index: int)
        requires
            self.wf(),
            0 <= index < self.cell_count(),
        ensures
            self.step() > 0,
            self.rect().wf(),
            self.width() >= 1,
            self.height() >= 1,
            self.cell_count() <= usize::MAX,
            0 <= self.column_of(index) < self.width(),
            0 <= self.row_of(index) < self.height(),
            index == self.row_of(index) * self.width() + self.column_of(index),
            self.coordinate(index).x == self.x_at(self.column_of(index)),
            self.coordinate(index).y == self.y_at(self.row_of(index)),
            self.rect().contains(self.coordinate(index)),
    {
        let rect = self.rect();
        let step = self.step() as int;
        lemma_dimensions_positive(rect, self.step(), self.size());
        lemma_cell_split(index, self.width(), self.height());
        let col = self.column_of(index);
        let row = self.row_of(index);
        lemma_axis_count_accumulates(rect.min.x as int, rect.max.x as int, step, col);
        lemma_axis_count_accumulates(rect.min.y as int, rect.max.y as int, step, row);
        lemma_mul_le(0, col, step);
        lemma_mul_le(0, row, step);
    }

    /// From an index to its position and back: the position of cell `index`
    /// is on the lattice, and the row, the column and the index derived from
    /// that position are the ones it was computed from.
    pub proof fn lemma_round_trip(self, index: int)
        requires
            self.wf(),
            0 <= index < self.cell_count(),
        ensures
            self.on_lattice(self.coordinate(index)),
            self.row_at(self.coordinate(index)) == self.row_of(index),
            self.column_at(self.coordinate(index)) == self.column_of(index),
            self.index_at(self.coordinate(index)) == index,
    {
        self.lemma_cells_inside(index);
        lemma_div_of_multiple(self.column_of(index), self.step() as int);
        lemma_div_of_multiple(self.row_of(index), self.step() as int);
    }

    /// From a position to its index and back: a position on the lattice has an
    /// index below the cell count, and the cell of that index lies there.
    pub proof fn lemma_round_trip_from_position(self, p: Point)
        requires
            self.wf(),
            self.on_lattice(p),
        ensures
            0 <= self.column_at(p) < self.width(),
            0 <= self.row_at(p) < self.height(),
            0 <= self.index_at(p) < self.cell_count(),
            self.coordinate(self.index_at(p)) == p,
    {
        let rect = self.rect();
        let step = self.step() as int;
        let dx = p.x - rect.min.x;
        let dy = p.y - rect.min.y;
        lemma_dimensions_positive(rect, self.step(), self.size());
        lemma_div_bounds(dx, step);
        lemma_div_bounds(dy, step);
        lemma_axis_count_accumulates(rect.min.x as int, rect.max.x as int, step, self.column_at(p));
        lemma_axis_count_accumulates(rect.min.y as int, rect.max.y as int, step, self.row_at(p));
        lemma_cell_join(self.row_at(p), self.column_at(p), self.width(), self.height());
    }

    /// The lattice that `step` lays over `rect`, with the cursor on its first
    /// cell; it is meant only where `dimensions_of` gives a size.
    pub closed spec fn lattice(rect: Rect, step: i64) -> RectGridIterator {
        RectGridIterator {
            inner: rect,
            step,
            next: 0,
            size: match dimensions_of(rect, step) {
                Ok(size) => size,
                Err(_) => (0, 0),
            },
        }
    }

    /// What the lattice over `rect` is made of.
    pub proof fn lemma_lattice(rect: Rect, step: i64)
        requires
            dimensions_of(rect, step) is Ok,
        ensures
            Self::lattice(rect, step).wf(),
            Self::lattice(rect, step).rect() == rect,
            Self::lattice(rect, step).step() == step,
            Self::lattice(rect, step).cursor() == 0,
            dimensions_of(rect, step) == Ok::<(usize, usize), HeatmapError>(
                Self::lattice(rect, step).size(),
            ),
    {
        lemma_dimensions_positive(rect, step, Self::lattice(rect, step).size());
        lemma_mul_le(0, Self::lattice(rect, step).height(), Self::lattice(rect, step).width());
    }

    /// Lays `step` over `rect`: the lattice with the cursor on its first cell,
    /// or the reason why there is none. A step of zero or less is reported
    /// first, then a box without points, then a lattice of more cells than
    /// can be addressed.
    pub fn new(rect: Rect, step: i64) -> (grid: Result<RectGridIterator, HeatmapError>)
        ensures
            grid == match dimensions_of(rect, step) {
                Ok(_) => Ok::<RectGridIterator, HeatmapError>(Self::lattice(rect, step)),
                Err(e) => Err(e),
            },
            grid matches Ok(g) ==> {
                &&& g.wf()
                &&& g.rect() == rect
                &&& g.step() == step
                &&& g.cursor() == 0
                &&& dimensions_of(rect, step) == Ok::<(usize, usize), HeatmapError>(g.size())
            },
    {
        match dimensions(rect, step) {
            Ok(size) => {
                proof {
                    Self::lemma_lattice(rect, step);
                }
                Ok(RectGridIterator { inner: rect, step, next: 0, size })
            },
            Err(e) => Err(e),
        }
    }

    /// Width and height of the image, in cells.
    pub fn image_size(&self) -> (size: (usize, usize))
        ensures
            size == self.size(),
    {
        self.size
    }

    /// Number of cells, which is the length of the buffer that holds one
    /// pixel for each.
    pub fn len(&self) -> (total: usize)
        ensures
            total == self.cell_count(),
            self.wf(),
    {
        proof {
            use_type_invariant(self);
            lemma_dimensions_positive(self.inner, self.step, self.size);
        }
        self.size.0 * self.size.1
    }

    /// Position of cell `index`; `None` where `index` is not below the cell count.
    pub fn get_coord_at_index(&self, index: usize) -> (coord: Option<Point>)
        ensures
            coord == self.coordinate_at(index as int),
            coord is Some <==> index < self.cell_count(),
            coord matches Some(p) ==> {
                &&& p.x == self.x_at(self.column_of(index as int))
                &&& p.y == self.y_at(self.row_of(index as int))
                &&& self.rect().contains(p)
            },
    {
        proof {
            use_type_invariant(self);
            lemma_dimensions_positive(self.inner, self.step, self.size);
        }
        if index >= self.size.0 * self.size.1 {
            return None;
        }
        proof {
            self.lemma_cells_inside(index as int);
        }
        let row = index / self.size.0;
        let col = index % self.size.0;
        let x = self.inner.min.x as i128 + (self.step as i128) * (col as i128);
        let y = self.inner.min.y as i128 + (self.step as i128) * (row as i128);
        assert(x == self.x_at(col as int) && y == self.y_at(row as int)) by (nonlinear_arith)
            requires
                x == self.inner.min.x + self.step * col,
                y == self.inner.min.y + self.step * row,
                self.x_at(col as int) == self.inner.min.x + col * self.step,
                self.y_at(row as int) == self.inner.min.y + row * self.step,
        ;
        Some(Point { x: x as i64, y: y as i64 })
    }

    /// Index of the cell at position `p`; `None` where no cell lies there.
    pub fn index_of(&self, p: Point) -> (found: Option<usize>)
        ensures
            found is Some <==> self.on_lattice(p),
            found matches Some(index) ==> {
                &&& index == self.index_at(p)
                &&& index < self.cell_count()
                &&& self.coordinate_at(index as int) == Some(p)
            },
    {
        proof {
            use_type_invariant(self);
            lemma_dimensions_positive(self.inner, self.step, self.size);
        }
        if p.x < self.inner.min.x || p.x > self.inner.max.x || p.y < self.inner.min.y || p.y
            > self.inner.max.y {
            return None;
        }
        let step: u128 = self.step as u128;
        let dx: u128 = (p.x as i128 - self.inner.min.x as i128) as u128;
        let dy: u128 = (p.y as i128 - self.inner.min.y as i128) as u128;
        if dx % step != 0 || dy % step != 0 {
            return None;
        }
        proof {
            self.lemma_round_trip_from_position(p);
        }
        let col: usize = (dx / step) as usize;
        let row: usize = (dy / step) as usize;
        proof {
            lemma_cell_join(row as int, col as int, self.width(), self.height());
            lemma_mul_le(0, row as int, self.width());
        }
        Some(row * self.size.0 + col)
    }

    /// Hands out the position under the cursor and moves the cursor on by one
    /// cell; `None`, with the cursor left where it is, once every cell was
    /// handed out.
    pub fn next(&mut self) -> (item: Option<Point>)
        ensures
            item == old(self).coordinate_at(old(self).cursor() as int),
            final(self).rect() == old(self).rect(),
            final(self).step() == old(self).step(),
            final(self).size() == old(self).size(),
            final(self).cursor() == if old(self).cursor() < old(self).cell_count() {
                old(self).cursor() + 1
            } else {
                old(self).cursor() as int
            },
    {
        proof {
            use_type_invariant(&*self);
        }
        let ret = self.get_coord_at_index(self.next);
        proof {
            lemma_dimensions_positive(self.inner, self.step, self.size);
        }
        if ret.is_some() {
            self.next = self.next + 1;
        }
        ret
    }
}

} // verus!
