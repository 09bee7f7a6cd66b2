use crate::error::HeatmapError;
use crate::geometry::{Point, Rect};
use crate::grid::{dimensions_of, RectGridIterator};
use crate::nearest::{
    find_closest_point, is_first_min, is_function, is_nearest, lemma_search_is_function,
    measurable, measured,
};
use crate::shade::{heat_color, heat_level, level_of, ramp_color, ramp_defined};
use vstd::prelude::*;

verus! {

/// What the cell `index` is shaded with when its nearest reference point is
/// `distance` away: the colour of the heat level of that distance, or, where
/// the ramp has none for that level, the report of it.
pub open spec fn shade_of(index: usize, distance: u64, value_scale: u64) -> Result<
    u32,
    HeatmapError,
> {
    let level = level_of(distance, value_scale);
    if ramp_defined(level) {
        Ok(ramp_color(level))
    } else {
        Err(HeatmapError::RampUndefined { index, level })
    }
}

/// `shade` is what the cell `index` of `grid` comes to: the shade of the
/// distance to its nearest reference point, for some distances that
/// `metric` gives from the position of the cell.
pub open spec fn is_shade_of_cell<F: Fn(Point, Point) -> u64>(
    grid: RectGridIterator,
    points: Seq<(i64, i64)>,
    metric: F,
    value_scale: u64,
    index: int,
    shade: Result<u32, HeatmapError>,
) -> bool {
    exists|found: (usize, u64)|
        {
            &&& #[trigger] is_nearest(metric, grid.coordinate(index), points, found)
            &&& shade == shade_of(index as usize, found.1, value_scale)
        }
}

/// `metric` can be asked for the distance from every cell of `grid` to each
/// of `points`.
pub open spec fn measurable_over<F: Fn(Point, Point) -> u64>(
    grid: RectGridIterator,
    points: Seq<(i64, i64)>,
    metric: F,
) -> bool {
    forall|index: int|
        0 <= index < grid.cell_count() ==> measurable(
            metric,
            #[trigger] grid.coordinate(index),
            points,
        )
}

/// `after` and `outcome` are what a fill pass over a buffer holding `before`
/// leaves. On success every slot holds the shade of its cell. On failure the
/// error names the first cell that the ramp has no colour for; the slots
/// below it hold the shades of their cells, and from it on the buffer is as
/// it was.
pub open spec fn is_pass<F: Fn(Point, Point) -> u64>(
    grid: RectGridIterator,
    points: Seq<(i64, i64)>,
    metric: F,
    value_scale: u64,
    before: Seq<u32>,
    after: Seq<u32>,
    outcome: Result<(), HeatmapError>,
) -> bool {
    &&& after.len() == before.len()
    &&& match outcome {
        Ok(_) => forall|i: int|
            0 <= i < after.len() ==> is_shade_of_cell(
                grid,
                points,
                metric,
                value_scale,
                i,
                Ok(#[trigger] after[i]),
            ),
        Err(e) => {
            &&& e matches HeatmapError::RampUndefined { index, level }
            &&& index < after.len()
            &&& is_shade_of_cell(grid, points, metric, value_scale, index as int, Err(e))
            &&& forall|i: int|
                0 <= i < index ==> is_shade_of_cell(
                    grid,
                    points,
                    metric,
                    value_scale,
                    i,
                    Ok(#[trigger] after[i]),
                )
            &&& forall|i: int| index <= i < after.len() ==> #[trigger] after[i] == before[i]
        },
    }
}

/// With a metric that is a function, a cell has one shade.
pub proof fn lemma_shade_is_function<F: Fn(Point, Point) -> u64>(
    grid: RectGridIterator,
    points: Seq<(i64, i64)>,
    metric: F,
    value_scale: u64,
    index: int,
    first: Result<u32, HeatmapError>,
    second: Result<u32, HeatmapError>,
)
    requires
        is_function(metric),
        is_shade_of_cell(grid, points, metric, value_scale, index, first),
        is_shade_of_cell(grid, points, metric, value_scale, index, second),
    ensures
        first == second,
{
    let target = grid.coordinate(index);
    let a = choose|found: (usize, u64)|
        {
            &&& #[trigger] is_nearest(metric, target, points, found)
            &&& first == shade_of(index as usize, found.1, value_scale)
        };
    let b = choose|found: (usize, u64)|
        {
            &&& #[trigger] is_nearest(metric, target, points, found)
            &&& second == shade_of(index as usize, found.1, value_scale)
        };
    let da = choose|distances: Seq<u64>|
        {
            &&& #[trigger] measured(metric, target, points, distances)
            &&& is_first_min(distances, a.0 as int)
            &&& distances[a.0 as int] == a.1
        };
    let db = choose|distances: Seq<u64>|
        {
            &&& #[trigger] measured(metric, target, points, distances)
            &&& is_first_min(distances, b.0 as int)
            &&& distances[b.0 as int] == b.1
        };
    lemma_search_is_function(metric, target, points, da, db, a.0 as int, b.0 as int);
}

/// A fill pass is reproducible: with a metric that is a function, two passes
/// over the same inputs and the same buffer end alike, and leave the same
/// pixel in every slot.
pub proof fn lemma_pass_reproducible<F: Fn(Point, Point) -> u64>(
    grid: RectGridIterator,
    points: Seq<(i64, i64)>,
    metric: F,
    value_scale: u64,
    before: Seq<u32>,
    first: Seq<u32>,
    first_outcome: Result<(), HeatmapError>,
    second: Seq<u32>,
    second_outcome: Result<(), HeatmapError>,
)
    requires
        is_function(metric),
        is_pass(grid, points, metric, value_scale, before, first, first_outcome),
        is_pass(grid, points, metric, value_scale, before, second, second_outcome),
    ensures
        first == second,
        first_outcome == second_outcome,
{
    let len = before.len() as int;
    // Where the first pass stops, or the length if it ran through.
    let stop_first = match first_outcome {
        Ok(_) => len,
        Err(HeatmapError::RampUndefined { index, level }) => index as int,
        Err(_) => len,
    };
    let stop_second = match second_outcome {
        Ok(_) => len,
        Err(HeatmapError::RampUndefined { index, level }) => index as int,
        Err(_) => len,
    };
    if stop_first < stop_second {
        let e = first_outcome->Err_0;
        lemma_shade_is_function(
            grid,
            points,
            metric,
            value_scale,
            stop_first,
            Err(e),
            Ok(second[stop_first]),
        );
    } else if stop_second < stop_first {
        let e = second_outcome->Err_0;
        lemma_shade_is_function(
            grid,
            points,
            metric,
            value_scale,
            stop_second,
            Err(e),
            Ok(first[stop_second]),
        );
    } else {
        if first_outcome is Err {
            lemma_shade_is_function(
                grid,
                points,
                metric,
                value_scale,
                stop_first,
                Err(first_outcome->Err_0),
                Err(second_outcome->Err_0),
            );
            assert(first_outcome->Err_0 == second_outcome->Err_0);
        } else {
            assert(first_outcome->Ok_0 == second_outcome->Ok_0);
        }
        assert forall|i: int| 0 <= i < len implies first[i] == second[i] by {
            if i < stop_first {
                lemma_shade_is_function(
                    grid,
                    points,
                    metric,
                    value_scale,
                    i,
                    Ok(first[i]),
                    Ok(second[i]),
                );
            }
        }
        assert(first =~= second);
    }
}

/// Whether progress is worth a line once `completed` cells are done: at the
/// first cell and at every 2048th after it.
pub fn progress_due(completed: usize) -> (due: bool)
    ensures
        due == (completed % 2048 == 0),
{
    completed % 2048 == 0
}

/// The pixel of the cell `index`: the position of the cell is looked up, the
/// nearest reference point is searched, and its distance is turned into a
/// heat level and then into a colour.
pub fn render_cell<F: Fn(Point, Point) -> u64>(
    grid: &RectGridIterator,
    index: usize,
    points: &[(i64, i64)],
    metric: &F,
    value_scale: u64,
) -> (shade: Result<u32, HeatmapError>)
    requires
        index < grid.cell_count(),
        points.len() > 0,
        measurable(*metric, grid.coordinate(index as int), points@),
    ensures
        is_shade_of_cell(*grid, points@, *metric, value_scale, index as int, shade),
        shade matches Ok(pixel) ==> pixel >= 0xFF00_0000,
        shade matches Err(e) ==> e is RampUndefined && e->index == index,
{
    let coord = grid.get_coord_at_index(index);
    let target = coord.unwrap();
    let found = find_closest_point(&target, points, metric);
    let level = heat_level(found.1, value_scale);
    match heat_color(level) {
        Some(pixel) => Ok(pixel),
        None => Err(HeatmapError::RampUndefined { index, level }),
    }
}

/// One pass over the buffer: every slot, in order, is given the pixel of its
/// cell, each slot once. No slot that was given a pixel is left at zero,
/// since every colour of the ramp is opaque. The pass stops at the first
/// cell that the ramp has no colour for, and reports it.
pub fn fill<F: Fn(Point, Point) -> u64>(
    grid: &RectGridIterator,
    points: &[(i64, i64)],
    metric: &F,
    value_scale: u64,
    buffer: &mut Vec<u32>,
) -> (outcome: Result<(), HeatmapError>)
    requires
        old(buffer).len() == grid.cell_count(),
        points.len() > 0,
        measurable_over(*grid, points@, *metric),
    ensures
        is_pass(*grid, points@, *metric, value_scale, old(buffer)@, final(buffer)@, outcome),
        outcome is Ok ==> forall|i: int|
            0 <= i < final(buffer).len() ==> #[trigger] final(buffer)@[i] >= 0xFF00_0000,
{
    let total = buffer.len();
    let mut index: usize = 0;
    while index < total
        invariant
            index <= total,
            total == grid.cell_count(),
            buffer.len() == total,
            old(buffer).len() == total,
            points.len() > 0,
            measurable_over(*grid, points@, *metric),
            forall|i: int|
                0 <= i < index ==> is_shade_of_cell(
                    *grid,
                    points@,
                    *metric,
                    value_scale,
                    i,
                    Ok(#[trigger] buffer@[i]),
                ),
            forall|i: int| 0 <= i < index ==> #[trigger] buffer@[i] >= 0xFF00_0000,
            forall|i: int| index <= i < total ==> #[trigger] buffer@[i] == old(buffer)@[i],
        decreases total - index,
    {
        assert(measurable(*metric, grid.coordinate(index as int), points@));
        match render_cell(grid, index, points, metric, value_scale) {
            Ok(pixel) => {
                buffer.set(index, pixel);
            },
            Err(e) => {
                return Err(e);
            },
        }
        index += 1;
    }
    Ok(())
}

/// What `render` returns for a request. Asked in this order: an empty set of
/// reference points is refused, then whatever stands against the lattice,
/// see `dimensions_of`; then a buffer of zeros, one slot for each cell, goes
/// through one fill pass, and what the pass reports is the result.
pub open spec fn is_rendering<F: Fn(Point, Point) -> u64>(
    rect: Rect,
    step: i64,
    points: Seq<(i64, i64)>,
    metric: F,
    value_scale: u64,
    image: Result<(RectGridIterator, Vec<u32>), HeatmapError>,
) -> bool {
    if points.len() == 0 {
        image == Err::<(RectGridIterator, Vec<u32>), HeatmapError>(HeatmapError::NoReferencePoints)
    } else {
        match dimensions_of(rect, step) {
            Err(e) => image == Err::<(RectGridIterator, Vec<u32>), HeatmapError>(e),
            Ok(_) => {
                let grid = RectGridIterator::lattice(rect, step);
                let blank = Seq::new(grid.cell_count() as nat, |i: int| 0u32);
                match image {
                    Ok((lattice, pixels)) => {
                        &&& lattice == grid
                        &&& is_pass(grid, points, metric, value_scale, blank, pixels@, Ok(()))
                    },
                    Err(e) => exists|after: Seq<u32>| #[trigger]
                        is_pass(grid, points, metric, value_scale, blank, after, Err(e)),
                }
            },
        }
    }
}

/// Renders the heatmap of `points` over `rect`: checks the request, lays
/// the lattice, and fills a fresh buffer with one pixel for each cell, row
/// by row.
pub fn render<F: Fn(Point, Point) -> u64>(
    rect: Rect,
    step: i64,
    points: &[(i64, i64)],
    metric: &F,
    value_scale: u64,
) -> (image: Result<(RectGridIterator, Vec<u32>), HeatmapError>)
    requires
        dimensions_of(rect, step) is Ok ==> measurable_over(
            RectGridIterator::lattice(rect, step),
            points@,
            *metric,
        ),
    ensures
        is_rendering(rect, step, points@, *metric, value_scale, image),
        image matches Ok((grid, pixels)) ==> {
            &&& pixels.len() == grid.cell_count()
            &&& forall|i: int| 0 <= i < pixels.len() ==> #[trigger] pixels@[i] >= 0xFF00_0000
        },
{
    if points.len() == 0 {
        return Err(HeatmapError::NoReferencePoints);
    }
    let grid = match RectGridIterator::new(rect, step) {
        Ok(grid) => grid,
        Err(e) => {
            return Err(e);
        },
    };
    let total = grid.len();
    let mut buffer: Vec<u32> = vec![0u32; total];
    let ghost blank = Seq::new(grid.cell_count() as nat, |i: int| 0u32);
    assert(buffer@ =~= blank);
    match fill(&grid, points, metric, value_scale, &mut buffer) {
        Ok(_) => Ok((grid, buffer)),
        Err(e) => {
            assert(is_pass(grid, points@, *metric, value_scale, blank, buffer@, Err(e)));
            Err(e)
        },
    }
}

} // verus!
