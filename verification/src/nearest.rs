use crate::geometry::Point;
use vstd::prelude::*;

verus! {

/// `index` is the place of the least of `distances`, and the first such place
/// where the least occurs more than once.
pub open spec fn is_first_min(distances: Seq<u64>, index: int) -> bool {
    &&& 0 <= index < distances.len()
    &&& forall|j: int| 0 <= j < distances.len() ==> distances[index] <= #[trigger] distances[j]
    &&& forall|j: int| 0 <= j < index ==> #[trigger] distances[j] > distances[index]
}

/// The reference point at place `j`, as a position.
pub open spec fn reference_point(points: Seq<(i64, i64)>, j: int) -> Point {
    Point { x: points[j].0, y: points[j].1 }
}

/// `distances` holds, place by place, a distance that `metric` gives from
/// `target` to the reference point at that place.
pub open spec fn measured<F: Fn(Point, Point) -> u64>(
    metric: F,
    target: Point,
    points: Seq<(i64, i64)>,
    distances: Seq<u64>,
) -> bool {
    &&& distances.len() == points.len()
    &&& forall|j: int|
        0 <= j < points.len() ==> call_ensures(
            metric,
            (target, reference_point(points, j)),
            #[trigger] distances[j],
        )
}

/// `found` is the place and the distance of the reference point nearest to
/// `target`, for some distances that `metric` gives: the least of them, and
/// of equal least distances the first.
pub open spec fn is_nearest<F: Fn(Point, Point) -> u64>(
    metric: F,
    target: Point,
    points: Seq<(i64, i64)>,
    found: (usize, u64),
) -> bool {
    exists|distances: Seq<u64>|
        {
            &&& #[trigger] measured(metric, target, points, distances)
            &&& is_first_min(distances, found.0 as int)
            &&& distances[found.0 as int] == found.1
        }
}

/// `metric` can be asked for the distance from `target` to each of `points`.
pub open spec fn measurable<F: Fn(Point, Point) -> u64>(
    metric: F,
    target: Point,
    points: Seq<(i64, i64)>,
) -> bool {
    forall|j: int|
        0 <= j < points.len() ==> call_requires(
            metric,
            (target, #[trigger] reference_point(points, j)),
        )
}

/// `metric` is a function: asked twice for the same pair of positions, it
/// gives the same distance.
pub open spec fn is_function<F: Fn(Point, Point) -> u64>(metric: F) -> bool {
    forall|a: Point, b: Point, d: u64, e: u64|
        call_ensures(metric, (a, b), d) && call_ensures(metric, (a, b), e) ==> d == e
}

/// A sequence of distances has one first least place at most.
pub proof fn lemma_first_min_unique(distances: Seq<u64>, a: int, b: int)
    requires
        is_first_min(distances, a),
        is_first_min(distances, b),
    ensures
        a == b,
{
    if a < b {
        assert(distances[a] > distances[b]);
    } else if b < a {
        assert(distances[b] > distances[a]);
    }
}

/// Where there is one reference point only, it is the nearest, whatever the
/// target and whatever its distance.
pub proof fn lemma_single_point_is_nearest<F: Fn(Point, Point) -> u64>(
    metric: F,
    target: Point,
    points: Seq<(i64, i64)>,
    found: (usize, u64),
)
    requires
        points.len() == 1,
        is_nearest(metric, target, points, found),
    ensures
        found.0 == 0,
{
}

/// With a metric that is a function, the search is one too: two rounds of
/// measurements from the same target to the same points are equal, and so
/// is the nearest point found in them.
pub proof fn lemma_search_is_function<F: Fn(Point, Point) -> u64>(
    metric: F,
    target: Point,
    points: Seq<(i64, i64)>,
    first: Seq<u64>,
    second: Seq<u64>,
    a: int,
    b: int,
)
    requires
        is_function(metric),
        measured(metric, target, points, first),
        measured(metric, target, points, second),
        is_first_min(first, a),
        is_first_min(second, b),
    ensures
        first == second,
        a == b,
{
    assert forall|j: int| 0 <= j < first.len() implies first[j] == second[j] by {
        assert(call_ensures(metric, (target, reference_point(points, j)), first[j]));
        assert(call_ensures(metric, (target, reference_point(points, j)), second[j]));
    }
    assert(first =~= second);
    lemma_first_min_unique(first, a, b);
}

/// The place and the value of the least of `distances`; of equal least
/// distances the first one.
pub fn nearest_of(distances: &[u64]) -> (found: (usize, u64))
    requires
        distances.len() > 0,
    ensures
        is_first_min(distances@, found.0 as int),
        found.1 == distances@[found.0 as int],
{
    let mut closest_index: usize = 0;
    let mut min_distance: u64 = distances[0];
    let mut index: usize = 1;
    while index < distances.len()
        invariant
            1 <= index <= distances.len(),
            is_first_min(distances@.take(index as int), closest_index as int),
            min_distance == distances@[closest_index as int],
        decreases distances.len() - index,
    {
        let distance = distances[index];
        if distance < min_distance {
            min_distance = distance;
            closest_index = index;
        }
        index += 1;
    }
    assert(distances@.take(index as int) =~= distances@);
    (closest_index, min_distance)
}

/// The reference point nearest to `target` under `metric`, by its place in
/// `points`, and its distance. Every point is measured once, in order, and a
/// later point replaces the one held only where it is strictly nearer, so of
/// several nearest points the first is returned.
pub fn find_closest_point<F: Fn(Point, Point) -> u64>(
    target: &Point,
    points: &[(i64, i64)],
    metric: &F,
) -> (found: (usize, u64))
    requires
        points.len() > 0,
        measurable(*metric, *target, points@),
    ensures
        is_nearest(*metric, *target, points@, found),
{
    assert(call_requires(*metric, (*target, reference_point(points@, 0))));
    let mut min_distance: u64 = metric(*target, Point::new(points[0].0, points[0].1));
    let mut closest_index: usize = 0;
    let ghost mut distances: Seq<u64> = seq![min_distance];
    let mut index: usize = 1;
    while index < points.len()
        invariant
            1 <= index <= points.len(),
            measurable(*metric, *target, points@),
            measured(*metric, *target, points@.take(index as int), distances),
            is_first_min(distances, closest_index as int),
            distances[closest_index as int] == min_distance,
        decreases points.len() - index,
    {
        let point = points[index];
        assert(call_requires(*metric, (*target, reference_point(points@, index as int))));
        let distance = metric(*target, Point::new(point.0, point.1));
        proof {
            let extended = distances.push(distance);
            assert forall|j: int| 0 <= j < index + 1 implies call_ensures(
                *metric,
                (*target, reference_point(points@.take(index + 1), j)),
                #[trigger] extended[j],
            ) by {
                if j < index {
                    assert(reference_point(points@.take(index + 1), j) == reference_point(
                        points@.take(index as int),
                        j,
                    ));
                    assert(extended[j] == distances[j]);
                }
            }
            distances = extended;
        }
        if distance < min_distance {
            min_distance = distance;
            closest_index = index;
        }
        index += 1;
    }
    proof {
        assert(points@.take(index as int) =~= points@);
        assert(measured(*metric, *target, points@, distances));
    }
    (closest_index, min_distance)
}

} // verus!
