use geo::HaversineDistance;
use station_heatmap::{find_closest_point, nearest_of, Point};

// Positions are in millionths of a degree, distances in millimetres.
fn haversine(a: Point, b: Point) -> u64 {
    let from = geo::Point::new(a.x as f64 / 1e6, a.y as f64 / 1e6);
    let to = geo::Point::new(b.x as f64 / 1e6, b.y as f64 / 1e6);
    (from.haversine_distance(&to) * 1000.0) as u64
}

fn manhattan(a: Point, b: Point) -> u64 {
    a.x.abs_diff(b.x) + a.y.abs_diff(b.y)
}

#[test]
fn nearest_of_two_reference_points() {
    let points = [(0, 0), (10_000_000, 10_000_000)];
    let target = Point::new(1_000, 1_000);
    let (index, distance) = find_closest_point(&target, &points, &haversine);
    assert_eq!(index, 0);
    assert!(distance > 0);
    assert!(distance < 200_000);
    assert_eq!(distance, haversine(target, Point::new(0, 0)));
}

#[test]
fn single_reference_point_is_always_nearest() {
    let points = [(5_000_000, 5_000_000)];
    for target in [
        Point::new(0, 0),
        Point::new(5_000_000, 5_000_000),
        Point::new(-170_000_000, 80_000_000),
        Point::new(179_000_000, -89_000_000),
    ] {
        let (index, distance) = find_closest_point(&target, &points, &haversine);
        assert_eq!(index, 0);
        assert_eq!(distance, haversine(target, Point::new(5_000_000, 5_000_000)));
    }
}

#[test]
fn the_least_distance_wins() {
    let points = [(9, 9), (4, 0), (1, 1), (7, 2)];
    let found = find_closest_point(&Point::new(0, 0), &points, &manhattan);
    assert_eq!(found, (2, 2));
    let found = find_closest_point(&Point::new(8, 2), &points, &manhattan);
    assert_eq!(found, (3, 1));
}

#[test]
fn the_first_of_equal_distances_wins() {
    let points = [(3, 0), (0, 2), (2, 0), (0, -2), (1, 1)];
    let found = find_closest_point(&Point::new(0, 0), &points, &manhattan);
    assert_eq!(found, (1, 2));
}

#[test]
fn every_point_is_measured_once_in_order() {
    let asked = std::cell::RefCell::new(Vec::new());
    let metric = |a: Point, b: Point| {
        asked.borrow_mut().push((a, b));
        manhattan(a, b)
    };
    let points = [(5, 5), (1, 0), (2, 0)];
    let target = Point::new(0, 0);
    assert_eq!(find_closest_point(&target, &points, &metric), (1, 1));
    assert_eq!(
        *asked.borrow(),
        vec![
            (target, Point::new(5, 5)),
            (target, Point::new(1, 0)),
            (target, Point::new(2, 0)),
        ]
    );
}

#[test]
fn nearest_of_distances() {
    assert_eq!(nearest_of(&[7]), (0, 7));
    assert_eq!(nearest_of(&[7, 3, 9]), (1, 3));
    assert_eq!(nearest_of(&[7, 3, 9, 3, 3]), (1, 3));
    assert_eq!(nearest_of(&[5, 4, 3, 2, 1, 0]), (5, 0));
    assert_eq!(nearest_of(&[u64::MAX, u64::MAX]), (0, u64::MAX));
}
