use station_heatmap::{
    fill, heat_color, heat_level, render, render_cell, HeatmapError, Point, Rect, RectGridIterator,
};

fn manhattan(a: Point, b: Point) -> u64 {
    a.x.abs_diff(b.x) + a.y.abs_diff(b.y)
}

fn shade(distance: u64, value_scale: u64) -> u32 {
    heat_color(heat_level(distance, value_scale)).unwrap()
}

#[test]
fn render_cell_shades_by_the_nearest_point() {
    let grid = RectGridIterator::new(Rect::new(Point::new(0, 0), Point::new(3, 2)), 1).unwrap();
    let points = [(0, 0), (3, 2)];
    assert_eq!(render_cell(&grid, 0, &points, &manhattan, 100), Ok(shade(0, 100)));
    assert_eq!(render_cell(&grid, 1, &points, &manhattan, 100), Ok(shade(1, 100)));
    assert_eq!(render_cell(&grid, 10, &points, &manhattan, 100), Ok(shade(1, 100)));
    assert_eq!(render_cell(&grid, 11, &points, &manhattan, 100), Ok(shade(0, 100)));
    assert_eq!(render_cell(&grid, 5, &points, &manhattan, 100), Ok(shade(2, 100)));
    assert_eq!(render_cell(&grid, 0, &points, &manhattan, 100), Ok(0xFFFE_FEFF));
}

#[test]
fn render_cell_reports_a_level_off_the_ramp() {
    let grid = RectGridIterator::new(Rect::new(Point::new(0, 0), Point::new(3, 0)), 1).unwrap();
    let points = [(0, 0)];
    // three steps away at 4000 a step: level 65535 - 12000, on the falling stretch
    assert_eq!(
        render_cell(&grid, 3, &points, &manhattan, 4000),
        Err(HeatmapError::RampUndefined { index: 3, level: 53_535 })
    );
}

#[test]
fn fill_writes_every_slot() {
    let grid = RectGridIterator::new(Rect::new(Point::new(0, 0), Point::new(4, 3)), 1).unwrap();
    let points = [(1, 1), (4, 3), (0, 3)];
    let mut buffer = vec![0u32; grid.len()];
    assert_eq!(fill(&grid, &points, &manhattan, 1000, &mut buffer), Ok(()));
    assert_eq!(buffer.len(), 20);
    for (index, pixel) in buffer.iter().enumerate() {
        let p = grid.get_coord_at_index(index).unwrap();
        let least = points.iter().map(|q| manhattan(p, Point::new(q.0, q.1))).min().unwrap();
        assert_eq!(*pixel, shade(least, 1000));
        assert_ne!(*pixel, 0);
    }
}

#[test]
fn fill_twice_gives_the_same_pixels() {
    let grid = RectGridIterator::new(Rect::new(Point::new(-5, -5), Point::new(5, 5)), 2).unwrap();
    let points = [(0, 0), (-5, 5), (4, -3)];
    let mut first = vec![0u32; grid.len()];
    let mut second = vec![0u32; grid.len()];
    assert_eq!(fill(&grid, &points, &manhattan, 500, &mut first), Ok(()));
    assert_eq!(fill(&grid, &points, &manhattan, 500, &mut second), Ok(()));
    assert_eq!(first, second);
}

#[test]
fn fill_stops_at_the_first_cell_off_the_ramp() {
    let grid = RectGridIterator::new(Rect::new(Point::new(0, 0), Point::new(5, 0)), 1).unwrap();
    let points = [(0, 0)];
    let mut buffer = vec![7u32; grid.len()];
    assert_eq!(
        fill(&grid, &points, &manhattan, 4000, &mut buffer),
        Err(HeatmapError::RampUndefined { index: 3, level: 53_535 })
    );
    assert_eq!(buffer, vec![shade(0, 4000), shade(1, 4000), shade(2, 4000), 7, 7, 7]);
}

#[test]
fn render_two_by_two() {
    let rect = Rect::new(Point::new(0, 0), Point::new(1, 1));
    let (grid, pixels) = render(rect, 1, &[(0, 0)], &manhattan, 1).unwrap();
    assert_eq!(grid.image_size(), (2, 2));
    assert_eq!(pixels, vec![shade(0, 1), shade(1, 1), shade(1, 1), shade(2, 1)]);
}

#[test]
fn render_refuses_a_bad_request() {
    let rect = Rect::new(Point::new(0, 0), Point::new(1, 1));
    let inverted = Rect { min: Point::new(1, 1), max: Point::new(0, 0) };
    let whole = Rect::new(Point::new(i64::MIN, i64::MIN), Point::new(i64::MAX, i64::MAX));
    let points = [(0, 0)];
    assert_eq!(render(rect, 1, &[], &manhattan, 1).err(), Some(HeatmapError::NoReferencePoints));
    assert_eq!(render(inverted, 0, &[], &manhattan, 1).err(), Some(HeatmapError::NoReferencePoints));
    assert_eq!(render(rect, 0, &points, &manhattan, 1).err(), Some(HeatmapError::NonPositiveStep));
    assert_eq!(render(inverted, 1, &points, &manhattan, 1).err(), Some(HeatmapError::DegenerateBox));
    assert_eq!(render(whole, 1, &points, &manhattan, 1).err(), Some(HeatmapError::IndexOverflow));
}

#[test]
fn render_reports_a_level_off_the_ramp() {
    let rect = Rect::new(Point::new(0, 0), Point::new(5, 0));
    assert_eq!(
        render(rect, 1, &[(0, 0)], &manhattan, 4000).err(),
        Some(HeatmapError::RampUndefined { index: 3, level: 53_535 })
    );
}

#[test]
fn progress_is_due_every_2048_cells() {
    assert!(station_heatmap::progress_due(0));
    assert!(!station_heatmap::progress_due(1));
    assert!(!station_heatmap::progress_due(2047));
    assert!(station_heatmap::progress_due(2048));
    assert!(!station_heatmap::progress_due(2049));
    assert!(station_heatmap::progress_due(4096));
    assert!(!station_heatmap::progress_due(usize::MAX));
}
