use vertex_puzzle::color::Color;
use vertex_puzzle::geometry::Point;
use vertex_puzzle::puzzle::Puzzle;
use vertex_puzzle::sampling::{blend, centroid, lerp, paint_sampled, sample_plan, sample_points};

#[test]
fn the_centroid_is_the_mean_of_the_corners() {
    assert_eq!(centroid(Point::new(0, 0), Point::new(30, 0), Point::new(0, 60)), Point::new(10, 20));
    assert_eq!(centroid(Point::new(0, 0), Point::new(1, 0), Point::new(0, 1)), Point::new(0, 0));
    assert_eq!(centroid(Point::new(-1, -1), Point::new(-1, 0), Point::new(0, -1)), Point::new(-1, -1));
    let far = Point::new(i32::MAX, i32::MIN);
    assert_eq!(centroid(far, far, far), far);
}

#[test]
fn a_point_on_the_way_is_rounded_down() {
    let from = Point::new(0, 0);
    let to = Point::new(10, -10);
    assert_eq!(lerp(from, to, 0, 2), from);
    assert_eq!(lerp(from, to, 2, 2), to);
    assert_eq!(lerp(from, to, 1, 2), Point::new(5, -5));
    assert_eq!(lerp(from, to, 1, 3), Point::new(3, -4));
    assert_eq!(
        lerp(Point::new(i32::MIN, i32::MAX), Point::new(i32::MAX, i32::MIN), 1, 2),
        Point::new(-1, -1)
    );
}

#[test]
fn a_triangle_is_sampled_at_four_points() {
    let s = sample_points(Point::new(0, 0), Point::new(30, 0), Point::new(0, 60), 1, 2);
    assert_eq!(s.center, Point::new(10, 20));
    assert_eq!(s.toward, [Point::new(5, 10), Point::new(20, 10), Point::new(5, 40)]);
}

#[test]
fn samples_are_blended_to_their_mean() {
    assert_eq!(blend(&vec![]), None);
    assert_eq!(blend(&vec![Color::new(9, 8, 7, 6)]), Some(Color::opaque(9, 8, 7)));
    assert_eq!(
        blend(&vec![Color::opaque(255, 0, 10), Color::opaque(255, 1, 20), Color::opaque(255, 1, 31)]),
        Some(Color::opaque(255, 0, 20))
    );
}

#[test]
fn shown_triangles_are_painted_from_their_samples() {
    let mut puzzle = Puzzle::default();
    for (x, y) in [(0, 0), (30, 0), (0, 60), (30, 60)] {
        puzzle.add_point(Point::new(x, y));
    }
    for (a, b) in [(0, 1), (1, 2), (0, 2), (1, 3), (2, 3)] {
        puzzle.add_solution_edge(a, b);
    }
    let plan = sample_plan(&puzzle, 1, 2);
    assert_eq!(plan.len(), 2);
    assert_eq!(plan[0].center, Point::new(10, 20));
    assert_eq!(plan[1].center, Point::new(20, 40));
    let before = puzzle.triangle_color_at(1);
    paint_sampled(&mut puzzle, plan[0].center, &vec![Color::opaque(10, 20, 30), Color::opaque(20, 40, 60)]);
    paint_sampled(&mut puzzle, plan[1].center, &vec![]);
    paint_sampled(&mut puzzle, Point::new(500, 500), &vec![Color::opaque(1, 1, 1)]);
    assert_eq!(puzzle.triangle_color_at(0), Color::opaque(15, 30, 45));
    assert_eq!(puzzle.triangle_color_at(1), before);
}
