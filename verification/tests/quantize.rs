use vertex_puzzle::color::Color;
use vertex_puzzle::geometry::Point;
use vertex_puzzle::puzzle::Puzzle;
use vertex_puzzle::quantize::{best_run, Clustering, WORST_SCORE};

/// Four triangles in a row of squares, each square cut by a diagonal.
fn four_triangles(colors: [Color; 4]) -> Puzzle {
    let mut puzzle = Puzzle::empty("strip".to_string());
    for (x, y) in [(0, 0), (10, 0), (20, 0), (0, 10), (10, 10), (20, 10)] {
        puzzle.add_point(Point::new(x, y));
    }
    for (a, b) in [(0, 1), (1, 2), (3, 4), (4, 5), (0, 3), (1, 4), (2, 5), (0, 4), (1, 5)] {
        puzzle.restore_edge(a, b);
    }
    puzzle.restore_triangle(0, 1, 4, colors[0]);
    puzzle.restore_triangle(0, 3, 4, colors[1]);
    puzzle.restore_triangle(1, 2, 5, colors[2]);
    puzzle.restore_triangle(1, 4, 5, colors[3]);
    assert_eq!(puzzle.triangle_keys_vec().len(), 4);
    puzzle
}

fn colors_of(puzzle: &Puzzle) -> Vec<Color> {
    (0..puzzle.triangle_keys_vec().len()).map(|i| puzzle.triangle_color_at(i)).collect()
}

#[test]
fn two_reds_and_two_blues_stay_two_colors() {
    let red = Color::opaque(255, 0, 0);
    let blue = Color::opaque(0, 0, 255);
    let mut puzzle = four_triangles([red, red, blue, blue]);
    puzzle.quantize_colors(2);
    assert_eq!(colors_of(&puzzle), vec![red, red, blue, blue]);
}

#[test]
fn quantizing_to_one_color_gives_the_mean_and_makes_it_opaque() {
    let mut puzzle = four_triangles([
        Color::new(200, 0, 0, 10),
        Color::new(100, 0, 0, 20),
        Color::new(200, 0, 40, 30),
        Color::new(100, 0, 40, 40),
    ]);
    puzzle.quantize_colors(1);
    let mean = Color::opaque(150, 0, 20);
    assert_eq!(colors_of(&puzzle), vec![mean, mean, mean, mean]);
}

#[test]
fn near_colors_fall_to_their_cluster() {
    let mut puzzle = four_triangles([
        Color::opaque(250, 10, 10),
        Color::opaque(240, 0, 0),
        Color::opaque(0, 10, 240),
        Color::opaque(10, 0, 250),
    ]);
    puzzle.quantize_colors(2);
    let colors = colors_of(&puzzle);
    assert_eq!(colors[0], colors[1]);
    assert_eq!(colors[2], colors[3]);
    assert_ne!(colors[0], colors[2]);
    assert_eq!(colors[0], Color::opaque(245, 5, 5));
    assert_eq!(colors[2], Color::opaque(5, 5, 245));
}

#[test]
fn quantizing_without_triangles_changes_nothing() {
    let mut puzzle = Puzzle::empty("bare".to_string());
    puzzle.add_point(Point::new(1, 1));
    puzzle.quantize_colors(4);
    assert!(puzzle.triangle_keys_vec().is_empty());
    assert_eq!(puzzle.vertices().len(), 1);
}

#[test]
fn quantizing_to_no_color_changes_nothing() {
    let red = Color::new(255, 0, 0, 7);
    let mut puzzle = four_triangles([red, red, red, red]);
    puzzle.quantize_colors(0);
    assert_eq!(colors_of(&puzzle), vec![red, red, red, red]);
}

#[test]
fn clustering_is_applied_by_position() {
    let grey = Color::new(9, 9, 9, 9);
    let mut puzzle = four_triangles([grey, grey, grey, grey]);
    puzzle.apply_clustering(&vec![(1, 2, 3), (4, 5, 6)], &vec![1, 0, 2]);
    assert_eq!(
        colors_of(&puzzle),
        vec![Color::opaque(4, 5, 6), Color::opaque(1, 2, 3), grey, grey]
    );
}

fn run(score: u32) -> Clustering {
    Clustering { score, centroids: vec![], indices: vec![] }
}

#[test]
fn the_first_lowest_score_is_the_best() {
    assert_eq!(best_run(&vec![]), None);
    assert_eq!(best_run(&vec![run(7), run(3), run(9), run(3)]), Some(1));
    assert_eq!(best_run(&vec![run(WORST_SCORE), run(WORST_SCORE + 1)]), None);
    assert_eq!(best_run(&vec![run(WORST_SCORE), run(WORST_SCORE - 1)]), Some(1));
}

#[test]
fn the_worst_score_is_the_largest_finite_number() {
    assert_eq!(WORST_SCORE, f32::MAX.to_bits());
}

#[test]
fn no_more_colors_are_left_than_were_asked_for() {
    let mut puzzle = four_triangles([
        Color::opaque(200, 30, 30),
        Color::opaque(10, 220, 40),
        Color::opaque(20, 20, 250),
        Color::opaque(240, 240, 10),
    ]);
    puzzle.quantize_colors(3);
    let mut left = colors_of(&puzzle);
    assert_eq!(left.len(), 4);
    assert!(left.iter().all(|c| c.alpha == 255));
    left.sort_by_key(|c| (c.red, c.green, c.blue));
    left.dedup();
    assert!(left.len() <= 3);
    puzzle.quantize_colors(1);
    let mut one = colors_of(&puzzle);
    one.dedup();
    assert_eq!(one.len(), 1);
}

#[test]
fn the_threshold_is_one_tenth() {
    let (digits, exponent) = vertex_puzzle::quantize::CONVERGENCE;
    let text = format!("{}e{}", digits, exponent);
    assert_eq!(text.parse::<f32>().unwrap(), 0.1f32);
}
