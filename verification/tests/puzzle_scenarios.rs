use vertex_puzzle::geometry::Point;
use vertex_puzzle::puzzle::Puzzle;

fn three_vertices() -> Puzzle {
    let mut puzzle = Puzzle::empty("triangle".to_string());
    assert_eq!(puzzle.add_point(Point::new(0, 0)), 0);
    assert_eq!(puzzle.add_point(Point::new(10, 0)), 1);
    assert_eq!(puzzle.add_point(Point::new(0, 10)), 2);
    puzzle
}

#[test]
fn three_mutual_edges_close_one_triangle() {
    let mut puzzle = three_vertices();
    puzzle.add_solution_edge(0, 1);
    puzzle.add_solution_edge(1, 2);
    assert!(puzzle.triangle_keys_vec().is_empty());
    puzzle.add_solution_edge(2, 0);
    assert_eq!(puzzle.triangle_keys_vec(), vec![(0, 1, 2)]);
}

#[test]
fn removing_a_side_removes_the_triangle() {
    let mut puzzle = three_vertices();
    puzzle.add_solution_edge(0, 1);
    puzzle.add_solution_edge(1, 2);
    puzzle.add_solution_edge(0, 2);
    assert_eq!(puzzle.triangle_keys_vec().len(), 1);
    puzzle.remove_solution_edge(0, 1);
    assert_eq!(puzzle.triangle_keys_vec().len(), 0);
}

#[test]
fn completion_follows_the_edge_sets() {
    let mut puzzle = three_vertices();
    puzzle.add_solution_edge(0, 1);
    puzzle.add_solution_edge(1, 2);
    assert!(!puzzle.is_complete());
    puzzle.toggle_edge(1, 0, true);
    assert!(!puzzle.is_complete());
    puzzle.toggle_edge(2, 1, true);
    assert!(puzzle.is_complete());
    puzzle.toggle_edge(1, 2, true);
    assert!(!puzzle.is_complete());
}
