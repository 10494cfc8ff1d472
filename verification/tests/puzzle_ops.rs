use vertex_puzzle::color::Color;
use vertex_puzzle::geometry::Point;
use vertex_puzzle::puzzle::Puzzle;
use vertex_puzzle::vertex::Vertex;

fn kite() -> Puzzle {
    let mut puzzle = Puzzle::empty("kite".to_string());
    for (x, y) in [(0, 0), (10, 0), (0, 10), (10, 10)] {
        puzzle.add_point(Point::new(x, y));
    }
    for (a, b) in [(0, 1), (1, 2), (0, 2), (1, 3), (2, 3)] {
        puzzle.add_solution_edge(a, b);
    }
    puzzle
}

#[test]
fn ids_ascend_and_are_not_given_twice() {
    let mut puzzle = Puzzle::empty("ids".to_string());
    assert!(puzzle.has_free_id());
    assert_eq!(puzzle.add_point(Point::new(1, 1)), 0);
    assert_eq!(puzzle.add_point(Point::new(2, 2)), 1);
    puzzle.remove_vertex(1);
    assert_eq!(puzzle.add_point(Point::new(3, 3)), 2);
    assert_eq!(puzzle.vertex_n(1), None);
    assert_eq!(puzzle.vertex_n(2), Some(&Vertex::new(Point::new(3, 3))));
    assert_eq!(puzzle.next_vertex_id(), 3);
}

#[test]
fn two_triangles_are_derived_from_five_edges() {
    let puzzle = kite();
    assert_eq!(puzzle.triangle_keys_vec(), vec![(0, 1, 2), (1, 2, 3)]);
}

#[test]
fn removing_a_vertex_removes_its_edges_and_triangles() {
    let mut puzzle = kite();
    puzzle.add_game_edge(0, 1);
    puzzle.add_game_edge(2, 3);
    puzzle.remove_vertex(0);
    assert_eq!(puzzle.solution_pairs(), vec![(1, 2), (1, 3), (2, 3)]);
    assert_eq!(puzzle.game_pairs(), vec![(2, 3)]);
    assert_eq!(puzzle.triangle_keys_vec(), vec![(1, 2, 3)]);
    assert_eq!(puzzle.vertices().len(), 3);
    puzzle.remove_vertex(0);
    puzzle.remove_vertex(77);
    assert_eq!(puzzle.vertices().len(), 3);
}

#[test]
fn a_triangle_keeps_its_color_over_a_recomputation() {
    let mut puzzle = kite();
    let paint = Color::opaque(1, 2, 3);
    puzzle.set_triangle_color(Point::new(2, 2), paint);
    assert_eq!(puzzle.triangle_color_at(0), paint);
    puzzle.remove_solution_edge(2, 3);
    puzzle.add_solution_edge(3, 2);
    puzzle.update();
    assert_eq!(puzzle.triangle_keys_vec(), vec![(0, 1, 2), (1, 2, 3)]);
    assert_eq!(puzzle.triangle_color_at(0), paint);
    let fresh = puzzle.triangle_color_at(1);
    assert_eq!(fresh.alpha, 255);
    assert!(fresh.red >= 51 && fresh.green >= 51 && fresh.blue >= 51);
}

#[test]
fn a_triangle_needs_its_largest_corner_stored() {
    let mut puzzle = Puzzle::empty("dangling".to_string());
    puzzle.add_point(Point::new(0, 0));
    puzzle.add_solution_edge(0, 1);
    puzzle.add_solution_edge(1, 2);
    puzzle.add_solution_edge(0, 2);
    assert!(puzzle.triangle_keys_vec().is_empty());
    puzzle.add_point(Point::new(1, 0));
    puzzle.add_point(Point::new(0, 1));
    puzzle.update();
    assert_eq!(puzzle.triangle_keys_vec(), vec![(0, 1, 2)]);
}

#[test]
fn the_nearest_vertex_within_the_radius_is_found() {
    let puzzle = kite();
    assert_eq!(puzzle.vertex_at(Point::new(1, 1), 5), Some(0));
    assert_eq!(puzzle.vertex_at(Point::new(9, 8), 5), Some(3));
    assert_eq!(puzzle.vertex_at(Point::new(5, 5), 5), None);
    assert_eq!(puzzle.vertex_at(Point::new(3, 4), 5), Some(0));
    assert_eq!(puzzle.vertex_at(Point::new(5, 0), 5), Some(0));
    assert_eq!(puzzle.vertex_at(Point::new(5, 5), 8), Some(0));
    assert_eq!(Puzzle::empty("none".to_string()).vertex_at(Point::new(0, 0), 1000), None);
}

#[test]
fn the_triangle_under_a_point_is_found_and_painted() {
    let mut puzzle = kite();
    assert_eq!(puzzle.triangle_at(Point::new(2, 2)), Some((0, 1, 2)));
    assert_eq!(puzzle.triangle_at(Point::new(8, 8)), Some((1, 2, 3)));
    assert_eq!(puzzle.triangle_at(Point::new(5, 5)), None);
    assert_eq!(puzzle.triangle_at(Point::new(20, 20)), None);
    let paint = Color::new(7, 8, 9, 10);
    puzzle.set_triangle_color(Point::new(8, 8), paint);
    puzzle.set_triangle_color(Point::new(5, 5), Color::opaque(0, 0, 0));
    assert_eq!(puzzle.get_triangle_at(Point::new(9, 9)).unwrap().color, paint);
    assert_ne!(puzzle.triangle_color_at(0), paint);
    assert!(puzzle.get_triangle_at(Point::new(50, 9)).is_none());
}

#[test]
fn triangles_show_with_the_players_edges() {
    let mut puzzle = kite();
    let paint = Color::opaque(5, 5, 5);
    puzzle.set_triangle_color(Point::new(2, 2), paint);
    assert_eq!(puzzle.triangles(false).len(), 2);
    assert!(puzzle.triangles(true).is_empty());
    assert_eq!(puzzle.progress(), (0, 2));
    puzzle.add_game_edge(0, 1);
    puzzle.add_game_edge(2, 1);
    assert_eq!(puzzle.progress(), (0, 2));
    puzzle.add_game_edge(2, 0);
    assert_eq!(puzzle.progress(), (1, 2));
    assert_eq!(
        puzzle.triangles(true),
        vec![(Point::new(0, 0), Point::new(10, 0), Point::new(0, 10), paint)]
    );
    assert_eq!(Puzzle::empty("none".to_string()).progress(), (0, 0));
}

#[test]
fn edges_are_listed_with_their_vertices() {
    let mut puzzle = kite();
    puzzle.add_solution_edge(3, 9);
    puzzle.add_game_edge(1, 0);
    puzzle.add_game_edge(0, 9);
    let listed = puzzle.solution_edges();
    assert_eq!(listed.len(), 5);
    assert_eq!(listed[0].0, 0);
    assert_eq!(listed[0].1.pos, Point::new(0, 0));
    assert_eq!(listed[0].2, 1);
    assert_eq!(listed[0].3.pos, Point::new(10, 0));
    let drawn = puzzle.game_edges();
    assert_eq!(drawn.len(), 1);
    assert_eq!(drawn[0].0.pos, Point::new(0, 0));
    assert_eq!(drawn[0].1.pos, Point::new(10, 0));
}

#[test]
fn the_counters_follow_the_players_edges() {
    let mut puzzle = kite();
    puzzle.add_game_edge(1, 0);
    puzzle.add_game_edge(1, 2);
    puzzle.add_game_edge(0, 3);
    puzzle.step();
    let counts: Vec<(usize, usize)> =
        puzzle.vertices().iter().map(|(_, v)| (v.visible_count, v.invisible_count)).collect();
    assert_eq!(counts, vec![(1, 1), (2, 1), (1, 2), (0, 2)]);
    puzzle.complete();
    puzzle.step();
    assert_eq!(puzzle.vertex_n(1).unwrap().visible_count, 3);
    assert_eq!(puzzle.vertex_n(1).unwrap().invisible_count, 0);
    assert_eq!(puzzle.vertex_n(1).unwrap().pos, Point::new(10, 0));
}

#[test]
fn an_empty_puzzle_is_complete_and_an_empty_game_is_not_a_solution() {
    let mut puzzle = Puzzle::empty("policy".to_string());
    assert!(puzzle.is_complete());
    puzzle.add_point(Point::new(0, 0));
    puzzle.add_point(Point::new(1, 0));
    puzzle.add_solution_edge(0, 1);
    assert!(!puzzle.is_complete());
    puzzle.complete();
    assert!(puzzle.is_complete());
    puzzle.add_game_edge(0, 5);
    assert!(!puzzle.is_complete());
    puzzle.decomplete();
    assert!(!puzzle.is_complete());
    assert!(puzzle.game_pairs().is_empty());
}

#[test]
fn toggling_while_editing_changes_the_solution() {
    let mut puzzle = kite();
    puzzle.toggle_edge(0, 1, false);
    assert_eq!(puzzle.triangle_keys_vec(), vec![(1, 2, 3)]);
    assert!(puzzle.game_pairs().is_empty());
    puzzle.toggle_edge(1, 0, false);
    assert_eq!(puzzle.triangle_keys_vec(), vec![(1, 2, 3), (0, 1, 2)]);
    puzzle.remove_game_edge(0, 1);
    assert_eq!(puzzle.solution_pairs().len(), 5);
}
