use vertex_puzzle::color::Color;
use vertex_puzzle::geometry::Point;
use vertex_puzzle::network::VertexError;
use vertex_puzzle::puzzle::Puzzle;
use vertex_puzzle::storage::{puzzle_to_repr, repr_to_puzzle, PuzzleFileStorage, ReferenceImage};

fn file() -> PuzzleFileStorage {
    PuzzleFileStorage {
        title: "house".to_string(),
        vertices: vec![
            (0, Point::new(0, 0)),
            (1, Point::new(10, 0)),
            (4, Point::new(0, 10)),
            (1, Point::new(20, 0)),
        ],
        edges: vec![(1, 0), (0, 4), (4, 1), (4, 4), (4, 7), (0, 1)],
        triangles: vec![
            (4, 1, 0, Color::opaque(1, 2, 3)),
            (0, 1, 7, Color::opaque(9, 9, 9)),
            (0, 1, 4, Color::opaque(4, 5, 6)),
        ],
        reference_images: vec![ReferenceImage { path: "a.png".to_string(), pos: Point::new(3, 4) }],
    }
}

#[test]
fn loading_keeps_the_later_of_two_entries_and_drops_dangling_ones() {
    let (puzzle, images) = repr_to_puzzle(file()).unwrap();
    assert_eq!(puzzle.title(), "house");
    let vertices: Vec<(usize, Point)> =
        puzzle.vertices().iter().map(|(id, v)| (*id, v.pos)).collect();
    assert_eq!(
        vertices,
        vec![(0, Point::new(0, 0)), (1, Point::new(20, 0)), (4, Point::new(0, 10))]
    );
    assert_eq!(puzzle.next_vertex_id(), 5);
    assert_eq!(puzzle.solution_pairs(), vec![(0, 1), (0, 4), (1, 4)]);
    assert!(puzzle.game_pairs().is_empty());
    assert_eq!(puzzle.triangle_keys_vec(), vec![(0, 1, 4)]);
    assert_eq!(puzzle.triangle_color_at(0), Color::opaque(4, 5, 6));
    assert_eq!(images.len(), 1);
    assert_eq!(images[0].path, "a.png");
    assert_eq!(images[0].pos, Point::new(3, 4));
}

#[test]
fn an_empty_file_gives_an_empty_puzzle_whose_first_id_is_one() {
    let empty = PuzzleFileStorage {
        title: String::new(),
        vertices: vec![],
        edges: vec![(0, 1)],
        triangles: vec![(0, 1, 2, Color::opaque(0, 0, 0))],
        reference_images: vec![],
    };
    let (puzzle, _) = repr_to_puzzle(empty).unwrap();
    assert_eq!(puzzle.next_vertex_id(), 1);
    assert!(puzzle.vertices().is_empty());
    assert!(puzzle.solution_pairs().is_empty());
    assert!(puzzle.triangle_keys_vec().is_empty());
}

#[test]
fn a_vertex_with_the_largest_id_fails_the_load() {
    let mut bad = file();
    bad.vertices.push((usize::MAX, Point::new(1, 1)));
    assert!(matches!(repr_to_puzzle(bad), Err(VertexError::Str(_))));
}

#[test]
fn saving_lists_everything_in_the_order_of_the_puzzle() {
    let mut puzzle = Puzzle::empty("saved".to_string());
    puzzle.add_point(Point::new(5, 6));
    puzzle.add_point(Point::new(7, 8));
    puzzle.add_point(Point::new(9, 1));
    puzzle.add_solution_edge(2, 1);
    puzzle.add_solution_edge(0, 1);
    puzzle.add_solution_edge(0, 2);
    puzzle.set_triangle_color(Point::new(7, 5), Color::opaque(1, 1, 1));
    let repr = puzzle_to_repr(&puzzle, vec![]);
    assert_eq!(repr.title, "saved");
    assert_eq!(
        repr.vertices,
        vec![(0, Point::new(5, 6)), (1, Point::new(7, 8)), (2, Point::new(9, 1))]
    );
    assert_eq!(repr.edges, vec![(1, 2), (0, 1), (0, 2)]);
    assert_eq!(repr.triangles, vec![(0, 1, 2, Color::opaque(1, 1, 1))]);
    assert!(repr.reference_images.is_empty());
}

#[test]
fn a_file_and_what_is_saved_of_it_hold_the_same_puzzle() {
    let (first, images) = repr_to_puzzle(file()).unwrap();
    let saved = puzzle_to_repr(&first, images);
    assert_eq!(saved.reference_images.len(), 1);
    let (second, _) = repr_to_puzzle(saved).unwrap();
    assert_eq!(first.vertices(), second.vertices());
    assert_eq!(first.solution_pairs(), second.solution_pairs());
    assert_eq!(first.triangle_keys_vec(), second.triangle_keys_vec());
    assert_eq!(first.triangle_color_at(0), second.triangle_color_at(0));
    assert_eq!(first.next_vertex_id(), second.next_vertex_id());
}
