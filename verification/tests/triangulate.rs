use vertex_puzzle::cursor::SelectedVertices;
use vertex_puzzle::geometry::Point;
use vertex_puzzle::puzzle::Puzzle;

fn select(ids: &[usize]) -> SelectedVertices {
    let mut sel = SelectedVertices::new();
    for id in ids {
        sel.insert(*id);
    }
    sel
}

fn sorted(mut pairs: Vec<(usize, usize)>) -> Vec<(usize, usize)> {
    pairs.sort();
    pairs
}

#[test]
fn a_square_gets_its_sides_and_one_diagonal() {
    let mut puzzle = Puzzle::empty("square".to_string());
    for (x, y) in [(0, 0), (40, 0), (40, 30), (0, 30)] {
        puzzle.add_point(Point::new(x, y));
    }
    puzzle.triangulate(&select(&[0, 1, 2, 3]));
    let edges = sorted(puzzle.solution_pairs());
    assert_eq!(edges.len(), 5);
    for side in [(0, 1), (1, 2), (2, 3), (0, 3)] {
        assert!(edges.contains(&side));
    }
    assert!(edges.contains(&(0, 2)) != edges.contains(&(1, 3)));
    assert_eq!(puzzle.triangle_keys_vec().len(), 2);
}

#[test]
fn triangulation_is_repeatable() {
    let mut first = Puzzle::empty("a".to_string());
    let mut second = Puzzle::empty("b".to_string());
    for (x, y) in [(0, 0), (50, 10), (20, 60), (70, 70), (-30, 40), (10, 25)] {
        first.add_point(Point::new(x, y));
        second.add_point(Point::new(x, y));
    }
    let sel = select(&[0, 1, 2, 3, 4, 5]);
    first.triangulate(&sel);
    second.triangulate(&sel);
    second.triangulate(&sel);
    assert!(!first.solution_pairs().is_empty());
    assert_eq!(sorted(first.solution_pairs()), sorted(second.solution_pairs()));
    assert_eq!(first.triangle_keys_vec().len(), second.triangle_keys_vec().len());
}

#[test]
fn sides_longer_than_the_limit_are_not_committed() {
    let mut puzzle = Puzzle::empty("long".to_string());
    for (x, y) in [(0, 0), (100, 0), (0, 101)] {
        puzzle.add_point(Point::new(x, y));
    }
    puzzle.triangulate(&select(&[0, 1, 2]));
    assert_eq!(puzzle.solution_pairs(), vec![(0, 1)]);
    assert!(puzzle.triangle_keys_vec().is_empty());
}

#[test]
fn fewer_than_three_vertices_give_no_edges() {
    let mut puzzle = Puzzle::empty("pair".to_string());
    puzzle.add_point(Point::new(0, 0));
    puzzle.add_point(Point::new(10, 0));
    puzzle.add_point(Point::new(50, 50));
    puzzle.add_solution_edge(0, 1);
    puzzle.add_solution_edge(1, 2);
    puzzle.triangulate(&select(&[0, 1]));
    assert_eq!(puzzle.solution_pairs(), vec![(1, 2)]);
    puzzle.triangulate(&select(&[]));
    assert_eq!(puzzle.solution_pairs(), vec![(1, 2)]);
}

#[test]
fn edges_outside_the_selection_stay_and_unknown_ids_are_skipped() {
    let mut puzzle = Puzzle::empty("part".to_string());
    for (x, y) in [(0, 0), (30, 0), (0, 30), (500, 500), (530, 500)] {
        puzzle.add_point(Point::new(x, y));
    }
    puzzle.add_solution_edge(3, 4);
    puzzle.add_solution_edge(2, 3);
    puzzle.triangulate(&select(&[2, 99, 0, 1]));
    let edges = sorted(puzzle.solution_pairs());
    assert_eq!(edges, vec![(0, 1), (0, 2), (1, 2), (2, 3), (3, 4)]);
    assert_eq!(puzzle.triangle_keys_vec(), vec![(0, 1, 2)]);
}

#[test]
fn triples_are_folded_into_edges() {
    let mut puzzle = Puzzle::empty("given".to_string());
    for (x, y) in [(0, 0), (30, 0), (0, 30), (30, 30)] {
        puzzle.add_point(Point::new(x, y));
    }
    puzzle.add_solution_edge(0, 3);
    puzzle.apply_triangulation(&vec![0, 1, 2, 3], &vec![0, 1, 2, 1, 9, 3, 2, 3]);
    assert_eq!(puzzle.solution_pairs(), vec![(0, 1), (1, 2), (0, 2)]);
    assert_eq!(puzzle.triangle_keys_vec(), vec![(0, 1, 2)]);
}

#[test]
fn collinear_vertices_give_no_triangles() {
    let mut puzzle = Puzzle::empty("line".to_string());
    for x in [0, 10, 20, 30] {
        puzzle.add_point(Point::new(x, x));
    }
    puzzle.triangulate(&select(&[0, 1, 2, 3]));
    assert!(puzzle.solution_pairs().is_empty());
}

#[test]
fn a_larger_mesh_keeps_triangles_and_edges_together() {
    let mut puzzle = Puzzle::empty("mesh".to_string());
    let mut seed: i64 = 99;
    let mut ids = Vec::new();
    for _ in 0..80 {
        seed = (seed * 1103515245 + 12345) % 2147483648;
        let x = (seed % 401) as i32;
        seed = (seed * 1103515245 + 12345) % 2147483648;
        let y = (seed % 401) as i32;
        ids.push(puzzle.add_point(Point::new(x, y)));
    }
    puzzle.triangulate(&select(&ids));
    let edges = puzzle.solution_pairs();
    let keys = puzzle.triangle_keys_vec();
    assert!(edges.len() > 80);
    assert!(keys.len() > 40);
    for (a, b) in &edges {
        assert!(a < b);
        let pa = puzzle.vertex_n(*a).unwrap().pos;
        let pb = puzzle.vertex_n(*b).unwrap().pos;
        assert!(pa.within(pb, 100));
    }
    for (a, b, c) in &keys {
        assert!(a < b && b < c);
        assert!(edges.contains(&(*a, *b)) && edges.contains(&(*b, *c)) && edges.contains(&(*a, *c)));
    }
    for a in 0..80 {
        for b in (a + 1)..80 {
            for c in (b + 1)..80 {
                let closed =
                    edges.contains(&(a, b)) && edges.contains(&(b, c)) && edges.contains(&(a, c));
                assert_eq!(closed, keys.contains(&(a, b, c)));
            }
        }
    }
    puzzle.remove_vertex(ids[7]);
    assert!(puzzle.solution_pairs().iter().all(|(a, b)| *a != ids[7] && *b != ids[7]));
    assert!(puzzle
        .triangle_keys_vec()
        .iter()
        .all(|(a, b, c)| *a != ids[7] && *b != ids[7] && *c != ids[7]));
}

#[test]
fn a_pair_of_vertices_loses_its_edge_and_gets_none() {
    let mut puzzle = Puzzle::empty("two".to_string());
    puzzle.add_point(Point::new(0, 0));
    puzzle.add_point(Point::new(10, 0));
    puzzle.add_solution_edge(0, 1);
    puzzle.triangulate(&select(&[1, 0]));
    assert!(puzzle.solution_pairs().is_empty());
    puzzle.triangulate(&select(&[1]));
    assert!(puzzle.solution_pairs().is_empty());
    assert!(puzzle.triangle_keys_vec().is_empty());
}
