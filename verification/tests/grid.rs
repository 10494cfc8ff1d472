use vertex_puzzle::cursor::{edges_in_reach, vertices_in_reach};
use vertex_puzzle::geometry::Point;
use vertex_puzzle::grid::{
    grid_bounds, grid_center, grids_in_radius, local_quad, to_grid, to_grid_sized, Cell,
    SpatialLookup,
};
use vertex_puzzle::puzzle::Puzzle;

fn cell(x: i32, y: i32) -> Cell {
    Cell { x, y }
}

#[test]
fn grid_conversions() {
    assert_eq!(to_grid(Point::new(40, 30)), cell(0, 0));
    assert_eq!(to_grid(Point::new(40, 210)), cell(0, 2));
    assert_eq!(to_grid(Point::new(340, 210)), cell(3, 2));
    assert_eq!(to_grid(Point::new(920, 500)), cell(9, 5));

    assert_eq!(to_grid(Point::new(-40, -130)), cell(-1, -2));
    assert_eq!(to_grid(Point::new(-290, -430)), cell(-3, -5));
}

#[test]
fn grid_grid_conversions() {
    assert_eq!(to_grid_sized(Point::new(40, 130), 200), cell(0, 0));
    assert_eq!(to_grid_sized(Point::new(40, 210), 200), cell(0, 1));
    assert_eq!(to_grid_sized(Point::new(340, 210), 200), cell(1, 1));
    assert_eq!(to_grid_sized(Point::new(920, 500), 200), cell(4, 2));

    assert_eq!(to_grid_sized(Point::new(-40, -130), 200), cell(-1, -1));
    assert_eq!(to_grid_sized(Point::new(-290, -430), 200), cell(-2, -3));
}

#[test]
fn cells_of_any_size() {
    assert_eq!(to_grid_sized(Point::new(-1, 1), 1), cell(-1, 1));
    assert_eq!(to_grid_sized(Point::new(-200, 199), 200), cell(-1, 0));
    assert_eq!(to_grid_sized(Point::new(i32::MIN, i32::MAX), i32::MAX), cell(-2, 1));
    assert_eq!(to_grid_sized(Point::new(i32::MIN, i32::MAX), 1), cell(i32::MIN, i32::MAX));
    assert_eq!(to_grid_sized(Point::new(-430, 920), 100), to_grid(Point::new(-430, 920)));
}

#[test]
fn cells_at_the_limits_of_the_lattice() {
    assert_eq!(to_grid(Point::new(-100, -1)), cell(-1, -1));
    assert_eq!(to_grid(Point::new(99, 100)), cell(0, 1));
    assert_eq!(to_grid(Point::new(i32::MIN, i32::MAX)), cell(-21474837, 21474836));
}

#[test]
fn bounds_and_centre_of_a_cell() {
    let (lower, upper) = grid_bounds(cell(2, -1));
    assert_eq!(lower, Point::new(200, -100));
    assert_eq!(upper, Point::new(300, 0));
    assert_eq!(grid_center(cell(2, -1)), Point::new(250, -50));
    assert_eq!(to_grid(grid_center(cell(-7, 3))), cell(-7, 3));
}

#[test]
fn local_quad_looks_towards_the_near_corner() {
    assert_eq!(local_quad(Point::new(60, 70)), [cell(0, 0), cell(1, 0), cell(0, 1), cell(1, 1)]);
    assert_eq!(local_quad(Point::new(60, 20)), [cell(0, 0), cell(1, 0), cell(0, -1), cell(1, -1)]);
    assert_eq!(local_quad(Point::new(10, 70)), [cell(0, 0), cell(-1, 0), cell(0, 1), cell(-1, 1)]);
    assert_eq!(
        local_quad(Point::new(-90, -90)),
        [cell(-1, -1), cell(-2, -1), cell(-1, -2), cell(-2, -2)]
    );
    assert_eq!(local_quad(Point::new(50, 50)), [cell(0, 0), cell(-1, 0), cell(0, -1), cell(-1, -1)]);
}

#[test]
fn a_query_of_radius_zero_lists_the_own_cell() {
    assert_eq!(grids_in_radius(Point::new(50, 50), 0), vec![cell(0, 0)]);
    assert_eq!(grids_in_radius(Point::new(1, 1), 0), vec![cell(0, 0)]);
}

#[test]
fn a_corner_is_half_a_diagonal_from_four_centres() {
    assert_eq!(
        grids_in_radius(Point::new(0, 0), 0),
        vec![cell(-1, -1), cell(-1, 0), cell(0, -1), cell(0, 0)]
    );
}

#[test]
fn a_centre_in_reach_is_listed_whatever_its_column() {
    let cells = grids_in_radius(Point::new(99, 50), 100);
    assert!(cells.contains(&cell(2, 0)));
    assert_eq!(
        cells,
        vec![
            cell(-1, 0),
            cell(0, -1),
            cell(0, 0),
            cell(0, 1),
            cell(1, -1),
            cell(1, 0),
            cell(1, 1),
            cell(2, 0),
        ]
    );
}

#[test]
fn a_query_lists_cells_column_by_column() {
    let cells = grids_in_radius(Point::new(50, 50), 100);
    assert_eq!(
        cells,
        vec![
            cell(-1, -1),
            cell(-1, 0),
            cell(-1, 1),
            cell(0, -1),
            cell(0, 0),
            cell(0, 1),
            cell(1, -1),
            cell(1, 0),
            cell(1, 1),
        ]
    );
    let near_corner = grids_in_radius(Point::new(0, 0), 30);
    assert_eq!(near_corner, vec![cell(-1, -1), cell(-1, 0), cell(0, -1), cell(0, 0)]);
}

#[test]
fn a_far_corner_cell_is_left_out() {
    let cells = grids_in_radius(Point::new(99, 99), 1);
    assert_eq!(cells, vec![cell(0, 0), cell(0, 1), cell(1, 0)]);
    let wider = grids_in_radius(Point::new(99, 99), 2);
    assert_eq!(wider, vec![cell(0, 0), cell(0, 1), cell(1, 0), cell(1, 1)]);
}

fn scattered() -> Puzzle {
    let mut puzzle = Puzzle::empty("scattered".to_string());
    let mut seed: i64 = 12345;
    for _ in 0..200 {
        seed = (seed * 1103515245 + 12345) % 2147483648;
        let x = (seed % 2001 - 1000) as i32;
        seed = (seed * 1103515245 + 12345) % 2147483648;
        let y = (seed % 2001 - 1000) as i32;
        puzzle.add_point(Point::new(x, y));
    }
    for a in 0..199 {
        puzzle.restore_edge(a, a + 1);
    }
    puzzle
}

#[test]
fn the_grid_query_finds_what_brute_force_finds() {
    let puzzle = scattered();
    let mut lut = SpatialLookup::new();
    lut.rebuild(&puzzle);
    for (p, r) in [
        (Point::new(0, 0), 0u32),
        (Point::new(0, 0), 150),
        (Point::new(-400, 730), 99),
        (Point::new(999, -999), 333),
        (Point::new(10, 10), 3000),
    ] {
        let mut found = vertices_in_reach(&lut, &puzzle, p, r);
        found.sort();
        let mut brute: Vec<usize> = puzzle
            .vertices()
            .iter()
            .filter(|(_, v)| v.pos.closer_than(p, r))
            .map(|(id, _)| *id)
            .collect();
        brute.sort();
        assert_eq!(found, brute);

        let mut edges = edges_in_reach(&lut, &puzzle, p, r);
        edges.sort();
        let mut brute_edges: Vec<(usize, usize)> = puzzle
            .solution_edges()
            .iter()
            .filter(|(_, u, _, v)| u.pos.midpoint(v.pos).closer_than(p, r))
            .map(|(a, _, b, _)| (*a, *b))
            .collect();
        brute_edges.sort();
        assert_eq!(edges, brute_edges);
    }
}

#[test]
fn the_index_holds_each_vertex_under_its_cell() {
    let mut puzzle = Puzzle::empty("two".to_string());
    let a = puzzle.add_point(Point::new(10, 10));
    let b = puzzle.add_point(Point::new(-10, 250));
    let c = puzzle.add_point(Point::new(90, 90));
    puzzle.add_solution_edge(a, b);
    let mut lut = SpatialLookup::new();
    lut.rebuild(&puzzle);
    assert_eq!(lut.lup_vertex(cell(0, 0)), Some(&vec![a, c]));
    assert_eq!(lut.lup_vertex(cell(-1, 2)), Some(&vec![b]));
    assert_eq!(lut.lup_vertex(cell(5, 5)), None);
    assert_eq!(lut.lup_edge(cell(0, 1)), Some(&vec![(a, b)]));
    assert_eq!(lut.lup_edge(cell(0, 0)), None);
    assert_eq!(lut.occupied_vertex(), vec![cell(0, 0), cell(-1, 2)]);
    assert_eq!(lut.occupied_edge(), vec![cell(0, 1)]);

    puzzle.remove_vertex(a);
    lut.rebuild(&puzzle);
    assert_eq!(lut.lup_vertex(cell(0, 0)), Some(&vec![c]));
    assert_eq!(lut.lup_edge(cell(0, 1)), None);
}
