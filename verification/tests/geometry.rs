use vertex_puzzle::geometry::{point_in_triangle, Point};

#[test]
fn squared_distance_is_exact() {
    let a = Point::new(0, 0);
    let b = Point::new(3, -4);
    assert_eq!(a.distance_squared(b), 25);
    assert_eq!(b.distance_squared(a), 25);
    let far = Point::new(i32::MIN, i32::MIN).distance_squared(Point::new(i32::MAX, i32::MAX));
    assert_eq!(far, 2 * 4294967295u128 * 4294967295u128);
}

#[test]
fn the_rim_of_a_radius_is_within_but_not_closer() {
    let a = Point::new(0, 0);
    let b = Point::new(3, 4);
    assert!(a.within(b, 5));
    assert!(!a.within(b, 4));
    assert!(!a.closer_than(b, 5));
    assert!(a.closer_than(b, 6));
}

#[test]
fn midpoint_rounds_down() {
    assert_eq!(Point::new(0, 0).midpoint(Point::new(10, 4)), Point::new(5, 2));
    assert_eq!(Point::new(0, 0).midpoint(Point::new(1, -1)), Point::new(0, -1));
    assert_eq!(Point::new(-3, -3).midpoint(Point::new(-4, 2)), Point::new(-4, -1));
}

#[test]
fn a_point_inside_is_contained() {
    let a = Point::new(0, 0);
    let b = Point::new(10, 0);
    let c = Point::new(0, 10);
    assert!(point_in_triangle(Point::new(2, 2), a, b, c));
    assert!(point_in_triangle(Point::new(2, 2), a, c, b));
    assert!(!point_in_triangle(Point::new(8, 8), a, b, c));
    assert!(!point_in_triangle(Point::new(-1, 2), a, b, c));
}

#[test]
fn a_point_on_the_boundary_is_not_contained() {
    let a = Point::new(0, 0);
    let b = Point::new(10, 0);
    let c = Point::new(0, 10);
    assert!(!point_in_triangle(Point::new(5, 0), a, b, c));
    assert!(!point_in_triangle(Point::new(5, 5), a, b, c));
    assert!(!point_in_triangle(a, a, b, c));
}

#[test]
fn a_degenerate_triangle_contains_nothing() {
    let a = Point::new(0, 0);
    let b = Point::new(5, 5);
    let c = Point::new(10, 10);
    assert!(!point_in_triangle(Point::new(3, 3), a, b, c));
    assert!(!point_in_triangle(Point::new(1, 0), a, a, a));
}
