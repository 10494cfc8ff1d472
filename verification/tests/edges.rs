use vertex_puzzle::edge::{normalize_edge, Edges};

#[test]
fn normalize_puts_the_smaller_id_first() {
    assert_eq!(normalize_edge(3, 7), (3, 7));
    assert_eq!(normalize_edge(7, 3), (3, 7));
    assert_eq!(normalize_edge(4, 4), (4, 4));
}

#[test]
fn an_added_edge_is_found_from_both_ends() {
    let mut edges = Edges::new();
    edges.add_edge(9, 2);
    assert!(edges.is_edge(9, 2));
    assert!(edges.is_edge(2, 9));
    assert_eq!(edges.to_vec(), vec![(2, 9)]);
}

#[test]
fn adding_is_idempotent_and_ignores_loops() {
    let mut edges = Edges::new();
    edges.add_edge(1, 2);
    edges.add_edge(2, 1);
    edges.add_edge(5, 5);
    assert_eq!(edges.len(), 1);
    assert!(!edges.is_edge(5, 5));
}

#[test]
fn removing_is_idempotent() {
    let mut edges = Edges::new();
    edges.add_edge(1, 2);
    edges.add_edge(2, 3);
    edges.remove_edge(2, 1);
    edges.remove_edge(1, 2);
    edges.remove_edge(8, 9);
    assert_eq!(edges.to_vec(), vec![(2, 3)]);
}

#[test]
fn toggle_adds_then_removes() {
    let mut edges = Edges::new();
    edges.toggle(4, 1);
    assert!(edges.is_edge(1, 4));
    edges.toggle(1, 4);
    assert!(!edges.is_edge(1, 4));
    edges.toggle(6, 6);
    assert!(edges.is_empty());
}

#[test]
fn remove_vertex_removes_every_edge_at_it() {
    let mut edges = Edges::new();
    edges.add_edge(0, 1);
    edges.add_edge(1, 2);
    edges.add_edge(2, 3);
    edges.add_edge(3, 1);
    edges.remove_vertex(1);
    assert_eq!(edges.to_vec(), vec![(2, 3)]);
}

#[test]
fn remove_between_keeps_edges_that_leave_the_group() {
    let mut edges = Edges::new();
    edges.add_edge(0, 1);
    edges.add_edge(1, 2);
    edges.add_edge(2, 3);
    edges.remove_between(&vec![0, 1, 2]);
    assert_eq!(edges.to_vec(), vec![(2, 3)]);
}

#[test]
fn clear_removes_everything() {
    let mut edges = Edges::new();
    edges.add_edge(0, 1);
    edges.clear();
    assert!(edges.is_empty());
    assert!(!edges.is_edge(0, 1));
}

#[test]
fn equality_does_not_depend_on_the_order_of_insertion() {
    let mut a = Edges::new();
    a.add_edge(0, 1);
    a.add_edge(1, 2);
    let mut b = Edges::new();
    b.add_edge(2, 1);
    b.add_edge(1, 0);
    assert!(a.same_edges(&b));
    b.add_edge(0, 2);
    assert!(!a.same_edges(&b));
    assert!(Edges::new().same_edges(&Edges::default()));
}
