//! The requests that change a puzzle, and how each is carried out.

use vstd::prelude::*;
use crate::edge::{with_edge, without_edge, toggled};
use crate::geometry::Point;
use crate::puzzle::Puzzle;
use crate::states::AppState;
use crate::quantize::{quantized, CONVERGENCE, MAX_ITERATIONS, RUNS};
use crate::vertex::fresh_vertex;

verus! {

/// A request for a new vertex at a position.
#[derive(Clone, Copy, Debug, PartialEq, Eq, Structural)]
pub struct AddVertex(pub Point);

/// A request to remove a vertex.
#[derive(Clone, Copy, Debug, PartialEq, Eq, Structural)]
pub struct DeleteVertex(pub usize);

/// A request to join two vertices.
#[derive(Clone, Copy, Debug, PartialEq, Eq, Structural)]
pub struct AddEdge(pub usize, pub usize);

/// A request to part two vertices.
#[derive(Clone, Copy, Debug, PartialEq, Eq, Structural)]
pub struct DeleteEdge(pub usize, pub usize);

/// A request to toggle the edge between two vertices.
#[derive(Clone, Copy, Debug, PartialEq, Eq, Structural)]
pub struct ToggleEdge(pub usize, pub usize);

/// A request to reduce the colours of the triangles to a number of colours.
#[derive(Clone, Copy, Debug, PartialEq, Eq, Structural)]
pub struct Quantize(pub u16);

/// A request to save the puzzle that is open.
#[derive(Clone, Copy, Debug, PartialEq, Eq, Structural)]
pub struct SavePuzzle;

/// A request to open the puzzle with a number of the manifest.
#[derive(Clone, Copy, Debug, PartialEq, Eq, Structural)]
pub struct OpenPuzzleById(pub usize);

/// The number of the puzzle that is open, if one is.
#[derive(Clone, Copy, Debug, PartialEq, Eq, Structural)]
pub struct CurrentPuzzle(pub Option<usize>);

/// Adds the vertex; the id of the new vertex is returned.
pub fn on_add_vertex(puzzle: &mut Puzzle, msg: &AddVertex) -> (id: usize)
    requires
        old(puzzle).wf(),
        old(puzzle).next_id() < usize::MAX,
    ensures
        final(puzzle).wf(),
        id == old(puzzle).next_id(),
        final(puzzle).next_id() == id + 1,
        final(puzzle).vertex_map() == old(puzzle).vertex_map().insert(id, fresh_vertex(msg.0)),
        final(puzzle).same_solution(old(puzzle)),
        final(puzzle).same_game(old(puzzle)),
        final(puzzle).same_triangles(old(puzzle)),
{
    puzzle.add_point(msg.0)
}

/// Removes the vertex with its edges and triangles. The position that the
/// vertex had is returned, if it was stored.
pub fn on_delete_vertex(puzzle: &mut Puzzle, msg: &DeleteVertex) -> (was_at: Option<Point>)
    requires
        old(puzzle).wf(),
    ensures
        final(puzzle).wf(),
        was_at == if old(puzzle).vertex_map().dom().contains(msg.0) {
            Some(old(puzzle).vertex_map()[msg.0].pos)
        } else {
            None
        },
        final(puzzle).vertex_map() == old(puzzle).vertex_map().remove(msg.0),
        final(puzzle).solution() == crate::edge::without_vertex(old(puzzle).solution(), msg.0),
        final(puzzle).game() == crate::edge::without_vertex(old(puzzle).game(), msg.0),
        final(puzzle).recomputed(old(puzzle)),
{
    let was_at = match puzzle.vertex_n(msg.0) {
        Some(v) => Some(v.pos),
        None => None,
    };
    puzzle.remove_vertex(msg.0);
    was_at
}

/// Adds the edge: to the solution while editing, to the player's edges
/// otherwise.
pub fn on_add_edge(puzzle: &mut Puzzle, msg: &AddEdge, state: &AppState)
    requires
        old(puzzle).wf(),
    ensures
        final(puzzle).wf(),
        final(puzzle).same_vertices(old(puzzle)),
        *state is Editing ==> final(puzzle).same_game(old(puzzle)) && final(puzzle).solution()
            == with_edge(old(puzzle).solution(), msg.0, msg.1) && final(puzzle).recomputed(old(puzzle)),
        !(*state is Editing) ==> final(puzzle).same_solution(old(puzzle)) && final(puzzle).same_triangles(old(puzzle)) && final(puzzle).game() == with_edge(
            old(puzzle).game(),
            msg.0,
            msg.1,
        ),
{
    if state.is_editor() {
        puzzle.add_solution_edge(msg.0, msg.1);
    } else {
        puzzle.add_game_edge(msg.0, msg.1);
    }
}

/// Removes the edge: from the solution while editing, from the player's
/// edges otherwise.
pub fn on_delete_edge(puzzle: &mut Puzzle, msg: &DeleteEdge, state: &AppState)
    requires
        old(puzzle).wf(),
    ensures
        final(puzzle).wf(),
        final(puzzle).same_vertices(old(puzzle)),
        *state is Editing ==> final(puzzle).same_game(old(puzzle)) && final(puzzle).solution()
            == without_edge(old(puzzle).solution(), msg.0, msg.1) && final(puzzle).recomputed(old(puzzle)),
        !(*state is Editing) ==> final(puzzle).same_solution(old(puzzle)) && final(puzzle).same_triangles(old(puzzle)) && final(puzzle).game() == without_edge(
            old(puzzle).game(),
            msg.0,
            msg.1,
        ),
{
    if state.is_editor() {
        puzzle.remove_solution_edge(msg.0, msg.1);
    } else {
        puzzle.remove_game_edge(msg.0, msg.1);
    }
}

/// Toggles the edge: in the solution while editing, among the player's edges
/// otherwise.
pub fn on_toggle_edge(puzzle: &mut Puzzle, msg: &ToggleEdge, state: &AppState)
    requires
        old(puzzle).wf(),
    ensures
        final(puzzle).wf(),
        final(puzzle).same_vertices(old(puzzle)),
        *state is Editing ==> final(puzzle).same_game(old(puzzle)) && final(puzzle).solution()
            == toggled(old(puzzle).solution(), msg.0, msg.1) && final(puzzle).recomputed(old(puzzle)),
        !(*state is Editing) ==> final(puzzle).same_solution(old(puzzle)) && final(puzzle).same_triangles(old(puzzle)) && final(puzzle).game() == toggled(
            old(puzzle).game(),
            msg.0,
            msg.1,
        ),
{
    let is_play = !state.is_editor();
    puzzle.toggle_edge(msg.0, msg.1, is_play);
}

/// Reduces the colours of the triangles.
pub fn on_quantize(puzzle: &mut Puzzle, msg: &Quantize)
    requires
        old(puzzle).wf(),
    ensures
        final(puzzle).wf(),
        final(puzzle).same_graph(old(puzzle)),
        final(puzzle).triangle_keys() == old(puzzle).triangle_keys(),
        final(puzzle).triangle_colors() == quantized(
            old(puzzle).triangle_colors(),
            msg.0,
            RUNS,
            MAX_ITERATIONS,
            CONVERGENCE,
        ),
{
    puzzle.quantize_colors(msg.0);
}

} // verus!
