//! What is kept of a player's progress with a puzzle.

use vstd::prelude::*;
use crate::edge::Edges;
use crate::puzzle::Puzzle;

verus! {

/// The player's progress: the edges drawn, whether they are the solution
/// now, and whether they ever were.
pub struct SaveData {
    pub revealed_title: String,
    pub is_complete: bool,
    pub was_ever_complete: bool,
    pub edges: Edges,
}

impl SaveData {
    /// No progress.
    pub fn new() -> (save: SaveData)
        ensures
            save.edges.wf(),
            save.edges@ == Set::<(usize, usize)>::empty(),
            !save.is_complete,
            !save.was_ever_complete,
            save.revealed_title@ == Seq::<char>::empty(),
    {
        let revealed_title = String::new();
        SaveData { revealed_title, is_complete: false, was_ever_complete: false, edges: Edges::new() }
    }

    /// The progress that `puzzle` holds: its player's edges, and whether
    /// they are the solution.
    pub fn from_puzzle(puzzle: &Puzzle) -> (save: SaveData)
        requires
            puzzle.wf(),
        ensures
            save.edges.wf(),
            save.edges@ == puzzle.game(),
            save.edges.order() == puzzle.game_order(),
            save.is_complete == (puzzle.game() == puzzle.solution()),
            save.was_ever_complete == save.is_complete,
            save.revealed_title@ == Seq::<char>::empty(),
    {
        let is_complete = puzzle.is_complete();
        let revealed_title = String::new();
        SaveData {
            revealed_title,
            is_complete,
            was_ever_complete: is_complete,
            edges: puzzle.game_edge_set(),
        }
    }
}

impl Default for SaveData {
    fn default() -> (save: SaveData)
        ensures
            save.edges.wf(),
            save.edges@ == Set::<(usize, usize)>::empty(),
            !save.is_complete,
            !save.was_ever_complete,
    {
        SaveData::new()
    }
}

/// Looks whether the player has just solved `puzzle`, and keeps `save` up
/// to date. A puzzle without solution edges is never solved: nothing
/// changes then. Otherwise `save` takes the player's edges, `is_complete`
/// says whether they are exactly the solution edges, and `was_ever_complete`
/// stays set once it was. The result is the step from not solved to solved.
pub fn detect_win_condition(puzzle: &Puzzle, save: &mut SaveData) -> (victory: bool)
    requires
        puzzle.wf(),
    ensures
        puzzle.solution() == Set::<(usize, usize)>::empty() ==> !victory && *final(save) == *old(save),
        puzzle.solution() != Set::<(usize, usize)>::empty() ==> {
            &&& final(save).is_complete == (puzzle.game() == puzzle.solution())
            &&& final(save).was_ever_complete == (old(save).was_ever_complete || final(save).is_complete)
            &&& victory == (final(save).is_complete && !old(save).is_complete)
            &&& final(save).edges.wf()
            &&& final(save).edges@ == puzzle.game()
            &&& final(save).revealed_title == old(save).revealed_title
        },
{
    if puzzle.has_no_solution() {
        return false;
    }
    let now = puzzle.is_complete();
    let victory = now && !save.is_complete;
    save.is_complete = now;
    if now {
        save.was_ever_complete = true;
    }
    save.edges = puzzle.game_edge_set();
    victory
}

} // verus!
