//! What the buttons of the user interface ask for.

use vstd::prelude::*;
use crate::autosolver::Autosolver;
use crate::messages::{CurrentPuzzle, OpenPuzzleById};
use crate::puzzle::Puzzle;
use crate::states::{AppState, EditorMode};

verus! {

/// A press of a button.
#[derive(Clone, Copy, Debug, PartialEq, Eq, Structural)]
pub enum UiMessage {
    Previous,
    Next,
    Save,
    Load,
    Menu,
    Reset,
    Play,
    CloseMenu,
    SetEditorMode(EditorMode),
    Autosolver,
    OpenPuzzle(usize),
    CloseVictoryScreen,
    ExitToDesktop,
}

/// What follows from a press of a button, besides what it does to the
/// puzzle and the solver.
#[derive(Clone, Copy, Debug, PartialEq, Eq, Structural)]
pub struct UiOutcome {
    /// The state to enter, if any.
    pub next_state: Option<AppState>,
    /// The puzzle to open, if any.
    pub open: Option<OpenPuzzleById>,
    /// Whether the application is to end.
    pub exit: bool,
}

/// The state that a press of a button asks for.
pub open spec fn state_after(msg: UiMessage) -> Option<AppState> {
    match msg {
        UiMessage::Previous => Some(AppState::Playing { victory: false }),
        UiMessage::Next => Some(AppState::Playing { victory: false }),
        UiMessage::Play => Some(AppState::Playing { victory: false }),
        UiMessage::OpenPuzzle(_) => Some(AppState::Playing { victory: false }),
        UiMessage::CloseMenu => Some(AppState::Playing { victory: false }),
        UiMessage::CloseVictoryScreen => Some(AppState::Playing { victory: false }),
        UiMessage::Menu => Some(AppState::Menu),
        UiMessage::SetEditorMode(mode) => Some(AppState::Editing { mode }),
        _ => None,
    }
}

/// The puzzle that a press of a button asks to open: the one before or
/// after the open one, where there is one, or the one that the button names.
pub open spec fn opened_after(msg: UiMessage, current: CurrentPuzzle) -> Option<OpenPuzzleById> {
    match msg {
        UiMessage::Previous => match current.0 {
            Some(id) => if id > 0 {
                Some(OpenPuzzleById((id - 1) as usize))
            } else {
                None
            },
            None => None,
        },
        UiMessage::Next => match current.0 {
            Some(id) => if id < usize::MAX {
                Some(OpenPuzzleById((id + 1) as usize))
            } else {
                None
            },
            None => None,
        },
        UiMessage::OpenPuzzle(id) => Some(OpenPuzzleById(id)),
        _ => None,
    }
}

/// Carries out a press of a button: `Reset` takes the player's edges away,
/// `Autosolver` starts or stops the solver, and the outcome says which state
/// to enter, which puzzle to open and whether to end.
pub fn handle_ui_message(
    msg: UiMessage,
    current: &CurrentPuzzle,
    puzzle: &mut Puzzle,
    solver: &mut Autosolver,
) -> (outcome: UiOutcome)
    requires
        old(puzzle).wf(),
    ensures
        final(puzzle).wf(),
        outcome.next_state == state_after(msg),
        outcome.open == opened_after(msg, *current),
        outcome.exit == (msg == UiMessage::ExitToDesktop),
        final(puzzle).same_vertices(old(puzzle)),
        final(puzzle).same_solution(old(puzzle)),
        final(puzzle).same_triangles(old(puzzle)),
        final(puzzle).game() == if msg == UiMessage::Reset {
            Set::<(usize, usize)>::empty()
        } else {
            old(puzzle).game()
        },
        final(solver).enabled == if msg == UiMessage::Autosolver {
            !old(solver).enabled
        } else {
            old(solver).enabled
        },
        final(solver).elapsed_ms == old(solver).elapsed_ms,
{
    let playing = Some(AppState::Playing { victory: false });
    let mut outcome = UiOutcome { next_state: None, open: None, exit: false };
    match msg {
        UiMessage::Previous => {
            outcome.next_state = playing;
            match current.0 {
                Some(id) => {
                    if id > 0 {
                        outcome.open = Some(OpenPuzzleById(id - 1));
                    }
                },
                None => {},
            }
        },
        UiMessage::Next => {
            outcome.next_state = playing;
            match current.0 {
                Some(id) => {
                    if id < usize::MAX {
                        outcome.open = Some(OpenPuzzleById(id + 1));
                    }
                },
                None => {},
            }
        },
        UiMessage::Save => {},
        UiMessage::Load => {},
        UiMessage::Reset => {
            puzzle.decomplete();
        },
        UiMessage::Play => {
            outcome.next_state = playing;
        },
        UiMessage::Menu => {
            outcome.next_state = Some(AppState::Menu);
        },
        UiMessage::SetEditorMode(mode) => {
            outcome.next_state = Some(AppState::Editing { mode });
        },
        UiMessage::Autosolver => {
            solver.toggle();
        },
        UiMessage::OpenPuzzle(id) => {
            outcome.next_state = playing;
            outcome.open = Some(OpenPuzzleById(id));
        },
        UiMessage::CloseMenu => {
            outcome.next_state = playing;
        },
        UiMessage::CloseVictoryScreen => {
            outcome.next_state = playing;
        },
        UiMessage::ExitToDesktop => {
            outcome.exit = true;
        },
    }
    outcome
}

} // verus!
