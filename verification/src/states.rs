//! What the application is doing, and what follows from it.

use vstd::prelude::*;

verus! {

/// The tool that is in hand while a puzzle is edited.
#[derive(Clone, Copy, Debug, PartialEq, Eq, Structural, Hash)]
pub enum EditorMode {
    Edit,
    Images,
    Select,
    Eraser,
    Brush,
}

/// What the application is doing.
#[derive(Clone, Copy, Debug, PartialEq, Eq, Structural, Hash)]
pub enum AppState {
    Loading,
    Menu,
    Playing { victory: bool },
    Editing { mode: EditorMode },
}

impl AppState {
    pub fn is_menu(&self) -> (b: bool)
        ensures
            b == (*self is Menu),
    {
        match self {
            AppState::Menu => true,
            _ => false,
        }
    }

    pub fn is_editor(&self) -> (b: bool)
        ensures
            b == (*self is Editing),
    {
        match self {
            AppState::Editing { .. } => true,
            _ => false,
        }
    }

    pub fn is_playing(&self) -> (b: bool)
        ensures
            b == (*self is Playing),
    {
        match self {
            AppState::Playing { .. } => true,
            _ => false,
        }
    }
}

impl Default for AppState {
    fn default() -> (s: AppState)
        ensures
            s == AppState::Loading,
    {
        AppState::Loading
    }
}

impl Default for EditorMode {
    fn default() -> (m: EditorMode)
        ensures
            m == EditorMode::Edit,
    {
        EditorMode::Edit
    }
}

/// The state in which a puzzle is on the table: while editing and while
/// playing.
#[derive(Clone, Copy, Debug, PartialEq, Eq, Structural, Hash)]
pub struct InEditorOrPlaying;

impl InEditorOrPlaying {
    pub fn compute(sources: AppState) -> (r: Option<InEditorOrPlaying>)
        ensures
            r.is_some() == (sources is Playing || sources is Editing),
    {
        match sources {
            AppState::Loading => None,
            AppState::Menu => None,
            AppState::Playing { .. } => Some(InEditorOrPlaying),
            AppState::Editing { .. } => Some(InEditorOrPlaying),
        }
    }
}

/// The state in which the victory screen is up: while playing, once the
/// puzzle is solved.
#[derive(Clone, Copy, Debug, PartialEq, Eq, Structural, Hash)]
pub struct VictoryScreen;

impl VictoryScreen {
    pub fn compute(sources: AppState) -> (r: Option<VictoryScreen>)
        ensures
            r.is_some() == (sources == AppState::Playing { victory: true }),
    {
        match sources {
            AppState::Playing { victory } => if victory {
                Some(VictoryScreen)
            } else {
                None
            },
            _ => None,
        }
    }
}

pub fn is_editor(state: &AppState) -> (b: bool)
    ensures
        b == (*state is Editing),
{
    state.is_editor()
}

pub fn is_playing(state: &AppState) -> (b: bool)
    ensures
        b == (*state is Playing),
{
    state.is_playing()
}

pub fn is_editor_or_playing(state: &AppState) -> (b: bool)
    ensures
        b == (*state is Editing || *state is Playing),
{
    state.is_editor() || state.is_playing()
}

pub fn is_menu_or_playing(state: &AppState) -> (b: bool)
    ensures
        b == (*state is Menu || *state is Playing),
{
    state.is_menu() || state.is_playing()
}

/// The camera can be moved while editing, and while playing until the puzzle
/// is solved.
pub fn camera_is_moveable(state: &AppState) -> (b: bool)
    ensures
        b == (*state is Editing || *state == AppState::Playing { victory: false }),
{
    match *state {
        AppState::Playing { victory } => !victory,
        AppState::Editing { .. } => true,
        _ => false,
    }
}

} // verus!
