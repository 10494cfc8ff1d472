use vertex_puzzle::autosolver::{first_missing, Autosolver};
use vertex_puzzle::color::{generate_color_palette, pastel, random_color, Color};
use vertex_puzzle::cursor::{
    collect_selected_vertices, do_brush, do_eraser, do_select, on_select_enter, on_select_exit,
    CursorState, CursorVertexInfo, SelectedVertices,
};
use vertex_puzzle::geometry::Point;
use vertex_puzzle::grid::SpatialLookup;
use vertex_puzzle::hidden_text::{HiddenChar, RevealedText};
use vertex_puzzle::installation::Installation;
use vertex_puzzle::manifest::{
    autosave_target, open_target, Manifest, PuzzleInstallInfo, PuzzleManifest, PuzzleManifestInfo,
};
use vertex_puzzle::math::randint;
use vertex_puzzle::messages::{
    on_add_edge, on_add_vertex, on_delete_edge, on_delete_vertex, on_quantize, on_toggle_edge,
    AddEdge, AddVertex, CurrentPuzzle, DeleteEdge, DeleteVertex, OpenPuzzleById, Quantize,
    ToggleEdge,
};
use vertex_puzzle::network::{
    install_puzzle_file, install_remote_manifest, puzzle_file_url, puzzle_jobs, DownloadPlan,
    NETWORK_MANIFEST_URL,
};
use vertex_puzzle::puzzle::Puzzle;
use vertex_puzzle::save_data::{detect_win_condition, SaveData};
use vertex_puzzle::sounds::SoundEffect;
use vertex_puzzle::states::{
    camera_is_moveable, is_editor, is_editor_or_playing, is_menu_or_playing, is_playing, AppState,
    EditorMode, InEditorOrPlaying, VictoryScreen,
};
use vertex_puzzle::take_once::TakeOnce;
use vertex_puzzle::triangle::triangle_key;
use vertex_puzzle::ui::{handle_ui_message, UiMessage};

fn path_of(puzzle: &mut Puzzle, n: usize) {
    for i in 0..n {
        puzzle.add_point(Point::new(10 * i as i32, 0));
    }
    for i in 1..n {
        puzzle.add_solution_edge(i - 1, i);
    }
}

#[test]
fn a_draw_lies_in_its_range() {
    assert_eq!(randint(5, 6), 5);
    for _ in 0..200 {
        let r = randint(-3, 4);
        assert!(-3 <= r && r < 4);
    }
}

#[test]
fn pastel_blends_with_white() {
    assert_eq!(pastel(0, 0, 0), Color::opaque(51, 51, 51));
    assert_eq!(pastel(255, 255, 255), Color::opaque(255, 255, 255));
    assert_eq!(pastel(100, 1, 254), Color::opaque(131, 51, 254));
    for _ in 0..50 {
        let c = random_color();
        assert_eq!(c.alpha, 255);
        assert!(c.red >= 51 && c.green >= 51 && c.blue >= 51);
    }
    assert_eq!(generate_color_palette(8).len(), 8);
    assert!(generate_color_palette(0).is_empty());
}

#[test]
fn a_key_is_made_of_sorted_corners() {
    assert_eq!(triangle_key(3, 1, 2), (1, 2, 3));
    assert_eq!(triangle_key(1, 2, 3), (1, 2, 3));
    assert_eq!(triangle_key(2, 3, 1), (1, 2, 3));
    assert_eq!(triangle_key(3, 2, 1), (1, 2, 3));
    assert_eq!(triangle_key(5, 5, 1), (1, 5, 5));
}

#[test]
fn hidden_text_shows_blanks() {
    let mut text = RevealedText::new("Rosé");
    assert_eq!(text.len(), 4);
    assert_eq!(text.text(), "____");
    assert_eq!(text.revealed_count(), 0);
    assert!(!text.nudge(2, 3));
    assert_eq!(text.text(), "___é");
    assert!(!text.nudge(2, 3));
    assert!(!text.nudge(2, 0));
    assert_eq!(text.text(), "R__é");
    assert!(text.nudge(2, 1));
    assert_eq!(text.text(), "R__é");
    assert!(!text.nudge(1, 0));
    assert_eq!(text.text(), "___é");
    text.reset("ab");
    assert_eq!(text.text(), "__");
    assert_eq!(RevealedText::new("").text(), "");
    assert_eq!(HiddenChar { c: 'x', hidden: false }.char(), 'x');
    assert_eq!(HiddenChar { c: 'x', hidden: true }.char(), '_');
}

#[test]
fn the_ideal_count_is_rounded() {
    let text = RevealedText::new("0123456789");
    assert_eq!(text.ideal(0, 4), 0);
    assert_eq!(text.ideal(1, 4), 3);
    assert_eq!(text.ideal(1, 3), 3);
    assert_eq!(text.ideal(2, 3), 7);
    assert_eq!(text.ideal(4, 4), 10);
    assert_eq!(text.ideal(9, 4), 10);
    assert_eq!(text.ideal(3, 0), 0);
    assert_eq!(text.ideal(1, 20), 1);
    assert_eq!(text.ideal(1, 21), 0);
}

#[test]
fn the_solver_draws_missing_edges_in_rounds() {
    let mut puzzle = Puzzle::empty("long".to_string());
    path_of(&mut puzzle, 31);
    puzzle.add_game_edge(0, 1);
    let mut solver = Autosolver::new();
    assert!(!solver.enabled);
    assert!(solver.step(500, &puzzle).toggles.is_empty());
    solver.toggle();
    assert!(solver.enabled);
    let idle = solver.step(60, &puzzle);
    assert!(idle.toggles.is_empty() && !idle.done);
    let round = solver.step(60, &puzzle);
    assert_eq!(solver.elapsed_ms, 20);
    assert_eq!(round.toggles.len(), 21);
    assert_eq!(round.toggles[0], ToggleEdge(1, 2));
    assert_eq!(round.toggles[20], ToggleEdge(21, 22));
    assert!(!round.done);
    puzzle.complete();
    let last = solver.step(80, &puzzle);
    assert!(last.toggles.is_empty() && last.done);
    assert!(!solver.enabled);
    assert_eq!(first_missing(&Puzzle::empty("e".to_string()), 3), vec![]);
}

#[test]
fn the_installed_puzzles_are_listed_by_number() {
    let mut list = PuzzleManifest::new();
    list.insert(7, PuzzleInstallInfo::new("Seven".to_string(), "seven".to_string()));
    list.insert(2, PuzzleInstallInfo::new("Two".to_string(), "two".to_string()));
    list.insert(5, PuzzleInstallInfo::new("Five".to_string(), "five".to_string()));
    list.insert(2, PuzzleInstallInfo::new("Deux".to_string(), "deux".to_string()));
    let sorted: Vec<(usize, String)> =
        list.sorted_list().iter().map(|(id, info)| (*id, info.title.clone())).collect();
    assert_eq!(
        sorted,
        vec![(2, "Deux".to_string()), (5, "Five".to_string()), (7, "Seven".to_string())]
    );
    assert_eq!(list.get(5).unwrap().short_name, "five");
    assert!(list.get(6).is_none());
    assert!(PuzzleManifest::new().sorted_list().is_empty());
}

#[test]
fn the_files_of_an_installation() {
    let install = Installation::new("/tmp/vertex");
    assert_eq!(install.root(), "/tmp/vertex");
    assert_eq!(install.puzzles(), "/tmp/vertex/puzzles");
    assert_eq!(install.save_data(), "/tmp/vertex/save_data");
    assert_eq!(install.indicator(), "/tmp/vertex/.vertex_install");
    assert_eq!(install.network_manifest(), "/tmp/vertex/network_manifest.yaml");
    assert_eq!(install.settings(), "/tmp/vertex/settings.yaml");
    assert_eq!(install.puzzle_file("rose"), "/tmp/vertex/puzzles/rose.yaml");
    assert_eq!(install.save_data_file("rose"), "/tmp/vertex/save_data/rose.yaml");
    assert_eq!(install.puzzle_file("v1.old"), "/tmp/vertex/puzzles/v1.yaml");
    assert_eq!(install.directories(), vec!["/tmp/vertex/puzzles", "/tmp/vertex/save_data"]);
    assert_eq!(install.clone().root(), "/tmp/vertex");
}

#[test]
fn what_is_to_be_fetched() {
    let install = Installation::new("/opt/v");
    assert_eq!(
        puzzle_file_url("rose"),
        "https://jwade109.github.io/vertex_puzzles/rose/puzzle.txt"
    );
    let job = install_puzzle_file(&install, "rose", true);
    assert_eq!(job.url, "https://jwade109.github.io/vertex_puzzles/rose/puzzle.txt");
    assert_eq!(job.path, "/opt/v/puzzles/rose.yaml");
    assert_eq!(job.plan(true), DownloadPlan::Replace);
    assert_eq!(job.plan(false), DownloadPlan::Fetch);
    let list = install_remote_manifest(&install, false);
    assert_eq!(list.url, NETWORK_MANIFEST_URL);
    assert_eq!(list.path, "/opt/v/network_manifest.yaml");
    assert_eq!(list.plan(true), DownloadPlan::Keep);
    assert_eq!(list.plan(false), DownloadPlan::Fetch);
    let mut manifest = Manifest::new();
    manifest.puzzles.push(PuzzleManifestInfo::new("a".to_string(), "A".to_string()));
    manifest.puzzles.push(PuzzleManifestInfo::new("b".to_string(), "B".to_string()));
    let jobs = puzzle_jobs(&install, &manifest);
    assert_eq!(jobs.len(), 2);
    assert_eq!(jobs[1].path, "/opt/v/puzzles/b.yaml");
    assert!(!jobs[1].overwrite);
    assert_eq!(manifest.get(1).unwrap().title, "B");
    assert!(manifest.get(2).is_none());
    assert_eq!(
        autosave_target(&CurrentPuzzle(Some(0)), &manifest, &install),
        Some("/opt/v/save_data/a.yaml".to_string())
    );
    assert_eq!(autosave_target(&CurrentPuzzle(Some(2)), &manifest, &install), None);
    assert_eq!(autosave_target(&CurrentPuzzle(None), &manifest, &install), None);
    let mut installed = PuzzleManifest::new();
    installed.insert(3, PuzzleInstallInfo::new("Rose".to_string(), "rose".to_string()));
    let files = open_target(&installed, &install, &OpenPuzzleById(3)).unwrap();
    assert_eq!(files.puzzle, "/opt/v/puzzles/rose.yaml");
    assert_eq!(files.save_data, "/opt/v/save_data/rose.yaml");
    assert!(open_target(&installed, &install, &OpenPuzzleById(4)).is_none());
}

#[test]
fn states_and_what_follows_from_them() {
    let playing = AppState::Playing { victory: false };
    let won = AppState::Playing { victory: true };
    let editing = AppState::Editing { mode: EditorMode::Brush };
    assert_eq!(AppState::default(), AppState::Loading);
    assert_eq!(EditorMode::default(), EditorMode::Edit);
    assert!(AppState::Menu.is_menu() && !playing.is_menu());
    assert!(editing.is_editor() && is_editor(&editing) && !is_editor(&won));
    assert!(playing.is_playing() && is_playing(&won) && !is_playing(&editing));
    assert!(is_editor_or_playing(&editing) && !is_editor_or_playing(&AppState::Menu));
    assert!(is_menu_or_playing(&AppState::Menu) && !is_menu_or_playing(&AppState::Loading));
    assert!(camera_is_moveable(&playing) && camera_is_moveable(&editing));
    assert!(!camera_is_moveable(&won) && !camera_is_moveable(&AppState::Menu));
    assert_eq!(InEditorOrPlaying::compute(editing), Some(InEditorOrPlaying));
    assert_eq!(InEditorOrPlaying::compute(AppState::Loading), None);
    assert_eq!(VictoryScreen::compute(won), Some(VictoryScreen));
    assert_eq!(VictoryScreen::compute(playing), None);
    assert_eq!(VictoryScreen::compute(editing), None);
}

#[test]
fn sound_effects_and_their_files() {
    assert_eq!(SoundEffect::LightPop.to_path(), "sounds/light-pop.mp3");
    assert_eq!(SoundEffect::Victory.to_path(), "sounds/nyt.mp3");
    let all = SoundEffect::all();
    assert_eq!(all.len(), 6);
    assert_eq!(all[0], SoundEffect::LightPop);
    assert_eq!(all[5], SoundEffect::UiTrill);
    assert!(!all.contains(&SoundEffect::Victory));
}

#[test]
fn buttons_and_what_they_ask_for() {
    let mut puzzle = Puzzle::empty("ui".to_string());
    path_of(&mut puzzle, 3);
    puzzle.complete();
    let mut solver = Autosolver::new();
    let playing = Some(AppState::Playing { victory: false });
    let at_3 = CurrentPuzzle(Some(3));
    let out = handle_ui_message(UiMessage::Previous, &at_3, &mut puzzle, &mut solver);
    assert_eq!((out.next_state, out.open, out.exit), (playing, Some(OpenPuzzleById(2)), false));
    let out = handle_ui_message(UiMessage::Previous, &CurrentPuzzle(Some(0)), &mut puzzle, &mut solver);
    assert_eq!((out.next_state, out.open), (playing, None));
    let out = handle_ui_message(UiMessage::Next, &at_3, &mut puzzle, &mut solver);
    assert_eq!(out.open, Some(OpenPuzzleById(4)));
    let out = handle_ui_message(UiMessage::Next, &CurrentPuzzle(None), &mut puzzle, &mut solver);
    assert_eq!((out.next_state, out.open), (playing, None));
    let out = handle_ui_message(UiMessage::OpenPuzzle(9), &at_3, &mut puzzle, &mut solver);
    assert_eq!((out.next_state, out.open), (playing, Some(OpenPuzzleById(9))));
    let out = handle_ui_message(UiMessage::Menu, &at_3, &mut puzzle, &mut solver);
    assert_eq!(out.next_state, Some(AppState::Menu));
    let out =
        handle_ui_message(UiMessage::SetEditorMode(EditorMode::Eraser), &at_3, &mut puzzle, &mut solver);
    assert_eq!(out.next_state, Some(AppState::Editing { mode: EditorMode::Eraser }));
    let out = handle_ui_message(UiMessage::Save, &at_3, &mut puzzle, &mut solver);
    assert_eq!((out.next_state, out.open, out.exit), (None, None, false));
    assert_eq!(puzzle.game_pairs().len(), 2);
    handle_ui_message(UiMessage::Autosolver, &at_3, &mut puzzle, &mut solver);
    assert!(solver.enabled);
    handle_ui_message(UiMessage::Reset, &at_3, &mut puzzle, &mut solver);
    assert!(puzzle.game_pairs().is_empty());
    assert_eq!(puzzle.solution_pairs().len(), 2);
    let out = handle_ui_message(UiMessage::ExitToDesktop, &at_3, &mut puzzle, &mut solver);
    assert!(out.exit);
}

#[test]
fn requests_change_the_puzzle() {
    let mut puzzle = Puzzle::empty("requests".to_string());
    let editing = AppState::Editing { mode: EditorMode::Edit };
    let playing = AppState::Playing { victory: false };
    assert_eq!(on_add_vertex(&mut puzzle, &AddVertex(Point::new(0, 0))), 0);
    assert_eq!(on_add_vertex(&mut puzzle, &AddVertex(Point::new(9, 0))), 1);
    assert_eq!(on_add_vertex(&mut puzzle, &AddVertex(Point::new(0, 9))), 2);
    on_add_edge(&mut puzzle, &AddEdge(0, 1), &editing);
    on_add_edge(&mut puzzle, &AddEdge(1, 2), &editing);
    on_toggle_edge(&mut puzzle, &ToggleEdge(2, 0), &editing);
    assert_eq!(puzzle.triangle_keys_vec(), vec![(0, 1, 2)]);
    on_add_edge(&mut puzzle, &AddEdge(1, 0), &playing);
    on_toggle_edge(&mut puzzle, &ToggleEdge(1, 2), &playing);
    assert_eq!(puzzle.game_pairs(), vec![(0, 1), (1, 2)]);
    on_delete_edge(&mut puzzle, &DeleteEdge(0, 1), &playing);
    assert_eq!(puzzle.game_pairs(), vec![(1, 2)]);
    assert_eq!(puzzle.solution_pairs().len(), 3);
    on_quantize(&mut puzzle, &Quantize(1));
    assert_eq!(puzzle.triangle_color_at(0).alpha, 255);
    on_delete_edge(&mut puzzle, &DeleteEdge(0, 1), &editing);
    assert!(puzzle.triangle_keys_vec().is_empty());
    assert_eq!(on_delete_vertex(&mut puzzle, &DeleteVertex(1)), Some(Point::new(9, 0)));
    assert_eq!(on_delete_vertex(&mut puzzle, &DeleteVertex(1)), None);
    assert_eq!(puzzle.solution_pairs(), vec![(0, 2)]);
    assert!(puzzle.game_pairs().is_empty());
}

#[test]
fn victory_is_the_step_to_the_solution() {
    let mut puzzle = Puzzle::empty("win".to_string());
    let mut save = SaveData::new();
    assert!(!detect_win_condition(&puzzle, &mut save));
    assert!(!save.is_complete);
    path_of(&mut puzzle, 3);
    puzzle.add_game_edge(0, 1);
    assert!(!detect_win_condition(&puzzle, &mut save));
    assert_eq!(save.edges.to_vec(), vec![(0, 1)]);
    puzzle.add_game_edge(2, 1);
    assert!(detect_win_condition(&puzzle, &mut save));
    assert!(save.is_complete && save.was_ever_complete);
    assert!(!detect_win_condition(&puzzle, &mut save));
    puzzle.remove_game_edge(0, 1);
    assert!(!detect_win_condition(&puzzle, &mut save));
    assert!(!save.is_complete && save.was_ever_complete);
    puzzle.add_game_edge(0, 1);
    assert!(detect_win_condition(&puzzle, &mut save));
    let kept = SaveData::from_puzzle(&puzzle);
    assert!(kept.is_complete && kept.was_ever_complete);
    assert_eq!(kept.edges.len(), 2);
    let mut other = Puzzle::empty("other".to_string());
    other.restore_game(&kept.edges);
    assert_eq!(other.game_pairs(), vec![(1, 2), (0, 1)]);
}

#[test]
fn the_pointer_hovers_clicks_and_toggles() {
    let mut puzzle = Puzzle::empty("pointer".to_string());
    path_of(&mut puzzle, 3);
    let mut info = CursorVertexInfo::new();
    assert_eq!(info.update(&puzzle, Some(Point::new(1, 1)), 5, true, false), None);
    assert_eq!((info.hovered, info.clicked), (Some(0), Some(0)));
    assert_eq!(info.active_line, Some((0, Point::new(1, 1))));
    assert_eq!(info.pair(), Some((0, 0)));
    assert_eq!(info.update(&puzzle, Some(Point::new(15, 0)), 3, false, false), None);
    assert_eq!((info.hovered, info.clicked), (None, Some(0)));
    assert_eq!(info.pair(), None);
    let toggle = info.update(&puzzle, Some(Point::new(19, 1)), 3, false, true);
    assert_eq!(toggle, Some(ToggleEdge(0, 2)));
    assert_eq!((info.hovered, info.clicked, info.active_line), (Some(2), None, None));
    info.update(&puzzle, Some(Point::new(19, 1)), 3, true, false);
    assert_eq!(info.update(&puzzle, Some(Point::new(20, 1)), 3, false, true), None);
    assert_eq!(info.update(&puzzle, None, 3, false, false), None);
    assert_eq!(info.hovered, None);
    let on_ui = CursorState { on_ui: true, on_egui: false, mouse_pos: Some(Point::new(1, 1)) };
    let free = CursorState { on_ui: false, on_egui: false, mouse_pos: Some(Point::new(1, 1)) };
    assert_eq!(on_ui.get(), None);
    assert_eq!(free.get(), Some(Point::new(1, 1)));
}

#[test]
fn the_tools_work_through_the_index() {
    let mut puzzle = Puzzle::empty("tools".to_string());
    path_of(&mut puzzle, 6);
    let mut lut = SpatialLookup::new();
    lut.rebuild(&puzzle);
    let at = Some(Point::new(20, 0));
    let mut sel = SelectedVertices::new();
    do_select(&lut, &puzzle, &mut sel, at, 11, false);
    assert_eq!(sel.len(), 0);
    do_select(&lut, &puzzle, &mut sel, None, 11, true);
    assert_eq!(sel.len(), 0);
    do_select(&lut, &puzzle, &mut sel, at, 11, true);
    assert!(sel.contains(1) && sel.contains(2) && sel.contains(3));
    assert_eq!(sel.len(), 3);
    do_select(&lut, &puzzle, &mut sel, at, 10, true);
    assert_eq!(sel.len(), 3);
    collect_selected_vertices(&puzzle, &mut sel, false, true);
    assert_eq!(sel.len(), 6);
    collect_selected_vertices(&puzzle, &mut sel, true, false);
    assert_eq!(sel.len(), 0);
    sel.insert(4);
    on_select_enter();
    on_select_exit(&mut sel);
    assert_eq!(sel.len(), 0);

    let idle = do_eraser(&lut, &puzzle, at, 11, false);
    assert_eq!(idle.marked_vertices.len(), 3);
    assert_eq!(idle.marked_edges.len(), 2);
    assert!(idle.delete_vertices.is_empty() && idle.delete_edges.is_empty());
    let pressed = do_eraser(&lut, &puzzle, at, 11, true);
    assert_eq!(pressed.delete_vertices.len(), 3);
    assert_eq!(pressed.delete_edges.len(), 2);
    assert_eq!(pressed.delete_vertices[0].0, pressed.marked_vertices[0]);
    assert!(do_eraser(&lut, &puzzle, None, 11, true).delete_vertices.is_empty());

    assert!(do_brush(&lut, &puzzle, at, 11, true));
    assert!(!do_brush(&lut, &puzzle, at, 11, false));
    assert!(!do_brush(&lut, &puzzle, at, 1000, true));
    assert!(!do_brush(&lut, &puzzle, None, 11, true));
}

#[test]
fn a_value_is_taken_once() {
    let mut once = TakeOnce::new(5);
    assert_eq!(once.peek(), Some(&5));
    assert_eq!(once.take(), Some(5));
    assert_eq!(once.take(), None);
    assert_eq!(once.peek(), None);
    let mut never: TakeOnce<u8> = TakeOnce::from_option(None);
    assert_eq!(never.take(), None);
}

#[test]
fn an_extension_takes_the_place_of_the_old_one() {
    let install = Installation::new("data");
    assert_eq!(install.puzzle_file("rose.txt"), "data/puzzles/rose.yaml");
    assert_eq!(install.save_data_file(".hidden"), "data/save_data/.hidden.yaml");
}
