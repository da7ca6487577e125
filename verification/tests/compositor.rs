use textcanvas::key::{Key, KeyInput, Mode};
use textcanvas::render::{FrameCell, Status};
use textcanvas::state::AppState;

fn as_text(rows: &Vec<Vec<char>>) -> Vec<String> {
    rows.iter().map(|row| row.iter().collect()).collect()
}

fn marks(frame: &Vec<Vec<FrameCell>>) -> Vec<String> {
    frame
        .iter()
        .map(|row| row.iter().map(|c| if c.inverted { '#' } else { '.' }).collect())
        .collect()
}

fn glyphs_of(frame: &Vec<Vec<FrameCell>>) -> Vec<String> {
    frame.iter().map(|row| row.iter().map(|c| c.glyph).collect()).collect()
}

#[test]
fn composite_of_blank_canvas_is_blank() {
    let state = AppState::new(3, 2);
    assert_eq!(as_text(&state.composite()), vec!["   ", "   "]);
}

#[test]
fn composite_higher_layer_wins() {
    let mut state = AppState::new(3, 2);
    state.set_cell(0, 0, 0, 'a');
    state.set_cell(0, 1, 0, 'a');
    state.set_cell(3, 1, 0, 'b');
    state.set_cell(9, 1, 0, 'c');
    state.set_cell(9, 2, 1, 'c');
    state.set_cell(5, 2, 1, 'd');
    assert_eq!(as_text(&state.composite()), vec!["ac ", "  c"]);
}

#[test]
fn composite_empty_cells_are_transparent() {
    let mut state = AppState::new(3, 1);
    state.set_cell(0, 0, 0, 'a');
    state.set_cell(0, 1, 0, 'b');
    state.set_cell(1, 1, 0, 'X');
    state.set_cell(1, 0, 0, ' ');
    assert_eq!(as_text(&state.composite()), vec!["aX "]);
}

#[test]
fn composite_skips_hidden_layers() {
    let mut state = AppState::new(3, 1);
    state.set_cell(0, 0, 0, 'a');
    state.set_cell(1, 0, 0, 'b');
    state.set_cell(2, 1, 0, 'c');
    state.toggle_visibility(1);
    assert_eq!(as_text(&state.composite()), vec!["ac "]);
    state.toggle_visibility(0);
    assert_eq!(as_text(&state.composite()), vec![" c "]);
    state.toggle_visibility(1);
    assert_eq!(as_text(&state.composite()), vec!["bc "]);
}

#[test]
fn composite_leaves_the_layers_alone() {
    let mut state = AppState::new(2, 1);
    state.set_cell(0, 0, 0, 'a');
    state.set_cell(1, 0, 0, 'b');
    let _ = state.composite();
    let _ = state.render();
    assert_eq!(state.get_cell(0, 0, 0), 'a');
    assert_eq!(state.get_cell(1, 0, 0), 'b');
}

#[test]
fn render_marks_nothing_outside_select_mode() {
    for mode in [Mode::Move, Mode::BoxDraw, Mode::PencilDraw, Mode::LineDraw] {
        let mut state = AppState::new(3, 2);
        state.cursor_x = 2;
        state.cursor_y = 1;
        state.mode = mode;
        assert_eq!(marks(&state.render()), vec!["...", "..."]);
    }
}

#[test]
fn render_marks_the_selection_in_select_mode() {
    let mut state = AppState::new(5, 4);
    state.set_cell(0, 2, 2, 'k');
    state.mode = Mode::Select;
    state.select_start_x = 3;
    state.select_start_y = 2;
    state.cursor_x = 1;
    state.cursor_y = 1;
    let frame = state.render();
    assert_eq!(marks(&frame), vec![".....", ".###.", ".###.", "....."]);
    assert_eq!(glyphs_of(&frame), vec!["     ", "     ", "  k  ", "     "]);
    assert!(state.is_inverted(1, 1));
    assert!(state.is_inverted(3, 2));
    assert!(!state.is_inverted(0, 1));
    assert!(!state.is_inverted(1, 3));
    assert!(!state.is_inverted(4, 2));
}

#[test]
fn render_selection_follows_the_cursor() {
    let mut state = AppState::new(4, 2);
    state.handle_key(KeyInput { key: Key::Char('v'), ctrl: false });
    assert_eq!(marks(&state.render()), vec!["#...", "...."]);
    state.handle_key(KeyInput { key: Key::Right, ctrl: false });
    state.handle_key(KeyInput { key: Key::Down, ctrl: false });
    assert_eq!(marks(&state.render()), vec!["##..", "##.."]);
    state.handle_key(KeyInput { key: Key::Esc, ctrl: false });
    assert_eq!(marks(&state.render()), vec!["....", "...."]);
}

#[test]
fn render_glyphs_are_the_composite() {
    let mut state = AppState::new(3, 2);
    state.set_cell(0, 0, 0, 'a');
    state.set_cell(4, 0, 0, 'b');
    state.set_cell(2, 2, 1, 'c');
    assert_eq!(glyphs_of(&state.render()), as_text(&state.composite()));
    assert_eq!(glyphs_of(&state.render()), vec!["b  ", "  c"]);
}

#[test]
fn status_counts_layers_from_one() {
    let mut state = AppState::new(9, 9);
    assert_eq!(
        state.status(),
        Status { mode: Mode::Move, layer_number: 1, cursor_x: 0, cursor_y: 0 }
    );
    state.active_layer = 9;
    state.cursor_x = 4;
    state.cursor_y = 7;
    state.mode = Mode::LineDraw;
    assert_eq!(
        state.status(),
        Status { mode: Mode::LineDraw, layer_number: 10, cursor_x: 4, cursor_y: 7 }
    );
}
