use textcanvas::key::{HostAction, Key, KeyInput, Mode};
use textcanvas::state::AppState;

fn press(state: &mut AppState, key: Key) -> HostAction {
    state.handle_key(KeyInput { key, ctrl: false })
}

fn type_keys(state: &mut AppState, keys: &str) {
    for c in keys.chars() {
        press(state, Key::Char(c));
    }
}

fn text_rows(state: &AppState, layer: usize) -> Vec<String> {
    state.layers[layer].data.iter().map(|row| row.iter().collect()).collect()
}

#[test]
fn move_mode_keys_switch_mode() {
    let table = [
        ('m', Mode::Move),
        ('M', Mode::Move),
        ('v', Mode::Select),
        ('V', Mode::Select),
        ('q', Mode::BoxDraw),
        ('Q', Mode::BoxDraw),
        ('w', Mode::PencilDraw),
        ('W', Mode::PencilDraw),
        ('e', Mode::LineDraw),
        ('E', Mode::LineDraw),
    ];
    for &(c, mode) in table.iter() {
        let mut state = AppState::new(6, 4);
        assert_eq!(press(&mut state, Key::Char(c)), HostAction::Redraw);
        assert_eq!(state.mode, mode);
    }
}

#[test]
fn entering_select_and_box_mode_anchors_the_selection() {
    for c in ['v', 'q'] {
        let mut state = AppState::new(6, 4);
        press(&mut state, Key::Right);
        press(&mut state, Key::Right);
        press(&mut state, Key::Down);
        press(&mut state, Key::Char(c));
        assert_eq!((state.select_start_x, state.select_start_y), (2, 1));
        assert_eq!((state.line_start_x, state.line_start_y), (0, 0));
        assert_eq!((state.cursor_x, state.cursor_y), (2, 1));
    }
}

#[test]
fn entering_line_mode_sets_the_line_anchor() {
    let mut state = AppState::new(6, 4);
    press(&mut state, Key::Down);
    press(&mut state, Key::Right);
    press(&mut state, Key::Char('e'));
    assert_eq!(state.mode, Mode::LineDraw);
    assert_eq!((state.line_start_x, state.line_start_y), (1, 1));
    assert_eq!((state.select_start_x, state.select_start_y), (1, 1));
}

#[test]
fn entering_pencil_mode_keeps_the_cursor() {
    let mut state = AppState::new(6, 4);
    press(&mut state, Key::Down);
    press(&mut state, Key::Char('w'));
    assert_eq!(state.mode, Mode::PencilDraw);
    assert_eq!((state.cursor_x, state.cursor_y), (0, 1));
    assert_eq!((state.select_start_x, state.select_start_y), (0, 1));
    assert_eq!((state.line_start_x, state.line_start_y), (0, 0));
}

#[test]
fn move_mode_arrows_wrap() {
    let mut state = AppState::new(80, 24);
    press(&mut state, Key::Left);
    assert_eq!((state.cursor_x, state.cursor_y), (79, 0));
    press(&mut state, Key::Up);
    assert_eq!((state.cursor_x, state.cursor_y), (79, 23));
    press(&mut state, Key::Right);
    assert_eq!((state.cursor_x, state.cursor_y), (0, 23));
    press(&mut state, Key::Down);
    assert_eq!((state.cursor_x, state.cursor_y), (0, 0));
}

#[test]
fn move_mode_layer_keys() {
    let mut state = AppState::new(4, 4);
    press(&mut state, Key::Char('-'));
    assert_eq!(state.active_layer, 0);
    for _ in 0..12 {
        press(&mut state, Key::Char('+'));
    }
    assert_eq!(state.active_layer, 9);
    press(&mut state, Key::Char('h'));
    assert!(!state.layers[9].visible);
    assert!(state.layers[8].visible);
    press(&mut state, Key::Char('H'));
    assert!(state.layers[9].visible);
    press(&mut state, Key::Char('-'));
    assert_eq!(state.active_layer, 8);
}

#[test]
fn move_mode_ignores_other_keys() {
    let mut state = AppState::new(4, 4);
    for key in [Key::Char('x'), Key::Char('y'), Key::Char('c'), Key::Enter, Key::Esc, Key::Other] {
        press(&mut state, key);
        assert_eq!(state.mode, Mode::Move);
        assert_eq!((state.cursor_x, state.cursor_y), (0, 0));
        assert_eq!(text_rows(&state, 0), vec!["    "; 4]);
    }
}

#[test]
fn select_yank_and_paste_through_keys() {
    let mut state = AppState::new(6, 3);
    type_keys(&mut state, "wab");
    press(&mut state, Key::Esc);
    press(&mut state, Key::Left);
    press(&mut state, Key::Left);
    press(&mut state, Key::Char('v'));
    press(&mut state, Key::Right);
    assert_eq!(state.mode, Mode::Select);
    press(&mut state, Key::Char('y'));
    assert_eq!(state.mode, Mode::Move);
    assert_eq!(state.copy_buffer, Some(vec![vec!['a', 'b']]));
    assert_eq!(text_rows(&state, 0), vec!["ab    ", "      ", "      "]);
    press(&mut state, Key::Down);
    press(&mut state, Key::Char('p'));
    assert_eq!(text_rows(&state, 0), vec!["ab    ", " ab   ", "      "]);
}

#[test]
fn select_cut_through_keys() {
    let mut state = AppState::new(4, 2);
    type_keys(&mut state, "wabcd");
    press(&mut state, Key::Esc);
    assert_eq!((state.cursor_x, state.cursor_y), (0, 1));
    press(&mut state, Key::Up);
    press(&mut state, Key::Right);
    press(&mut state, Key::Char('V'));
    press(&mut state, Key::Right);
    press(&mut state, Key::Char('C'));
    assert_eq!(state.mode, Mode::Move);
    assert_eq!(state.copy_buffer, Some(vec![vec!['b', 'c']]));
    assert_eq!(text_rows(&state, 0), vec!["a  d", "    "]);
}

#[test]
fn select_arrows_stop_at_the_edges() {
    let mut state = AppState::new(3, 2);
    press(&mut state, Key::Char('v'));
    press(&mut state, Key::Left);
    press(&mut state, Key::Up);
    assert_eq!((state.cursor_x, state.cursor_y), (0, 0));
    for _ in 0..5 {
        press(&mut state, Key::Right);
        press(&mut state, Key::Down);
    }
    assert_eq!((state.cursor_x, state.cursor_y), (2, 1));
    assert_eq!((state.select_start_x, state.select_start_y), (0, 0));
}

#[test]
fn select_escape_returns_without_copying() {
    let mut state = AppState::new(3, 2);
    press(&mut state, Key::Char('v'));
    press(&mut state, Key::Right);
    press(&mut state, Key::Esc);
    assert_eq!(state.mode, Mode::Move);
    assert!(state.copy_buffer.is_none());
}

#[test]
fn select_ignores_mode_keys() {
    let mut state = AppState::new(3, 2);
    press(&mut state, Key::Char('v'));
    for key in [Key::Char('q'), Key::Char('p'), Key::Char('+'), Key::Enter, Key::Other] {
        press(&mut state, key);
        assert_eq!(state.mode, Mode::Select);
        assert_eq!(state.active_layer, 0);
    }
}

#[test]
fn box_mode_confirm_draws_from_anchor_to_cursor() {
    for confirm in [Key::Char('q'), Key::Char('Q'), Key::Enter] {
        let mut state = AppState::new(6, 4);
        press(&mut state, Key::Right);
        press(&mut state, Key::Char('q'));
        for _ in 0..3 {
            press(&mut state, Key::Right);
        }
        press(&mut state, Key::Down);
        press(&mut state, Key::Down);
        press(&mut state, confirm);
        assert_eq!(state.mode, Mode::Move);
        assert_eq!(text_rows(&state, 0), vec![" ╔══╗ ", " ║  ║ ", " ╚══╝ ", "      "]);
    }
}

#[test]
fn box_mode_escape_draws_nothing() {
    let mut state = AppState::new(6, 4);
    press(&mut state, Key::Char('q'));
    press(&mut state, Key::Right);
    press(&mut state, Key::Down);
    press(&mut state, Key::Esc);
    assert_eq!(state.mode, Mode::Move);
    assert_eq!(text_rows(&state, 0), vec!["      "; 4]);
}

#[test]
fn box_mode_flat_box_draws_nothing_but_returns() {
    let mut state = AppState::new(6, 4);
    press(&mut state, Key::Char('q'));
    press(&mut state, Key::Right);
    press(&mut state, Key::Right);
    press(&mut state, Key::Enter);
    assert_eq!(state.mode, Mode::Move);
    assert_eq!(text_rows(&state, 0), vec!["      "; 4]);
}

#[test]
fn pencil_writes_and_advances_with_row_wrap() {
    let mut state = AppState::new(3, 2);
    press(&mut state, Key::Char('w'));
    type_keys(&mut state, "hello w");
    assert_eq!(text_rows(&state, 0), vec!["wel", "lo "]);
    assert_eq!((state.cursor_x, state.cursor_y), (1, 0));
    assert_eq!(state.mode, Mode::PencilDraw);
}

#[test]
fn pencil_writes_mode_letters_as_text() {
    let mut state = AppState::new(5, 1);
    press(&mut state, Key::Char('w'));
    type_keys(&mut state, "mvqe");
    assert_eq!(text_rows(&state, 0), vec!["mvqe "]);
    assert_eq!(state.mode, Mode::PencilDraw);
}

#[test]
fn pencil_ignores_arrows_and_enter() {
    let mut state = AppState::new(3, 2);
    press(&mut state, Key::Char('w'));
    for key in [Key::Up, Key::Down, Key::Left, Key::Right, Key::Enter, Key::Other] {
        press(&mut state, key);
        assert_eq!((state.cursor_x, state.cursor_y), (0, 0));
        assert_eq!(state.mode, Mode::PencilDraw);
    }
    press(&mut state, Key::Esc);
    assert_eq!(state.mode, Mode::Move);
}

#[test]
fn line_mode_character_draws_from_anchor_to_cursor() {
    let mut state = AppState::new(5, 3);
    press(&mut state, Key::Char('e'));
    for _ in 0..4 {
        press(&mut state, Key::Right);
    }
    press(&mut state, Key::Down);
    press(&mut state, Key::Down);
    press(&mut state, Key::Char('*'));
    assert_eq!(state.mode, Mode::Move);
    assert_eq!(text_rows(&state, 0), vec!["**   ", "  ** ", "    *"]);
}

#[test]
fn line_mode_escape_draws_nothing() {
    let mut state = AppState::new(5, 3);
    press(&mut state, Key::Char('e'));
    press(&mut state, Key::Right);
    press(&mut state, Key::Esc);
    assert_eq!(state.mode, Mode::Move);
    assert_eq!(text_rows(&state, 0), vec!["     "; 3]);
}

#[test]
fn line_mode_arrows_stop_at_the_edges() {
    let mut state = AppState::new(3, 2);
    press(&mut state, Key::Char('e'));
    press(&mut state, Key::Left);
    assert_eq!((state.cursor_x, state.cursor_y), (0, 0));
    for _ in 0..4 {
        press(&mut state, Key::Right);
    }
    assert_eq!((state.cursor_x, state.cursor_y), (2, 0));
}

#[test]
fn save_combination_is_reported_in_every_mode() {
    for enter in ['m', 'v', 'q', 'w', 'e'] {
        let mut state = AppState::new(4, 2);
        press(&mut state, Key::Char(enter));
        let action = state.handle_key(KeyInput { key: Key::Char('s'), ctrl: true });
        assert_eq!(action, HostAction::SaveAndRedraw);
    }
}

#[test]
fn quit_combination_is_reported_after_handling() {
    let mut state = AppState::new(4, 2);
    let action = state.handle_key(KeyInput { key: Key::Char('c'), ctrl: true });
    assert_eq!(action, HostAction::RedrawAndQuit);
    assert_eq!(state.mode, Mode::Move);
}

#[test]
fn combinations_need_control_and_lower_case() {
    let plain = [
        KeyInput { key: Key::Char('s'), ctrl: false },
        KeyInput { key: Key::Char('c'), ctrl: false },
        KeyInput { key: Key::Char('S'), ctrl: true },
        KeyInput { key: Key::Char('C'), ctrl: true },
        KeyInput { key: Key::Enter, ctrl: true },
        KeyInput { key: Key::Other, ctrl: true },
    ];
    for event in plain.iter() {
        assert_eq!(event.action(), HostAction::Redraw);
    }
    assert_eq!(KeyInput { key: Key::Char('s'), ctrl: true }.action(), HostAction::SaveAndRedraw);
    assert_eq!(KeyInput { key: Key::Char('c'), ctrl: true }.action(), HostAction::RedrawAndQuit);
}

#[test]
fn control_does_not_change_what_a_key_does() {
    let mut state = AppState::new(4, 2);
    press(&mut state, Key::Char('w'));
    let action = state.handle_key(KeyInput { key: Key::Char('s'), ctrl: true });
    assert_eq!(action, HostAction::SaveAndRedraw);
    assert_eq!(text_rows(&state, 0), vec!["s   ", "    "]);
    assert_eq!((state.cursor_x, state.cursor_y), (1, 0));
}

#[test]
fn mode_names() {
    assert_eq!(Mode::Move.name(), "Move");
    assert_eq!(Mode::Select.name(), "Select");
    assert_eq!(Mode::BoxDraw.name(), "BoxDraw");
    assert_eq!(Mode::PencilDraw.name(), "PencilDraw");
    assert_eq!(Mode::LineDraw.name(), "LineDraw");
}
