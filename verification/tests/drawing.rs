use textcanvas::draw::{
    BOX_BOTTOM_LEFT, BOX_BOTTOM_RIGHT, BOX_HORIZONTAL, BOX_TOP_LEFT, BOX_TOP_RIGHT, BOX_VERTICAL,
};
use textcanvas::key::Mode;
use textcanvas::state::AppState;

fn layer_rows(state: &AppState, layer: usize) -> Vec<String> {
    state.layers[layer].data.iter().map(|row| row.iter().collect()).collect()
}

fn count_glyph(state: &AppState, layer: usize, ch: char) -> usize {
    state.layers[layer].data.iter().flatten().filter(|&&c| c == ch).count()
}

#[test]
fn new_canvas_is_blank_and_in_move_mode() {
    let state = AppState::new(7, 3);
    assert_eq!(state.width, 7);
    assert_eq!(state.height, 3);
    assert_eq!((state.cursor_x, state.cursor_y), (0, 0));
    assert_eq!(state.mode, Mode::Move);
    assert_eq!(state.active_layer, 0);
    assert!(state.copy_buffer.is_none());
    assert_eq!((state.select_start_x, state.select_start_y), (0, 0));
    assert_eq!((state.line_start_x, state.line_start_y), (0, 0));
    assert_eq!(state.layers.len(), 10);
    for layer in &state.layers {
        assert!(layer.visible);
        assert_eq!(layer.data.len(), 3);
        for row in &layer.data {
            assert_eq!(row, &vec![' '; 7]);
        }
    }
}

#[test]
fn set_cell_and_get_cell_address_one_cell() {
    let mut state = AppState::new(4, 3);
    state.set_cell(2, 3, 1, 'x');
    assert_eq!(state.get_cell(2, 3, 1), 'x');
    assert_eq!(state.get_cell(2, 1, 3 - 1), ' ');
    assert_eq!(count_glyph(&state, 2, 'x'), 1);
    for l in 0..10 {
        if l != 2 {
            assert_eq!(layer_rows(&state, l), vec!["    ", "    ", "    "]);
        }
    }
}

#[test]
fn draw_box_five_by_three() {
    let mut state = AppState::new(8, 5);
    state.draw_box(1, 1, 5, 3);
    assert_eq!(
        layer_rows(&state, 0),
        vec!["        ", " ╔═══╗  ", " ║   ║  ", " ╚═══╝  ", "        "]
    );
    assert_eq!(state.get_cell(0, 1, 1), BOX_TOP_LEFT);
    assert_eq!(state.get_cell(0, 5, 1), BOX_TOP_RIGHT);
    assert_eq!(state.get_cell(0, 1, 3), BOX_BOTTOM_LEFT);
    assert_eq!(state.get_cell(0, 5, 3), BOX_BOTTOM_RIGHT);
    for x in 2..=4 {
        assert_eq!(state.get_cell(0, x, 1), BOX_HORIZONTAL);
        assert_eq!(state.get_cell(0, x, 3), BOX_HORIZONTAL);
    }
    assert_eq!(state.get_cell(0, 1, 2), BOX_VERTICAL);
    assert_eq!(state.get_cell(0, 5, 2), BOX_VERTICAL);
    assert_eq!(count_glyph(&state, 0, ' '), 8 * 5 - 12);
    for l in 1..10 {
        assert_eq!(count_glyph(&state, l, ' '), 8 * 5);
    }
}

#[test]
fn draw_box_corners_in_any_order() {
    let mut forward = AppState::new(8, 5);
    forward.draw_box(1, 1, 5, 3);
    let mut backward = AppState::new(8, 5);
    backward.draw_box(5, 3, 1, 1);
    let mut crossed = AppState::new(8, 5);
    crossed.draw_box(5, 1, 1, 3);
    assert_eq!(layer_rows(&forward, 0), layer_rows(&backward, 0));
    assert_eq!(layer_rows(&forward, 0), layer_rows(&crossed, 0));
}

#[test]
fn draw_box_smallest_is_four_corners() {
    let mut state = AppState::new(3, 3);
    state.draw_box(0, 0, 1, 1);
    assert_eq!(layer_rows(&state, 0), vec!["╔╗ ", "╚╝ ", "   "]);
}

#[test]
fn draw_box_without_width_or_height_draws_nothing() {
    let mut state = AppState::new(8, 5);
    state.set_cell(0, 2, 2, 'k');
    let before = layer_rows(&state, 0);
    state.draw_box(2, 1, 2, 4);
    assert_eq!(layer_rows(&state, 0), before);
    state.draw_box(1, 3, 6, 3);
    assert_eq!(layer_rows(&state, 0), before);
    state.draw_box(4, 4, 4, 4);
    assert_eq!(layer_rows(&state, 0), before);
}

#[test]
fn draw_box_without_width_or_height_may_lie_off_the_canvas() {
    let mut state = AppState::new(8, 5);
    state.set_cell(3, 2, 2, 'k');
    state.active_layer = 3;
    state.cursor_x = 4;
    state.copy_buffer = Some(vec![vec!['c']]);
    let before: Vec<Vec<String>> = (0..10).map(|l| layer_rows(&state, l)).collect();
    state.draw_box(100, 1, 100, 400);
    state.draw_box(0, 77, 900, 77);
    state.draw_box(usize::MAX, usize::MAX, usize::MAX, 0);
    state.draw_box(9, 9, 9, 9);
    let after: Vec<Vec<String>> = (0..10).map(|l| layer_rows(&state, l)).collect();
    assert_eq!(after, before);
    assert_eq!((state.cursor_x, state.cursor_y), (4, 0));
    assert_eq!(state.mode, Mode::Move);
    assert_eq!(state.active_layer, 3);
    assert_eq!(state.copy_buffer, Some(vec![vec!['c']]));
}

#[test]
fn draw_box_overwrites_and_keeps_the_inside() {
    let mut state = AppState::new(5, 4);
    state.set_cell(0, 1, 1, 'a');
    state.set_cell(0, 0, 0, 'b');
    state.set_cell(0, 4, 3, 'c');
    state.draw_box(0, 0, 3, 2);
    assert_eq!(layer_rows(&state, 0), vec!["╔══╗ ", "║a ║ ", "╚══╝ ", "    c"]);
}

#[test]
fn draw_box_targets_the_active_layer() {
    let mut state = AppState::new(4, 3);
    state.active_layer = 6;
    state.draw_box(0, 0, 3, 2);
    assert_eq!(layer_rows(&state, 6), vec!["╔══╗", "║  ║", "╚══╝"]);
    assert_eq!(layer_rows(&state, 0), vec!["    ", "    ", "    "]);
}

#[test]
fn draw_line_horizontal_five_cells() {
    let mut state = AppState::new(8, 3);
    state.draw_line(0, 0, 4, 0, '-');
    assert_eq!(layer_rows(&state, 0), vec!["-----   ", "        ", "        "]);
    assert_eq!(count_glyph(&state, 0, '-'), 5);
}

#[test]
fn draw_line_single_point() {
    let mut state = AppState::new(4, 4);
    state.draw_line(2, 1, 2, 1, '*');
    assert_eq!(layer_rows(&state, 0), vec!["    ", "  * ", "    ", "    "]);
}

#[test]
fn draw_line_vertical_upward() {
    let mut state = AppState::new(3, 5);
    state.draw_line(1, 4, 1, 1, '|');
    assert_eq!(layer_rows(&state, 0), vec!["   ", " | ", " | ", " | ", " | "]);
}

#[test]
fn draw_line_diagonal() {
    let mut state = AppState::new(5, 5);
    state.draw_line(0, 0, 4, 4, '\\');
    assert_eq!(layer_rows(&state, 0), vec!["\\    ", " \\   ", "  \\  ", "   \\ ", "    \\"]);
}

#[test]
fn draw_line_shallow_slope() {
    let mut state = AppState::new(7, 4);
    state.draw_line(0, 0, 6, 2, '#');
    assert_eq!(layer_rows(&state, 0), vec!["##     ", "  ###  ", "     ##", "       "]);
}

#[test]
fn draw_line_steep_slope_leftward() {
    let mut state = AppState::new(4, 6);
    state.draw_line(3, 0, 1, 5, '#');
    assert_eq!(layer_rows(&state, 0), vec!["   #", "   #", "  # ", "  # ", " #  ", " #  "]);
}

#[test]
fn draw_line_stamps_both_ends() {
    let ends = [(0usize, 0usize, 6usize, 3usize), (6, 3, 0, 0), (5, 0, 2, 4), (0, 4, 6, 1)];
    for &(x1, y1, x2, y2) in ends.iter() {
        let mut state = AppState::new(7, 5);
        state.draw_line(x1, y1, x2, y2, 'o');
        assert_eq!(state.get_cell(0, x1, y1), 'o');
        assert_eq!(state.get_cell(0, x2, y2), 'o');
    }
}

#[test]
fn draw_line_passes_over_cells_off_the_canvas() {
    let mut state = AppState::new(4, 2);
    state.draw_line(1, 0, 9, 0, '=');
    assert_eq!(layer_rows(&state, 0), vec![" ===", "    "]);
    state.draw_line(0, 1, 0, 7, '!');
    assert_eq!(layer_rows(&state, 0), vec![" ===", "!   "]);
    state.draw_line(20, 30, 25, 35, '?');
    assert_eq!(layer_rows(&state, 0), vec![" ===", "!   "]);
}

#[test]
fn draw_line_between_far_apart_ends() {
    let mut state = AppState::new(3, 3);
    state.draw_line(0, 0, 100_000, 100_000, 'd');
    assert_eq!(layer_rows(&state, 0), vec!["d  ", " d ", "  d"]);
}

#[test]
fn draw_line_targets_the_active_layer() {
    let mut state = AppState::new(3, 1);
    state.active_layer = 9;
    state.draw_line(0, 0, 2, 0, 'z');
    assert_eq!(layer_rows(&state, 9), vec!["zzz"]);
    assert_eq!(layer_rows(&state, 0), vec!["   "]);
}

#[test]
fn layer_walk_stops_at_both_ends() {
    let mut state = AppState::new(2, 2);
    state.layer_down();
    assert_eq!(state.active_layer, 0);
    for expected in 1..=9 {
        state.layer_up();
        assert_eq!(state.active_layer, expected);
    }
    state.layer_up();
    assert_eq!(state.active_layer, 9);
    state.layer_down();
    assert_eq!(state.active_layer, 8);
}

#[test]
fn toggle_visibility_flips_one_layer() {
    let mut state = AppState::new(2, 2);
    state.toggle_visibility(3);
    for l in 0..10 {
        assert_eq!(state.layers[l].visible, l != 3);
    }
    state.toggle_visibility(3);
    assert!(state.layers[3].visible);
}
