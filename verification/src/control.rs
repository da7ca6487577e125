//! The mode controller: what each key does in each mode.

use vstd::prelude::*;
use crate::key::{HostAction, Key, KeyInput, Mode};
use crate::model::EditorModel;
use crate::state::AppState;

verus! {

/// `c` is the letter `lower`, in either case.
pub open spec fn is_letter(c: char, lower: char, upper: char) -> bool {
    c == lower || c == upper
}

impl EditorModel {
    /// The state with the selection anchor at the cursor.
    pub open spec fn anchor_selection(self) -> EditorModel {
        EditorModel { select_start_x: self.cursor_x, select_start_y: self.cursor_y, ..self }
    }

    /// The state with the line anchor at the cursor.
    pub open spec fn anchor_line(self) -> EditorModel {
        EditorModel { line_start_x: self.cursor_x, line_start_y: self.cursor_y, ..self }
    }

    /// The state after an arrow key; any other key leaves it as it is.
    pub open spec fn arrow(self, key: Key) -> EditorModel {
        match key {
            Key::Up => self.move_cursor(0, -1),
            Key::Down => self.move_cursor(0, 1),
            Key::Left => self.move_cursor(-1, 0),
            Key::Right => self.move_cursor(1, 0),
            _ => self,
        }
    }

    /// Move mode, the hub. `m` stays; `v`, `q`, `w` and `e` enter Select,
    /// BoxDraw, PencilDraw and LineDraw mode with the selection anchor at the
    /// cursor, `e` with the line anchor there as well; `p` pastes; `+` and
    /// `-` walk the layer stack; `h` flips the active layer's visibility;
    /// the arrows move the cursor around the edges.
    pub open spec fn key_in_move(self, key: Key) -> EditorModel {
        match key {
            Key::Char(c) => if is_letter(c, 'm', 'M') {
                self.with_mode(Mode::Move)
            } else if is_letter(c, 'v', 'V') {
                self.anchor_selection().with_mode(Mode::Select)
            } else if is_letter(c, 'q', 'Q') {
                self.anchor_selection().with_mode(Mode::BoxDraw)
            } else if is_letter(c, 'w', 'W') {
                self.anchor_selection().with_mode(Mode::PencilDraw)
            } else if is_letter(c, 'e', 'E') {
                self.anchor_selection().anchor_line().with_mode(Mode::LineDraw)
            } else if is_letter(c, 'p', 'P') {
                self.paste()
            } else if c == '+' {
                self.layer_up()
            } else if c == '-' {
                self.layer_down()
            } else if is_letter(c, 'h', 'H') {
                self.toggle_visibility(self.active_layer)
            } else {
                self
            },
            _ => self.arrow(key),
        }
    }

    /// Select mode. `y` yanks and `c` cuts the selection, both back to Move
    /// mode; escape goes back without either; the arrows move the cursor up
    /// to the edges.
    pub open spec fn key_in_select(self, key: Key) -> EditorModel {
        match key {
            Key::Char(c) => if is_letter(c, 'y', 'Y') {
                self.yank().with_mode(Mode::Move)
            } else if is_letter(c, 'c', 'C') {
                self.cut().with_mode(Mode::Move)
            } else {
                self
            },
            Key::Esc => self.with_mode(Mode::Move),
            _ => self.arrow(key),
        }
    }

    /// BoxDraw mode. `q` or enter draws the box from the anchor to the
    /// cursor, back to Move mode; escape goes back without drawing; the
    /// arrows move the cursor up to the edges.
    pub open spec fn key_in_box(self, key: Key) -> EditorModel {
        match key {
            Key::Char(c) => if is_letter(c, 'q', 'Q') {
                self.confirm_box()
            } else {
                self
            },
            Key::Enter => self.confirm_box(),
            Key::Esc => self.with_mode(Mode::Move),
            _ => self.arrow(key),
        }
    }

    /// The box from the selection anchor to the cursor drawn, in Move mode.
    pub open spec fn confirm_box(self) -> EditorModel {
        self.draw_box(
            self.select_start_x,
            self.select_start_y,
            self.cursor_x,
            self.cursor_y,
        ).with_mode(Mode::Move)
    }

    /// PencilDraw mode. A character key writes its character at the cursor
    /// on the active layer and advances the cursor in reading order; escape
    /// goes back to Move mode; no other key does anything.
    pub open spec fn key_in_pencil(self, key: Key) -> EditorModel {
        match key {
            Key::Char(c) => self.set_cell(
                self.active_layer,
                self.cursor_x,
                self.cursor_y,
                c,
            ).raster_advance(),
            Key::Esc => self.with_mode(Mode::Move),
            _ => self,
        }
    }

    /// LineDraw mode. A character key draws the line from the line anchor to
    /// the cursor with its character, back to Move mode; escape goes back
    /// without drawing; the arrows move the cursor up to the edges.
    pub open spec fn key_in_line(self, key: Key) -> EditorModel {
        match key {
            Key::Char(c) => self.draw_line(
                self.line_start_x,
                self.line_start_y,
                self.cursor_x,
                self.cursor_y,
                c,
            ).with_mode(Mode::Move),
            Key::Esc => self.with_mode(Mode::Move),
            _ => self.arrow(key),
        }
    }

    /// The state after one key, by the mode the editor is in. The control
    /// modifier plays no part in it.
    pub open spec fn handle_key(self, key: Key) -> EditorModel {
        match self.mode {
            Mode::Move => self.key_in_move(key),
            Mode::Select => self.key_in_select(key),
            Mode::BoxDraw => self.key_in_box(key),
            Mode::PencilDraw => self.key_in_pencil(key),
            Mode::LineDraw => self.key_in_line(key),
        }
    }
}

fn letter(c: char, lower: char, upper: char) -> (r: bool)
    ensures
        r == is_letter(c, lower, upper),
{
    c == lower || c == upper
}

impl KeyInput {
    /// What the host owes this event, whatever the mode.
    pub fn action(&self) -> (action: HostAction)
        ensures
            action == self.host_action(),
    {
        match self.key {
            Key::Char(c) => if self.ctrl && c == 's' {
                HostAction::SaveAndRedraw
            } else if self.ctrl && c == 'c' {
                HostAction::RedrawAndQuit
            } else {
                HostAction::Redraw
            },
            _ => HostAction::Redraw,
        }
    }
}

impl AppState {
    fn set_mode(&mut self, mode: Mode)
        requires
            old(self).wf(),
        ensures
            final(self).wf(),
            final(self)@ == old(self)@.with_mode(mode),
    {
        self.mode = mode;
        assert(self@.layers =~= old(self)@.layers);
    }

    fn anchor_selection(&mut self)
        requires
            old(self).wf(),
        ensures
            final(self).wf(),
            final(self)@ == old(self)@.anchor_selection(),
    {
        self.select_start_x = self.cursor_x;
        self.select_start_y = self.cursor_y;
        assert(self@.layers =~= old(self)@.layers);
    }

    fn anchor_line(&mut self)
        requires
            old(self).wf(),
        ensures
            final(self).wf(),
            final(self)@ == old(self)@.anchor_line(),
    {
        self.line_start_x = self.cursor_x;
        self.line_start_y = self.cursor_y;
        assert(self@.layers =~= old(self)@.layers);
    }

    fn arrow(&mut self, key: Key)
        requires
            old(self).wf(),
        ensures
            final(self).wf(),
            final(self)@ == old(self)@.arrow(key),
    {
        match key {
            Key::Up => self.move_cursor(0, -1),
            Key::Down => self.move_cursor(0, 1),
            Key::Left => self.move_cursor(-1, 0),
            Key::Right => self.move_cursor(1, 0),
            _ => {},
        }
    }

    fn confirm_box(&mut self)
        requires
            old(self).wf(),
        ensures
            final(self).wf(),
            final(self)@ == old(self)@.confirm_box(),
    {
        self.draw_box(self.select_start_x, self.select_start_y, self.cursor_x, self.cursor_y);
        self.set_mode(Mode::Move);
    }

    /// Handles one key in the current mode and says what the host has to do
    /// next. The state changes as the mode's key table prescribes; the save
    /// and quit combinations are reported whatever the mode, after the key
    /// itself has been handled.
    pub fn handle_key(&mut self, event: KeyInput) -> (action: HostAction)
        requires
            old(self).wf(),
        ensures
            final(self).wf(),
            final(self)@ == old(self)@.handle_key(event.key),
            action == event.host_action(),
    {
        let key = event.key;
        match self.mode {
            Mode::Move => match key {
                Key::Char(c) => {
                    if letter(c, 'm', 'M') {
                        self.set_mode(Mode::Move);
                    } else if letter(c, 'v', 'V') {
                        self.anchor_selection();
                        self.set_mode(Mode::Select);
                    } else if letter(c, 'q', 'Q') {
                        self.anchor_selection();
                        self.set_mode(Mode::BoxDraw);
                    } else if letter(c, 'w', 'W') {
                        self.anchor_selection();
                        self.set_mode(Mode::PencilDraw);
                    } else if letter(c, 'e', 'E') {
                        self.anchor_selection();
                        self.anchor_line();
                        self.set_mode(Mode::LineDraw);
                    } else if letter(c, 'p', 'P') {
                        self.paste();
                    } else if c == '+' {
                        self.layer_up();
                    } else if c == '-' {
                        self.layer_down();
                    } else if letter(c, 'h', 'H') {
                        self.toggle_visibility(self.active_layer);
                    }
                },
                _ => self.arrow(key),
            },
            Mode::Select => match key {
                Key::Char(c) => {
                    if letter(c, 'y', 'Y') {
                        self.yank();
                        self.set_mode(Mode::Move);
                    } else if letter(c, 'c', 'C') {
                        self.cut();
                        self.set_mode(Mode::Move);
                    }
                },
                Key::Esc => self.set_mode(Mode::Move),
                _ => self.arrow(key),
            },
            Mode::BoxDraw => match key {
                Key::Char(c) => {
                    if letter(c, 'q', 'Q') {
                        self.confirm_box();
                    }
                },
                Key::Enter => self.confirm_box(),
                Key::Esc => self.set_mode(Mode::Move),
                _ => self.arrow(key),
            },
            Mode::PencilDraw => match key {
                Key::Char(c) => {
                    self.set_cell(self.active_layer, self.cursor_x, self.cursor_y, c);
                    self.move_cursor(1, 0);
                },
                Key::Esc => self.set_mode(Mode::Move),
                _ => {},
            },
            Mode::LineDraw => match key {
                Key::Char(c) => {
                    self.draw_line(
                        self.line_start_x,
                        self.line_start_y,
                        self.cursor_x,
                        self.cursor_y,
                        c,
                    );
                    self.set_mode(Mode::Move);
                },
                Key::Esc => self.set_mode(Mode::Move),
                _ => self.arrow(key),
            },
        }
        event.action()
    }
}

} // verus!
