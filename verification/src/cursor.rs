//! Cursor movement: wrapping in Move mode, clamping while a shape is being
//! spanned, raster advance while pencilling.

use vstd::prelude::*;
use vstd::arithmetic::div_mod::{
    lemma_fundamental_div_mod, lemma_fundamental_div_mod_converse, lemma_mod_bound,
};
use crate::key::Mode;
use crate::model::EditorModel;
use crate::state::AppState;

verus! {

/// `pos + delta` wrapped into `[0, extent)`.
pub open spec fn wrapped(pos: int, delta: int, extent: int) -> int {
    (pos + delta) % extent
}

/// `pos + delta` clamped into `[0, extent - 1]`.
pub open spec fn clamped(pos: int, delta: int, extent: int) -> int {
    if pos + delta < 0 {
        0
    } else if pos + delta > extent - 1 {
        extent - 1
    } else {
        pos + delta
    }
}

impl EditorModel {
    /// The state with the cursor at `(x, y)`.
    pub open spec fn with_cursor(self, x: int, y: int) -> EditorModel {
        EditorModel { cursor_x: x, cursor_y: y, ..self }
    }

    /// The cursor one cell further in reading order: the next column, or the
    /// first column of the next row, or the top-left corner after the last
    /// cell.
    pub open spec fn raster_advance(self) -> EditorModel {
        if self.cursor_x + 1 < self.width {
            self.with_cursor(self.cursor_x + 1, self.cursor_y)
        } else if self.cursor_y + 1 < self.height {
            self.with_cursor(0, self.cursor_y + 1)
        } else {
            self.with_cursor(0, 0)
        }
    }

    /// The state after a cursor movement by `(dx, dy)`: around the edges in
    /// Move mode, stopped at the edges in Select, BoxDraw and LineDraw mode;
    /// in PencilDraw mode the request is a raster advance whatever `dx` and
    /// `dy` are.
    pub open spec fn move_cursor(self, dx: int, dy: int) -> EditorModel {
        match self.mode {
            Mode::Move => self.with_cursor(
                wrapped(self.cursor_x, dx, self.width),
                wrapped(self.cursor_y, dy, self.height),
            ),
            Mode::Select | Mode::BoxDraw | Mode::LineDraw => self.with_cursor(
                clamped(self.cursor_x, dx, self.width),
                clamped(self.cursor_y, dy, self.height),
            ),
            Mode::PencilDraw => self.raster_advance(),
        }
    }
}

/// The Euclidean remainder of a negative number, from that of its negation.
proof fn lemma_negative_remainder(t: int, w: int, m: int)
    requires
        w > 0,
        t < 0,
        m == (-t) % w,
    ensures
        t % w == (if m == 0 {
            0
        } else {
            w - m
        }),
{
    let q = (-t) / w;
    lemma_fundamental_div_mod(-t, w);
    lemma_mod_bound(-t, w);
    assert(-t == w * q + m);
    if m == 0 {
        assert(t == (-q) * w + 0) by (nonlinear_arith)
            requires
                -t == w * q,
        ;
        lemma_fundamental_div_mod_converse(t, w, -q, 0);
    } else {
        assert(t == (-q - 1) * w + (w - m)) by (nonlinear_arith)
            requires
                -t == w * q + m,
        ;
        lemma_fundamental_div_mod_converse(t, w, -q - 1, w - m);
    }
}

/// `pos + delta` wrapped into `[0, extent)`.
pub fn wrap_coordinate(pos: usize, delta: isize, extent: usize) -> (r: usize)
    requires
        pos < extent,
    ensures
        r == wrapped(pos as int, delta as int, extent as int),
        r < extent,
{
    let w: i128 = extent as i128;
    let t: i128 = pos as i128 + delta as i128;
    if t >= 0 {
        (t % w) as usize
    } else {
        let m: i128 = (-t) % w;
        proof {
            lemma_negative_remainder(t as int, w as int, m as int);
        }
        if m == 0 {
            0
        } else {
            (w - m) as usize
        }
    }
}

/// `pos + delta` clamped into `[0, extent - 1]`.
pub fn clamp_coordinate(pos: usize, delta: isize, extent: usize) -> (r: usize)
    requires
        pos < extent,
    ensures
        r == clamped(pos as int, delta as int, extent as int),
        r < extent,
{
    let t: i128 = pos as i128 + delta as i128;
    if t < 0 {
        0
    } else if t > extent as i128 - 1 {
        extent - 1
    } else {
        t as usize
    }
}

impl AppState {
    /// Moves the cursor by `(dx, dy)` as the current mode prescribes; nothing
    /// but the cursor changes, and the cursor stays on the canvas.
    pub fn move_cursor(&mut self, dx: isize, dy: isize)
        requires
            old(self).wf(),
        ensures
            final(self).wf(),
            final(self)@ == old(self)@.move_cursor(dx as int, dy as int),
            old(self).mode == Mode::Move ==> final(self).cursor_x == (old(self).cursor_x + dx)
                % (old(self).width as int) && final(self).cursor_y == (old(self).cursor_y + dy) % (
            old(self).height as int),
    {
        match self.mode {
            Mode::Move => {
                self.cursor_x = wrap_coordinate(self.cursor_x, dx, self.width);
                self.cursor_y = wrap_coordinate(self.cursor_y, dy, self.height);
            },
            Mode::Select | Mode::BoxDraw | Mode::LineDraw => {
                self.cursor_x = clamp_coordinate(self.cursor_x, dx, self.width);
                self.cursor_y = clamp_coordinate(self.cursor_y, dy, self.height);
            },
            Mode::PencilDraw => {
                if self.cursor_x + 1 < self.width {
                    self.cursor_x = self.cursor_x + 1;
                } else {
                    self.cursor_x = 0;
                    if self.cursor_y + 1 < self.height {
                        self.cursor_y = self.cursor_y + 1;
                    } else {
                        self.cursor_y = 0;
                    }
                }
            },
        }
        assert(self@.layers =~= old(self)@.layers);
    }
}

} // verus!
