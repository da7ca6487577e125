//! The compositor: the visible layers merged into one frame, and the
//! selection overlay.

use vstd::prelude::*;
use crate::key::Mode;
use crate::model::{EditorModel, LayerModel, EMPTY, LAYER_COUNT, is_matrix, matrix};
use crate::state::{AppState, blank_rows, rows_view};

verus! {

/// One cell of a frame: the glyph to show, and whether to show it inverted.
#[derive(Clone, Copy, Debug, PartialEq, Eq, Structural)]
pub struct FrameCell {
    pub glyph: char,
    pub inverted: bool,
}

/// What a status line shows beside the frame.
#[derive(Clone, Copy, Debug, PartialEq, Eq, Structural)]
pub struct Status {
    pub mode: Mode,
    /// The active layer, counted from 1.
    pub layer_number: usize,
    pub cursor_x: usize,
    pub cursor_y: usize,
}

/// What the lowest `n` layers show in cell `(x, y)`: the cell of the topmost
/// visible layer among them that is not empty there, and the empty cell if
/// there is none.
pub open spec fn composite_cell(layers: Seq<LayerModel>, n: int, x: int, y: int) -> char
    decreases n,
{
    if n <= 0 {
        EMPTY
    } else if layers[n - 1].visible && layers[n - 1].cells[y][x] != EMPTY {
        layers[n - 1].cells[y][x]
    } else {
        composite_cell(layers, n - 1, x, y)
    }
}

impl EditorModel {
    /// The glyphs of the frame: all layers composited, cell by cell.
    pub open spec fn composite(self) -> Seq<Seq<char>> {
        matrix(
            self.width,
            self.height,
            |x: int, y: int| composite_cell(self.layers, self.layers.len() as int, x, y),
        )
    }

    /// Cell `(x, y)` is shown inverted: the editor is in Select mode and the
    /// cell lies in the selection.
    pub open spec fn inverted(self, x: int, y: int) -> bool {
        self.mode == Mode::Select && self.in_selection(x, y)
    }

    /// The frame: for each cell the composited glyph and the overlay mark.
    pub open spec fn frame(self) -> Seq<Seq<FrameCell>> {
        Seq::new(
            self.height as nat,
            |y: int|
                Seq::new(
                    self.width as nat,
                    |x: int|
                        FrameCell {
                            glyph: composite_cell(self.layers, self.layers.len() as int, x, y),
                            inverted: self.inverted(x, y),
                        },
                ),
        )
    }
}

/// The rows of a stored frame as sequences.
pub open spec fn frame_view(frame: Vec<Vec<FrameCell>>) -> Seq<Seq<FrameCell>> {
    Seq::new(frame.len() as nat, |y: int| frame[y]@)
}

impl AppState {
    /// Merges the layers into the glyphs of one frame. Layers are laid down
    /// from the bottom of the stack to the top; a hidden layer adds nothing,
    /// and an empty cell of a layer lets the cell below show through.
    pub fn composite(&self) -> (glyphs: Vec<Vec<char>>)
        requires
            self.wf(),
        ensures
            rows_view(glyphs) == self@.composite(),
    {
        let mut glyphs = blank_rows(self.width, self.height);
        let mut l: usize = 0;
        while l < LAYER_COUNT
            invariant
                self.wf(),
                l <= LAYER_COUNT,
                is_matrix(rows_view(glyphs), self.width as int, self.height as int),
                forall|x: int, y: int|
                    self@.in_bounds(x, y) ==> #[trigger] rows_view(glyphs)[y][x] == composite_cell(
                        self@.layers,
                        l as int,
                        x,
                        y,
                    ),
            decreases LAYER_COUNT - l,
        {
            if self.layers[l].visible {
                let mut y: usize = 0;
                while y < self.height
                    invariant
                        self.wf(),
                        l < LAYER_COUNT,
                        self.layers[l as int].visible,
                        y <= self.height,
                        is_matrix(rows_view(glyphs), self.width as int, self.height as int),
                        forall|cx: int, cy: int|
                            self@.in_bounds(cx, cy) ==> #[trigger] rows_view(glyphs)[cy][cx]
                                == composite_cell(
                                self@.layers,
                                if cy < y {
                                    l + 1
                                } else {
                                    l as int
                                },
                                cx,
                                cy,
                            ),
                    decreases self.height - y,
                {
                    let mut x: usize = 0;
                    while x < self.width
                        invariant
                            self.wf(),
                            l < LAYER_COUNT,
                            self.layers[l as int].visible,
                            y < self.height,
                            x <= self.width,
                            is_matrix(rows_view(glyphs), self.width as int, self.height as int),
                            forall|cx: int, cy: int|
                                self@.in_bounds(cx, cy) ==> #[trigger] rows_view(glyphs)[cy][cx]
                                    == composite_cell(
                                    self@.layers,
                                    if cy < y || cy == y && cx < x {
                                        l + 1
                                    } else {
                                        l as int
                                    },
                                    cx,
                                    cy,
                                ),
                        decreases self.width - x,
                    {
                        let ch = self.get_cell(l, x, y);
                        if ch != EMPTY {
                            let ghost before = rows_view(glyphs);
                            assert(before[y as int].len() == self.width);
                            glyphs[y][x] = ch;
                            assert forall|cx: int, cy: int|
                                self@.in_bounds(cx, cy) implies #[trigger] rows_view(
                                glyphs,
                            )[cy][cx] == (if cx == x && cy == y {
                                ch
                            } else {
                                before[cy][cx]
                            }) by {}
                            assert(is_matrix(
                                rows_view(glyphs),
                                self.width as int,
                                self.height as int,
                            )) by {
                                assert forall|cy: int| 0 <= cy < self.height implies (
                                #[trigger] rows_view(glyphs)[cy]).len() == self.width by {
                                    assert(before[cy].len() == self.width);
                                }
                            }
                        }
                        x = x + 1;
                    }
                    y = y + 1;
                }
            }
            l = l + 1;
        }
        proof {
            let want = self@.composite();
            assert forall|y: int| 0 <= y < self.height implies #[trigger] rows_view(glyphs)[y]
                == want[y] by {
                assert forall|x: int| 0 <= x < self.width implies rows_view(glyphs)[y][x]
                    == want[y][x] by {
                    assert(self@.in_bounds(x, y));
                }
                assert(rows_view(glyphs)[y] =~= want[y]);
            }
            assert(rows_view(glyphs) =~= want);
        }
        glyphs
    }

    /// Whether cell `(x, y)` is to be shown inverted.
    pub fn is_inverted(&self, x: usize, y: usize) -> (inverted: bool)
        requires
            self.wf(),
        ensures
            inverted == self@.inverted(x as int, y as int),
    {
        let rect = self.selection();
        self.mode == Mode::Select && rect.left <= x && x <= rect.right && rect.top <= y && y
            <= rect.bottom
    }

    /// The frame to show: the composited glyphs, and in Select mode every
    /// cell of the selection marked for inverted display. The layers are not
    /// touched.
    pub fn render(&self) -> (frame: Vec<Vec<FrameCell>>)
        requires
            self.wf(),
        ensures
            frame_view(frame) == self@.frame(),
    {
        let glyphs = self.composite();
        let mut frame: Vec<Vec<FrameCell>> = Vec::new();
        let mut y: usize = 0;
        assert(rows_view(glyphs).len() == self.height);
        while y < self.height
            invariant
                self.wf(),
                rows_view(glyphs) == self@.composite(),
                glyphs.len() == self.height,
                y <= self.height,
                frame.len() == y,
                forall|r: int| 0 <= r < y ==> (#[trigger] frame[r])@ == self@.frame()[r],
            decreases self.height - y,
        {
            let mut row: Vec<FrameCell> = Vec::new();
            let mut x: usize = 0;
            assert(rows_view(glyphs)[y as int].len() == self.width);
            assert(rows_view(glyphs)[y as int] == glyphs[y as int]@);
            while x < self.width
                invariant
                    self.wf(),
                    rows_view(glyphs) == self@.composite(),
                    glyphs.len() == self.height,
                    glyphs[y as int].len() == self.width,
                    y < self.height,
                    x <= self.width,
                    row.len() == x,
                    forall|c: int| 0 <= c < x ==> #[trigger] row[c] == self@.frame()[y as int][c],
                decreases self.width - x,
            {
                let glyph = glyphs[y][x];
                assert(glyph == rows_view(glyphs)[y as int][x as int]);
                row.push(FrameCell { glyph, inverted: self.is_inverted(x, y) });
                x = x + 1;
            }
            assert(row@ =~= self@.frame()[y as int]);
            frame.push(row);
            y = y + 1;
        }
        assert(frame_view(frame) =~= self@.frame());
        frame
    }
    /// What a status line shows: the mode, the active layer counted from 1,
    /// and the cursor.
    pub fn status(&self) -> (status: Status)
        requires
            self.wf(),
        ensures
            status == (Status {
                mode: self.mode,
                layer_number: (self.active_layer + 1) as usize,
                cursor_x: self.cursor_x,
                cursor_y: self.cursor_y,
            }),
    {
        Status {
            mode: self.mode,
            layer_number: self.active_layer + 1,
            cursor_x: self.cursor_x,
            cursor_y: self.cursor_y,
        }
    }
}

} // verus!
