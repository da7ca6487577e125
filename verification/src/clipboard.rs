//! The selection rectangle and the clipboard: yank, cut and paste.

use vstd::prelude::*;
use crate::model::{EditorModel, EMPTY, is_matrix, is_rectangular, lemma_equal_by_cells, max, min};
use crate::state::{AppState, rows_view};

verus! {

/// A rectangle of cells, all four edges included.
#[derive(Clone, Copy, Debug, PartialEq, Eq, Structural)]
pub struct Rect {
    pub left: usize,
    pub top: usize,
    pub right: usize,
    pub bottom: usize,
}

impl EditorModel {
    /// The leftmost column of the selection.
    pub open spec fn selection_left(self) -> int {
        min(self.select_start_x, self.cursor_x)
    }

    /// The rightmost column of the selection.
    pub open spec fn selection_right(self) -> int {
        max(self.select_start_x, self.cursor_x)
    }

    /// The topmost row of the selection.
    pub open spec fn selection_top(self) -> int {
        min(self.select_start_y, self.cursor_y)
    }

    /// The bottommost row of the selection.
    pub open spec fn selection_bottom(self) -> int {
        max(self.select_start_y, self.cursor_y)
    }

    /// `(x, y)` lies in the rectangle that the selection anchor and the
    /// cursor span, both included, whichever of the two comes first.
    pub open spec fn in_selection(self, x: int, y: int) -> bool {
        &&& self.selection_left() <= x <= self.selection_right()
        &&& self.selection_top() <= y <= self.selection_bottom()
    }

    /// The cells of the active layer inside the selection, as a block of
    /// rows.
    pub open spec fn selected_block(self) -> Seq<Seq<char>> {
        Seq::new(
            (self.selection_bottom() - self.selection_top() + 1) as nat,
            |r: int|
                Seq::new(
                    (self.selection_right() - self.selection_left() + 1) as nat,
                    |c: int|
                        self.cell(
                            self.active_layer,
                            self.selection_left() + c,
                            self.selection_top() + r,
                        ),
                ),
        )
    }

    /// The state after a yank: the clipboard holds the selected block, and
    /// nothing else has changed.
    pub open spec fn yank(self) -> EditorModel {
        EditorModel { copy_buffer: Some(self.selected_block()), ..self }
    }

    /// The state in which every cell of the selection on the active layer is
    /// empty.
    pub open spec fn clear_selection(self) -> EditorModel {
        self.map_layer(
            self.active_layer,
            |x: int, y: int|
                if self.in_selection(x, y) {
                    EMPTY
                } else {
                    self.cell(self.active_layer, x, y)
                },
        )
    }

    /// The state after a cut: a yank, then the selection cleared.
    pub open spec fn cut(self) -> EditorModel {
        self.yank().clear_selection()
    }

    /// `(x, y)` is a cell that `block`, laid down with its top-left corner at
    /// the cursor, covers.
    pub open spec fn covered_by(self, block: Seq<Seq<char>>, x: int, y: int) -> bool {
        &&& 0 <= y - self.cursor_y < block.len()
        &&& 0 <= x - self.cursor_x < block[0].len()
    }

    /// The state after a paste: each cell of the active layer that the
    /// clipboard block covers holds the block's cell, and nothing else has
    /// changed. With an empty clipboard nothing happens.
    pub open spec fn paste(self) -> EditorModel {
        match self.copy_buffer {
            None => self,
            Some(block) => self.map_layer(
                self.active_layer,
                |x: int, y: int|
                    if self.covered_by(block, x, y) {
                        block[y - self.cursor_y][x - self.cursor_x]
                    } else {
                        self.cell(self.active_layer, x, y)
                    },
            ),
        }
    }
}

/// A cut captures what a yank on the same selection captures, it leaves
/// every cell of the selection empty, and it changes no cell outside it.
pub proof fn lemma_yank_then_cut(m: EditorModel)
    requires
        m.wf(),
    ensures
        m.yank().cut().copy_buffer == m.yank().copy_buffer,
        m.cut().copy_buffer == m.yank().copy_buffer,
        forall|x: int, y: int|
            m.in_selection(x, y) ==> #[trigger] m.yank().cut().cell(m.active_layer, x, y)
                == EMPTY,
        forall|x: int, y: int|
            m.in_bounds(x, y) && !m.in_selection(x, y) ==> #[trigger] m.yank().cut().cell(
                m.active_layer,
                x,
                y,
            ) == m.cell(m.active_layer, x, y),
{
    assert(m.yank().selected_block() =~~= m.selected_block());
}

fn smaller(a: usize, b: usize) -> (r: usize)
    ensures
        r == min(a as int, b as int),
{
    if a <= b {
        a
    } else {
        b
    }
}

fn larger(a: usize, b: usize) -> (r: usize)
    ensures
        r == max(a as int, b as int),
{
    if a <= b {
        b
    } else {
        a
    }
}

impl AppState {
    /// The rectangle that the selection anchor and the cursor span, whichever
    /// of the two comes first along either axis.
    pub fn selection(&self) -> (rect: Rect)
        requires
            self.wf(),
        ensures
            rect.left == self@.selection_left(),
            rect.top == self@.selection_top(),
            rect.right == self@.selection_right(),
            rect.bottom == self@.selection_bottom(),
            rect.left <= rect.right < self.width,
            rect.top <= rect.bottom < self.height,
    {
        Rect {
            left: smaller(self.select_start_x, self.cursor_x),
            top: smaller(self.select_start_y, self.cursor_y),
            right: larger(self.select_start_x, self.cursor_x),
            bottom: larger(self.select_start_y, self.cursor_y),
        }
    }

    /// Copies the selected rectangle of the active layer into the clipboard.
    /// The layers stay as they are.
    pub fn yank(&mut self)
        requires
            old(self).wf(),
        ensures
            final(self).wf(),
            final(self)@ == old(self)@.yank(),
    {
        let Rect { left, top, right, bottom } = self.selection();
        let a = self.active_layer;
        let mut block: Vec<Vec<char>> = Vec::new();
        let mut y: usize = top;
        while y <= bottom
            invariant
                self.wf(),
                a == self.active_layer,
                left == self@.selection_left(),
                right == self@.selection_right(),
                top == self@.selection_top(),
                bottom == self@.selection_bottom(),
                top <= y <= bottom + 1,
                block.len() == y - top,
                forall|r: int|
                    0 <= r < block.len() ==> (#[trigger] block[r])@ == self@.selected_block()[r],
            decreases bottom + 1 - y,
        {
            let mut row: Vec<char> = Vec::new();
            let mut x: usize = left;
            while x <= right
                invariant
                    self.wf(),
                    a == self.active_layer,
                    left == self@.selection_left(),
                    right == self@.selection_right(),
                    top <= y <= bottom < self.height,
                    left <= x <= right + 1,
                    row.len() == x - left,
                    forall|c: int|
                        0 <= c < row.len() ==> #[trigger] row[c] == self@.cell(
                            a as int,
                            left + c,
                            y as int,
                        ),
                decreases right + 1 - x,
            {
                row.push(self.get_cell(a, x, y));
                x = x + 1;
            }
            assert(row@ =~= self@.selected_block()[y - top]);
            block.push(row);
            y = y + 1;
        }
        assert(rows_view(block) =~= self@.selected_block());
        self.copy_buffer = Some(block);
        assert(self@.layers =~= old(self)@.layers);
    }
    /// Copies the selected rectangle of the active layer into the clipboard
    /// and then empties every cell of it on that layer.
    pub fn cut(&mut self)
        requires
            old(self).wf(),
        ensures
            final(self).wf(),
            final(self)@ == old(self)@.cut(),
    {
        self.yank();
        let Rect { left, top, right, bottom } = self.selection();
        let a = self.active_layer;
        let ghost pre = self@;
        let mut y: usize = top;
        while y <= bottom
            invariant
                self.wf(),
                pre.wf(),
                a == self.active_layer == pre.active_layer,
                left == pre.selection_left(),
                right == pre.selection_right(),
                top == pre.selection_top(),
                bottom == pre.selection_bottom(),
                top <= y <= bottom + 1,
                pre.same_but_layer(self@, a as int),
                forall|cx: int, cy: int|
                    pre.in_bounds(cx, cy) ==> #[trigger] self@.cell(a as int, cx, cy) == (
                    if left <= cx <= right && top <= cy < y {
                        EMPTY
                    } else {
                        pre.cell(a as int, cx, cy)
                    }),
            decreases bottom + 1 - y,
        {
            let mut x: usize = left;
            while x <= right
                invariant
                    self.wf(),
                    pre.wf(),
                    a == self.active_layer == pre.active_layer,
                    right == pre.selection_right(),
                    top <= y <= bottom < self.height,
                    left <= x <= right + 1,
                    pre.same_but_layer(self@, a as int),
                    forall|cx: int, cy: int|
                        pre.in_bounds(cx, cy) ==> #[trigger] self@.cell(a as int, cx, cy) == (
                        if left <= cx <= right && top <= cy < y || cy == y && left <= cx < x {
                            EMPTY
                        } else {
                            pre.cell(a as int, cx, cy)
                        }),
                decreases right + 1 - x,
            {
                self.put(Ghost(pre), a, x, y, EMPTY);
                x = x + 1;
            }
            y = y + 1;
        }
        proof {
            let l = a as int;
            let want = pre.clear_selection();
            assert(is_matrix(pre.layers[l].cells, pre.width, pre.height));
            assert forall|cx: int, cy: int| pre.in_bounds(cx, cy) implies #[trigger] self@.cell(
                l,
                cx,
                cy,
            ) == want.cell(l, cx, cy) by {}
            lemma_equal_by_cells(pre, self@, want, l);
        }
    }

    /// Lays the clipboard block down on the active layer with its top-left
    /// corner at the cursor. Cells of the block that would fall outside the
    /// canvas are left out; cells of the layer that the block does not cover
    /// keep what they hold. With an empty clipboard nothing happens.
    pub fn paste(&mut self)
        requires
            old(self).wf(),
        ensures
            final(self).wf(),
            final(self)@ == old(self)@.paste(),
            old(self)@.copy_buffer matches Some(block) ==> forall|dx: int, dy: int|
                0 <= dy < block.len() && 0 <= dx < block[0].len() && old(self)@.in_bounds(
                    old(self).cursor_x + dx,
                    old(self).cursor_y + dy,
                ) ==> #[trigger] final(self)@.cell(
                    old(self).active_layer as int,
                    old(self).cursor_x + dx,
                    old(self).cursor_y + dy,
                ) == block[dy][dx],
            forall|x: int, y: int|
                old(self)@.in_bounds(x, y) && !(old(self)@.copy_buffer matches Some(block)
                    && old(self)@.covered_by(block, x, y)) ==> #[trigger] final(self)@.cell(
                    old(self).active_layer as int,
                    x,
                    y,
                ) == old(self)@.cell(old(self).active_layer as int, x, y),
    {
        let taken = self.copy_buffer.take();
        assert(self@.layers =~= old(self)@.layers);
        match taken {
            None => {},
            Some(block) => {
                let ghost pre = self@;
                let ghost b = rows_view(block);
                let a = self.active_layer;
                let rows = block.len();
                let cols = if rows > 0 { block[0].len() } else { 0 };
                let room_x = self.width - self.cursor_x;
                let room_y = self.height - self.cursor_y;
                let mut dy: usize = 0;
                while dy < rows
                    invariant
                        self.wf(),
                        pre.wf(),
                        a == self.active_layer == pre.active_layer,
                        b == rows_view(block),
                        is_rectangular(b),
                        rows == block.len(),
                        rows > 0 ==> cols == block[0].len(),
                        room_x == pre.width - pre.cursor_x,
                        room_y == pre.height - pre.cursor_y,
                        self.cursor_x == pre.cursor_x,
                        self.cursor_y == pre.cursor_y,
                        dy <= rows,
                        pre.same_but_layer(self@, a as int),
                        forall|cx: int, cy: int|
                            pre.in_bounds(cx, cy) ==> #[trigger] self@.cell(a as int, cx, cy) == (
                            if pre.covered_by(b, cx, cy) && cy - pre.cursor_y < dy {
                                b[cy - pre.cursor_y][cx - pre.cursor_x]
                            } else {
                                pre.cell(a as int, cx, cy)
                            }),
                    decreases rows - dy,
                {
                    let mut dx: usize = 0;
                    assert(b[dy as int].len() == b[0].len());
                    while dx < cols
                        invariant
                            self.wf(),
                            pre.wf(),
                            a == self.active_layer == pre.active_layer,
                            b == rows_view(block),
                            is_rectangular(b),
                            rows == block.len(),
                            cols == block[0].len(),
                            block[dy as int].len() == cols,
                            room_x == pre.width - pre.cursor_x,
                            room_y == pre.height - pre.cursor_y,
                            self.cursor_x == pre.cursor_x,
                            self.cursor_y == pre.cursor_y,
                            dy < rows,
                            dx <= cols,
                            pre.same_but_layer(self@, a as int),
                            forall|cx: int, cy: int|
                                pre.in_bounds(cx, cy) ==> #[trigger] self@.cell(a as int, cx, cy)
                                    == (if pre.covered_by(b, cx, cy) && (cy - pre.cursor_y < dy
                                    || cy - pre.cursor_y == dy && cx - pre.cursor_x < dx) {
                                    b[cy - pre.cursor_y][cx - pre.cursor_x]
                                } else {
                                    pre.cell(a as int, cx, cy)
                                }),
                        decreases cols - dx,
                    {
                        if dx < room_x && dy < room_y {
                            let x = self.cursor_x + dx;
                            let y = self.cursor_y + dy;
                            self.put(Ghost(pre), a, x, y, block[dy][dx]);
                        }
                        dx = dx + 1;
                    }
                    dy = dy + 1;
                }
                let ghost filled = self@;
                self.copy_buffer = Some(block);
                proof {
                    let l = a as int;
                    let orig = old(self)@;
                    assert(self@.layers =~= filled.layers);
                    let want = orig.paste();
                    assert(orig.copy_buffer == Some(b));
                    assert(is_matrix(orig.layers[l].cells, orig.width, orig.height));
                    assert(orig.same_but_layer(self@, l)) by {
                        assert forall|k: int| 0 <= k < orig.layers.len() && k != l implies
                            #[trigger] self@.layers[k] == orig.layers[k] by {
                            assert(self@.layers[k] == pre.layers[k]);
                        }
                    }
                    assert forall|cx: int, cy: int| orig.in_bounds(cx, cy) implies
                        #[trigger] self@.cell(l, cx, cy) == want.cell(l, cx, cy) by {
                        assert(orig.cell(l, cx, cy) == pre.cell(l, cx, cy));
                        assert(self@.cell(l, cx, cy) == filled.cell(l, cx, cy));
                    }
                    lemma_equal_by_cells(orig, self@, want, l);
                }
            },
        }
    }
}

} // verus!
