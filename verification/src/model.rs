//! The mathematical model of the editor: what a layer and the whole editing
//! state are, independent of how they are stored.

use vstd::prelude::*;
use crate::key::Mode;

verus! {

/// Number of layers in the stack.
pub const LAYER_COUNT: usize = 10;

/// The width of the canvas where none is asked for.
pub const DEFAULT_WIDTH: usize = 80;

/// The height of the canvas where none is asked for.
pub const DEFAULT_HEIGHT: usize = 24;

/// The empty cell.
pub const EMPTY: char = ' ';

/// A layer as a value: rows of cells, top row first, and the visibility flag.
pub struct LayerModel {
    pub cells: Seq<Seq<char>>,
    pub visible: bool,
}

/// The editing state as a value.
pub struct EditorModel {
    pub width: int,
    pub height: int,
    pub cursor_x: int,
    pub cursor_y: int,
    pub mode: Mode,
    pub layers: Seq<LayerModel>,
    pub active_layer: int,
    pub copy_buffer: Option<Seq<Seq<char>>>,
    pub select_start_x: int,
    pub select_start_y: int,
    pub line_start_x: int,
    pub line_start_y: int,
}

/// The smaller of two numbers.
pub open spec fn min(a: int, b: int) -> int {
    if a <= b {
        a
    } else {
        b
    }
}

/// The larger of two numbers.
pub open spec fn max(a: int, b: int) -> int {
    if a <= b {
        b
    } else {
        a
    }
}

/// `rows` is a `height` by `width` matrix.
pub open spec fn is_matrix(rows: Seq<Seq<char>>, width: int, height: int) -> bool {
    &&& rows.len() == height
    &&& forall|y: int| 0 <= y < height ==> (#[trigger] rows[y]).len() == width
}

/// All rows of a block have the length of the first.
pub open spec fn is_rectangular(block: Seq<Seq<char>>) -> bool {
    forall|r: int| 0 <= r < block.len() ==> (#[trigger] block[r]).len() == block[0].len()
}

/// The `height` by `width` matrix whose cell in column `x` of row `y` is `f(x, y)`.
pub open spec fn matrix(width: int, height: int, f: spec_fn(int, int) -> char) -> Seq<Seq<char>> {
    Seq::new(height as nat, |y: int| Seq::new(width as nat, |x: int| f(x, y)))
}

impl EditorModel {
    /// `(x, y)` is a cell of the canvas.
    pub open spec fn in_bounds(self, x: int, y: int) -> bool {
        0 <= x < self.width && 0 <= y < self.height
    }

    /// The invariant of the editing state: ten layers of the canvas's size,
    /// cursor, anchors and active layer in range, a rectangular clipboard.
    pub open spec fn wf(self) -> bool {
        &&& 0 < self.width
        &&& 0 < self.height
        &&& self.layers.len() == LAYER_COUNT
        &&& forall|l: int|
            0 <= l < self.layers.len() ==> is_matrix(
                (#[trigger] self.layers[l]).cells,
                self.width,
                self.height,
            )
        &&& self.in_bounds(self.cursor_x, self.cursor_y)
        &&& 0 <= self.active_layer < LAYER_COUNT
        &&& self.in_bounds(self.select_start_x, self.select_start_y)
        &&& self.in_bounds(self.line_start_x, self.line_start_y)
        &&& self.copy_buffer matches Some(block) ==> is_rectangular(block)
    }

    /// A visible layer of empty cells.
    pub open spec fn blank_layer(width: int, height: int) -> LayerModel {
        LayerModel { cells: matrix(width, height, |x: int, y: int| EMPTY), visible: true }
    }

    /// The state at startup: ten blank, visible layers, cursor and anchors in
    /// the top-left corner, Move mode, layer 0 active, nothing in the
    /// clipboard.
    pub open spec fn initial(width: int, height: int) -> EditorModel {
        EditorModel {
            width,
            height,
            cursor_x: 0,
            cursor_y: 0,
            mode: Mode::Move,
            layers: Seq::new(LAYER_COUNT as nat, |l: int| Self::blank_layer(width, height)),
            active_layer: 0,
            copy_buffer: None,
            select_start_x: 0,
            select_start_y: 0,
            line_start_x: 0,
            line_start_y: 0,
        }
    }

    /// The cell in column `x` of row `y` on layer `l`.
    pub open spec fn cell(self, l: int, x: int, y: int) -> char {
        self.layers[l].cells[y][x]
    }

    /// The state in which layer `l` holds `f(x, y)` in every cell `(x, y)` and
    /// nothing else has changed.
    pub open spec fn map_layer(self, l: int, f: spec_fn(int, int) -> char) -> EditorModel {
        EditorModel {
            layers: self.layers.update(
                l,
                LayerModel {
                    cells: matrix(self.width, self.height, f),
                    visible: self.layers[l].visible,
                },
            ),
            ..self
        }
    }

    /// The state after writing `ch` into cell `(x, y)` of layer `l`.
    pub open spec fn set_cell(self, l: int, x: int, y: int, ch: char) -> EditorModel {
        self.map_layer(
            l,
            |cx: int, cy: int|
                if cx == x && cy == y {
                    ch
                } else {
                    self.cell(l, cx, cy)
                },
        )
    }

    /// The state in `mode`.
    pub open spec fn with_mode(self, mode: Mode) -> EditorModel {
        EditorModel { mode, ..self }
    }

    /// The state with the next layer up active; on the top layer, unchanged.
    pub open spec fn layer_up(self) -> EditorModel {
        if self.active_layer + 1 < LAYER_COUNT {
            EditorModel { active_layer: self.active_layer + 1, ..self }
        } else {
            self
        }
    }

    /// The state with the next layer down active; on the bottom layer,
    /// unchanged.
    pub open spec fn layer_down(self) -> EditorModel {
        if self.active_layer > 0 {
            EditorModel { active_layer: self.active_layer - 1, ..self }
        } else {
            self
        }
    }

    /// The state with the visibility of layer `l` flipped.
    pub open spec fn toggle_visibility(self, l: int) -> EditorModel {
        EditorModel {
            layers: self.layers.update(
                l,
                LayerModel { cells: self.layers[l].cells, visible: !self.layers[l].visible },
            ),
            ..self
        }
    }

    /// `self` and `other` differ at most in the cells of layer `l`.
    pub open spec fn same_but_layer(self, other: EditorModel, l: int) -> bool {
        &&& other.layers.len() == self.layers.len()
        &&& forall|k: int|
            0 <= k < self.layers.len() && k != l ==> #[trigger] other.layers[k] == self.layers[k]
        &&& other.layers[l].visible == self.layers[l].visible
        &&& other == EditorModel { layers: other.layers, ..self }
    }
}

/// What writing one cell changes: that cell of that layer, and nothing else.
pub proof fn lemma_set_cell(m: EditorModel, l: int, x: int, y: int, ch: char)
    requires
        m.wf(),
        0 <= l < LAYER_COUNT,
        m.in_bounds(x, y),
    ensures
        m.set_cell(l, x, y, ch).wf(),
        m.same_but_layer(m.set_cell(l, x, y, ch), l),
        forall|cx: int, cy: int|
            m.in_bounds(cx, cy) ==> #[trigger] m.set_cell(l, x, y, ch).cell(l, cx, cy) == (if cx
                == x && cy == y {
                ch
            } else {
                m.cell(l, cx, cy)
            }),
{
    let post = m.set_cell(l, x, y, ch);
    assert forall|k: int| 0 <= k < post.layers.len() implies is_matrix(
        (#[trigger] post.layers[k]).cells,
        post.width,
        post.height,
    ) by {
        if k != l {
            assert(post.layers[k] == m.layers[k]);
        }
    }
}

/// Differing only in the cells of one layer carries over two steps.
pub proof fn lemma_same_but_layer_trans(a: EditorModel, b: EditorModel, c: EditorModel, l: int)
    requires
        a.same_but_layer(b, l),
        b.same_but_layer(c, l),
    ensures
        a.same_but_layer(c, l),
{
    assert forall|k: int| 0 <= k < a.layers.len() && k != l implies #[trigger] c.layers[k]
        == a.layers[k] by {
        assert(b.layers[k] == a.layers[k]);
    }
}

/// Two states that each differ from `pre` only in the cells of layer `l`, and
/// agree on every cell of that layer, are equal.
pub proof fn lemma_equal_by_cells(pre: EditorModel, a: EditorModel, b: EditorModel, l: int)
    requires
        0 <= l < pre.layers.len(),
        pre.same_but_layer(a, l),
        pre.same_but_layer(b, l),
        is_matrix(a.layers[l].cells, pre.width, pre.height),
        is_matrix(b.layers[l].cells, pre.width, pre.height),
        forall|x: int, y: int| pre.in_bounds(x, y) ==> #[trigger] a.cell(l, x, y) == b.cell(l, x, y),
    ensures
        a == b,
{
    assert forall|y: int| 0 <= y < pre.height implies #[trigger] a.layers[l].cells[y]
        == b.layers[l].cells[y] by {
        assert forall|x: int| 0 <= x < pre.width implies a.layers[l].cells[y][x]
            == b.layers[l].cells[y][x] by {
            assert(a.cell(l, x, y) == b.cell(l, x, y));
        }
        assert(a.layers[l].cells[y] =~= b.layers[l].cells[y]);
    }
    assert(a.layers[l].cells =~= b.layers[l].cells);
    assert forall|k: int| 0 <= k < a.layers.len() implies a.layers[k] == b.layers[k] by {
        if k != l {
            assert(a.layers[k] == pre.layers[k]);
            assert(b.layers[k] == pre.layers[k]);
        }
    }
    assert(a.layers =~= b.layers);
}

} // verus!
