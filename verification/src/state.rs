//! The stored editing state and the primitives of the layer stack.

use vstd::prelude::*;
use crate::key::Mode;
use crate::model::{
    EditorModel, LayerModel, LAYER_COUNT, EMPTY, is_matrix, matrix, lemma_equal_by_cells,
    lemma_same_but_layer_trans, lemma_set_cell,
};

verus! {

/// One layer: a matrix of cells, top row first, and whether it is shown.
pub struct Layer {
    pub data: Vec<Vec<char>>,
    pub visible: bool,
}

/// The whole editing state.
pub struct AppState {
    pub width: usize,
    pub height: usize,
    pub cursor_x: usize,
    pub cursor_y: usize,
    pub mode: Mode,
    pub layers: Vec<Layer>,
    pub active_layer: usize,
    pub copy_buffer: Option<Vec<Vec<char>>>,
    pub select_start_x: usize,
    pub select_start_y: usize,
    pub line_start_x: usize,
    pub line_start_y: usize,
}

/// The rows of a stored matrix as sequences.
pub open spec fn rows_view(data: Vec<Vec<char>>) -> Seq<Seq<char>> {
    Seq::new(data.len() as nat, |y: int| data[y]@)
}

impl View for Layer {
    type V = LayerModel;

    open spec fn view(&self) -> LayerModel {
        LayerModel { cells: rows_view(self.data), visible: self.visible }
    }
}

impl View for AppState {
    type V = EditorModel;

    open spec fn view(&self) -> EditorModel {
        EditorModel {
            width: self.width as int,
            height: self.height as int,
            cursor_x: self.cursor_x as int,
            cursor_y: self.cursor_y as int,
            mode: self.mode,
            layers: Seq::new(self.layers.len() as nat, |l: int| self.layers[l]@),
            active_layer: self.active_layer as int,
            copy_buffer: match self.copy_buffer {
                Some(block) => Some(rows_view(block)),
                None => None,
            },
            select_start_x: self.select_start_x as int,
            select_start_y: self.select_start_y as int,
            line_start_x: self.line_start_x as int,
            line_start_y: self.line_start_y as int,
        }
    }
}

/// A row of `width` empty cells.
pub fn blank_row(width: usize) -> (row: Vec<char>)
    ensures
        row@ == Seq::new(width as nat, |x: int| EMPTY),
{
    let mut row: Vec<char> = Vec::new();
    let mut x: usize = 0;
    while x < width
        invariant
            x <= width,
            row@ == Seq::new(x as nat, |i: int| EMPTY),
        decreases width - x,
    {
        row.push(EMPTY);
        x = x + 1;
        assert(row@ =~= Seq::new(x as nat, |i: int| EMPTY));
    }
    row
}

/// A `height` by `width` matrix of empty cells.
pub fn blank_rows(width: usize, height: usize) -> (rows: Vec<Vec<char>>)
    ensures
        rows_view(rows) == matrix(width as int, height as int, |x: int, y: int| EMPTY),
{
    let mut rows: Vec<Vec<char>> = Vec::new();
    let mut y: usize = 0;
    while y < height
        invariant
            y <= height,
            rows.len() == y,
            forall|i: int| 0 <= i < y ==> (#[trigger] rows[i])@ == Seq::new(width as nat, |x: int| EMPTY),
        decreases height - y,
    {
        rows.push(blank_row(width));
        y = y + 1;
    }
    proof {
        let want = matrix(width as int, height as int, |x: int, y: int| EMPTY);
        assert forall|i: int| 0 <= i < height implies #[trigger] rows_view(rows)[i] == want[i] by {
            assert(rows[i]@ =~= want[i]);
        }
        assert(rows_view(rows) =~= want);
    }
    rows
}

impl AppState {
    /// The invariant of the stored state.
    pub open spec fn wf(&self) -> bool {
        self@.wf()
    }

    /// A canvas of the given size: ten blank, visible layers, the cursor and
    /// both anchors in the top-left corner, Move mode, layer 0 active, an
    /// empty clipboard.
    pub fn new(width: usize, height: usize) -> (state: AppState)
        requires
            width > 0,
            height > 0,
        ensures
            state.wf(),
            state@ == EditorModel::initial(width as int, height as int),
    {
        let mut layers: Vec<Layer> = Vec::new();
        let mut l: usize = 0;
        while l < LAYER_COUNT
            invariant
                l <= LAYER_COUNT,
                layers.len() == l,
                forall|k: int|
                    0 <= k < l ==> (#[trigger] layers[k])@ == EditorModel::blank_layer(
                        width as int,
                        height as int,
                    ),
            decreases LAYER_COUNT - l,
        {
            layers.push(Layer { data: blank_rows(width, height), visible: true });
            l = l + 1;
        }
        let state = AppState {
            width,
            height,
            cursor_x: 0,
            cursor_y: 0,
            mode: Mode::Move,
            layers,
            active_layer: 0,
            copy_buffer: None,
            select_start_x: 0,
            select_start_y: 0,
            line_start_x: 0,
            line_start_y: 0,
        };
        assert(state@.layers =~= EditorModel::initial(width as int, height as int).layers);
        state
    }

    /// Writes `ch` into cell `(x, y)` of layer `layer`.
    pub fn set_cell(&mut self, layer: usize, x: usize, y: usize, ch: char)
        requires
            old(self).wf(),
            layer < LAYER_COUNT,
            x < old(self).width,
            y < old(self).height,
        ensures
            final(self).wf(),
            final(self)@ == old(self)@.set_cell(layer as int, x as int, y as int, ch),
    {
        assert(is_matrix(self@.layers[layer as int].cells, self.width as int, self.height as int));
        assert(self@.layers[layer as int].cells[y as int].len() == self.width);
        self.layers[layer].data[y][x] = ch;
        proof {
            let pre = old(self)@;
            let post = self@;
            let l = layer as int;
            assert(post.layers[l].cells =~= pre.layers[l].cells.update(
                y as int,
                pre.layers[l].cells[y as int].update(x as int, ch),
            ));
            assert forall|k: int| 0 <= k < pre.layers.len() && k != l implies #[trigger] post.layers[k]
                == pre.layers[k] by {
                assert(self.layers[k] == old(self).layers[k]);
            }
            assert(post.copy_buffer == pre.copy_buffer);
            lemma_equal_by_cells(pre, post, pre.set_cell(l, x as int, y as int, ch), l);
        }
    }

    /// Writes `ch` into cell `(x, y)` of layer `layer`, as one step of a
    /// change that began in the state `origin` and touches the cells of that
    /// layer only.
    pub(crate) fn put(
        &mut self,
        Ghost(origin): Ghost<EditorModel>,
        layer: usize,
        x: usize,
        y: usize,
        ch: char,
    )
        requires
            old(self).wf(),
            layer < LAYER_COUNT,
            x < old(self).width,
            y < old(self).height,
            origin.same_but_layer(old(self)@, layer as int),
        ensures
            final(self).wf(),
            origin.same_but_layer(final(self)@, layer as int),
            forall|cx: int, cy: int|
                old(self)@.in_bounds(cx, cy) ==> #[trigger] final(self)@.cell(layer as int, cx, cy)
                    == (if cx == x && cy == y {
                    ch
                } else {
                    old(self)@.cell(layer as int, cx, cy)
                }),
    {
        self.set_cell(layer, x, y, ch);
        proof {
            lemma_set_cell(old(self)@, layer as int, x as int, y as int, ch);
            lemma_same_but_layer_trans(origin, old(self)@, self@, layer as int);
        }
    }

    /// The cell in column `x` of row `y` on layer `layer`.
    pub fn get_cell(&self, layer: usize, x: usize, y: usize) -> (ch: char)
        requires
            self.wf(),
            layer < LAYER_COUNT,
            x < self.width,
            y < self.height,
        ensures
            ch == self@.cell(layer as int, x as int, y as int),
    {
        assert(is_matrix(self@.layers[layer as int].cells, self.width as int, self.height as int));
        assert(self@.layers[layer as int].cells[y as int].len() == self.width);
        self.layers[layer].data[y][x]
    }
    /// Shows layer `layer` if it is hidden, hides it if it is shown.
    pub fn toggle_visibility(&mut self, layer: usize)
        requires
            old(self).wf(),
            layer < LAYER_COUNT,
        ensures
            final(self).wf(),
            final(self)@ == old(self)@.toggle_visibility(layer as int),
    {
        let shown = self.layers[layer].visible;
        self.layers[layer].visible = !shown;
        proof {
            let want = old(self)@.toggle_visibility(layer as int);
            assert forall|k: int| 0 <= k < want.layers.len() implies #[trigger] self@.layers[k]
                == want.layers[k] by {
                if k != layer as int {
                    assert(self.layers[k] == old(self).layers[k]);
                    assert(old(self)@.layers[k] == old(self).layers[k]@);
                }
            }
            assert(self@.layers =~= want.layers);
            assert forall|k: int| 0 <= k < self@.layers.len() implies is_matrix(
                (#[trigger] self@.layers[k]).cells,
                self@.width,
                self@.height,
            ) by {
                assert(is_matrix(old(self)@.layers[k].cells, self@.width, self@.height));
            }
        }
    }

    /// Makes the next layer up the active one; on the top layer nothing
    /// happens.
    pub fn layer_up(&mut self)
        requires
            old(self).wf(),
        ensures
            final(self).wf(),
            final(self)@ == old(self)@.layer_up(),
    {
        if self.active_layer + 1 < LAYER_COUNT {
            self.active_layer = self.active_layer + 1;
        }
        assert(self@.layers =~= old(self)@.layers);
    }

    /// Makes the next layer down the active one; on the bottom layer nothing
    /// happens.
    pub fn layer_down(&mut self)
        requires
            old(self).wf(),
        ensures
            final(self).wf(),
            final(self)@ == old(self)@.layer_down(),
    {
        if self.active_layer > 0 {
            self.active_layer = self.active_layer - 1;
        }
        assert(self@.layers =~= old(self)@.layers);
    }
}

} // verus!
