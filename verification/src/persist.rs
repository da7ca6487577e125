//! The text form of a layer: one line per row, and how such a text is read
//! back into a layer.

use vstd::prelude::*;
use crate::model::{EditorModel, EMPTY, LAYER_COUNT, is_matrix, lemma_equal_by_cells};
use crate::state::{AppState, rows_view};

verus! {

/// The character that ends a line.
pub const LINE_FEED: char = '\n';

/// The character that, directly before a line feed, belongs to the line end.
pub const CARRIAGE_RETURN: char = '\r';

/// Assumed of the standard library's `String::push`, not proved: after the
/// call the string holds what it held before, followed by `ch`.
pub assume_specification[ String::push ](s: &mut String, ch: char)
    ensures
        final(s)@ == old(s)@.push(ch),
;

/// The decimal digit for `d`, which is less than ten.
pub open spec fn digit(d: int) -> char {
    ('0' as int + d) as char
}

/// The name of the file that holds layer `l`: a fixed pattern around the
/// layer's index.
pub open spec fn layer_file_name(l: int) -> Seq<char> {
    "./output_layer_"@ + seq![digit(l)] + ".txt"@
}

/// Some cell of the matrix is not empty.
pub open spec fn has_content(cells: Seq<Seq<char>>) -> bool {
    exists|x: int, y: int|
        0 <= y < cells.len() && 0 <= x < cells[y].len() && #[trigger] cells[y][x] != EMPTY
}

/// The text of a block of rows: each row, top row first, followed by a line
/// feed.
pub open spec fn text_of_rows(rows: Seq<Seq<char>>) -> Seq<char>
    decreases rows.len(),
{
    if rows.len() == 0 {
        Seq::empty()
    } else {
        rows.first().push(LINE_FEED) + text_of_rows(rows.drop_first())
    }
}

/// The index of the first line feed in `s`; the length of `s` if it holds none.
pub open spec fn first_line_feed(s: Seq<char>) -> nat
    decreases s.len(),
{
    if s.len() == 0 || s[0] == LINE_FEED {
        0
    } else {
        1 + first_line_feed(s.drop_first())
    }
}

/// A line without the carriage return at its end, if it has one there.
pub open spec fn without_carriage_return(line: Seq<char>) -> Seq<char> {
    if line.len() > 0 && line.last() == CARRIAGE_RETURN {
        line.drop_last()
    } else {
        line
    }
}

/// The lines of a text. A line ends at a line feed, or at a carriage return
/// directly followed by one; neither belongs to the line. What follows the
/// last line feed is a line of its own unless it is empty, and keeps a
/// carriage return at its end.
pub open spec fn split_lines(s: Seq<char>) -> Seq<Seq<char>>
    decreases s.len(),
{
    if s.len() == 0 {
        Seq::empty()
    } else {
        let n = first_line_feed(s) as int;
        if n >= s.len() {
            seq![s]
        } else {
            seq![without_carriage_return(s.subrange(0, n))] + split_lines(
                s.subrange(n + 1, s.len() as int),
            )
        }
    }
}

/// The rows are no more than `height`, and none is longer than `width`.
pub open spec fn fits(rows: Seq<Seq<char>>, width: int, height: int) -> bool {
    &&& rows.len() <= height
    &&& forall|r: int| 0 <= r < rows.len() ==> (#[trigger] rows[r]).len() <= width
}

impl EditorModel {
    /// The text under which layer `l` is stored: its rows, if any cell of it
    /// is not empty. A layer of empty cells is not stored.
    pub open spec fn layer_text(self, l: int) -> Option<Seq<char>> {
        if has_content(self.layers[l].cells) {
            Some(text_of_rows(self.layers[l].cells))
        } else {
            None
        }
    }

    /// The state after reading `text` into layer `l`. If the lines of the
    /// text fit the canvas, each character of each line is written to the
    /// cell of its line and column, and cells that the text does not reach
    /// keep what they hold. If there are too many lines, or one is too long,
    /// nothing changes.
    pub open spec fn load_layer(self, l: int, text: Seq<char>) -> EditorModel {
        let rows = split_lines(text);
        if fits(rows, self.width, self.height) {
            self.map_layer(
                l,
                |x: int, y: int|
                    if y < rows.len() && x < rows[y].len() {
                        rows[y][x]
                    } else {
                        self.cell(l, x, y)
                    },
            )
        } else {
            self
        }
    }
}

/// What a stored text holds, if there is one.
pub open spec fn text_view(text: Option<String>) -> Option<Seq<char>> {
    match text {
        Some(t) => Some(t@),
        None => None,
    }
}

/// What a list of stored texts holds.
pub open spec fn files_view(files: Vec<Option<String>>) -> Seq<Option<Seq<char>>> {
    Seq::new(files.len() as nat, |l: int| text_view(files[l]))
}

impl EditorModel {
    /// The state after reading the first `n` of `files`, each that is there
    /// into the layer of its index, from the bottom of the stack upward.
    pub open spec fn load_layers_upto(self, files: Seq<Option<Seq<char>>>, n: int) -> EditorModel
        decreases n,
    {
        if n <= 0 {
            self
        } else {
            let below = self.load_layers_upto(files, n - 1);
            match files[n - 1] {
                Some(text) => below.load_layer(n - 1, text),
                None => below,
            }
        }
    }

    /// The state after reading the stored texts of all layers.
    pub open spec fn load_layers(self, files: Seq<Option<Seq<char>>>) -> EditorModel {
        self.load_layers_upto(files, LAYER_COUNT as int)
    }

    /// The text stored for layer `l` is there and does not fit the canvas.
    pub open spec fn refuses(self, files: Seq<Option<Seq<char>>>, l: int) -> bool {
        files[l] matches Some(text) && !fits(split_lines(text), self.width, self.height)
    }
}

/// `s` holds no line feed.
pub open spec fn no_line_feed(s: Seq<char>) -> bool {
    forall|i: int| 0 <= i < s.len() ==> s[i] != LINE_FEED
}

/// In a text that begins with a stretch free of line feeds, followed by the
/// end or by a line feed, the first line feed is at the end of that stretch.
pub proof fn lemma_first_line_feed(head: Seq<char>, tail: Seq<char>)
    requires
        no_line_feed(head),
        tail.len() == 0 || tail[0] == LINE_FEED,
    ensures
        first_line_feed(head + tail) == head.len(),
    decreases head.len(),
{
    let s = head + tail;
    if head.len() == 0 {
        assert(s =~= tail);
    } else {
        assert(s[0] == head[0]);
        assert(s.drop_first() =~= head.drop_first() + tail);
        lemma_first_line_feed(head.drop_first(), tail);
    }
}

/// The text of rows with one more row at the bottom.
pub proof fn lemma_text_of_rows_push(rows: Seq<Seq<char>>, row: Seq<char>)
    ensures
        text_of_rows(rows.push(row)) == text_of_rows(rows) + row.push(LINE_FEED),
    decreases rows.len(),
{
    if rows.len() == 0 {
        assert(rows.push(row).first() == row);
        assert(rows.push(row).drop_first() =~= Seq::<Seq<char>>::empty());
        assert(text_of_rows(rows.push(row).drop_first()) =~= Seq::<char>::empty());
        assert(text_of_rows(rows.push(row)) =~= text_of_rows(rows) + row.push(LINE_FEED));
    } else {
        assert(rows.push(row).drop_first() =~= rows.drop_first().push(row));
        lemma_text_of_rows_push(rows.drop_first(), row);
        assert(text_of_rows(rows.push(row)) =~= text_of_rows(rows) + row.push(LINE_FEED));
    }
}

/// Rows that hold no line feed and do not end in a carriage return are the
/// lines of their own text.
pub proof fn lemma_split_text_of_rows(rows: Seq<Seq<char>>)
    requires
        forall|r: int| 0 <= r < rows.len() ==> no_line_feed(#[trigger] rows[r]),
        forall|r: int|
            0 <= r < rows.len() && (#[trigger] rows[r]).len() > 0 ==> rows[r].last()
                != CARRIAGE_RETURN,
    ensures
        split_lines(text_of_rows(rows)) == rows,
    decreases rows.len(),
{
    if rows.len() == 0 {
        assert(split_lines(text_of_rows(rows)) =~= rows);
    } else {
        let first = rows.first();
        let rest = rows.drop_first();
        let text = text_of_rows(rows);
        let tail = seq![LINE_FEED] + text_of_rows(rest);
        assert(text =~= first + tail);
        assert(no_line_feed(first));
        lemma_first_line_feed(first, tail);
        assert(text.subrange(0, first.len() as int) =~= first);
        assert(text.subrange(first.len() as int + 1, text.len() as int) =~= text_of_rows(rest));
        assert forall|r: int| 0 <= r < rest.len() implies no_line_feed(#[trigger] rest[r]) by {
            assert(rest[r] == rows[r + 1]);
        }
        assert forall|r: int| 0 <= r < rest.len() && (#[trigger] rest[r]).len() > 0 implies rest[r].last()
            != CARRIAGE_RETURN by {
            assert(rest[r] == rows[r + 1]);
        }
        lemma_split_text_of_rows(rest);
        assert(split_lines(text) =~= seq![first] + rest);
        assert(seq![first] + rest =~= rows);
    }
}

/// A layer that holds no line feed, and no carriage return in its last
/// column, comes back cell for cell when its stored text is read into a
/// layer of a canvas of the same size, whatever that layer held.
pub proof fn lemma_save_then_load(saved: EditorModel, target: EditorModel, l: int)
    requires
        saved.wf(),
        target.wf(),
        target.width == saved.width,
        target.height == saved.height,
        0 <= l < LAYER_COUNT,
        has_content(saved.layers[l].cells),
        forall|x: int, y: int| saved.in_bounds(x, y) ==> #[trigger] saved.cell(l, x, y) != LINE_FEED,
        forall|y: int|
            0 <= y < saved.height ==> #[trigger] saved.cell(l, saved.width - 1, y)
                != CARRIAGE_RETURN,
    ensures
        saved.layer_text(l) is Some,
        split_lines(saved.layer_text(l).unwrap()) == saved.layers[l].cells,
        target.load_layer(l, saved.layer_text(l).unwrap()).layers[l].cells == saved.layers[l].cells,
{
    let rows = saved.layers[l].cells;
    assert(is_matrix(rows, saved.width, saved.height));
    assert forall|r: int| 0 <= r < rows.len() implies no_line_feed(#[trigger] rows[r]) by {
        assert forall|i: int| 0 <= i < rows[r].len() implies rows[r][i] != LINE_FEED by {
            assert(saved.cell(l, i, r) != LINE_FEED);
        }
    }
    assert forall|r: int| 0 <= r < rows.len() && (#[trigger] rows[r]).len() > 0 implies rows[r].last()
        != CARRIAGE_RETURN by {
        assert(saved.cell(l, saved.width - 1, r) != CARRIAGE_RETURN);
    }
    lemma_split_text_of_rows(rows);
    let loaded = target.load_layer(l, text_of_rows(rows));
    assert(fits(rows, target.width, target.height));
    assert forall|y: int| 0 <= y < rows.len() implies #[trigger] loaded.layers[l].cells[y]
        == rows[y] by {
        assert(loaded.layers[l].cells[y] =~= rows[y]);
    }
    assert(loaded.layers[l].cells =~= rows);
}

/// The name of the file that holds layer `layer`.
pub fn file_name(layer: usize) -> (name: String)
    requires
        layer < LAYER_COUNT,
    ensures
        name@ == layer_file_name(layer as int),
{
    let mut name = "./output_layer_".to_owned();
    name.push((48u8 + layer as u8) as char);
    name.append(".txt");
    name
}

/// Splits a text into its lines, each as a row of characters.
pub fn parse_rows(text: &str) -> (rows: Vec<Vec<char>>)
    ensures
        rows_view(rows) == split_lines(text@),
{
    let mut rows: Vec<Vec<char>> = Vec::new();
    let mut line: Vec<char> = Vec::new();
    proof {
        assert(rows_view(rows) + split_lines(line@ + text@.skip(0)) =~= split_lines(text@)) by {
            assert(line@ + text@.skip(0) =~= text@);
        }
    }
    for c in it: text.chars()
        invariant
            it.seq() == text@,
            no_line_feed(line@),
            split_lines(text@) == rows_view(rows) + split_lines(line@ + text@.skip(it.index())),
    {
        let ghost k = it.index();
        let ghost rest = text@.skip(k);
        let ghost after = text@.skip(k + 1);
        assert(rest.len() > 0 && rest[0] == c);
        assert(after =~= rest.drop_first());
        if c == LINE_FEED {
            proof {
                let whole = line@ + rest;
                lemma_first_line_feed(line@, rest);
                assert(whole.subrange(0, line@.len() as int) =~= line@);
                assert(whole.subrange(line@.len() as int + 1, whole.len() as int) =~= after);
                assert(split_lines(whole) == seq![without_carriage_return(line@)] + split_lines(
                    after,
                ));
            }
            let n = line.len();
            if n > 0 && line[n - 1] == CARRIAGE_RETURN {
                line.pop();
            }
            let ghost done = rows_view(rows);
            rows.push(line);
            line = Vec::new();
            proof {
                assert(rows_view(rows) =~= done.push(rows[rows.len() - 1]@));
                assert(line@ + after =~= after);
                assert(rows_view(rows) + split_lines(line@ + after) =~= done + (
                seq![rows[rows.len() - 1]@] + split_lines(after)));
            }
        } else {
            let ghost before = line@;
            line.push(c);
            proof {
                assert(line@ + after =~= before + rest);
            }
        }
    }
    proof {
        let k = text@.len() as int;
        assert(text@.skip(k) =~= Seq::<char>::empty());
        assert(line@ + text@.skip(k) =~= line@);
        if line@.len() > 0 {
            lemma_first_line_feed(line@, Seq::<char>::empty());
            assert(line@ + Seq::<char>::empty() =~= line@);
        }
    }
    if line.len() > 0 {
        let ghost done = rows_view(rows);
        rows.push(line);
        proof {
            assert(rows_view(rows) =~= done.push(rows[rows.len() - 1]@));
            assert(rows_view(rows) =~= done + seq![rows[rows.len() - 1]@]);
        }
    } else {
        assert(rows_view(rows) + Seq::<Seq<char>>::empty() =~= rows_view(rows));
    }
    rows
}

/// Whether the rows are no more than `height` and none longer than `width`.
pub fn rows_fit(rows: &Vec<Vec<char>>, width: usize, height: usize) -> (ok: bool)
    ensures
        ok == fits(rows_view(*rows), width as int, height as int),
{
    if rows.len() > height {
        return false;
    }
    let mut r: usize = 0;
    while r < rows.len()
        invariant
            r <= rows.len() <= height,
            forall|i: int| 0 <= i < r ==> (#[trigger] rows_view(*rows)[i]).len() <= width,
        decreases rows.len() - r,
    {
        if rows[r].len() > width {
            assert(rows_view(*rows)[r as int].len() > width);
            return false;
        }
        r = r + 1;
    }
    true
}

impl AppState {
    /// Whether any cell of layer `layer` is not empty.
    pub fn has_content(&self, layer: usize) -> (found: bool)
        requires
            self.wf(),
            layer < LAYER_COUNT,
        ensures
            found == has_content(self@.layers[layer as int].cells),
    {
        let ghost cells = self@.layers[layer as int].cells;
        assert(is_matrix(cells, self.width as int, self.height as int));
        let mut y: usize = 0;
        while y < self.height
            invariant
                self.wf(),
                layer < LAYER_COUNT,
                cells == self@.layers[layer as int].cells,
                is_matrix(cells, self.width as int, self.height as int),
                y <= self.height,
                forall|cx: int, cy: int| 0 <= cy < y && 0 <= cx < self.width ==> cells[cy][cx] == EMPTY,
            decreases self.height - y,
        {
            let mut x: usize = 0;
            while x < self.width
                invariant
                    self.wf(),
                    layer < LAYER_COUNT,
                    cells == self@.layers[layer as int].cells,
                    is_matrix(cells, self.width as int, self.height as int),
                    y < self.height,
                    x <= self.width,
                    forall|cx: int, cy: int|
                        0 <= cy < y && 0 <= cx < self.width ==> cells[cy][cx] == EMPTY,
                    forall|cx: int| 0 <= cx < x ==> cells[y as int][cx] == EMPTY,
                decreases self.width - x,
            {
                if self.get_cell(layer, x, y) != EMPTY {
                    assert(cells[y as int][x as int] != EMPTY);
                    return true;
                }
                x = x + 1;
            }
            y = y + 1;
        }
        assert forall|cx: int, cy: int|
            0 <= cy < cells.len() && 0 <= cx < cells[cy].len() implies cells[cy][cx] == EMPTY by {
            assert(cells[cy].len() == self.width);
        }
        false
    }

    /// The text under which layer `layer` is stored: one line per row, each
    /// of the canvas's width and ended by a line feed. A layer of empty cells
    /// has none.
    pub fn layer_text(&self, layer: usize) -> (text: Option<String>)
        requires
            self.wf(),
            layer < LAYER_COUNT,
        ensures
            text_view(text) == self@.layer_text(layer as int),
    {
        if !self.has_content(layer) {
            return None;
        }
        let ghost cells = self@.layers[layer as int].cells;
        assert(is_matrix(cells, self.width as int, self.height as int));
        let mut text = String::new();
        let mut y: usize = 0;
        assert(cells.take(0) =~= Seq::<Seq<char>>::empty());
        while y < self.height
            invariant
                self.wf(),
                layer < LAYER_COUNT,
                cells == self@.layers[layer as int].cells,
                is_matrix(cells, self.width as int, self.height as int),
                y <= self.height,
                text@ == text_of_rows(cells.take(y as int)),
            decreases self.height - y,
        {
            let ghost done = text@;
            let mut x: usize = 0;
            while x < self.width
                invariant
                    self.wf(),
                    layer < LAYER_COUNT,
                    cells == self@.layers[layer as int].cells,
                    is_matrix(cells, self.width as int, self.height as int),
                    y < self.height,
                    x <= self.width,
                    text@ == done + cells[y as int].take(x as int),
                decreases self.width - x,
            {
                let ch = self.get_cell(layer, x, y);
                text.push(ch);
                x = x + 1;
                assert(text@ =~= done + cells[y as int].take(x as int));
            }
            text.push(LINE_FEED);
            proof {
                assert(cells[y as int].take(x as int) =~= cells[y as int]);
                assert(cells.take(y + 1) =~= cells.take(y as int).push(cells[y as int]));
                lemma_text_of_rows_push(cells.take(y as int), cells[y as int]);
                assert(text@ =~= done + cells[y as int].push(LINE_FEED));
            }
            y = y + 1;
        }
        assert(cells.take(y as int) =~= cells);
        Some(text)
    }

    /// The texts of all layers, in stack order: for each layer that holds
    /// anything its text, for each empty layer nothing.
    pub fn save_layers(&self) -> (files: Vec<Option<String>>)
        requires
            self.wf(),
        ensures
            files.len() == LAYER_COUNT,
            forall|l: int|
                0 <= l < LAYER_COUNT ==> text_view(#[trigger] files[l]) == self@.layer_text(l),
    {
        let mut files: Vec<Option<String>> = Vec::new();
        let mut l: usize = 0;
        while l < LAYER_COUNT
            invariant
                self.wf(),
                l <= LAYER_COUNT,
                files.len() == l,
                forall|k: int| 0 <= k < l ==> text_view(#[trigger] files[k]) == self@.layer_text(k),
            decreases LAYER_COUNT - l,
        {
            files.push(self.layer_text(l));
            l = l + 1;
        }
        files
    }

    /// Reads `text` into layer `layer` and says whether it was taken. A text
    /// with more lines than the canvas has rows, or with a line longer than
    /// the canvas is wide, is refused as a whole and the layer stays as it
    /// is. Otherwise every character of the text lands in the cell of its
    /// line and column, and the cells that the text does not reach keep what
    /// they hold.
    pub fn load_layer(&mut self, layer: usize, text: &str) -> (taken: bool)
        requires
            old(self).wf(),
            layer < LAYER_COUNT,
        ensures
            final(self).wf(),
            taken == fits(split_lines(text@), old(self).width as int, old(self).height as int),
            final(self)@ == old(self)@.load_layer(layer as int, text@),
            !taken ==> *final(self) == *old(self),
            split_lines(text@).len() > old(self).height ==> !taken && *final(self) == *old(self),
    {
        let rows = parse_rows(text);
        if !rows_fit(&rows, self.width, self.height) {
            return false;
        }
        let ghost pre = self@;
        let ghost lines = rows_view(rows);
        let mut y: usize = 0;
        while y < rows.len()
            invariant
                self.wf(),
                pre.wf(),
                pre == old(self)@,
                layer < LAYER_COUNT,
                lines == rows_view(rows),
                fits(lines, pre.width, pre.height),
                y <= rows.len(),
                pre.same_but_layer(self@, layer as int),
                forall|cx: int, cy: int|
                    pre.in_bounds(cx, cy) ==> #[trigger] self@.cell(layer as int, cx, cy) == (
                    if cy < y && cx < lines[cy].len() {
                        lines[cy][cx]
                    } else {
                        pre.cell(layer as int, cx, cy)
                    }),
            decreases rows.len() - y,
        {
            let mut x: usize = 0;
            assert(lines[y as int].len() <= pre.width);
            while x < rows[y].len()
                invariant
                    self.wf(),
                    pre.wf(),
                    pre == old(self)@,
                    layer < LAYER_COUNT,
                    lines == rows_view(rows),
                    fits(lines, pre.width, pre.height),
                    y < rows.len(),
                    x <= rows[y as int].len() <= pre.width,
                    pre.same_but_layer(self@, layer as int),
                    forall|cx: int, cy: int|
                        pre.in_bounds(cx, cy) ==> #[trigger] self@.cell(layer as int, cx, cy) == (
                        if (cy < y && cx < lines[cy].len()) || (cy == y && cx < x) {
                            lines[cy][cx]
                        } else {
                            pre.cell(layer as int, cx, cy)
                        }),
                decreases rows[y as int].len() - x,
            {
                self.put(Ghost(pre), layer, x, y, rows[y][x]);
                x = x + 1;
            }
            y = y + 1;
        }
        proof {
            let l = layer as int;
            let want = pre.load_layer(l, text@);
            assert(is_matrix(pre.layers[l].cells, pre.width, pre.height));
            assert forall|cx: int, cy: int| pre.in_bounds(cx, cy) implies #[trigger] self@.cell(
                l,
                cx,
                cy,
            ) == want.cell(l, cx, cy) by {}
            lemma_equal_by_cells(pre, self@, want, l);
        }
        true
    }
    /// Reads the stored texts of all layers, `files[l]` into layer `l` where
    /// it is there, and says for each layer whether its text was refused for
    /// its size. A refused text changes nothing; a layer without a text
    /// stays as it is.
    pub fn load_layers(&mut self, files: &Vec<Option<String>>) -> (refused: Vec<bool>)
        requires
            old(self).wf(),
            files.len() == LAYER_COUNT,
        ensures
            final(self).wf(),
            final(self)@ == old(self)@.load_layers(files_view(*files)),
            refused.len() == LAYER_COUNT,
            forall|l: int|
                0 <= l < LAYER_COUNT ==> #[trigger] refused[l] == old(self)@.refuses(
                    files_view(*files),
                    l,
                ),
    {
        let mut refused: Vec<bool> = Vec::new();
        let mut l: usize = 0;
        while l < LAYER_COUNT
            invariant
                self.wf(),
                files.len() == LAYER_COUNT,
                l <= LAYER_COUNT,
                self.width == old(self).width,
                self.height == old(self).height,
                self@ == old(self)@.load_layers_upto(files_view(*files), l as int),
                refused.len() == l,
                forall|k: int|
                    0 <= k < l ==> #[trigger] refused[k] == old(self)@.refuses(
                        files_view(*files),
                        k,
                    ),
            decreases LAYER_COUNT - l,
        {
            assert(files_view(*files)[l as int] == text_view(files[l as int]));
            match &files[l] {
                Some(text) => {
                    let taken = self.load_layer(l, text.as_str());
                    refused.push(!taken);
                },
                None => {
                    refused.push(false);
                },
            }
            l = l + 1;
        }
        refused
    }
}

} // verus!
