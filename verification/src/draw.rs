//! The drawing engine: box outlines and straight lines on the active layer.

use vstd::prelude::*;
use crate::model::{EditorModel, LAYER_COUNT, is_matrix, lemma_equal_by_cells, max, min};
use crate::state::AppState;

verus! {

pub const BOX_TOP_LEFT: char = '╔';

pub const BOX_TOP_RIGHT: char = '╗';

pub const BOX_BOTTOM_LEFT: char = '╚';

pub const BOX_BOTTOM_RIGHT: char = '╝';

pub const BOX_HORIZONTAL: char = '═';

pub const BOX_VERTICAL: char = '║';

/// What cell `(x, y)` holds once the outline of the box with the corners
/// `(left, top)` and `(right, bottom)` lies over a cell that held `prev`:
/// a corner glyph in the corners, the horizontal glyph between them on the
/// top and bottom rows, the vertical glyph between them on the left and right
/// columns, and `prev` everywhere else.
pub open spec fn box_cell(
    prev: char,
    x: int,
    y: int,
    left: int,
    top: int,
    right: int,
    bottom: int,
) -> char {
    if x == left && y == top {
        BOX_TOP_LEFT
    } else if x == right && y == top {
        BOX_TOP_RIGHT
    } else if x == left && y == bottom {
        BOX_BOTTOM_LEFT
    } else if x == right && y == bottom {
        BOX_BOTTOM_RIGHT
    } else if (y == top || y == bottom) && left < x < right {
        BOX_HORIZONTAL
    } else if (x == left || x == right) && top < y < bottom {
        BOX_VERTICAL
    } else {
        prev
    }
}

impl EditorModel {
    /// The state after drawing the box spanned by `(x1, y1)` and `(x2, y2)`
    /// on the active layer. A box without width or height draws nothing.
    pub open spec fn draw_box(self, x1: int, y1: int, x2: int, y2: int) -> EditorModel {
        if x1 == x2 || y1 == y2 {
            self
        } else {
            self.map_layer(
                self.active_layer,
                |x: int, y: int|
                    box_cell(
                        self.cell(self.active_layer, x, y),
                        x,
                        y,
                        min(x1, x2),
                        min(y1, y2),
                        max(x1, x2),
                        max(y1, y2),
                    ),
            )
        }
    }
}

/// The distance between two coordinates.
pub open spec fn span(a: int, b: int) -> int {
    if a <= b {
        b - a
    } else {
        a - b
    }
}

/// A line request: the cell it starts in and the cell it ends in.
pub struct Line {
    pub x1: int,
    pub y1: int,
    pub x2: int,
    pub y2: int,
}

/// A position of the walk along a line: the cell reached and the error term.
pub struct LineWalk {
    pub x: int,
    pub y: int,
    pub err: int,
}

impl Line {
    pub open spec fn dx(self) -> int {
        span(self.x1, self.x2)
    }

    pub open spec fn dy(self) -> int {
        span(self.y1, self.y2)
    }

    /// The direction of a step along x: 1 if the line runs to the right, else -1.
    pub open spec fn sx(self) -> int {
        if self.x1 < self.x2 {
            1
        } else {
            -1
        }
    }

    /// The direction of a step along y: 1 if the line runs downward, else -1.
    pub open spec fn sy(self) -> int {
        if self.y1 < self.y2 {
            1
        } else {
            -1
        }
    }

    /// Where the walk begins: in the first cell, with the error `dx - dy`.
    pub open spec fn start(self) -> LineWalk {
        LineWalk { x: self.x1, y: self.y1, err: self.dx() - self.dy() }
    }

    /// `p` is the cell in which the line ends.
    pub open spec fn at_end(self, p: LineWalk) -> bool {
        p.x == self.x2 && p.y == self.y2
    }

    /// One step of the walk. With `e2` twice the error: if `e2 > -dy`, the
    /// error drops by `dy` and x advances; if `e2 < dx`, the error grows by
    /// `dx` and y advances. Both may happen in one step.
    pub open spec fn step(self, p: LineWalk) -> LineWalk {
        let e2 = 2 * p.err;
        let along_x = e2 > -self.dy();
        let along_y = e2 < self.dx();
        LineWalk {
            x: if along_x {
                p.x + self.sx()
            } else {
                p.x
            },
            y: if along_y {
                p.y + self.sy()
            } else {
                p.y
            },
            err: p.err - (if along_x {
                self.dy()
            } else {
                0
            }) + (if along_y {
                self.dx()
            } else {
                0
            }),
        }
    }

    /// The cells of the walk from `p` on, in the order visited, the last cell
    /// of the line included. The walk stops in the last cell, and after
    /// `fuel` steps at the latest.
    pub open spec fn cells_from(self, p: LineWalk, fuel: nat) -> Seq<(int, int)>
        decreases fuel,
    {
        if fuel == 0 || self.at_end(p) {
            seq![(p.x, p.y)]
        } else {
            seq![(p.x, p.y)] + self.cells_from(self.step(p), (fuel - 1) as nat)
        }
    }

    /// The cells of the line, in the order visited. Each step brings the walk
    /// a cell closer to the end along at least one axis, so `dx + dy` steps
    /// always suffice to reach it.
    pub open spec fn cells(self) -> Seq<(int, int)> {
        self.cells_from(self.start(), (self.dx() + self.dy()) as nat)
    }

    /// The steps that the walk has yet to make along both axes together.
    pub open spec fn remaining(self, p: LineWalk) -> int {
        span(p.x, self.x2) + span(p.y, self.y2)
    }

    /// `(x, y)` lies in the rectangle that the two ends span.
    pub open spec fn in_box(self, x: int, y: int) -> bool {
        &&& min(self.x1, self.x2) <= x <= max(self.x1, self.x2)
        &&& min(self.y1, self.y2) <= y <= max(self.y1, self.y2)
    }

    /// How far cell `(x, y)` lies off the straight line through the centres
    /// of the two ends: with `i` and `j` the cell's distances from the first
    /// end along x and y, `j * dx - i * dy`. It is 0 where the straight line
    /// meets the centre of the cell; divided by `dx` it is the distance
    /// along y between the cell and the straight line, divided by `dy` the
    /// distance along x.
    pub open spec fn offset(self, x: int, y: int) -> int {
        span(self.y1, y) * self.dx() - span(self.x1, x) * self.dy()
    }

    /// Cell `(x, y)` lies in the rectangle that the two ends span, no more
    /// than half a cell off the straight line between them, measured along
    /// the axis on which the line is shorter.
    pub open spec fn hugs(self, x: int, y: int) -> bool {
        &&& self.in_box(x, y)
        &&& -max(self.dx(), self.dy()) <= 2 * self.offset(x, y) <= max(self.dx(), self.dy())
    }

    /// `p` is a cell that hugs the line, with the error term that belongs to
    /// the cell.
    pub open spec fn on_track(self, p: LineWalk) -> bool {
        &&& self.hugs(p.x, p.y)
        &&& p.err == self.dx() - self.dy() + self.offset(p.x, p.y)
    }

    /// How far cell `(x, y)` lies from the first end along the axis on which
    /// the line is longer; along x where it is as long on both.
    pub open spec fn advance(self, x: int, y: int) -> int {
        if self.dx() >= self.dy() {
            span(self.x1, x)
        } else {
            span(self.y1, y)
        }
    }
}

/// Two different cells that touch, along an edge or at a corner.
pub open spec fn adjacent(a: (int, int), b: (int, int)) -> bool {
    &&& a != b
    &&& -1 <= b.0 - a.0 <= 1
    &&& -1 <= b.1 - a.1 <= 1
}

/// The coordinate of a cell along x, or along y.
pub open spec fn coordinate(c: (int, int), along_x: bool) -> int {
    if along_x {
        c.0
    } else {
        c.1
    }
}

/// Some cell of `cells` has the coordinate `v` along the given axis.
pub open spec fn reaches(cells: Seq<(int, int)>, along_x: bool, v: int) -> bool {
    exists|k: int| 0 <= k < cells.len() && coordinate(#[trigger] cells[k], along_x) == v
}

/// Cell `k` of `cells` is a neighbour of the one before it.
pub open spec fn follows(cells: Seq<(int, int)>, k: int) -> bool {
    adjacent(cells[k - 1], cells[k])
}

/// Each cell of `cells` but the first is a neighbour of the one before it.
pub open spec fn is_chain(cells: Seq<(int, int)>) -> bool {
    forall|k: int| 0 < k < cells.len() ==> #[trigger] follows(cells, k)
}

/// The arithmetic of one step: with `i` of `dx` steps made along x and `j` of
/// `dy` along y, the error term lets x advance only while `i < dx`, y only
/// while `j < dy`, and one of them always.
proof fn lemma_step_arithmetic(dx: int, dy: int, i: int, j: int, err: int)
    requires
        0 <= i <= dx,
        0 <= j <= dy,
        i < dx || j < dy,
        err == dx - dy + (j * dx - i * dy),
    ensures
        2 * err > -dy ==> i < dx,
        2 * err < dx ==> j < dy,
        2 * err > -dy || 2 * err < dx,
        (i + 1) * dy == i * dy + dy,
        (j + 1) * dx == j * dx + dx,
{
    assert((i + 1) * dy == i * dy + dy) by (nonlinear_arith);
    assert((j + 1) * dx == j * dx + dx) by (nonlinear_arith);
    if i == dx {
        assert(dx * (1 + j - dy) <= 0) by (nonlinear_arith)
            requires
                dx >= 0,
                1 + j - dy <= 0,
        ;
        assert(dx * (1 + j - dy) == dx + j * dx - dx * dy) by (nonlinear_arith);
    }
    if j == dy {
        assert(dy * (dx - i - 1) >= 0) by (nonlinear_arith)
            requires
                dy >= 0,
                dx - i - 1 >= 0,
        ;
        assert(dy * (dx - i - 1) == dy * dx - i * dy - dy) by (nonlinear_arith);
    }
}

/// The arithmetic of the longer axis: a cell that hugs the line and is not
/// its end has an error term that lets the walk advance along the axis on
/// which the line is longer.
proof fn lemma_major_arithmetic(dx: int, dy: int, i: int, j: int, err: int)
    requires
        0 <= i <= dx,
        0 <= j <= dy,
        i < dx || j < dy,
        err == dx - dy + (j * dx - i * dy),
        -max(dx, dy) <= 2 * (j * dx - i * dy) <= max(dx, dy),
    ensures
        dx >= dy ==> 2 * err > -dy,
        dy > dx ==> 2 * err < dx,
{
    if dx == dy {
        if j - i <= -1 {
            assert(dx * (j - i) <= -dx) by (nonlinear_arith)
                requires
                    dx > 0,
                    j - i <= -1,
            ;
        }
        assert(dx * (j - i) == j * dx - i * dy) by (nonlinear_arith)
            requires
                dx == dy,
        ;
    }
}

/// The walk begins on track.
pub proof fn lemma_line_start(line: Line)
    ensures
        line.on_track(line.start()),
        line.remaining(line.start()) == line.dx() + line.dy(),
{
    assert(0 * line.dy() == 0 && 0 * line.dx() == 0) by (nonlinear_arith);
}

/// A step taken before the end leads to a neighbouring cell, one further
/// along the axis on which the line is longer, keeps the walk on track and
/// brings it closer to the end.
pub proof fn lemma_line_step(line: Line, p: LineWalk)
    requires
        line.on_track(p),
        !line.at_end(p),
    ensures
        line.on_track(line.step(p)),
        adjacent((p.x, p.y), (line.step(p).x, line.step(p).y)),
        0 <= line.remaining(line.step(p)) < line.remaining(p),
        line.advance(line.step(p).x, line.step(p).y) == line.advance(p.x, p.y) + 1,
{
    lemma_step_arithmetic(
        line.dx(),
        line.dy(),
        span(line.x1, p.x),
        span(line.y1, p.y),
        p.err,
    );
    lemma_major_arithmetic(
        line.dx(),
        line.dy(),
        span(line.x1, p.x),
        span(line.y1, p.y),
        p.err,
    );
}

/// A walk that is on track and has fuel for the steps that remain stops in
/// the last cell of the line; each of its cells hugs the line, and each but
/// the first is a neighbour of the one before it, one further along the
/// axis on which the line is longer.
pub proof fn lemma_line_walk(line: Line, p: LineWalk, fuel: nat)
    requires
        line.on_track(p),
        fuel >= line.remaining(p),
    ensures
        line.cells_from(p, fuel).len() >= 1,
        line.cells_from(p, fuel).first() == (p.x, p.y),
        line.cells_from(p, fuel).last() == (line.x2, line.y2),
        forall|k: int|
            0 <= k < line.cells_from(p, fuel).len() ==> line.hugs(
                (#[trigger] line.cells_from(p, fuel)[k]).0,
                line.cells_from(p, fuel)[k].1,
            ),
        is_chain(line.cells_from(p, fuel)),
        forall|k: int|
            0 <= k < line.cells_from(p, fuel).len() ==> line.advance(
                (#[trigger] line.cells_from(p, fuel)[k]).0,
                line.cells_from(p, fuel)[k].1,
            ) == line.advance(p.x, p.y) + k,
        line.cells_from(p, fuel).len() == max(line.dx(), line.dy()) - line.advance(p.x, p.y) + 1,
    decreases fuel,
{
    if fuel == 0 || line.at_end(p) {
    } else {
        let cells = line.cells_from(p, fuel);
        let tail = line.cells_from(line.step(p), (fuel - 1) as nat);
        lemma_line_step(line, p);
        lemma_line_walk(line, line.step(p), (fuel - 1) as nat);
        assert forall|k: int| 0 <= k < cells.len() implies line.advance(
            (#[trigger] cells[k]).0,
            cells[k].1,
        ) == line.advance(p.x, p.y) + k by {
            if k > 0 {
                assert(cells[k] == tail[k - 1]);
            }
        }
        assert forall|k: int| 0 <= k < cells.len() implies line.hugs(
            (#[trigger] cells[k]).0,
            cells[k].1,
        ) by {
            if k > 0 {
                assert(cells[k] == tail[k - 1]);
            }
        }
        assert forall|k: int| 0 < k < cells.len() implies #[trigger] follows(cells, k) by {
            assert(cells[k] == tail[k - 1]);
            if k > 1 {
                assert(cells[k - 1] == tail[k - 2]);
                assert(follows(tail, k - 1));
            }
        }
    }
}

/// What the cells of a line are: a chain of neighbouring cells that begins
/// in `(x1, y1)` and stops in `(x2, y2)`, also where the two are one cell,
/// and of which none leaves the rectangle that the two ends span or strays
/// further than half a cell from the straight line between them.
pub proof fn lemma_line_shape(line: Line)
    ensures
        line.cells().len() >= 1,
        line.cells().first() == (line.x1, line.y1),
        line.cells().last() == (line.x2, line.y2),
        line.cells().contains((line.x1, line.y1)),
        line.cells().contains((line.x2, line.y2)),
        forall|k: int|
            0 <= k < line.cells().len() ==> line.hugs(
                (#[trigger] line.cells()[k]).0,
                line.cells()[k].1,
            ),
        is_chain(line.cells()),
{
    lemma_line_start(line);
    lemma_line_walk(line, line.start(), (line.dx() + line.dy()) as nat);
    let cells = line.cells();
    assert(cells[0] == (line.x1, line.y1));
    assert(cells[cells.len() - 1] == (line.x2, line.y2));
}

/// A line has one cell for each column between its ends where it is at
/// least as wide as high, and one for each row between them where it is
/// higher: cell `k` lies `k` steps from the first end along that axis, and
/// there are `max(dx, dy) + 1` cells.
pub proof fn lemma_line_length(line: Line)
    ensures
        line.cells().len() == max(line.dx(), line.dy()) + 1,
        forall|k: int|
            0 <= k < line.cells().len() ==> line.advance(
                (#[trigger] line.cells()[k]).0,
                line.cells()[k].1,
            ) == k,
{
    lemma_line_start(line);
    lemma_line_walk(line, line.start(), (line.dx() + line.dy()) as nat);
}

/// A chain of neighbouring cells skips no column and no row between its
/// first cell and its last.
pub proof fn lemma_chain_skips_nothing(cells: Seq<(int, int)>, along_x: bool, v: int)
    requires
        cells.len() >= 1,
        is_chain(cells),
        min(coordinate(cells.first(), along_x), coordinate(cells.last(), along_x)) <= v <= max(
            coordinate(cells.first(), along_x),
            coordinate(cells.last(), along_x),
        ),
    ensures
        reaches(cells, along_x, v),
    decreases cells.len(),
{
    if coordinate(cells[0], along_x) == v {
    } else {
        let rest = cells.drop_first();
        assert(follows(cells, 1));
        assert(rest.first() == cells[1]);
        assert(rest.last() == cells.last());
        assert forall|k: int| 0 < k < rest.len() implies #[trigger] follows(rest, k) by {
            assert(follows(cells, k + 1));
        }
        lemma_chain_skips_nothing(rest, along_x, v);
        let k = choose|k: int| 0 <= k < rest.len() && coordinate(#[trigger] rest[k], along_x) == v;
        assert(coordinate(cells[k + 1], along_x) == v);
    }
}

/// A line has no gaps: it has a cell in every column between its two ends,
/// and a cell in every row between them.
pub proof fn lemma_line_has_no_gaps(line: Line)
    ensures
        forall|x: int|
            min(line.x1, line.x2) <= x <= max(line.x1, line.x2) ==> #[trigger] reaches(
                line.cells(),
                true,
                x,
            ),
        forall|y: int|
            min(line.y1, line.y2) <= y <= max(line.y1, line.y2) ==> #[trigger] reaches(
                line.cells(),
                false,
                y,
            ),
{
    lemma_line_shape(line);
    let cells = line.cells();
    assert forall|x: int| min(line.x1, line.x2) <= x <= max(line.x1, line.x2) implies #[trigger] reaches(
        cells,
        true,
        x,
    ) by {
        lemma_chain_skips_nothing(cells, true, x);
    }
    assert forall|y: int| min(line.y1, line.y2) <= y <= max(line.y1, line.y2) implies #[trigger] reaches(
        cells,
        false,
        y,
    ) by {
        lemma_chain_skips_nothing(cells, false, y);
    }
}

/// A line whose ends lie in one row, or in one column, holds the cells
/// between its ends, both included, and no others.
pub proof fn lemma_straight_line(line: Line)
    requires
        line.x1 == line.x2 || line.y1 == line.y2,
    ensures
        forall|x: int, y: int| #[trigger] line.cells().contains((x, y)) <==> line.in_box(x, y),
{
    lemma_line_shape(line);
    lemma_line_has_no_gaps(line);
    let cells = line.cells();
    assert forall|x: int, y: int| #[trigger] cells.contains((x, y)) <==> line.in_box(x, y) by {
        if cells.contains((x, y)) {
            let k = choose|k: int| 0 <= k < cells.len() && cells[k] == (x, y);
            assert(line.hugs(cells[k].0, cells[k].1));
        }
        if line.in_box(x, y) {
            let along_x = line.y1 == line.y2;
            assert(reaches(cells, along_x, if along_x { x } else { y }));
            let k = choose|k: int|
                0 <= k < cells.len() && coordinate(#[trigger] cells[k], along_x) == (if along_x {
                    x
                } else {
                    y
                });
            assert(line.hugs(cells[k].0, cells[k].1));
            assert(cells[k] == (x, y));
        }
    }
}

impl EditorModel {
    /// The state after drawing the line from `(x1, y1)` to `(x2, y2)` with
    /// the glyph `ch` on the active layer: every cell of the line that lies
    /// on the canvas holds `ch`, and nothing else has changed.
    pub open spec fn draw_line(self, x1: int, y1: int, x2: int, y2: int, ch: char) -> EditorModel {
        let cells = Line { x1, y1, x2, y2 }.cells();
        self.map_layer(
            self.active_layer,
            |x: int, y: int|
                if cells.contains((x, y)) {
                    ch
                } else {
                    self.cell(self.active_layer, x, y)
                },
        )
    }
}

/// What a sequence holds after a push: what it held, and the new item.
proof fn lemma_contains_after_push(s: Seq<(int, int)>, c: (int, int))
    ensures
        forall|d: (int, int)| #[trigger] s.push(c).contains(d) <==> s.contains(d) || d == c,
{
    assert forall|d: (int, int)| #[trigger] s.push(c).contains(d) <==> s.contains(d) || d
        == c by {
        if s.contains(d) {
            let i = choose|i: int| 0 <= i < s.len() && s[i] == d;
            assert(s.push(c)[i] == d);
        }
        if d == c {
            assert(s.push(c)[s.len() as int] == d);
        }
    }
}

impl AppState {
    /// Draws the outline of the box spanned by `(x1, y1)` and `(x2, y2)` on
    /// the active layer. The corners may be given in any order, and have to
    /// lie on the canvas. If the box has no width or no height, nothing at
    /// all is drawn, wherever its corners lie.
    pub fn draw_box(&mut self, x1: usize, y1: usize, x2: usize, y2: usize)
        requires
            old(self).wf(),
            x1 != x2 && y1 != y2 ==> old(self)@.in_bounds(x1 as int, y1 as int)
                && old(self)@.in_bounds(x2 as int, y2 as int),
        ensures
            final(self).wf(),
            final(self)@ == old(self)@.draw_box(x1 as int, y1 as int, x2 as int, y2 as int),
            x1 == x2 || y1 == y2 ==> *final(self) == *old(self),
    {
        if x1 == x2 || y1 == y2 {
            return ;
        }
        let left: usize = if x1 < x2 { x1 } else { x2 };
        let right: usize = if x1 < x2 { x2 } else { x1 };
        let top: usize = if y1 < y2 { y1 } else { y2 };
        let bottom: usize = if y1 < y2 { y2 } else { y1 };
        let a: usize = self.active_layer;

        let mut x: usize = left + 1;
        while x < right
            invariant
                left < x <= right < self.width,
                top < bottom < self.height,
                a == self.active_layer < LAYER_COUNT,
                self.wf(),
                old(self)@.same_but_layer(self@, a as int),
                forall|cx: int, cy: int|
                    self@.in_bounds(cx, cy) ==> #[trigger] self@.cell(a as int, cx, cy) == (if (cy
                        == top || cy == bottom) && left < cx < x {
                        BOX_HORIZONTAL
                    } else {
                        old(self)@.cell(a as int, cx, cy)
                    }),
            decreases right - x,
        {
            self.put(Ghost(old(self)@), a, x, top, BOX_HORIZONTAL);
            self.put(Ghost(old(self)@), a, x, bottom, BOX_HORIZONTAL);
            x = x + 1;
        }

        let mut y: usize = top + 1;
        while y < bottom
            invariant
                left < right < self.width,
                top < y <= bottom < self.height,
                a == self.active_layer < LAYER_COUNT,
                self.wf(),
                old(self)@.same_but_layer(self@, a as int),
                forall|cx: int, cy: int|
                    self@.in_bounds(cx, cy) ==> #[trigger] self@.cell(a as int, cx, cy) == (if (cy
                        == top || cy == bottom) && left < cx < right {
                        BOX_HORIZONTAL
                    } else if (cx == left || cx == right) && top < cy < y {
                        BOX_VERTICAL
                    } else {
                        old(self)@.cell(a as int, cx, cy)
                    }),
            decreases bottom - y,
        {
            self.put(Ghost(old(self)@), a, left, y, BOX_VERTICAL);
            self.put(Ghost(old(self)@), a, right, y, BOX_VERTICAL);
            y = y + 1;
        }

        self.put(Ghost(old(self)@), a, left, top, BOX_TOP_LEFT);
        self.put(Ghost(old(self)@), a, right, top, BOX_TOP_RIGHT);
        self.put(Ghost(old(self)@), a, left, bottom, BOX_BOTTOM_LEFT);
        self.put(Ghost(old(self)@), a, right, bottom, BOX_BOTTOM_RIGHT);
        proof {
            let pre = old(self)@;
            let l = a as int;
            let want = pre.draw_box(x1 as int, y1 as int, x2 as int, y2 as int);
            assert(is_matrix(pre.layers[l].cells, pre.width, pre.height));
            assert forall|cx: int, cy: int| pre.in_bounds(cx, cy) implies #[trigger] self@.cell(
                l,
                cx,
                cy,
            ) == want.cell(l, cx, cy) by {}
            lemma_equal_by_cells(pre, self@, want, l);
        }
    }
    /// Draws the line from `(x1, y1)` to `(x2, y2)` with the glyph `ch` on
    /// the active layer. Cells of the line that lie outside the canvas are
    /// passed over. Both ends belong to the line, so each end that lies on
    /// the canvas holds `ch` afterwards.
    pub fn draw_line(&mut self, x1: usize, y1: usize, x2: usize, y2: usize, ch: char)
        requires
            old(self).wf(),
        ensures
            final(self).wf(),
            final(self)@ == old(self)@.draw_line(
                x1 as int,
                y1 as int,
                x2 as int,
                y2 as int,
                ch,
            ),
            old(self)@.in_bounds(x1 as int, y1 as int) ==> final(self)@.cell(
                old(self).active_layer as int,
                x1 as int,
                y1 as int,
            ) == ch,
            old(self)@.in_bounds(x2 as int, y2 as int) ==> final(self)@.cell(
                old(self).active_layer as int,
                x2 as int,
                y2 as int,
            ) == ch,
    {
        let ghost line = Line { x1: x1 as int, y1: y1 as int, x2: x2 as int, y2: y2 as int };
        let dx: i128 = if x1 <= x2 { (x2 - x1) as i128 } else { (x1 - x2) as i128 };
        let dy: i128 = if y1 <= y2 { (y2 - y1) as i128 } else { (y1 - y2) as i128 };
        let rightward: bool = x1 < x2;
        let downward: bool = y1 < y2;
        let a: usize = self.active_layer;
        let mut err: i128 = dx - dy;
        let mut x: usize = x1;
        let mut y: usize = y1;
        let ghost mut p: LineWalk = line.start();
        let ghost mut fuel: nat = (dx + dy) as nat;
        let ghost mut visited: Seq<(int, int)> = Seq::empty();
        proof {
            lemma_line_start(line);
            assert(visited + line.cells_from(p, fuel) =~= line.cells());
        }
        while x != x2 || y != y2
            invariant
                self.wf(),
                a == self.active_layer < LAYER_COUNT,
                old(self)@.same_but_layer(self@, a as int),
                line == (Line { x1: x1 as int, y1: y1 as int, x2: x2 as int, y2: y2 as int }),
                dx == line.dx(),
                dy == line.dy(),
                rightward == (x1 < x2),
                downward == (y1 < y2),
                p == (LineWalk { x: x as int, y: y as int, err: err as int }),
                line.on_track(p),
                fuel >= line.remaining(p),
                line.cells() == visited + line.cells_from(p, fuel),
                forall|cx: int, cy: int|
                    self@.in_bounds(cx, cy) ==> #[trigger] self@.cell(a as int, cx, cy) == (
                    if visited.contains((cx, cy)) {
                        ch
                    } else {
                        old(self)@.cell(a as int, cx, cy)
                    }),
            decreases fuel,
        {
            if x < self.width && y < self.height {
                self.put(Ghost(old(self)@), a, x, y, ch);
            }
            proof {
                lemma_line_step(line, p);
                let next = visited.push((x as int, y as int));
                assert(next + line.cells_from(line.step(p), (fuel - 1) as nat) =~= visited
                    + line.cells_from(p, fuel));
                lemma_contains_after_push(visited, (x as int, y as int));
                visited = next;
                p = line.step(p);
                fuel = (fuel - 1) as nat;
            }
            let e2: i128 = 2 * err;
            if e2 > -dy {
                err = err - dy;
                x = if rightward { x + 1 } else { x - 1 };
            }
            if e2 < dx {
                err = err + dx;
                y = if downward { y + 1 } else { y - 1 };
            }
        }
        if x < self.width && y < self.height {
            self.put(Ghost(old(self)@), a, x, y, ch);
        }
        proof {
            let pre = old(self)@;
            let l = a as int;
            let cells = line.cells();
            assert(cells =~= visited.push((x as int, y as int)));
            lemma_contains_after_push(visited, (x as int, y as int));
            let want = pre.draw_line(x1 as int, y1 as int, x2 as int, y2 as int, ch);
            assert(is_matrix(pre.layers[l].cells, pre.width, pre.height));
            assert forall|cx: int, cy: int| pre.in_bounds(cx, cy) implies #[trigger] self@.cell(
                l,
                cx,
                cy,
            ) == want.cell(l, cx, cy) by {
                assert(cells.contains((cx, cy)) <==> visited.contains((cx, cy)) || (cx, cy) == (
                    x as int,
                    y as int,
                ));
            }
            lemma_equal_by_cells(pre, self@, want, l);
            lemma_line_shape(line);
        }
    }
}

} // verus!
