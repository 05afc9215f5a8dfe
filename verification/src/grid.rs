//! The grid of a terminal: its cells, their reading order, and moving about in it.

use crate::cell::{Cell, Flags};
use crate::index::{Column, Line, Point};
use vstd::arithmetic::div_mod::{
    lemma_fundamental_div_mod, lemma_fundamental_div_mod_converse, lemma_mod_bound,
};
use vstd::prelude::*;

verus! {

/// The largest number of lines, and of columns, that a grid can have. It leaves room for sums of
/// two line numbers.
pub const MAX_EXTENT: usize = 0x3fff_ffff;

/// The model of a grid: its cells in reading order, from the leftmost cell of the topmost line of
/// the history to the rightmost cell of the bottommost line of the screen.
#[verifier::ext_equal]
pub struct GridView {
    pub columns: int,
    pub screen_lines: int,
    pub total_lines: int,
    pub cells: Seq<Cell>,
}

impl GridView {
    /// What holds of the model of every grid.
    pub open spec fn valid(self) -> bool {
        &&& 1 <= self.columns <= MAX_EXTENT
        &&& 1 <= self.screen_lines <= self.total_lines <= MAX_EXTENT
        &&& self.cells.len() == self.size()
    }

    /// The number of cells.
    pub open spec fn size(self) -> int {
        self.total_lines * self.columns
    }

    /// The topmost line of the history.
    pub open spec fn top(self) -> int {
        self.screen_lines - self.total_lines
    }

    /// The bottommost line of the screen.
    pub open spec fn bottom(self) -> int {
        self.screen_lines - 1
    }

    pub open spec fn last_column(self) -> int {
        self.columns - 1
    }

    /// Whether there is a cell at `p`.
    pub open spec fn on_grid(self, p: Point) -> bool {
        &&& self.top() <= p.line.0 <= self.bottom()
        &&& p.column.0 <= self.last_column()
    }

    /// The index of `p` in reading order.
    pub open spec fn pos(self, p: Point) -> int {
        (p.line.0 - self.top()) * self.columns + p.column.0
    }

    /// The point with the index `i` in reading order.
    pub open spec fn point_at(self, i: int) -> Point {
        Point {
            line: Line((i / self.columns + self.top()) as i32),
            column: Column((i % self.columns) as usize),
        }
    }

    /// The column of the cell with the index `i`.
    pub open spec fn column_of(self, i: int) -> int {
        i % self.columns
    }

    /// The line of the cell with the index `i`.
    pub open spec fn line_of(self, i: int) -> int {
        i / self.columns + self.top()
    }

    /// The cell at `p`.
    pub open spec fn cell(self, p: Point) -> Cell {
        self.cells[self.pos(p)]
    }

    /// Whether the cell with the index `i` has all flags of `mask`.
    pub open spec fn has(self, i: int, mask: u16) -> bool {
        self.cells[i].flags.has(mask)
    }

    /// A point of the grid has an index, and the index leads back to it.
    pub proof fn lemma_pos(self, p: Point)
        requires
            self.valid(),
            self.on_grid(p),
        ensures
            0 <= self.pos(p) < self.size(),
            self.point_at(self.pos(p)) == p,
            self.column_of(self.pos(p)) == p.column.0,
            self.pos(p) / self.columns == p.line.0 - self.top(),
    {
        let q = p.line.0 - self.top();
        let c = p.column.0 as int;
        assert(0 <= q * self.columns + c < self.total_lines * self.columns) by (nonlinear_arith)
            requires
                0 <= q < self.total_lines,
                0 <= c < self.columns,
        ;
        lemma_fundamental_div_mod_converse(self.pos(p), self.columns, q, c);
    }

    /// An index has a point on the grid, and the point leads back to it.
    pub proof fn lemma_point_at(self, i: int)
        requires
            self.valid(),
            0 <= i < self.size(),
        ensures
            self.on_grid(self.point_at(i)),
            self.pos(self.point_at(i)) == i,
            self.point_at(i).column.0 == self.column_of(i),
            self.point_at(i).line.0 == i / self.columns + self.top(),
            0 <= self.column_of(i) < self.columns,
            0 <= i / self.columns < self.total_lines,
    {
        lemma_fundamental_div_mod(i, self.columns);
        lemma_mod_bound(i, self.columns);
        let q = i / self.columns;
        let c = i % self.columns;
        assert(q < self.total_lines) by (nonlinear_arith)
            requires
                i == self.columns * q + c,
                0 <= c,
                0 < self.columns,
                i < self.total_lines * self.columns,
        ;
        assert(0 <= q) by (nonlinear_arith)
            requires
                i == self.columns * q + c,
                c < self.columns,
                0 < self.columns,
                0 <= i,
        ;
        assert(q * self.columns == self.columns * q) by (nonlinear_arith);
    }

    /// The last index is that of the last column of the bottommost line; behind another last
    /// column comes the first column of the next line.
    pub proof fn lemma_last(self, p: Point)
        requires
            self.valid(),
            self.on_grid(p),
        ensures
            self.pos(p) < self.size(),
            self.pos(p) + 1 == self.size() <==> p.line.0 == self.bottom() && p.column.0
                == self.last_column(),
            p.column.0 == self.last_column() ==> self.pos(p) + 1 == (p.line.0 + 1 - self.top())
                * self.columns,
    {
        self.lemma_pos(p);
        let x = p.line.0 - self.top();
        assert((x + 1) * self.columns == x * self.columns + self.columns) by (nonlinear_arith);
        if x + 1 < self.total_lines {
            assert((x + 1) * self.columns < self.total_lines * self.columns) by (nonlinear_arith)
                requires
                    x + 1 < self.total_lines,
                    0 < self.columns,
            ;
        }
    }

    /// The first index is that of the first column of the topmost line; before another first
    /// column stands the last column of the previous line.
    pub proof fn lemma_first(self, p: Point)
        requires
            self.valid(),
            self.on_grid(p),
        ensures
            0 <= self.pos(p),
            self.pos(p) == 0 <==> p.line.0 == self.top() && p.column.0 == 0,
            p.column.0 == 0 ==> self.pos(p) - 1 == (p.line.0 - 1 - self.top()) * self.columns
                + self.last_column(),
    {
        self.lemma_pos(p);
        let x = p.line.0 - self.top();
        assert((x - 1) * self.columns == x * self.columns - self.columns) by (nonlinear_arith);
        if x > 0 {
            assert(x * self.columns > 0) by (nonlinear_arith)
                requires
                    x > 0,
                    0 < self.columns,
            ;
        } else {
            assert(0 * self.columns == 0) by (nonlinear_arith);
        }
    }

    /// Two points of the grid with one index are the same point.
    pub proof fn lemma_pos_injective(self, p: Point, q: Point)
        requires
            self.valid(),
            self.on_grid(p),
            self.on_grid(q),
            self.pos(p) == self.pos(q),
        ensures
            p == q,
    {
        self.lemma_pos(p);
        self.lemma_pos(q);
    }
}

/// The cells of a terminal, with the lines that have scrolled off the screen.
#[derive(Debug)]
pub struct Grid {
    /// The lines from the topmost to the bottommost.
    rows: Vec<Vec<Cell>>,
    columns: usize,
    screen_lines: usize,
}

impl View for Grid {
    type V = GridView;

    closed spec fn view(&self) -> GridView {
        GridView {
            columns: self.columns as int,
            screen_lines: self.screen_lines as int,
            total_lines: self.rows@.len() as int,
            cells: Seq::new(
                (self.rows@.len() * self.columns) as nat,
                |i: int| self.rows@[i / self.columns as int]@[i % self.columns as int],
            ),
        }
    }
}

impl Grid {
    /// All lines have the same number of columns.
    pub closed spec fn rectangular(&self) -> bool {
        forall|k: int| 0 <= k < self.rows@.len() ==> (#[trigger] self.rows@[k])@.len() == self.columns
    }

    /// What holds of every grid.
    pub open spec fn wf(&self) -> bool {
        &&& self@.valid()
        &&& self.rectangular()
    }

    /// A grid of blank cells.
    pub fn new(screen_lines: usize, columns: usize, history_size: usize) -> (grid: Grid)
        requires
            1 <= columns <= MAX_EXTENT,
            1 <= screen_lines,
            screen_lines + history_size <= MAX_EXTENT,
        ensures
            grid.wf(),
            grid@.columns == columns,
            grid@.screen_lines == screen_lines,
            grid@.total_lines == screen_lines + history_size,
            forall|i: int|
                0 <= i < grid@.size() ==> #[trigger] grid@.cells[i] == (Cell {
                    c: ' ',
                    flags: Flags(0),
                }),
    {
        let blank = Cell { c: ' ', flags: Flags(0) };
        let total_lines: usize = screen_lines + history_size;
        let mut rows: Vec<Vec<Cell>> = Vec::new();
        while rows.len() < total_lines
            invariant
                rows@.len() <= total_lines,
                forall|k: int| 0 <= k < rows@.len() ==> (#[trigger] rows@[k])@.len() == columns,
                forall|k: int, j: int|
                    0 <= k < rows@.len() && 0 <= j < columns ==> #[trigger] rows@[k]@[j] == blank,
            decreases total_lines - rows.len(),
        {
            let mut row: Vec<Cell> = Vec::new();
            while row.len() < columns
                invariant
                    row@.len() <= columns,
                    forall|j: int| 0 <= j < row@.len() ==> #[trigger] row@[j] == blank,
                decreases columns - row.len(),
            {
                row.push(blank);
            }
            rows.push(row);
        }
        let grid = Grid { rows, columns, screen_lines };
        proof {
            assert(grid@.size() >= 0) by (nonlinear_arith)
                requires
                    grid@.size() == grid@.total_lines * grid@.columns,
                    grid@.total_lines >= 0,
                    grid@.columns >= 0,
            ;
            assert forall|i: int| 0 <= i < grid@.size() implies #[trigger] grid@.cells[i]
                == blank by {
                grid@.lemma_point_at(i);
            }
        }
        grid
    }

    pub fn columns(&self) -> (r: usize)
        requires
            self.wf(),
        ensures
            r == self@.columns,
    {
        self.columns
    }

    pub fn screen_lines(&self) -> (r: usize)
        requires
            self.wf(),
        ensures
            r == self@.screen_lines,
    {
        self.screen_lines
    }

    pub fn total_lines(&self) -> (r: usize)
        requires
            self.wf(),
        ensures
            r == self@.total_lines,
    {
        self.rows.len()
    }

    pub fn last_column(&self) -> (r: Column)
        requires
            self.wf(),
        ensures
            r.0 == self@.last_column(),
    {
        Column(self.columns - 1)
    }

    pub fn topmost_line(&self) -> (r: Line)
        requires
            self.wf(),
        ensures
            r.0 == self@.top(),
    {
        Line(self.screen_lines as i32 - self.rows.len() as i32)
    }

    pub fn bottommost_line(&self) -> (r: Line)
        requires
            self.wf(),
        ensures
            r.0 == self@.bottom(),
    {
        Line(self.screen_lines as i32 - 1)
    }

    /// The cell at `point`.
    pub fn cell(&self, point: Point) -> (cell: &Cell)
        requires
            self.wf(),
            self@.on_grid(point),
        ensures
            *cell == self@.cell(point),
    {
        let row: usize = (point.line.0 - self.topmost_line().0) as usize;
        proof {
            self@.lemma_pos(point);
        }
        &self.rows[row][point.column.0]
    }

    /// Replaces the cell at `point`.
    pub fn set_cell(&mut self, point: Point, cell: Cell)
        requires
            old(self).wf(),
            old(self)@.on_grid(point),
        ensures
            final(self).wf(),
            final(self)@ == (GridView {
                cells: old(self)@.cells.update(old(self)@.pos(point), cell),
                ..old(self)@
            }),
    {
        let row: usize = (point.line.0 - self.topmost_line().0) as usize;
        self.rows[row][point.column.0] = cell;
        proof {
            old(self)@.lemma_pos(point);
            assert forall|i: int| 0 <= i < self@.cells.len() implies #[trigger] self@.cells[i]
                == old(self)@.cells.update(old(self)@.pos(point), cell)[i] by {
                old(self)@.lemma_point_at(i);
                if i / self@.columns == row && i % self@.columns == point.column.0 {
                    old(self)@.lemma_pos_injective(old(self)@.point_at(i), point);
                }
            }
            assert(self@.cells =~= old(self)@.cells.update(old(self)@.pos(point), cell));
        }
    }
}

/// A cell with its place.
pub struct Indexed<'a> {
    pub point: Point,
    pub cell: &'a Cell,
}

/// A place in the grid that can be moved cell by cell, in reading order and against it.
pub struct GridIterator<'a> {
    pub grid: &'a Grid,
    pub point: Point,
}

impl<'a> GridIterator<'a> {
    /// What holds of every iterator.
    pub open spec fn wf(&self) -> bool {
        &&& self.grid.wf()
        &&& self.grid@.on_grid(self.point)
    }

    /// The index of the current cell in reading order.
    pub open spec fn pos(&self) -> int {
        self.grid@.pos(self.point)
    }

    /// The current place.
    pub fn point(&self) -> (point: Point)
        ensures
            point == self.point,
    {
        self.point
    }

    /// The current cell.
    pub fn cell(&self) -> (cell: &'a Cell)
        requires
            self.wf(),
        ensures
            *cell == self.grid@.cells[self.pos()],
    {
        self.grid.cell(self.point)
    }

    /// Moves on by one cell, unless the current one is the last of the grid.
    pub fn next(&mut self) -> (r: Option<Indexed<'a>>)
        requires
            old(self).wf(),
        ensures
            final(self).wf(),
            final(self).grid == old(self).grid,
            old(self).pos() + 1 == old(self).grid@.size() ==> r is None && *final(self) == *old(self),
            old(self).pos() + 1 < old(self).grid@.size() ==> {
                &&& final(self).pos() == old(self).pos() + 1
                &&& r matches Some(indexed)
                &&& indexed.point == final(self).point
                &&& *indexed.cell == old(self).grid@.cells[final(self).pos()]
            },
    {
        let last_column = self.grid.last_column();
        let bottommost_line = self.grid.bottommost_line();
        proof {
            self.grid@.lemma_last(self.point);
        }
        if self.point.column == last_column {
            if self.point.line == bottommost_line {
                return None;
            }
            self.point = Point::new(Line(self.point.line.0 + 1), Column(0));
        } else {
            self.point = Point::new(self.point.line, Column(self.point.column.0 + 1));
        }
        Some(Indexed { point: self.point, cell: self.grid.cell(self.point) })
    }

    /// Moves back by one cell, unless the current one is the first of the grid.
    pub fn prev(&mut self) -> (r: Option<Indexed<'a>>)
        requires
            old(self).wf(),
        ensures
            final(self).wf(),
            final(self).grid == old(self).grid,
            old(self).pos() == 0 ==> r is None && *final(self) == *old(self),
            old(self).pos() > 0 ==> {
                &&& final(self).pos() == old(self).pos() - 1
                &&& r matches Some(indexed)
                &&& indexed.point == final(self).point
                &&& *indexed.cell == old(self).grid@.cells[final(self).pos()]
            },
    {
        let last_column = self.grid.last_column();
        let topmost_line = self.grid.topmost_line();
        proof {
            self.grid@.lemma_first(self.point);
        }
        if self.point.column == Column(0) {
            if self.point.line == topmost_line {
                return None;
            }
            self.point = Point::new(Line(self.point.line.0 - 1), last_column);
        } else {
            self.point = Point::new(self.point.line, Column(self.point.column.0 - 1));
        }
        Some(Indexed { point: self.point, cell: self.grid.cell(self.point) })
    }
}

impl Grid {
    /// An iterator that stands at `point`.
    pub fn iter_from(&self, point: Point) -> (iter: GridIterator<'_>)
        requires
            self.wf(),
            self@.on_grid(point),
        ensures
            iter.wf(),
            iter.grid == self,
            iter.point == point,
    {
        GridIterator { grid: self, point }
    }
}

} // verus!
