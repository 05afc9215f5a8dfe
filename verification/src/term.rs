//! The terminal: its grid, and the cells that one character takes in it.

use crate::cell::{Cell, Flags};
use crate::grid::{Grid, GridIterator, GridView};
use crate::index::{Boundary, Column, Direction, Line, Point};
use vstd::prelude::*;

verus! {

/// A terminal.
pub struct Term<T> {
    pub grid: Grid,
    /// The characters that end a word, besides the ends of the lines.
    pub semantic_escape_chars: String,
    pub event_proxy: T,
}

impl GridView {
    /// The cell whose character is read on coming to the cell `i`: the second column of a wide
    /// character, and a column that was left free before one, stand for the character itself.
    pub open spec fn glyph(self, i: int, direction: Direction) -> int {
        match direction {
            Direction::Right => if self.takes_next(i) {
                i
            } else if self.has(i, Flags::LEADING_WIDE_CHAR_SPACER) {
                self.bounded(i + 1, Boundary::Grid)
            } else {
                i
            },
            Direction::Left => if self.has(i, Flags::WIDE_CHAR_SPACER) {
                self.bounded(i - 1, Boundary::Grid)
            } else {
                i
            },
        }
    }

    /// The farthest cell of the character that is read on coming to the cell `i`.
    pub open spec fn far_end(self, i: int, direction: Direction) -> int {
        match direction {
            Direction::Right => if self.takes_next(i) {
                i + 1
            } else if self.has(i, Flags::LEADING_WIDE_CHAR_SPACER) {
                self.bounded(i + 2, Boundary::Grid)
            } else {
                i
            },
            Direction::Left => if self.has(i, Flags::WIDE_CHAR_SPACER) {
                let wide = self.bounded(i - 1, Boundary::Grid);
                let before = self.bounded(wide - 1, Boundary::Grid);
                if self.has(before, Flags::LEADING_WIDE_CHAR_SPACER) {
                    before
                } else {
                    wide
                }
            } else {
                i
            },
        }
    }

    /// Whether the cell `i` holds a wide character that has the next column too. A wide character
    /// in the last column has not.
    pub open spec fn takes_next(self, i: int) -> bool {
        self.has(i, Flags::WIDE_CHAR) && self.column_of(i) < self.last_column()
    }

    /// Whether a point on the cell of `p` can be moved to an end of its character.
    pub open spec fn can_expand(self, p: Point, direction: Direction) -> bool {
        &&& self.on_grid(p)
        &&& direction == Direction::Left && self.has(self.pos(p), Flags::WIDE_CHAR_SPACER)
            ==> p.column.0 > 0
    }

    /// The end, in `direction`, of the character at `p`.
    pub open spec fn expanded(self, p: Point, direction: Direction) -> Point {
        let i = self.pos(p);
        match direction {
            Direction::Right => if self.has(i, Flags::LEADING_WIDE_CHAR_SPACER) {
                Point { line: Line((p.line.0 + 1) as i32), column: Column(1) }
            } else if self.takes_next(i) {
                self.point_at(i + 1)
            } else {
                p
            },
            Direction::Left => if self.has(i, Flags::WIDE_CHAR) || self.has(
                i,
                Flags::WIDE_CHAR_SPACER,
            ) {
                let wide = if self.has(i, Flags::WIDE_CHAR_SPACER) {
                    i - 1
                } else {
                    i
                };
                let before = self.bounded(wide - 1, Boundary::Grid);
                if self.has(before, Flags::LEADING_WIDE_CHAR_SPACER) {
                    self.point_at(before)
                } else {
                    self.point_at(wide)
                }
            } else {
                p
            },
        }
    }

    /// The farthest cell of a character is on the grid.
    pub proof fn lemma_far_end(self, i: int, direction: Direction)
        requires
            self.valid(),
            0 <= i < self.size(),
        ensures
            0 <= self.far_end(i, direction) < self.size(),
            0 <= self.glyph(i, direction) < self.size(),
            direction == Direction::Right ==> i <= self.far_end(i, direction) <= i + 2,
            direction == Direction::Left ==> i - 2 <= self.far_end(i, direction) <= i,
    {
        self.lemma_point_at(i);
        self.lemma_last(self.point_at(i));
    }
}

impl GridView {
    /// The end of a character is on the grid, but for the character that should follow a column
    /// left free at the bottom of the grid.
    pub proof fn lemma_expanded(self, p: Point, direction: Direction)
        requires
            self.valid(),
            self.can_expand(p, direction),
        ensures
            ({
                let r = self.expanded(p, direction);
                if direction == Direction::Right && self.has(
                    self.pos(p),
                    Flags::LEADING_WIDE_CHAR_SPACER,
                ) {
                    r.line.0 == p.line.0 + 1 && r.column.0 == 1
                } else {
                    self.on_grid(r)
                }
            }),
    {
        let i = self.pos(p);
        self.lemma_pos(p);
        self.lemma_last(p);
        self.lemma_first(p);
        if direction == Direction::Right {
            if self.takes_next(i) {
                self.lemma_point_at(i + 1);
            }
        } else {
            let wide = if self.has(i, Flags::WIDE_CHAR_SPACER) {
                i - 1
            } else {
                i
            };
            self.lemma_point_at(wide);
            self.lemma_point_at(self.bounded(wide - 1, Boundary::Grid));
        }
    }
}

impl<T> Term<T> {
    pub fn new(grid: Grid, semantic_escape_chars: String, event_proxy: T) -> (term: Term<T>)
        ensures
            term == (Term { grid, semantic_escape_chars, event_proxy }),
    {
        Term { grid, semantic_escape_chars, event_proxy }
    }

    /// Moves a point to the end, in `direction`, of the character at its cell.
    pub fn expand_wide(&self, point: Point, direction: Direction) -> (r: Point)
        requires
            self.grid.wf(),
            self.grid@.can_expand(point, direction),
        ensures
            r == self.grid@.expanded(point, direction),
    {
        let flags = self.grid.cell(point).flags;
        let ghost g = self.grid@;
        let ghost i = g.pos(point);
        proof {
            g.lemma_pos(point);
            g.lemma_last(point);
            g.lemma_first(point);
        }
        match direction {
            Direction::Right => if flags.contains(Flags::LEADING_WIDE_CHAR_SPACER) {
                Point::new(Line(point.line.0 + 1), Column(1))
            } else if flags.contains(Flags::WIDE_CHAR) && point.column.0
                < self.grid.last_column().0 {
                let r = Point::new(point.line, Column(point.column.0 + 1));
                proof {
                    g.lemma_pos(r);
                }
                r
            } else {
                point
            },
            Direction::Left => if flags.contains(Flags::WIDE_CHAR) || flags.contains(
                Flags::WIDE_CHAR_SPACER,
            ) {
                let wide = if flags.contains(Flags::WIDE_CHAR_SPACER) {
                    Point::new(point.line, Column(point.column.0 - 1))
                } else {
                    point
                };
                proof {
                    g.lemma_pos(wide);
                }
                let before = wide.sub(&self.grid, Boundary::Grid, 1);
                if self.grid.cell(before).flags.contains(Flags::LEADING_WIDE_CHAR_SPACER) {
                    before
                } else {
                    wide
                }
            } else {
                point
            },
        }
    }

    /// Advances a grid iterator over a character that takes more than one column.
    pub fn skip_fullwidth<'a>(
        &self,
        iter: &mut GridIterator<'a>,
        cell: &mut &'a Cell,
        direction: Direction,
    )
        requires
            old(iter).wf(),
            *old(iter).grid == self.grid,
            **old(cell) == self.grid@.cells[old(iter).pos()],
        ensures
            final(iter).wf(),
            final(iter).grid == old(iter).grid,
            final(iter).pos() == self.grid@.far_end(old(iter).pos(), direction),
            **final(cell) == self.grid@.cells[self.grid@.glyph(old(iter).pos(), direction)],
    {
        let ghost g = self.grid@;
        proof {
            g.lemma_pos(iter.point);
            g.lemma_last(iter.point);
        }
        match direction {
            Direction::Right => {
                // A wide character in the last column has no second column.
                if cell.flags.contains(Flags::WIDE_CHAR) && iter.point().column.0
                    < self.grid.last_column().0 {
                    iter.next();
                } else if cell.flags.contains(Flags::LEADING_WIDE_CHAR_SPACER) {
                    if let Some(indexed) = iter.next() {
                        *cell = indexed.cell;
                    }
                    iter.next();
                }
            },
            Direction::Left => {
                if cell.flags.contains(Flags::WIDE_CHAR_SPACER) {
                    if let Some(indexed) = iter.prev() {
                        *cell = indexed.cell;
                    }
                    proof {
                        g.lemma_pos(iter.point);
                    }
                    let before = iter.point().sub(&self.grid, Boundary::Grid, 1);
                    if self.grid.cell(before).flags.contains(Flags::LEADING_WIDE_CHAR_SPACER) {
                        iter.prev();
                    }
                }
            },
        }
    }
}

} // verus!
