//! The way of a search through the grid.

use crate::cell::Flags;
use crate::grid::GridView;
use crate::index::{Direction, Point};
use vstd::prelude::*;

verus! {

/// The way from the cell with the index `start` in `direction`, one character after the other.
/// Behind the last cell of the grid comes the first one, and before the first one the last.
pub struct Walk {
    pub grid: GridView,
    pub start: int,
    pub end: Point,
    pub direction: Direction,
}

impl Walk {
    pub open spec fn valid(self) -> bool {
        &&& self.grid.valid()
        &&& 0 <= self.start < self.grid.size()
    }

    /// The cell behind the cell `i`.
    pub open spec fn behind(self, i: int) -> int {
        match self.direction {
            Direction::Right => if i + 1 < self.grid.size() {
                i + 1
            } else {
                0
            },
            Direction::Left => if i > 0 {
                i - 1
            } else {
                self.grid.size() - 1
            },
        }
    }

    /// The cell by which the walk comes to its character `k`.
    pub open spec fn near(self, k: int) -> int
        decreases k,
    {
        if k <= 0 {
            self.start
        } else {
            self.behind(self.grid.far_end(self.near(k - 1), self.direction))
        }
    }

    /// The cell by which the walk leaves its character `k`.
    pub open spec fn far(self, k: int) -> int {
        self.grid.far_end(self.near(k), self.direction)
    }

    /// The cell that holds character `k`.
    pub open spec fn read(self, k: int) -> int {
        self.grid.glyph(self.near(k), self.direction)
    }

    /// Where the walk leaves its character `k`.
    pub open spec fn point(self, k: int) -> Point {
        self.grid.point_at(self.far(k))
    }

    /// Whether the walk is at its end with character `k`. On the first character only the cell by
    /// which the walk leaves it counts.
    pub open spec fn ends(self, k: int) -> bool {
        ||| self.point(k) == self.end
        ||| k > 0 && self.grid.point_at(self.near(k)) == self.end
    }

    /// Whether the walk goes over from one line into another between the characters `k - 1` and
    /// `k`, as told by the columns by which it leaves the two. A step within a line is none, in
    /// however few columns. Going right, a wide character at the beginning of a line is left by
    /// its second column, and going left, one at the end of a line by its first: there the walk
    /// goes over unnoticed.
    pub open spec fn goes_over(self, k: int) -> bool {
        let last = self.grid.last_column();
        let from = self.grid.column_of(self.far(k - 1));
        let to = self.grid.column_of(self.far(k));
        &&& k > 0
        &&& match self.direction {
            Direction::Right => from == last && to == 0,
            Direction::Left => from == 0 && to == last,
        }
    }

    /// Of the characters `k - 1` and `k`, the cell of the one that comes first in reading order.
    pub open spec fn upper(self, k: int) -> int {
        match self.direction {
            Direction::Right => self.read(k - 1),
            Direction::Left => self.read(k),
        }
    }

    /// Whether the text is cut between the characters `k - 1` and `k`: the walk goes over from one
    /// line into another, and the cell of the last character of the upper one does not say that it
    /// goes on in the lower.
    pub open spec fn breaks(self, k: int) -> bool {
        self.goes_over(k) && !self.grid.has(self.upper(k), Flags::WRAPLINE)
    }

    /// Whether the walk comes into another line with character `k`.
    pub open spec fn enters_line(self, k: int) -> bool {
        &&& k > 0
        &&& self.grid.column_of(self.near(k)) == match self.direction {
            Direction::Right => 0,
            Direction::Left => self.grid.last_column(),
        }
    }

    /// Of the line that the walk leaves with character `k - 1` and the one into which it comes
    /// with character `k`, the upper one.
    pub open spec fn upper_line(self, k: int) -> int {
        self.grid.line_of(self.upper_end(k))
    }

    /// The last cell of that line.
    pub open spec fn upper_end(self, k: int) -> int {
        match self.direction {
            Direction::Right => self.far(k - 1),
            Direction::Left => self.near(k),
        }
    }

    /// The walk stays on the grid.
    pub proof fn lemma_on_grid(self, k: int)
        requires
            self.valid(),
        ensures
            0 <= self.near(k) < self.grid.size(),
            0 <= self.far(k) < self.grid.size(),
            0 <= self.read(k) < self.grid.size(),
            self.grid.on_grid(self.point(k)),
            self.grid.pos(self.point(k)) == self.far(k),
        decreases k,
    {
        if k > 0 {
            self.lemma_on_grid(k - 1);
        }
        self.grid.lemma_far_end(self.near(k), self.direction);
        self.grid.lemma_point_at(self.far(k));
    }
}

} // verus!
