//! Coordinates of the cells of a terminal grid.

use vstd::prelude::*;

verus! {

/// A line of the grid: the visible lines count up from 0, the lines of the history count down
/// from -1.
#[derive(Debug, Copy, Clone, PartialEq, Eq, Structural)]
pub struct Line(pub i32);

/// A column of the grid, counted from 0.
#[derive(Debug, Copy, Clone, PartialEq, Eq, Structural)]
pub struct Column(pub usize);

/// The place of a cell in the grid.
#[derive(Debug, Copy, Clone, PartialEq, Eq, Structural)]
pub struct Point {
    pub line: Line,
    pub column: Column,
}

impl Point {
    pub fn new(line: Line, column: Column) -> (point: Point)
        ensures
            point == (Point { line, column }),
    {
        Point { line, column }
    }

    /// Whether the point does not come before `other` in reading order.
    pub open spec fn not_before(self, other: Point) -> bool {
        self.line.0 > other.line.0 || self.line.0 == other.line.0 && self.column.0
            >= other.column.0
    }
}

/// A horizontal direction.
#[derive(Debug, Copy, Clone, PartialEq, Eq, Structural)]
pub enum Direction {
    Left,
    Right,
}

/// A side of a match.
pub type Side = Direction;

/// What happens to a point that leaves the grid.
#[derive(Debug, Copy, Clone, PartialEq, Eq, Structural)]
pub enum Boundary {
    /// The point stays at the nearest end of the grid.
    Grid,
    /// The point comes in again at the other end of the grid.
    Wrap,
}

} // verus!
