//! Moving points through a grid by a number of columns.

use crate::grid::{Grid, GridView};
use crate::index::{Boundary, Column, Line, Point};
use vstd::arithmetic::div_mod::{
    lemma_fundamental_div_mod, lemma_fundamental_div_mod_converse, lemma_mod_bound,
};
use vstd::prelude::*;

verus! {

impl GridView {
    /// The index at which a move to the index `i` ends.
    pub open spec fn bounded(self, i: int, boundary: Boundary) -> int {
        match boundary {
            Boundary::Wrap => i % self.size(),
            Boundary::Grid => if i < 0 {
                0
            } else if i >= self.size() {
                self.size() - 1
            } else {
                i
            },
        }
    }

    /// The line at which a move to the line `line` ends.
    pub open spec fn bounded_line(self, line: int, boundary: Boundary) -> int {
        match boundary {
            Boundary::Wrap => (line - self.top()) % self.total_lines + self.top(),
            Boundary::Grid => if line < self.top() {
                self.top()
            } else if line > self.bottom() {
                self.bottom()
            } else {
                line
            },
        }
    }

    /// Wrapping the line of a point is wrapping its index.
    proof fn lemma_wrap_line(self, line: int, column: int)
        requires
            self.valid(),
            0 <= column < self.columns,
        ensures
            0 < self.size(),
            ((line - self.top()) % self.total_lines) * self.columns + column == ((line - self.top())
                * self.columns + column) % self.size(),
    {
        let x = line - self.top();
        let t = self.total_lines;
        let w = self.columns;
        lemma_fundamental_div_mod(x, t);
        lemma_mod_bound(x, t);
        let a = x / t;
        let m = x % t;
        assert(x * w + column == a * (t * w) + (m * w + column)) by (nonlinear_arith)
            requires
                x == t * a + m,
        ;
        assert(0 <= m * w + column < t * w) by (nonlinear_arith)
            requires
                0 <= m < t,
                0 <= column < w,
        ;
        lemma_fundamental_div_mod_converse(x * w + column, t * w, a, m * w + column);
    }

    /// A point above, or below, the lines of the grid has an index before, or after, those of the
    /// grid.
    proof fn lemma_pos_outside(self, p: Point)
        requires
            self.valid(),
            p.column.0 < self.columns,
        ensures
            0 < self.size(),
            p.line.0 < self.top() ==> self.pos(p) < 0,
            p.line.0 > self.bottom() ==> self.pos(p) >= self.size(),
    {
        let x = p.line.0 - self.top();
        let c = p.column.0 as int;
        assert(0 < self.total_lines * self.columns) by (nonlinear_arith)
            requires
                0 < self.total_lines,
                0 < self.columns,
        ;
        if x < 0 {
            assert(x * self.columns + c < 0) by (nonlinear_arith)
                requires
                    x <= -1,
                    0 <= c < self.columns,
            ;
        }
        if x >= self.total_lines {
            assert(x * self.columns + c >= self.total_lines * self.columns) by (nonlinear_arith)
                requires
                    x >= self.total_lines,
                    0 <= c,
                    0 < self.columns,
            ;
        }
    }
}

impl Line {
    /// Brings a line back into the grid.
    pub fn grid_clamp(self, grid: &Grid, boundary: Boundary) -> (r: Line)
        requires
            grid.wf(),
            self.0 - grid@.screen_lines >= i32::MIN,
        ensures
            r.0 == grid@.bounded_line(self.0 as int, boundary),
            grid@.top() <= r.0 <= grid@.bottom(),
    {
        let topmost_line = grid.topmost_line();
        let bottommost_line = grid.bottommost_line();
        match boundary {
            Boundary::Grid => {
                if self.0 < topmost_line.0 {
                    topmost_line
                } else if self.0 > bottommost_line.0 {
                    bottommost_line
                } else {
                    self
                }
            },
            Boundary::Wrap => {
                let total_lines = grid.total_lines() as i32;
                let ghost t = grid@.total_lines;
                let ghost x = self.0 - grid@.top();
                if self.0 > bottommost_line.0 {
                    let extra: i32 = (self.0 - grid.screen_lines() as i32) % total_lines;
                    proof {
                        lemma_fundamental_div_mod(x - t, t);
                        lemma_mod_bound(x - t, t);
                        let a = (x - t) / t;
                        assert(x == (a + 1) * t + extra) by (nonlinear_arith)
                            requires
                                x - t == t * a + extra,
                        ;
                        lemma_fundamental_div_mod_converse(x, t, a + 1, extra as int);
                    }
                    Line(topmost_line.0 + extra)
                } else {
                    let extra: i32 = (bottommost_line.0 - self.0) % total_lines;
                    proof {
                        lemma_fundamental_div_mod(t - 1 - x, t);
                        lemma_mod_bound(t - 1 - x, t);
                        let a = (t - 1 - x) / t;
                        assert(x == (-a) * t + (t - 1 - extra)) by (nonlinear_arith)
                            requires
                                t - 1 - x == t * a + extra,
                        ;
                        lemma_fundamental_div_mod_converse(x, t, -a, t - 1 - extra);
                    }
                    Line(bottommost_line.0 - extra)
                }
            },
        }
    }
}

impl Point {
    /// Brings a point back into the grid.
    pub fn grid_clamp(self, grid: &Grid, boundary: Boundary) -> (r: Point)
        requires
            grid.wf(),
            self.column.0 <= grid@.last_column(),
            self.line.0 - grid@.screen_lines >= i32::MIN,
        ensures
            r == grid@.point_at(grid@.bounded(grid@.pos(self), boundary)),
            grid@.on_grid(r),
            grid@.pos(r) == grid@.bounded(grid@.pos(self), boundary),
    {
        let topmost_line = grid.topmost_line();
        let bottommost_line = grid.bottommost_line();
        let ghost g = grid@;
        proof {
            g.lemma_pos_outside(self);
        }
        match boundary {
            Boundary::Grid => {
                let r = if self.line.0 < topmost_line.0 {
                    Point::new(topmost_line, Column(0))
                } else if self.line.0 > bottommost_line.0 {
                    Point::new(bottommost_line, grid.last_column())
                } else {
                    self
                };
                proof {
                    g.lemma_pos(r);
                    if self.line.0 > bottommost_line.0 {
                        assert((g.total_lines - 1) * g.columns + g.columns - 1 == g.total_lines
                            * g.columns - 1) by (nonlinear_arith);
                    }
                }
                r
            },
            Boundary::Wrap => {
                let r = Point::new(self.line.grid_clamp(grid, boundary), self.column);
                proof {
                    g.lemma_wrap_line(self.line.0 as int, self.column.0 as int);
                    g.lemma_pos(r);
                }
                r
            },
        }
    }

    /// Moves a point to the right by `rhs` columns.
    pub fn add(self, grid: &Grid, boundary: Boundary, rhs: usize) -> (r: Point)
        requires
            grid.wf(),
            self.column.0 + rhs <= usize::MAX,
            self.line.0 + (self.column.0 + rhs) / grid@.columns <= i32::MAX,
            self.line.0 - grid@.screen_lines >= i32::MIN,
        ensures
            r == grid@.point_at(grid@.bounded(grid@.pos(self) + rhs, boundary)),
            grid@.on_grid(r),
            grid@.pos(r) == grid@.bounded(grid@.pos(self) + rhs, boundary),
    {
        let columns: usize = grid.columns();
        let sum: usize = self.column.0 + rhs;
        let lines: usize = sum / columns;
        let ghost g = grid@;
        proof {
            lemma_fundamental_div_mod(sum as int, g.columns);
            lemma_mod_bound(sum as int, g.columns);
            assert(lines <= i32::MAX - self.line.0);
        }
        let line = Line((self.line.0 as i64 + lines as i64) as i32);
        let column = Column(sum % columns);
        proof {
            let x = self.line.0 - g.top();
            assert((x + lines) * g.columns + column.0 == x * g.columns + sum) by (nonlinear_arith)
                requires
                    sum == g.columns * lines + column.0,
            ;
        }
        Point::new(line, column).grid_clamp(grid, boundary)
    }

    /// Moves a point to the left by `rhs` columns.
    pub fn sub(self, grid: &Grid, boundary: Boundary, rhs: usize) -> (r: Point)
        requires
            grid.wf(),
            self.column.0 <= grid@.last_column(),
            rhs + grid@.columns <= i32::MAX,
            self.line.0 - rhs - 1 - grid@.screen_lines >= i32::MIN,
        ensures
            r == grid@.point_at(grid@.bounded(grid@.pos(self) - rhs, boundary)),
            grid@.on_grid(r),
            grid@.pos(r) == grid@.bounded(grid@.pos(self) - rhs, boundary),
    {
        let columns: usize = grid.columns();
        let ghost g = grid@;
        let shortfall: usize = rhs + columns - 1 - self.column.0;
        let lines: usize = shortfall / columns;
        let column = Column((columns + self.column.0 - rhs % columns) % columns);
        let ghost w = g.columns;
        let ghost c = self.column.0 as int;
        let ghost d = c - rhs;
        proof {
            lemma_fundamental_div_mod(rhs as int, w);
            lemma_mod_bound(rhs as int, w);
            let a = rhs as int / w;
            let b = rhs as int % w;
            lemma_fundamental_div_mod(w + c - b, w);
            lemma_mod_bound(w + c - b, w);
            lemma_fundamental_div_mod(shortfall as int, w);
            lemma_mod_bound(shortfall as int, w);
            // Where the point ends, counted from the beginning of its line.
            if c >= b {
                lemma_fundamental_div_mod_converse(w + c - b, w, 1, c - b);
                assert(shortfall == a * w + (w - 1 - (c - b))) by (nonlinear_arith)
                    requires
                        shortfall == rhs + w - 1 - c,
                        rhs == w * a + b,
                ;
                lemma_fundamental_div_mod_converse(shortfall as int, w, a, w - 1 - (c - b));
                assert((-a) * w + (c - b) == d) by (nonlinear_arith)
                    requires
                        d == c - rhs,
                        rhs == w * a + b,
                ;
                assert((-lines) * w + column.0 == d);
            } else {
                lemma_fundamental_div_mod_converse(w + c - b, w, 0, w + c - b);
                assert(shortfall == (a + 1) * w + (b - c - 1)) by (nonlinear_arith)
                    requires
                        shortfall == rhs + w - 1 - c,
                        rhs == w * a + b,
                ;
                lemma_fundamental_div_mod_converse(shortfall as int, w, a + 1, b - c - 1);
                assert((-(a + 1)) * w + (w + c - b) == d) by (nonlinear_arith)
                    requires
                        d == c - rhs,
                        rhs == w * a + b,
                ;
                assert((-lines) * w + column.0 == d);
            }
            assert(0 <= a <= rhs) by (nonlinear_arith)
                requires
                    rhs == w * a + b,
                    0 <= b < w,
                    1 <= w,
                    0 <= rhs,
            ;
        }
        let line = Line(self.line.0 - lines as i32);
        proof {
            let x = self.line.0 - g.top();
            assert((x - lines) * w + column.0 == x * w + c - rhs) by (nonlinear_arith)
                requires
                    (-lines) * w + column.0 == c - rhs,
            ;
        }
        Point::new(line, column).grid_clamp(grid, boundary)
    }
}

} // verus!
