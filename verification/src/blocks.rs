//! The ends of lines and of words.

use crate::cell::Flags;
use crate::grid::GridView;
use crate::index::{Column, Line, Point};
use crate::term::Term;
use vstd::prelude::*;

verus! {

/// Whether `c` occurs in `s`.
fn contains_char(s: &String, c: char) -> (r: bool)
    ensures
        r == s@.contains(c),
{
    let text = s.as_str();
    for x in it: text.chars()
        invariant
            text@ == s@,
            it.seq() == text@,
            forall|j: int| 0 <= j < it.index() ==> text@[j] != c,
    {
        if x == c {
            assert(text@[it.index() as int] == c);
            return true;
        }
    }
    false
}

impl GridView {
    /// Whether the line `line` goes on in the next one.
    pub open spec fn line_wraps(self, line: int) -> bool {
        self.has((line - self.top()) * self.columns + self.last_column(), Flags::WRAPLINE)
    }

    /// The first of the lines that go on in each other up to `line`.
    pub open spec fn first_line(self, line: int) -> int
        decreases line - self.top(),
    {
        if line > self.top() && self.line_wraps(line - 1) {
            self.first_line(line - 1)
        } else {
            line
        }
    }

    /// The last of the lines that go on in each other from `line`.
    pub open spec fn last_line(self, line: int) -> int
        decreases self.bottom() - line,
    {
        if line < self.bottom() && self.line_wraps(line) {
            self.last_line(line + 1)
        } else {
            line
        }
    }

    /// Whether the cell `i` holds a character of `escape_chars`. The columns of wide characters
    /// do not count.
    pub open spec fn escapes(self, i: int, escape_chars: Seq<char>) -> bool {
        &&& !self.has(i, Flags::WIDE_CHAR)
        &&& !self.has(i, Flags::WIDE_CHAR_SPACER)
        &&& !self.has(i, Flags::LEADING_WIDE_CHAR_SPACER)
        &&& escape_chars.contains(self.cells[i].c)
    }

    /// Whether a line ends behind the cell `i` and does not go on in the next one.
    pub open spec fn ends_line(self, i: int) -> bool {
        &&& self.column_of(i) == self.last_column()
        &&& !self.has(i, Flags::WRAPLINE)
    }

    /// The first cell of the block that ends with the cell `i`: no cell before `i` in it escapes
    /// or ends a line.
    pub open spec fn block_start(self, i: int, escape_chars: Seq<char>) -> int
        decreases i,
    {
        if i <= 0 || self.escapes(i - 1, escape_chars) || self.ends_line(i - 1) {
            i
        } else {
            self.block_start(i - 1, escape_chars)
        }
    }

    /// The last cell of the block that begins with the cell `i`: no cell behind `i` in it
    /// escapes, and only its last one ends a line.
    pub open spec fn block_end(self, i: int, escape_chars: Seq<char>) -> int
        decreases self.size() - i,
    {
        if i + 1 >= self.size() || self.escapes(i + 1, escape_chars) {
            i
        } else if self.ends_line(i + 1) {
            i + 1
        } else {
            self.block_end(i + 1, escape_chars)
        }
    }

    /// `p`, or the point below it in the topmost line.
    pub open spec fn below_top(self, p: Point) -> Point {
        if p.line.0 < self.top() {
            Point { line: Line(self.top() as i32), column: p.column }
        } else {
            p
        }
    }
}

impl GridView {
    /// The first of the lines that go on in each other up to `line` is the nearest one that is
    /// the topmost line or follows a line that does not go on.
    pub proof fn lemma_first_line(self, line: int)
        requires
            self.top() <= line,
        ensures
            self.top() <= self.first_line(line) <= line,
            self.first_line(line) == self.top() || !self.line_wraps(self.first_line(line) - 1),
            forall|l: int| self.first_line(line) <= l < line ==> #[trigger] self.line_wraps(l),
        decreases line - self.top(),
    {
        if line > self.top() && self.line_wraps(line - 1) {
            self.lemma_first_line(line - 1);
        }
    }

    /// The last of the lines that go on in each other from `line` is the nearest one that is the
    /// bottommost line or does not go on.
    pub proof fn lemma_last_line(self, line: int)
        ensures
            line <= self.last_line(line),
            line <= self.bottom() ==> self.last_line(line) <= self.bottom(),
            line > self.bottom() ==> self.last_line(line) == line,
            self.last_line(line) >= self.bottom() || !self.line_wraps(self.last_line(line)),
            forall|l: int| line <= l < self.last_line(line) ==> #[trigger] self.line_wraps(l),
        decreases self.bottom() - line,
    {
        if line < self.bottom() && self.line_wraps(line) {
            self.lemma_last_line(line + 1);
        }
    }
}

impl<T> Term<T> {
    /// Whether a cell holds a character that ends a word.
    fn escapes(&self, c: char, flags: Flags) -> (r: bool)
        ensures
            r == (!flags.has(Flags::WIDE_CHAR) && !flags.has(Flags::WIDE_CHAR_SPACER)
                && !flags.has(Flags::LEADING_WIDE_CHAR_SPACER)
                && self.semantic_escape_chars@.contains(c)),
    {
        let wide: u16 = Flags::WIDE_CHAR | Flags::WIDE_CHAR_SPACER
            | Flags::LEADING_WIDE_CHAR_SPACER;
        proof {
            flags.lemma_intersects(wide);
        }
        !flags.intersects(wide) && contains_char(&self.semantic_escape_chars, c)
    }

    /// Finds the left end of the semantic block.
    pub fn semantic_search_left(&self, point: Point) -> (r: Point)
        requires
            self.grid.wf(),
            self.grid@.on_grid(self.grid@.below_top(point)),
        ensures
            r == self.grid@.point_at(
                self.grid@.block_start(
                    self.grid@.pos(self.grid@.below_top(point)),
                    self.semantic_escape_chars@,
                ),
            ),
            self.grid@.on_grid(r),
    {
        let mut edge = point;
        // Limit the starting point to the last line in the history.
        let topmost_line = self.grid.topmost_line();
        if edge.line.0 < topmost_line.0 {
            edge.line = topmost_line;
        }

        let mut iter = self.grid.iter_from(edge);
        let last_column = self.grid.last_column();
        let ghost g = self.grid@;
        let ghost escape_chars = self.semantic_escape_chars@;
        let ghost block_start = g.block_start(g.pos(edge), escape_chars);

        loop
            invariant
                self.grid.wf(),
                g == self.grid@,
                escape_chars == self.semantic_escape_chars@,
                last_column.0 == g.last_column(),
                iter.wf(),
                *iter.grid == self.grid,
                edge == iter.point,
                block_start == g.block_start(iter.pos(), escape_chars),
                block_start == g.block_start(g.pos(g.below_top(point)), escape_chars),
            decreases iter.pos(),
        {
            proof {
                g.lemma_pos(edge);
            }
            let indexed = match iter.prev() {
                Some(indexed) => indexed,
                None => {
                    return edge;
                },
            };
            proof {
                g.lemma_pos(iter.point);
            }
            if self.escapes(indexed.cell.c, indexed.cell.flags) {
                return edge;
            }
            if indexed.point.column == last_column && !indexed.cell.flags.contains(
                Flags::WRAPLINE,
            ) {
                return edge;  // cut off if on new line or hit escape char
            }
            edge = indexed.point;
        }
    }

    /// Finds the right end of the semantic block.
    pub fn semantic_search_right(&self, point: Point) -> (r: Point)
        requires
            self.grid.wf(),
            self.grid@.on_grid(self.grid@.below_top(point)),
        ensures
            r == self.grid@.point_at(
                self.grid@.block_end(
                    self.grid@.pos(self.grid@.below_top(point)),
                    self.semantic_escape_chars@,
                ),
            ),
            self.grid@.on_grid(r),
    {
        let mut edge = point;
        // Limit the starting point to the last line in the history.
        let topmost_line = self.grid.topmost_line();
        if edge.line.0 < topmost_line.0 {
            edge.line = topmost_line;
        }

        let mut iter = self.grid.iter_from(edge);
        let last_column = self.grid.last_column();
        let ghost g = self.grid@;
        let ghost escape_chars = self.semantic_escape_chars@;
        let ghost block_end = g.block_end(g.pos(edge), escape_chars);

        loop
            invariant
                self.grid.wf(),
                g == self.grid@,
                escape_chars == self.semantic_escape_chars@,
                last_column.0 == g.last_column(),
                iter.wf(),
                *iter.grid == self.grid,
                edge == iter.point,
                block_end == g.block_end(iter.pos(), escape_chars),
                block_end == g.block_end(g.pos(g.below_top(point)), escape_chars),
            decreases g.size() - iter.pos(),
        {
            proof {
                g.lemma_pos(edge);
            }
            let indexed = match iter.next() {
                Some(indexed) => indexed,
                None => {
                    return edge;
                },
            };
            proof {
                g.lemma_pos(iter.point);
            }
            if self.escapes(indexed.cell.c, indexed.cell.flags) {
                return edge;
            }
            edge = indexed.point;
            if edge.column == last_column && !indexed.cell.flags.contains(Flags::WRAPLINE) {
                return edge;  // cut off if on new line or hit escape char
            }
        }
    }

    /// Finds the beginning of the current line across linewraps.
    pub fn line_search_left(&self, point: Point) -> (r: Point)
        requires
            self.grid.wf(),
            point.line.0 <= self.grid@.bottom() + 1,
        ensures
            r.line.0 == self.grid@.first_line(point.line.0 as int),
            r.column.0 == 0,
    {
        let mut point = point;
        let topmost_line = self.grid.topmost_line();
        let last_column = self.grid.last_column();
        let ghost g = self.grid@;
        let ghost first_line = g.first_line(point.line.0 as int);
        while point.line.0 > topmost_line.0 && self.grid.cell(
            Point::new(Line((point.line.0 - 1) as i32), last_column),
        ).flags.contains(Flags::WRAPLINE)
            invariant
                self.grid.wf(),
                g == self.grid@,
                topmost_line.0 == g.top(),
                last_column.0 == g.last_column(),
                point.line.0 <= g.bottom() + 1,
                first_line == g.first_line(point.line.0 as int),
            decreases point.line.0 - g.top(),
        {
            point.line = Line(point.line.0 - 1);
        }
        point.column = Column(0);
        point
    }

    /// Finds the end of the current line across linewraps.
    pub fn line_search_right(&self, point: Point) -> (r: Point)
        requires
            self.grid.wf(),
            self.grid@.top() <= point.line.0 < i32::MAX,
        ensures
            r.line.0 == self.grid@.last_line(point.line.0 as int),
            r.column.0 == self.grid@.last_column(),
    {
        let mut point = point;
        let screen_lines: i32 = self.grid.screen_lines() as i32;
        let last_column = self.grid.last_column();
        let ghost g = self.grid@;
        let ghost last_line = g.last_line(point.line.0 as int);
        while point.line.0 + 1 < screen_lines && self.grid.cell(
            Point::new(point.line, last_column),
        ).flags.contains(Flags::WRAPLINE)
            invariant
                self.grid.wf(),
                g == self.grid@,
                screen_lines == g.screen_lines,
                last_column.0 == g.last_column(),
                g.top() <= point.line.0 < i32::MAX,
                last_line == g.last_line(point.line.0 as int),
            decreases g.bottom() - point.line.0,
        {
            point.line = Line(point.line.0 + 1);
        }
        point.column = last_column;
        point
    }
}

} // verus!
