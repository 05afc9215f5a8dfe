//! Going to the next match from a point in the grid.

use crate::automaton::Automaton;
use crate::grid::GridView;
use crate::index::{Boundary, Column, Direction, Line, Point, Side};
use crate::matches::{is_found, side_of, Match, RegexIter, Series};
use crate::regex::RegexSearch;
use crate::term::Term;
use vstd::prelude::*;

verus! {

/// The matches from `start` on, of which the first one is wanted that lies beyond `origin`.
pub struct Quest<A> {
    pub series: Series<A>,
    pub start: Point,
    pub origin: Point,
    pub side: Side,
}

impl<A: Automaton> Quest<A> {
    /// Where the series stands after `k` matches, and whether it is over.
    pub open spec fn state(self, k: int) -> (Point, bool)
        decreases k,
    {
        if k <= 0 {
            (self.start, false)
        } else {
            let (point, done) = self.state(k - 1);
            self.series.after(point, done)
        }
    }

    /// The match `k`.
    pub open spec fn nth(self, k: int) -> Option<(Point, Point)> {
        let (point, done) = self.state(k);
        self.series.yields(point, done)
    }

    /// Whether match `k` can be asked for.
    pub open spec fn can_step(self, k: int) -> bool {
        let (point, done) = self.state(k);
        self.series.can_step(point, done)
    }

    /// Whether the wanted side of a match lies beyond the origin: not between the start of the
    /// series and the origin.
    pub open spec fn passes(self, points: (Point, Point)) -> bool {
        let point = side_of(points, self.side);
        match self.series.direction {
            Direction::Right => point.line.0 < self.start.line.0 || point.not_before(self.origin),
            Direction::Left => point.line.0 > self.start.line.0 || self.origin.not_before(point),
        }
    }

    /// Whether match `k` decides the quest: it lies beyond the origin, or there is none.
    pub open spec fn settles(self, k: int) -> bool {
        match self.nth(k) {
            Some(points) => self.passes(points),
            None => true,
        }
    }

    /// Whether match `k` is the first one that decides the quest.
    pub open spec fn settles_first(self, k: int) -> bool {
        &&& 0 <= k
        &&& self.settles(k)
        &&& forall|i: int| 0 <= i < k ==> !self.settles(i)
    }

    /// Whether the quest comes to an end.
    pub open spec fn solvable(self) -> bool {
        exists|k: int|
            self.settles_first(k) && (forall|i: int| 0 <= i <= k ==> #[trigger] self.can_step(i))
    }

    /// The match that decides the quest.
    pub open spec fn decisive(self) -> int {
        choose|k: int| self.settles_first(k)
    }

    /// The first match beyond the origin; where there is none, the first match of all.
    pub open spec fn result(self) -> Option<(Point, Point)> {
        match self.nth(self.decisive()) {
            Some(points) => Some(points),
            None => self.nth(0),
        }
    }

    /// There is only one first match that decides the quest.
    pub proof fn lemma_decisive(self, k: int)
        requires
            self.settles_first(k),
        ensures
            self.decisive() == k,
    {
        let d = self.decisive();
        assert(self.settles_first(d));
        assert(!(d < k));
        assert(!(k < d));
    }
}

impl GridView {
    /// Where the search for the next match to the right of `origin` begins: with the line of
    /// `origin`, across linewraps.
    pub open spec fn start_right(self, origin: Point) -> Point {
        Point { line: Line(self.first_line(origin.line.0 as int) as i32), column: Column(0) }
    }

    /// Where the search for the next match to the left of `origin` begins: at the end of the line
    /// of `origin`, across linewraps.
    pub open spec fn start_left(self, origin: Point) -> Point {
        Point {
            line: Line(self.last_line(origin.line.0 as int) as i32),
            column: Column(self.last_column() as usize),
        }
    }

    /// Where the search to the right ends: after `max_lines` more lines, or all around the grid.
    pub open spec fn end_right(self, start: Point, max_lines: Option<usize>) -> Point {
        match max_lines {
            Some(lines) => Point {
                line: Line(self.bounded_line(start.line.0 + lines, Boundary::Wrap) as i32),
                column: Column(self.last_column() as usize),
            },
            None => self.point_at(self.bounded(self.pos(start) - 1, Boundary::Wrap)),
        }
    }

    /// Where the search to the left ends: after `max_lines` more lines, or all around the grid.
    pub open spec fn end_left(self, start: Point, max_lines: Option<usize>) -> Point {
        match max_lines {
            Some(lines) => Point {
                line: Line(self.bounded_line(start.line.0 - lines, Boundary::Wrap) as i32),
                column: Column(0),
            },
            None => self.point_at(self.bounded(self.pos(start) + 1, Boundary::Wrap)),
        }
    }

    /// Whether the line that many lines from the start of the search has a number.
    pub open spec fn limit_fits(
        self,
        origin: Point,
        direction: Direction,
        max_lines: Option<usize>,
    ) -> bool {
        max_lines matches Some(lines) ==> {
            &&& lines <= i32::MAX
            &&& match direction {
                Direction::Right => self.start_right(origin).line.0 + lines <= i32::MAX,
                Direction::Left => self.start_left(origin).line.0 - lines - self.screen_lines
                    >= i32::MIN,
            }
        }
    }

    /// A limit that the whole grid exceeds fits.
    pub proof fn lemma_limit_fits(
        self,
        origin: Point,
        direction: Direction,
        max_lines: Option<usize>,
    )
        requires
            self.valid(),
            self.top() <= origin.line.0 <= self.bottom() + 1,
        ensures
            self.limit_fits(origin, direction, self.line_limit(max_lines)),
    {
        self.lemma_first_line(origin.line.0 as int);
        self.lemma_last_line(origin.line.0 as int);
    }

    /// The search for the next match from `origin`.
    pub open spec fn quest<A: Automaton>(
        self,
        regex: RegexSearch<A>,
        origin: Point,
        direction: Direction,
        side: Side,
        max_lines: Option<usize>,
    ) -> Quest<A> {
        let start = match direction {
            Direction::Right => self.start_right(origin),
            Direction::Left => self.start_left(origin),
        };
        let end = match direction {
            Direction::Right => self.end_right(start, max_lines),
            Direction::Left => self.end_left(start, max_lines),
        };
        Quest { series: Series { grid: self, regex, end, direction }, start, origin, side }
    }

    /// A limit that the whole grid does not exceed is no limit.
    pub open spec fn line_limit(self, max_lines: Option<usize>) -> Option<usize> {
        match max_lines {
            Some(lines) => if lines + 1 < self.total_lines {
                Some(lines)
            } else {
                None
            },
            None => None,
        }
    }

    /// The search that [`Term::search_next`] makes: from the end of the character at `origin`.
    pub open spec fn quest_next<A: Automaton>(
        self,
        regex: RegexSearch<A>,
        origin: Point,
        direction: Direction,
        side: Side,
        max_lines: Option<usize>,
    ) -> Quest<A> {
        self.quest(
            regex,
            self.expanded(origin, direction),
            direction,
            side,
            self.line_limit(max_lines),
        )
    }
}

impl<T> Term<T> {
    /// Gets the next search match in the specified direction.
    pub fn search_next<A: Automaton>(
        &self,
        regex: &RegexSearch<A>,
        origin: Point,
        direction: Direction,
        side: Side,
        max_lines: Option<usize>,
    ) -> (r: Option<Match>)
        requires
            self.grid.wf(),
            regex.wf(),
            self.grid@.can_expand(origin, direction),
            max_lines matches Some(lines) ==> lines < usize::MAX,
            self.grid@.quest_next(*regex, origin, direction, side, max_lines).solvable(),
        ensures
            is_found(
                r,
                self.grid@.quest_next(*regex, origin, direction, side, max_lines).result(),
            ),
            r matches Some(m) ==> self.grid@.on_grid(m@.start) && self.grid@.on_grid(m@.end),
    {
        proof {
            self.grid@.lemma_expanded(origin, direction);
        }
        let origin = self.expand_wide(origin, direction);

        proof {
            self.grid@.lemma_limit_fits(origin, direction, max_lines);
        }
        let max_lines = self.limit_lines(max_lines);

        match direction {
            Direction::Right => self.next_match_right(regex, origin, side, max_lines),
            Direction::Left => self.next_match_left(regex, origin, side, max_lines),
        }
    }

    /// Drops a limit that the whole grid does not exceed.
    pub fn limit_lines(&self, max_lines: Option<usize>) -> (r: Option<usize>)
        requires
            self.grid.wf(),
            max_lines matches Some(lines) ==> lines < usize::MAX,
        ensures
            r == self.grid@.line_limit(max_lines),
    {
        match max_lines {
            Some(lines) => if lines + 1 < self.grid.total_lines() {
                Some(lines)
            } else {
                None
            },
            None => None,
        }
    }

    /// Where the search for the next match to the right of the origin begins and ends.
    pub fn range_right(&self, origin: Point, max_lines: Option<usize>) -> (r: (Point, Point))
        requires
            self.grid.wf(),
            self.grid@.top() <= origin.line.0 <= self.grid@.bottom() + 1,
            self.grid@.limit_fits(origin, Direction::Right, max_lines),
        ensures
            r.0 == self.grid@.start_right(origin),
            r.1 == self.grid@.end_right(r.0, max_lines),
            self.grid@.on_grid(r.1),
    {
        let start = self.line_search_left(origin);
        proof {
            self.grid@.lemma_first_line(origin.line.0 as int);
        }

        // Limit maximum number of lines searched.
        let end = match max_lines {
            Some(max_lines) => {
                let line = Line(start.line.0 + max_lines as i32).grid_clamp(
                    &self.grid,
                    Boundary::Wrap,
                );
                Point::new(line, self.grid.last_column())
            },
            None => start.sub(&self.grid, Boundary::Wrap, 1),
        };
        (start, end)
    }

    /// Where the search for the next match to the left of the origin begins and ends.
    pub fn range_left(&self, origin: Point, max_lines: Option<usize>) -> (r: (Point, Point))
        requires
            self.grid.wf(),
            self.grid@.top() <= origin.line.0 <= self.grid@.bottom() + 1,
            self.grid@.limit_fits(origin, Direction::Left, max_lines),
        ensures
            r.0 == self.grid@.start_left(origin),
            r.1 == self.grid@.end_left(r.0, max_lines),
            self.grid@.on_grid(r.1),
    {
        let start = self.line_search_right(origin);
        proof {
            self.grid@.lemma_last_line(origin.line.0 as int);
        }

        // Limit maximum number of lines searched.
        let end = match max_lines {
            Some(max_lines) => {
                let line = Line(start.line.0 - max_lines as i32).grid_clamp(
                    &self.grid,
                    Boundary::Wrap,
                );
                Point::new(line, Column(0))
            },
            None => {
                proof {
                    let columns = self.grid@.columns;
                    let beyond = start.column.0 + 1;
                    assert(beyond / columns <= 1) by (nonlinear_arith)
                        requires
                            1 <= columns,
                            0 <= beyond <= columns,
                    ;
                }
                start.add(&self.grid, Boundary::Wrap, 1)
            },
        };
        (start, end)
    }

    /// Finds the next match to the right of the origin.
    pub fn next_match_right<A: Automaton>(
        &self,
        regex: &RegexSearch<A>,
        origin: Point,
        side: Side,
        max_lines: Option<usize>,
    ) -> (r: Option<Match>)
        requires
            self.grid.wf(),
            regex.wf(),
            self.grid@.top() <= origin.line.0 <= self.grid@.bottom() + 1,
            self.grid@.limit_fits(origin, Direction::Right, max_lines),
            self.grid@.quest(*regex, origin, Direction::Right, side, max_lines).solvable(),
        ensures
            is_found(
                r,
                self.grid@.quest(*regex, origin, Direction::Right, side, max_lines).result(),
            ),
            r matches Some(m) ==> self.grid@.on_grid(m@.start) && self.grid@.on_grid(m@.end),
    {
        let (start, end) = self.range_right(origin, max_lines);
        let mut regex_iter = RegexIter::new(start, end, Direction::Right, self, regex);
        let ghost quest = self.grid@.quest(*regex, origin, Direction::Right, side, max_lines);
        let ghost decisive = choose|k: int|
            quest.settles_first(k) && (forall|i: int| 0 <= i <= k ==> #[trigger] quest.can_step(i));
        proof {
            assert(quest.can_step(0));
        }

        // Check if there's any match at all.
        let first_match = match regex_iter.next() {
            Some(first_match) => first_match,
            None => {
                proof {
                    quest.lemma_decisive(0);
                }
                return None;
            },
        };
        let (first_start, first_end) = (*first_match.start(), *first_match.end());

        let mut regex_match = first_match;
        let ghost mut k: int = 0;
        loop
            invariant
                regex_iter.term.grid.wf(),
                regex_iter.regex.wf(),
                regex_iter.series() == quest.series,
                quest == self.grid@.quest(*regex, origin, Direction::Right, side, max_lines),
                start == quest.start,
                quest.settles_first(decisive),
                forall|i: int| 0 <= i <= decisive ==> #[trigger] quest.can_step(i),
                0 <= k <= decisive,
                forall|i: int| 0 <= i < k ==> !quest.settles(i),
                quest.nth(0) == Some((first_start, first_end)),
                is_found(Some(regex_match), quest.nth(k)),
                quest.series.grid.on_grid(first_start),
                quest.series.grid.on_grid(first_end),
                quest.series.grid.on_grid(regex_match@.start),
                quest.series.grid.on_grid(regex_match@.end),
                (regex_iter.point, regex_iter.done) == quest.state(k + 1),
            decreases decisive - k,
        {
            let match_point = Self::match_side(&regex_match, side);

            // If the match's point is beyond the origin, we're done.
            if match_point.line.0 < start.line.0 || match_point.line.0 > origin.line.0 || (
            match_point.line == origin.line && match_point.column.0 >= origin.column.0) {
                proof {
                    quest.lemma_decisive(k);
                }
                return Some(regex_match);
            }
            proof {
                k = k + 1;
                assert(quest.can_step(k));
            }
            regex_match = match regex_iter.next() {
                Some(regex_match) => regex_match,
                None => {
                    proof {
                        quest.lemma_decisive(k);
                    }
                    return Some(Match::new(first_start, first_end));
                },
            };
        }
    }

    /// Finds the next match to the left of the origin.
    pub fn next_match_left<A: Automaton>(
        &self,
        regex: &RegexSearch<A>,
        origin: Point,
        side: Side,
        max_lines: Option<usize>,
    ) -> (r: Option<Match>)
        requires
            self.grid.wf(),
            regex.wf(),
            self.grid@.top() <= origin.line.0 <= self.grid@.bottom() + 1,
            self.grid@.limit_fits(origin, Direction::Left, max_lines),
            self.grid@.quest(*regex, origin, Direction::Left, side, max_lines).solvable(),
        ensures
            is_found(
                r,
                self.grid@.quest(*regex, origin, Direction::Left, side, max_lines).result(),
            ),
            r matches Some(m) ==> self.grid@.on_grid(m@.start) && self.grid@.on_grid(m@.end),
    {
        let (start, end) = self.range_left(origin, max_lines);
        let mut regex_iter = RegexIter::new(start, end, Direction::Left, self, regex);
        let ghost quest = self.grid@.quest(*regex, origin, Direction::Left, side, max_lines);
        let ghost decisive = choose|k: int|
            quest.settles_first(k) && (forall|i: int| 0 <= i <= k ==> #[trigger] quest.can_step(i));
        proof {
            assert(quest.can_step(0));
        }

        // Check if there's any match at all.
        let first_match = match regex_iter.next() {
            Some(first_match) => first_match,
            None => {
                proof {
                    quest.lemma_decisive(0);
                }
                return None;
            },
        };
        let (first_start, first_end) = (*first_match.start(), *first_match.end());

        let mut regex_match = first_match;
        let ghost mut k: int = 0;
        loop
            invariant
                regex_iter.term.grid.wf(),
                regex_iter.regex.wf(),
                regex_iter.series() == quest.series,
                quest == self.grid@.quest(*regex, origin, Direction::Left, side, max_lines),
                start == quest.start,
                quest.settles_first(decisive),
                forall|i: int| 0 <= i <= decisive ==> #[trigger] quest.can_step(i),
                0 <= k <= decisive,
                forall|i: int| 0 <= i < k ==> !quest.settles(i),
                quest.nth(0) == Some((first_start, first_end)),
                is_found(Some(regex_match), quest.nth(k)),
                quest.series.grid.on_grid(first_start),
                quest.series.grid.on_grid(first_end),
                quest.series.grid.on_grid(regex_match@.start),
                quest.series.grid.on_grid(regex_match@.end),
                (regex_iter.point, regex_iter.done) == quest.state(k + 1),
            decreases decisive - k,
        {
            let match_point = Self::match_side(&regex_match, side);

            // If the match's point is beyond the origin, we're done.
            if match_point.line.0 > start.line.0 || match_point.line.0 < origin.line.0 || (
            match_point.line == origin.line && match_point.column.0 <= origin.column.0) {
                proof {
                    quest.lemma_decisive(k);
                }
                return Some(regex_match);
            }
            proof {
                k = k + 1;
                assert(quest.can_step(k));
            }
            regex_match = match regex_iter.next() {
                Some(regex_match) => regex_match,
                None => {
                    proof {
                        quest.lemma_decisive(k);
                    }
                    return Some(Match::new(first_start, first_end));
                },
            };
        }
    }
}

} // verus!
