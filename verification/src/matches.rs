//! Whole matches, and stepping from one match to the next.

use crate::automaton::{Automaton, Dense};
use crate::grid::GridView;
use crate::index::{Boundary, Direction, Point, Side};
use crate::regex::RegexSearch;
use crate::term::Term;
use std::ops::RangeInclusive;
use vstd::prelude::*;

verus! {

/// The first and the last cell of a match.
pub type Match = RangeInclusive<Point>;

/// The lower bound of a range, `RangeInclusive::start` of the standard library.
///
/// Taken on trust: it is the bound with which the range was made, as long as the range has not
/// been iterated to its end.
pub assume_specification<Idx>[ RangeInclusive::<Idx>::start ](range: &RangeInclusive<Idx>) -> (r:
    &Idx)
    requires
        !range@.exhausted,
    ensures
        *r == range@.start,
;

/// The upper bound of a range, `RangeInclusive::end` of the standard library.
///
/// Taken on trust: it is the bound with which the range was made, as long as the range has not
/// been iterated to its end.
pub assume_specification<Idx>[ RangeInclusive::<Idx>::end ](range: &RangeInclusive<Idx>) -> (r:
    &Idx)
    requires
        !range@.exhausted,
    ensures
        *r == range@.end,
;

/// Whether `range` is the match with the given first and last cell.
pub open spec fn is_match(range: Match, points: (Point, Point)) -> bool {
    &&& range@.start == points.0
    &&& range@.end == points.1
    &&& !range@.exhausted
}

/// The same, where there may be no match.
pub open spec fn is_found(range: Option<Match>, points: Option<(Point, Point)>) -> bool {
    match points {
        Some(points) => range matches Some(range) && is_match(range, points),
        None => range is None,
    }
}

/// The side of the match with the given first and last cell.
pub open spec fn side_of(points: (Point, Point), side: Side) -> Point {
    match side {
        Direction::Right => points.1,
        Direction::Left => points.0,
    }
}

impl GridView {
    /// The first and the last cell of the next match from `start` to the right: its end is found
    /// first, then its beginning on the way back.
    pub open spec fn match_right<A: Automaton>(
        self,
        regex: RegexSearch<A>,
        start: Point,
        end: Point,
    ) -> Option<(Point, Point)> {
        match self.scan(start, end, Direction::Right, false, regex.dfa).result() {
            Some(match_end) => match self.scan(
                match_end,
                start,
                Direction::Left,
                true,
                regex.rdfa,
            ).result() {
                Some(match_start) => Some((match_start, match_end)),
                None => None,
            },
            None => None,
        }
    }

    /// Whether both searches come to an end.
    pub open spec fn halts_right<A: Automaton>(
        self,
        regex: RegexSearch<A>,
        start: Point,
        end: Point,
    ) -> bool {
        let scan = self.scan(start, end, Direction::Right, false, regex.dfa);
        &&& scan.halts()
        &&& scan.result() matches Some(match_end) ==> self.scan(
            match_end,
            start,
            Direction::Left,
            true,
            regex.rdfa,
        ).halts()
    }

    /// The first and the last cell of the next match from `start` to the left: its beginning is
    /// found first, then its end on the way back.
    pub open spec fn match_left<A: Automaton>(
        self,
        regex: RegexSearch<A>,
        start: Point,
        end: Point,
    ) -> Option<(Point, Point)> {
        match self.scan(start, end, Direction::Left, false, regex.rdfa).result() {
            Some(match_start) => match self.scan(
                match_start,
                start,
                Direction::Right,
                true,
                regex.dfa,
            ).result() {
                Some(match_end) => Some((match_start, match_end)),
                None => None,
            },
            None => None,
        }
    }

    /// Whether both searches come to an end.
    pub open spec fn halts_left<A: Automaton>(
        self,
        regex: RegexSearch<A>,
        start: Point,
        end: Point,
    ) -> bool {
        let scan = self.scan(start, end, Direction::Left, false, regex.rdfa);
        &&& scan.halts()
        &&& scan.result() matches Some(match_start) ==> self.scan(
            match_start,
            start,
            Direction::Right,
            true,
            regex.dfa,
        ).halts()
    }
}

/// A series of searches in one direction that all have the same end.
pub struct Series<A> {
    pub grid: GridView,
    pub regex: RegexSearch<A>,
    pub end: Point,
    pub direction: Direction,
}

impl<A: Automaton> Series<A> {
    /// The next match from `point`.
    pub open spec fn found(self, point: Point) -> Option<(Point, Point)> {
        match self.direction {
            Direction::Right => self.grid.match_right(self.regex, point, self.end),
            Direction::Left => self.grid.match_left(self.regex, point, self.end),
        }
    }

    /// Whether the search from `point` comes to an end.
    pub open spec fn halts(self, point: Point) -> bool {
        match self.direction {
            Direction::Right => self.grid.halts_right(self.regex, point, self.end),
            Direction::Left => self.grid.halts_left(self.regex, point, self.end),
        }
    }

    /// The cell next to the character at `point`, in the direction of the series.
    pub open spec fn skipped(self, point: Point) -> Point {
        let i = self.grid.pos(self.grid.expanded(point, self.direction));
        self.grid.point_at(
            self.grid.bounded(
                match self.direction {
                    Direction::Right => i + 1,
                    Direction::Left => i - 1,
                },
                Boundary::Wrap,
            ),
        )
    }

    /// The match that comes next in the series, which stands at `point`.
    pub open spec fn yields(self, point: Point, done: bool) -> Option<(Point, Point)> {
        if done {
            None
        } else {
            self.found(point)
        }
    }

    /// Where the series stands after that match, and whether it is over. To the right, the next
    /// search begins behind the match. To the left, it begins one character before the end of the
    /// match, so that matches can overlap.
    pub open spec fn after(self, point: Point, done: bool) -> (Point, bool) {
        match self.yields(point, done) {
            Some((_, match_end)) => if match_end == self.end {
                (match_end, true)
            } else {
                (self.skipped(match_end), point == self.end)
            },
            None => (point, done || point == self.end),
        }
    }

    /// Whether the next match can be asked for.
    pub open spec fn can_step(self, point: Point, done: bool) -> bool {
        done || {
            &&& self.grid.on_grid(point)
            &&& self.halts(point)
            &&& match self.found(point) {
                Some((_, match_end)) => match_end == self.end || self.grid.can_expand(
                    match_end,
                    self.direction,
                ),
                None => true,
            }
        }
    }
}

impl<T> Term<T> {
    /// The side of a match.
    pub fn match_side(regex_match: &Match, side: Side) -> (r: Point)
        requires
            !regex_match@.exhausted,
        ensures
            r == side_of((regex_match@.start, regex_match@.end), side),
    {
        match side {
            Direction::Right => *regex_match.end(),
            Direction::Left => *regex_match.start(),
        }
    }

    /// Finds the next regex match to the left of the origin point.
    ///
    /// The origin is always included in the regex.
    pub fn regex_search_left<A: Automaton>(
        &self,
        regex: &RegexSearch<A>,
        start: Point,
        end: Point,
    ) -> (r: Option<Match>)
        requires
            self.grid.wf(),
            regex.wf(),
            self.grid@.on_grid(start),
            self.grid@.halts_left(*regex, start, end),
        ensures
            is_found(r, self.grid@.match_left(*regex, start, end)),
            r matches Some(m) ==> self.grid@.on_grid(m@.start) && self.grid@.on_grid(m@.end),
    {
        // Find start and end of match.
        let match_start = match self.regex_search(start, end, Direction::Left, false, &regex.rdfa) {
            Some(match_start) => match_start,
            None => {
                return None;
            },
        };
        let match_end = match self.regex_search(
            match_start,
            start,
            Direction::Right,
            true,
            &regex.dfa,
        ) {
            Some(match_end) => match_end,
            None => {
                return None;
            },
        };
        Some(RangeInclusive::new(match_start, match_end))
    }

    /// Finds the next regex match to the right of the origin point.
    ///
    /// The origin is always included in the regex.
    pub fn regex_search_right<A: Automaton>(
        &self,
        regex: &RegexSearch<A>,
        start: Point,
        end: Point,
    ) -> (r: Option<Match>)
        requires
            self.grid.wf(),
            regex.wf(),
            self.grid@.on_grid(start),
            self.grid@.halts_right(*regex, start, end),
        ensures
            is_found(r, self.grid@.match_right(*regex, start, end)),
            r matches Some(m) ==> self.grid@.on_grid(m@.start) && self.grid@.on_grid(m@.end),
    {
        // Find start and end of match.
        let match_end = match self.regex_search(start, end, Direction::Right, false, &regex.dfa) {
            Some(match_end) => match_end,
            None => {
                return None;
            },
        };
        let match_start = match self.regex_search(
            match_end,
            start,
            Direction::Left,
            true,
            &regex.rdfa,
        ) {
            Some(match_start) => match_start,
            None => {
                return None;
            },
        };
        Some(RangeInclusive::new(match_start, match_end))
    }
}

/// Iterator over regex matches.
pub struct RegexIter<'a, T, A = Dense> {
    pub point: Point,
    pub end: Point,
    pub direction: Direction,
    pub regex: &'a RegexSearch<A>,
    pub term: &'a Term<T>,
    pub done: bool,
}

impl<'a, T, A: Automaton> RegexIter<'a, T, A> {
    /// The searches that the iterator makes.
    pub open spec fn series(&self) -> Series<A> {
        Series {
            grid: self.term.grid@,
            regex: *self.regex,
            end: self.end,
            direction: self.direction,
        }
    }

    /// Whether the iterator can be asked for the next match.
    pub open spec fn ready(&self) -> bool {
        &&& self.term.grid.wf()
        &&& self.regex.wf()
        &&& self.series().can_step(self.point, self.done)
    }

    pub fn new(
        start: Point,
        end: Point,
        direction: Direction,
        term: &'a Term<T>,
        regex: &'a RegexSearch<A>,
    ) -> (iter: Self)
        ensures
            iter == (RegexIter { point: start, end, direction, regex, term, done: false }),
    {
        RegexIter { point: start, done: false, end, direction, term, regex }
    }

    /// Skips one cell, advancing the origin point to the next one.
    fn skip(&mut self)
        requires
            old(self).term.grid.wf(),
            old(self).term.grid@.can_expand(old(self).point, old(self).direction),
        ensures
            *final(self) == (RegexIter {
                point: old(self).series().skipped(old(self).point),
                ..*old(self)
            }),
            final(self).term.grid@.on_grid(final(self).point),
    {
        let ghost g = self.term.grid@;
        proof {
            g.lemma_expanded(self.point, self.direction);
        }
        let point = self.term.expand_wide(self.point, self.direction);
        proof {
            let beyond = point.column.0 + 1;
            assert(beyond / g.columns <= 2) by (nonlinear_arith)
                requires
                    1 <= g.columns,
                    0 <= beyond <= g.columns || beyond == 2,
            ;
        }
        self.point = match self.direction {
            Direction::Right => point.add(&self.term.grid, Boundary::Wrap, 1),
            Direction::Left => point.sub(&self.term.grid, Boundary::Wrap, 1),
        };
    }

    /// Gets the next match in the specified direction.
    fn next_match(&self) -> (r: Option<Match>)
        requires
            self.term.grid.wf(),
            self.regex.wf(),
            self.term.grid@.on_grid(self.point),
            self.series().halts(self.point),
        ensures
            is_found(r, self.series().found(self.point)),
            r matches Some(m) ==> self.term.grid@.on_grid(m@.start) && self.term.grid@.on_grid(
                m@.end,
            ),
    {
        match self.direction {
            Direction::Right => self.term.regex_search_right(self.regex, self.point, self.end),
            Direction::Left => self.term.regex_search_left(self.regex, self.point, self.end),
        }
    }

    /// Gets the next match, and moves on from its end by one character: to the right behind the
    /// match, to the left to the character before its last one, so that matches can overlap.
    pub fn next(&mut self) -> (r: Option<Match>)
        requires
            old(self).ready(),
        ensures
            is_found(r, old(self).series().yields(old(self).point, old(self).done)),
            ({
                let (point, done) = old(self).series().after(old(self).point, old(self).done);
                *final(self) == (RegexIter { point, done, ..*old(self) })
            }),
            r matches Some(m) ==> old(self).term.grid@.on_grid(m@.start) && old(
                self,
            ).term.grid@.on_grid(m@.end),
            final(self).end == old(self).end,
            final(self).direction == old(self).direction,
            old(self).done ==> r is None && *final(self) == *old(self),
            !old(self).done ==> (final(self).done <==> old(self).point == old(self).end || (
            r matches Some(m) && m@.end == old(self).end)),
            r is None ==> final(self).point == old(self).point,
            r matches Some(m) ==> final(self).point == (if m@.end == old(self).end {
                m@.end
            } else {
                old(self).series().skipped(m@.end)
            }),
    {
        if self.done {
            return None;
        }

        // Since the end itself might be a single cell match, we search one more time.
        if self.point == self.end {
            self.done = true;
        }
        let regex_match = match self.next_match() {
            Some(regex_match) => regex_match,
            None => {
                return None;
            },
        };

        self.point = *regex_match.end();
        if self.point == self.end {
            // Stop when the match terminates right on the end limit.
            self.done = true;
        } else {
            // Move the new search origin past the last character of the match.
            self.skip();
        }

        Some(regex_match)
    }
}

} // verus!
