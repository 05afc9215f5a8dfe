//! Searches that first make sure that they come to an end.

use crate::automaton::Automaton;
use crate::cell::Flags;
use crate::grid::{Grid, GridView};
use crate::index::{Column, Direction, Point, Side};
use crate::matches::{is_found, Match, RegexIter};
use crate::progress::{law_search_left_ends, law_search_next_ends, law_search_right_ends};
use crate::regex::RegexSearch;
use crate::term::Term;
use vstd::prelude::*;

verus! {

impl GridView {
    /// Whether neither the search to the right from `start` to `end` nor the way back can pass
    /// over its end.
    pub open spec fn surely_ends_right(self, start: Point, end: Point) -> bool {
        &&& self.on_grid(start)
        &&& self.on_grid(end)
        &&& !self.passed_over(self.pos(end), Direction::Right)
        &&& !self.passed_over(self.pos(start), Direction::Left)
    }

    /// Whether neither the search to the left from `start` to `end` nor the way back can pass
    /// over its end.
    pub open spec fn surely_ends_left(self, start: Point, end: Point) -> bool {
        &&& self.on_grid(start)
        &&& self.on_grid(end)
        &&& !self.passed_over(self.pos(end), Direction::Left)
        &&& !self.passed_over(self.pos(start), Direction::Right)
    }

    /// Whether the way to the next match surely comes to an end.
    pub open spec fn surely_ends_next(
        self,
        origin: Point,
        direction: Direction,
        max_lines: Option<usize>,
    ) -> bool {
        let from = self.expanded(origin, direction);
        let limit = self.line_limit(max_lines);
        &&& self.laid_out()
        &&& self.on_grid(origin)
        &&& max_lines matches Some(lines) ==> lines < usize::MAX
        &&& match direction {
            Direction::Right => max_lines is Some ==> !self.has(
                self.pos(self.end_right(self.start_right(from), limit)),
                Flags::LEADING_WIDE_CHAR_SPACER,
            ),
            Direction::Left => !self.takes_next(
                self.pos(self.end_left(self.start_left(from), limit)),
            ),
        }
    }
}

impl Grid {
    /// Whether there is a cell at `point`.
    pub fn contains(&self, point: Point) -> (r: bool)
        requires
            self.wf(),
        ensures
            r == self@.on_grid(point),
    {
        self.topmost_line().0 <= point.line.0 && point.line.0 <= self.bottommost_line().0
            && point.column.0 <= self.last_column().0
    }

    /// Whether a search in `direction` can pass over the cell at `point` and not come to it.
    pub fn passed_over(&self, point: Point, direction: Direction) -> (r: bool)
        requires
            self.wf(),
            self@.on_grid(point),
        ensures
            r == self@.passed_over(self@.pos(point), direction),
    {
        proof {
            self@.lemma_pos(point);
        }
        let mut backwards = self.iter_from(point);
        let before = match backwards.prev() {
            Some(before) => before,
            None => {
                return false;
            },
        };
        let mut forwards = self.iter_from(point);
        let behind = match forwards.next() {
            Some(behind) => behind,
            None => {
                return false;
            },
        };
        proof {
            self@.lemma_pos(backwards.point);
        }
        before.cell.flags.contains(Flags::LEADING_WIDE_CHAR_SPACER) && match direction {
            Direction::Right => !(before.cell.flags.contains(Flags::WIDE_CHAR)
                && before.point.column.0 < self.last_column().0),
            Direction::Left => behind.cell.flags.contains(Flags::WIDE_CHAR_SPACER),
        }
    }

    /// Whether the cell at `point` is where a terminal puts it.
    fn laid_out_at(&self, point: Point) -> (r: bool)
        requires
            self.wf(),
            self@.on_grid(point),
        ensures
            r == self@.laid_out_at(self@.pos(point)),
    {
        proof {
            self@.lemma_pos(point);
            self@.lemma_first(point);
            self@.lemma_last(point);
        }
        let flags = self.cell(point).flags;
        let last_column = self.last_column();
        let mut backwards = self.iter_from(point);
        let before = backwards.prev();
        let mut forwards = self.iter_from(point);
        let behind = forwards.next();

        let wide = flags.contains(Flags::WIDE_CHAR);
        let spacer = flags.contains(Flags::WIDE_CHAR_SPACER);
        if wide {
            if spacer {
                return false;
            }
            if point.column.0 < last_column.0 {
                let followed = match behind {
                    Some(ref behind) => behind.cell.flags.contains(Flags::WIDE_CHAR_SPACER),
                    None => false,
                };
                if !followed {
                    return false;
                }
            }
        }
        if spacer {
            let preceded = match before {
                Some(ref before) => before.cell.flags.contains(Flags::WIDE_CHAR),
                None => false,
            };
            if point.column.0 == 0 || !preceded {
                return false;
            }
        }
        if flags.contains(Flags::LEADING_WIDE_CHAR_SPACER) {
            let followed = match behind {
                Some(ref behind) => behind.cell.flags.contains(Flags::WIDE_CHAR),
                None => false,
            };
            if wide || spacer || !flags.contains(Flags::WRAPLINE) || point.column.0 == 0
                || point.column != last_column || !followed {
                return false;
            }
        }
        true
    }

    /// Whether the columns of the wide characters are where a terminal puts them.
    pub fn laid_out(&self) -> (r: bool)
        requires
            self.wf(),
        ensures
            r == self@.laid_out(),
    {
        let first = Point::new(self.topmost_line(), Column(0));
        let mut iter = self.iter_from(first);
        proof {
            self@.lemma_pos(first);
            self@.lemma_first(first);
        }
        loop
            invariant
                self.wf(),
                iter.wf(),
                *iter.grid == *self,
                forall|i: int| 0 <= i < iter.pos() ==> #[trigger] self@.laid_out_at(i),
            decreases self@.size() - iter.pos(),
        {
            proof {
                self@.lemma_pos(iter.point);
            }
            if !self.laid_out_at(iter.point()) {
                return false;
            }
            if iter.next().is_none() {
                return true;
            }
            proof {
                self@.lemma_pos(iter.point);
            }
        }
    }
}

impl<T> Term<T> {
    /// Finds the next match of an automaton, if the search cannot pass over its end.
    pub fn try_regex_search<A: Automaton>(
        &self,
        start: Point,
        end: Point,
        direction: Direction,
        anchored: bool,
        regex: &A,
    ) -> (r: Option<Option<Point>>)
        requires
            self.grid.wf(),
            regex.wf(),
        ensures
            r is Some <==> self.grid@.on_grid(start) && self.grid@.on_grid(end)
                && !self.grid@.passed_over(self.grid@.pos(end), direction),
            r matches Some(found) ==> found == self.grid@.scan(
                start,
                end,
                direction,
                anchored,
                *regex,
            ).result(),
    {
        if self.grid.contains(start) && self.grid.contains(end) && !self.grid.passed_over(
            end,
            direction,
        ) {
            proof {
                self.grid@.lemma_pos(start);
                self.grid@.scan(start, end, direction, anchored, *regex).law_search_stops();
            }
            Some(self.regex_search(start, end, direction, anchored, regex))
        } else {
            None
        }
    }

    /// Finds the next regex match to the right of the origin point, if the search surely comes to
    /// an end.
    pub fn try_regex_search_right<A: Automaton>(
        &self,
        regex: &RegexSearch<A>,
        start: Point,
        end: Point,
    ) -> (r: Option<Option<Match>>)
        requires
            self.grid.wf(),
            regex.wf(),
        ensures
            r is Some <==> self.grid@.surely_ends_right(start, end),
            r matches Some(found) ==> is_found(found, self.grid@.match_right(*regex, start, end)),
    {
        if self.grid.contains(start) && self.grid.contains(end) && !self.grid.passed_over(
            end,
            Direction::Right,
        ) && !self.grid.passed_over(start, Direction::Left) {
            proof {
                law_search_right_ends(self.grid@, *regex, start, end);
            }
            Some(self.regex_search_right(regex, start, end))
        } else {
            None
        }
    }

    /// Finds the next regex match to the left of the origin point, if the search surely comes to
    /// an end.
    pub fn try_regex_search_left<A: Automaton>(
        &self,
        regex: &RegexSearch<A>,
        start: Point,
        end: Point,
    ) -> (r: Option<Option<Match>>)
        requires
            self.grid.wf(),
            regex.wf(),
        ensures
            r is Some <==> self.grid@.surely_ends_left(start, end),
            r matches Some(found) ==> is_found(found, self.grid@.match_left(*regex, start, end)),
    {
        if self.grid.contains(start) && self.grid.contains(end) && !self.grid.passed_over(
            end,
            Direction::Left,
        ) && !self.grid.passed_over(start, Direction::Right) {
            proof {
                law_search_left_ends(self.grid@, *regex, start, end);
            }
            Some(self.regex_search_left(regex, start, end))
        } else {
            None
        }
    }

    /// Gets the next search match in the specified direction, if the way to it surely comes to an
    /// end.
    pub fn try_search_next<A: Automaton>(
        &self,
        regex: &RegexSearch<A>,
        origin: Point,
        direction: Direction,
        side: Side,
        max_lines: Option<usize>,
    ) -> (r: Option<Option<Match>>)
        requires
            self.grid.wf(),
            regex.wf(),
        ensures
            r is Some <==> self.grid@.surely_ends_next(origin, direction, max_lines),
            r matches Some(found) ==> is_found(
                found,
                self.grid@.quest_next(*regex, origin, direction, side, max_lines).result(),
            ),
    {
        let representable = match max_lines {
            Some(lines) => lines < usize::MAX,
            None => true,
        };
        if !representable || !self.grid.contains(origin) || !self.grid.laid_out() {
            return None;
        }
        proof {
            self.grid@.lemma_can_expand(origin, direction);
            self.grid@.lemma_expanded(origin, direction);
        }
        let from = self.expand_wide(origin, direction);
        proof {
            self.grid@.lemma_limit_fits(from, direction, max_lines);
        }
        let limit = self.limit_lines(max_lines);
        let cuts = match direction {
            Direction::Right => {
                let (_, end) = self.range_right(from, limit);
                max_lines.is_some() && self.grid.cell(end).flags.contains(
                    Flags::LEADING_WIDE_CHAR_SPACER,
                )
            },
            Direction::Left => {
                let (_, end) = self.range_left(from, limit);
                proof {
                    self.grid@.lemma_pos(end);
                }
                self.grid.cell(end).flags.contains(Flags::WIDE_CHAR) && end.column.0
                    < self.grid.last_column().0
            },
        };
        if cuts {
            return None;
        }
        proof {
            law_search_next_ends(self.grid@, *regex, origin, direction, side, max_lines);
        }
        Some(self.search_next(regex, origin, direction, side, max_lines))
    }
}

impl<'a, T, A: Automaton> RegexIter<'a, T, A> {
    /// Whether the next search surely comes to an end, and the iterator can move on behind what
    /// it finds.
    pub open spec fn surely_steps(&self) -> bool {
        let g = self.term.grid@;
        self.done || {
            &&& match self.direction {
                Direction::Right => g.surely_ends_right(self.point, self.end),
                Direction::Left => g.surely_ends_left(self.point, self.end),
            }
            &&& match self.series().found(self.point) {
                Some((_, match_end)) => match_end == self.end || g.can_expand(
                    match_end,
                    self.direction,
                ),
                None => true,
            }
        }
    }

    /// Gets the next match, and moves on behind it, if the search surely comes to an end.
    pub fn try_next(&mut self) -> (r: Option<Option<Match>>)
        requires
            old(self).term.grid.wf(),
            old(self).regex.wf(),
        ensures
            r is Some <==> old(self).surely_steps(),
            match r {
                Some(found) => {
                    let (point, done) = old(self).series().after(old(self).point, old(self).done);
                    &&& is_found(
                        found,
                        old(self).series().yields(old(self).point, old(self).done),
                    )
                    &&& *final(self) == (RegexIter { point, done, ..*old(self) })
                },
                None => *final(self) == *old(self),
            },
    {
        if self.done {
            return Some(self.next());
        }
        let found = match self.direction {
            Direction::Right => self.term.try_regex_search_right(
                self.regex,
                self.point,
                self.end,
            ),
            Direction::Left => self.term.try_regex_search_left(self.regex, self.point, self.end),
        };
        let next_match = match found {
            Some(next_match) => next_match,
            None => {
                return None;
            },
        };
        proof {
            match self.direction {
                Direction::Right => law_search_right_ends(
                    self.term.grid@,
                    *self.regex,
                    self.point,
                    self.end,
                ),
                Direction::Left => law_search_left_ends(
                    self.term.grid@,
                    *self.regex,
                    self.point,
                    self.end,
                ),
            }
        }
        if let Some(regex_match) = next_match {
            let match_end = *regex_match.end();
            if match_end != self.end {
                let movable = self.term.grid.contains(match_end) && (self.direction
                    == Direction::Right || match_end.column.0 > 0 || !self.term.grid.cell(
                    match_end,
                ).flags.contains(Flags::WIDE_CHAR_SPACER));
                if !movable {
                    return None;
                }
            }
        }
        Some(self.next())
    }
}

} // verus!
