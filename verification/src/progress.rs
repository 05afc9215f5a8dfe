//! When a search comes to an end.
//!
//! A search goes around the grid until it comes to its end point. Of a wide character with a
//! column left free before it, a search sees only the outer columns. So a search whose end is the
//! middle one only stops where it finds something. The laws below say which searches stop in any
//! case, whatever they look for.

use crate::automaton::Automaton;
use crate::cell::Flags;
use crate::grid::GridView;
use crate::index::{Boundary, Column, Direction, Line, Point, Side};
use crate::matches::Series;
use crate::regex::RegexSearch;
use crate::scan::Scan;
use crate::search::Quest;
use crate::walk::Walk;
use vstd::arithmetic::div_mod::{
    lemma_fundamental_div_mod_converse, lemma_mod_bound, lemma_mod_self_0, lemma_small_mod,
};
use vstd::prelude::*;

verus! {

impl GridView {
    /// Whether a walk in `direction` can pass over the cell `i` and not come to it.
    pub open spec fn passed_over(self, i: int, direction: Direction) -> bool {
        &&& 0 < i < self.size() - 1
        &&& self.has(i - 1, Flags::LEADING_WIDE_CHAR_SPACER)
        &&& match direction {
            Direction::Right => !self.takes_next(i - 1),
            Direction::Left => self.has(i + 1, Flags::WIDE_CHAR_SPACER),
        }
    }

    /// How many steps in `direction` lead from the cell `i` to the cell `e`.
    pub open spec fn distance(self, i: int, e: int, direction: Direction) -> int {
        let d = match direction {
            Direction::Right => e - i,
            Direction::Left => i - e,
        };
        if d >= 0 {
            d
        } else {
            d + self.size()
        }
    }

    /// One step off the grid leads to its other end.
    proof fn lemma_wrap_one(self, i: int)
        requires
            self.valid(),
            0 < self.size(),
            -1 <= i <= self.size(),
        ensures
            self.bounded(i, Boundary::Wrap) == (if i < 0 {
                self.size() - 1
            } else if i == self.size() {
                0
            } else {
                i
            }),
    {
        if i < 0 {
            lemma_fundamental_div_mod_converse(-1, self.size(), -1, self.size() - 1);
        } else if i == self.size() {
            lemma_mod_self_0(self.size());
        } else {
            lemma_small_mod(i as nat, self.size() as nat);
        }
    }

    /// A character that does not begin at the cell `e` does not reach over it.
    proof fn lemma_far_end_before(self, i: int, e: int, direction: Direction)
        requires
            self.valid(),
            0 <= i < self.size(),
            0 <= e < self.size(),
            i != e,
            !self.passed_over(e, direction),
        ensures
            0 <= self.far_end(i, direction) < self.size(),
            self.distance(self.far_end(i, direction), e, direction) <= self.distance(
                i,
                e,
                direction,
            ),
    {
        self.lemma_far_end(i, direction);
    }
}

impl Walk {
    /// The step behind a cell leads nearer to the end.
    proof fn lemma_behind(self, i: int, e: int)
        requires
            self.valid(),
            0 <= i < self.grid.size(),
            0 <= e < self.grid.size(),
            i != e,
        ensures
            0 <= self.behind(i) < self.grid.size(),
            self.grid.distance(self.behind(i), e, self.direction) == self.grid.distance(
                i,
                e,
                self.direction,
            ) - 1,
    {
    }

    /// Up to its end, a walk comes nearer to it with every character.
    proof fn lemma_nearer(self, e: int, base: int, k: int)
        requires
            self.valid(),
            self.grid.on_grid(self.end),
            e == self.grid.pos(self.end),
            !self.grid.passed_over(e, self.direction),
            0 <= base <= k,
            base > 0 || self.start != e,
            forall|i: int| base <= i < k ==> !self.ends(i),
        ensures
            self.grid.distance(self.near(k), e, self.direction) <= self.grid.distance(
                self.near(base),
                e,
                self.direction,
            ) - (k - base),
            self.near(k) == e ==> k > 0 && self.ends(k),
            self.near(k) != e ==> self.grid.distance(self.far(k), e, self.direction)
                <= self.grid.distance(self.near(k), e, self.direction),
        decreases k - base,
    {
        self.grid.lemma_pos(self.end);
        self.lemma_on_grid(k);
        if k > base {
            self.lemma_nearer(e, base, k - 1);
            self.lemma_on_grid(k - 1);
            assert(!self.ends(k - 1));
            assert(self.far(k - 1) != e);
            self.lemma_behind(self.far(k - 1), e);
        }
        if self.near(k) != e {
            self.grid.lemma_far_end_before(self.near(k), e, self.direction);
        }
    }

    /// A walk comes to its end.
    proof fn lemma_reaches(self, e: int, base: int, k: int) -> (n: int)
        requires
            self.valid(),
            self.grid.on_grid(self.end),
            e == self.grid.pos(self.end),
            !self.grid.passed_over(e, self.direction),
            0 <= base <= k,
            base > 0 || self.start != e,
            forall|i: int| base <= i < k ==> !self.ends(i),
        ensures
            n >= k,
            self.ends(n),
        decreases self.grid.distance(self.near(base), e, self.direction) - (k - base),
    {
        self.lemma_nearer(e, base, k);
        self.lemma_on_grid(k);
        self.grid.lemma_pos(self.end);
        if self.ends(k) {
            k
        } else {
            self.lemma_on_grid(k + 1);
            self.lemma_nearer(e, base, k + 1);
            self.lemma_reaches(e, base, k + 1)
        }
    }

    /// A walk comes to its end, unless it can pass over it.
    pub proof fn law_walk_reaches_its_end(self)
        requires
            self.valid(),
            self.grid.on_grid(self.end),
            !self.grid.passed_over(self.grid.pos(self.end), self.direction),
        ensures
            exists|k: int| 0 <= k && self.ends(k),
    {
        let n = self.lemma_reaches(self.grid.pos(self.end), 1, 1);
        assert(0 <= n && self.ends(n));
    }
}

impl<A: Automaton> Scan<A> {
    /// A search stops, whatever it looks for, unless it can pass over its end.
    pub proof fn law_search_stops(self)
        requires
            self.walk.valid(),
            self.walk.grid.on_grid(self.walk.end),
            !self.walk.grid.passed_over(self.walk.grid.pos(self.walk.end), self.walk.direction),
        ensures
            self.halts(),
    {
        self.walk.law_walk_reaches_its_end();
        let k = choose|k: int| 0 <= k && self.walk.ends(k);
        assert(self.stops(k));
        self.lemma_halts(k);
    }

    /// What a search finds is a place of its walk.
    pub proof fn law_result_on_walk(self)
        requires
            self.walk.valid(),
            self.halts(),
        ensures
            self.result() matches Some(point) ==> self.walk.grid.on_grid(point) && exists|k: int|
                0 <= k <= self.last() && point == #[trigger] self.walk.point(k),
    {
        let last = self.last();
        assert(self.stops_first(last));
        self.lemma_confirmed(last);
        if let Some(k) = self.outcome(last) {
            self.walk.lemma_on_grid(k);
        }
    }

    /// What a search finds lies between its start and its end.
    pub proof fn lemma_result_between(self, e: int)
        requires
            self.walk.valid(),
            self.walk.grid.on_grid(self.walk.end),
            e == self.walk.grid.pos(self.walk.end),
            !self.walk.grid.passed_over(e, self.walk.direction),
            self.walk.grid.far_end(e, self.walk.direction) == e,
        ensures
            self.halts(),
            self.result() matches Some(point) ==> self.walk.grid.on_grid(point)
                && self.walk.grid.distance(self.walk.grid.pos(point), e, self.walk.direction)
                <= self.walk.grid.distance(self.walk.start, e, self.walk.direction),
    {
        self.law_search_stops();
        let walk = self.walk;
        let last = self.last();
        assert(self.stops_first(last));
        self.lemma_confirmed(last);
        walk.grid.lemma_pos(walk.end);
        if let Some(k) = self.outcome(last) {
            walk.lemma_on_grid(k);
            assert forall|i: int| 0 <= i < k implies !walk.ends(i) by {
                assert(!self.stops(i));
            }
            if walk.start == e {
                assert(walk.far(0) == e);
                assert(walk.ends(0));
                assert(k == 0);
            } else {
                walk.lemma_nearer(e, 0, k);
            }
        }
    }
}

impl GridView {
    /// Whether the columns of the wide characters are where a terminal puts them.
    pub open spec fn laid_out(self) -> bool {
        forall|i: int| 0 <= i < self.size() ==> #[trigger] self.laid_out_at(i)
    }

    /// The same, of the cell `i`.
    pub open spec fn laid_out_at(self, i: int) -> bool {
        &&& self.has(i, Flags::WIDE_CHAR) ==> {
            &&& !self.has(i, Flags::WIDE_CHAR_SPACER)
            &&& self.column_of(i) < self.last_column() ==> self.has(i + 1, Flags::WIDE_CHAR_SPACER)
        }
        &&& self.has(i, Flags::WIDE_CHAR_SPACER) ==> {
            &&& self.column_of(i) > 0
            &&& self.has(i - 1, Flags::WIDE_CHAR)
        }
        &&& self.has(i, Flags::LEADING_WIDE_CHAR_SPACER) ==> {
            &&& !self.has(i, Flags::WIDE_CHAR)
            &&& !self.has(i, Flags::WIDE_CHAR_SPACER)
            &&& self.has(i, Flags::WRAPLINE)
            &&& 0 < self.column_of(i) == self.last_column()
            &&& i + 1 < self.size()
            &&& self.has(i + 1, Flags::WIDE_CHAR)
        }
    }

    /// Whether no character has the cell `i` and a cell behind it.
    pub open spec fn ends_character(self, i: int) -> bool {
        &&& !self.takes_next(i)
        &&& !self.has(i, Flags::LEADING_WIDE_CHAR_SPACER)
    }

    /// A column left free is the last one of its line; the next line begins with a wide
    /// character and its second column.
    proof fn lemma_leading(self, i: int)
        requires
            self.valid(),
            self.laid_out(),
            0 <= i < self.size(),
            self.has(i, Flags::LEADING_WIDE_CHAR_SPACER),
        ensures
            i + 2 < self.size(),
            self.column_of(i + 1) == 0,
            self.takes_next(i + 1),
            self.has(i + 2, Flags::WIDE_CHAR_SPACER),
            self.point_at(i).line.0 < self.bottom(),
            self.column_of(i) == self.last_column(),
            self.has(i, Flags::WRAPLINE),
            2 <= self.columns,
    {
        assert(self.laid_out_at(i));
        let p = self.point_at(i);
        self.lemma_point_at(i);
        self.lemma_last(p);
        let q = Point {
            line: Line((p.line.0 + 1) as i32),
            column: Column(0),
        };
        self.lemma_pos(q);
        self.lemma_last(q);
        assert(self.pos(q) == i + 1);
        assert(self.laid_out_at(i + 1));
    }

    /// In a grid with the usual layout, every point can be moved to an end of its character.
    pub proof fn lemma_can_expand(self, p: Point, direction: Direction)
        requires
            self.valid(),
            self.laid_out(),
            self.on_grid(p),
        ensures
            self.can_expand(p, direction),
            self.top() <= self.expanded(p, direction).line.0 <= self.bottom(),
    {
        let i = self.pos(p);
        self.lemma_pos(p);
        assert(self.laid_out_at(i));
        if self.has(i, Flags::LEADING_WIDE_CHAR_SPACER) {
            self.lemma_leading(i);
        }
        self.lemma_expanded(p, direction);
    }

    /// The cell by which a walk leaves a character to the right is the last one of it.
    pub proof fn lemma_far_end_right(self, i: int)
        requires
            self.valid(),
            self.laid_out(),
            0 <= i < self.size(),
        ensures
            self.ends_character(self.far_end(i, Direction::Right)),
    {
        self.lemma_far_end(i, Direction::Right);
        assert(self.laid_out_at(i));
        if self.takes_next(i) {
            assert(self.laid_out_at(i + 1));
        } else if self.has(i, Flags::LEADING_WIDE_CHAR_SPACER) {
            self.lemma_leading(i);
            assert(self.laid_out_at(i + 2));
        }
    }

    /// The last cell of a character is not passed over, and a walk to the right leaves the
    /// character by it.
    proof fn lemma_ends_character(self, i: int)
        requires
            self.valid(),
            self.laid_out(),
            0 <= i < self.size(),
            self.ends_character(i),
        ensures
            !self.passed_over(i, Direction::Right),
            !self.passed_over(i, Direction::Left),
            self.far_end(i, Direction::Right) == i,
    {
        if 0 < i && self.has(i - 1, Flags::LEADING_WIDE_CHAR_SPACER) {
            self.lemma_leading(i - 1);
        }
    }
}

impl<A: Automaton> Series<A> {
    /// Where a series can stand so that its searches stop.
    spec fn good(self, point: Point) -> bool {
        let i = self.grid.pos(point);
        &&& self.grid.on_grid(point)
        &&& match self.direction {
            Direction::Right => !self.grid.passed_over(i, Direction::Left),
            Direction::Left => self.grid.ends_character(i),
        }
    }

    /// Where a series can end so that it does.
    pub open spec fn good_end(self) -> bool {
        let e = self.grid.pos(self.end);
        &&& self.grid.on_grid(self.end)
        &&& self.grid.ends_character(e)
        &&& self.direction == Direction::Left ==> !self.grid.has(e, Flags::WIDE_CHAR_SPACER)
    }

    /// From such a place a series to the right goes on to another one, nearer to the end.
    proof fn lemma_step_right(self, point: Point)
        requires
            self.direction == Direction::Right,
            self.grid.valid(),
            self.grid.laid_out(),
            self.good_end(),
            self.good(point),
        ensures
            self.can_step(point, false),
            self.found(point) matches Some((_, match_end)) ==> match_end == self.end || {
                let next = self.skipped(match_end);
                let e = self.grid.pos(self.end);
                &&& self.good(next)
                &&& self.grid.distance(self.grid.pos(next), e, self.direction)
                    < self.grid.distance(self.grid.pos(point), e, self.direction)
            },
    {
        let g = self.grid;
        let e = g.pos(self.end);
        let i = g.pos(point);
        g.lemma_pos(self.end);
        g.lemma_pos(point);
        g.lemma_ends_character(e);
        let scan = g.scan(point, self.end, Direction::Right, false, self.regex.dfa);
        scan.lemma_result_between(e);
        if let Some(match_end) = scan.result() {
            let back = g.scan(match_end, point, Direction::Left, true, self.regex.rdfa);
            let m = g.pos(match_end);
            g.lemma_pos(match_end);
            assert(back.walk.valid());
            back.law_search_stops();
            scan.law_result_on_walk();
            let k = choose|k: int|
                0 <= k <= scan.last() && match_end == #[trigger] scan.walk.point(k);
            scan.walk.lemma_on_grid(k);
            g.lemma_far_end_right(scan.walk.near(k));
            assert(g.ends_character(m));
            assert(g.expanded(match_end, Direction::Right) == match_end);
            if match_end != self.end {
                if m == e {
                    g.lemma_pos_injective(match_end, self.end);
                }
                g.lemma_wrap_one(m + 1);
                g.lemma_point_at(g.bounded(m + 1, Boundary::Wrap));
            }
        }
    }

    /// From such a place a series to the left goes on to another one, nearer to the end.
    proof fn lemma_step_left(self, point: Point)
        requires
            self.direction == Direction::Left,
            self.grid.valid(),
            self.grid.laid_out(),
            self.good_end(),
            self.good(point),
        ensures
            self.can_step(point, false),
            self.found(point) matches Some((_, match_end)) ==> match_end == self.end || {
                let next = self.skipped(match_end);
                let e = self.grid.pos(self.end);
                &&& self.good(next)
                &&& self.grid.distance(self.grid.pos(next), e, self.direction)
                    < self.grid.distance(self.grid.pos(point), e, self.direction)
            },
    {
        let g = self.grid;
        let e = g.pos(self.end);
        let i = g.pos(point);
        g.lemma_pos(self.end);
        g.lemma_pos(point);
        g.lemma_ends_character(e);
        g.lemma_ends_character(i);
        let scan = g.scan(point, self.end, Direction::Left, false, self.regex.rdfa);
        assert(g.far_end(e, Direction::Left) == e);
        scan.lemma_result_between(e);
        if let Some(match_start) = scan.result() {
            let back = g.scan(match_start, point, Direction::Right, true, self.regex.dfa);
            let s = g.pos(match_start);
            g.lemma_pos(match_start);
            assert(back.walk.valid());
            back.lemma_result_between(i);
            if let Some(match_end) = back.result() {
                let m = g.pos(match_end);
                g.lemma_pos(match_end);
                back.law_result_on_walk();
                let k = choose|k: int|
                    0 <= k <= back.last() && match_end == #[trigger] back.walk.point(k);
                back.walk.lemma_on_grid(k);
                g.lemma_far_end_right(back.walk.near(k));
                assert(g.ends_character(m));
                assert(g.laid_out_at(m));
                assert(g.distance(m, e, Direction::Left) <= g.distance(i, e, Direction::Left));
                if match_end != self.end {
                    if m == e {
                        g.lemma_pos_injective(match_end, self.end);
                    }
                    self.lemma_skip_left(match_end);
                }
            }
        }
    }

    /// The step over a character to the left does not lead over the end.
    proof fn lemma_skip_left(self, match_end: Point)
        requires
            self.direction == Direction::Left,
            self.grid.valid(),
            self.grid.laid_out(),
            self.good_end(),
            self.grid.on_grid(match_end),
            self.grid.ends_character(self.grid.pos(match_end)),
            match_end != self.end,
        ensures
            self.grid.can_expand(match_end, Direction::Left),
            self.good(self.skipped(match_end)),
            ({
                let e = self.grid.pos(self.end);
                self.grid.distance(
                    self.grid.pos(self.skipped(match_end)),
                    e,
                    self.direction,
                ) < self.grid.distance(self.grid.pos(match_end), e, self.direction)
            }),
    {
        let g = self.grid;
        let e = g.pos(self.end);
        let m = g.pos(match_end);
        g.lemma_pos(self.end);
        g.lemma_pos(match_end);
        if m == e {
            g.lemma_pos_injective(match_end, self.end);
        }
        assert(g.laid_out_at(m));
        g.lemma_first(match_end);
        let left = if g.has(m, Flags::WIDE_CHAR_SPACER) {
            if m - 1 > 0 && g.has(m - 2, Flags::LEADING_WIDE_CHAR_SPACER) {
                m - 2
            } else {
                m - 1
            }
        } else {
            m
        };
        g.lemma_expanded(match_end, Direction::Left);
        if g.has(m, Flags::WIDE_CHAR_SPACER) {
            assert(g.laid_out_at(m - 1));
            g.lemma_point_at(m - 1);
            g.lemma_last(g.point_at(m - 1));
            assert(g.takes_next(m - 1)) by {
                g.lemma_first(match_end);
                if g.column_of(m - 1) == g.last_column() {
                    g.lemma_pos_injective(
                        match_end,
                        Point {
                            line: Line((g.point_at(m - 1).line.0 + 1) as i32),
                            column: Column(0),
                        },
                    );
                }
            }
            if m - 1 > 0 {
                g.lemma_point_at(m - 2);
            }
        } else if g.has(m, Flags::WIDE_CHAR) {
            // A wide character in the last column.
            if m > 0 && g.has(m - 1, Flags::LEADING_WIDE_CHAR_SPACER) {
                g.lemma_leading(m - 1);
            }
        }
        assert(g.expanded(match_end, Direction::Left) == g.point_at(left));
        g.lemma_point_at(left);
        assert(g.laid_out_at(left));
        let n = g.bounded(left - 1, Boundary::Wrap);
        g.lemma_wrap_one(left - 1);
        g.lemma_point_at(n);
        assert(g.laid_out_at(n));
        if g.has(n, Flags::LEADING_WIDE_CHAR_SPACER) {
            g.lemma_leading(n);
        }
        if g.takes_next(n) {
            g.lemma_last(g.point_at(n));
        }
        assert(g.ends_character(n));
    }
}

impl<A: Automaton> Quest<A> {
    /// A quest in a grid with the usual layout, from a good place to a good end.
    spec fn good(self) -> bool {
        &&& self.series.grid.valid()
        &&& self.series.grid.laid_out()
        &&& self.series.good_end()
        &&& self.series.good(self.start)
    }

    /// How far the end of the series is from `point`.
    spec fn distance(self, point: Point) -> int {
        self.series.grid.distance(
            self.series.grid.pos(point),
            self.series.grid.pos(self.series.end),
            self.series.direction,
        )
    }

    /// Until a match decides the quest, its series comes nearer to the end with every match.
    proof fn lemma_nearer(self, k: int)
        requires
            self.good(),
            0 <= k,
            forall|i: int| 0 <= i < k ==> !self.settles(i),
        ensures
            self.can_step(k),
            ({
                let (point, done) = self.state(k);
                done || self.series.good(point) && self.distance(point) <= self.distance(
                    self.start,
                ) - k
            }),
        decreases k,
    {
        if k > 0 {
            self.lemma_nearer(k - 1);
            assert(!self.settles(k - 1));
            let (point, done) = self.state(k - 1);
            assert(!done);
            match self.series.direction {
                Direction::Right => self.series.lemma_step_right(point),
                Direction::Left => self.series.lemma_step_left(point),
            }
        }
        let (point, done) = self.state(k);
        if !done {
            match self.series.direction {
                Direction::Right => self.series.lemma_step_right(point),
                Direction::Left => self.series.lemma_step_left(point),
            }
        }
    }

    /// A series that stands at its end is over with the next match.
    proof fn lemma_over(self, k: int)
        requires
            0 <= k,
            self.state(k) == (self.series.end, false),
        ensures
            self.settles(k + 1),
    {
        let (point, done) = self.series.after(self.series.end, false);
        assert(done);
        assert(self.state(k + 1) == (point, done));
    }

    /// As long as nothing is decided, the end is ahead; at the end the next match decides.
    proof fn lemma_undecided(self, k: int)
        requires
            self.good(),
            0 <= k,
            forall|i: int| 0 <= i < k ==> !self.settles(i),
            !self.settles(k),
        ensures
            k <= self.distance(self.start),
            k == self.distance(self.start) ==> self.settles(k + 1),
    {
        self.lemma_nearer(k);
        let g = self.series.grid;
        let (point, done) = self.state(k);
        assert(!done);
        g.lemma_pos(point);
        g.lemma_pos(self.series.end);
        if k == self.distance(self.start) {
            g.lemma_pos_injective(point, self.series.end);
            self.lemma_over(k);
        }
    }

    /// Some match decides the quest.
    proof fn lemma_settles(self, k: int) -> (n: int)
        requires
            self.good(),
            0 <= k <= self.distance(self.start) + 1,
            forall|i: int| 0 <= i < k ==> !self.settles(i),
        ensures
            self.settles_first(n),
        decreases self.distance(self.start) + 1 - k,
    {
        if self.settles(k) {
            k
        } else {
            self.lemma_undecided(k);
            self.lemma_settles(k + 1)
        }
    }

    /// A quest in a grid with the usual layout, from a good place to a good end, comes to an end.
    proof fn lemma_solvable(self)
        requires
            self.good(),
        ensures
            self.solvable(),
    {
        self.series.grid.lemma_pos(self.start);
        self.series.grid.lemma_pos(self.series.end);
        let n = self.lemma_settles(0);
        assert forall|i: int| 0 <= i <= n implies #[trigger] self.can_step(i) by {
            self.lemma_nearer(i);
        }
    }
}

/// The search for a match to the right comes to an end, unless it can pass over its end, or the
/// way back over its start.
pub proof fn law_search_right_ends<A: Automaton>(
    g: GridView,
    regex: RegexSearch<A>,
    start: Point,
    end: Point,
)
    requires
        g.valid(),
        g.on_grid(start),
        g.on_grid(end),
        !g.passed_over(g.pos(end), Direction::Right),
        !g.passed_over(g.pos(start), Direction::Left),
    ensures
        g.halts_right(regex, start, end),
{
    g.lemma_pos(start);
    let scan = g.scan(start, end, Direction::Right, false, regex.dfa);
    scan.law_search_stops();
    scan.law_result_on_walk();
    if let Some(match_end) = scan.result() {
        g.lemma_pos(match_end);
        g.scan(match_end, start, Direction::Left, true, regex.rdfa).law_search_stops();
    }
}

/// The search for a match to the left comes to an end, unless it can pass over its end, or the
/// way back over its start.
pub proof fn law_search_left_ends<A: Automaton>(
    g: GridView,
    regex: RegexSearch<A>,
    start: Point,
    end: Point,
)
    requires
        g.valid(),
        g.on_grid(start),
        g.on_grid(end),
        !g.passed_over(g.pos(end), Direction::Left),
        !g.passed_over(g.pos(start), Direction::Right),
    ensures
        g.halts_left(regex, start, end),
{
    g.lemma_pos(start);
    let scan = g.scan(start, end, Direction::Left, false, regex.rdfa);
    scan.law_search_stops();
    scan.law_result_on_walk();
    if let Some(match_start) = scan.result() {
        g.lemma_pos(match_start);
        g.scan(match_start, start, Direction::Right, true, regex.dfa).law_search_stops();
    }
}

/// In a grid with the usual layout, the way to the next match comes to an end, whatever is
/// searched for, if its limit does not cut a wide character: to the right it must not be a
/// column left free, to the left not the first column of a wide character.
pub proof fn law_search_next_ends<A: Automaton>(
    g: GridView,
    regex: RegexSearch<A>,
    origin: Point,
    direction: Direction,
    side: Side,
    max_lines: Option<usize>,
)
    requires
        g.valid(),
        g.laid_out(),
        g.on_grid(origin),
        ({
            let end = g.quest_next(regex, origin, direction, side, max_lines).series.end;
            match direction {
                Direction::Right => max_lines is Some ==> !g.has(
                    g.pos(end),
                    Flags::LEADING_WIDE_CHAR_SPACER,
                ),
                Direction::Left => !g.takes_next(g.pos(end)),
            }
        }),
    ensures
        g.can_expand(origin, direction),
        g.quest_next(regex, origin, direction, side, max_lines).solvable(),
{
    let quest = g.quest_next(regex, origin, direction, side, max_lines);
    let start = quest.start;
    let end = quest.series.end;
    let i = g.pos(origin);
    g.lemma_pos(origin);
    assert(g.laid_out_at(i));
    g.lemma_expanded(origin, direction);
    if g.has(i, Flags::LEADING_WIDE_CHAR_SPACER) {
        g.lemma_leading(i);
    }
    let line = g.expanded(origin, direction).line.0 as int;
    g.lemma_first_line(line);
    g.lemma_last_line(line);
    g.lemma_pos(start);
    g.lemma_first(start);
    g.lemma_last(start);
    let s = g.pos(start);
    let e = g.pos(end);
    match direction {
        Direction::Right => {
            if s > 0 && g.has(s - 1, Flags::LEADING_WIDE_CHAR_SPACER) {
                g.lemma_leading(s - 1);
            }
            match g.line_limit(max_lines) {
                Some(lines) => {
                    lemma_mod_bound(start.line.0 + lines - g.top(), g.total_lines);
                },
                None => {
                    g.lemma_wrap_one(s - 1);
                    g.lemma_point_at(g.bounded(s - 1, Boundary::Wrap));
                    g.lemma_last(end);
                    if s > 0 {
                        let p = Point {
                            line: Line((start.line.0 - 1) as i32),
                            column: Column(g.last_column() as usize),
                        };
                        g.lemma_pos_injective(end, p);
                    }
                    if g.has(e, Flags::LEADING_WIDE_CHAR_SPACER) {
                        g.lemma_leading(e);
                    }
                },
            }
            g.lemma_pos(end);
        },
        Direction::Left => {
            if g.has(s, Flags::LEADING_WIDE_CHAR_SPACER) {
                g.lemma_leading(s);
            }
            match g.line_limit(max_lines) {
                Some(lines) => {
                    lemma_mod_bound(start.line.0 - lines - g.top(), g.total_lines);
                },
                None => {
                    g.lemma_wrap_one(s + 1);
                    g.lemma_point_at(g.bounded(s + 1, Boundary::Wrap));
                    g.lemma_first(end);
                    if s + 1 < g.size() {
                        g.lemma_pos_injective(
                            end,
                            Point { line: Line((start.line.0 + 1) as i32), column: Column(0) },
                        );
                    }
                },
            }
            g.lemma_pos(end);
            assert(g.laid_out_at(e));
        },
    }
    quest.lemma_solvable();
}

} // verus!
