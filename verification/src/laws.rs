//! What holds of the searches as a whole.

use crate::automaton::Automaton;
use crate::cell::Flags;
use crate::grid::GridView;
use crate::index::{Boundary, Column, Direction, Line, Point, Side};
use crate::matches::{side_of, Series};
use crate::regex::RegexSearch;
use crate::scan::Scan;
use crate::search::Quest;
use crate::walk::Walk;
use vstd::arithmetic::div_mod::lemma_div_is_ordered;
use vstd::prelude::*;

verus! {

impl<A: Automaton> Scan<A> {
    /// Where nothing is confirmed, no character of the line has confirmed anything.
    proof fn lemma_nothing_confirmed(self, j: int, k: int)
        requires
            0 <= j <= k,
            forall|m: int| j < m <= k ==> !self.walk.breaks(m),
            self.confirmed(k) is None,
        ensures
            !self.confirms(j),
        decreases k,
    {
        if j < k {
            assert(!self.walk.breaks(k));
            self.lemma_nothing_confirmed(j, k - 1);
        }
    }

    /// The match that is confirmed is the one that the last character to confirm any has
    /// confirmed.
    proof fn lemma_last_confirmed(self, k: int) -> (c: int)
        requires
            0 <= k,
            self.confirmed(k) is Some,
        ensures
            0 <= c <= k,
            self.confirms(c),
            self.confirmed(k) == Some(if c > 0 {
                c - 1
            } else {
                0
            }),
            forall|m: int| c < m <= k ==> !self.walk.breaks(m) && !self.confirms(m),
        decreases k,
    {
        if self.confirms(k) {
            k
        } else {
            self.lemma_last_confirmed(k - 1)
        }
    }

    /// A line that ended without a match has confirmed nothing.
    proof fn lemma_line_without_match(self, j: int, b: int)
        requires
            0 <= j < b,
            forall|i: int| 0 <= i < b ==> !self.stops(i),
            self.walk.breaks(b),
        ensures
            !self.confirms(j),
        decreases b - j,
    {
        if exists|m: int| j < m < b && self.walk.breaks(m) {
            let m = choose|m: int| j < m < b && self.walk.breaks(m);
            self.lemma_line_without_match(j, m);
        } else {
            assert(!self.stops(b - 1));
            self.lemma_nothing_confirmed(j, b - 1);
        }
    }

    /// A search returns the first match: the lines before the one in which it stops hold none.
    pub proof fn law_first_match(self)
        requires
            self.halts(),
        ensures
            forall|j: int, b: int|
                0 <= j < b <= self.last() && #[trigger] self.walk.breaks(b)
                    ==> !#[trigger] self.confirms(j),
            forall|b: int|
                0 < b <= self.last() && #[trigger] self.walk.breaks(b) ==> !self.matches_at_end(
                    b - 1,
                ),
    {
        let last = self.last();
        assert(self.stops_first(last));
        assert forall|j: int, b: int|
            0 <= j < b <= last && #[trigger] self.walk.breaks(b) implies !#[trigger] self.confirms(
            j,
        ) by {
            self.lemma_line_without_match(j, b);
        }
        assert forall|b: int| 0 < b <= last && #[trigger] self.walk.breaks(
            b,
        ) implies !self.matches_at_end(b - 1) by {
            assert(!self.stops(b - 1));
        }
    }

    /// A search returns the side of the match which is farthest from its start: no character
    /// behind it, up to the one at which the search stops, ends a longer match. Where nothing is
    /// returned, no character of the whole walk has ended a match.
    pub proof fn law_farthest_side(self)
        requires
            self.halts(),
        ensures
            match self.outcome(self.last()) {
                Some(k) => {
                    &&& 0 <= k <= self.last()
                    &&& self.result() == Some(self.walk.point(k))
                    &&& {
                        ||| k == self.last() && self.matches_at_end(k)
                        ||| k < self.last() && self.confirms(k + 1)
                        ||| k == 0 && self.confirms(0)
                    }
                    &&& forall|j: int| k + 1 < j <= self.last() ==> !#[trigger] self.confirms(j)
                    &&& k < self.last() ==> self.dead(self.last()) || !self.matches_at_end(
                        self.last(),
                    )
                },
                None => {
                    &&& self.result() is None
                    &&& forall|j: int| 0 <= j <= self.last() ==> !#[trigger] self.confirms(j)
                    &&& self.dead(self.last()) || !self.matches_at_end(self.last())
                },
            },
    {
        let last = self.last();
        assert(self.stops_first(last));
        self.law_first_match();
        self.lemma_confirmed(last);
        match self.confirmed(last) {
            Some(_) => {
                let c = self.lemma_last_confirmed(last);
            },
            None => {
                assert forall|j: int| 0 <= j <= last implies !#[trigger] self.confirms(j) by {
                    if exists|b: int| j < b <= last && self.walk.breaks(b) {
                    } else {
                        self.lemma_nothing_confirmed(j, last);
                    }
                }
            },
        }
    }
}

impl Walk {
    /// Where the columns show that the walk goes over into another line, it does; and it does
    /// exactly behind the end of a line.
    pub proof fn lemma_goes_over(self, k: int)
        requires
            self.valid(),
        ensures
            self.goes_over(k) ==> self.enters_line(k),
            self.enters_line(k) ==> self.grid.line_wraps(self.upper_line(k)) == self.grid.has(
                self.upper_end(k),
                Flags::WRAPLINE,
            ),
            k > 0 ==> (self.enters_line(k) <==> self.grid.column_of(self.far(k - 1))
                == match self.direction {
                Direction::Right => self.grid.last_column(),
                Direction::Left => 0,
            }),
    {
        if k > 0 {
            let g = self.grid;
            self.lemma_on_grid(k - 1);
            self.lemma_on_grid(k);
            let far = g.point_at(self.far(k - 1));
            g.lemma_point_at(self.far(k - 1));
            g.lemma_point_at(self.near(k));
            g.lemma_last(far);
            g.lemma_first(far);
            let first = Point { line: Line(g.top() as i32), column: Column(0) };
            let last = Point {
                line: Line(g.bottom() as i32),
                column: Column(g.last_column() as usize),
            };
            g.lemma_pos(first);
            g.lemma_first(first);
            g.lemma_pos(last);
            g.lemma_last(last);
            // Within a line, the next column does not begin a line; behind its end, it does.
            if self.direction == Direction::Right {
                if far.column.0 < g.last_column() {
                    g.lemma_pos(
                        Point { line: far.line, column: Column((far.column.0 + 1) as usize) },
                    );
                } else if far.line.0 < g.bottom() {
                    g.lemma_pos(Point { line: Line((far.line.0 + 1) as i32), column: Column(0) });
                }
            } else {
                if far.column.0 > 0 {
                    g.lemma_pos(
                        Point { line: far.line, column: Column((far.column.0 - 1) as usize) },
                    );
                } else if far.line.0 > g.top() {
                    g.lemma_pos(
                        Point {
                            line: Line((far.line.0 - 1) as i32),
                            column: Column(g.last_column() as usize),
                        },
                    );
                }
            }
        }
    }

    /// Between two characters that take one column each, the text of a walk is cut exactly where
    /// the walk comes into another line and the upper one of the two lines does not go on in the
    /// lower.
    pub proof fn law_breaks_where_a_line_ends(self, k: int)
        requires
            self.valid(),
            self.near(k - 1) == self.far(k - 1) == self.read(k - 1),
            self.near(k) == self.far(k) == self.read(k),
        ensures
            self.breaks(k) == (self.enters_line(k) && !self.grid.line_wraps(self.upper_line(k))),
    {
        self.lemma_goes_over(k);
    }
}

impl<A: Automaton> Scan<A> {
    /// The origin is always included in the search: what is read begins with the character at the
    /// origin, as long as the walk goes over only from lines that go on in the next one, and the
    /// last character of each of these takes one column.
    pub proof fn law_origin_is_included(self, k: int)
        requires
            self.walk.valid(),
            0 <= k,
            forall|m: int|
                0 < m <= k && #[trigger] self.walk.goes_over(m) ==> self.walk.grid.line_wraps(
                    self.walk.upper_line(m),
                ) && self.walk.upper(m) == self.walk.upper_end(m),
        ensures
            self.walk.near(0) == self.walk.start,
            self.bytes(0).is_prefix_of(self.text(k)),
        decreases k,
    {
        if k > 0 {
            self.walk.lemma_goes_over(k);
            self.law_origin_is_included(k - 1);
            assert(self.text_before(k) == self.text(k - 1));
        } else {
            assert(self.text(0) =~= self.bytes(0));
        }
    }
}

impl Walk {
    /// Whether the walk has not gone around the grid up to character `k`.
    pub open spec fn straight(self, k: int) -> bool {
        match self.direction {
            Direction::Right => forall|i: int| 0 < i <= k ==> self.start < #[trigger] self.near(i),
            Direction::Left => forall|i: int| 0 < i <= k ==> #[trigger] self.near(i) < self.start,
        }
    }

    /// A walk that does not go around the grid goes in one direction only.
    proof fn lemma_straight(self, m: int, k: int)
        requires
            self.valid(),
            0 <= m <= k,
            self.straight(k),
        ensures
            self.direction == Direction::Right ==> self.start <= self.near(m) <= self.far(m)
                && self.near(m) <= self.near(k),
            self.direction == Direction::Left ==> self.near(k) <= self.near(m) && self.far(m)
                <= self.near(m) <= self.start,
        decreases k - m,
    {
        self.lemma_on_grid(m);
        self.grid.lemma_far_end(self.near(m), self.direction);
        if m > 0 {
            assert(self.near(m) != self.start);
        }
        if m < k {
            self.lemma_straight(m + 1, k);
            assert(self.near(m + 1) != self.start);
        }
    }
}

impl<A: Automaton> Scan<A> {
    /// Lines that go on in each other are one text: on a walk that does not go around the grid,
    /// what is read up to character `k` begins with the character at the origin, if each line from
    /// that of the origin up to that of character `k` goes on in the next one, and its last
    /// character takes one column.
    pub proof fn law_wrapped_lines_are_one_text(self, k: int)
        requires
            self.walk.valid(),
            0 <= k,
            self.walk.straight(k),
            ({
                let origin = self.walk.grid.line_of(self.walk.start);
                let line = self.walk.grid.line_of(self.walk.near(k));
                forall|l: int|
                    origin <= l < line || line <= l < origin
                        ==> #[trigger] self.walk.grid.line_wraps(l)
            }),
            forall|m: int|
                0 < m <= k && #[trigger] self.walk.goes_over(m) ==> self.walk.upper(m)
                    == self.walk.upper_end(m),
        ensures
            self.bytes(0).is_prefix_of(self.text(k)),
    {
        let walk = self.walk;
        let g = walk.grid;
        assert forall|m: int| 0 < m <= k && #[trigger] walk.goes_over(m) implies g.line_wraps(
            walk.upper_line(m),
        ) by {
            walk.lemma_goes_over(m);
            walk.lemma_straight(m - 1, k);
            walk.lemma_straight(m, k);
            walk.lemma_on_grid(m - 1);
            walk.lemma_on_grid(m);
            let far = walk.far(m - 1);
            let near = walk.near(m);
            g.lemma_point_at(far);
            g.lemma_point_at(near);
            g.lemma_last(g.point_at(far));
            g.lemma_first(g.point_at(far));
            if walk.direction == Direction::Right {
                lemma_div_is_ordered(walk.start, far, g.columns);
                lemma_div_is_ordered(near, walk.near(k), g.columns);
                g.lemma_first(g.point_at(near));
                g.lemma_pos(
                    Point {
                        line: Line((g.line_of(near) - 1) as i32),
                        column: Column(g.last_column() as usize),
                    },
                );
            } else {
                lemma_div_is_ordered(far, walk.start, g.columns);
                lemma_div_is_ordered(walk.near(k), near, g.columns);
                g.lemma_last(g.point_at(near));
                g.lemma_pos(
                    Point { line: Line((g.line_of(near) + 1) as i32), column: Column(0) },
                );
            }
        }
        self.law_origin_is_included(k);
    }
}

impl<A: Automaton> Scan<A> {
    /// Within a line whose characters take one column each, nothing is passed over and nothing is
    /// cut off: character `k` is the one in the column `k` columns from the origin, and the text
    /// up to it is the one before it with that character.
    pub proof fn law_line_is_one_text(self, k: int)
        requires
            self.walk.valid(),
            0 <= k,
            match self.walk.direction {
                Direction::Right => {
                    &&& self.walk.grid.column_of(self.walk.start) + k
                        <= self.walk.grid.last_column()
                    &&& forall|i: int|
                        self.walk.start <= i <= self.walk.start + k
                            ==> !#[trigger] self.walk.grid.has(i, Flags::WIDE_CHAR)
                    &&& forall|i: int|
                        self.walk.start <= i <= self.walk.start + k
                            ==> !#[trigger] self.walk.grid.has(i, Flags::LEADING_WIDE_CHAR_SPACER)
                },
                Direction::Left => {
                    &&& k <= self.walk.grid.column_of(self.walk.start)
                    &&& forall|i: int|
                        self.walk.start - k <= i <= self.walk.start
                            ==> !#[trigger] self.walk.grid.has(i, Flags::WIDE_CHAR_SPACER)
                },
            },
        ensures
            self.walk.read(k) == (match self.walk.direction {
                Direction::Right => self.walk.start + k,
                Direction::Left => self.walk.start - k,
            }),
            self.walk.far(k) == self.walk.read(k),
            self.text(k) == (if k > 0 {
                self.text(k - 1)
            } else {
                Seq::empty()
            }) + self.bytes(k),
        decreases k,
    {
        let g = self.walk.grid;
        let origin = g.point_at(self.walk.start);
        g.lemma_point_at(self.walk.start);
        let column = match self.walk.direction {
            Direction::Right => origin.column.0 + k,
            Direction::Left => origin.column.0 - k,
        };
        let p = Point { line: origin.line, column: Column(column as usize) };
        g.lemma_pos(p);
        g.lemma_last(p);
        g.lemma_first(p);
        if k > 0 {
            self.law_line_is_one_text(k - 1);
            assert(self.walk.near(k) == g.pos(p));
        }
    }
}

impl<A: Automaton> Scan<A> {
    /// After a dead state every state is dead.
    proof fn lemma_dead_run(self, bytes: Seq<u8>, more: Seq<u8>)
        requires
            self.automaton.wf(),
            self.automaton.dead(self.run(bytes)),
        ensures
            self.automaton.dead(self.run(bytes + more)),
        decreases more.len(),
    {
        if more.len() == 0 {
            assert(bytes + more =~= bytes);
        } else {
            self.lemma_dead_run(bytes, more.drop_last());
            assert((bytes + more).drop_last() =~= bytes + more.drop_last());
            self.automaton.dead_is_final(self.run(bytes + more.drop_last()), more.last());
        }
    }

    /// Nothing is lost where a search gives up: behind a dead character, no character of the line
    /// ends a match.
    pub proof fn law_dead_is_final(self, k: int, m: int)
        requires
            self.automaton.wf(),
            0 <= k < m,
            self.dead(k),
            forall|j: int| k < j <= m ==> !self.walk.breaks(j),
        ensures
            self.dead(m),
            !self.confirms(m),
            !self.matches_at_end(m),
        decreases m - k,
    {
        if k + 1 < m {
            self.law_dead_is_final(k, m - 1);
        }
        assert(!self.walk.breaks(m));
        let before = self.text_before(m);
        assert(before == self.text(m - 1));
        let first = self.bytes(m)[0];
        assert(before.push(first).drop_last() =~= before);
        self.automaton.dead_is_final(self.run(before), first);
        self.lemma_dead_run(before, self.bytes(m));
        self.automaton.dead_is_final(self.run(self.text(m)), first);
    }
}

/// A match to the right lies between the start and the end of the search, if these do not cut a
/// wide character: its end is not behind the end of the search, and its beginning is neither
/// behind its end nor before the start of the search.
pub proof fn law_match_right_within<A: Automaton>(
    g: GridView,
    regex: RegexSearch<A>,
    start: Point,
    end: Point,
)
    requires
        g.valid(),
        g.on_grid(start),
        g.on_grid(end),
        !g.passed_over(g.pos(end), Direction::Right),
        g.far_end(g.pos(end), Direction::Right) == g.pos(end),
        !g.passed_over(g.pos(start), Direction::Left),
        g.far_end(g.pos(start), Direction::Left) == g.pos(start),
    ensures
        g.match_right(regex, start, end) matches Some((match_start, match_end)) ==> {
            &&& g.on_grid(match_start)
            &&& g.on_grid(match_end)
            &&& g.distance(g.pos(match_end), g.pos(end), Direction::Right) <= g.distance(
                g.pos(start),
                g.pos(end),
                Direction::Right,
            )
            &&& g.distance(g.pos(match_start), g.pos(start), Direction::Left) <= g.distance(
                g.pos(match_end),
                g.pos(start),
                Direction::Left,
            )
        },
{
    g.lemma_pos(start);
    let scan = g.scan(start, end, Direction::Right, false, regex.dfa);
    scan.lemma_result_between(g.pos(end));
    if let Some(match_end) = scan.result() {
        g.lemma_pos(match_end);
        g.scan(match_end, start, Direction::Left, true, regex.rdfa).lemma_result_between(
            g.pos(start),
        );
    }
}

/// A match to the left lies between the start and the end of the search, if these do not cut a
/// wide character: its beginning is not before the end of the search, and its end is neither
/// before its beginning nor behind the start of the search.
pub proof fn law_match_left_within<A: Automaton>(
    g: GridView,
    regex: RegexSearch<A>,
    start: Point,
    end: Point,
)
    requires
        g.valid(),
        g.on_grid(start),
        g.on_grid(end),
        !g.passed_over(g.pos(end), Direction::Left),
        g.far_end(g.pos(end), Direction::Left) == g.pos(end),
        !g.passed_over(g.pos(start), Direction::Right),
        g.far_end(g.pos(start), Direction::Right) == g.pos(start),
    ensures
        g.match_left(regex, start, end) matches Some((match_start, match_end)) ==> {
            &&& g.on_grid(match_start)
            &&& g.on_grid(match_end)
            &&& g.distance(g.pos(match_start), g.pos(end), Direction::Left) <= g.distance(
                g.pos(start),
                g.pos(end),
                Direction::Left,
            )
            &&& g.distance(g.pos(match_end), g.pos(start), Direction::Right) <= g.distance(
                g.pos(match_start),
                g.pos(start),
                Direction::Right,
            )
        },
{
    g.lemma_pos(start);
    let scan = g.scan(start, end, Direction::Left, false, regex.rdfa);
    scan.lemma_result_between(g.pos(end));
    if let Some(match_start) = scan.result() {
        g.lemma_pos(match_start);
        g.scan(match_start, start, Direction::Right, true, regex.dfa).lemma_result_between(
            g.pos(start),
        );
    }
}

/// A series that has no next match never has one again.
pub proof fn law_series_is_fused<A: Automaton>(series: Series<A>, point: Point, done: bool)
    requires
        series.yields(point, done) is None,
    ensures
        ({
            let (next, over) = series.after(point, done);
            &&& next == point
            &&& series.yields(next, over) is None
        }),
{
}

/// A series is over with the match that ends right on its end, and with the search that begins
/// there.
pub proof fn law_series_is_over_at_its_end<A: Automaton>(
    series: Series<A>,
    point: Point,
    done: bool,
)
    requires
        ({
            ||| point == series.end
            ||| series.yields(point, done) matches Some((_, match_end)) && match_end == series.end
        }),
    ensures
        ({
            let (next, over) = series.after(point, done);
            series.yields(next, over) is None
        }),
{
}

/// In a grid with the usual layout, a series to the right goes on with the cell behind the match,
/// so that the next match does not begin with the same cells.
pub proof fn law_series_goes_on_behind_the_match<A: Automaton>(
    series: Series<A>,
    point: Point,
)
    requires
        series.direction == Direction::Right,
        series.grid.valid(),
        series.grid.laid_out(),
        series.grid.on_grid(point),
        series.halts(point),
    ensures
        series.found(point) matches Some((_, match_end)) ==> {
            &&& series.grid.on_grid(match_end)
            &&& series.grid.ends_character(series.grid.pos(match_end))
            &&& match_end == series.end || series.after(point, false).0 == series.grid.point_at(
                series.grid.bounded(series.grid.pos(match_end) + 1, Boundary::Wrap),
            )
        },
{
    let g = series.grid;
    g.lemma_pos(point);
    let scan = g.scan(point, series.end, Direction::Right, false, series.regex.dfa);
    scan.law_result_on_walk();
    if let Some(match_end) = scan.result() {
        let k = choose|k: int| 0 <= k <= scan.last() && match_end == #[trigger] scan.walk.point(k);
        scan.walk.lemma_on_grid(k);
        g.lemma_far_end_right(scan.walk.near(k));
    }
}

/// A series that has come to its end gives no match any more.
proof fn lemma_over_for_good<A: Automaton>(quest: Quest<A>, k: int, i: int)
    requires
        0 <= k <= i,
        quest.nth(k) is None,
    ensures
        quest.nth(i) is None,
    decreases i - k,
{
    if k < i {
        lemma_over_for_good(quest, k, i - 1);
        let (point, done) = quest.state(i - 1);
        law_series_is_fused(quest.series, point, done);
    }
}

/// What a quest finds is the first match of its series that lies beyond the origin. Where none
/// does, it is the first match of the series. Nothing is found only where the series has no match.
pub proof fn law_quest_finds_a_match<A: Automaton>(quest: Quest<A>)
    requires
        quest.solvable(),
    ensures
        quest.result() is None <==> quest.nth(0) is None,
        match quest.result() {
            Some(points) => {
                ||| quest.passes(points) && exists|k: int|
                    {
                        &&& 0 <= k
                        &&& #[trigger] quest.nth(k) == Some(points)
                        &&& forall|i: int|
                            0 <= i < k ==> (#[trigger] quest.nth(i) matches Some(other)
                                && !quest.passes(other))
                    }
                ||| quest.nth(0) == Some(points) && forall|i: int|
                    0 <= i ==> (#[trigger] quest.nth(i) matches Some(other) ==> !quest.passes(
                        other,
                    ))
            },
            None => forall|i: int| 0 <= i ==> #[trigger] quest.nth(i) is None,
        },
{
    let k = choose|k: int|
        quest.settles_first(k) && (forall|i: int| 0 <= i <= k ==> #[trigger] quest.can_step(i));
    quest.lemma_decisive(k);
    assert forall|i: int| 0 <= i < k implies (#[trigger] quest.nth(i) matches Some(other)
        && !quest.passes(other)) by {
        assert(!quest.settles(i));
    }
    if quest.nth(k) is None {
        assert forall|i: int| k <= i implies #[trigger] quest.nth(i) is None by {
            lemma_over_for_good(quest, k, i);
        }
    } else {
        assert(quest.nth(k) == quest.result());
    }
}

/// The next match to the right of `origin`, of the matches from the beginning of its line on, all
/// around the grid or up to the last column of the line `max_lines` below: the first one whose
/// wanted side stands above that line, or not before `origin`. Where there is none of that kind,
/// the first match; and nothing only where there is no match.
pub proof fn law_next_match_right<A: Automaton>(
    g: GridView,
    regex: RegexSearch<A>,
    origin: Point,
    side: Side,
    max_lines: Option<usize>,
)
    requires
        g.quest(regex, origin, Direction::Right, side, max_lines).solvable(),
    ensures
        ({
            let quest = g.quest(regex, origin, Direction::Right, side, max_lines);
            let start = g.start_right(origin);
            let beyond = |points: (Point, Point)|
                {
                    let point = side_of(points, side);
                    point.line.0 < start.line.0 || point.not_before(origin)
                };
            &&& quest.start == start
            &&& quest.series == (Series {
                grid: g,
                regex,
                end: g.end_right(start, max_lines),
                direction: Direction::Right,
            })
            &&& quest.result() is None <==> quest.nth(0) is None
            &&& quest.result() matches Some(points) ==> {
                ||| exists|k: int|
                    {
                        &&& 0 <= k
                        &&& #[trigger] quest.nth(k) == Some(points)
                        &&& beyond(points)
                        &&& forall|i: int|
                            0 <= i < k ==> (#[trigger] quest.nth(i) matches Some(other) && !beyond(
                                other,
                            ))
                    }
                ||| quest.nth(0) == Some(points) && forall|i: int|
                    0 <= i ==> (#[trigger] quest.nth(i) matches Some(other) ==> !beyond(other))
            }
        }),
{
    law_quest_finds_a_match(g.quest(regex, origin, Direction::Right, side, max_lines));
}

/// The next match to the left of `origin`, of the matches from the end of its line backwards, all
/// around the grid or up to the first column of the line `max_lines` above: the first one whose
/// wanted side stands below that line, or not behind `origin`. Where there is none of that kind,
/// the first match; and nothing only where there is no match.
pub proof fn law_next_match_left<A: Automaton>(
    g: GridView,
    regex: RegexSearch<A>,
    origin: Point,
    side: Side,
    max_lines: Option<usize>,
)
    requires
        g.quest(regex, origin, Direction::Left, side, max_lines).solvable(),
    ensures
        ({
            let quest = g.quest(regex, origin, Direction::Left, side, max_lines);
            let start = g.start_left(origin);
            let beyond = |points: (Point, Point)|
                {
                    let point = side_of(points, side);
                    point.line.0 > start.line.0 || origin.not_before(point)
                };
            &&& quest.start == start
            &&& quest.series == (Series {
                grid: g,
                regex,
                end: g.end_left(start, max_lines),
                direction: Direction::Left,
            })
            &&& quest.result() is None <==> quest.nth(0) is None
            &&& quest.result() matches Some(points) ==> {
                ||| exists|k: int|
                    {
                        &&& 0 <= k
                        &&& #[trigger] quest.nth(k) == Some(points)
                        &&& beyond(points)
                        &&& forall|i: int|
                            0 <= i < k ==> (#[trigger] quest.nth(i) matches Some(other) && !beyond(
                                other,
                            ))
                    }
                ||| quest.nth(0) == Some(points) && forall|i: int|
                    0 <= i ==> (#[trigger] quest.nth(i) matches Some(other) ==> !beyond(other))
            }
        }),
{
    law_quest_finds_a_match(g.quest(regex, origin, Direction::Left, side, max_lines));
}

/// A limit that the whole grid does not exceed does not change what is found.
pub proof fn law_large_limit_is_none<A: Automaton>(
    g: GridView,
    regex: RegexSearch<A>,
    origin: Point,
    direction: Direction,
    side: Direction,
    lines: usize,
)
    requires
        lines + 1 >= g.total_lines,
    ensures
        g.quest_next(regex, origin, direction, side, Some(lines)) == g.quest_next(
            regex,
            origin,
            direction,
            side,
            None,
        ),
{
}

/// The lines that go on in each other have the same first and the same last line, from whichever
/// of them these are sought.
pub proof fn law_lines_agree(g: GridView, line: int, other: int)
    requires
        g.top() <= line <= g.bottom(),
        g.first_line(line) <= other <= g.last_line(line),
    ensures
        g.first_line(other) == g.first_line(line),
        g.last_line(other) == g.last_line(line),
{
    lemma_same_first_line(g, line, other);
    lemma_same_last_line(g, line, other);
}

proof fn lemma_same_first_line(g: GridView, line: int, other: int)
    requires
        g.top() <= line <= g.bottom(),
        g.first_line(line) <= other <= g.last_line(line),
    ensures
        g.first_line(other) == g.first_line(line),
    decreases
            (if other > line {
                other - line
            } else {
                line - other
            }),
{
    g.lemma_first_line(line);
    g.lemma_last_line(line);
    if other > line {
        assert(g.line_wraps(other - 1));
        lemma_same_first_line(g, line, other - 1);
    } else if other < line {
        assert(g.line_wraps(other));
        g.lemma_first_line(other + 1);
        lemma_same_first_line(g, line, other + 1);
        assert(g.first_line(other + 1) == g.first_line(other));
    }
}

proof fn lemma_same_last_line(g: GridView, line: int, other: int)
    requires
        g.top() <= line <= g.bottom(),
        g.first_line(line) <= other <= g.last_line(line),
    ensures
        g.last_line(other) == g.last_line(line),
    decreases
            (if other > line {
                other - line
            } else {
                line - other
            }),
{
    g.lemma_first_line(line);
    g.lemma_last_line(line);
    if other > line {
        assert(g.line_wraps(other - 1));
        lemma_same_last_line(g, line, other - 1);
        assert(g.last_line(other - 1) == g.last_line(other));
    } else if other < line {
        assert(g.line_wraps(other));
        lemma_same_last_line(g, line, other + 1);
    }
}

/// The left end of a block: no cell from it up to `i` escapes or ends a line, and it cannot be
/// moved farther. To look for it again leads to the same cell.
pub proof fn law_block_start(g: GridView, i: int, escape_chars: Seq<char>)
    requires
        0 <= i < g.size(),
    ensures
        ({
            let s = g.block_start(i, escape_chars);
            &&& 0 <= s <= i
            &&& forall|j: int|
                s <= j < i ==> !#[trigger] g.escapes(j, escape_chars) && !g.ends_line(j)
            &&& s == 0 || g.escapes(s - 1, escape_chars) || g.ends_line(s - 1)
            &&& g.block_start(s, escape_chars) == s
        }),
    decreases i,
{
    if i > 0 && !g.escapes(i - 1, escape_chars) && !g.ends_line(i - 1) {
        law_block_start(g, i - 1, escape_chars);
    }
}

/// The right end of a block: no cell behind `i` up to it escapes, none before it ends a line, and
/// it cannot be moved farther.
pub proof fn law_block_end(g: GridView, i: int, escape_chars: Seq<char>)
    requires
        0 <= i < g.size(),
    ensures
        ({
            let e = g.block_end(i, escape_chars);
            &&& i <= e < g.size()
            &&& forall|j: int| i < j <= e ==> !#[trigger] g.escapes(j, escape_chars)
            &&& forall|j: int| i < j < e ==> !#[trigger] g.ends_line(j)
            &&& e + 1 == g.size() || g.escapes(e + 1, escape_chars) || i < e && g.ends_line(e)
        }),
    decreases g.size() - i,
{
    if i + 1 < g.size() && !g.escapes(i + 1, escape_chars) && !g.ends_line(i + 1) {
        law_block_end(g, i + 1, escape_chars);
    }
}

/// To look for the right end of a block again leads to the same cell, unless the block goes up to
/// the end of a line and the next line begins another one.
pub proof fn law_block_end_is_stable(g: GridView, i: int, escape_chars: Seq<char>)
    requires
        0 <= i < g.size(),
        ({
            let e = g.block_end(i, escape_chars);
            !g.ends_line(e) || e + 1 == g.size() || g.escapes(e + 1, escape_chars)
        }),
    ensures
        ({
            let e = g.block_end(i, escape_chars);
            g.block_end(e, escape_chars) == e
        }),
{
    law_block_end(g, i, escape_chars);
}

} // verus!
