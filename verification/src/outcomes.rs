//! How the results of the searches hang together: a match is made of two searches, an iterator
//! goes from match to match, and the next match is one of those an iterator gives.

use crate::automaton::{dfa_build, dfa_finish, dfa_matches, dfa_next, dfa_start, Automaton, Dense};
use crate::cell::Flags;
use crate::grid::GridView;
use crate::index::{Direction, Point, Side};
use crate::matches::{is_found, Match, RegexIter, Series};
use crate::plain::{
    begins_line, beyond, cell_count, finishes_line, index, is_place, limits, narrow, part_of_wide,
    runs_on,
};
use crate::progress::{law_search_left_ends, law_search_next_ends, law_search_right_ends};
use crate::regex::{char_is_uppercase, has_uppercase, RegexSearch};
use crate::search::Quest;
use crate::term::Term;
use crate::utf8::encode_utf8;
use regex_automata::dfa::dense::{BuildError, DFA};
use vstd::arithmetic::div_mod::{
    lemma_fundamental_div_mod, lemma_fundamental_div_mod_converse, lemma_mod_bound,
    lemma_mod_multiples_basic,
};
use vstd::prelude::*;
use vstd::utf8::encode_scalar;

verus! {

/// Whether `m` is the match from `first` to `last`.
pub open spec fn spans(m: Match, first: Point, last: Point) -> bool {
    m@.start == first && m@.end == last && !m@.exhausted
}

/// Whether two searches found the same.
pub open spec fn same_match(one: Option<Match>, other: Option<Match>) -> bool {
    match (one, other) {
        (Some(m), Some(n)) => spans(m, n@.start, n@.end),
        (None, None) => true,
        _ => false,
    }
}

/// A match to the right is what two searches find: its last cell the one from the start to the
/// end with the forward automaton, and its first cell the one from there back to the start, with
/// the backward automaton and nothing passed over. If one of them finds nothing, there is none.
pub proof fn law_regex_search_right<T, A: Automaton>(
    term: &Term<T>,
    regex: &RegexSearch<A>,
    start: Point,
    end: Point,
    last: Option<Point>,
    first: Option<Point>,
    r: Option<Match>,
)
    requires
        call_ensures(
            Term::<T>::regex_search::<A>,
            (term, start, end, Direction::Right, false, &regex.dfa),
            last,
        ),
        last matches Some(p) ==> call_ensures(
            Term::<T>::regex_search::<A>,
            (term, p, start, Direction::Left, true, &regex.rdfa),
            first,
        ),
        call_ensures(Term::<T>::regex_search_right::<A>, (term, regex, start, end), r),
    ensures
        r is Some <==> last is Some && first is Some,
        r matches Some(m) ==> spans(m, first.unwrap(), last.unwrap()),
{
}

/// A match to the left is what two searches find: its first cell the one from the start to the end
/// with the backward automaton, and its last cell the one from there back to the start, with the
/// forward automaton and nothing passed over. If one of them finds nothing, there is none.
pub proof fn law_regex_search_left<T, A: Automaton>(
    term: &Term<T>,
    regex: &RegexSearch<A>,
    start: Point,
    end: Point,
    first: Option<Point>,
    last: Option<Point>,
    r: Option<Match>,
)
    requires
        call_ensures(
            Term::<T>::regex_search::<A>,
            (term, start, end, Direction::Left, false, &regex.rdfa),
            first,
        ),
        first matches Some(p) ==> call_ensures(
            Term::<T>::regex_search::<A>,
            (term, p, start, Direction::Right, true, &regex.dfa),
            last,
        ),
        call_ensures(Term::<T>::regex_search_left::<A>, (term, regex, start, end), r),
    ensures
        r is Some <==> first is Some && last is Some,
        r matches Some(m) ==> spans(m, first.unwrap(), last.unwrap()),
{
}

/// The side of a match.
pub proof fn law_match_side<T>(m: &Match, side: Side, r: Point)
    requires
        call_ensures(Term::<T>::match_side, (m, side), r),
    ensures
        side == Direction::Right ==> r == m@.end,
        side == Direction::Left ==> r == m@.start,
{
}

/// An iterator gives the match that is found from where it stands, until it is over. It is over
/// only when a search began at its end, or a match ended there. Otherwise it goes on next to the
/// last character of the match, or stays where it is if there was none.
pub proof fn law_iterator_steps<T, A: Automaton>(
    term: &Term<T>,
    regex: &RegexSearch<A>,
    end: Point,
    direction: Direction,
    point: Point,
    found: Option<Match>,
)
    requires
        match direction {
            Direction::Right => call_ensures(
                Term::<T>::regex_search_right::<A>,
                (term, regex, point, end),
                found,
            ),
            Direction::Left => call_ensures(
                Term::<T>::regex_search_left::<A>,
                (term, regex, point, end),
                found,
            ),
        },
    ensures
        ({
            let g = term.grid@;
            let series = Series { grid: g, regex: *regex, end, direction };
            let (next, over) = series.after(point, false);
            &&& series.yields(point, true) is None
            &&& series.after(point, true) == (point, true)
            &&& match found {
                Some(m) => {
                    &&& series.yields(point, false) == Some((m@.start, m@.end))
                    &&& over <==> point == end || m@.end == end
                    &&& m@.end == end ==> next == end
                    &&& m@.end != end ==> next == g.point_at(
                        match direction {
                            Direction::Right => (index(g, g.expanded(m@.end, direction)) + 1)
                                % cell_count(g),
                            Direction::Left => (index(g, g.expanded(m@.end, direction)) - 1)
                                % cell_count(g),
                        },
                    )
                },
                None => {
                    &&& series.yields(point, false) is None
                    &&& over <==> point == end
                    &&& next == point
                },
            }
        }),
{
}

/// Whether a search for a whole match from `start` to `end` returned `r`.
pub open spec fn searched<T, A: Automaton>(
    term: &Term<T>,
    regex: &RegexSearch<A>,
    start: Point,
    end: Point,
    direction: Direction,
    r: Option<Match>,
) -> bool {
    match direction {
        Direction::Right => call_ensures(
            Term::<T>::regex_search_right::<A>,
            (term, regex, start, end),
            r,
        ),
        Direction::Left => call_ensures(
            Term::<T>::regex_search_left::<A>,
            (term, regex, start, end),
            r,
        ),
    }
}

/// Whether one search after the other returned the matches `found`: each began next to the last
/// character of the match before it, and neither a search began nor a match ended at `end`.
pub open spec fn chain<T, A: Automaton>(
    term: &Term<T>,
    regex: &RegexSearch<A>,
    end: Point,
    direction: Direction,
    starts: Seq<Point>,
    found: Seq<Match>,
) -> bool {
    let g = term.grid@;
    &&& starts.len() == found.len() + 1
    &&& forall|i: int|
        0 <= i < found.len() ==> {
            let m = #[trigger] found[i];
            &&& searched(term, regex, starts[i], end, direction, Some(m))
            &&& starts[i] != end
            &&& m@.end != end
            &&& is_place(g, starts[i + 1])
            &&& index(g, starts[i + 1]) == (index(g, g.expanded(m@.end, direction)) + (
            match direction {
                Direction::Right => 1int,
                Direction::Left => -1,
            })) % cell_count(g)
        }
}

/// Whether `r` is the first match beyond the origin, or the first one of all if there is none,
/// where the searches of a chain found `found`, none of them beyond the origin, and then `last`.
pub open spec fn first_beyond(
    origin: Point,
    direction: Direction,
    side: Side,
    end: Point,
    starts: Seq<Point>,
    found: Seq<Match>,
    last: Option<Match>,
    r: Option<Match>,
) -> bool {
    let first = if found.len() > 0 {
        Some(found[0])
    } else {
        last
    };
    match last {
        None => same_match(r, first),
        Some(m) => {
            let point = match side {
                Direction::Right => m@.end,
                Direction::Left => m@.start,
            };
            &&& beyond(starts[0], origin, direction, point) ==> same_match(r, last)
            &&& !beyond(starts[0], origin, direction, point) && (starts.last() == end || m@.end
                == end) ==> same_match(r, first)
        },
    }
}

/// Whether no match of `found` lies beyond the origin with its side `side`.
pub open spec fn none_beyond(
    start: Point,
    origin: Point,
    direction: Direction,
    side: Side,
    found: Seq<Match>,
) -> bool {
    forall|i: int|
        0 <= i < found.len() ==> {
            let m = #[trigger] found[i];
            !beyond(
                start,
                origin,
                direction,
                match side {
                    Direction::Right => m@.end,
                    Direction::Left => m@.start,
                },
            )
        }
}

proof fn lemma_begins_line(g: GridView, line: int, p: Point)
    requires
        begins_line(g, line, p),
    ensures
        p.line.0 == g.first_line(line),
{
    g.lemma_first_line(line);
    let f = g.first_line(line);
    if p.line.0 < f {
        assert(runs_on(g, f - 1));
    } else if p.line.0 > f {
        assert(g.line_wraps(p.line.0 - 1));
    }
}

proof fn lemma_finishes_line(g: GridView, line: int, p: Point)
    requires
        finishes_line(g, line, p),
    ensures
        p.line.0 == g.last_line(line),
{
    g.lemma_last_line(line);
    let l = g.last_line(line);
    if p.line.0 > l {
        assert(runs_on(g, l));
    } else if p.line.0 < l {
        assert(g.line_wraps(p.line.0 as int));
    }
}

proof fn lemma_limits(
    g: GridView,
    start: Point,
    direction: Direction,
    max_lines: Option<usize>,
    end: Point,
)
    requires
        g.valid(),
        limits(g, start, direction, max_lines, end),
    ensures
        direction == Direction::Right ==> end == g.end_right(start, max_lines),
        direction == Direction::Left ==> end == g.end_left(start, max_lines),
{
    g.lemma_pos(end);
    if let Some(lines) = max_lines {
        let t = g.total_lines;
        let line = match direction {
            Direction::Right => start.line.0 + lines,
            Direction::Left => start.line.0 - lines,
        };
        let x = line - end.line.0;
        lemma_fundamental_div_mod(x, t);
        let q = x / t;
        assert(line - g.top() == q * t + (end.line.0 - g.top())) by (nonlinear_arith)
            requires
                line - end.line.0 == t * q,
        ;
        lemma_fundamental_div_mod_converse(line - g.top(), t, q, end.line.0 - g.top());
    }
}

/// A quest asks the searches of a chain one after the other.
proof fn lemma_chain<T, A: Automaton>(
    term: &Term<T>,
    regex: &RegexSearch<A>,
    quest: Quest<A>,
    starts: Seq<Point>,
    found: Seq<Match>,
    i: int,
)
    requires
        term.grid.wf(),
        quest.series.grid == term.grid@,
        quest.series.regex == *regex,
        chain(term, regex, quest.series.end, quest.series.direction, starts, found),
        quest.start == starts[0],
        0 <= i < starts.len(),
    ensures
        quest.state(i) == (starts[i], false),
        i < found.len() ==> quest.nth(i) == Some((found[i]@.start, found[i]@.end)),
    decreases i,
{
    let g = term.grid@;
    if i > 0 {
        lemma_chain(term, regex, quest, starts, found, i - 1);
        let m = found[i - 1];
        g.lemma_pos(starts[i]);
    }
    if i < found.len() {
        let m = found[i];
    }
}

proof fn lemma_searched<T, A: Automaton>(
    term: &Term<T>,
    regex: &RegexSearch<A>,
    series: Series<A>,
    point: Point,
    r: Option<Match>,
)
    requires
        series.grid == term.grid@,
        series.regex == *regex,
        searched(term, regex, point, series.end, series.direction, r),
    ensures
        is_found(r, series.found(point)),
{
}

/// None of the matches of a chain decides the quest.
proof fn lemma_undecided<T, A: Automaton>(
    term: &Term<T>,
    regex: &RegexSearch<A>,
    quest: Quest<A>,
    starts: Seq<Point>,
    found: Seq<Match>,
)
    requires
        term.grid.wf(),
        quest.series.grid == term.grid@,
        quest.series.regex == *regex,
        chain(term, regex, quest.series.end, quest.series.direction, starts, found),
        quest.start == starts[0],
        none_beyond(starts[0], quest.origin, quest.series.direction, quest.side, found),
    ensures
        forall|i: int| 0 <= i < found.len() ==> !#[trigger] quest.settles(i),
        found.len() > 0 ==> quest.nth(0) == Some((found[0]@.start, found[0]@.end)),
        quest.state(found.len() as int) == (starts.last(), false),
{
    lemma_chain(term, regex, quest, starts, found, found.len() as int);
    lemma_chain(term, regex, quest, starts, found, 0);
    assert forall|i: int| 0 <= i < found.len() implies !#[trigger] quest.settles(i) by {
        lemma_chain(term, regex, quest, starts, found, i);
        let m = found[i];
    }
}

/// What a quest returns where the matches before the `n`th do not decide it.
proof fn lemma_decided<A: Automaton>(quest: Quest<A>, n: int, point: Point)
    requires
        0 <= n,
        quest.state(n) == (point, false),
        forall|i: int| 0 <= i < n ==> !#[trigger] quest.settles(i),
    ensures
        n == 0 ==> quest.nth(0) == quest.series.found(point),
        match quest.series.found(point) {
            None => quest.result() == quest.nth(0),
            Some(points) => {
                &&& quest.passes(points) ==> quest.result() == Some(points)
                &&& !quest.passes(points) && (point == quest.series.end || points.1
                    == quest.series.end) ==> quest.result() == quest.nth(0)
            },
        },
{
    match quest.series.found(point) {
        None => {
            assert(quest.settles_first(n));
            quest.lemma_decisive(n);
        },
        Some(points) => {
            assert(quest.nth(n) == Some(points));
            if quest.passes(points) {
                assert(quest.settles_first(n));
                quest.lemma_decisive(n);
            } else if point == quest.series.end || points.1 == quest.series.end {
                assert(!quest.settles(n));
                assert(quest.state(n + 1).1);
                assert(quest.nth(n + 1) is None);
                assert(quest.settles_first(n + 1));
                quest.lemma_decisive(n + 1);
            }
        },
    }
}

proof fn lemma_first_beyond<T, A: Automaton>(
    term: &Term<T>,
    regex: &RegexSearch<A>,
    quest: Quest<A>,
    starts: Seq<Point>,
    found: Seq<Match>,
    last: Option<Match>,
    r: Option<Match>,
)
    requires
        term.grid.wf(),
        quest.series.grid == term.grid@,
        quest.series.regex == *regex,
        chain(term, regex, quest.series.end, quest.series.direction, starts, found),
        quest.start == starts[0],
        none_beyond(starts[0], quest.origin, quest.series.direction, quest.side, found),
        searched(
            term,
            regex,
            starts.last(),
            quest.series.end,
            quest.series.direction,
            last,
        ),
        is_found(r, quest.result()),
    ensures
        first_beyond(
            quest.origin,
            quest.series.direction,
            quest.side,
            quest.series.end,
            starts,
            found,
            last,
            r,
        ),
{
    let n = found.len() as int;
    lemma_undecided(term, regex, quest, starts, found);
    lemma_searched(term, regex, quest.series, starts.last(), last);
    lemma_decided(quest, n, starts.last());
}

/// The next match is looked for from the beginning of the line of the origin on, or from its end
/// when going left, across linewraps, and up to the limit; a limit of as many lines as there are
/// counts for nothing. It is the first match beyond the origin that the searches find one after the
/// other, or else the first one that they find.
pub proof fn law_search_next<T, A: Automaton>(
    term: &Term<T>,
    regex: &RegexSearch<A>,
    origin: Point,
    direction: Direction,
    side: Side,
    max_lines: Option<usize>,
    from: Point,
    end: Point,
    starts: Seq<Point>,
    found: Seq<Match>,
    last: Option<Match>,
    r: Option<Match>,
)
    requires
        term.grid.wf(),
        is_place(term.grid@, origin),
        call_ensures(Term::<T>::expand_wide, (term, origin, direction), from),
        chain(term, regex, end, direction, starts, found),
        match direction {
            Direction::Right => begins_line(term.grid@, from.line.0 as int, starts[0]),
            Direction::Left => finishes_line(term.grid@, from.line.0 as int, starts[0]),
        },
        limits(
            term.grid@,
            starts[0],
            direction,
            if max_lines matches Some(lines) && lines + 1 < term.grid@.total_lines {
                max_lines
            } else {
                None
            },
            end,
        ),
        none_beyond(starts[0], from, direction, side, found),
        searched(term, regex, starts.last(), end, direction, last),
        call_ensures(
            Term::<T>::search_next::<A>,
            (term, regex, origin, direction, side, max_lines),
            r,
        ),
    ensures
        first_beyond(from, direction, side, end, starts, found, last, r),
{
    let g = term.grid@;
    let limit = g.line_limit(max_lines);
    match direction {
        Direction::Right => lemma_begins_line(g, from.line.0 as int, starts[0]),
        Direction::Left => lemma_finishes_line(g, from.line.0 as int, starts[0]),
    }
    lemma_limits(g, starts[0], direction, limit, end);
    let quest = g.quest_next(*regex, origin, direction, side, max_lines);
    lemma_first_beyond(term, regex, quest, starts, found, last, r);
}

/// The same of the search to the right alone, which takes the origin and the limit as they are.
pub proof fn law_next_match_to_the_right<T, A: Automaton>(
    term: &Term<T>,
    regex: &RegexSearch<A>,
    origin: Point,
    side: Side,
    max_lines: Option<usize>,
    end: Point,
    starts: Seq<Point>,
    found: Seq<Match>,
    last: Option<Match>,
    r: Option<Match>,
)
    requires
        term.grid.wf(),
        chain(term, regex, end, Direction::Right, starts, found),
        begins_line(term.grid@, origin.line.0 as int, starts[0]),
        limits(term.grid@, starts[0], Direction::Right, max_lines, end),
        none_beyond(starts[0], origin, Direction::Right, side, found),
        searched(term, regex, starts.last(), end, Direction::Right, last),
        call_ensures(Term::<T>::next_match_right::<A>, (term, regex, origin, side, max_lines), r),
    ensures
        first_beyond(origin, Direction::Right, side, end, starts, found, last, r),
{
    let g = term.grid@;
    lemma_begins_line(g, origin.line.0 as int, starts[0]);
    lemma_limits(g, starts[0], Direction::Right, max_lines, end);
    let quest = g.quest(*regex, origin, Direction::Right, side, max_lines);
    lemma_first_beyond(term, regex, quest, starts, found, last, r);
}

/// The same of the search to the left alone, which takes the origin and the limit as they are.
pub proof fn law_next_match_to_the_left<T, A: Automaton>(
    term: &Term<T>,
    regex: &RegexSearch<A>,
    origin: Point,
    side: Side,
    max_lines: Option<usize>,
    end: Point,
    starts: Seq<Point>,
    found: Seq<Match>,
    last: Option<Match>,
    r: Option<Match>,
)
    requires
        term.grid.wf(),
        chain(term, regex, end, Direction::Left, starts, found),
        finishes_line(term.grid@, origin.line.0 as int, starts[0]),
        limits(term.grid@, starts[0], Direction::Left, max_lines, end),
        none_beyond(starts[0], origin, Direction::Left, side, found),
        searched(term, regex, starts.last(), end, Direction::Left, last),
        call_ensures(Term::<T>::next_match_left::<A>, (term, regex, origin, side, max_lines), r),
    ensures
        first_beyond(origin, Direction::Left, side, end, starts, found, last, r),
{
    let g = term.grid@;
    lemma_finishes_line(g, origin.line.0 as int, starts[0]);
    lemma_limits(g, starts[0], Direction::Left, max_lines, end);
    let quest = g.quest(*regex, origin, Direction::Left, side, max_lines);
    lemma_first_beyond(term, regex, quest, starts, found, last, r);
}

/// Where the next match to the right is looked for: from the beginning of the line of the origin
/// across linewraps, up to the limit.
pub proof fn law_range_right<T>(
    term: &Term<T>,
    origin: Point,
    max_lines: Option<usize>,
    r: (Point, Point),
)
    requires
        term.grid.wf(),
        term.grid@.screen_lines - term.grid@.total_lines <= origin.line.0
            <= term.grid@.screen_lines,
        call_ensures(Term::<T>::range_right, (term, origin, max_lines), r),
    ensures
        begins_line(term.grid@, origin.line.0 as int, r.0),
        limits(term.grid@, r.0, Direction::Right, max_lines, r.1),
{
    let g = term.grid@;
    g.lemma_first_line(origin.line.0 as int);
    assert forall|l: int| r.0.line.0 <= l < origin.line.0 implies #[trigger] runs_on(g, l) by {
        assert(g.line_wraps(l));
    }
    lemma_wrapped(g, r.0, max_lines);
}

/// Where the next match to the left is looked for: from the end of the line of the origin across
/// linewraps, up to the limit.
pub proof fn law_range_left<T>(
    term: &Term<T>,
    origin: Point,
    max_lines: Option<usize>,
    r: (Point, Point),
)
    requires
        term.grid.wf(),
        term.grid@.screen_lines - term.grid@.total_lines <= origin.line.0
            <= term.grid@.screen_lines,
        call_ensures(Term::<T>::range_left, (term, origin, max_lines), r),
    ensures
        finishes_line(term.grid@, origin.line.0 as int, r.0),
        limits(term.grid@, r.0, Direction::Left, max_lines, r.1),
{
    let g = term.grid@;
    g.lemma_last_line(origin.line.0 as int);
    assert forall|l: int| origin.line.0 <= l < r.0.line.0 implies #[trigger] runs_on(g, l) by {
        assert(g.line_wraps(l));
    }
    lemma_wrapped(g, r.0, max_lines);
}

proof fn lemma_wrapped(g: GridView, start: Point, max_lines: Option<usize>)
    requires
        g.valid(),
    ensures
        0 < g.size(),
        is_place(g, g.end_right(start, max_lines)),
        is_place(g, g.end_left(start, max_lines)),
        limits(g, start, Direction::Right, max_lines, g.end_right(start, max_lines)),
        limits(g, start, Direction::Left, max_lines, g.end_left(start, max_lines)),
{
    let t = g.total_lines;
    assert(0 < t * g.columns) by (nonlinear_arith)
        requires
            1 <= t,
            1 <= g.columns,
    ;
    match max_lines {
        Some(lines) => {
            lemma_same_remainder(start.line.0 + lines - g.top(), t);
            lemma_same_remainder(start.line.0 - lines - g.top(), t);
        },
        None => {
            lemma_mod_bound(g.pos(start) - 1, g.size());
            lemma_mod_bound(g.pos(start) + 1, g.size());
            g.lemma_point_at((g.pos(start) - 1) % g.size());
            g.lemma_point_at((g.pos(start) + 1) % g.size());
        },
    }
}

proof fn lemma_same_remainder(x: int, t: int)
    requires
        0 < t,
    ensures
        0 <= x % t < t,
        (x - x % t) % t == 0,
{
    lemma_mod_bound(x, t);
    lemma_fundamental_div_mod(x, t);
    let q = x / t;
    assert(x - x % t == q * t) by (nonlinear_arith)
        requires
            x == t * q + x % t,
    ;
    lemma_mod_multiples_basic(q, t);
}

proof fn lemma_narrow(g: GridView, i: int)
    requires
        g.valid(),
        narrow(g),
        0 <= i < g.size(),
    ensures
        g.laid_out_at(i),
        !g.takes_next(i),
        !g.has(i, Flags::LEADING_WIDE_CHAR_SPACER),
        !g.passed_over(i, Direction::Right),
        !g.passed_over(i, Direction::Left),
{
    assert(!part_of_wide(g, i));
    if i > 0 {
        assert(!part_of_wide(g, i - 1));
    }
}

/// Where every character takes one column, every search can be asked for, between any two places,
/// and the guarded ones answer.
pub proof fn law_every_narrow_search_ends<T, A: Automaton>(
    term: &Term<T>,
    regex: &RegexSearch<A>,
    start: Point,
    end: Point,
    direction: Direction,
    side: Side,
    max_lines: Option<usize>,
)
    requires
        term.grid.wf(),
        narrow(term.grid@),
        is_place(term.grid@, start),
        is_place(term.grid@, end),
        max_lines matches Some(lines) ==> lines < usize::MAX,
    ensures
        ({
            let g = term.grid@;
            &&& g.halts_right(*regex, start, end)
            &&& g.halts_left(*regex, start, end)
            &&& (Series { grid: g, regex: *regex, end, direction }).can_step(start, false)
            &&& g.can_expand(start, direction)
            &&& g.quest_next(*regex, start, direction, side, max_lines).solvable()
            &&& g.surely_ends_right(start, end)
            &&& g.surely_ends_left(start, end)
            &&& g.surely_ends_next(start, direction, max_lines)
        }),
{
    let g = term.grid@;
    g.lemma_pos(start);
    g.lemma_pos(end);
    assert forall|i: int| 0 <= i < g.size() implies #[trigger] g.laid_out_at(i) by {
        lemma_narrow(g, i);
    }
    lemma_narrow(g, g.pos(start));
    lemma_narrow(g, g.pos(end));
    law_search_right_ends(g, *regex, start, end);
    law_search_left_ends(g, *regex, start, end);
    let quest = g.quest_next(*regex, start, direction, side, max_lines);
    lemma_wrapped(g, quest.start, g.line_limit(max_lines));
    g.lemma_pos(quest.series.end);
    lemma_narrow(g, g.pos(quest.series.end));
    law_search_next_ends(g, *regex, start, direction, side, max_lines);
    let series = Series { grid: g, regex: *regex, end, direction };
    if let Some((first, last)) = series.found(start) {
        match direction {
            Direction::Right => {
                g.scan(start, end, direction, false, regex.dfa).law_result_on_walk();
            },
            Direction::Left => {
                let scan = g.scan(start, end, direction, false, regex.rdfa);
                scan.law_result_on_walk();
                g.lemma_pos(first);
                g.scan(first, start, Direction::Right, true, regex.dfa).law_result_on_walk();
            },
        }
        g.lemma_pos(last);
        lemma_narrow(g, g.pos(last));
        assert(!part_of_wide(g, g.pos(last)));
    }
}

/// Where every character takes one column, every operation is defined for every place.
pub proof fn law_every_narrow_search_is_defined<T, A: Automaton>(
    term: &Term<T>,
    regex: &RegexSearch<A>,
    start: Point,
    end: Point,
    direction: Direction,
    side: Side,
    anchored: bool,
    max_lines: Option<usize>,
)
    requires
        term.grid.wf(),
        regex.wf(),
        narrow(term.grid@),
        is_place(term.grid@, start),
        is_place(term.grid@, end),
        max_lines matches Some(lines) ==> lines < usize::MAX,
    ensures
        call_requires(
            Term::<T>::regex_search::<A>,
            (term, start, end, direction, anchored, &regex.dfa),
        ),
        call_requires(
            Term::<T>::regex_search::<A>,
            (term, start, end, direction, anchored, &regex.rdfa),
        ),
        call_requires(Term::<T>::regex_search_right::<A>, (term, regex, start, end)),
        call_requires(Term::<T>::regex_search_left::<A>, (term, regex, start, end)),
        call_requires(
            Term::<T>::search_next::<A>,
            (term, regex, start, direction, side, max_lines),
        ),
{
    let g = term.grid@;
    law_every_narrow_search_ends(term, regex, start, end, direction, side, max_lines);
    g.lemma_pos(start);
    g.lemma_pos(end);
    lemma_narrow(g, g.pos(end));
    g.scan(start, end, direction, anchored, regex.dfa).law_search_stops();
    g.scan(start, end, direction, anchored, regex.rdfa).law_search_stops();
}

/// The guarded searches answer with what the others return.
pub proof fn law_guarded_searches<T, A: Automaton>(
    term: &Term<T>,
    regex: &RegexSearch<A>,
    start: Point,
    end: Point,
    found: Option<Option<Match>>,
    r: Option<Match>,
)
    requires
        ({
            ||| call_ensures(
                Term::<T>::try_regex_search_right::<A>,
                (term, regex, start, end),
                found,
            ) && call_ensures(Term::<T>::regex_search_right::<A>, (term, regex, start, end), r)
            ||| call_ensures(
                Term::<T>::try_regex_search_left::<A>,
                (term, regex, start, end),
                found,
            ) && call_ensures(Term::<T>::regex_search_left::<A>, (term, regex, start, end), r)
        }),
    ensures
        found matches Some(m) ==> same_match(m, r),
        term.grid.wf() && narrow(term.grid@) && is_place(term.grid@, start) && is_place(
            term.grid@,
            end,
        ) ==> found is Some,
{
    if term.grid.wf() && narrow(term.grid@) && is_place(term.grid@, start) && is_place(
        term.grid@,
        end,
    ) {
        law_every_narrow_search_ends(
            term,
            regex,
            start,
            end,
            Direction::Right,
            Direction::Right,
            None,
        );
    }
}

/// The guarded search for the next match answers with what the other returns.
pub proof fn law_guarded_search_next<T, A: Automaton>(
    term: &Term<T>,
    regex: &RegexSearch<A>,
    origin: Point,
    direction: Direction,
    side: Side,
    max_lines: Option<usize>,
    found: Option<Option<Match>>,
    r: Option<Match>,
)
    requires
        term.grid.wf(),
        max_lines matches Some(lines) ==> lines < usize::MAX,
        call_ensures(
            Term::<T>::try_search_next::<A>,
            (term, regex, origin, direction, side, max_lines),
            found,
        ),
        call_ensures(
            Term::<T>::search_next::<A>,
            (term, regex, origin, direction, side, max_lines),
            r,
        ),
    ensures
        found matches Some(m) ==> same_match(m, r),
        narrow(term.grid@) && is_place(term.grid@, origin) ==> found is Some,
{
    if narrow(term.grid@) && is_place(term.grid@, origin) {
        law_every_narrow_search_ends(term, regex, origin, origin, direction, side, max_lines);
    }
}

/// The guarded search with an automaton answers with what the other returns.
pub proof fn law_guarded_regex_search<T, A: Automaton>(
    term: &Term<T>,
    start: Point,
    end: Point,
    direction: Direction,
    anchored: bool,
    regex: &A,
    found: Option<Option<Point>>,
    r: Option<Point>,
)
    requires
        term.grid.wf(),
        call_ensures(
            Term::<T>::try_regex_search::<A>,
            (term, start, end, direction, anchored, regex),
            found,
        ),
        call_ensures(
            Term::<T>::regex_search::<A>,
            (term, start, end, direction, anchored, regex),
            r,
        ),
    ensures
        found matches Some(p) ==> p == r,
        narrow(term.grid@) && is_place(term.grid@, start) && is_place(term.grid@, end)
            ==> found is Some,
{
    if narrow(term.grid@) && is_place(term.grid@, start) && is_place(term.grid@, end) {
        term.grid@.lemma_pos(end);
        lemma_narrow(term.grid@, term.grid@.pos(end));
    }
}

/// An iterator begins at its start.
pub proof fn law_iterator_begins<'a, T, A: Automaton>(
    start: Point,
    end: Point,
    direction: Direction,
    term: &'a Term<T>,
    regex: &'a RegexSearch<A>,
    iter: RegexIter<'a, T, A>,
)
    requires
        call_ensures(RegexIter::<'a, T, A>::new, (start, end, direction, term, regex), iter),
    ensures
        iter.point == start,
        iter.end == end,
        iter.direction == direction,
        iter.term == term,
        iter.regex == regex,
        !iter.done,
{
}

/// Whether an iterator may go over from `before` to `after` and give `r`, where the search from its
/// place found `found`: it gives what was found, unless it is over. It is over only when a search
/// began at its end, or a match ended there. Otherwise it goes on next to the last character of the
/// match, or stays where it is if there was none.
pub open spec fn steps_on<'a, T, A: Automaton>(
    before: RegexIter<'a, T, A>,
    after: RegexIter<'a, T, A>,
    found: Option<Match>,
    r: Option<Match>,
) -> bool {
    let g = before.term.grid@;
    &&& after.term == before.term
    &&& after.regex == before.regex
    &&& after.end == before.end
    &&& after.direction == before.direction
    &&& if before.done {
        r is None && after.done && after.point == before.point
    } else {
        &&& same_match(r, found)
        &&& match found {
            Some(m) => {
                &&& after.done <==> before.point == before.end || m@.end == before.end
                &&& m@.end == before.end ==> after.point == before.end
                &&& m@.end != before.end ==> after.point == g.point_at(
                    (index(g, g.expanded(m@.end, before.direction)) + (match before.direction {
                        Direction::Right => 1int,
                        Direction::Left => -1,
                    })) % cell_count(g),
                )
            },
            None => {
                &&& after.done <==> before.point == before.end
                &&& after.point == before.point
            },
        }
    }
}

/// An iterator goes from match to match.
pub proof fn law_iterator_next<'a, T, A: Automaton>()
    ensures
        forall|iter: &mut RegexIter<'a, T, A>, r: Option<Match>, found: Option<Match>| #[trigger]
            call_ensures(RegexIter::<'a, T, A>::next, (iter,), r) && #[trigger] searched(
                iter.term,
                iter.regex,
                iter.point,
                iter.end,
                iter.direction,
                found,
            ) ==> steps_on(*iter, *final(iter), found, r),
{
}

/// A guarded iterator goes from match to match, or stays as it is where it does not answer.
pub proof fn law_iterator_try_next<'a, T, A: Automaton>()
    ensures
        forall|
            iter: &mut RegexIter<'a, T, A>,
            r: Option<Option<Match>>,
            found: Option<Match>,
        | #[trigger]
            call_ensures(RegexIter::<'a, T, A>::try_next, (iter,), r) && #[trigger] searched(
                iter.term,
                iter.regex,
                iter.point,
                iter.end,
                iter.direction,
                found,
            ) ==> match r {
                Some(m) => steps_on(*iter, *final(iter), found, m),
                None => *final(iter) == *iter && !iter.done,
            },
{
}

/// The automata of a regular expression: both are compiled from the whole expression with the same
/// handling of letter case, one of them reversed, and neither larger than a hundred megabytes.
/// Letter case counts if and only if a character of the expression is in upper case. The first
/// error is returned.
pub proof fn law_regex_new(search: &str, r: Result<RegexSearch<Dense>, Box<BuildError>>)
    requires
        call_ensures(RegexSearch::<Dense>::new, (search,), r),
    ensures
        ({
            let ignore_case = forall|i: int|
                0 <= i < search@.len() ==> !char_is_uppercase(#[trigger] search@[i]);
            match (
                dfa_build(search@, ignore_case, false, 100_000_000),
                dfa_build(search@, ignore_case, true, 100_000_000),
            ) {
                (Ok(dfa), Ok(rdfa)) => r matches Ok(regex) && regex.dfa.dfa == dfa
                    && regex.rdfa.dfa == rdfa && regex.wf(),
                (Err(error), _) => r matches Err(e) && *e == error,
                (Ok(_), Err(error)) => r matches Err(e) && *e == error,
            }
        }),
{
    let ignore_case = forall|i: int|
        0 <= i < search@.len() ==> !char_is_uppercase(#[trigger] search@[i]);
    assert(ignore_case == !has_uppercase(search@));
}

/// A compiled automaton answers with what its table says.
pub proof fn law_dense(dfa: DFA<Vec<u32>>, anchored: bool, state: u32, byte: u8)
    ensures
        (Dense { dfa }).initial(anchored) == dfa_start(dfa, anchored).unwrap(),
        (Dense { dfa }).next(state, byte) == dfa_next(dfa, state, byte),
        (Dense { dfa }).finish(state) == dfa_finish(dfa, state),
        (Dense { dfa }).matches(state) == dfa_matches(dfa, state),
        (Dense { dfa }).dead(state) == (state == 0),
{
}

/// A character is passed to an automaton in UTF-8.
pub proof fn law_encode_utf8(c: char, r: ([u8; 4], usize))
    requires
        call_ensures(encode_utf8, (c,), r),
    ensures
        r.0@.subrange(0, r.1 as int) == encode_scalar(c as u32),
{
}

} // verus!
