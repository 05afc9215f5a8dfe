//! What a search reads, and what it makes of it.
//!
//! An automaton is asked two things about a text: whether a part of it up to some byte matches,
//! which shows with the next byte or at the end of the text, and whether it has given up. The laws
//! say what a search returns in terms of the answers, for the texts that stand in the grid.

use crate::automaton::Automaton;
use crate::grid::GridView;
use crate::index::{Direction, Point};
use crate::plain::{
    cell_count, character, ends_hard, entry, index, is_place, narrow, part_of_wide, place, seam,
    spelled, steps,
};
use crate::scan::Scan;
use crate::term::Term;
use crate::walk::Walk;
use vstd::arithmetic::div_mod::{
    lemma_add_mod_noop, lemma_fundamental_div_mod_converse, lemma_mod_bound, lemma_mod_self_0,
    lemma_mod_twice, lemma_small_mod, lemma_sub_mod_noop,
};
use vstd::prelude::*;

verus! {

/// The state of an automaton that has read `text`.
pub open spec fn state_after<A: Automaton>(automaton: A, anchored: bool, text: Seq<u8>) -> u32
    decreases text.len(),
{
    if text.len() == 0 {
        automaton.initial(anchored)
    } else {
        automaton.next(state_after(automaton, anchored, text.drop_last()), text.last())
    }
}

/// Characters one after the other, as an automaton reads them.
pub struct Reading<A> {
    pub automaton: A,
    pub anchored: bool,
    /// The bytes of character `k`.
    pub letters: spec_fn(int) -> Seq<u8>,
    /// Whether a line ends between the characters `k - 1` and `k`.
    pub cuts: spec_fn(int) -> bool,
    /// The index of the cell that stands for the end of character `k`.
    pub places: spec_fn(int) -> int,
    /// Whether nothing is to be read behind character `k`.
    pub ends: spec_fn(int) -> bool,
}

impl<A: Automaton> Reading<A> {
    /// The characters from `a` up to, and without, `k`.
    pub open spec fn words(self, a: int, k: int) -> Seq<u8>
        decreases k - a,
    {
        if k <= a {
            Seq::empty()
        } else {
            self.words(a, k - 1) + (self.letters)(k - 1)
        }
    }

    /// Whether the line of character `k` begins with character `a`.
    pub open spec fn same_line(self, a: int, k: int) -> bool {
        &&& 0 <= a <= k
        &&& a == 0 || (self.cuts)(a)
        &&& forall|m: int| a < m <= k ==> !#[trigger] (self.cuts)(m)
    }

    /// Whether the automaton says on coming to character `k` that the characters from `a` up to it
    /// hold a match that ends with the one before it.
    pub open spec fn said(self, a: int, k: int) -> bool {
        self.automaton.matches(
            self.automaton.next(
                state_after(self.automaton, self.anchored, self.words(a, k)),
                (self.letters)(k)[0],
            ),
        )
    }

    /// Whether the automaton says that the characters from `a` to `k` hold a match that ends with
    /// `k`, if the text ends there.
    pub open spec fn said_at_end(self, a: int, k: int) -> bool {
        self.automaton.matches(
            self.automaton.finish(
                state_after(self.automaton, self.anchored, self.words(a, k + 1)),
            ),
        )
    }

    /// Whether the automaton has given up on the characters from `a` to `k`.
    pub open spec fn lost(self, a: int, k: int) -> bool {
        self.automaton.dead(state_after(self.automaton, self.anchored, self.words(a, k + 1)))
    }

    /// Whether the line from `a` to `b` holds no match.
    pub open spec fn line_without_match(self, a: int, b: int) -> bool {
        &&& forall|m: int| a <= m <= b ==> !#[trigger] self.said(a, m)
        &&& !self.said_at_end(a, b)
    }

    /// Whether `p` is the end of the longest match that was found in the line from `a` on, when
    /// character `stop` was read: the one that ends with `stop`, or else the one of which the
    /// automaton spoke last. A match of nothing at the very beginning is placed on the first
    /// character.
    pub open spec fn longest(self, g: GridView, a: int, stop: int, p: Point) -> bool {
        &&& is_place(g, p)
        &&& if !self.lost(a, stop) && self.said_at_end(a, stop) {
            index(g, p) == (self.places)(stop)
        } else {
            exists|m: int|
                {
                    &&& a <= m <= stop
                    &&& #[trigger] self.said(a, m)
                    &&& forall|n: int| m < n <= stop ==> !#[trigger] self.said(a, n)
                    &&& index(g, p) == (self.places)(
                        if m > 0 {
                            m - 1
                        } else {
                            0
                        },
                    )
                }
        }
    }

    /// Whether `r` is what the line from `a` on gives a search that stops at character `stop`, and
    /// the search has a reason to stop there.
    pub open spec fn closes(self, g: GridView, a: int, stop: int, r: Option<Point>) -> bool {
        match r {
            Some(p) => {
                &&& self.longest(g, a, stop, p)
                &&& self.lost(a, stop) || (self.ends)(stop) || (self.cuts)(stop + 1)
            },
            None => {
                &&& forall|m: int| a <= m <= stop ==> !#[trigger] self.said(a, m)
                &&& self.lost(a, stop) || (self.ends)(stop) && !self.said_at_end(a, stop)
            },
        }
    }

    /// Whether `r` is what a search has to return that read everything up to character `stop`: it
    /// did not come to the end or give up before, the lines before hold no match, and it had a
    /// reason to stop there. Where it returns nothing, the line of `stop` holds no match either,
    /// and the reason is the end, or that the automaton has given up. Where it returns something,
    /// it is the end of the longest match in the line of `stop`, and the reason may also be that
    /// the line ends.
    pub open spec fn settles(self, g: GridView, stop: int, r: Option<Point>) -> bool {
        &&& 0 <= stop
        &&& forall|k: int| 0 <= k < stop ==> !#[trigger] (self.ends)(k)
        &&& forall|a: int, k: int| k < stop && #[trigger] self.same_line(a, k) ==> !self.lost(a, k)
        &&& forall|a: int, b: int|
            b <= stop && (self.cuts)(b) && #[trigger] self.same_line(a, b - 1)
                ==> self.line_without_match(a, b - 1)
        &&& exists|a: int| #[trigger] self.same_line(a, stop) && self.closes(g, a, stop, r)
    }

    /// Whether the reading is that of `scan` as far as it goes.
    spec fn describes(self, scan: Scan<A>) -> bool {
        &&& self.automaton == scan.automaton
        &&& self.anchored == scan.anchored
        &&& forall|k: int|
            0 <= k <= scan.last() + 1 ==> #[trigger] (self.letters)(k) == scan.bytes(k)
        &&& forall|k: int|
            0 < k <= scan.last() + 1 ==> #[trigger] (self.cuts)(k) == scan.walk.breaks(k)
        &&& forall|k: int|
            0 <= k <= scan.last() ==> #[trigger] (self.places)(k) == scan.walk.far(k)
        &&& forall|k: int| 0 <= k <= scan.last() ==> #[trigger] (self.ends)(k) == scan.walk.ends(k)
    }

    proof fn lemma_state(self, scan: Scan<A>, text: Seq<u8>)
        requires
            self.describes(scan),
        ensures
            state_after(self.automaton, self.anchored, text) == scan.run(text),
        decreases text.len(),
    {
        if text.len() > 0 {
            self.lemma_state(scan, text.drop_last());
        }
    }

    proof fn lemma_words(self, scan: Scan<A>, a: int, k: int)
        requires
            self.describes(scan),
            self.same_line(a, k),
            k <= scan.last() + 1,
        ensures
            scan.text_before(k) == self.words(a, k),
            k <= scan.last() ==> {
                &&& scan.text(k) == self.words(a, k + 1)
                &&& scan.confirms(k) == self.said(a, k)
                &&& scan.matches_at_end(k) == self.said_at_end(a, k)
                &&& scan.dead(k) == self.lost(a, k)
            },
        decreases k,
    {
        if k > a {
            assert(!(self.cuts)(k));
            assert(self.same_line(a, k - 1));
            self.lemma_words(scan, a, k - 1);
            assert((self.letters)(k - 1) == scan.bytes(k - 1));
        } else if k > 0 {
            assert((self.cuts)(k));
        }
        if k <= scan.last() {
            assert((self.letters)(k) == scan.bytes(k));
            let before = self.words(a, k);
            let first = scan.bytes(k)[0];
            assert(before.push(first).drop_last() =~= before);
            self.lemma_state(scan, before.push(first));
            self.lemma_state(scan, before);
            self.lemma_state(scan, self.words(a, k + 1));
        }
    }

    proof fn lemma_line_of(self, k: int) -> (a: int)
        requires
            0 <= k,
        ensures
            self.same_line(a, k),
        decreases k,
    {
        if k == 0 || (self.cuts)(k) {
            k
        } else {
            let a = self.lemma_line_of(k - 1);
            assert(self.same_line(a, k));
            a
        }
    }
}

impl<A: Automaton> Reading<A> {
    proof fn lemma_settles(self, scan: Scan<A>)
        requires
            self.describes(scan),
            scan.walk.valid(),
            scan.halts(),
        ensures
            self.settles(scan.walk.grid, scan.last(), scan.result()),
    {
        let g = scan.walk.grid;
        let stop = scan.last();
        let r = scan.result();
        assert(scan.stops_first(stop));
        scan.law_first_match();
        scan.law_farthest_side();
        scan.law_result_on_walk();
        assert forall|k: int| 0 <= k < stop implies !#[trigger] (self.ends)(k) by {
            assert(!scan.stops(k));
        }
        assert forall|a: int, k: int| k < stop && #[trigger] self.same_line(
            a,
            k,
        ) implies !self.lost(a, k) by {
            self.lemma_words(scan, a, k);
            assert(!scan.stops(k));
        }
        assert forall|a: int, b: int|
            b <= stop && (self.cuts)(b) && #[trigger] self.same_line(
                a,
                b - 1,
            ) implies self.line_without_match(a, b - 1) by {
            self.lemma_words(scan, a, b - 1);
            assert(scan.walk.breaks(b));
            assert forall|m: int| a <= m <= b - 1 implies !#[trigger] self.said(a, m) by {
                assert(self.same_line(a, m));
                self.lemma_words(scan, a, m);
            }
        }
        let a = self.lemma_line_of(stop);
        self.lemma_words(scan, a, stop);
        assert((self.ends)(stop) == scan.walk.ends(stop));
        assert((self.cuts)(stop + 1) == scan.walk.breaks(stop + 1));
        assert forall|m: int| a <= m <= stop implies #[trigger] self.said(a, m) == scan.confirms(
            m,
        ) by {
            assert(self.same_line(a, m));
            self.lemma_words(scan, a, m);
        }
        if let Some(p) = r {
            let k = scan.outcome(stop).unwrap();
            scan.walk.lemma_on_grid(k);
            assert((self.places)(k) == scan.walk.far(k));
            if !(!scan.dead(stop) && scan.matches_at_end(stop)) {
                self.lemma_spoken_last(scan, a, stop, stop);
            }
            assert(self.longest(g, a, stop, p));
        }
    }

    /// The match that was confirmed last is the one of which the automaton spoke last.
    proof fn lemma_spoken_last(self, scan: Scan<A>, a: int, k: int, stop: int)
        requires
            self.describes(scan),
            stop == scan.last(),
            self.same_line(a, stop),
            a <= k <= stop,
            scan.confirmed(k) is Some,
            forall|m: int| a <= m <= stop ==> #[trigger] self.said(a, m) == scan.confirms(m),
            forall|n: int| k < n <= stop ==> !#[trigger] self.said(a, n),
        ensures
            exists|m: int|
                {
                    &&& a <= m <= stop
                    &&& #[trigger] self.said(a, m)
                    &&& forall|n: int| m < n <= stop ==> !#[trigger] self.said(a, n)
                    &&& scan.confirmed(k) == Some(
                        if m > 0 {
                            m - 1
                        } else {
                            0
                        },
                    )
                },
        decreases k,
    {
        if scan.confirms(k) {
            assert(self.said(a, k));
        } else {
            assert(!self.said(a, k));
            if k > 0 {
                assert((self.cuts)(k) == scan.walk.breaks(k));
            }
            if k > a {
                self.lemma_spoken_last(scan, a, k - 1, stop);
            }
        }
    }
}

/// What a search from `start` to `end` reads.
pub open spec fn reading<A: Automaton>(
    g: GridView,
    start: Point,
    end: Point,
    direction: Direction,
    anchored: bool,
    automaton: A,
) -> Reading<A> {
    let s = index(g, start);
    Reading {
        automaton,
        anchored,
        letters: |k: int|
            spelled(g.cells[character(g, entry(g, s, k, direction), direction).0].c, direction),
        cuts: |k: int| seam(g, s, k, direction),
        places: |k: int| character(g, entry(g, s, k, direction), direction).1,
        ends: |k: int|
            {
                let i = entry(g, s, k, direction);
                &&& is_place(g, end)
                &&& index(g, end) == character(g, i, direction).1 || k > 0 && index(g, end) == i
            },
    }
}

/// What a search from `start` to `end` reads where every character takes one column: the cells one
/// after the other, around the grid, up to that of `end`; a line ends behind a last column that
/// does not say that it goes on.
pub open spec fn narrow_reading<A: Automaton>(
    g: GridView,
    start: Point,
    end: Point,
    direction: Direction,
    anchored: bool,
    automaton: A,
) -> Reading<A> {
    let s = index(g, start);
    Reading {
        automaton,
        anchored,
        letters: |k: int| spelled(g.cells[place(g, s, k, direction)].c, direction),
        cuts: |k: int|
            match direction {
                Direction::Right => ends_hard(g, place(g, s, k - 1, direction)),
                Direction::Left => ends_hard(g, place(g, s, k, direction)),
            },
        places: |k: int| place(g, s, k, direction),
        ends: |k: int| k == steps(g, s, index(g, end), direction),
    }
}

proof fn lemma_one_step(walk: Walk, i: int)
    requires
        walk.valid(),
        0 <= i < walk.grid.size(),
    ensures
        walk.behind(i) == place(walk.grid, i, 1, walk.direction),
        0 <= walk.behind(i) < walk.grid.size(),
{
    let n = walk.grid.size();
    match walk.direction {
        Direction::Right => {
            if i + 1 < n {
                lemma_small_mod((i + 1) as nat, n as nat);
            } else {
                lemma_mod_self_0(n);
            }
        },
        Direction::Left => {
            if i > 0 {
                lemma_small_mod((i - 1) as nat, n as nat);
            } else {
                lemma_fundamental_div_mod_converse(-1, n, -1, n - 1);
            }
        },
    }
}

/// A walk goes where the cells lead it.
proof fn lemma_entry(walk: Walk, k: int)
    requires
        walk.valid(),
    ensures
        walk.near(k) == entry(walk.grid, walk.start, k, walk.direction),
        (walk.read(k), walk.far(k)) == character(walk.grid, walk.near(k), walk.direction),
    decreases k,
{
    if k > 0 {
        lemma_entry(walk, k - 1);
        walk.lemma_on_grid(k - 1);
        lemma_one_step(walk, walk.far(k - 1));
    }
    walk.lemma_on_grid(k);
    walk.grid.lemma_point_at(walk.near(k));
    walk.grid.lemma_last(walk.grid.point_at(walk.near(k)));
}

/// What [`Term::regex_search`] returns is decided by what the automaton says of the characters from
/// the start on, and it reads on until the end, until the automaton gives up, or until the end of
/// a line that holds a match.
pub proof fn law_regex_search<T, A: Automaton>(
    term: &Term<T>,
    start: Point,
    end: Point,
    direction: Direction,
    anchored: bool,
    regex: &A,
    r: Option<Point>,
)
    requires
        term.grid.wf(),
        is_place(term.grid@, start),
        regex.wf(),
        term.grid@.scan(start, end, direction, anchored, *regex).halts(),
        call_ensures(
            Term::<T>::regex_search::<A>,
            (term, start, end, direction, anchored, regex),
            r,
        ),
    ensures
        exists|stop: int|
            #[trigger] reading(
                term.grid@,
                start,
                end,
                direction,
                anchored,
                *regex,
            ).settles(term.grid@, stop, r),
{
    let g = term.grid@;
    let scan = g.scan(start, end, direction, anchored, *regex);
    let reading = reading(g, start, end, direction, anchored, *regex);
    g.lemma_pos(start);
    assert forall|k: int| 0 <= k <= scan.last() + 1 implies #[trigger] (reading.letters)(k)
        == scan.bytes(k) by {
        lemma_entry(scan.walk, k);
    }
    assert forall|k: int| 0 < k <= scan.last() + 1 implies #[trigger] (reading.cuts)(k)
        == scan.walk.breaks(k) by {
        lemma_entry(scan.walk, k);
        lemma_entry(scan.walk, k - 1);
    }
    assert forall|k: int| 0 <= k <= scan.last() implies #[trigger] (reading.places)(k)
        == scan.walk.far(k) by {
        lemma_entry(scan.walk, k);
    }
    assert forall|k: int| 0 <= k <= scan.last() implies #[trigger] (reading.ends)(k)
        == scan.walk.ends(k) by {
        lemma_entry(scan.walk, k);
        scan.walk.lemma_on_grid(k);
        g.lemma_point_at(scan.walk.far(k));
        g.lemma_point_at(scan.walk.near(k));
        if is_place(g, end) {
            g.lemma_pos(end);
        }
    }
    assert(reading.describes(scan));
    reading.lemma_settles(scan);
}

proof fn lemma_narrow_cell(g: GridView, i: int, direction: Direction)
    requires
        g.valid(),
        narrow(g),
        0 <= i < g.size(),
    ensures
        g.far_end(i, direction) == i,
        g.glyph(i, direction) == i,
        !g.passed_over(i, direction),
{
    assert(!part_of_wide(g, i));
    if i > 0 {
        assert(!part_of_wide(g, i - 1));
    }
}

/// Where every character takes one column, a walk goes from cell to cell.
proof fn lemma_narrow_walk(walk: Walk, k: int)
    requires
        walk.valid(),
        narrow(walk.grid),
        0 <= k,
    ensures
        walk.near(k) == walk.far(k) == walk.read(k) == place(
            walk.grid,
            walk.start,
            k,
            walk.direction,
        ),
    decreases k,
{
    let n = walk.grid.size();
    if k > 0 {
        lemma_narrow_walk(walk, k - 1);
        walk.lemma_on_grid(k - 1);
        lemma_one_step(walk, walk.far(k - 1));
        match walk.direction {
            Direction::Right => {
                lemma_add_mod_noop(walk.start + (k - 1), 1, n);
                lemma_add_mod_noop((walk.start + (k - 1)) % n, 1, n);
                lemma_mod_twice(walk.start + (k - 1), n);
            },
            Direction::Left => {
                lemma_sub_mod_noop(walk.start - (k - 1), 1, n);
                lemma_sub_mod_noop((walk.start - (k - 1)) % n, 1, n);
                lemma_mod_twice(walk.start - (k - 1), n);
            },
        }
    } else {
        lemma_small_mod(walk.start as nat, n as nat);
    }
    walk.lemma_on_grid(k);
    lemma_narrow_cell(walk.grid, walk.near(k), walk.direction);
}

/// Of the places up to the number of steps to the cell `e`, only the last one is that cell.
proof fn lemma_steps(g: GridView, s: int, e: int, k: int, direction: Direction)
    requires
        0 < cell_count(g),
        0 <= s < cell_count(g),
        0 <= e < cell_count(g),
    ensures
        0 <= steps(g, s, e, direction) < cell_count(g),
        0 <= k <= steps(g, s, e, direction) ==> (place(g, s, k, direction) == e <==> k == steps(
            g,
            s,
            e,
            direction,
        )),
{
    let n = cell_count(g);
    let d = steps(g, s, e, direction);
    match direction {
        Direction::Right => {
            lemma_mod_bound(e - s, n);
            if e >= s {
                lemma_small_mod((e - s) as nat, n as nat);
            } else {
                lemma_fundamental_div_mod_converse(e - s, n, -1, e - s + n);
            }
            if 0 <= k <= d {
                if s + k < n {
                    lemma_small_mod((s + k) as nat, n as nat);
                } else {
                    lemma_fundamental_div_mod_converse(s + k, n, 1, s + k - n);
                }
            }
        },
        Direction::Left => {
            lemma_mod_bound(s - e, n);
            if s >= e {
                lemma_small_mod((s - e) as nat, n as nat);
            } else {
                lemma_fundamental_div_mod_converse(s - e, n, -1, s - e + n);
            }
            if 0 <= k <= d {
                if s - k >= 0 {
                    lemma_small_mod((s - k) as nat, n as nat);
                } else {
                    lemma_fundamental_div_mod_converse(s - k, n, -1, s - k + n);
                }
            }
        },
    }
}

/// Where every character takes one column, each search between two places comes to an end, and
/// what it returns is decided by what the automaton says of the cells one after the other, from
/// the start up to the end and around the grid.
pub proof fn law_regex_search_narrow<T, A: Automaton>(
    term: &Term<T>,
    start: Point,
    end: Point,
    direction: Direction,
    anchored: bool,
    regex: &A,
    r: Option<Point>,
)
    requires
        term.grid.wf(),
        narrow(term.grid@),
        is_place(term.grid@, start),
        is_place(term.grid@, end),
        regex.wf(),
        call_ensures(
            Term::<T>::regex_search::<A>,
            (term, start, end, direction, anchored, regex),
            r,
        ),
    ensures
        term.grid@.scan(start, end, direction, anchored, *regex).halts(),
        exists|stop: int|
            stop <= steps(
                term.grid@,
                index(term.grid@, start),
                index(term.grid@, end),
                direction,
            ) && #[trigger] narrow_reading(
                term.grid@,
                start,
                end,
                direction,
                anchored,
                *regex,
            ).settles(term.grid@, stop, r),
{
    let g = term.grid@;
    let s = index(g, start);
    let e = index(g, end);
    let d = steps(g, s, e, direction);
    let scan = g.scan(start, end, direction, anchored, *regex);
    let walk = scan.walk;
    let reading = narrow_reading(g, start, end, direction, anchored, *regex);
    g.lemma_pos(start);
    g.lemma_pos(end);
    lemma_narrow_cell(g, e, direction);
    scan.law_search_stops();
    assert(scan.stops_first(scan.last()));
    lemma_steps(g, s, e, d, direction);
    lemma_narrow_walk(walk, d);
    walk.lemma_on_grid(d);
    assert(walk.ends(d)) by {
        g.lemma_point_at(e);
    }
    assert(scan.stops(d));
    assert(scan.last() <= d);
    assert forall|k: int| 0 <= k <= scan.last() + 1 implies #[trigger] (reading.letters)(k)
        == scan.bytes(k) by {
        lemma_narrow_walk(walk, k);
    }
    assert forall|k: int| 0 < k <= scan.last() + 1 implies #[trigger] (reading.cuts)(k)
        == walk.breaks(k) by {
        lemma_narrow_walk(walk, k);
        lemma_narrow_walk(walk, k - 1);
        walk.lemma_goes_over(k);
    }
    assert forall|k: int| 0 <= k <= scan.last() implies #[trigger] (reading.places)(k) == walk.far(
        k,
    ) by {
        lemma_narrow_walk(walk, k);
    }
    assert forall|k: int| 0 <= k <= scan.last() implies #[trigger] (reading.ends)(k) == walk.ends(
        k,
    ) by {
        lemma_narrow_walk(walk, k);
        lemma_steps(g, s, e, k, direction);
        walk.lemma_on_grid(k);
        g.lemma_point_at(walk.far(k));
    }
    assert(reading.describes(scan));
    reading.lemma_settles(scan);
}

/// What the automaton says of a reading leaves no choice: only one result settles it.
pub proof fn law_reading_decides<A: Automaton>(
    reading: Reading<A>,
    g: GridView,
    stop: int,
    r: Option<Point>,
    other_stop: int,
    other: Option<Point>,
)
    requires
        g.valid(),
        reading.settles(g, stop, r),
        reading.settles(g, other_stop, other),
    ensures
        stop == other_stop,
        r == other,
{
    lemma_not_before(reading, g, stop, r, other_stop, other);
    lemma_not_before(reading, g, other_stop, other, stop, r);
    let a = choose|a: int| #[trigger]
        reading.same_line(a, stop) && reading.closes(g, a, stop, r);
    let b = choose|b: int| #[trigger]
        reading.same_line(b, stop) && reading.closes(g, b, stop, other);
    assert(a == b) by {
        if a < b {
            assert((reading.cuts)(b));
        }
        if b < a {
            assert((reading.cuts)(a));
        }
    }
    if r is Some && other is Some {
        let p = r.unwrap();
        let q = other.unwrap();
        assert(index(g, p) == index(g, q));
        g.lemma_pos_injective(p, q);
    }
}

proof fn lemma_not_before<A: Automaton>(
    reading: Reading<A>,
    g: GridView,
    stop: int,
    r: Option<Point>,
    other_stop: int,
    other: Option<Point>,
)
    requires
        reading.settles(g, stop, r),
        reading.settles(g, other_stop, other),
    ensures
        stop >= other_stop,
{
    if stop < other_stop {
        let a = choose|a: int| #[trigger]
            reading.same_line(a, stop) && reading.closes(g, a, stop, r);
        assert(!reading.lost(a, stop));
        assert(!(reading.ends)(stop));
        assert(reading.same_line(a, (stop + 1) - 1));
        assert(reading.line_without_match(a, (stop + 1) - 1));
    }
}

/// A search that returns nothing has read everything: unless the automaton gave up, no character
/// from the start to the end ends a match, in whichever line.
pub proof fn law_nothing_is_missed<T, A: Automaton>(
    term: &Term<T>,
    start: Point,
    end: Point,
    direction: Direction,
    anchored: bool,
    regex: &A,
    r: Option<Point>,
    a: int,
    k: int,
)
    requires
        term.grid.wf(),
        narrow(term.grid@),
        is_place(term.grid@, start),
        is_place(term.grid@, end),
        regex.wf(),
        call_ensures(
            Term::<T>::regex_search::<A>,
            (term, start, end, direction, anchored, regex),
            r,
        ),
        r is None,
        k <= steps(term.grid@, index(term.grid@, start), index(term.grid@, end), direction),
        ({
            let reading = narrow_reading(term.grid@, start, end, direction, anchored, *regex);
            &&& reading.same_line(a, k)
            &&& forall|b: int, m: int|
                m <= k && #[trigger] reading.same_line(b, m) ==> !reading.lost(b, m)
        }),
    ensures
        ({
            let reading = narrow_reading(term.grid@, start, end, direction, anchored, *regex);
            &&& !reading.said(a, k)
            &&& (reading.ends)(k) || (reading.cuts)(k + 1) ==> !reading.said_at_end(a, k)
        }),
{
    let g = term.grid@;
    let reading = narrow_reading(g, start, end, direction, anchored, *regex);
    law_regex_search_narrow(term, start, end, direction, anchored, regex, r);
    let stop = choose|stop: int|
        stop <= steps(g, index(g, start), index(g, end), direction) && #[trigger] reading.settles(
            g,
            stop,
            r,
        );
    let c = choose|c: int| #[trigger]
        reading.same_line(c, stop) && reading.closes(g, c, stop, r);
    assert(k <= stop);
    if a < c {
        // An earlier line.
        assert((reading.cuts)(c));
        assert(k < c);
        let b = lemma_next_cut(reading, k, c);
        assert(reading.same_line(a, b - 1));
        assert(reading.line_without_match(a, b - 1));
    } else if c < a {
        assert((reading.cuts)(a));
    }
    if (reading.cuts)(k + 1) && k < stop {
        assert(reading.same_line(a, (k + 1) - 1));
        assert(reading.line_without_match(a, (k + 1) - 1));
    }
}

/// The first cut behind character `k`.
proof fn lemma_next_cut<A: Automaton>(reading: Reading<A>, k: int, c: int) -> (b: int)
    requires
        k < c,
        (reading.cuts)(c),
    ensures
        k < b <= c,
        (reading.cuts)(b),
        forall|m: int| k < m < b ==> !#[trigger] (reading.cuts)(m),
    decreases c - k,
{
    if exists|m: int| k < m < c && #[trigger] (reading.cuts)(m) {
        let m = choose|m: int| k < m < c && #[trigger] (reading.cuts)(m);
        lemma_next_cut(reading, k, m)
    } else {
        c
    }
}

/// A search can be asked for if it comes to its end.
pub proof fn law_search_ends_with_its_reading<T, A: Automaton>(
    term: &Term<T>,
    start: Point,
    end: Point,
    direction: Direction,
    anchored: bool,
    regex: &A,
    k: int,
)
    requires
        term.grid.wf(),
        is_place(term.grid@, start),
        regex.wf(),
        0 <= k,
        (reading(term.grid@, start, end, direction, anchored, *regex).ends)(k),
    ensures
        call_requires(
            Term::<T>::regex_search::<A>,
            (term, start, end, direction, anchored, regex),
        ),
{
    let g = term.grid@;
    let scan = g.scan(start, end, direction, anchored, *regex);
    g.lemma_pos(start);
    g.lemma_pos(end);
    lemma_entry(scan.walk, k);
    assert(scan.walk.ends(k));
    assert(scan.stops(k));
    scan.lemma_halts(k);
}

} // verus!
