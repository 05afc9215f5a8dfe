//! Searching the grid with an automaton.

use crate::automaton::Automaton;
use crate::cell::Flags;
use crate::grid::GridView;
use crate::index::{Column, Direction, Line, Point};
use crate::term::Term;
use crate::utf8::{encode_utf8, utf8};
use crate::walk::Walk;
use vstd::prelude::*;

verus! {

/// A search: an automaton that reads the characters of a walk, each line on its own. A line is here
/// what [`Walk::breaks`] does not cut: lines that go on in each other are one.
pub struct Scan<A> {
    pub walk: Walk,
    pub automaton: A,
    pub anchored: bool,
}

impl<A: Automaton> Scan<A> {
    /// The bytes of character `k`, in the order in which they are read.
    pub open spec fn bytes(self, k: int) -> Seq<u8> {
        let bytes = utf8(self.walk.grid.cells[self.walk.read(k)].c);
        match self.walk.direction {
            Direction::Right => bytes,
            Direction::Left => bytes.reverse(),
        }
    }

    /// The bytes that are read from the beginning of the line of character `k`, or from the
    /// beginning of the walk, to the character before `k`.
    pub open spec fn text_before(self, k: int) -> Seq<u8>
        decreases k,
    {
        if k <= 0 || self.walk.breaks(k) {
            Seq::empty()
        } else {
            self.text_before(k - 1) + self.bytes(k - 1)
        }
    }

    /// The same, with character `k`.
    pub open spec fn text(self, k: int) -> Seq<u8> {
        self.text_before(k) + self.bytes(k)
    }

    /// The state of the automaton after `bytes`.
    pub open spec fn run(self, bytes: Seq<u8>) -> u32
        decreases bytes.len(),
    {
        if bytes.len() == 0 {
            self.automaton.initial(self.anchored)
        } else {
            self.automaton.next(self.run(bytes.drop_last()), bytes.last())
        }
    }

    /// Whether the first byte of character `k` shows that the text before it matches.
    pub open spec fn confirms(self, k: int) -> bool {
        self.automaton.matches(self.run(self.text_before(k).push(self.bytes(k)[0])))
    }

    /// Whether the text matches if it ends with character `k`.
    pub open spec fn matches_at_end(self, k: int) -> bool {
        self.automaton.matches(self.automaton.finish(self.run(self.text(k))))
    }

    /// Whether no longer text matches any more.
    pub open spec fn dead(self, k: int) -> bool {
        self.automaton.dead(self.run(self.text(k)))
    }

    /// The character with which the longest match ends that the characters before `k` of its line
    /// have confirmed.
    pub open spec fn confirmed_before(self, k: int) -> Option<int>
        decreases k,
    {
        if k <= 0 || self.walk.breaks(k) {
            None
        } else {
            self.confirmed(k - 1)
        }
    }

    /// The same, with character `k`. A match of nothing at the very beginning of the walk is
    /// placed on its first character.
    pub open spec fn confirmed(self, k: int) -> Option<int>
        decreases k, 1int,
    {
        if self.confirms(k) {
            Some(if k > 0 {
                k - 1
            } else {
                0
            })
        } else if k <= 0 || self.walk.breaks(k) {
            None
        } else {
            self.confirmed(k - 1)
        }
    }

    /// The character with which the match ends if the search stops at character `k`.
    pub open spec fn outcome(self, k: int) -> Option<int> {
        if !self.dead(k) && self.matches_at_end(k) {
            Some(k)
        } else {
            self.confirmed(k)
        }
    }

    /// Whether the search has no reason to go on behind character `k`: nothing can match any
    /// more, the walk is at its end, or the line ends and holds a match.
    pub open spec fn stops(self, k: int) -> bool {
        ||| self.dead(k)
        ||| self.walk.ends(k)
        ||| self.walk.breaks(k + 1) && self.outcome(k) is Some
    }

    /// Whether character `k` is the first one at which the search stops.
    pub open spec fn stops_first(self, k: int) -> bool {
        &&& 0 <= k
        &&& self.stops(k)
        &&& forall|i: int| 0 <= i < k ==> !self.stops(i)
    }

    /// Whether the search comes to an end.
    pub open spec fn halts(self) -> bool {
        exists|k: int| self.stops_first(k)
    }

    /// The character at which the search stops.
    pub open spec fn last(self) -> int {
        choose|k: int| self.stops_first(k)
    }

    /// What the search finds: the side of the first match that is farther from the start.
    pub open spec fn result(self) -> Option<Point> {
        match self.outcome(self.last()) {
            Some(k) => Some(self.walk.point(k)),
            None => None,
        }
    }

    /// A search that stops somewhere has a first character at which it does.
    pub proof fn lemma_halts(self, k: int)
        requires
            0 <= k,
            self.stops(k),
        ensures
            self.halts(),
        decreases k,
    {
        if exists|i: int| 0 <= i < k && self.stops(i) {
            let i = choose|i: int| 0 <= i < k && self.stops(i);
            self.lemma_halts(i);
        } else {
            assert(self.stops_first(k));
        }
    }

    /// There is only one first character at which a search stops.
    pub proof fn lemma_last(self, k: int)
        requires
            self.stops_first(k),
        ensures
            self.halts(),
            self.last() == k,
    {
        let last = self.last();
        assert(self.stops_first(last));
        assert(!(last < k));
        assert(!(k < last));
    }

    /// The characters of a match are characters of the walk.
    pub proof fn lemma_confirmed(self, k: int)
        requires
            0 <= k,
        ensures
            self.confirmed(k) matches Some(j) ==> 0 <= j <= k,
        decreases k,
    {
        if k > 0 {
            self.lemma_confirmed(k - 1);
        }
    }
}

impl GridView {
    /// The search from `start` to `end`.
    pub open spec fn scan<A: Automaton>(
        self,
        start: Point,
        end: Point,
        direction: Direction,
        anchored: bool,
        automaton: A,
    ) -> Scan<A> {
        Scan {
            walk: Walk { grid: self, start: self.pos(start), end, direction },
            automaton,
            anchored,
        }
    }
}

impl<T> Term<T> {
    /// Finds the next match of an automaton.
    ///
    /// Each line is searched on its own, up to its last character; lines that go on in each other
    /// count as one. Where a line ends, [`Walk::breaks`] tells. This will always return the side of
    /// the first match which is farthest from the start point.
    pub fn regex_search<A: Automaton>(
        &self,
        start: Point,
        end: Point,
        direction: Direction,
        anchored: bool,
        regex: &A,
    ) -> (r: Option<Point>)
        requires
            self.grid.wf(),
            self.grid@.on_grid(start),
            regex.wf(),
            self.grid@.scan(start, end, direction, anchored, *regex).halts(),
        ensures
            r == self.grid@.scan(start, end, direction, anchored, *regex).result(),
            r matches Some(point) ==> self.grid@.on_grid(point),
    {
        let topmost_line = self.grid.topmost_line();
        let screen_lines: i32 = self.grid.screen_lines() as i32;
        let last_column = self.grid.last_column();
        let ghost g = self.grid@;
        let ghost scan = self.grid@.scan(start, end, direction, anchored, *regex);
        let ghost walk = scan.walk;
        let ghost stop = scan.last();
        let ghost mut k: int = 0;
        proof {
            g.lemma_pos(start);
            walk.lemma_on_grid(0);
            assert(scan.stops_first(stop));
        }

        let start_state: u32 = regex.start_state(anchored);
        let mut state: u32 = start_state;

        let mut iter = self.grid.iter_from(start);
        let mut regex_match: Option<Point> = None;
        let mut done = false;

        let mut cell = iter.cell();
        self.skip_fullwidth(&mut iter, &mut cell, direction);
        let mut c = cell.c;

        let mut last_wrapped = cell.flags.contains(Flags::WRAPLINE);
        let mut point = iter.point();
        let mut last_point = point;
        proof {
            g.lemma_pos(point);
        }

        loop
            invariant
                self.grid.wf(),
                g == self.grid@,
                regex.wf(),
                scan == self.grid@.scan(start, end, direction, anchored, *regex),
                walk == scan.walk,
                walk.valid(),
                topmost_line.0 == g.top(),
                screen_lines == g.screen_lines,
                last_column.0 == g.last_column(),
                start_state == regex.initial(anchored),
                regex.has_state(start_state),
                scan.stops_first(stop),
                0 <= k <= stop,
                forall|i: int| 0 <= i < k ==> !scan.stops(i),
                iter.wf(),
                *iter.grid == self.grid,
                iter.pos() == walk.far(k),
                point == iter.point,
                point == walk.point(k),
                c == g.cells[walk.read(k)].c,
                regex.has_state(state),
                state == scan.run(scan.text_before(k)),
                match scan.confirmed_before(k) {
                    Some(j) => regex_match == Some(walk.point(j)) && 0 <= j < k,
                    None => regex_match is None,
                },
                last_point == walk.point(if k > 0 {
                    k - 1
                } else {
                    0
                }),
                last_wrapped == g.has(walk.read(k), Flags::WRAPLINE),
                done == (k > 0 && g.point_at(walk.near(k)) == end),
            decreases stop - k,
        {
            // Pass the character to the automaton as individual bytes.
            let (buf, utf8_len) = encode_utf8(c);
            let ghost before = scan.text_before(k);
            let ghost bytes = scan.bytes(k);
            let ghost match_before = regex_match;
            let mut i: usize = 0;
            proof {
                assert(before + bytes.subrange(0, 0) =~= before);
            }
            while i < utf8_len
                invariant
                    i <= utf8_len <= 4,
                    1 <= utf8_len,
                    regex.wf(),
                    regex.has_state(state),
                    scan.automaton == *regex,
                    scan.walk.direction == direction,
                    bytes.len() == utf8_len,
                    bytes == scan.bytes(k),
                    before == scan.text_before(k),
                    buf@.subrange(0, utf8_len as int) == utf8(c),
                    c == scan.walk.grid.cells[scan.walk.read(k)].c,
                    state == scan.run(before + bytes.subrange(0, i as int)),
                    regex_match == (if i > 0 && scan.confirms(k) {
                        Some(last_point)
                    } else {
                        match_before
                    }),
                decreases utf8_len - i,
            {
                // The bytes come in the opposite order when going left.
                let byte: u8 = match direction {
                    Direction::Right => buf[i],
                    Direction::Left => buf[utf8_len - i - 1],
                };
                proof {
                    let all = buf@.subrange(0, utf8_len as int);
                    assert(byte == bytes[i as int]) by {
                        assert(all[i as int] == buf@[i as int]);
                        assert(all[utf8_len - i - 1] == buf@[utf8_len - i - 1]);
                    }
                    let fed = before + bytes.subrange(0, i as int);
                    let next = before + bytes.subrange(0, i + 1);
                    assert(next.drop_last() =~= fed);
                    assert(next.last() == byte);
                    if i == 0 {
                        assert(next =~= before.push(bytes[0]));
                    }
                }
                state = regex.next_state(state, byte);

                // A match is reported with one byte of delay, so the first byte of a character
                // tells whether the one before it ends a match.
                if i == 0 && regex.is_match_state(state) {
                    regex_match = Some(last_point);
                }
                i += 1;
            }
            proof {
                assert(before + bytes.subrange(0, utf8_len as int) =~= scan.text(k));
                scan.lemma_confirmed(k);
                walk.lemma_on_grid(k - 1);
                walk.lemma_on_grid(k);
                walk.lemma_on_grid(k + 1);
                match scan.confirmed(k) {
                    Some(j) => {
                        walk.lemma_on_grid(j);
                        assert(regex_match == Some(walk.point(j)));
                    },
                    None => {
                        assert(regex_match is None);
                    },
                }
            }

            // Abort on dead states.
            if regex.is_dead_state(state) {
                proof {
                    scan.lemma_last(k);
                }
                return regex_match;
            }

            // Stop once we've reached the target point.
            if point == end || done {
                // At the end of the text no byte follows.
                state = regex.next_eoi_state(state);
                if regex.is_match_state(state) {
                    regex_match = Some(point);
                }
                proof {
                    scan.lemma_last(k);
                }
                return regex_match;
            }

            // Advance the grid iterator.
            let next = match direction {
                Direction::Right => iter.next(),
                Direction::Left => iter.prev(),
            };
            let mut cell = match next {
                Some(indexed) => indexed.cell,
                None => {
                    // Wrap around to the other end of the grid.
                    proof {
                        g.lemma_pos(point);
                        g.lemma_last(point);
                        g.lemma_first(point);
                    }
                    let line = Line(topmost_line.0 - point.line.0 + screen_lines - 1);
                    let other_end = Point::new(
                        line,
                        Column(last_column.0 - point.column.0),
                    );
                    proof {
                        g.lemma_pos(other_end);
                        g.lemma_last(other_end);
                        g.lemma_first(other_end);
                    }
                    iter = self.grid.iter_from(other_end);
                    iter.cell()
                },
            };
            proof {
                assert(iter.pos() == walk.near(k + 1));
                g.lemma_pos(iter.point);
            }

            // The target may be a cell that belongs to a wide character.
            done = iter.point() == end;

            self.skip_fullwidth(&mut iter, &mut cell, direction);

            let wrapped = cell.flags.contains(Flags::WRAPLINE);
            c = cell.c;

            last_point = point;
            point = iter.point();
            proof {
                g.lemma_pos(point);
                g.lemma_pos(last_point);
            }

            // Handle linebreaks.
            let linebreak = match direction {
                Direction::Right => last_point.column == last_column && point.column == Column(0)
                    && !last_wrapped,
                Direction::Left => last_point.column == Column(0) && point.column == last_column
                    && !wrapped,
            };
            if linebreak {
                assert(walk.breaks(k + 1));
                // At the end of the line no byte follows, so a match that goes up to it, or a
                // longer one than was found before, shows only here.
                state = regex.next_eoi_state(state);
                if regex.is_match_state(state) {
                    regex_match = Some(last_point);
                }
                if regex_match.is_some() {
                    proof {
                        scan.lemma_last(k);
                    }
                    return regex_match;
                }
                state = start_state;
            } else {
                assert(!walk.breaks(k + 1));
            }

            last_wrapped = wrapped;
            proof {
                k = k + 1;
            }
        }
    }
}

} // verus!
