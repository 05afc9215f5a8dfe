//! Finding the bracket that belongs to a bracket.

use crate::grid::GridView;
use crate::index::Point;
use crate::term::Term;
use vstd::prelude::*;

verus! {

/// The bracket that belongs to `c`, and whether it stands behind `c`.
pub open spec fn counterpart(c: char) -> Option<(bool, char)> {
    if c == '(' {
        Some((true, ')'))
    } else if c == '[' {
        Some((true, ']'))
    } else if c == '{' {
        Some((true, '}'))
    } else if c == '<' {
        Some((true, '>'))
    } else if c == ')' {
        Some((false, '('))
    } else if c == ']' {
        Some((false, '['))
    } else if c == '}' {
        Some((false, '{'))
    } else if c == '>' {
        Some((false, '<'))
    } else {
        None
    }
}

/// The bracket that belongs to `c`, and whether it stands behind `c`.
fn find_counterpart(c: char) -> (r: Option<(bool, char)>)
    ensures
        r == counterpart(c),
{
    if c == '(' {
        Some((true, ')'))
    } else if c == '[' {
        Some((true, ']'))
    } else if c == '{' {
        Some((true, '}'))
    } else if c == '<' {
        Some((true, '>'))
    } else if c == ')' {
        Some((false, '('))
    } else if c == ']' {
        Some((false, '['))
    } else if c == '}' {
        Some((false, '{'))
    } else if c == '>' {
        Some((false, '<'))
    } else {
        None
    }
}

impl GridView {
    /// The cell `n` steps behind, or before, the cell `i`.
    pub open spec fn away(self, i: int, n: int, forward: bool) -> int {
        if forward {
            i + n
        } else {
            i - n
        }
    }

    /// How many of the `n` cells next to the cell `i` hold `up`, less those that hold `down`.
    pub open spec fn balance(self, i: int, n: int, forward: bool, up: char, down: char) -> int
        decreases n,
    {
        if n <= 0 {
            0
        } else {
            let c = self.cells[self.away(i, n, forward)].c;
            self.balance(i, n - 1, forward, up, down) + (if c == up {
                1int
            } else if c == down {
                -1
            } else {
                0
            })
        }
    }

    /// Whether the cell `n` steps away from the bracket in the cell `i` holds the counterpart, and
    /// the brackets of this kind in between are in balance.
    pub open spec fn closes(self, i: int, n: int) -> bool {
        let c = self.cells[i].c;
        counterpart(c) matches Some((forward, other)) && {
            &&& 1 <= n
            &&& 0 <= self.away(i, n, forward) < self.size()
            &&& self.cells[self.away(i, n, forward)].c == other
            &&& self.balance(i, n - 1, forward, c, other) == 0
        }
    }

    /// Whether there is no such cell.
    pub open spec fn unmatched(self, i: int) -> bool {
        forall|n: int| !#[trigger] self.closes(i, n)
    }

    /// Whether the nearest such cell is the cell `j`.
    pub open spec fn closed_by(self, i: int, j: int) -> bool {
        counterpart(self.cells[i].c) matches Some((forward, _)) && {
            let n = if forward {
                j - i
            } else {
                i - j
            };
            &&& self.closes(i, n)
            &&& forall|m: int| 1 <= m < n ==> !self.closes(i, m)
        }
    }
}

/// Up to the closing bracket there are never more brackets closed than opened.
proof fn lemma_never_negative(g: GridView, i: int, j: int, m: int)
    requires
        g.valid(),
        0 <= i < g.size(),
        0 <= j < g.size(),
        g.closed_by(i, j),
        0 <= m < (if counterpart(g.cells[i].c).unwrap().0 {
            j - i
        } else {
            i - j
        }),
    ensures
        ({
            let c = g.cells[i].c;
            let (forward, other) = counterpart(c).unwrap();
            g.balance(i, m, forward, c, other) >= 0
        }),
    decreases m,
{
    if m > 0 {
        lemma_never_negative(g, i, j, m - 1);
        assert(!g.closes(i, m));
    }
}

/// Counted from the other bracket, the brackets in between have the same balance.
proof fn lemma_balance_reversed(g: GridView, i: int, j: int, m: int)
    requires
        g.valid(),
        0 <= i < g.size(),
        0 <= j < g.size(),
        g.closed_by(i, j),
        0 <= m < (if counterpart(g.cells[i].c).unwrap().0 {
            j - i
        } else {
            i - j
        }),
    ensures
        ({
            let c = g.cells[i].c;
            let (forward, other) = counterpart(c).unwrap();
            let n = if forward {
                j - i
            } else {
                i - j
            };
            g.balance(j, m, !forward, other, c) == g.balance(i, n - 1 - m, forward, c, other)
        }),
    decreases m,
{
    if m > 0 {
        lemma_balance_reversed(g, i, j, m - 1);
    }
}

/// Brackets belong to each other: from the bracket that was found, the search leads back.
pub proof fn law_brackets_are_mutual(g: GridView, i: int, j: int)
    requires
        g.valid(),
        0 <= i < g.size(),
        0 <= j < g.size(),
        g.closed_by(i, j),
    ensures
        g.closed_by(j, i),
{
    let c = g.cells[i].c;
    let (forward, other) = counterpart(c).unwrap();
    let n = if forward {
        j - i
    } else {
        i - j
    };
    lemma_balance_reversed(g, i, j, n - 1);
    assert(g.closes(j, n));
    assert forall|m: int| 1 <= m < n implies !g.closes(j, m) by {
        if g.closes(j, m) {
            lemma_balance_reversed(g, i, j, m - 1);
            lemma_never_negative(g, i, j, n - m - 1);
        }
    }
}

/// A bracket belongs to one bracket at most.
pub proof fn law_bracket_is_unique(g: GridView, i: int, j: int, k: int)
    requires
        g.closed_by(i, j),
        g.closed_by(i, k),
    ensures
        j == k,
{
}

impl<T> Term<T> {
    /// Finds the next matching bracket.
    pub fn bracket_search(&self, point: Point) -> (r: Option<Point>)
        requires
            self.grid.wf(),
            self.grid@.on_grid(point),
        ensures
            match r {
                Some(other) => self.grid@.on_grid(other) && self.grid@.closed_by(
                    self.grid@.pos(point),
                    self.grid@.pos(other),
                ),
                None => self.grid@.unmatched(self.grid@.pos(point)),
            },
    {
        let start_char = self.grid.cell(point).c;

        // Find the matching bracket we're looking for.
        let (forward, end_char) = match find_counterpart(start_char) {
            Some(found) => found,
            None => {
                return None;
            },
        };

        let mut iter = self.grid.iter_from(point);
        let ghost g = self.grid@;
        let ghost i = g.pos(point);
        let ghost mut n: int = 0;
        proof {
            g.lemma_pos(point);
            assert(g.total_lines * g.columns <= 0x3fff_ffff * 0x3fff_ffff) by (nonlinear_arith)
                requires
                    0 <= g.total_lines <= 0x3fff_ffff,
                    0 <= g.columns <= 0x3fff_ffff,
            ;
        }

        // For every character that equals the starting bracket, one bracket of the opposite type
        // is ignored.
        let mut skip_pairs: u64 = 0;

        loop
            invariant
                self.grid.wf(),
                g == self.grid@,
                i == g.pos(point),
                0 <= i < g.size() <= 0x3fff_ffff * 0x3fff_ffff,
                start_char == g.cells[i].c,
                counterpart(start_char) == Some((forward, end_char)),
                iter.wf(),
                *iter.grid == self.grid,
                0 <= n < g.size(),
                iter.pos() == g.away(i, n, forward),
                skip_pairs <= n,
                skip_pairs == g.balance(i, n, forward, start_char, end_char),
                forall|m: int| 1 <= m <= n ==> !g.closes(i, m),
            decreases g.size() - n,
        {
            proof {
                g.lemma_pos(iter.point);
            }
            // Check the next cell.
            let next = if forward {
                iter.next()
            } else {
                iter.prev()
            };
            let indexed = match next {
                Some(indexed) => indexed,
                None => {
                    return None;
                },
            };
            proof {
                n = n + 1;
                g.lemma_pos(iter.point);
            }

            // Check if the bracket matches.
            if indexed.cell.c == end_char && skip_pairs == 0 {
                assert(g.closes(i, n));
                return Some(indexed.point);
            } else if indexed.cell.c == start_char {
                skip_pairs += 1;
            } else if indexed.cell.c == end_char {
                skip_pairs -= 1;
            }
        }
    }
}

} // verus!
