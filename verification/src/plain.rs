//! Words for saying what the searches do: the cells of a grid by their index, their flags by the
//! bit, and nothing that a search itself is made of.

use crate::grid::GridView;
use crate::index::{Direction, Point};
use vstd::prelude::*;
use vstd::utf8::encode_scalar;

verus! {

/// The number of cells.
pub open spec fn cell_count(g: GridView) -> int {
    g.total_lines * g.columns
}

/// Whether `p` is a place in one of the lines, of the history or of the screen.
pub open spec fn is_place(g: GridView, p: Point) -> bool {
    &&& g.screen_lines - g.total_lines <= p.line.0 < g.screen_lines
    &&& 0 <= p.column.0 < g.columns
}

/// How many cells come before `p` in reading order.
pub open spec fn index(g: GridView, p: Point) -> int {
    (p.line.0 - (g.screen_lines - g.total_lines)) * g.columns + p.column.0
}

/// Whether the bit `bit` is set in the flags of the cell `i`.
pub open spec fn flagged(g: GridView, i: int, bit: u16) -> bool {
    g.cells[i].flags.0 & bit == bit
}

/// Whether the last column of the line `line` says that the line goes on in the next one.
pub open spec fn runs_on(g: GridView, line: int) -> bool {
    flagged(g, (line - (g.screen_lines - g.total_lines)) * g.columns + g.columns - 1, 0x10)
}

/// Whether the cell `i` is in the last column of a line that does not go on in the next one.
pub open spec fn ends_hard(g: GridView, i: int) -> bool {
    i % g.columns == g.columns - 1 && !flagged(g, i, 0x10)
}

/// Whether the cell `i` is the first or the second column of a wide character, or a column left
/// free before one.
pub open spec fn part_of_wide(g: GridView, i: int) -> bool {
    flagged(g, i, 0x20) || flagged(g, i, 0x40) || flagged(g, i, 0x400)
}

/// Whether the cell `i` holds one of the characters that end a word.
pub open spec fn ends_word(g: GridView, i: int, escape_chars: Seq<char>) -> bool {
    !part_of_wide(g, i) && escape_chars.contains(g.cells[i].c)
}

/// Whether every character of the grid takes one column.
pub open spec fn narrow(g: GridView) -> bool {
    forall|i: int| 0 <= i < g.cells.len() ==> !#[trigger] part_of_wide(g, i)
}

/// Whether `open` and `close` are an opening bracket and the closing one of the same kind.
pub open spec fn bracket_pair(open: char, close: char) -> bool {
    ||| open == '(' && close == ')'
    ||| open == '[' && close == ']'
    ||| open == '{' && close == '}'
    ||| open == '<' && close == '>'
}

/// How many of the cells from `from` up to, and without, `to` hold `c`.
pub open spec fn occurrences(g: GridView, c: char, from: int, to: int) -> int
    decreases to - from,
{
    if to <= from {
        0
    } else {
        occurrences(g, c, from, to - 1) + (if g.cells[to - 1].c == c {
            1int
        } else {
            0
        })
    }
}

/// The cell `k` steps from the cell `s`, around the grid.
pub open spec fn place(g: GridView, s: int, k: int, direction: Direction) -> int {
    match direction {
        Direction::Right => (s + k) % cell_count(g),
        Direction::Left => (s - k) % cell_count(g),
    }
}

/// How many steps lead from the cell `s` to the cell `e`, around the grid.
pub open spec fn steps(g: GridView, s: int, e: int, direction: Direction) -> int {
    match direction {
        Direction::Right => (e - s) % cell_count(g),
        Direction::Left => (s - e) % cell_count(g),
    }
}

/// The bytes of `c` in the order in which a search comes to them.
pub open spec fn spelled(c: char, direction: Direction) -> Seq<u8> {
    match direction {
        Direction::Right => encode_scalar(c as u32),
        Direction::Left => encode_scalar(c as u32).reverse(),
    }
}

/// The character to which a search comes by the cell `i`: the cell that holds it, and the cell by
/// which the search leaves it.
///
/// To the right, a wide character is left by its second column, if it has one, and a column left
/// free before a wide character stands for that character. To the left, the second column stands
/// for the character, which is left by its first column, or by the one left free before it.
pub open spec fn character(g: GridView, i: int, direction: Direction) -> (int, int) {
    let last = cell_count(g) - 1;
    match direction {
        Direction::Right => if flagged(g, i, 0x20) && i % g.columns != g.columns - 1 {
            (i, i + 1)
        } else if flagged(g, i, 0x400) {
            if i + 2 <= last {
                (i + 1, i + 2)
            } else {
                (last, last)
            }
        } else {
            (i, i)
        },
        Direction::Left => if flagged(g, i, 0x40) {
            let wide = if i > 0 {
                i - 1
            } else {
                0
            };
            if wide > 0 && flagged(g, wide - 1, 0x400) {
                (wide, wide - 1)
            } else {
                (wide, wide)
            }
        } else {
            (i, i)
        },
    }
}

/// The cell by which a search from the cell `s` comes to its character `k`.
pub open spec fn entry(g: GridView, s: int, k: int, direction: Direction) -> int
    decreases k,
{
    if k <= 0 {
        s
    } else {
        place(g, character(g, entry(g, s, k - 1, direction), direction).1, 1, direction)
    }
}

/// Whether the text of a search from the cell `s` is cut between its characters `k - 1` and `k`: it
/// leaves the one by an end of a line and the other by the end of a line that faces it, and the
/// cell of the one that is read first says nothing of going on.
pub open spec fn seam(g: GridView, s: int, k: int, direction: Direction) -> bool {
    let (upper, from) = character(g, entry(g, s, k - 1, direction), direction);
    let (lower, to) = character(g, entry(g, s, k, direction), direction);
    &&& k > 0
    &&& match direction {
        Direction::Right => from % g.columns == g.columns - 1 && to % g.columns == 0 && !flagged(
            g,
            upper,
            0x10,
        ),
        Direction::Left => from % g.columns == 0 && to % g.columns == g.columns - 1 && !flagged(
            g,
            lower,
            0x10,
        ),
    }
}

/// Whether `p` is the beginning of the line `line` across linewraps: the first column of the
/// topmost of the lines that go on in each other down to it.
pub open spec fn begins_line(g: GridView, line: int, p: Point) -> bool {
    &&& p.column.0 == 0
    &&& g.screen_lines - g.total_lines <= p.line.0 <= line
    &&& forall|l: int| p.line.0 <= l < line ==> #[trigger] runs_on(g, l)
    &&& p.line.0 == g.screen_lines - g.total_lines || !runs_on(g, p.line.0 - 1)
}

/// Whether `p` is the end of the line `line` across linewraps: the last column of the bottommost of
/// the lines that go on in each other from it.
pub open spec fn finishes_line(g: GridView, line: int, p: Point) -> bool {
    &&& p.column.0 == g.columns - 1
    &&& line <= p.line.0
    &&& p.line.0 < g.screen_lines || p.line.0 == line
    &&& forall|l: int| line <= l < p.line.0 ==> #[trigger] runs_on(g, l)
    &&& p.line.0 >= g.screen_lines - 1 || !runs_on(g, p.line.0 as int)
}

/// Whether `end` is where a search from `start` ends that may go on for `max_lines` more lines: the
/// far end of the line that many lines away, counted around the grid, or all the way around to the
/// cell before the start.
pub open spec fn limits(
    g: GridView,
    start: Point,
    direction: Direction,
    max_lines: Option<usize>,
    end: Point,
) -> bool {
    &&& is_place(g, end)
    &&& match (direction, max_lines) {
        (Direction::Right, Some(lines)) => end.column.0 == g.columns - 1 && (start.line.0 + lines
            - end.line.0) % g.total_lines == 0,
        (Direction::Left, Some(lines)) => end.column.0 == 0 && (start.line.0 - lines - end.line.0)
            % g.total_lines == 0,
        (Direction::Right, None) => index(g, end) == (index(g, start) - 1) % cell_count(g),
        (Direction::Left, None) => index(g, end) == (index(g, start) + 1) % cell_count(g),
    }
}

/// Whether `p` lies beyond `origin` for a search in `direction` that began at `start`: not on the
/// way from the start to the origin.
pub open spec fn beyond(start: Point, origin: Point, direction: Direction, p: Point) -> bool {
    match direction {
        Direction::Right => {
            ||| p.line.0 < start.line.0
            ||| p.line.0 > origin.line.0
            ||| p.line.0 == origin.line.0 && p.column.0 >= origin.column.0
        },
        Direction::Left => {
            ||| p.line.0 > start.line.0
            ||| p.line.0 < origin.line.0
            ||| p.line.0 == origin.line.0 && p.column.0 <= origin.column.0
        },
    }
}

} // verus!
