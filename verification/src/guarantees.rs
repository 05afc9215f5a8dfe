//! What the operations on points, lines, words and brackets guarantee, said of the cells of the
//! grid and of what the operations return.

use crate::brackets::counterpart;
use crate::cell::{Cell, Flags};
use crate::grid::{Grid, GridIterator, GridView, Indexed};
use crate::index::{Boundary, Column, Direction, Line, Point};
use crate::laws::{law_block_end, law_block_start};
use crate::plain::{
    bracket_pair, cell_count, ends_hard, ends_word, flagged, index, is_place, occurrences,
    runs_on,
};
use crate::term::Term;
use vstd::arithmetic::div_mod::{
    lemma_fundamental_div_mod, lemma_mod_multiples_basic, lemma_small_mod,
};
use vstd::prelude::*;

verus! {

/// The beginning of a line is found across linewraps: every line from the one that was found up to
/// the one that was asked about goes on in the next, and the one above it does not.
pub proof fn law_line_search_left<T>(term: &Term<T>, point: Point, r: Point)
    requires
        term.grid.wf(),
        term.grid@.screen_lines - term.grid@.total_lines <= point.line.0,
        point.line.0 <= term.grid@.screen_lines,
        call_ensures(Term::<T>::line_search_left, (term, point), r),
    ensures
        r.column.0 == 0,
        term.grid@.screen_lines - term.grid@.total_lines <= r.line.0 <= point.line.0,
        forall|l: int| r.line.0 <= l < point.line.0 ==> #[trigger] runs_on(term.grid@, l),
        r.line.0 == term.grid@.screen_lines - term.grid@.total_lines || !runs_on(
            term.grid@,
            r.line.0 - 1,
        ),
{
    let g = term.grid@;
    g.lemma_first_line(point.line.0 as int);
    assert forall|l: int| r.line.0 <= l < point.line.0 implies #[trigger] runs_on(g, l) by {
        assert(g.line_wraps(l));
    }
}

/// The end of a line is found across linewraps: every line from the one that was asked about up to
/// the one that was found goes on in the next, and the one that was found does not.
pub proof fn law_line_search_right<T>(term: &Term<T>, point: Point, r: Point)
    requires
        term.grid.wf(),
        term.grid@.screen_lines - term.grid@.total_lines <= point.line.0,
        point.line.0 < term.grid@.screen_lines,
        call_ensures(Term::<T>::line_search_right, (term, point), r),
    ensures
        r.column.0 == term.grid@.columns - 1,
        point.line.0 <= r.line.0 < term.grid@.screen_lines,
        forall|l: int| point.line.0 <= l < r.line.0 ==> #[trigger] runs_on(term.grid@, l),
        r.line.0 == term.grid@.screen_lines - 1 || !runs_on(term.grid@, r.line.0 as int),
{
    let g = term.grid@;
    g.lemma_last_line(point.line.0 as int);
    assert forall|l: int| point.line.0 <= l < r.line.0 implies #[trigger] runs_on(g, l) by {
        assert(g.line_wraps(l));
    }
}

/// The line of a point, or the topmost line for a point above it.
pub open spec fn line_in_history(g: GridView, point: Point) -> Point {
    if point.line.0 < g.screen_lines - g.total_lines {
        Point { line: Line((g.screen_lines - g.total_lines) as i32), column: point.column }
    } else {
        point
    }
}

/// The right end of a word: no character behind the start up to it ends words, and none before it
/// ends a line; but the next character ends words, or it ends the line or the grid itself.
pub proof fn law_semantic_search_right<T>(term: &Term<T>, point: Point, r: Point)
    requires
        term.grid.wf(),
        is_place(term.grid@, line_in_history(term.grid@, point)),
        call_ensures(Term::<T>::semantic_search_right, (term, point), r),
    ensures
        is_place(term.grid@, r),
        ({
            let g = term.grid@;
            let escape_chars = term.semantic_escape_chars@;
            let i = index(g, line_in_history(g, point));
            let e = index(g, r);
            &&& i <= e
            &&& forall|j: int| i < j <= e ==> !#[trigger] ends_word(g, j, escape_chars)
            &&& forall|j: int| i < j < e ==> !#[trigger] ends_hard(g, j)
            &&& {
                ||| e + 1 == cell_count(g)
                ||| ends_word(g, e + 1, escape_chars)
                ||| i < e && ends_hard(g, e)
            }
        }),
{
    let g = term.grid@;
    let escape_chars = term.semantic_escape_chars@;
    let start = line_in_history(g, point);
    g.lemma_pos(start);
    law_block_end(g, g.pos(start), escape_chars);
    let e = g.block_end(g.pos(start), escape_chars);
    g.lemma_point_at(e);
    assert forall|j: int| g.pos(start) < j <= e implies !#[trigger] ends_word(
        g,
        j,
        escape_chars,
    ) by {
        assert(!g.escapes(j, escape_chars));
    }
    assert forall|j: int| g.pos(start) < j < e implies !#[trigger] ends_hard(g, j) by {
        assert(!g.ends_line(j));
    }
}

/// The left end of a word: no character from it up to the start ends words or a line; but the one
/// before it does, or it is the first of the grid.
pub proof fn law_semantic_search_left<T>(term: &Term<T>, point: Point, r: Point)
    requires
        term.grid.wf(),
        is_place(term.grid@, line_in_history(term.grid@, point)),
        call_ensures(Term::<T>::semantic_search_left, (term, point), r),
    ensures
        is_place(term.grid@, r),
        ({
            let g = term.grid@;
            let escape_chars = term.semantic_escape_chars@;
            let i = index(g, line_in_history(g, point));
            let s = index(g, r);
            &&& s <= i
            &&& forall|j: int| s <= j < i ==> !#[trigger] ends_word(g, j, escape_chars)
            &&& forall|j: int| s <= j < i ==> !#[trigger] ends_hard(g, j)
            &&& s == 0 || ends_word(g, s - 1, escape_chars) || ends_hard(g, s - 1)
        }),
{
    let g = term.grid@;
    let escape_chars = term.semantic_escape_chars@;
    let start = line_in_history(g, point);
    g.lemma_pos(start);
    law_block_start(g, g.pos(start), escape_chars);
    let s = g.block_start(g.pos(start), escape_chars);
    g.lemma_point_at(s);
    assert forall|j: int| s <= j < g.pos(start) implies !#[trigger] ends_word(
        g,
        j,
        escape_chars,
    ) by {
        assert(!g.escapes(j, escape_chars));
    }
    assert forall|j: int| s <= j < g.pos(start) implies !#[trigger] ends_hard(g, j) by {
        assert(!g.escapes(j, escape_chars));
    }
}

proof fn lemma_occurrences_first(g: GridView, c: char, from: int, to: int)
    requires
        from < to,
    ensures
        occurrences(g, c, from, to) == occurrences(g, c, from + 1, to) + (if g.cells[from].c == c {
            1int
        } else {
            0
        }),
    decreases to - from,
{
    reveal_with_fuel(occurrences, 2);
    if from + 1 < to {
        lemma_occurrences_first(g, c, from, to - 1);
    }
}

/// The balance of brackets is the difference of how often the two occur.
proof fn lemma_balance(g: GridView, i: int, n: int, forward: bool, up: char, down: char)
    requires
        0 <= n,
        up != down,
    ensures
        forward ==> g.balance(i, n, forward, up, down) == occurrences(g, up, i + 1, i + n + 1)
            - occurrences(g, down, i + 1, i + n + 1),
        !forward ==> g.balance(i, n, forward, up, down) == occurrences(g, up, i - n, i)
            - occurrences(g, down, i - n, i),
    decreases n,
{
    if n > 0 {
        lemma_balance(g, i, n - 1, forward, up, down);
        if !forward {
            lemma_occurrences_first(g, up, i - n, i);
            lemma_occurrences_first(g, down, i - n, i);
        }
    }
}

/// Whether the brackets `open` and `close` occur equally often between the cells `i` and `j`.
pub open spec fn balanced_between(g: GridView, open: char, close: char, i: int, j: int) -> bool {
    occurrences(g, open, i + 1, j) == occurrences(g, close, i + 1, j)
}

/// To an opening bracket belongs the first closing one behind it, wherever in the grid, with as
/// many opening as closing ones of the kind in between. Where nothing is found, there is none.
pub proof fn law_bracket_search_forward<T>(
    term: &Term<T>,
    point: Point,
    close: char,
    r: Option<Point>,
)
    requires
        term.grid.wf(),
        is_place(term.grid@, point),
        bracket_pair(term.grid@.cells[index(term.grid@, point)].c, close),
        call_ensures(Term::<T>::bracket_search, (term, point), r),
    ensures
        ({
            let g = term.grid@;
            let i = index(g, point);
            let open = g.cells[i].c;
            match r {
                Some(other) => {
                    let j = index(g, other);
                    &&& is_place(g, other)
                    &&& i < j
                    &&& g.cells[j].c == close
                    &&& balanced_between(g, open, close, i, j)
                    &&& forall|m: int|
                        i < m < j && #[trigger] g.cells[m].c == close ==> !balanced_between(
                            g,
                            open,
                            close,
                            i,
                            m,
                        )
                },
                None => forall|m: int|
                    i < m < cell_count(g) && #[trigger] g.cells[m].c == close ==> !balanced_between(
                        g,
                        open,
                        close,
                        i,
                        m,
                    ),
            }
        }),
{
    let g = term.grid@;
    let i = index(g, point);
    let open = g.cells[i].c;
    let end = match r {
        Some(other) => index(g, other),
        None => cell_count(g),
    };
    g.lemma_pos(point);
    assert(counterpart(open) == Some((true, close)));
    if let Some(other) = r {
        g.lemma_pos(other);
        lemma_balance(g, i, end - i - 1, true, open, close);
    }
    assert forall|m: int| i < m < end && #[trigger] g.cells[m].c
        == close implies !balanced_between(g, open, close, i, m) by {
        assert(!g.closes(g.pos(point), m - i));
        lemma_balance(g, i, m - i - 1, true, open, close);
    }
}

/// To a closing bracket belongs the last opening one before it, wherever in the grid, with as many
/// opening as closing ones of the kind in between. Where nothing is found, there is none.
pub proof fn law_bracket_search_backward<T>(
    term: &Term<T>,
    point: Point,
    open: char,
    r: Option<Point>,
)
    requires
        term.grid.wf(),
        is_place(term.grid@, point),
        bracket_pair(open, term.grid@.cells[index(term.grid@, point)].c),
        call_ensures(Term::<T>::bracket_search, (term, point), r),
    ensures
        ({
            let g = term.grid@;
            let i = index(g, point);
            let close = g.cells[i].c;
            match r {
                Some(other) => {
                    let j = index(g, other);
                    &&& is_place(g, other)
                    &&& j < i
                    &&& g.cells[j].c == open
                    &&& balanced_between(g, open, close, j, i)
                    &&& forall|m: int|
                        j < m < i && #[trigger] g.cells[m].c == open ==> !balanced_between(
                            g,
                            open,
                            close,
                            m,
                            i,
                        )
                },
                None => forall|m: int|
                    0 <= m < i && #[trigger] g.cells[m].c == open ==> !balanced_between(
                        g,
                        open,
                        close,
                        m,
                        i,
                    ),
            }
        }),
{
    let g = term.grid@;
    let i = index(g, point);
    let close = g.cells[i].c;
    let end = match r {
        Some(other) => index(g, other),
        None => -1,
    };
    g.lemma_pos(point);
    assert(counterpart(close) == Some((false, open)));
    if let Some(other) = r {
        g.lemma_pos(other);
        lemma_balance(g, i, i - end - 1, false, close, open);
    }
    assert forall|m: int| end < m < i && #[trigger] g.cells[m].c
        == open implies !balanced_between(g, open, close, m, i) by {
        assert(!g.closes(g.pos(point), i - m));
        lemma_balance(g, i, i - m - 1, false, close, open);
    }
}

/// To any other character belongs no bracket.
pub proof fn law_bracket_search_elsewhere<T>(term: &Term<T>, point: Point, r: Option<Point>)
    requires
        term.grid.wf(),
        is_place(term.grid@, point),
        !seq!['(', ')', '[', ']', '{', '}', '<', '>'].contains(
            term.grid@.cells[index(term.grid@, point)].c,
        ),
        call_ensures(Term::<T>::bracket_search, (term, point), r),
    ensures
        r is None,
{
    let c = term.grid@.cells[index(term.grid@, point)].c;
    let brackets = seq!['(', ')', '[', ']', '{', '}', '<', '>'];
    assert(brackets[0] != c && brackets[1] != c && brackets[2] != c && brackets[3] != c);
    assert(brackets[4] != c && brackets[5] != c && brackets[6] != c && brackets[7] != c);
}

/// Reading order: line by line, and within a line column by column.
pub proof fn law_reading_order(g: GridView, p: Point, q: Point)
    requires
        g.valid(),
        is_place(g, p),
        is_place(g, q),
    ensures
        0 <= g.pos(p) < cell_count(g),
        g.pos(p) == index(g, p),
        g.point_at(index(g, p)) == p,
        index(g, p) < index(g, q) <==> p.line.0 < q.line.0 || p.line.0 == q.line.0 && p.column.0
            < q.column.0,
{
    g.lemma_pos(p);
    g.lemma_pos(q);
    let x = p.line.0 - g.top();
    let y = q.line.0 - g.top();
    let (c, d) = (p.column.0 as int, q.column.0 as int);
    assert(x < y ==> x * g.columns + c < y * g.columns + d) by (nonlinear_arith)
        requires
            0 <= c < g.columns,
            0 <= d,
    ;
    assert(y < x ==> y * g.columns + d < x * g.columns + c) by (nonlinear_arith)
        requires
            0 <= d < g.columns,
            0 <= c,
    ;
}

/// The cell at a point is the one with the index of the point.
pub proof fn law_cell(grid: &Grid, point: Point, cell: &Cell)
    requires
        grid.wf(),
        is_place(grid@, point),
        call_ensures(Grid::cell, (grid, point), cell),
    ensures
        *cell == grid@.cells[index(grid@, point)],
{
}

/// Moving a point to the right, around the grid or up to its end.
pub proof fn law_point_add(point: Point, grid: &Grid, boundary: Boundary, rhs: usize, r: Point)
    requires
        grid.wf(),
        is_place(grid@, point),
        call_ensures(Point::add, (point, grid, boundary, rhs), r),
    ensures
        is_place(grid@, r),
        boundary == Boundary::Wrap ==> index(grid@, r) == (index(grid@, point) + rhs) % cell_count(
            grid@,
        ),
        boundary == Boundary::Grid && index(grid@, point) + rhs < cell_count(grid@) ==> index(
            grid@,
            r,
        ) == index(grid@, point) + rhs,
        boundary == Boundary::Grid && index(grid@, point) + rhs >= cell_count(grid@) ==> index(
            grid@,
            r,
        ) == cell_count(grid@) - 1,
{
    grid@.lemma_pos(point);
}

/// Moving a point to the left, around the grid or up to its beginning.
pub proof fn law_point_sub(point: Point, grid: &Grid, boundary: Boundary, rhs: usize, r: Point)
    requires
        grid.wf(),
        is_place(grid@, point),
        call_ensures(Point::sub, (point, grid, boundary, rhs), r),
    ensures
        is_place(grid@, r),
        boundary == Boundary::Wrap ==> index(grid@, r) == (index(grid@, point) - rhs) % cell_count(
            grid@,
        ),
        boundary == Boundary::Grid && index(grid@, point) >= rhs ==> index(grid@, r) == index(
            grid@,
            point,
        ) - rhs,
        boundary == Boundary::Grid && index(grid@, point) < rhs ==> index(grid@, r) == 0,
{
    grid@.lemma_pos(point);
}

/// Bringing a line back into the grid, around the grid or to its nearest line.
pub proof fn law_line_clamp(line: Line, grid: &Grid, boundary: Boundary, r: Line)
    requires
        grid.wf(),
        call_ensures(Line::grid_clamp, (line, grid, boundary), r),
    ensures
        grid@.screen_lines - grid@.total_lines <= r.0 < grid@.screen_lines,
        boundary == Boundary::Wrap ==> (r.0 - line.0) % grid@.total_lines == 0,
        grid@.screen_lines - grid@.total_lines <= line.0 < grid@.screen_lines ==> r == line,
        boundary == Boundary::Grid && line.0 < grid@.screen_lines - grid@.total_lines ==> r.0
            == grid@.screen_lines - grid@.total_lines,
        boundary == Boundary::Grid && line.0 >= grid@.screen_lines ==> r.0 == grid@.screen_lines
            - 1,
{
    let t = grid@.total_lines;
    let x = line.0 - grid@.top();
    if boundary == Boundary::Wrap {
        lemma_fundamental_div_mod(x, t);
        let q = x / t;
        assert(r.0 - line.0 == (-q) * t) by (nonlinear_arith)
            requires
                r.0 - line.0 == x % t - x,
                x == t * q + x % t,
        ;
        lemma_mod_multiples_basic(-q, t);
        if 0 <= x < t {
            lemma_small_mod(x as nat, t as nat);
        }
    }
}

/// The end of a character: of a wide one the second column to the right, and to the left the first
/// one, or the column that was left free before it. Any other character is its own end.
pub proof fn law_expand_wide<T>(term: &Term<T>, point: Point, direction: Direction, r: Point)
    requires
        term.grid.wf(),
        is_place(term.grid@, point),
        direction == Direction::Left && flagged(term.grid@, index(term.grid@, point), 0x40)
            ==> point.column.0 > 0,
        call_ensures(Term::<T>::expand_wide, (term, point, direction), r),
    ensures
        ({
            let g = term.grid@;
            let i = index(g, point);
            match direction {
                Direction::Right => {
                    &&& flagged(g, i, 0x400) ==> r.line.0 == point.line.0 + 1 && r.column.0 == 1
                    &&& !flagged(g, i, 0x400) && flagged(g, i, 0x20) && point.column.0 + 1
                        < g.columns ==> r.line == point.line && r.column.0 == point.column.0 + 1
                    &&& !flagged(g, i, 0x400) && !(flagged(g, i, 0x20) && point.column.0 + 1
                        < g.columns) ==> r == point
                },
                Direction::Left => {
                    let wide = if flagged(g, i, 0x40) {
                        i - 1
                    } else {
                        i
                    };
                    let before = if wide > 0 {
                        wide - 1
                    } else {
                        0
                    };
                    if !flagged(g, i, 0x20) && !flagged(g, i, 0x40) {
                        r == point
                    } else {
                        &&& is_place(g, r)
                        &&& flagged(g, before, 0x400) ==> index(g, r) == before
                        &&& !flagged(g, before, 0x400) ==> index(g, r) == wide
                    }
                },
            }
        }),
{
    let g = term.grid@;
    let i = index(g, point);
    g.lemma_pos(point);
    g.lemma_expanded(point, direction);
    if direction == Direction::Right {
        if g.takes_next(i) {
            g.lemma_pos(
                Point { line: point.line, column: Column((point.column.0 + 1) as usize) },
            );
        }
    } else {
        let wide = if flagged(g, i, 0x40) {
            i - 1
        } else {
            i
        };
        g.lemma_first(point);
        g.lemma_point_at(wide);
        g.lemma_point_at(g.bounded(wide - 1, Boundary::Grid));
    }
}

/// The operations are defined for every place of every grid.
pub proof fn law_every_place_is_defined<T>(term: &Term<T>, point: Point, direction: Direction)
    requires
        term.grid.wf(),
        is_place(term.grid@, point),
    ensures
        call_requires(Grid::cell, (&term.grid, point)),
        call_requires(Grid::iter_from, (&term.grid, point)),
        call_requires(Term::<T>::bracket_search, (term, point)),
        call_requires(Term::<T>::semantic_search_left, (term, point)),
        call_requires(Term::<T>::semantic_search_right, (term, point)),
        call_requires(Term::<T>::line_search_left, (term, point)),
        call_requires(Term::<T>::line_search_right, (term, point)),
        !(direction == Direction::Left && point.column.0 == 0 && flagged(
            term.grid@,
            index(term.grid@, point),
            0x40,
        )) ==> call_requires(Term::<T>::expand_wide, (term, point, direction)),
{
}

/// A point above the history counts as one in the topmost line.
pub proof fn law_words_above_the_history<T>(term: &Term<T>, point: Point)
    requires
        term.grid.wf(),
        point.line.0 < term.grid@.screen_lines,
        point.column.0 < term.grid@.columns,
    ensures
        call_requires(Term::<T>::semantic_search_left, (term, point)),
        call_requires(Term::<T>::semantic_search_right, (term, point)),
{
}

/// A new grid is blank, and as large as asked for.
pub proof fn law_grid_new(screen_lines: usize, columns: usize, history_size: usize, grid: Grid)
    requires
        1 <= columns <= 0x3fff_ffff,
        1 <= screen_lines,
        screen_lines + history_size <= 0x3fff_ffff,
        call_ensures(Grid::new, (screen_lines, columns, history_size), grid),
    ensures
        call_requires(Grid::new, (screen_lines, columns, history_size)),
        grid.wf(),
        grid@.columns == columns,
        grid@.screen_lines == screen_lines,
        grid@.total_lines == screen_lines + history_size,
        grid@.cells.len() == grid@.total_lines * columns,
        forall|i: int|
            0 <= i < grid@.cells.len() ==> (#[trigger] grid@.cells[i]).c == ' '
                && grid@.cells[i].flags.0 == 0,
{
}

/// Flags are bits.
pub proof fn law_flags(flags: &Flags, mask: u16, r: bool)
    ensures
        call_ensures(Flags::contains, (flags, mask), r) ==> r == (flags.0 & mask == mask),
        call_ensures(Flags::intersects, (flags, mask), r) ==> r == (flags.0 & mask != 0),
        Flags::WRAPLINE == 0x10,
        Flags::WIDE_CHAR == 0x20,
        Flags::WIDE_CHAR_SPACER == 0x40,
        Flags::LEADING_WIDE_CHAR_SPACER == 0x400,
{
}

/// Replacing a cell changes that cell and no other.
pub proof fn law_set_cell()
    ensures
        forall|grid: &mut Grid, point: Point, cell: Cell, i: int|
            grid.wf() && is_place(grid@, point) && #[trigger] call_ensures(
                Grid::set_cell,
                (grid, point, cell),
                (),
            ) && 0 <= i < cell_count(grid@) ==> {
                &&& final(grid).wf()
                &&& final(grid)@.columns == grid@.columns
                &&& final(grid)@.screen_lines == grid@.screen_lines
                &&& final(grid)@.total_lines == grid@.total_lines
                &&& #[trigger] final(grid)@.cells[i] == (if i == index(grid@, point) {
                    cell
                } else {
                    grid@.cells[i]
                })
            },
{
    assert forall|grid: &mut Grid, point: Point, cell: Cell, i: int|
        grid.wf() && is_place(grid@, point) && #[trigger] call_ensures(
            Grid::set_cell,
            (grid, point, cell),
            (),
        ) && 0 <= i < cell_count(grid@) implies {
        &&& final(grid).wf()
        &&& final(grid)@.columns == grid@.columns
        &&& final(grid)@.screen_lines == grid@.screen_lines
        &&& final(grid)@.total_lines == grid@.total_lines
        &&& #[trigger] final(grid)@.cells[i] == (if i == index(grid@, point) {
            cell
        } else {
            grid@.cells[i]
        })
    } by {
        grid@.lemma_pos(point);
    }
}

/// Setting flags sets their bits and no other.
pub proof fn law_insert_flags()
    ensures
        forall|flags: &mut Flags, mask: u16| #[trigger]
            call_ensures(Flags::insert, (flags, mask), ()) ==> final(flags).0 == flags.0 | mask,
{
}

/// An iterator over the cells goes to the next one in reading order, unless it is at the end.
pub proof fn law_grid_iterator_next<'a>()
    ensures
        forall|iter: &mut GridIterator<'a>, r: Option<Indexed<'a>>|
            iter.grid.wf() && is_place(iter.grid@, iter.point) && #[trigger] call_ensures(
                GridIterator::<'a>::next,
                (iter,),
                r,
            ) ==> {
                let g = iter.grid@;
                let i = index(g, iter.point);
                if i + 1 < cell_count(g) {
                    &&& r matches Some(indexed)
                    &&& is_place(g, indexed.point)
                    &&& index(g, indexed.point) == i + 1
                    &&& *indexed.cell == g.cells[i + 1]
                    &&& final(iter).point == indexed.point
                } else {
                    r is None && final(iter).point == iter.point
                }
            },
{
    assert forall|iter: &mut GridIterator<'a>, r: Option<Indexed<'a>>|
        iter.grid.wf() && is_place(iter.grid@, iter.point) && #[trigger] call_ensures(
            GridIterator::<'a>::next,
            (iter,),
            r,
        ) implies {
        let g = iter.grid@;
        let i = index(g, iter.point);
        if i + 1 < cell_count(g) {
            &&& r matches Some(indexed)
            &&& is_place(g, indexed.point)
            &&& index(g, indexed.point) == i + 1
            &&& *indexed.cell == g.cells[i + 1]
            &&& final(iter).point == indexed.point
        } else {
            r is None && final(iter).point == iter.point
        }
    } by {
        iter.grid@.lemma_pos(iter.point);
    }
}

/// The other way, it goes to the previous one, unless it is at the beginning.
pub proof fn law_grid_iterator_prev<'a>()
    ensures
        forall|iter: &mut GridIterator<'a>, r: Option<Indexed<'a>>|
            iter.grid.wf() && is_place(iter.grid@, iter.point) && #[trigger] call_ensures(
                GridIterator::<'a>::prev,
                (iter,),
                r,
            ) ==> {
                let g = iter.grid@;
                let i = index(g, iter.point);
                if i > 0 {
                    &&& r matches Some(indexed)
                    &&& is_place(g, indexed.point)
                    &&& index(g, indexed.point) == i - 1
                    &&& *indexed.cell == g.cells[i - 1]
                    &&& final(iter).point == indexed.point
                } else {
                    r is None && final(iter).point == iter.point
                }
            },
{
    assert forall|iter: &mut GridIterator<'a>, r: Option<Indexed<'a>>|
        iter.grid.wf() && is_place(iter.grid@, iter.point) && #[trigger] call_ensures(
            GridIterator::<'a>::prev,
            (iter,),
            r,
        ) implies {
        let g = iter.grid@;
        let i = index(g, iter.point);
        if i > 0 {
            &&& r matches Some(indexed)
            &&& is_place(g, indexed.point)
            &&& index(g, indexed.point) == i - 1
            &&& *indexed.cell == g.cells[i - 1]
            &&& final(iter).point == indexed.point
        } else {
            r is None && final(iter).point == iter.point
        }
    } by {
        iter.grid@.lemma_pos(iter.point);
    }
}

/// The extent of a grid.
pub proof fn law_extent(grid: &Grid, n: usize, column: Column, line: Line)
    requires
        grid.wf(),
    ensures
        call_ensures(Grid::columns, (grid,), n) ==> n == grid@.columns,
        call_ensures(Grid::screen_lines, (grid,), n) ==> n == grid@.screen_lines,
        call_ensures(Grid::total_lines, (grid,), n) ==> n == grid@.total_lines,
        call_ensures(Grid::last_column, (grid,), column) ==> column.0 == grid@.columns - 1,
        call_ensures(Grid::topmost_line, (grid,), line) ==> line.0 == grid@.screen_lines
            - grid@.total_lines,
        call_ensures(Grid::bottommost_line, (grid,), line) ==> line.0 == grid@.screen_lines - 1,
{
}

} // verus!
