//! Brackets, words and lines.

use termsearch::cell::{Cell, Flags};
use termsearch::grid::Grid;
use termsearch::index::{Boundary, Column, Line, Point};
use termsearch::term::Term;
use termsearch::utf8::encode_utf8;

const ESCAPE_CHARS: &str = ",│`|:\"' ()[]{}<>\t";

fn at(line: i32, column: usize) -> Point {
    Point::new(Line(line), Column(column))
}

/// A terminal with the given lines, the first `history` of them scrolled off the screen.
fn term(lines: &[&str], history: usize) -> Term<()> {
    let columns = lines.iter().map(|line| line.chars().count()).max().unwrap_or(0);
    let grid = Grid::new(lines.len() - history, columns, history);
    let mut term = Term::new(grid, ESCAPE_CHARS.to_string(), ());
    for (i, text) in lines.iter().enumerate() {
        for (column, c) in text.chars().enumerate() {
            let point = at(i as i32 - history as i32, column);
            term.grid.set_cell(point, Cell { c, flags: Flags(0) });
        }
    }
    term
}

fn insert_flag(term: &mut Term<()>, point: Point, flag: u16) {
    let mut cell = *term.grid.cell(point);
    cell.flags.insert(flag);
    term.grid.set_cell(point, cell);
}

#[test]
fn bracket_pairs() {
    let term = term(&["([{<>}])"], 0);
    for column in 0..8 {
        assert_eq!(term.bracket_search(at(0, column)), Some(at(0, 7 - column)));
    }
}

#[test]
fn nested_brackets() {
    let term = term(&["f(a(b)c", "(d)e) ()"], 0);
    assert_eq!(term.bracket_search(at(0, 1)), Some(at(1, 4)));
    assert_eq!(term.bracket_search(at(1, 4)), Some(at(0, 1)));
    assert_eq!(term.bracket_search(at(0, 3)), Some(at(0, 5)));
    assert_eq!(term.bracket_search(at(1, 6)), Some(at(1, 7)));
}

#[test]
fn brackets_of_other_kinds_are_ignored() {
    let term = term(&["(])[("], 0);
    assert_eq!(term.bracket_search(at(0, 0)), Some(at(0, 2)));
    assert_eq!(term.bracket_search(at(0, 2)), Some(at(0, 0)));
    // No counterpart.
    assert_eq!(term.bracket_search(at(0, 1)), None);
    assert_eq!(term.bracket_search(at(0, 3)), None);
    assert_eq!(term.bracket_search(at(0, 4)), None);
}

#[test]
fn no_bracket() {
    let term = term(&["a()"], 0);
    assert_eq!(term.bracket_search(at(0, 0)), None);
}

#[test]
fn brackets_in_history() {
    let term = term(&["(", " ", ")"], 2);
    assert_eq!(term.bracket_search(at(-2, 0)), Some(at(0, 0)));
    assert_eq!(term.bracket_search(at(0, 0)), Some(at(-2, 0)));
}

#[test]
fn semantic_block() {
    let term = term(&["foo bar-baz,x"], 0);
    for column in 4..=10 {
        assert_eq!(term.semantic_search_left(at(0, column)), at(0, 4));
        assert_eq!(term.semantic_search_right(at(0, column)), at(0, 10));
    }
    assert_eq!(term.semantic_search_left(at(0, 2)), at(0, 0));
    assert_eq!(term.semantic_search_right(at(0, 0)), at(0, 2));
    // The last cell of the grid ends a block.
    assert_eq!(term.semantic_search_right(at(0, 12)), at(0, 12));
}

#[test]
fn semantic_block_across_lines() {
    let mut term = term(&["ab", "cd", "ef"], 0);
    assert_eq!(term.semantic_search_left(at(1, 1)), at(1, 0));
    assert_eq!(term.semantic_search_right(at(1, 0)), at(1, 1));

    insert_flag(&mut term, at(0, 1), Flags::WRAPLINE);
    insert_flag(&mut term, at(1, 1), Flags::WRAPLINE);
    assert_eq!(term.semantic_search_left(at(2, 1)), at(0, 0));
    assert_eq!(term.semantic_search_right(at(0, 0)), at(2, 1));
}

#[test]
fn semantic_search_right_from_end_of_line() {
    // The cell on which the search begins does not end it.
    let term = term(&["ab", "cd"], 0);
    assert_eq!(term.semantic_search_right(at(0, 1)), at(1, 1));
}

#[test]
fn wide_characters_do_not_end_words() {
    let mut term = term(&["a  b"], 0);
    insert_flag(&mut term, at(0, 1), Flags::WIDE_CHAR);
    insert_flag(&mut term, at(0, 2), Flags::WIDE_CHAR_SPACER);
    assert_eq!(term.semantic_search_left(at(0, 3)), at(0, 0));
    assert_eq!(term.semantic_search_right(at(0, 0)), at(0, 3));
}

#[test]
fn semantic_search_above_history() {
    let term = term(&["ab cd", "ef gh"], 1);
    assert_eq!(term.semantic_search_left(at(-9, 4)), at(-1, 3));
    assert_eq!(term.semantic_search_right(at(-9, 0)), at(-1, 1));
}

#[test]
fn line_ends() {
    let mut term = term(&["aa", "bb", "cc", "dd"], 2);
    insert_flag(&mut term, at(-2, 1), Flags::WRAPLINE);
    insert_flag(&mut term, at(-1, 1), Flags::WRAPLINE);
    for line in -2..=0 {
        assert_eq!(term.line_search_left(at(line, 1)), at(-2, 0));
        assert_eq!(term.line_search_right(at(line, 0)), at(0, 1));
    }
    assert_eq!(term.line_search_left(at(1, 1)), at(1, 0));
    assert_eq!(term.line_search_right(at(1, 0)), at(1, 1));

    // The bottommost line cannot go on.
    insert_flag(&mut term, at(1, 1), Flags::WRAPLINE);
    assert_eq!(term.line_search_right(at(1, 0)), at(1, 1));
}

#[test]
fn moving_points() {
    let grid = Grid::new(3, 7, 2);
    let wrap = Boundary::Wrap;
    assert_eq!(at(0, 0).add(&grid, wrap, 1), at(0, 1));
    assert_eq!(at(0, 6).add(&grid, wrap, 1), at(1, 0));
    assert_eq!(at(0, 3).add(&grid, wrap, 18), at(-2, 0));
    assert_eq!(at(2, 6).add(&grid, wrap, 1), at(-2, 0));
    assert_eq!(at(2, 6).add(&grid, Boundary::Grid, 1), at(2, 6));
    assert_eq!(at(0, 0).sub(&grid, wrap, 1), at(-1, 6));
    assert_eq!(at(-2, 0).sub(&grid, wrap, 1), at(2, 6));
    assert_eq!(at(-2, 0).sub(&grid, Boundary::Grid, 1), at(-2, 0));
    assert_eq!(at(1, 2).sub(&grid, wrap, 10), at(-1, 6));
    assert_eq!(Line(3).grid_clamp(&grid, wrap), Line(-2));
    assert_eq!(Line(-3).grid_clamp(&grid, wrap), Line(2));
    assert_eq!(Line(-8).grid_clamp(&grid, wrap), Line(2));
    assert_eq!(Line(9).grid_clamp(&grid, Boundary::Grid), Line(2));
}

#[test]
fn characters_as_bytes() {
    for c in ['\0', 'a', '\u{7f}', '\u{80}', 'и', '\u{7ff}', '\u{800}', '字', '\u{ffff}', '🦇'] {
        let mut expected = [0; 4];
        let len = c.encode_utf8(&mut expected).len();
        assert_eq!(encode_utf8(c), (expected, len));
    }
}
