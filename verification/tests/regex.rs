//! Searching for regular expressions.

use termsearch::cell::{Cell, Flags};
use termsearch::grid::Grid;
use termsearch::index::{Column, Direction, Line, Point};
use termsearch::matches::RegexIter;
use termsearch::regex::{BuildError, RegexSearch};
use termsearch::term::Term;

fn width(c: char) -> usize {
    match c {
        '🦇' => 2,
        _ => 1,
    }
}

fn insert_flag(term: &mut Term<()>, point: Point, flag: u16) {
    let mut cell = *term.grid.cell(point);
    cell.flags.insert(flag);
    term.grid.set_cell(point, cell);
}

/// A terminal with the given content. A `\n` breaks the line, a `\r\n` breaks the line without
/// wrapping.
fn mock_term(content: &str) -> Term<()> {
    let lines: Vec<&str> = content.split('\n').collect();
    let columns = lines
        .iter()
        .map(|line| line.chars().filter(|c| *c != '\r').map(width).sum())
        .max()
        .unwrap_or(0);
    let mut term = Term::new(Grid::new(lines.len(), columns, 0), String::new(), ());

    for (i, text) in lines.iter().enumerate() {
        let line = Line(i as i32);
        let mut index = 0;
        for c in text.chars().take_while(|c| *c != '\r') {
            let point = Point::new(line, Column(index));
            term.grid.set_cell(point, Cell { c, flags: Flags(0) });

            // Handle fullwidth characters.
            if width(c) == 2 {
                insert_flag(&mut term, point, Flags::WIDE_CHAR);
                let spacer = Point::new(line, Column(index + 1));
                insert_flag(&mut term, spacer, Flags::WIDE_CHAR_SPACER);
            }
            index += width(c);
        }
        if !text.ends_with('\r') && i + 1 != lines.len() {
            let last = Point::new(line, Column(columns - 1));
            insert_flag(&mut term, last, Flags::WRAPLINE);
        }
    }

    term
}

#[test]
fn regex_right() {
    let term = mock_term("\
        testing66\r\n\
        Alacritty\n\
        123\r\n\
        Alacritty\r\n\
        123\
    ");

    // Check regex across wrapped and unwrapped lines.
    let regex = RegexSearch::new("Ala.*123").unwrap();
    let start = Point::new(Line(1), Column(0));
    let end = Point::new(Line(4), Column(2));
    let match_start = Point::new(Line(1), Column(0));
    let match_end = Point::new(Line(2), Column(2));
    assert_eq!(term.regex_search_right(&regex, start, end), Some(match_start..=match_end));
}

#[test]
fn regex_left() {
    let term = mock_term("\
        testing66\r\n\
        Alacritty\n\
        123\r\n\
        Alacritty\r\n\
        123\
    ");

    // Check regex across wrapped and unwrapped lines.
    let regex = RegexSearch::new("Ala.*123").unwrap();
    let start = Point::new(Line(4), Column(2));
    let end = Point::new(Line(1), Column(0));
    let match_start = Point::new(Line(1), Column(0));
    let match_end = Point::new(Line(2), Column(2));
    assert_eq!(term.regex_search_left(&regex, start, end), Some(match_start..=match_end));
}

#[test]
fn nested_regex() {
    let term = mock_term("\
        Ala -> Alacritty -> critty\r\n\
        critty\
    ");

    // Greedy stopped at linebreak.
    let regex = RegexSearch::new("Ala.*critty").unwrap();
    let start = Point::new(Line(0), Column(0));
    let end = Point::new(Line(0), Column(25));
    assert_eq!(term.regex_search_right(&regex, start, end), Some(start..=end));

    // Greedy stopped at dead state.
    let regex = RegexSearch::new("Ala[^y]*critty").unwrap();
    let start = Point::new(Line(0), Column(0));
    let end = Point::new(Line(0), Column(15));
    assert_eq!(term.regex_search_right(&regex, start, end), Some(start..=end));
}

#[test]
fn no_match_right() {
    let term = mock_term("\
        first line\n\
        broken second\r\n\
        third\
    ");

    let regex = RegexSearch::new("nothing").unwrap();
    let start = Point::new(Line(0), Column(0));
    let end = Point::new(Line(2), Column(4));
    assert_eq!(term.regex_search_right(&regex, start, end), None);
}

#[test]
fn no_match_left() {
    let term = mock_term("\
        first line\n\
        broken second\r\n\
        third\
    ");

    let regex = RegexSearch::new("nothing").unwrap();
    let start = Point::new(Line(2), Column(4));
    let end = Point::new(Line(0), Column(0));
    assert_eq!(term.regex_search_left(&regex, start, end), None);
}

#[test]
fn include_linebreak_left() {
    let term = mock_term("\
        testing123\r\n\
        xxx\
    ");

    // Make sure the cell containing the linebreak is not skipped.
    let regex = RegexSearch::new("te.*123").unwrap();
    let start = Point::new(Line(1), Column(0));
    let end = Point::new(Line(0), Column(0));
    let match_start = Point::new(Line(0), Column(0));
    let match_end = Point::new(Line(0), Column(9));
    assert_eq!(term.regex_search_left(&regex, start, end), Some(match_start..=match_end));
}

#[test]
fn include_linebreak_right() {
    let term = mock_term("\
        xxx\r\n\
        testing123\
    ");

    // Make sure the cell containing the linebreak is not skipped.
    let regex = RegexSearch::new("te.*123").unwrap();
    let start = Point::new(Line(0), Column(2));
    let end = Point::new(Line(1), Column(9));
    let match_start = Point::new(Line(1), Column(0));
    assert_eq!(term.regex_search_right(&regex, start, end), Some(match_start..=end));
}

#[test]
fn skip_dead_cell() {
    let term = mock_term("alacritty");

    // Make sure dead state cell is skipped when reversing.
    let regex = RegexSearch::new("alacrit").unwrap();
    let start = Point::new(Line(0), Column(0));
    let end = Point::new(Line(0), Column(6));
    assert_eq!(term.regex_search_right(&regex, start, end), Some(start..=end));
}

#[test]
fn reverse_search_dead_recovery() {
    let term = mock_term("zooo lense");

    // Make sure the reverse DFA operates the same as a forward DFA.
    let regex = RegexSearch::new("zoo").unwrap();
    let start = Point::new(Line(0), Column(9));
    let end = Point::new(Line(0), Column(0));
    let match_start = Point::new(Line(0), Column(0));
    let match_end = Point::new(Line(0), Column(2));
    assert_eq!(term.regex_search_left(&regex, start, end), Some(match_start..=match_end));
}

#[test]
fn multibyte_unicode() {
    let term = mock_term("testвосибing");

    let regex = RegexSearch::new("te.*ing").unwrap();
    let start = Point::new(Line(0), Column(0));
    let end = Point::new(Line(0), Column(11));
    assert_eq!(term.regex_search_right(&regex, start, end), Some(start..=end));

    let regex = RegexSearch::new("te.*ing").unwrap();
    let start = Point::new(Line(0), Column(11));
    let end = Point::new(Line(0), Column(0));
    assert_eq!(term.regex_search_left(&regex, start, end), Some(end..=start));
}

#[test]
fn end_on_multibyte_unicode() {
    let term = mock_term("testвосиб");

    let regex = RegexSearch::new("te.*и").unwrap();
    let start = Point::new(Line(0), Column(0));
    let end = Point::new(Line(0), Column(8));
    let match_end = Point::new(Line(0), Column(7));
    assert_eq!(term.regex_search_right(&regex, start, end), Some(start..=match_end));
}

#[test]
fn fullwidth() {
    let term = mock_term("a🦇x🦇");

    let regex = RegexSearch::new("[^ ]*").unwrap();
    let start = Point::new(Line(0), Column(0));
    let end = Point::new(Line(0), Column(5));
    assert_eq!(term.regex_search_right(&regex, start, end), Some(start..=end));

    let regex = RegexSearch::new("[^ ]*").unwrap();
    let start = Point::new(Line(0), Column(5));
    let end = Point::new(Line(0), Column(0));
    assert_eq!(term.regex_search_left(&regex, start, end), Some(end..=start));
}

#[test]
fn singlecell_fullwidth() {
    let term = mock_term("🦇");

    let regex = RegexSearch::new("🦇").unwrap();
    let start = Point::new(Line(0), Column(0));
    let end = Point::new(Line(0), Column(1));
    assert_eq!(term.regex_search_right(&regex, start, end), Some(start..=end));

    let regex = RegexSearch::new("🦇").unwrap();
    let start = Point::new(Line(0), Column(1));
    let end = Point::new(Line(0), Column(0));
    assert_eq!(term.regex_search_left(&regex, start, end), Some(end..=start));
}

#[test]
fn end_on_fullwidth() {
    let term = mock_term("jarr🦇");

    let start = Point::new(Line(0), Column(0));
    let end = Point::new(Line(0), Column(4));

    // Ensure ending without a match doesn't loop indefinitely.
    let regex = RegexSearch::new("x").unwrap();
    assert_eq!(term.regex_search_right(&regex, start, end), None);

    let regex = RegexSearch::new("x").unwrap();
    let match_end = Point::new(Line(0), Column(5));
    assert_eq!(term.regex_search_right(&regex, start, match_end), None);

    // Ensure match is captured when only partially inside range.
    let regex = RegexSearch::new("jarr🦇").unwrap();
    assert_eq!(term.regex_search_right(&regex, start, end), Some(start..=match_end));
}

#[test]
fn wrapping() {
    let term = mock_term("\
        xxx\r\n\
        xxx\
    ");

    let regex = RegexSearch::new("xxx").unwrap();
    let start = Point::new(Line(0), Column(2));
    let end = Point::new(Line(1), Column(2));
    let match_start = Point::new(Line(1), Column(0));
    assert_eq!(term.regex_search_right(&regex, start, end), Some(match_start..=end));

    let regex = RegexSearch::new("xxx").unwrap();
    let start = Point::new(Line(1), Column(0));
    let end = Point::new(Line(0), Column(0));
    let match_end = Point::new(Line(0), Column(2));
    assert_eq!(term.regex_search_left(&regex, start, end), Some(end..=match_end));
}

#[test]
fn wrapping_into_fullwidth() {
    let term = mock_term("\
        🦇xx\r\n\
        xx🦇\
    ");

    let regex = RegexSearch::new("🦇x").unwrap();
    let start = Point::new(Line(0), Column(0));
    let end = Point::new(Line(1), Column(3));
    let match_start = Point::new(Line(0), Column(0));
    let match_end = Point::new(Line(0), Column(2));
    assert_eq!(term.regex_search_right(&regex, start, end), Some(match_start..=match_end));

    let regex = RegexSearch::new("x🦇").unwrap();
    let start = Point::new(Line(1), Column(2));
    let end = Point::new(Line(0), Column(0));
    let match_start = Point::new(Line(1), Column(1));
    let match_end = Point::new(Line(1), Column(3));
    assert_eq!(term.regex_search_left(&regex, start, end), Some(match_start..=match_end));
}

#[test]
fn leading_spacer() {
    let mut term = mock_term("\
        xxx \n\
        🦇xx\
    ");
    insert_flag(&mut term, Point::new(Line(0), Column(3)), Flags::LEADING_WIDE_CHAR_SPACER);

    let regex = RegexSearch::new("🦇x").unwrap();
    let start = Point::new(Line(0), Column(0));
    let end = Point::new(Line(1), Column(3));
    let match_start = Point::new(Line(0), Column(3));
    let match_end = Point::new(Line(1), Column(2));
    assert_eq!(term.regex_search_right(&regex, start, end), Some(match_start..=match_end));

    let regex = RegexSearch::new("🦇x").unwrap();
    let start = Point::new(Line(1), Column(3));
    let end = Point::new(Line(0), Column(0));
    let match_start = Point::new(Line(0), Column(3));
    let match_end = Point::new(Line(1), Column(2));
    assert_eq!(term.regex_search_left(&regex, start, end), Some(match_start..=match_end));

    let regex = RegexSearch::new("x🦇").unwrap();
    let start = Point::new(Line(0), Column(0));
    let end = Point::new(Line(1), Column(3));
    let match_start = Point::new(Line(0), Column(2));
    let match_end = Point::new(Line(1), Column(1));
    assert_eq!(term.regex_search_right(&regex, start, end), Some(match_start..=match_end));

    let regex = RegexSearch::new("x🦇").unwrap();
    let start = Point::new(Line(1), Column(3));
    let end = Point::new(Line(0), Column(0));
    let match_start = Point::new(Line(0), Column(2));
    let match_end = Point::new(Line(1), Column(1));
    assert_eq!(term.regex_search_left(&regex, start, end), Some(match_start..=match_end));
}

#[test]
fn wide_without_spacer() {
    let mut term = Term::new(Grid::new(2, 2, 0), String::new(), ());
    let x = Cell { c: 'x', flags: Flags(0) };
    let wide = Cell { c: '字', flags: Flags(Flags::WIDE_CHAR) };
    term.grid.set_cell(Point::new(Line(0), Column(0)), x);
    term.grid.set_cell(Point::new(Line(0), Column(1)), wide);

    let regex = RegexSearch::new("test").unwrap();

    let start = Point::new(Line(0), Column(0));
    let end = Point::new(Line(0), Column(1));

    let mut iter = RegexIter::new(start, end, Direction::Right, &term, &regex);
    assert_eq!(iter.next(), None);
}

#[test]
fn wrap_around_to_another_end() {
    let term = mock_term("\
        abc\r\n\
        def\
    ");

    // Bottom to top.
    let regex = RegexSearch::new("abc").unwrap();
    let start = Point::new(Line(1), Column(0));
    let end = Point::new(Line(0), Column(2));
    let match_start = Point::new(Line(0), Column(0));
    let match_end = Point::new(Line(0), Column(2));
    assert_eq!(term.regex_search_right(&regex, start, end), Some(match_start..=match_end));

    // Top to bottom.
    let regex = RegexSearch::new("def").unwrap();
    let start = Point::new(Line(0), Column(2));
    let end = Point::new(Line(1), Column(0));
    let match_start = Point::new(Line(1), Column(0));
    let match_end = Point::new(Line(1), Column(2));
    assert_eq!(term.regex_search_left(&regex, start, end), Some(match_start..=match_end));
}

#[test]
fn first_match_at_end_of_line() {
    let term = mock_term("xxfoo\r\nfoo x");

    // The match in the first line is only confirmed by the end of the line.
    let regex = RegexSearch::new("foo").unwrap();
    let start = Point::new(Line(0), Column(0));
    let end = Point::new(Line(1), Column(4));
    let match_start = Point::new(Line(0), Column(2));
    let match_end = Point::new(Line(0), Column(4));
    assert_eq!(term.regex_search_right(&regex, start, end), Some(match_start..=match_end));
}

#[test]
fn greedy_up_to_linebreak() {
    let term = mock_term("xfoo\r\nfooo");

    // A shorter match was confirmed before the line ended.
    let regex = RegexSearch::new("fo*").unwrap();
    let start = Point::new(Line(0), Column(0));
    let end = Point::new(Line(1), Column(3));
    let match_start = Point::new(Line(0), Column(1));
    let match_end = Point::new(Line(0), Column(3));
    assert_eq!(term.regex_search_right(&regex, start, end), Some(match_start..=match_end));
}

#[test]
fn wrapped_lines_are_one_text() {
    let term = mock_term("xfo\nobx");
    let regex = RegexSearch::new("foob").unwrap();
    let start = Point::new(Line(0), Column(0));
    let end = Point::new(Line(1), Column(2));
    let match_start = Point::new(Line(0), Column(1));
    let match_end = Point::new(Line(1), Column(1));
    assert_eq!(term.regex_search_right(&regex, start, end), Some(match_start..=match_end));
    assert_eq!(term.regex_search_left(&regex, end, start), Some(match_start..=match_end));

    let term = mock_term("xfo\r\nobx");
    assert_eq!(term.regex_search_right(&regex, start, end), None);
    assert_eq!(term.regex_search_left(&regex, end, start), None);
}

#[test]
fn origin_at_the_end_of_a_wrapped_line() {
    let term = mock_term("ab\ncd");
    let at = |line, column| Point::new(Line(line), Column(column));
    let regex = RegexSearch::new("bc").unwrap();
    let expected = Some(at(0, 1)..=at(1, 0));
    assert_eq!(term.regex_search_right(&regex, at(0, 1), at(1, 1)), expected);
    assert_eq!(term.regex_search_right(&regex, at(0, 0), at(1, 1)), expected);

    // The way back begins at the end of the wrapped line.
    let term = mock_term("xab\ncde");
    let expected = Some(at(0, 2)..=at(1, 0));
    assert_eq!(term.regex_search_left(&regex, at(1, 2), at(0, 0)), expected);
    assert_eq!(term.regex_search_left(&regex, at(1, 0), at(0, 0)), expected);

    // A line that does not go on ends with the origin.
    let term = mock_term("ab\r\ncd");
    assert_eq!(term.regex_search_right(&regex, at(0, 1), at(1, 1)), None);
}

#[test]
fn steps_over_a_wrapped_line() {
    let term = mock_term("xab\ncab\ncxx");
    let at = |line, column| Point::new(Line(line), Column(column));
    let regex = RegexSearch::new("bc").unwrap();
    let first = at(0, 2)..=at(1, 0);
    let second = at(1, 2)..=at(2, 0);

    let mut iter = RegexIter::new(at(0, 2), at(2, 2), Direction::Right, &term, &regex);
    assert_eq!(iter.next(), Some(first.clone()));
    assert_eq!(iter.next(), Some(second.clone()));
    assert_eq!(iter.next(), None);

    let mut iter = RegexIter::new(at(2, 0), at(0, 0), Direction::Left, &term, &regex);
    assert_eq!(iter.next(), Some(second.clone()));
    assert_eq!(iter.next(), Some(first.clone()));

    let side = Direction::Left;
    assert_eq!(term.search_next(&regex, at(0, 2), Direction::Right, side, None), Some(first.clone()));
    assert_eq!(term.search_next(&regex, at(1, 0), Direction::Right, side, None), Some(second));
    assert_eq!(term.search_next(&regex, at(1, 1), Direction::Left, side, None), Some(first));
}

#[test]
fn two_columns() {
    let term = mock_term("AB");
    let at = |line, column| Point::new(Line(line), Column(column));
    let regex = RegexSearch::new("AB").unwrap();
    let expected = Some(at(0, 0)..=at(0, 1));
    assert_eq!(term.regex_search_right(&regex, at(0, 0), at(0, 1)), expected);
    assert_eq!(term.regex_search_left(&regex, at(0, 1), at(0, 0)), expected);
    let anchored = term.regex_search(at(0, 0), at(0, 1), Direction::Right, true, &regex.dfa);
    assert_eq!(anchored, Some(at(0, 1)));
    let anchored = term.regex_search(at(0, 1), at(0, 0), Direction::Left, true, &regex.rdfa);
    assert_eq!(anchored, Some(at(0, 0)));

    // Between the lines the text is cut.
    let term = mock_term("xA\r\nBA\r\nAB");
    let expected = Some(at(2, 0)..=at(2, 1));
    assert_eq!(term.regex_search_right(&regex, at(0, 0), at(2, 1)), expected);
    assert_eq!(term.regex_search_left(&regex, at(2, 1), at(0, 0)), expected);
    assert_eq!(term.regex_search_right(&regex, at(0, 0), at(1, 1)), None);
    assert_eq!(term.regex_search_left(&regex, at(1, 1), at(0, 0)), None);
}

#[test]
fn one_column() {
    let at = |line| Point::new(Line(line), Column(0));
    let regex = RegexSearch::new("ab").unwrap();

    let term = mock_term("a\nb");
    assert_eq!(term.regex_search_right(&regex, at(0), at(1)), Some(at(0)..=at(1)));
    assert_eq!(term.regex_search_left(&regex, at(1), at(0)), Some(at(0)..=at(1)));

    let term = mock_term("a\r\nb");
    assert_eq!(term.regex_search_right(&regex, at(0), at(1)), None);
    assert_eq!(term.regex_search_left(&regex, at(1), at(0)), None);
}

#[test]
fn three_columns_with_fullwidth() {
    let at = |column| Point::new(Line(0), Column(column));
    let expected = Some(at(0)..=at(2));

    let term = mock_term("a🦇");
    let regex = RegexSearch::new("a🦇").unwrap();
    assert_eq!(term.regex_search_right(&regex, at(0), at(2)), expected);
    assert_eq!(term.regex_search_left(&regex, at(2), at(0)), expected);

    let term = mock_term("🦇b");
    let regex = RegexSearch::new("🦇b").unwrap();
    assert_eq!(term.regex_search_right(&regex, at(0), at(2)), expected);
    assert_eq!(term.regex_search_left(&regex, at(2), at(0)), expected);
}

#[test]
fn wrapped_line_that_ends_with_fullwidth() {
    let term = mock_term("ab🦇\ncdxx");
    let at = |line, column| Point::new(Line(line), Column(column));

    // The cell of the wide character is not the one that says that the line goes on.
    let regex = RegexSearch::new("b🦇c").unwrap();
    assert_eq!(term.regex_search_right(&regex, at(0, 0), at(1, 3)), None);
    assert_eq!(term.regex_search_left(&regex, at(1, 3), at(0, 0)), None);

    // To the left, the wide character is not left by the last column.
    let found = term.regex_search(at(1, 3), at(0, 0), Direction::Left, false, &regex.rdfa);
    assert_eq!(found, Some(at(0, 1)));

    // Up to the end of the line.
    let regex = RegexSearch::new("b🦇.*").unwrap();
    let expected = Some(at(0, 1)..=at(0, 3));
    assert_eq!(term.regex_search_right(&regex, at(0, 0), at(1, 3)), expected);
    assert_eq!(term.regex_search_left(&regex, at(1, 3), at(0, 0)), expected);

    // With the flag on the cell of the wide character.
    let mut term = mock_term("ab🦇\ncdxx");
    insert_flag(&mut term, at(0, 2), Flags::WRAPLINE);
    let regex = RegexSearch::new("b🦇c").unwrap();
    let expected = Some(at(0, 1)..=at(1, 0));
    assert_eq!(term.regex_search_right(&regex, at(0, 0), at(1, 3)), expected);
    assert_eq!(term.regex_search_left(&regex, at(1, 3), at(0, 0)), expected);
}

#[test]
fn linebreak_next_to_fullwidth() {
    let at = |line, column| Point::new(Line(line), Column(column));
    let both = |term: &Term<()>, pattern: &str| {
        let regex = RegexSearch::new(pattern).unwrap();
        let right = term.regex_search_right(&regex, at(0, 0), at(1, 2));
        let left = term.regex_search_left(&regex, at(1, 2), at(0, 0));
        (right, left)
    };

    // The next line begins with a wide character: to the right the text is not cut before it,
    // only on the way back.
    let term = mock_term("abc\r\n🦇x");
    let regex = RegexSearch::new("c🦇").unwrap();
    let found = term.regex_search(at(0, 0), at(1, 2), Direction::Right, false, &regex.dfa);
    assert_eq!(found, Some(at(1, 1)));
    assert_eq!(both(&term, "c🦇"), (None, None));
    let found = Some(at(0, 2)..=at(1, 2));
    assert_eq!(both(&term, "c.*"), (found.clone(), found));

    // The line ends with a wide character: to the left the text is not cut behind it.
    let term = mock_term("a🦇\r\nxyz");
    let regex = RegexSearch::new("🦇x").unwrap();
    let found = term.regex_search(at(1, 2), at(0, 0), Direction::Left, false, &regex.rdfa);
    assert_eq!(found, Some(at(0, 1)));
    assert_eq!(both(&term, "🦇x"), (None, None));
    let found = Some(at(0, 1)..=at(0, 2));
    assert_eq!(both(&term, "🦇.*"), (found.clone(), found));

    // The first lines, going on in each other.
    let term = mock_term("abc\n🦇x");
    let found = Some(at(0, 2)..=at(1, 1));
    assert_eq!(both(&term, "c🦇"), (found.clone(), found));
}

#[test]
fn origin_is_included() {
    let term = mock_term("abc");
    let regex = RegexSearch::new("b").unwrap();
    let b = Point::new(Line(0), Column(1));
    let last = Point::new(Line(0), Column(2));
    let first = Point::new(Line(0), Column(0));
    assert_eq!(term.regex_search_right(&regex, b, last), Some(b..=b));
    assert_eq!(term.regex_search_left(&regex, b, first), Some(b..=b));
    assert_eq!(term.regex_search_right(&regex, last, last), None);
}

#[test]
fn letter_case() {
    let upper = mock_term("ABC");
    let lower = mock_term("abc");
    let start = Point::new(Line(0), Column(0));
    let end = Point::new(Line(0), Column(2));

    // Without upper case the letter case does not count.
    let regex = RegexSearch::new("abc").unwrap();
    assert_eq!(upper.regex_search_right(&regex, start, end), Some(start..=end));
    assert_eq!(lower.regex_search_right(&regex, start, end), Some(start..=end));
    assert_eq!(upper.regex_search_left(&regex, end, start), Some(start..=end));

    let regex = RegexSearch::new("aBc").unwrap();
    assert_eq!(upper.regex_search_right(&regex, start, end), None);
    assert_eq!(lower.regex_search_right(&regex, start, end), None);
    assert_eq!(lower.regex_search_left(&regex, end, start), None);
}

#[test]
fn letter_case_beyond_ascii() {
    let term = mock_term("xÄx");
    let start = Point::new(Line(0), Column(0));
    let end = Point::new(Line(0), Column(2));
    let letter = Point::new(Line(0), Column(1));

    let regex = RegexSearch::new("ä").unwrap();
    assert_eq!(term.regex_search_right(&regex, start, end), Some(letter..=letter));

    let regex = RegexSearch::new("ÄX").unwrap();
    assert_eq!(term.regex_search_right(&regex, start, end), None);
}

#[test]
fn invalid_regex() {
    assert!(RegexSearch::new("(").is_err());
    assert!(RegexSearch::new("a{2,1}").is_err());
    assert!(RegexSearch::new("").is_ok());

    let error: Box<BuildError> = RegexSearch::new("(").unwrap_err();
    assert!(!error.to_string().is_empty());
}

#[test]
fn cloned_regex() {
    let term = mock_term("abc");
    let regex = RegexSearch::new("bc").unwrap();
    let copy = regex.clone();
    let start = Point::new(Line(0), Column(0));
    let end = Point::new(Line(0), Column(2));
    let expected = Some(Point::new(Line(0), Column(1))..=end);
    assert_eq!(term.regex_search_right(&regex, start, end), expected);
    assert_eq!(term.regex_search_right(&copy, start, end), expected);
    assert_eq!(term.regex_search_left(&copy, end, start), expected);
}

#[test]
fn anchored_search() {
    let term = mock_term("xab");
    let regex = RegexSearch::new("ab").unwrap();
    let start = Point::new(Line(0), Column(0));
    let end = Point::new(Line(0), Column(2));
    let a = Point::new(Line(0), Column(1));
    assert_eq!(term.regex_search(start, end, Direction::Right, true, &regex.dfa), None);
    assert_eq!(term.regex_search(a, end, Direction::Right, true, &regex.dfa), Some(end));
    assert_eq!(term.regex_search(start, end, Direction::Right, false, &regex.dfa), Some(end));
    assert_eq!(term.regex_search(end, start, Direction::Left, true, &regex.rdfa), Some(a));
}

#[test]
fn iterate_right() {
    let term = mock_term("ab ab");
    let regex = RegexSearch::new("ab").unwrap();
    let start = Point::new(Line(0), Column(0));
    let end = Point::new(Line(0), Column(4));
    let mut iter = RegexIter::new(start, end, Direction::Right, &term, &regex);
    let first = start..=Point::new(Line(0), Column(1));
    let second = Point::new(Line(0), Column(3))..=end;
    assert_eq!(iter.next(), Some(first));
    // The next search begins behind the match.
    assert_eq!(iter.point, Point::new(Line(0), Column(2)));
    assert_eq!(iter.next(), Some(second));
    // The match ended right on the limit.
    assert!(iter.done);
    assert_eq!(iter.next(), None);
    assert_eq!(iter.next(), None);
}

#[test]
fn iterate_left() {
    let term = mock_term("123");
    let regex = RegexSearch::new("[0-9]+").unwrap();
    let at = |column| Point::new(Line(0), Column(column));
    let mut iter = RegexIter::new(at(2), at(0), Direction::Left, &term, &regex);
    assert_eq!(iter.next(), Some(at(0)..=at(2)));
    assert_eq!(iter.next(), Some(at(0)..=at(1)));
    assert_eq!(iter.next(), Some(at(0)..=at(0)));
    assert_eq!(iter.next(), None);
}

#[test]
fn iterate_over_fullwidth() {
    let term = mock_term("🦇🦇x");
    let regex = RegexSearch::new("🦇").unwrap();
    let at = |column| Point::new(Line(0), Column(column));

    let mut iter = RegexIter::new(at(0), at(4), Direction::Right, &term, &regex);
    assert_eq!(iter.try_next(), Some(Some(at(0)..=at(1))));
    assert_eq!(iter.try_next(), Some(Some(at(2)..=at(3))));
    assert_eq!(iter.try_next(), Some(None));

    let mut iter = RegexIter::new(at(4), at(0), Direction::Left, &term, &regex);
    assert_eq!(iter.next(), Some(at(2)..=at(3)));
    assert_eq!(iter.point, at(1));
    assert_eq!(iter.next(), Some(at(0)..=at(1)));
}

#[test]
fn next_match_to_the_right() {
    let term = mock_term("foo bar foo\r\nfoo");
    let regex = RegexSearch::new("foo").unwrap();
    let at = |line, column| Point::new(Line(line), Column(column));
    let next = |origin, side| term.search_next(&regex, origin, Direction::Right, side, None);

    assert_eq!(next(at(0, 0), Direction::Left), Some(at(0, 0)..=at(0, 2)));
    assert_eq!(next(at(0, 1), Direction::Left), Some(at(0, 8)..=at(0, 10)));
    assert_eq!(next(at(0, 1), Direction::Right), Some(at(0, 0)..=at(0, 2)));
    assert_eq!(next(at(0, 9), Direction::Left), Some(at(1, 0)..=at(1, 2)));

    // Behind the last match comes the first one.
    assert_eq!(next(at(1, 3), Direction::Left), Some(at(0, 0)..=at(0, 2)));
}

#[test]
fn next_match_to_the_left() {
    let term = mock_term("foo bar foo\r\nfoo");
    let regex = RegexSearch::new("foo").unwrap();
    let at = |line, column| Point::new(Line(line), Column(column));
    let next = |origin, side| term.search_next(&regex, origin, Direction::Left, side, None);

    assert_eq!(next(at(0, 10), Direction::Right), Some(at(0, 8)..=at(0, 10)));
    assert_eq!(next(at(0, 9), Direction::Right), Some(at(0, 0)..=at(0, 2)));
    assert_eq!(next(at(0, 9), Direction::Left), Some(at(0, 8)..=at(0, 10)));

    // Before the first match comes the last one.
    assert_eq!(next(at(0, 1), Direction::Right), Some(at(1, 0)..=at(1, 2)));
}

#[test]
fn next_match_with_and_without_limit() {
    let term = mock_term("foo\r\nbar\r\nfoo");
    let regex = RegexSearch::new("foo").unwrap();
    let at = |line, column| Point::new(Line(line), Column(column));
    let top = Some(at(0, 0)..=at(0, 2));
    let bottom = Some(at(2, 0)..=at(2, 2));

    let right = |origin, max_lines| term.next_match_right(&regex, origin, Direction::Left, max_lines);
    assert_eq!(right(at(1, 0), None), bottom);
    assert_eq!(right(at(1, 0), Some(1)), bottom);
    assert_eq!(right(at(1, 0), Some(0)), None);
    // A match above the line of the origin has come around the grid.
    assert_eq!(right(at(2, 1), None), top);
    // Of the matches within the limit none lies beyond the origin.
    assert_eq!(right(at(2, 1), Some(0)), bottom);
    // The line that many lines away is counted around the grid.
    assert_eq!(right(at(1, 0), Some(3)), None);
    assert_eq!(right(at(1, 0), Some(4)), bottom);

    let left = |origin, max_lines| term.next_match_left(&regex, origin, Direction::Right, max_lines);
    assert_eq!(left(at(1, 2), None), top);
    assert_eq!(left(at(1, 2), Some(1)), top);
    assert_eq!(left(at(1, 2), Some(0)), None);
    assert_eq!(left(at(0, 1), None), bottom);
    assert_eq!(left(at(0, 1), Some(0)), top);
}

#[test]
fn no_match_beyond_origin() {
    let term = mock_term("foo   ");
    let regex = RegexSearch::new("foo").unwrap();
    let at = |column| Point::new(Line(0), Column(column));
    let found = term.search_next(&regex, at(4), Direction::Right, Direction::Left, None);
    assert_eq!(found, Some(at(0)..=at(2)));

    let regex = RegexSearch::new("bar").unwrap();
    let found = term.search_next(&regex, at(4), Direction::Right, Direction::Left, None);
    assert_eq!(found, None);
}

#[test]
fn limited_lines() {
    let term = mock_term("aaa\r\nbbb\r\nccc");
    let at = |line, column| Point::new(Line(line), Column(column));
    let next = |pattern: &str, origin, direction, max_lines| {
        let regex = RegexSearch::new(pattern).unwrap();
        term.search_next(&regex, origin, direction, Direction::Left, max_lines)
    };

    let ccc = Some(at(2, 0)..=at(2, 2));
    let aaa = Some(at(0, 0)..=at(0, 2));
    assert_eq!(next("ccc", at(0, 0), Direction::Right, None), ccc);
    assert_eq!(next("ccc", at(0, 0), Direction::Right, Some(0)), None);
    assert_eq!(next("ccc", at(0, 0), Direction::Right, Some(1)), None);
    // As many lines as there are is no limit.
    assert_eq!(next("ccc", at(0, 0), Direction::Right, Some(2)), ccc);
    assert_eq!(next("ccc", at(1, 0), Direction::Right, Some(1)), ccc);
    // The lines behind the last one are the first ones.
    assert_eq!(next("aaa", at(2, 0), Direction::Right, Some(1)), aaa);
    assert_eq!(next("aaa", at(2, 0), Direction::Left, Some(1)), None);
    assert_eq!(next("aaa", at(2, 0), Direction::Left, Some(2)), aaa);
    assert_eq!(next("ccc", at(0, 0), Direction::Left, Some(1)), ccc);
}

#[test]
fn search_from_fullwidth() {
    let term = mock_term("🦇x🦇x");
    let regex = RegexSearch::new("x").unwrap();
    let at = |column| Point::new(Line(0), Column(column));
    let found = term.search_next(&regex, at(3), Direction::Right, Direction::Left, None);
    assert_eq!(found, Some(at(5)..=at(5)));
    assert_eq!(term.expand_wide(at(3), Direction::Right), at(4));
    assert_eq!(term.expand_wide(at(4), Direction::Left), at(3));
    assert_eq!(term.expand_wide(at(2), Direction::Left), at(2));
}

#[test]
fn scrollback_is_searched() {
    let mut term = Term::new(Grid::new(1, 3, 2), String::new(), ());
    let at = |line, column| Point::new(Line(line), Column(column));
    for (column, c) in "abc".chars().enumerate() {
        term.grid.set_cell(at(-2, column), Cell { c, flags: Flags(0) });
    }
    let regex = RegexSearch::new("abc").unwrap();
    let expected = Some(at(-2, 0)..=at(-2, 2));
    assert_eq!(term.regex_search_right(&regex, at(0, 0), at(-1, 2)), expected);
    assert_eq!(term.regex_search_left(&regex, at(0, 2), at(-2, 0)), expected);
    assert_eq!(
        term.search_next(&regex, at(0, 1), Direction::Left, Direction::Left, None),
        expected
    );
}

#[test]
fn end_that_is_passed_over() {
    let mut term = mock_term("xxx \n🦇xx");
    insert_flag(&mut term, Point::new(Line(0), Column(3)), Flags::LEADING_WIDE_CHAR_SPACER);
    let at = |line, column| Point::new(Line(line), Column(column));
    assert!(term.grid.laid_out());

    // Coming from either side, the search never stands on the wide character itself.
    let regex = RegexSearch::new("y").unwrap();
    assert!(term.grid.passed_over(at(1, 0), Direction::Right));
    assert!(term.grid.passed_over(at(1, 0), Direction::Left));
    assert_eq!(term.try_regex_search_right(&regex, at(0, 0), at(1, 0)), None);
    assert_eq!(term.try_regex_search_left(&regex, at(1, 3), at(1, 0)), None);
    let found = term.try_regex_search(at(0, 0), at(1, 0), Direction::Right, false, &regex.dfa);
    assert_eq!(found, None);

    // On the columns around it, it does.
    assert_eq!(term.try_regex_search_right(&regex, at(0, 0), at(0, 3)), Some(None));
    assert_eq!(term.try_regex_search_right(&regex, at(0, 0), at(1, 1)), Some(None));
    assert_eq!(term.try_regex_search_left(&regex, at(1, 3), at(0, 3)), Some(None));

    // A search that finds something stops all the same.
    let regex = RegexSearch::new("🦇x").unwrap();
    let found = term.regex_search_right(&regex, at(0, 0), at(1, 0));
    assert_eq!(found, Some(at(0, 3)..=at(1, 2)));
}

#[test]
fn checked_searches() {
    let term = mock_term("🦇xx");
    let regex = RegexSearch::new("x").unwrap();
    let at = |column| Point::new(Line(0), Column(column));
    let right = Direction::Right;
    let left = Direction::Left;

    let found = term.try_search_next(&regex, at(0), right, left, None);
    assert_eq!(found, Some(Some(at(2)..=at(2))));
    // To the left, the search would end on the first column of the wide character.
    assert_eq!(term.try_search_next(&regex, at(3), left, left, None), None);
    // Not on the grid.
    assert_eq!(term.try_search_next(&regex, at(4), right, left, None), None);
    assert_eq!(term.try_regex_search_right(&regex, at(0), at(4)), None);

    // A second column without a first one.
    let mut torn = mock_term("abc");
    insert_flag(&mut torn, at(1), Flags::WIDE_CHAR_SPACER);
    assert!(!torn.grid.laid_out());
    assert_eq!(torn.try_search_next(&regex, at(0), right, left, None), None);
    assert_eq!(torn.try_regex_search_right(&regex, at(0), at(2)), Some(None));
}

#[test]
fn other_flags_do_not_count() {
    let mut term = mock_term("abc");
    let at = |column| Point::new(Line(0), Column(column));
    for column in 0..3 {
        insert_flag(&mut term, at(column), 0x1 | 0x2 | 0x4 | 0x8 | 0x80 | 0x100 | 0x200);
    }
    let regex = RegexSearch::new("abc").unwrap();
    assert_eq!(term.regex_search_right(&regex, at(0), at(2)), Some(at(0)..=at(2)));
}
