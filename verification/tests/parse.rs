use aglet::Coord;
use terminal_tombcrawler::parse::{ParseError, ParseErrorKind};
use terminal_tombcrawler::{parse_to_level, Level, Solution, Tile};

const TEST_LEVEL: &str = "r#Test level
      
---
 52125
5.....
2.....
2..$..
2.....
4.....
0@...@
      ";

fn parse(text: &str) -> Level {
    match parse_to_level(text) {
        Ok(level) => level,
        Err(error) => panic!("{:?} in {:?}", error, text),
    }
}

fn assert_error(text: &str, kind: ParseErrorKind, offset: usize) {
    match parse_to_level(text) {
        Ok(level) => panic!("{:?} was read as {:?}", text, level),
        Err(error) => assert_eq!(error, ParseError { kind, offset }),
    }
}

#[test]
fn test_level_is_read() {
    let level = parse(TEST_LEVEL);
    assert_eq!(level.title(), "r#Test level");
    let puzzle = level.puzzle();
    assert_eq!(puzzle.width(), 5);
    assert_eq!(puzzle.height(), 6);
    assert_eq!(puzzle.top_hints(), &[5, 2, 1, 2, 5]);
    assert_eq!(puzzle.side_hints(), &[5, 2, 2, 2, 4, 0]);
    for y in 0..6 {
        for x in 0..5 {
            let expected = match (x, y) {
                (2, 2) => Some(Tile::TreasureChest),
                (0, 5) | (4, 5) => Some(Tile::Monster),
                _ => None,
            };
            assert_eq!(puzzle.get_tile(Coord::new(x, y)), expected);
        }
    }
}

struct Lookup;

impl Solution for Lookup {
    fn is_wall(&self, coord: Coord) -> bool {
        let lookup: [[u8; 5]; 6] = [
            [1, 1, 1, 1, 1],
            [1, 0, 0, 0, 1],
            [1, 0, 0, 0, 1],
            [1, 0, 0, 0, 1],
            [1, 1, 0, 1, 1],
            [0, 0, 0, 0, 0],
        ];
        lookup[coord.y as usize][coord.x as usize] != 0
    }
}

#[test]
fn test_level_is_solved_by_its_solution() {
    let level = parse(TEST_LEVEL);
    assert!(level.puzzle().check_solution(&Lookup).is_ok());
}

#[test]
fn smallest_level_has_no_cells() {
    let level = parse("\n---\n ");
    assert_eq!(level.title(), "");
    assert_eq!(level.puzzle().width(), 0);
    assert_eq!(level.puzzle().height(), 0);
    assert!(level.puzzle().top_hints().is_empty());
    assert!(level.puzzle().side_hints().is_empty());
}

#[test]
fn rows_without_cells_are_counted() {
    let level = parse("t\n---\n \n1\n2\n3");
    assert_eq!(level.puzzle().width(), 0);
    assert_eq!(level.puzzle().height(), 3);
    assert_eq!(level.puzzle().side_hints(), &[1, 2, 3]);
}

#[test]
fn columns_without_rows_are_counted() {
    let level = parse("t\n---\n 123");
    assert_eq!(level.puzzle().width(), 3);
    assert_eq!(level.puzzle().height(), 0);
    assert_eq!(level.puzzle().top_hints(), &[1, 2, 3]);
}

#[test]
fn title_may_end_in_carriage_return_and_line_feed() {
    let level = parse("A title\r\nnotes\r\n---\r\n 1\r\n1@\r\n");
    assert_eq!(level.title(), "A title");
    assert_eq!(level.puzzle().width(), 1);
    assert_eq!(level.puzzle().height(), 1);
    assert_eq!(level.puzzle().get_tile(Coord::new(0, 0)), Some(Tile::Monster));
}

#[test]
fn title_and_comment_may_hold_any_text() {
    let level = parse("Grüße aus der Gruft — ☠\nnotes: – — - -- ☠\n\n--- \t\n 1\n1$");
    assert_eq!(level.title(), "Grüße aus der Gruft — ☠");
    assert_eq!(level.puzzle().get_tile(Coord::new(0, 0)), Some(Tile::TreasureChest));
}

#[test]
fn title_may_be_empty_or_hold_dashes() {
    assert_eq!(parse("\n---\n ").title(), "");
    let level = parse("---\n---\n 1\n1.");
    assert_eq!(level.title(), "---");
    assert_eq!(level.puzzle().width(), 1);
}

#[test]
fn comment_ends_at_the_first_three_dashes() {
    // The rule is the first `---` after the title line; of four dashes the
    // fourth is then where the corner blank should stand.
    assert_error("t\n----\n 1\n1.", ParseErrorKind::MissingCorner, 5);
    let level = parse("t\n-- -\n---\n 1\n1.");
    assert_eq!(level.puzzle().width(), 1);
}

#[test]
fn padding_is_blanks_and_tabs_and_one_line_ending() {
    let level = parse("t\n--- \t \n 12 \t\n1.@\t\n2$. \n");
    assert_eq!(level.puzzle().width(), 2);
    assert_eq!(level.puzzle().height(), 2);
    assert_eq!(level.puzzle().get_tile(Coord::new(1, 0)), Some(Tile::Monster));
    assert_eq!(level.puzzle().get_tile(Coord::new(0, 1)), Some(Tile::TreasureChest));
    // A second line ending after the rule is not padding, so no corner
    // blank follows.
    assert_error("t\n---\n\n 1\n1.", ParseErrorKind::MissingCorner, 6);
}

#[test]
fn rows_may_follow_each_other_on_one_line() {
    let level = parse("t\n---\n 12 1..2@$");
    assert_eq!(level.puzzle().height(), 2);
    assert_eq!(level.puzzle().side_hints(), &[1, 2]);
    assert_eq!(level.puzzle().get_tile(Coord::new(0, 1)), Some(Tile::Monster));
    assert_eq!(level.puzzle().get_tile(Coord::new(1, 1)), Some(Tile::TreasureChest));
}

#[test]
fn white_space_may_follow_the_rows() {
    let level = parse("t\n---\n 1\n1.\n \t\r\n\n\r  ");
    assert_eq!(level.puzzle().height(), 1);
}

#[test]
fn text_without_line_ending_has_no_title() {
    assert_error("", ParseErrorKind::UnendedTitle, 0);
    assert_error("title", ParseErrorKind::UnendedTitle, 5);
    assert_error("title --- 1", ParseErrorKind::UnendedTitle, 11);
}

#[test]
fn lone_carriage_return_breaks_the_title() {
    assert_error("ti\rtle\n--- ", ParseErrorKind::StrayCarriageReturn, 0);
    assert_error("title\r", ParseErrorKind::StrayCarriageReturn, 0);
}

#[test]
fn rule_must_follow_the_title_line() {
    assert_error("title\n", ParseErrorKind::MissingRule, 6);
    assert_error("title\r\nnotes -- -\n", ParseErrorKind::MissingRule, 7);
    assert_error("---\n", ParseErrorKind::MissingRule, 4);
    assert_error("t\n--", ParseErrorKind::MissingRule, 2);
}

#[test]
fn blank_must_stand_before_the_column_hints() {
    assert_error("t\n---", ParseErrorKind::MissingCorner, 5);
    assert_error("t\n---\n123\n", ParseErrorKind::MissingCorner, 6);
    assert_error("t\n---\n\t123\n", ParseErrorKind::MissingCorner, 6);
    // A blank straight after the rule is padding, not the corner.
    assert_error("t\n--- 123", ParseErrorKind::MissingCorner, 6);
}

#[test]
fn row_of_the_wrong_length_is_trailing_text() {
    // The second row is one cell short: reading stops where it starts.
    assert_error("t\n---\n 12\n1..\n2.\n", ParseErrorKind::TrailingText, 14);
    // One cell too many: the row is read, and the cell left over is not.
    assert_error("t\n---\n 12\n1...\n", ParseErrorKind::TrailingText, 13);
}

#[test]
fn unknown_cell_is_trailing_text() {
    assert_error("t\n---\n 12\n1.x\n", ParseErrorKind::TrailingText, 10);
    assert_error("t\n---\n 12\n1.#\n", ParseErrorKind::TrailingText, 10);
}

#[test]
fn row_without_hint_is_trailing_text() {
    assert_error("t\n---\n 12\n..\n", ParseErrorKind::TrailingText, 10);
    assert_error("t\n---\n 12\n1..\n\n x", ParseErrorKind::TrailingText, 16);
}

#[test]
fn parse_error_can_be_compared_and_copied() {
    let error = parse_to_level("").unwrap_err();
    let copy = error;
    assert_eq!(error, copy);
    assert_eq!(copy.kind, ParseErrorKind::UnendedTitle);
    assert_ne!(copy.kind, ParseErrorKind::BoardTooLarge);
}
