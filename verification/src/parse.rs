//! Reading a level from text.
//!
//! A level is written as a title line, any text up to the first three
//! dashes, the column hints after one blank, and then the rows, as a rule one
//! to a line: the hint of the row and its cells, `@` for a monster, `$` for a
//! chest and `.` for a free cell.
//!
//! ```text
//! The first room
//! a comment
//! ---
//!  52125
//! 5.....
//! 2..$..
//! 0@...@
//! ```
//!
//! The grammar is stated over the bytes of the text by [`parsed`], and
//! [`parse_to_level`] is proved to follow it.

use vstd::prelude::*;
use aglet::{Coord, Grid};
use vstd::utf8::{
    decode_utf8, encode_utf8, encode_utf8_decode_utf8, encode_utf8_valid_utf8,
    is_char_boundary_iff_not_is_continuation_byte,
};
use crate::rules::Cell;
use crate::grid::lemma_slots_apart;
use crate::tiles::{grid_at, grid_dims, grid_insert, grid_new, grid_regular};
use crate::{Level, LevelView, Puzzle, PuzzleView, Tile, MAX_SIDE};

verus! {

pub const LINE_FEED: u8 = 10;

pub const CARRIAGE_RETURN: u8 = 13;

pub const TAB: u8 = 9;

pub const BLANK: u8 = 32;

pub const DASH: u8 = 45;

pub const ZERO: u8 = 48;

pub const NINE: u8 = 57;

/// `@`
pub const MONSTER: u8 = 64;

/// `$`
pub const CHEST: u8 = 36;

/// `.`
pub const FREE: u8 = 46;

/// The kinds of byte that the grammar takes in runs.
#[derive(Debug, Clone, Copy, PartialEq, Eq, Structural)]
pub enum Class {
    /// Anything but a line feed or a carriage return.
    Text,
    /// A blank or a tab.
    Space,
    /// A blank, a tab, a line feed or a carriage return.
    White,
    /// An ASCII digit.
    Digit,
}

pub open spec fn is_of(class: Class, byte: u8) -> bool {
    match class {
        Class::Text => byte != LINE_FEED && byte != CARRIAGE_RETURN,
        Class::Space => byte == BLANK || byte == TAB,
        Class::White => byte == BLANK || byte == TAB || byte == LINE_FEED || byte
            == CARRIAGE_RETURN,
        Class::Digit => ZERO <= byte <= NINE,
    }
}

/// Where the longest run of bytes of one class that starts at `at` ends.
pub open spec fn run_end(bytes: Seq<u8>, at: int, class: Class) -> int
    decreases bytes.len() - at,
{
    if 0 <= at < bytes.len() && is_of(class, bytes[at]) {
        run_end(bytes, at + 1, class)
    } else {
        at
    }
}

/// The length of the line ending at `at`: a line feed, or a carriage return
/// and a line feed; nought where there is neither.
pub open spec fn line_end_len(bytes: Seq<u8>, at: int) -> int {
    if 0 <= at < bytes.len() && bytes[at] == LINE_FEED {
        1
    } else if 0 <= at && at + 1 < bytes.len() && bytes[at] == CARRIAGE_RETURN && bytes[at + 1]
        == LINE_FEED {
        2
    } else {
        0
    }
}

/// Where the padding that may follow an item ends: any blanks and tabs, and
/// then one line ending if there is one.
pub open spec fn pad_end(bytes: Seq<u8>, at: int) -> int {
    run_end(bytes, at, Class::Space) + line_end_len(bytes, run_end(bytes, at, Class::Space))
}

/// Three dashes start at `at`.
pub open spec fn rule_at(bytes: Seq<u8>, at: int) -> bool {
    &&& 0 <= at
    &&& at + 3 <= bytes.len()
    &&& bytes[at] == DASH
    &&& bytes[at + 1] == DASH
    &&& bytes[at + 2] == DASH
}

/// Where the first three dashes at or after `at` start, if there are any.
pub open spec fn rule_from(bytes: Seq<u8>, at: int) -> Option<int>
    decreases bytes.len() - at,
{
    if at < 0 || at + 3 > bytes.len() {
        None
    } else if rule_at(bytes, at) {
        Some(at)
    } else {
        rule_from(bytes, at + 1)
    }
}

/// What a byte says of a cell, if it is one of the three that stand for a
/// cell.
pub open spec fn tile_of(byte: u8) -> Option<Option<Tile>> {
    if byte == MONSTER {
        Some(Some(Tile::Monster))
    } else if byte == CHEST {
        Some(Some(Tile::TreasureChest))
    } else if byte == FREE {
        Some(None)
    } else {
        None
    }
}

/// One row of the board as it is written.
pub struct Row {
    /// The wall count asked of the row.
    pub hint: u8,
    /// The fixed tile of each cell, from west to east.
    pub tiles: Seq<Option<Tile>>,
}

/// A row of `width` cells is written at `at`: a digit and then one byte for
/// each cell.
pub open spec fn row_at(bytes: Seq<u8>, at: int, width: int) -> bool {
    &&& 0 <= at
    &&& at + 1 + width <= bytes.len()
    &&& is_of(Class::Digit, bytes[at])
    &&& forall|k: int| 0 <= k < width ==> tile_of(#[trigger] bytes[at + 1 + k]) is Some
}

/// The row that is written at `at`.
pub open spec fn row_of(bytes: Seq<u8>, at: int, width: int) -> Row {
    Row {
        hint: (bytes[at] - ZERO) as u8,
        tiles: Seq::new(width as nat, |k: int| tile_of(bytes[at + 1 + k]).unwrap()),
    }
}

/// The rows that are written one after the other from `at` on, each with
/// its padding.
pub open spec fn rows_from(bytes: Seq<u8>, at: int, width: int) -> Seq<Row>
    decreases bytes.len() - at,
    via rows_from_ends
{
    if width >= 0 && row_at(bytes, at, width) {
        seq![row_of(bytes, at, width)] + rows_from(bytes, pad_end(bytes, at + 1 + width), width)
    } else {
        seq![]
    }
}

/// Where the rows that are written from `at` on end.
pub open spec fn rows_end(bytes: Seq<u8>, at: int, width: int) -> int
    decreases bytes.len() - at,
    via rows_end_ends
{
    if width >= 0 && row_at(bytes, at, width) {
        rows_end(bytes, pad_end(bytes, at + 1 + width), width)
    } else {
        at
    }
}

#[via_fn]
proof fn rows_from_ends(bytes: Seq<u8>, at: int, width: int) {
    if width >= 0 && row_at(bytes, at, width) {
        lemma_pad_end(bytes, at + 1 + width);
    }
}

#[via_fn]
proof fn rows_end_ends(bytes: Seq<u8>, at: int, width: int) {
    if width >= 0 && row_at(bytes, at, width) {
        lemma_pad_end(bytes, at + 1 + width);
    }
}

/// Why a text is not a level.
#[derive(Debug, Clone, Copy, PartialEq, Eq, Structural)]
pub enum ParseErrorKind {
    /// The text ends before the title line does.
    UnendedTitle,
    /// A carriage return in the title line is not followed by a line feed.
    StrayCarriageReturn,
    /// No three dashes follow the title line.
    MissingRule,
    /// No blank stands where the column hints are to start.
    MissingCorner,
    /// The board is wider or taller than a puzzle can be, or has more cells
    /// than a grid can hold.
    BoardTooLarge,
    /// Something that is neither a row nor white space follows the rows.
    TrailingText,
}

/// Why a text is not a level, and the byte offset at which reading stopped.
#[derive(Debug, Clone, Copy, PartialEq, Eq, Structural)]
pub struct ParseError {
    pub kind: ParseErrorKind,
    pub offset: usize,
}

/// The error of the given kind at the given offset.
pub open spec fn error_at<T>(kind: ParseErrorKind, offset: int) -> Result<T, ParseError> {
    Err(ParseError { kind, offset: offset as usize })
}

/// Where the title ends: at the first line feed or carriage return.
pub open spec fn title_end(bytes: Seq<u8>) -> int {
    run_end(bytes, 0, Class::Text)
}

/// Where the header ends and the board starts: after the title line, the
/// comment, the first three dashes and their padding.
pub open spec fn header_end(bytes: Seq<u8>) -> Result<int, ParseError> {
    let title = title_end(bytes);
    let comment = title + line_end_len(bytes, title);
    if title >= bytes.len() {
        error_at(ParseErrorKind::UnendedTitle, title)
    } else if comment == title {
        error_at(ParseErrorKind::StrayCarriageReturn, 0)
    } else {
        match rule_from(bytes, comment) {
            None => error_at(ParseErrorKind::MissingRule, comment),
            Some(rule) => Ok(pad_end(bytes, rule + 3)),
        }
    }
}

/// The puzzle with the given column hints, written as digits, and rows.
pub open spec fn puzzle_of(digits: Seq<u8>, rows: Seq<Row>) -> PuzzleView {
    PuzzleView {
        width: digits.len() as int,
        height: rows.len() as int,
        tiles: Map::new(
            |c: Cell|
                0 <= c.0 < digits.len() && 0 <= c.1 < rows.len() && rows[c.1].tiles[c.0] is Some,
            |c: Cell| rows[c.1].tiles[c.0].unwrap(),
        ),
        top_hints: Seq::new(digits.len(), |i: int| (digits[i] - ZERO) as u8),
        side_hints: Seq::new(rows.len(), |i: int| rows[i].hint),
    }
}

/// The board that is written at `at`, and where it ends: a blank, the
/// column hints, and the rows, each with its padding.
pub open spec fn board_at(bytes: Seq<u8>, at: int) -> Result<(PuzzleView, int), ParseError> {
    let hints = at + 1;
    let hints_end = run_end(bytes, hints, Class::Digit);
    let width = hints_end - hints;
    let rows = rows_from(bytes, pad_end(bytes, hints_end), width);
    let end = rows_end(bytes, pad_end(bytes, hints_end), width);
    if !(0 <= at < bytes.len() && bytes[at] == BLANK) {
        error_at(ParseErrorKind::MissingCorner, at)
    } else if width > MAX_SIDE || rows.len() > MAX_SIDE || width * rows.len() > u32::MAX {
        error_at(ParseErrorKind::BoardTooLarge, end)
    } else {
        Ok((puzzle_of(bytes.subrange(hints, hints_end), rows), end))
    }
}

/// The level that a text holds, or why it holds none: the header, the
/// board, and nothing but white space after it.
pub open spec fn parsed(bytes: Seq<u8>) -> Result<LevelView, ParseError> {
    match header_end(bytes) {
        Err(error) => Err(error),
        Ok(at) => match board_at(bytes, at) {
            Err(error) => Err(error),
            Ok((puzzle, end)) => {
                let rest = run_end(bytes, end, Class::White);
                if rest < bytes.len() {
                    error_at(ParseErrorKind::TrailingText, rest)
                } else {
                    Ok(
                        LevelView {
                            title: decode_utf8(bytes.subrange(0, title_end(bytes))),
                            puzzle,
                        },
                    )
                }
            },
        },
    }
}

/// The puzzle of every level that the grammar finds is well formed.
pub proof fn lemma_parsed_wf(bytes: Seq<u8>)
    ensures
        parsed(bytes) matches Ok(level) ==> level.puzzle.wf(),
{
    if let Ok(at) = header_end(bytes) {
        if 0 <= at < bytes.len() {
            lemma_run_end(bytes, at + 1, Class::Digit);
        }
    }
}

/// A run ends between its start and the end of the text, on a byte that is
/// not of its class.
pub proof fn lemma_run_end(bytes: Seq<u8>, at: int, class: Class)
    requires
        0 <= at <= bytes.len(),
    ensures
        at <= run_end(bytes, at, class) <= bytes.len(),
        run_end(bytes, at, class) < bytes.len() ==> !is_of(
            class,
            bytes[run_end(bytes, at, class)],
        ),
        forall|k: int| at <= k < run_end(bytes, at, class) ==> is_of(class, #[trigger] bytes[k]),
    decreases bytes.len() - at,
{
    if at < bytes.len() && is_of(class, bytes[at]) {
        lemma_run_end(bytes, at + 1, class);
    }
}

/// Padding ends between its start and the end of the text.
pub proof fn lemma_pad_end(bytes: Seq<u8>, at: int)
    requires
        0 <= at <= bytes.len(),
    ensures
        at <= pad_end(bytes, at) <= bytes.len(),
{
    lemma_run_end(bytes, at, Class::Space);
}

/// Whether a byte is of a class.
fn is_class(class: Class, byte: u8) -> (of: bool)
    ensures
        of == is_of(class, byte),
{
    match class {
        Class::Text => byte != LINE_FEED && byte != CARRIAGE_RETURN,
        Class::Space => byte == BLANK || byte == TAB,
        Class::White => byte == BLANK || byte == TAB || byte == LINE_FEED || byte
            == CARRIAGE_RETURN,
        Class::Digit => ZERO <= byte && byte <= NINE,
    }
}

/// Passes over the run of bytes of one class that starts at `at`.
fn skip(bytes: &[u8], at: usize, class: Class) -> (end: usize)
    requires
        at <= bytes@.len(),
    ensures
        end == run_end(bytes@, at as int, class),
        at <= end <= bytes@.len(),
{
    let mut end = at;
    while end < bytes.len() && is_class(class, bytes[end])
        invariant
            at <= end <= bytes@.len(),
            run_end(bytes@, at as int, class) == run_end(bytes@, end as int, class),
        decreases bytes@.len() - end,
    {
        end += 1;
    }
    end
}

/// Passes over the padding that may follow an item: blanks and tabs, and
/// then one line ending if there is one.
fn discard_ws_after(bytes: &[u8], at: usize) -> (end: usize)
    requires
        at <= bytes@.len(),
    ensures
        end == pad_end(bytes@, at as int),
        at <= end <= bytes@.len(),
{
    let spaces = skip(bytes, at, Class::Space);
    if spaces < bytes.len() && bytes[spaces] == LINE_FEED {
        spaces + 1
    } else if spaces < bytes.len() && bytes[spaces] == CARRIAGE_RETURN && spaces + 1 < bytes.len()
        && bytes[spaces + 1] == LINE_FEED {
        spaces + 2
    } else {
        spaces
    }
}

/// Reads the byte of one cell.
fn a_tile(byte: u8) -> (tile: Option<Option<Tile>>)
    ensures
        tile == tile_of(byte),
{
    if byte == MONSTER {
        Some(Some(Tile::Monster))
    } else if byte == CHEST {
        Some(Some(Tile::TreasureChest))
    } else if byte == FREE {
        Some(None)
    } else {
        None
    }
}

/// One row as it was read.
struct PuzzleLine {
    hint: u8,
    tiles: Vec<Option<Tile>>,
}

impl View for PuzzleLine {
    type V = Row;

    closed spec fn view(&self) -> Row {
        Row { hint: self.hint, tiles: self.tiles@ }
    }
}

/// Reads one row of `len` cells with its padding, if one is written at
/// `at`, and gives the place where the next may start.
fn puzzle_line(bytes: &[u8], at: usize, len: usize) -> (line: Option<(PuzzleLine, usize)>)
    requires
        at <= bytes@.len(),
    ensures
        match line {
            Some((row, next)) => {
                &&& row_at(bytes@, at as int, len as int)
                &&& row@ == row_of(bytes@, at as int, len as int)
                &&& next == pad_end(bytes@, at + 1 + len)
                &&& at < next <= bytes@.len()
            },
            None => !row_at(bytes@, at as int, len as int),
        },
{
    if at >= bytes.len() || len > bytes.len() - at - 1 {
        return None;
    }
    if !is_class(Class::Digit, bytes[at]) {
        return None;
    }
    let hint = bytes[at] - ZERO;
    let mut tiles: Vec<Option<Tile>> = Vec::new();
    let mut k: usize = 0;
    while k < len
        invariant
            k <= len,
            at + 1 + len <= bytes@.len() <= usize::MAX,
            tiles@.len() == k,
            forall|j: int| 0 <= j < k ==> tile_of(#[trigger] bytes@[at + 1 + j]) == Some(tiles@[j]),
        decreases len - k,
    {
        match a_tile(bytes[at + 1 + k]) {
            Some(tile) => {
                tiles.push(tile);
            },
            None => {
                return None;
            },
        }
        k += 1;
    }
    let next = discard_ws_after(bytes, at + 1 + len);
    let row = PuzzleLine { hint, tiles };
    proof {
        assert(row@.tiles =~= row_of(bytes@, at as int, len as int).tiles);
    }
    Some((row, next))
}

/// Puts a tile on a cell of a grid and leaves every other cell as it was.
fn place(grid: &mut Grid<Tile>, x: u32, y: u32, tile: Tile)
    requires
        grid_regular(*old(grid)),
        x < grid_dims(*old(grid)).0,
        y < grid_dims(*old(grid)).1,
    ensures
        grid_regular(*final(grid)),
        grid_dims(*final(grid)) == grid_dims(*old(grid)),
        forall|x2: int, y2: int|
            #[trigger] grid_at(*final(grid), x2, y2) == if (x2, y2) == (x as int, y as int) {
                Some(tile)
            } else {
                grid_at(*old(grid), x2, y2)
            },
{
    let ghost before = *grid;
    let ghost dims = grid_dims(before);
    grid_insert(grid, Coord::new(x, y), tile);
    proof {
        assert forall|x2: int, y2: int|
            #[trigger] grid_at(*grid, x2, y2) == if (x2, y2) == (x as int, y as int) {
                Some(tile)
            } else {
                grid_at(before, x2, y2)
            } by {
            if 0 <= x2 < dims.0 && 0 <= y2 < dims.1 {
                lemma_slots_apart(dims.0, dims.1, x as int, y as int, x2, y2);
                lemma_slots_apart(dims.0, dims.1, x2, y2, x as int, y as int);
            } else {
                lemma_slots_apart(dims.0, dims.1, x as int, y as int, x as int, y as int);
            }
        }
        lemma_slots_apart(dims.0, dims.1, x as int, y as int, x as int, y as int);
    }
}

/// Reads the header: the title line, and then anything up to the first
/// three dashes and their padding. Gives the title and the place where the
/// board starts.
fn header(s: &str) -> (head: Result<(String, usize), ParseError>)
    ensures
        match head {
            Ok((title, at)) => {
                &&& header_end(encode_utf8(s@)) == Ok::<int, ParseError>(at as int)
                &&& at <= encode_utf8(s@).len()
                &&& title@ == decode_utf8(
                    encode_utf8(s@).subrange(0, title_end(encode_utf8(s@))),
                )
            },
            Err(error) => header_end(encode_utf8(s@)) == Err::<int, ParseError>(error),
        },
{
    let bytes = s.as_bytes();
    let title_end = skip(bytes, 0, Class::Text);
    if title_end >= bytes.len() {
        return Err(ParseError { kind: ParseErrorKind::UnendedTitle, offset: title_end });
    }
    let comment = if bytes[title_end] == LINE_FEED {
        title_end + 1
    } else if title_end + 1 < bytes.len() && bytes[title_end + 1] == LINE_FEED {
        title_end + 2
    } else {
        return Err(ParseError { kind: ParseErrorKind::StrayCarriageReturn, offset: 0 });
    };
    proof {
        lemma_run_end(bytes@, 0, Class::Text);
        encode_utf8_valid_utf8(s@);
        is_char_boundary_iff_not_is_continuation_byte(bytes@, title_end as int);
    }
    let (title, _) = s.split_at(title_end);
    proof {
        encode_utf8_decode_utf8(title@);
    }
    let mut rule = comment;
    while bytes.len() - rule >= 3 && !(bytes[rule] == DASH && bytes[rule + 1] == DASH && bytes[rule
        + 2] == DASH)
        invariant
            comment <= rule <= bytes@.len() <= usize::MAX,
            rule_from(bytes@, comment as int) == rule_from(bytes@, rule as int),
        decreases bytes@.len() - rule,
    {
        rule += 1;
    }
    if bytes.len() - rule < 3 {
        return Err(ParseError { kind: ParseErrorKind::MissingRule, offset: comment });
    }
    Ok((title.to_owned(), discard_ws_after(bytes, rule + 3)))
}

/// Reads the board: a blank, the column hints, and the rows.
#[verifier::loop_isolation(false)]
fn puzzle(bytes: &[u8], at: usize) -> (board: Result<(Puzzle, usize), ParseError>)
    requires
        at <= bytes@.len(),
    ensures
        match board {
            Ok((puzzle, end)) => {
                &&& board_at(bytes@, at as int) == Ok::<(PuzzleView, int), ParseError>(
                    (puzzle@, end as int),
                )
                &&& end <= bytes@.len()
            },
            Err(error) => board_at(bytes@, at as int) == Err::<(PuzzleView, int), ParseError>(
                error,
            ),
        },
{
    if at >= bytes.len() || bytes[at] != BLANK {
        return Err(ParseError { kind: ParseErrorKind::MissingCorner, offset: at });
    }
    let hints = at + 1;
    let hints_end = skip(bytes, hints, Class::Digit);
    let len = hints_end - hints;
    let rows_start = discard_ws_after(bytes, hints_end);
    let ghost digits = bytes@.subrange(hints as int, hints_end as int);
    let ghost rows = rows_from(bytes@, rows_start as int, len as int);
    // The rows, as many as there are.
    let mut puzzle_lines: Vec<PuzzleLine> = Vec::new();
    let mut end = rows_start;
    loop
        invariant
            rows_start <= end <= bytes@.len(),
            puzzle_lines@.len() <= rows.len(),
            forall|j: int| 0 <= j < puzzle_lines@.len() ==> (#[trigger] puzzle_lines@[j])@ == rows[j],
            forall|j: int| 0 <= j < puzzle_lines@.len() ==> (#[trigger] rows[j]).tiles.len() == len,
            rows == rows.subrange(0, puzzle_lines@.len() as int) + rows_from(
                bytes@,
                end as int,
                len as int,
            ),
            rows_end(bytes@, rows_start as int, len as int) == rows_end(
                bytes@,
                end as int,
                len as int,
            ),
        decreases bytes@.len() - end,
    {
        match puzzle_line(bytes, end, len) {
            Some((line, next)) => {
                proof {
                    let read = rows.subrange(0, puzzle_lines@.len() as int);
                    let rest = rows_from(bytes@, next as int, len as int);
                    assert(rows == read + (seq![line@] + rest));
                    assert(rows[read.len() as int] == line@);
                    assert(rows.subrange(0, read.len() as int + 1) =~= read + seq![line@]);
                    assert(rows =~= rows.subrange(0, read.len() as int + 1) + rest);
                }
                puzzle_lines.push(line);
                end = next;
            },
            None => {
                break ;
            },
        }
    }
    proof {
        assert(rows_from(bytes@, end as int, len as int) =~= seq![]);
        assert(rows =~= rows.subrange(0, puzzle_lines@.len() as int));
        lemma_run_end(bytes@, hints as int, Class::Digit);
    }
    let side = puzzle_lines.len();
    if len > MAX_SIDE as usize || side > MAX_SIDE as usize {
        return Err(ParseError { kind: ParseErrorKind::BoardTooLarge, offset: end });
    }
    let width = len as u32;
    let height = side as u32;
    assert(width * height <= 0x7fff_ffff * 0x7fff_ffff) by (nonlinear_arith)
        requires
            width <= 0x7fff_ffff,
            height <= 0x7fff_ffff,
    ;
    if width as u64 * height as u64 > u32::MAX as u64 {
        return Err(ParseError { kind: ParseErrorKind::BoardTooLarge, offset: end });
    }
    // And convert.
    let mut top_hints: Vec<u8> = Vec::new();
    let mut x: usize = 0;
    while x < len
        invariant
            x <= len,
            top_hints@.len() == x,
            forall|i: int| 0 <= i < x ==> top_hints@[i] == (digits[i] - ZERO) as u8,
        decreases len - x,
    {
        assert(digits[x as int] == bytes@[hints + x]);
        top_hints.push(bytes[hints + x] - ZERO);
        x += 1;
    }
    let mut grid = grid_new(width, height);
    proof {
        assert forall|x2: int, y2: int| 0 <= x2 < width && 0 <= y2 < height implies #[trigger] grid_at(
            grid,
            x2,
            y2,
        ) == None::<Tile> by {
            lemma_slots_apart(width as nat, height as nat, x2, y2, x2, y2);
        }
    }
    let mut side_hints: Vec<u8> = Vec::new();
    let mut y: u32 = 0;
    while y < height
        invariant
            y <= height,
            grid_regular(grid),
            grid_dims(grid) == (width as nat, height as nat),
            side_hints@.len() == y,
            forall|i: int| 0 <= i < y ==> side_hints@[i] == rows[i].hint,
            forall|x2: int, y2: int|
                0 <= x2 < width && 0 <= y2 < height ==> #[trigger] grid_at(grid, x2, y2) == if y2
                    < y {
                    rows[y2].tiles[x2]
                } else {
                    None
                },
        decreases height - y,
    {
        let line = &puzzle_lines[y as usize];
        assert(line@ == rows[y as int]);
        side_hints.push(line.hint);
        let mut x: u32 = 0;
        while x < width
            invariant
                x <= width,
                y < height,
                line@ == rows[y as int],
                line.tiles@.len() == width,
                grid_regular(grid),
                grid_dims(grid) == (width as nat, height as nat),
                forall|x2: int, y2: int|
                    0 <= x2 < width && 0 <= y2 < height ==> #[trigger] grid_at(grid, x2, y2)
                        == if y2 < y || (y2 == y && x2 < x) {
                        rows[y2].tiles[x2]
                    } else {
                        None
                    },
            decreases width - x,
        {
            match line.tiles[x as usize] {
                Some(tile) => {
                    place(&mut grid, x, y, tile);
                },
                None => {},
            }
            x += 1;
        }
        y += 1;
    }
    let ghost placed = grid;
    let puzzle = Puzzle::new(grid, top_hints, side_hints);
    proof {
        let expected = puzzle_of(digits, rows);
        assert(puzzle@.tiles =~= expected.tiles) by {
            assert forall|c: Cell| #[trigger]
                puzzle@.tiles.dom().contains(c) == expected.tiles.dom().contains(c) by {
                if 0 <= c.0 < width && 0 <= c.1 < height {
                    assert(grid_at(placed, c.0, c.1) == rows[c.1].tiles[c.0]);
                }
            }
            assert forall|c: Cell| #[trigger]
                puzzle@.tiles.dom().contains(c) implies puzzle@.tiles[c] == expected.tiles[c] by {
                if 0 <= c.0 < width && 0 <= c.1 < height {
                    assert(grid_at(placed, c.0, c.1) == rows[c.1].tiles[c.0]);
                }
            }
        }
        assert(puzzle@.top_hints =~= expected.top_hints);
        assert(puzzle@.side_hints =~= expected.side_hints);
    }
    Ok((puzzle, end))
}

/// Reads a level: the header, the board, and nothing but white space after
/// it.
fn level(s: &str) -> (level: Result<Level, ParseError>)
    ensures
        match level {
            Ok(level) => parsed(encode_utf8(s@)) == Ok::<LevelView, ParseError>(level@),
            Err(error) => parsed(encode_utf8(s@)) == Err::<LevelView, ParseError>(error),
        },
{
    let (title, at) = match header(s) {
        Ok(head) => head,
        Err(error) => {
            return Err(error);
        },
    };
    let bytes = s.as_bytes();
    let (puzzle, end) = match puzzle(bytes, at) {
        Ok(board) => board,
        Err(error) => {
            return Err(error);
        },
    };
    let rest = skip(bytes, end, Class::White);
    if rest < bytes.len() {
        return Err(ParseError { kind: ParseErrorKind::TrailingText, offset: rest });
    }
    Ok(Level::new(puzzle, title))
}

/// Parses a text into a level.
///
/// The level is the one that the grammar, [`parsed`], finds in the bytes of
/// the text; where it finds none, the error says why and how far the text
/// was read.
pub fn parse_to_level(s: &str) -> (level: Result<Level, ParseError>)
    ensures
        match level {
            Ok(level) => parsed(encode_utf8(s@)) == Ok::<LevelView, ParseError>(level@),
            Err(error) => parsed(encode_utf8(s@)) == Err::<LevelView, ParseError>(error),
        },
{
    level(s)
}

} // verus!
