//! Playing a level: the state of a game, and what a key press makes of it.
//!
//! The library decides; it neither reads keys nor draws. A front end hands
//! each key press to [`Game::update`] and shows the state that results.

use vstd::prelude::*;
use aglet::{Coord, Direction4, Grid};
use crate::checker::{describes, walled, Failure};
use crate::marks::{marks_at, marks_dims, marks_get, marks_new, marks_put, marks_regular};
use crate::grid::lemma_slots_apart;
use crate::laws::lemma_verdict_of_board_alone;
use crate::rules::{cell, spot, Cell};
use crate::{Level, LevelView, Solution, Tile};

verus! {

/// What the player has marked on a cell.
#[derive(Debug, Clone, Copy, PartialEq, Eq, Structural)]
pub enum Marking {
    /// The player takes the cell for a wall.
    Wall,
    /// The player takes the cell for open. This is a note to the player and
    /// means no more to the checker than no marking at all.
    Empty,
}

/// Whether the markings solve the puzzle.
#[derive(Debug, Clone, Copy)]
pub enum SolvedState {
    /// No key was pressed yet.
    JustStarted,
    /// The markings break a rule.
    Fail(Failure),
    /// The markings solve the puzzle.
    Success,
}

/// A key, as far as the game tells keys apart.
#[derive(Debug, Clone, Copy, PartialEq, Eq, Structural)]
pub enum Key {
    Char(char),
    Left,
    Right,
    Up,
    Down,
    Other,
}

/// How the markings of a column or a row stand to its hint.
#[derive(Debug, Clone, Copy, PartialEq, Eq, Structural)]
pub enum HintState {
    /// As many walls as the hint asks for.
    Met,
    /// More walls than the hint asks for.
    Exceeded,
    /// Fewer walls than the hint asks for.
    Short,
}

/// What there is to show on a cell.
#[derive(Debug, Clone, Copy, PartialEq, Eq, Structural)]
pub enum Shown {
    /// A fixed tile, which hides any marking.
    Fixed(Tile),
    /// A marking of the player.
    Marked(Marking),
    /// Nothing.
    Blank,
}

/// The direction in which a key moves the cursor, if it moves it: the arrow
/// keys and `h`, `j`, `k`, `l` in either case.
pub open spec fn direction_of(key: Key) -> Option<Direction4> {
    match key {
        Key::Left => Some(Direction4::West),
        Key::Right => Some(Direction4::East),
        Key::Up => Some(Direction4::North),
        Key::Down => Some(Direction4::South),
        Key::Char(c) => if c == 'h' || c == 'H' {
            Some(Direction4::West)
        } else if c == 'l' || c == 'L' {
            Some(Direction4::East)
        } else if c == 'k' || c == 'K' {
            Some(Direction4::North)
        } else if c == 'j' || c == 'J' {
            Some(Direction4::South)
        } else {
            None
        },
        Key::Other => None,
    }
}

/// What a key makes of the marking under the cursor, if it changes
/// markings: `q` sets a wall or takes it away, `w` marks a cell without
/// marking as empty and clears any other.
pub open spec fn marking_of(key: Key, here: Option<Marking>) -> Option<Option<Marking>> {
    if key == Key::Char('q') {
        Some(
            if here == Some(Marking::Wall) {
                None
            } else {
                Some(Marking::Wall)
            },
        )
    } else if key == Key::Char('w') {
        Some(
            if here is None {
                Some(Marking::Empty)
            } else {
                None
            },
        )
    } else {
        None
    }
}

/// Where one step along a line of `len` cells leads from `at`: to the next
/// cell, or to the one before, and round to the other end from the last.
/// With `snap` it leads to the end of the line.
pub open spec fn stepped(at: int, len: int, forward: bool, snap: bool) -> int {
    if forward {
        if snap {
            len - 1
        } else {
            (at + 1) % len
        }
    } else {
        if snap {
            0
        } else {
            (at + len - 1) % len
        }
    }
}

/// How the markings of a line stand to its hint. The count is compared as
/// it is shown: in a byte.
pub open spec fn hint_state_of(count: int, hint: u8) -> HintState {
    if count % 256 == hint {
        HintState::Met
    } else if count % 256 > hint {
        HintState::Exceeded
    } else {
        HintState::Short
    }
}

/// What a game is, mathematically.
pub struct GameView {
    pub level: LevelView,
    /// Where the cursor stands.
    pub cursor: Cell,
    /// The markings, by cell.
    pub marks: Map<Cell, Marking>,
    pub solved: SolvedState,
    /// The screen is to be cleared before it is drawn next.
    pub must_redraw: bool,
}

impl GameView {
    pub open spec fn width(self) -> int {
        self.level.puzzle.width
    }

    pub open spec fn height(self) -> int {
        self.level.puzzle.height
    }

    /// The marking on a cell, if it has one.
    pub open spec fn marking(self, c: Cell) -> Option<Marking> {
        if self.marks.dom().contains(c) {
            Some(self.marks[c])
        } else {
            None
        }
    }

    /// The cell is marked as a wall.
    pub open spec fn wall(self, c: Cell) -> bool {
        self.marking(c) == Some(Marking::Wall)
    }

    /// The coordinates of the board that are not marked as walls.
    pub open spec fn floor(self) -> Set<Coord> {
        Set::new(|c: Coord| c.x < self.width() && c.y < self.height() && !self.wall(cell(c)))
    }

    /// What the rules say of the markings.
    pub open spec fn judged(self) -> SolvedState {
        match self.level.puzzle.board(self.floor()).verdict() {
            Ok(()) => SolvedState::Success,
            Err(failure) => SolvedState::Fail(failure),
        }
    }

    /// How many of the first `rows` cells of column `x` are marked as walls.
    pub open spec fn column_walls(self, x: int, rows: int) -> int
        decreases rows,
    {
        if rows <= 0 {
            0
        } else {
            self.column_walls(x, rows - 1) + if self.wall((x, rows - 1)) {
                1int
            } else {
                0int
            }
        }
    }

    /// How many of the first `columns` cells of row `y` are marked as walls.
    pub open spec fn row_walls(self, y: int, columns: int) -> int
        decreases columns,
    {
        if columns <= 0 {
            0
        } else {
            self.row_walls(y, columns - 1) + if self.wall((columns - 1, y)) {
                1int
            } else {
                0int
            }
        }
    }

    /// What there is to show on a cell.
    pub open spec fn shown(self, c: Cell) -> Shown {
        match self.level.puzzle.tile(c) {
            Some(tile) => Shown::Fixed(tile),
            None => match self.marking(c) {
                Some(marking) => Shown::Marked(marking),
                None => Shown::Blank,
            },
        }
    }

    /// The key quits the game: `c` with the control key.
    pub open spec fn quits(key: Key, ctrl: bool) -> bool {
        key == Key::Char('c') && ctrl
    }

    /// The key asks for the screen to be cleared: `l` with the control key.
    pub open spec fn redraws(key: Key, ctrl: bool) -> bool {
        key == Key::Char('l') && ctrl
    }

    /// The direction in which the key moves the cursor, if it comes to
    /// that.
    pub open spec fn moves(key: Key, ctrl: bool) -> Option<Direction4> {
        if Self::quits(key, ctrl) || Self::redraws(key, ctrl) {
            None
        } else {
            direction_of(key)
        }
    }

    /// The board has a cell for the cursor to move to. A move along a line
    /// without cells has nowhere to go; only a jump to its start stays
    /// where it is.
    pub open spec fn can_move(self, toward: Direction4, snap: bool) -> bool {
        match toward {
            Direction4::West => snap || self.width() > 0,
            Direction4::East => self.width() > 0,
            Direction4::North => snap || self.height() > 0,
            Direction4::South => self.height() > 0,
        }
    }

    /// Where the cursor stands after a move.
    pub open spec fn moved(self, toward: Direction4, snap: bool) -> Cell {
        match toward {
            Direction4::West => (stepped(self.cursor.0, self.width(), false, snap), self.cursor.1),
            Direction4::East => (stepped(self.cursor.0, self.width(), true, snap), self.cursor.1),
            Direction4::North => (
                self.cursor.0,
                stepped(self.cursor.1, self.height(), false, snap),
            ),
            Direction4::South => (self.cursor.0, stepped(self.cursor.1, self.height(), true, snap)),
        }
    }

    /// The markings with the one under the cursor set or cleared. A cursor
    /// off the board changes nothing.
    pub open spec fn marked(self, marking: Option<Marking>) -> Map<Cell, Marking> {
        if !(0 <= self.cursor.0 < self.width() && 0 <= self.cursor.1 < self.height()) {
            self.marks
        } else {
            match marking {
                Some(marking) => self.marks.insert(self.cursor, marking),
                None => self.marks.remove(self.cursor),
            }
        }
    }

    /// The game after a key press, before the markings are judged anew.
    ///
    /// Quitting changes nothing. Any other key takes back a request to
    /// clear the screen; then the key asks for the screen to be cleared, or
    /// moves the cursor, or, on a cell without a fixed tile, changes the
    /// marking under the cursor, or does nothing.
    pub open spec fn pressed(self, key: Key, ctrl: bool, shift: bool) -> GameView {
        if Self::quits(key, ctrl) {
            self
        } else if Self::redraws(key, ctrl) {
            GameView { must_redraw: true, ..self }
        } else if direction_of(key) is Some {
            GameView {
                must_redraw: false,
                cursor: self.moved(direction_of(key).unwrap(), shift),
                ..self
            }
        } else if self.level.puzzle.tile(self.cursor) is None && marking_of(
            key,
            self.marking(self.cursor),
        ) is Some {
            GameView {
                must_redraw: false,
                marks: self.marked(marking_of(key, self.marking(self.cursor)).unwrap()),
                ..self
            }
        } else {
            GameView { must_redraw: false, ..self }
        }
    }

    /// The game after a key press: what the key makes of it, with the
    /// markings judged anew.
    pub open spec fn after(self, key: Key, ctrl: bool, shift: bool) -> GameView {
        GameView {
            solved: self.pressed(key, ctrl, shift).judged(),
            ..self.pressed(key, ctrl, shift)
        }
    }
}

/// The markings of a grid as a map from its cells.
pub open spec fn marks_map(g: Grid<Marking>) -> Map<Cell, Marking> {
    Map::new(|c: Cell| marks_at(g, c.0, c.1) is Some, |c: Cell| marks_at(g, c.0, c.1).unwrap())
}

/// A game: a level, the player's markings on it, and the cursor.
#[derive(Debug)]
pub struct Game {
    level: Level,
    cursor: Coord,
    markings: Grid<Marking>,
    solved: SolvedState,
    must_redraw: bool,
}

impl View for Game {
    type V = GameView;

    closed spec fn view(&self) -> GameView {
        GameView {
            level: self.level@,
            cursor: cell(self.cursor),
            marks: marks_map(self.markings),
            solved: self.solved,
            must_redraw: self.must_redraw,
        }
    }
}

/// How the markings of a column or a row stand to its hint.
pub fn hint_state(count: usize, hint: u8) -> (state: HintState)
    ensures
        state == hint_state_of(count as int, hint),
{
    let shown = (count % 256) as u8;
    if shown == hint {
        HintState::Met
    } else if shown > hint {
        HintState::Exceeded
    } else {
        HintState::Short
    }
}

/// The direction in which a key moves the cursor, if it moves it.
fn cursor_delta(key: Key) -> (toward: Option<Direction4>)
    ensures
        toward == direction_of(key),
{
    match key {
        Key::Left => Some(Direction4::West),
        Key::Right => Some(Direction4::East),
        Key::Up => Some(Direction4::North),
        Key::Down => Some(Direction4::South),
        Key::Char(c) => if c == 'h' || c == 'H' {
            Some(Direction4::West)
        } else if c == 'l' || c == 'L' {
            Some(Direction4::East)
        } else if c == 'k' || c == 'K' {
            Some(Direction4::North)
        } else if c == 'j' || c == 'J' {
            Some(Direction4::South)
        } else {
            None
        },
        Key::Other => None,
    }
}

/// What a key makes of the marking under the cursor, if it changes
/// markings.
fn wanted_marking(key: Key, here: Option<Marking>) -> (wanted: Option<Option<Marking>>)
    ensures
        wanted == marking_of(key, here),
{
    match key {
        Key::Char(c) => if c == 'q' {
            match here {
                Some(Marking::Wall) => Some(None),
                _ => Some(Some(Marking::Wall)),
            }
        } else if c == 'w' {
            match here {
                None => Some(Some(Marking::Empty)),
                Some(_) => Some(None),
            }
        } else {
            None
        },
        _ => None,
    }
}

/// One step along a line of `len` cells.
fn step_along(at: u32, len: u32, forward: bool, snap: bool) -> (to: u32)
    requires
        at < len || at == 0,
        len <= crate::MAX_SIDE,
        forward || !snap ==> len > 0,
    ensures
        to == stepped(at as int, len as int, forward, snap),
        to < len || to == 0,
{
    if forward {
        if snap {
            len - 1
        } else {
            (at + 1) % len
        }
    } else {
        if snap {
            0
        } else {
            (at + len - 1) % len
        }
    }
}

impl Game {
    #[verifier::type_invariant]
    closed spec fn inv(&self) -> bool {
        &&& self.level@.puzzle.wf()
        &&& marks_regular(self.markings)
        &&& marks_dims(self.markings) == (
            self.level@.puzzle.width as nat,
            self.level@.puzzle.height as nat,
        )
        &&& self.cursor.x < self.level@.puzzle.width || self.cursor.x == 0
        &&& self.cursor.y < self.level@.puzzle.height || self.cursor.y == 0
    }

    /// A game on a level, with no markings and the cursor in the north-west
    /// corner.
    pub fn new(level: Level) -> (game: Self)
        ensures
            game@.level == level@,
            game@.cursor == (0int, 0int),
            game@.marks == Map::<Cell, Marking>::empty(),
            game@.solved is JustStarted,
            !game@.must_redraw,
    {
        let puzzle = level.puzzle();
        let width = puzzle.width();
        let height = puzzle.height();
        proof {
            use_type_invariant(puzzle);
            puzzle.lemma_inv();
        }
        let markings = marks_new(width, height);
        proof {
            assert forall|c: Cell| marks_at(markings, c.0, c.1) is None by {
                if 0 <= c.0 < width && 0 <= c.1 < height {
                    lemma_slots_apart(width as nat, height as nat, c.0, c.1, c.0, c.1);
                }
            }
            assert(marks_map(markings) =~= Map::<Cell, Marking>::empty());
        }
        Self {
            level,
            cursor: Coord::new(0, 0),
            markings,
            solved: SolvedState::JustStarted,
            must_redraw: false,
        }
    }

    pub fn level(&self) -> (level: &Level)
        ensures
            level@ == self@.level,
    {
        &self.level
    }

    pub fn cursor(&self) -> (cursor: Coord)
        ensures
            cell(cursor) == self@.cursor,
    {
        self.cursor
    }

    pub fn solved(&self) -> (solved: SolvedState)
        ensures
            solved == self@.solved,
    {
        self.solved
    }

    pub fn must_redraw(&self) -> (must: bool)
        ensures
            must == self@.must_redraw,
    {
        self.must_redraw
    }

    /// The marking on a cell; `None` for a cell without one and for a
    /// coordinate off the board.
    pub fn marking(&self, coord: Coord) -> (marking: Option<Marking>)
        ensures
            marking == self@.marking(cell(coord)),
    {
        proof {
            use_type_invariant(self);
        }
        marks_get(&self.markings, coord)
    }

    /// What there is to show on a cell: its fixed tile, else its marking.
    pub fn shown(&self, coord: Coord) -> (shown: Shown)
        ensures
            shown == self@.shown(cell(coord)),
    {
        match self.level.puzzle().get_tile(coord) {
            Some(tile) => Shown::Fixed(tile),
            None => match self.marking(coord) {
                Some(marking) => Shown::Marked(marking),
                None => Shown::Blank,
            },
        }
    }

    /// The player's markings as a solution to check.
    pub fn solution(&self) -> (view: SolutionView<'_>)
        ensures
            forall|c: Coord| view.wall(c) == self@.wall(cell(c)),
    {
        proof {
            use_type_invariant(self);
        }
        SolutionView { marks: &self.markings }
    }

    /// Takes a key press: quits, asks for the screen to be cleared, moves
    /// the cursor or changes the marking under it, and judges the markings
    /// anew. Says whether the player quits.
    ///
    /// A key that moves the cursor needs a board with a cell to move to.
    pub fn update(&mut self, key: Key, ctrl: bool, shift: bool) -> (quit: bool)
        requires
            GameView::moves(key, ctrl) is Some ==> old(self)@.can_move(
                GameView::moves(key, ctrl).unwrap(),
                shift,
            ),
        ensures
            quit == GameView::quits(key, ctrl),
            final(self)@ == old(self)@.after(key, ctrl, shift),
    {
        proof {
            use_type_invariant(&*self);
        }
        let quit = self.press(key, ctrl, shift);
        let solved = self.judge();
        proof {
            use_type_invariant(&*self);
        }
        self.solved = solved;
        quit
    }

    /// What the rules say of the markings as they stand.
    fn judge(&self) -> (solved: SolvedState)
        ensures
            solved == self@.judged(),
    {
        proof {
            use_type_invariant(self);
        }
        let puzzle = self.level.puzzle();
        let view = self.solution();
        let verdict = puzzle.check_solution(&view);
        proof {
            let read = choose|floor: Set<Coord>| #[trigger]
                describes(&view, puzzle@, floor) && verdict == puzzle@.board(floor).verdict();
            assert forall|c: Cell|
                puzzle@.board(read).open(c) == puzzle@.board(self@.floor()).open(c) by {
                if puzzle@.board(read).in_bounds(c) {
                    assert(walled(read, spot(c)) == view.wall(spot(c)));
                }
            }
            lemma_verdict_of_board_alone(puzzle@.board(read), puzzle@.board(self@.floor()));
        }
        match verdict {
            Ok(()) => SolvedState::Success,
            Err(failure) => SolvedState::Fail(failure),
        }
    }

    /// Takes a key press as [`Game::update`] does, if the key has somewhere
    /// to go: a key that would move the cursor along a line without cells is
    /// not taken, and leaves the game as it is.
    pub fn try_update(&mut self, key: Key, ctrl: bool, shift: bool) -> (quit: Option<bool>)
        ensures
            quit is Some <==> (GameView::moves(key, ctrl) is Some ==> old(self)@.can_move(
                GameView::moves(key, ctrl).unwrap(),
                shift,
            )),
            quit is Some ==> quit == Some(GameView::quits(key, ctrl)) && final(self)@ == old(
                self,
            )@.after(key, ctrl, shift),
            quit is None ==> final(self)@ == old(self)@,
    {
        let control = match key {
            Key::Char(c) => ctrl && (c == 'c' || c == 'l'),
            _ => false,
        };
        let width = self.level.puzzle().width();
        let height = self.level.puzzle().height();
        let can_move = control || match cursor_delta(key) {
            Some(Direction4::West) => shift || width > 0,
            Some(Direction4::East) => width > 0,
            Some(Direction4::North) => shift || height > 0,
            Some(Direction4::South) => height > 0,
            None => true,
        };
        if can_move {
            Some(self.update(key, ctrl, shift))
        } else {
            None
        }
    }

    /// What a key press makes of the game, before the markings are judged
    /// anew.
    fn press(&mut self, key: Key, ctrl: bool, shift: bool) -> (quit: bool)
        requires
            GameView::moves(key, ctrl) is Some ==> old(self)@.can_move(
                GameView::moves(key, ctrl).unwrap(),
                shift,
            ),
        ensures
            quit == GameView::quits(key, ctrl),
            final(self)@ == old(self)@.pressed(key, ctrl, shift),
    {
        proof {
            use_type_invariant(&*self);
        }
        let ghost before = self@;
        let is_c = match key {
            Key::Char(c) => c == 'c',
            _ => false,
        };
        if is_c && ctrl {
            return true;
        }
        if self.must_redraw {
            self.must_redraw = false;
        }
        let is_l = match key {
            Key::Char(c) => c == 'l',
            _ => false,
        };
        if is_l && ctrl {
            self.must_redraw = true;
            return false;
        }
        let width = self.level.puzzle().width();
        let height = self.level.puzzle().height();
        match cursor_delta(key) {
            Some(cursor_delta) => {
                let x2 = match cursor_delta {
                    Direction4::North | Direction4::South => self.cursor.x,
                    Direction4::West => step_along(self.cursor.x, width, false, shift),
                    Direction4::East => step_along(self.cursor.x, width, true, shift),
                };
                let y2 = match cursor_delta {
                    Direction4::West | Direction4::East => self.cursor.y,
                    Direction4::North => step_along(self.cursor.y, height, false, shift),
                    Direction4::South => step_along(self.cursor.y, height, true, shift),
                };
                self.cursor = Coord::new(x2, y2);
                return false;
            },
            None => {},
        }
        // Try markings
        if self.level.puzzle().get_tile(self.cursor).is_none() {
            let marking_here = marks_get(&self.markings, self.cursor);
            match wanted_marking(key, marking_here) {
                Some(marking2) => {
                    let ghost old_marks = self.markings;
                    proof {
                        let here = cell(self.cursor);
                        let dims = marks_dims(old_marks);
                        if 0 <= here.0 < dims.0 && 0 <= here.1 < dims.1 {
                            lemma_slots_apart(dims.0, dims.1, here.0, here.1, here.0, here.1);
                        }
                    }
                    marks_put(&mut self.markings, self.cursor, marking2);
                    proof {
                        let here = cell(self.cursor);
                        let dims = marks_dims(old_marks);
                        assert forall|c: Cell|
                            marks_at(self.markings, c.0, c.1) == if c == here && 0 <= c.0 < dims.0
                                && 0 <= c.1 < dims.1 {
                                marking2
                            } else {
                                marks_at(old_marks, c.0, c.1)
                            } by {
                            if 0 <= c.0 < dims.0 && 0 <= c.1 < dims.1 {
                                lemma_slots_apart(dims.0, dims.1, c.0, c.1, here.0, here.1);
                                if 0 <= here.0 < dims.0 && 0 <= here.1 < dims.1 {
                                    lemma_slots_apart(dims.0, dims.1, here.0, here.1, c.0, c.1);
                                }
                            }
                        }
                        assert(marks_map(self.markings) =~= before.marked(marking2));
                    }
                    return false;
                },
                None => {},
            }
        }
        false
    }

    /// How many cells of each column, and of each row, are marked as walls.
    #[verifier::loop_isolation(false)]
    pub fn col_row_wall_counts(&self) -> (counts: (Vec<usize>, Vec<usize>))
        ensures
            counts.0@.len() == self@.width(),
            counts.1@.len() == self@.height(),
            forall|x: int|
                0 <= x < self@.width() ==> #[trigger] counts.0@[x] == self@.column_walls(
                    x,
                    self@.height(),
                ),
            forall|y: int|
                0 <= y < self@.height() ==> #[trigger] counts.1@[y] == self@.row_walls(
                    y,
                    self@.width(),
                ),
    {
        proof {
            use_type_invariant(self);
        }
        let width = self.level.puzzle().width();
        let height = self.level.puzzle().height();
        let mut col_counts: Vec<usize> = Vec::new();
        let mut x: u32 = 0;
        while x < width
            invariant
                x <= width,
                col_counts@.len() == x,
                forall|i: int|
                    0 <= i < x ==> #[trigger] col_counts@[i] == self@.column_walls(
                        i,
                        height as int,
                    ),
            decreases width - x,
        {
            let mut count: usize = 0;
            let mut y: u32 = 0;
            while y < height
                invariant
                    y <= height,
                    x < width,
                    count <= y,
                    count == self@.column_walls(x as int, y as int),
                decreases height - y,
            {
                match marks_get(&self.markings, Coord::new(x, y)) {
                    Some(Marking::Wall) => {
                        count += 1;
                    },
                    _ => {},
                }
                y += 1;
            }
            col_counts.push(count);
            x += 1;
        }
        let mut row_counts: Vec<usize> = Vec::new();
        let mut y: u32 = 0;
        while y < height
            invariant
                y <= height,
                row_counts@.len() == y,
                forall|i: int|
                    0 <= i < y ==> #[trigger] row_counts@[i] == self@.row_walls(i, width as int),
            decreases height - y,
        {
            let mut count: usize = 0;
            let mut x: u32 = 0;
            while x < width
                invariant
                    x <= width,
                    y < height,
                    count <= x,
                    count == self@.row_walls(y as int, x as int),
                decreases width - x,
            {
                match marks_get(&self.markings, Coord::new(x, y)) {
                    Some(Marking::Wall) => {
                        count += 1;
                    },
                    _ => {},
                }
                x += 1;
            }
            row_counts.push(count);
            y += 1;
        }
        (col_counts, row_counts)
    }
}

/// A player's markings, seen as a solution: a cell is a wall where it is
/// marked as one.
pub struct SolutionView<'a> {
    marks: &'a Grid<Marking>,
}

impl<'a> SolutionView<'a> {
    #[verifier::type_invariant]
    closed spec fn inv(&self) -> bool {
        marks_regular(*self.marks)
    }

    /// The coordinate is marked as a wall.
    pub closed spec fn wall(&self, coord: Coord) -> bool {
        marks_at(*self.marks, coord.x as int, coord.y as int) == Some(Marking::Wall)
    }
}

impl<'a> Solution for SolutionView<'a> {
    fn is_wall(&self, coord: Coord) -> (wall: bool)
        ensures
            wall == self.wall(coord),
    {
        proof {
            use_type_invariant(self);
        }
        match marks_get(self.marks, coord) {
            None => false,
            Some(mark) => mark == Marking::Wall,
        }
    }
}

} // verus!
