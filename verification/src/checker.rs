//! The solution checker.

use vstd::prelude::*;
use aglet::{Coord, CoordVec, Direction8};
use ahash::AHashSet;
use crate::cells::{cells_contains, cells_insert, cells_new, cells_of};
use crate::compass::{ordinal, orthogonal_neighbors, shifted};
use crate::reading::{
    lemma_first_unique, lemma_scan_done, lemma_scan_hit, lemma_scan_next_row, lemma_scan_step,
    none_before,
};
use crate::region::{
    closed_under_steps, lemma_closed_holds_connected, lemma_connected_open, lemma_connected_self,
    lemma_connected_step, lemma_neighbors_adjacent, lemma_neighbors_cover,
    lemma_open_spots_finite,
};
use crate::rooms::{
    claimed_before, lemma_claimed_done, lemma_claimed_next_row, lemma_claimed_none,
    lemma_claimed_skip, lemma_claimed_take, lemma_found_room, lemma_room_spots,
};
use crate::rules::{
    adjacent, before, cell, in_window, inhabited, is_first, room_spots, spot, Board, Cell,
};
use crate::{Puzzle, PuzzleView, Solution, Tile};

verus! {

/// Why a layout is not a solution.
#[derive(Debug, Clone, Copy, PartialEq, Eq, Structural)]
pub enum FailureReason {
    EntirelyFilledWithWalls,
    WallOverlapsFilledTile(Tile),
    DiscontiguousAreas,
    DeadEndWithoutMonster,
    MonsterWithoutDeadEnd,
    NoTreasureRoom,
    LargeAreaOutsideOfTreasureRoom,
}

/// A violated rule and the coordinate at which it was found.
#[derive(Debug, Clone, Copy)]
pub struct Failure {
    pub reason: FailureReason,
    pub pos: Coord,
}

impl Failure {
    pub fn new(pos: Coord, reason: FailureReason) -> (failure: Self)
        ensures
            failure.pos == pos,
            failure.reason == reason,
    {
        Self { reason, pos }
    }
}

/// The coordinate is a wall in the layout that leaves `floor` open.
pub open spec fn walled(floor: Set<Coord>, c: Coord) -> bool {
    !floor.contains(c)
}

/// `floor` is a layout that `solution` may describe: on each cell of the
/// board, the answer that `floor` gives is one that `is_wall` can give.
pub open spec fn describes<S: Solution>(solution: &S, puzzle: PuzzleView, floor: Set<Coord>) -> bool {
    forall|c: Coord|
        c.x < puzzle.width && c.y < puzzle.height ==> call_ensures(
            S::is_wall,
            (solution, c),
            #[trigger] walled(floor, c),
        )
}

/// Adds the cells of a room to those that the chests have claimed.
fn claim(claimed: &mut AHashSet<Coord>, owned: &Vec<Coord>)
    ensures
        forall|c: Coord|
            cells_of(*final(claimed)).contains(c) <==> cells_of(*old(claimed)).contains(c)
                || owned@.contains(c),
{
    let mut i: usize = 0;
    while i < owned.len()
        invariant
            i <= owned.len(),
            forall|c: Coord|
                cells_of(*claimed).contains(c) <==> cells_of(*old(claimed)).contains(c) || exists|
                    j: int,
                |
                    0 <= j < i && owned[j] == c,
        decreases owned.len() - i,
    {
        cells_insert(claimed, owned[i]);
        i += 1;
    }
}

impl Puzzle {
    /// The board of this puzzle under the layout that leaves the cells of
    /// `openings` open.
    pub open spec fn layout(&self, openings: &AHashSet<Coord>) -> Board {
        self@.board(cells_of(*openings))
    }

    /// Checks a layout against the rules of the puzzle.
    ///
    /// - Every dead end holds a monster, and every monster is in a dead end.
    /// - Every treasure chest is in a three-by-three room with exactly one
    ///   entrance.
    /// - Outside the treasure rooms no open area is two cells wide.
    /// - All open cells are connected.
    ///
    /// Each cell of the board is asked of `solution` once, row by row, and
    /// no other coordinate is. The verdict is the one that the rules give on
    /// the layout that was read. Of `solution` no more is known than its own
    /// contract tells: where that fixes the answer for each cell of the
    /// board, it fixes the verdict.
    #[verifier::loop_isolation(false)]
    pub fn check_solution<S: Solution>(&self, solution: &S) -> (verdict: Result<(), Failure>)
        ensures
            exists|floor: Set<Coord>| #[trigger]
                describes(solution, self@, floor) && verdict == self@.board(floor).verdict(),
    {
        let width = self.width();
        let height = self.height();
        let mut openings = cells_new();
        let mut y: u32 = 0;
        while y < height
            invariant
                y <= height,
                forall|c: Coord|
                    c.x < width && c.y < y ==> call_ensures(
                        S::is_wall,
                        (solution, c),
                        #[trigger] walled(cells_of(openings), c),
                    ),
                forall|c: Coord| cells_of(openings).contains(c) ==> c.y < y,
            decreases height - y,
        {
            let mut x: u32 = 0;
            while x < width
                invariant
                    x <= width,
                    y < height,
                    forall|c: Coord|
                        c.x < width && (c.y < y || (c.y == y && c.x < x)) ==> call_ensures(
                            S::is_wall,
                            (solution, c),
                            #[trigger] walled(cells_of(openings), c),
                        ),
                    forall|c: Coord|
                        cells_of(openings).contains(c) ==> c.y < y || (c.y == y && c.x < x),
                decreases width - x,
            {
                let coord = Coord::new(x, y);
                let ghost read = cells_of(openings);
                let wall = solution.is_wall(coord);
                if !wall {
                    cells_insert(&mut openings, coord);
                }
                proof {
                    assert(walled(cells_of(openings), coord) == wall);
                    assert forall|c: Coord|
                        c.x < width && (c.y < y || (c.y == y && c.x < x + 1)) implies call_ensures(
                        S::is_wall,
                        (solution, c),
                        #[trigger] walled(cells_of(openings), c),
                    ) by {
                        if c != coord {
                            assert(walled(read, c) == walled(cells_of(openings), c));
                        }
                    }
                }
                x += 1;
            }
            y += 1;
        }
        let verdict = self.check_openings(&openings);
        proof {
            assert(describes(solution, self@, cells_of(openings)));
        }
        verdict
    }

    /// Checks the layout that leaves exactly the cells of `openings` open,
    /// and gives the verdict of the rules on it: the first violation in the
    /// order of the checks, at the first cell in reading order that shows it.
    /// Coordinates of `openings` that lie off the board play no part.
    #[verifier::loop_isolation(false)]
    pub fn check_openings(&self, openings: &AHashSet<Coord>) -> (verdict: Result<(), Failure>)
        ensures
            verdict == self.layout(openings).verdict(),
    {
        proof {
            use_type_invariant(self);
        }
        let ghost b = self.layout(openings);
        let (chests, big_opens) = match self.check_shape(openings) {
            Ok(shape) => shape,
            Err(failure) => {
                return Err(failure);
            },
        };
        let width = self.width();
        let height = self.height();
        // Each chest claims the cells of its room.
        let mut claimed_by_chests = cells_new();
        proof {
            assert forall|c: Coord| !claimed_before(b, cell(c), (0, 0)) by {
                lemma_claimed_none(b, cell(c));
            }
        }
        let mut y: u32 = 0;
        while y < height
            invariant
                y <= height,
                none_before(b.roomless_chests(), (0, y as int)),
                forall|c: Coord|
                    cells_of(claimed_by_chests).contains(c) <==> claimed_before(
                        b,
                        cell(c),
                        (0, y as int),
                    ),
            decreases height - y,
        {
            let mut x: u32 = 0;
            while x < width
                invariant
                    x <= width,
                    y < height,
                    none_before(b.roomless_chests(), (x as int, y as int)),
                    forall|c: Coord|
                        cells_of(claimed_by_chests).contains(c) <==> claimed_before(
                            b,
                            cell(c),
                            (x as int, y as int),
                        ),
                decreases width - x,
            {
                let coord = Coord::new(x, y);
                let ghost here: Cell = (x as int, y as int);
                if cells_contains(&chests, coord) {
                    match self.check_chest(openings, coord) {
                        Ok(owned) => {
                            claim(&mut claimed_by_chests, &owned);
                            proof {
                                let k = b.the_room(here);
                                assert(b.room_of(here, k));
                                assert forall|c: Coord|
                                    cells_of(claimed_by_chests).contains(c) <==> claimed_before(
                                        b,
                                        cell(c),
                                        (x + 1, y as int),
                                    ) by {
                                    lemma_room_spots(b, k, c);
                                    lemma_claimed_take(b, cell(c), here, k);
                                }
                            }
                        },
                        Err(failure) => {
                            proof {
                                lemma_scan_hit(b.roomless_chests(), here);
                            }
                            return Err(failure);
                        },
                    }
                } else {
                    proof {
                        assert forall|c: Coord|
                            claimed_before(b, cell(c), (x + 1, y as int)) <==> claimed_before(
                                b,
                                cell(c),
                                here,
                            ) by {
                            lemma_claimed_skip(b, cell(c), here);
                        }
                    }
                }
                proof {
                    lemma_scan_step(b.roomless_chests(), here);
                }
                x += 1;
            }
            proof {
                lemma_scan_next_row(b, b.roomless_chests(), y as int);
                assert forall|c: Coord|
                    claimed_before(b, cell(c), (b.width, y as int)) <==> claimed_before(
                        b,
                        cell(c),
                        (0, y + 1),
                    ) by {
                    lemma_claimed_next_row(b, cell(c), y as int);
                }
            }
            y += 1;
        }
        proof {
            lemma_scan_done(b, b.roomless_chests());
            assert forall|c: Coord| cells_of(claimed_by_chests).contains(c) <==> b.claimed(
                cell(c),
            ) by {
                lemma_claimed_done(b, cell(c));
            }
        }
        // Every cell of an open two-by-two square must have been claimed.
        let mut y: u32 = 0;
        while y < height
            invariant
                y <= height,
                none_before(b.unclaimed_cells(), (0, y as int)),
            decreases height - y,
        {
            let mut x: u32 = 0;
            while x < width
                invariant
                    x <= width,
                    y < height,
                    none_before(b.unclaimed_cells(), (x as int, y as int)),
                decreases width - x,
            {
                let coord = Coord::new(x, y);
                let ghost here: Cell = (x as int, y as int);
                if cells_contains(&big_opens, coord) && !cells_contains(&claimed_by_chests, coord) {
                    proof {
                        lemma_scan_hit(b.unclaimed_cells(), here);
                    }
                    return Err(
                        Failure::new(coord, FailureReason::LargeAreaOutsideOfTreasureRoom),
                    );
                }
                proof {
                    lemma_scan_step(b.unclaimed_cells(), here);
                }
                x += 1;
            }
            proof {
                lemma_scan_next_row(b, b.unclaimed_cells(), y as int);
            }
            y += 1;
        }
        proof {
            lemma_scan_done(b, b.unclaimed_cells());
        }
        Ok(())
    }

    /// Checks the shape of the open area: no wall on a fixed tile, one
    /// connected region, and a monster exactly in each dead end. Gives back
    /// the chests and the cells of open two-by-two squares, which the
    /// treasure rooms have to account for.
    #[verifier::loop_isolation(false)]
    pub fn check_shape(&self, openings: &AHashSet<Coord>) -> (shape: Result<
        (AHashSet<Coord>, AHashSet<Coord>),
        Failure,
    >)
        ensures
            match shape {
                Ok((chests, big_opens)) => {
                    &&& self.layout(openings).shape_verdict() is Ok
                    &&& cells_of(chests) == self.layout(openings).chest_spots()
                    &&& cells_of(big_opens) == self.layout(openings).oversized_spots()
                },
                Err(failure) => self.layout(openings).shape_verdict() == Err::<(), Failure>(
                    failure,
                ),
            },
    {
        proof {
            use_type_invariant(self);
        }
        let ghost b = self.layout(openings);
        let (monsters, chests, start) = match self.survey(openings) {
            Ok(found) => found,
            Err(failure) => {
                return Err(failure);
            },
        };
        let start = match start {
            Some(start) => start,
            None => {
                // No tile is covered and nothing is open, so the board has
                // no tile at all and the layout passes as it stands.
                let big_opens = cells_new();
                proof {
                    assert forall|c: Cell| !b.faulty_cells().contains(c) by {
                        if b.fault(c) is Some {
                            assert(b.open_cells().contains(c));
                        }
                    }
                    assert forall|c: Coord| !b.oversized(cell(c)) by {
                        if b.oversized(cell(c)) {
                            assert(b.open_cells().contains(cell(c)));
                        }
                    }
                    assert(cells_of(big_opens) =~= b.oversized_spots());
                }
                return Ok((chests, big_opens));
            },
        };
        proof {
            lemma_first_unique(b.open_cells(), cell(start));
        }
        let reached = self.flood(openings, start);
        let width = self.width();
        let height = self.height();
        let mut big_opens = cells_new();
        let mut y: u32 = 0;
        while y < height
            invariant
                y <= height,
                none_before(b.faulty_cells(), (0, y as int)),
                forall|c: Coord|
                    cells_of(big_opens).contains(c) <==> b.oversized(cell(c)) && before(
                        cell(c),
                        (0, y as int),
                    ),
            decreases height - y,
        {
            let mut x: u32 = 0;
            while x < width
                invariant
                    x <= width,
                    y < height,
                    none_before(b.faulty_cells(), (x as int, y as int)),
                    forall|c: Coord|
                        cells_of(big_opens).contains(c) <==> b.oversized(cell(c)) && before(
                            cell(c),
                            (x as int, y as int),
                        ),
                decreases width - x,
            {
                let coord = Coord::new(x, y);
                let ghost here: Cell = (x as int, y as int);
                if cells_contains(openings, coord) {
                    if !cells_contains(&reached, coord) {
                        proof {
                            lemma_scan_hit(b.faulty_cells(), here);
                        }
                        return Err(Failure::new(coord, FailureReason::DiscontiguousAreas));
                    }
                    if self.is_oversized(openings, coord) {
                        cells_insert(&mut big_opens, coord);
                    }
                    let blocked = self.blocked_sides(openings, coord);
                    let monster = cells_contains(&monsters, coord);
                    if blocked <= 2 {
                        if monster {
                            proof {
                                lemma_scan_hit(b.faulty_cells(), here);
                            }
                            return Err(
                                Failure::new(coord, FailureReason::MonsterWithoutDeadEnd),
                            );
                        }
                    } else {
                        if !monster {
                            proof {
                                lemma_scan_hit(b.faulty_cells(), here);
                            }
                            return Err(
                                Failure::new(coord, FailureReason::DeadEndWithoutMonster),
                            );
                        }
                    }
                }
                proof {
                    lemma_scan_step(b.faulty_cells(), here);
                }
                x += 1;
            }
            proof {
                lemma_scan_next_row(b, b.faulty_cells(), y as int);
            }
            y += 1;
        }
        proof {
            lemma_scan_done(b, b.faulty_cells());
            assert(cells_of(big_opens) =~= b.oversized_spots());
        }
        Ok((chests, big_opens))
    }

    /// Searches for the treasure room of a chest: a three-by-three window of
    /// open cells that holds the chest and has exactly one open cell on its
    /// border. The corners are tried row by row; a chest has at most one
    /// room, so the order decides nothing. Gives back the cells of the room.
    #[verifier::loop_isolation(false)]
    pub fn check_chest(&self, openings: &AHashSet<Coord>, chest: Coord) -> (room: Result<
        Vec<Coord>,
        Failure,
    >)
        ensures
            match room {
                Ok(owned) => self.layout(openings).claim(cell(chest)) == Ok::<
                    Seq<Coord>,
                    Failure,
                >(owned@),
                Err(failure) => self.layout(openings).claim(cell(chest)) == Err::<
                    Seq<Coord>,
                    Failure,
                >(failure),
            },
    {
        proof {
            use_type_invariant(self);
        }
        let ghost b = self.layout(openings);
        let ghost at = cell(chest);
        let width = self.width();
        let height = self.height();
        if width >= 3 && height >= 3 {
            let min_corner_x = chest.x.saturating_sub(2);
            let max_corner_x = if chest.x < width - 3 {
                chest.x
            } else {
                width - 3
            };
            let min_corner_y = chest.y.saturating_sub(2);
            let max_corner_y = if chest.y < height - 3 {
                chest.y
            } else {
                height - 3
            };
            proof {
                assert forall|k: Cell| k.1 < min_corner_y implies !#[trigger] b.room_of(at, k) by {
                    if b.room_of(at, k) {
                        assert(b.open(k));
                    }
                }
            }
            let mut corner_y = min_corner_y;
            while corner_y <= max_corner_y
                invariant
                    min_corner_y <= corner_y,
                    corner_y <= max_corner_y + 1 || max_corner_y < min_corner_y,
                    forall|k: Cell| k.1 < corner_y ==> !#[trigger] b.room_of(at, k),
                decreases max_corner_y + 1 - corner_y,
            {
                proof {
                    assert forall|k: Cell| k.0 < min_corner_x implies !#[trigger] b.room_of(
                        at,
                        k,
                    ) by {
                        if b.room_of(at, k) {
                            assert(b.open(k));
                        }
                    }
                }
                let mut corner_x = min_corner_x;
                while corner_x <= max_corner_x
                    invariant
                        min_corner_x <= corner_x,
                        corner_x <= max_corner_x + 1 || max_corner_x < min_corner_x,
                        corner_y <= max_corner_y,
                        forall|k: Cell|
                            k.1 == corner_y && k.0 < corner_x ==> !#[trigger] b.room_of(at, k),
                    decreases max_corner_x + 1 - corner_x,
                {
                    match self.room_at(openings, corner_x, corner_y) {
                        Some(owned) => {
                            proof {
                                lemma_found_room(b, at, (corner_x as int, corner_y as int));
                            }
                            return Ok(owned);
                        },
                        None => {},
                    }
                    corner_x += 1;
                }
                proof {
                    assert forall|k: Cell| k.1 == corner_y implies !#[trigger] b.room_of(
                        at,
                        k,
                    ) by {
                        if b.room_of(at, k) {
                            assert(b.open(k));
                            assert(b.open((k.0 + 2, k.1 + 2)));
                        }
                    }
                }
                corner_y += 1;
            }
        }
        proof {
            assert forall|k: Cell| !#[trigger] b.room_of(at, k) by {
                if b.room_of(at, k) {
                    assert(b.open(k));
                    assert(b.open((k.0 + 2, k.1 + 2)));
                }
            }
        }
        Err(Failure::new(chest, FailureReason::NoTreasureRoom))
    }

    /// Whether the window with its north-west corner at the given place is
    /// a treasure room; if so, its nine cells, row by row.
    #[verifier::loop_isolation(false)]
    fn room_at(&self, openings: &AHashSet<Coord>, corner_x: u32, corner_y: u32) -> (room: Option<
        Vec<Coord>,
    >)
        requires
            corner_x + 3 <= self@.width,
            corner_y + 3 <= self@.height,
        ensures
            match room {
                Some(owned) => {
                    &&& self.layout(openings).is_room((corner_x as int, corner_y as int))
                    &&& owned@ == room_spots((corner_x as int, corner_y as int))
                },
                None => !self.layout(openings).is_room((corner_x as int, corner_y as int)),
            },
    {
        proof {
            use_type_invariant(self);
        }
        let ghost b = self.layout(openings);
        let ghost k: Cell = (corner_x as int, corner_y as int);
        let mut owned: Vec<Coord> = Vec::new();
        let mut y = corner_y;
        while y < corner_y + 3
            invariant
                corner_y <= y <= corner_y + 3,
                owned.len() == 3 * (y - corner_y),
                forall|i: int| 0 <= i < owned.len() ==> owned[i] == room_spots(k)[i],
                forall|i: int| 0 <= i < owned.len() ==> b.open(cell(#[trigger] owned[i])),
            decreases corner_y + 3 - y,
        {
            let mut x = corner_x;
            while x < corner_x + 3
                invariant
                    corner_x <= x <= corner_x + 3,
                    y < corner_y + 3,
                    owned.len() == 3 * (y - corner_y) + (x - corner_x),
                    forall|i: int| 0 <= i < owned.len() ==> owned[i] == room_spots(k)[i],
                    forall|i: int| 0 <= i < owned.len() ==> b.open(cell(#[trigger] owned[i])),
                decreases corner_x + 3 - x,
            {
                let here = Coord::new(x, y);
                if !cells_contains(openings, here) {
                    // A wall inside the window: this corner will not do.
                    proof {
                        assert(in_window(k, cell(here)));
                        assert(!b.open(cell(here)));
                    }
                    return None;
                }
                owned.push(here);
                x += 1;
            }
            y += 1;
        }
        proof {
            assert(owned@ =~= room_spots(k));
            assert forall|c: Cell| in_window(k, c) implies #[trigger] b.open(c) by {
                let i = (c.1 - k.1) * 3 + (c.0 - k.0);
                assert(cell(owned[i]) == c);
            }
        }
        // The window is open throughout; now count the open cells on its
        // border, leaving out the four that are diagonal to its corners.
        let west = corner_x as i32 - 1;
        let east = corner_x as i32 + 3;
        let north = corner_y as i32 - 1;
        let south = corner_y as i32 + 3;
        let mut entrances: u8 = 0;
        let mut i: i32 = 0;
        while i < 3
            invariant
                0 <= i <= 3,
                entrances <= 4 * i,
                entrances == (if i > 0 {
                    b.doors_at(k, 0)
                } else {
                    0
                }) + (if i > 1 {
                    b.doors_at(k, 1)
                } else {
                    0
                }) + (if i > 2 {
                    b.doors_at(k, 2)
                } else {
                    0
                }),
            decreases 3 - i,
        {
            if self.is_open(openings, CoordVec::new(corner_x as i32 + i, north)) {
                entrances += 1;
            }
            if self.is_open(openings, CoordVec::new(corner_x as i32 + i, south)) {
                entrances += 1;
            }
            if self.is_open(openings, CoordVec::new(west, corner_y as i32 + i)) {
                entrances += 1;
            }
            if self.is_open(openings, CoordVec::new(east, corner_y as i32 + i)) {
                entrances += 1;
            }
            if entrances > 1 {
                // A second entrance: this corner will not do.
                return None;
            }
            i += 1;
        }
        if entrances == 1 {
            Some(owned)
        } else {
            None
        }
    }

    /// The first sweep over the board: sorts the fixed tiles into monsters
    /// and chests, finds the first open cell, and fails at the first fixed
    /// tile that a wall covers.
    #[verifier::loop_isolation(false)]
    fn survey(&self, openings: &AHashSet<Coord>) -> (found: Result<
        (AHashSet<Coord>, AHashSet<Coord>, Option<Coord>),
        Failure,
    >)
        ensures
            match found {
                Ok((monsters, chests, start)) => {
                    &&& !inhabited(self.layout(openings).covered_cells())
                    &&& cells_of(monsters) == self.layout(openings).monster_spots()
                    &&& cells_of(chests) == self.layout(openings).chest_spots()
                    &&& match start {
                        Some(s) => is_first(self.layout(openings).open_cells(), cell(s)),
                        None => !inhabited(self.layout(openings).open_cells()),
                    }
                },
                Err(failure) => self.layout(openings).shape_verdict() == Err::<(), Failure>(
                    failure,
                ),
            },
    {
        proof {
            use_type_invariant(self);
        }
        let ghost b = self.layout(openings);
        let width = self.width();
        let height = self.height();
        let mut monsters = cells_new();
        let mut chests = cells_new();
        let mut start: Option<Coord> = None;
        let mut y: u32 = 0;
        while y < height
            invariant
                y <= height,
                none_before(b.covered_cells(), (0, y as int)),
                forall|c: Coord|
                    cells_of(monsters).contains(c) <==> b.monster(cell(c)) && before(
                        cell(c),
                        (0, y as int),
                    ),
                forall|c: Coord|
                    cells_of(chests).contains(c) <==> b.chest(cell(c)) && before(
                        cell(c),
                        (0, y as int),
                    ),
                match start {
                    Some(s) => is_first(b.open_cells(), cell(s)),
                    None => none_before(b.open_cells(), (0, y as int)),
                },
            decreases height - y,
        {
            let mut x: u32 = 0;
            while x < width
                invariant
                    x <= width,
                    y < height,
                    none_before(b.covered_cells(), (x as int, y as int)),
                    forall|c: Coord|
                        cells_of(monsters).contains(c) <==> b.monster(cell(c)) && before(
                            cell(c),
                            (x as int, y as int),
                        ),
                    forall|c: Coord|
                        cells_of(chests).contains(c) <==> b.chest(cell(c)) && before(
                            cell(c),
                            (x as int, y as int),
                        ),
                    match start {
                        Some(s) => is_first(b.open_cells(), cell(s)),
                        None => none_before(b.open_cells(), (x as int, y as int)),
                    },
                decreases width - x,
            {
                let coord = Coord::new(x, y);
                let ghost here: Cell = (x as int, y as int);
                let tile = self.get_tile(coord);
                match tile {
                    Some(Tile::Monster) => {
                        cells_insert(&mut monsters, coord);
                    },
                    Some(Tile::TreasureChest) => {
                        cells_insert(&mut chests, coord);
                    },
                    None => {},
                }
                if cells_contains(openings, coord) {
                    if start.is_none() {
                        proof {
                            lemma_scan_hit(b.open_cells(), here);
                        }
                        start = Some(coord);
                    }
                } else {
                    match tile {
                        Some(tile) => {
                            proof {
                                lemma_scan_hit(b.covered_cells(), here);
                            }
                            return Err(
                                Failure {
                                    reason: FailureReason::WallOverlapsFilledTile(tile),
                                    pos: coord,
                                },
                            );
                        },
                        None => {},
                    }
                    proof {
                        if start.is_none() {
                            lemma_scan_step(b.open_cells(), here);
                        }
                    }
                }
                proof {
                    lemma_scan_step(b.covered_cells(), here);
                }
                x += 1;
            }
            proof {
                lemma_scan_next_row(b, b.covered_cells(), y as int);
                if start.is_none() {
                    lemma_scan_next_row(b, b.open_cells(), y as int);
                }
            }
            y += 1;
        }
        proof {
            lemma_scan_done(b, b.covered_cells());
            if start.is_none() {
                lemma_scan_done(b, b.open_cells());
            }
            assert(cells_of(monsters) =~= b.monster_spots());
            assert(cells_of(chests) =~= b.chest_spots());
        }
        Ok((monsters, chests, start))
    }

    /// The open cells that can be walked to from `start`, found by a flood
    /// over cells that share an edge.
    #[verifier::loop_isolation(false)]
    fn flood(&self, openings: &AHashSet<Coord>, start: Coord) -> (reached: AHashSet<Coord>)
        requires
            self.layout(openings).open(cell(start)),
        ensures
            forall|c: Coord|
                cells_of(reached).contains(c) <==> self.layout(openings).connected(
                    cell(start),
                    cell(c),
                ),
    {
        proof {
            use_type_invariant(self);
        }
        let ghost b = self.layout(openings);
        let ghost origin = cell(start);
        let width = self.width();
        let height = self.height();
        let mut reached = cells_new();
        let mut todo: Vec<Coord> = Vec::new();
        todo.push(start);
        proof {
            lemma_connected_self(b, origin);
            lemma_open_spots_finite(b);
            assert(todo@[0] == start);
        }
        while todo.len() > 0
            invariant
                forall|c: Coord| cells_of(reached).contains(c) ==> b.connected(origin, cell(c)),
                forall|i: int|
                    0 <= i < todo.len() ==> b.connected(origin, cell(#[trigger] todo[i])),
                forall|c: Coord, d: Cell|
                    cells_of(reached).contains(c) && #[trigger] adjacent(cell(c), d) && b.open(d)
                        ==> cells_of(reached).contains(spot(d)) || todo@.contains(spot(d)),
                cells_of(reached).contains(start) || todo@.contains(start),
            decreases b.open_spots().difference(cells_of(reached)).len(), todo.len(),
        {
            let ghost queued = todo@;
            let ghost visited = cells_of(reached);
            let here = todo.pop().unwrap();
            let ghost rest = todo@;
            proof {
                assert(here == queued[queued.len() - 1]);
                lemma_connected_open(b, origin, cell(here));
                assert forall|c: Coord| queued.contains(c) implies c == here || rest.contains(
                    c,
                ) by {
                    let j = choose|j: int| 0 <= j < queued.len() && queued[j] == c;
                    if j < rest.len() {
                        assert(rest[j] == c);
                    }
                }
            }
            if cells_insert(&mut reached, here) {
                let around = here.neighbors4();
                let mut i: usize = 0;
                while i < around.len()
                    invariant
                        i <= around.len(),
                        rest.len() <= todo.len(),
                        forall|j: int| 0 <= j < rest.len() ==> todo[j] == rest[j],
                        forall|j: int|
                            0 <= j < todo.len() ==> b.connected(origin, cell(#[trigger] todo[j])),
                        forall|k: int|
                            0 <= k < i && b.open(cell(#[trigger] around[k])) ==> todo@.contains(
                                around[k],
                            ),
                    decreases around.len() - i,
                {
                    let next = around[i];
                    let ghost grown = todo@;
                    if next.x < width && next.y < height && cells_contains(openings, next) {
                        proof {
                            lemma_neighbors_adjacent(here, i as int);
                            lemma_connected_step(b, origin, cell(here), cell(next));
                        }
                        todo.push(next);
                        proof {
                            assert(todo@[grown.len() as int] == next);
                        }
                    }
                    proof {
                        assert forall|k: int|
                            0 <= k < i + 1 && b.open(
                                cell(#[trigger] around[k]),
                            ) implies todo@.contains(around[k]) by {
                            if k < i {
                                let j = choose|j: int|
                                    0 <= j < grown.len() && grown[j] == around[k];
                                assert(todo@[j] == around[k]);
                            }
                        }
                    }
                    i += 1;
                }
                proof {
                    b.open_spots().lemma_set_insert_diff_decreases(visited, here);
                    assert forall|c: Coord| rest.contains(c) implies todo@.contains(c) by {
                        let j = choose|j: int| 0 <= j < rest.len() && rest[j] == c;
                        assert(todo@[j] == c);
                    }
                    assert forall|c: Coord, d: Cell|
                        cells_of(reached).contains(c) && #[trigger] adjacent(cell(c), d) && b.open(
                            d,
                        ) implies cells_of(reached).contains(spot(d)) || todo@.contains(
                        spot(d),
                    ) by {
                        if c == here {
                            lemma_neighbors_cover(here, d);
                            let k = choose|k: int|
                                0 <= k < orthogonal_neighbors(here).len() && orthogonal_neighbors(
                                    here,
                                )[k] == spot(d);
                            assert(b.open(cell(around[k])));
                        } else {
                            assert(visited.contains(c));
                        }
                    }
                }
            } else {
                proof {
                    assert(cells_of(reached) =~= visited);
                }
            }
        }
        proof {
            assert(cells_of(reached).contains(start));
            assert(closed_under_steps(b, cells_of(reached))) by {
                assert forall|c: Coord, d: Cell|
                    cells_of(reached).contains(c) && #[trigger] adjacent(cell(c), d) && b.open(
                        d,
                    ) implies #[trigger] cells_of(reached).contains(spot(d)) by {
                    if todo@.contains(spot(d)) {
                        let j = choose|j: int| 0 <= j < todo@.len() && todo@[j] == spot(d);
                    }
                }
            }
            assert forall|c: Coord| b.connected(origin, cell(c)) implies cells_of(
                reached,
            ).contains(c) by {
                lemma_closed_holds_connected(b, cells_of(reached), origin, cell(c));
            }
        }
        reached
    }

    /// Whether the three neighbours of `coord` that start at the orthogonal
    /// direction `toward` and go on clockwise are all open: the neighbour
    /// that way, the diagonal one next to it, and the orthogonal one after.
    fn elbow_open(&self, openings: &AHashSet<Coord>, coord: Coord, toward: Direction8) -> (open:
        bool)
        requires
            self.layout(openings).in_bounds(cell(coord)),
            ordinal(toward) % 2 == 0,
        ensures
            open == self.layout(openings).elbow(cell(coord), toward),
    {
        proof {
            use_type_invariant(self);
        }
        let here = coord.to_icoord();
        let first = self.is_open(openings, shifted(here, toward.deltas()));
        let second = self.is_open(openings, shifted(here, toward.rotate_by(1).deltas()));
        let third = self.is_open(openings, shifted(here, toward.rotate_by(2).deltas()));
        first && second && third
    }

    /// Whether a cell of the board is part of an open two-by-two square.
    fn is_oversized(&self, openings: &AHashSet<Coord>, coord: Coord) -> (big: bool)
        requires
            self.layout(openings).open(cell(coord)),
        ensures
            big == self.layout(openings).oversized(cell(coord)),
    {
        self.elbow_open(openings, coord, Direction8::North) || self.elbow_open(
            openings,
            coord,
            Direction8::East,
        ) || self.elbow_open(openings, coord, Direction8::South) || self.elbow_open(
            openings,
            coord,
            Direction8::West,
        )
    }

    /// How many of the four neighbours of a cell of the board are not open.
    fn blocked_sides(&self, openings: &AHashSet<Coord>, coord: Coord) -> (blocked: u8)
        requires
            self.layout(openings).in_bounds(cell(coord)),
        ensures
            blocked == self.layout(openings).blocked_sides(cell(coord)),
    {
        proof {
            use_type_invariant(self);
        }
        let around = coord.to_icoord().neighbors4();
        let mut blocked: u8 = 0;
        if !self.is_open(openings, around[0]) {
            blocked += 1;
        }
        if !self.is_open(openings, around[1]) {
            blocked += 1;
        }
        if !self.is_open(openings, around[2]) {
            blocked += 1;
        }
        if !self.is_open(openings, around[3]) {
            blocked += 1;
        }
        blocked
    }

    /// Whether the layout leaves a position open; a position off the board
    /// never is.
    fn is_open(&self, openings: &AHashSet<Coord>, at: CoordVec) -> (open: bool)
        ensures
            open == self.layout(openings).open((at.x as int, at.y as int)),
    {
        match at.to_coord() {
            None => false,
            Some(coord) => {
                coord.x < self.width() && coord.y < self.height() && cells_contains(
                    openings,
                    coord,
                )
            },
        }
    }
}

} // verus!
