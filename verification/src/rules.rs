//! The rules of a dungeon diagram, stated over a mathematical board.
//!
//! Everything here is specification: a [`Board`] is the picture of a puzzle
//! with a candidate layout laid over it, and [`Board::verdict`] is what the
//! checker must answer for it.

use vstd::prelude::*;
use aglet::{Coord, Direction8};
use crate::checker::{Failure, FailureReason};
use crate::compass::{direction_at, ordinal, step};
use crate::{Tile, MAX_SIDE};

verus! {

/// A cell of the plane as `(x, y)`, with `x` growing to the east and `y` to
/// the south. A cell may lie off the board, and may then be negative.
pub type Cell = (int, int);

/// The cell that a coordinate names.
pub open spec fn cell(c: Coord) -> Cell {
    (c.x as int, c.y as int)
}

/// The coordinate of a cell whose two parts fit in a `u32`.
pub open spec fn spot(c: Cell) -> Coord {
    Coord { x: c.0 as u32, y: c.1 as u32 }
}

/// `a` comes no later than `b` when the board is read row by row, each row
/// from west to east.
pub open spec fn no_later(a: Cell, b: Cell) -> bool {
    a.1 < b.1 || (a.1 == b.1 && a.0 <= b.0)
}

/// `a` comes before `b` in reading order.
pub open spec fn before(a: Cell, b: Cell) -> bool {
    a.1 < b.1 || (a.1 == b.1 && a.0 < b.0)
}

/// `c` is the cell of `s` that is read first.
pub open spec fn is_first(s: Set<Cell>, c: Cell) -> bool {
    &&& s.contains(c)
    &&& forall|d: Cell| #[trigger] s.contains(d) ==> no_later(c, d)
}

/// The cell of `s` that is read first, where `s` has one.
pub open spec fn first(s: Set<Cell>) -> Cell {
    choose|c: Cell| is_first(s, c)
}

/// `s` holds at least one cell.
pub open spec fn inhabited(s: Set<Cell>) -> bool {
    exists|c: Cell| s.contains(c)
}

/// Two cells share an edge.
pub open spec fn adjacent(a: Cell, b: Cell) -> bool {
    ||| (a.0 == b.0 && (a.1 == b.1 + 1 || a.1 + 1 == b.1))
    ||| (a.1 == b.1 && (a.0 == b.0 + 1 || a.0 + 1 == b.0))
}

/// `c` lies in the three-by-three window whose north-west corner is `corner`.
pub open spec fn in_window(corner: Cell, c: Cell) -> bool {
    corner.0 <= c.0 < corner.0 + 3 && corner.1 <= c.1 < corner.1 + 3
}

/// The nine coordinates of the window at `corner`, row by row.
pub open spec fn room_spots(corner: Cell) -> Seq<Coord> {
    Seq::new(9, |i: int| spot((corner.0 + i % 3, corner.1 + i / 3)))
}

/// The failure with the given reason at the given cell.
pub open spec fn failure_at(reason: FailureReason, c: Cell) -> Result<(), Failure> {
    Err(Failure { reason, pos: spot(c) })
}

/// A puzzle's board with a candidate layout laid over it.
pub struct Board {
    /// The number of columns.
    pub width: int,
    /// The number of rows.
    pub height: int,
    /// The fixed tiles, by cell.
    pub tiles: Map<Cell, Tile>,
    /// The coordinates that the layout leaves open. Those off the board
    /// play no part.
    pub floor: Set<Coord>,
}

impl Board {
    /// The sizes are ones that a puzzle can have.
    pub open spec fn wf(self) -> bool {
        &&& 0 <= self.width <= MAX_SIDE
        &&& 0 <= self.height <= MAX_SIDE
    }

    pub open spec fn in_bounds(self, c: Cell) -> bool {
        0 <= c.0 < self.width && 0 <= c.1 < self.height
    }

    /// The cell is on the board and is not a wall. Every cell off the board
    /// counts as a wall.
    pub open spec fn open(self, c: Cell) -> bool {
        self.in_bounds(c) && self.floor.contains(spot(c))
    }

    /// The fixed tile on a cell of the board, if it has one.
    pub open spec fn tile(self, c: Cell) -> Option<Tile> {
        if self.in_bounds(c) && self.tiles.dom().contains(c) {
            Some(self.tiles[c])
        } else {
            None
        }
    }

    pub open spec fn monster(self, c: Cell) -> bool {
        self.tile(c) == Some(Tile::Monster)
    }

    pub open spec fn chest(self, c: Cell) -> bool {
        self.tile(c) == Some(Tile::TreasureChest)
    }

    /// A wall lies on a fixed tile.
    pub open spec fn covered(self, c: Cell) -> bool {
        self.tile(c) is Some && !self.open(c)
    }

    // ----- one connected region -----

    /// `p` is a walk over open cells, each step to a cell that shares an edge
    /// with the one before.
    pub open spec fn is_walk(self, p: Seq<Cell>) -> bool {
        &&& p.len() > 0
        &&& forall|i: int| 0 <= i < p.len() ==> self.open(#[trigger] p[i])
        &&& forall|i: int| 0 < i < p.len() ==> adjacent(p[i - 1], #[trigger] p[i])
    }

    /// Some walk over open cells leads from `a` to `b`.
    pub open spec fn connected(self, a: Cell, b: Cell) -> bool {
        exists|p: Seq<Cell>| #[trigger] self.is_walk(p) && p[0] == a && p.last() == b
    }

    /// The open cell from which the region is measured: the first in
    /// reading order.
    pub open spec fn origin(self) -> Cell {
        first(self.open_cells())
    }

    // ----- no wide areas -----

    /// `c` and its three neighbours towards `(dx, dy)` form an open
    /// two-by-two square.
    pub open spec fn square(self, c: Cell, dx: int, dy: int) -> bool {
        &&& self.open(c)
        &&& self.open((c.0 + dx, c.1))
        &&& self.open((c.0 + dx, c.1 + dy))
        &&& self.open((c.0, c.1 + dy))
    }

    /// The three neighbours of `c` that start at the direction `toward` and
    /// go on clockwise are all open. From an orthogonal direction these are
    /// the other three cells of a two-by-two square.
    pub open spec fn elbow(self, c: Cell, toward: Direction8) -> bool {
        let first = step(toward);
        let second = step(direction_at((ordinal(toward) + 1) % 8));
        let third = step(direction_at((ordinal(toward) + 2) % 8));
        &&& self.open((c.0 + first.0, c.1 + first.1))
        &&& self.open((c.0 + second.0, c.1 + second.1))
        &&& self.open((c.0 + third.0, c.1 + third.1))
    }

    /// `c` is part of an open two-by-two square: of the one to its
    /// north-east, south-east, south-west or north-west.
    pub open spec fn oversized(self, c: Cell) -> bool {
        ||| self.square(c, 1, -1)
        ||| self.square(c, 1, 1)
        ||| self.square(c, -1, 1)
        ||| self.square(c, -1, -1)
    }

    // ----- dead ends -----

    /// One for a cell that is not open, nought for an open one.
    pub open spec fn blocks(self, c: Cell) -> int {
        if self.open(c) {
            0
        } else {
            1
        }
    }

    /// How many of the four cells that share an edge with `c` are not open.
    pub open spec fn blocked_sides(self, c: Cell) -> int {
        self.blocks((c.0, c.1 - 1)) + self.blocks((c.0 + 1, c.1)) + self.blocks((c.0, c.1 + 1))
            + self.blocks((c.0 - 1, c.1))
    }

    /// An open cell with at most one open neighbour.
    pub open spec fn dead_end(self, c: Cell) -> bool {
        self.open(c) && self.blocked_sides(c) >= 3
    }

    /// What is wrong with the open cell `c`, if anything: it is cut off from
    /// the origin, or it holds a monster without being a dead end, or it is a
    /// dead end without a monster. A cell that is cut off is reported as
    /// such whatever else holds of it.
    pub open spec fn fault(self, c: Cell) -> Option<FailureReason> {
        if !self.open(c) {
            None
        } else if !self.connected(self.origin(), c) {
            Some(FailureReason::DiscontiguousAreas)
        } else if self.monster(c) && !self.dead_end(c) {
            Some(FailureReason::MonsterWithoutDeadEnd)
        } else if self.dead_end(c) && !self.monster(c) {
            Some(FailureReason::DeadEndWithoutMonster)
        } else {
            None
        }
    }

    // ----- treasure rooms -----

    /// Every cell of the window at `corner` is open.
    pub open spec fn all_open(self, corner: Cell) -> bool {
        forall|c: Cell| in_window(corner, c) ==> #[trigger] self.open(c)
    }

    /// One for an open cell, nought for any other.
    pub open spec fn door(self, c: Cell) -> int {
        if self.open(c) {
            1
        } else {
            0
        }
    }

    /// How many of four cells on the border of the window at `k` are open:
    /// the `i`-th of its northern, southern, western and eastern side.
    pub open spec fn doors_at(self, k: Cell, i: int) -> int {
        self.door((k.0 + i, k.1 - 1)) + self.door((k.0 + i, k.1 + 3)) + self.door(
            (k.0 - 1, k.1 + i),
        ) + self.door((k.0 + 3, k.1 + i))
    }

    /// How many of the twelve cells that share an edge with the window at
    /// `k` are open. The four cells diagonal to its corners are not counted.
    pub open spec fn entrances(self, k: Cell) -> int {
        self.doors_at(k, 0) + self.doors_at(k, 1) + self.doors_at(k, 2)
    }

    /// The window at `corner` is a treasure room: open throughout, with
    /// exactly one entrance.
    pub open spec fn is_room(self, corner: Cell) -> bool {
        self.all_open(corner) && self.entrances(corner) == 1
    }

    /// The window at `corner` is a treasure room that holds `chest`.
    pub open spec fn room_of(self, chest: Cell, corner: Cell) -> bool {
        in_window(corner, chest) && self.is_room(corner)
    }

    /// Some treasure room holds `chest`.
    pub open spec fn has_room(self, chest: Cell) -> bool {
        exists|corner: Cell| #[trigger] self.room_of(chest, corner)
    }

    /// The corner of the treasure room that holds `chest`, where it has one.
    pub open spec fn the_room(self, chest: Cell) -> Cell {
        choose|corner: Cell| #[trigger] self.room_of(chest, corner)
    }

    /// What the search for the room of `chest` gives: the nine coordinates
    /// of the room, or the failure at the chest.
    pub open spec fn claim(self, chest: Cell) -> Result<Seq<Coord>, Failure> {
        if self.has_room(chest) {
            Ok(room_spots(self.the_room(chest)))
        } else {
            Err(Failure { reason: FailureReason::NoTreasureRoom, pos: spot(chest) })
        }
    }

    /// `c` lies in a treasure room that holds a chest.
    pub open spec fn claimed(self, c: Cell) -> bool {
        exists|chest: Cell, corner: Cell|
            self.chest(chest) && #[trigger] self.room_of(chest, corner) && in_window(corner, c)
    }

    // ----- the sets that the verdict reads -----

    pub open spec fn open_cells(self) -> Set<Cell> {
        Set::new(|c: Cell| self.open(c))
    }

    /// The cells where a wall lies on a fixed tile.
    pub open spec fn covered_cells(self) -> Set<Cell> {
        Set::new(|c: Cell| self.covered(c))
    }

    /// The open cells that no walk from the origin reaches.
    pub open spec fn cut_off_cells(self) -> Set<Cell> {
        Set::new(|c: Cell| self.open(c) && !self.connected(self.origin(), c))
    }

    /// The open cells with a fault.
    pub open spec fn faulty_cells(self) -> Set<Cell> {
        Set::new(|c: Cell| self.fault(c) is Some)
    }

    /// The chests that no treasure room holds.
    pub open spec fn roomless_chests(self) -> Set<Cell> {
        Set::new(|c: Cell| self.chest(c) && !self.has_room(c))
    }

    /// The cells of open two-by-two squares that no treasure room claims.
    pub open spec fn unclaimed_cells(self) -> Set<Cell> {
        Set::new(|c: Cell| self.oversized(c) && !self.claimed(c))
    }

    // ----- the same, as coordinates -----

    /// The coordinates of the open cells.
    pub open spec fn open_spots(self) -> Set<Coord> {
        Set::new(|c: Coord| self.open(cell(c)))
    }

    /// The coordinates of the monsters.
    pub open spec fn monster_spots(self) -> Set<Coord> {
        Set::new(|c: Coord| self.monster(cell(c)))
    }

    /// The coordinates of the chests.
    pub open spec fn chest_spots(self) -> Set<Coord> {
        Set::new(|c: Coord| self.chest(cell(c)))
    }

    /// The coordinates of the cells of open two-by-two squares.
    pub open spec fn oversized_spots(self) -> Set<Coord> {
        Set::new(|c: Coord| self.oversized(cell(c)))
    }

    // ----- the verdict -----

    /// The verdict on the shape of the open area alone: no wall on a fixed
    /// tile, then, cell by cell in reading order, one connected region and a
    /// monster exactly in each dead end. A layout with no open cell passes.
    pub open spec fn shape_verdict(self) -> Result<(), Failure> {
        if inhabited(self.covered_cells()) {
            let c = first(self.covered_cells());
            failure_at(FailureReason::WallOverlapsFilledTile(self.tiles[c]), c)
        } else if inhabited(self.faulty_cells()) {
            let c = first(self.faulty_cells());
            failure_at(self.fault(c).unwrap(), c)
        } else {
            Ok(())
        }
    }

    /// The verdict on the layout: the first violation in the fixed order of
    /// the checks, each check reporting its first cell in reading order, or
    /// `Ok` where there is none.
    pub open spec fn verdict(self) -> Result<(), Failure> {
        if self.shape_verdict() is Err {
            self.shape_verdict()
        } else if inhabited(self.roomless_chests()) {
            failure_at(FailureReason::NoTreasureRoom, first(self.roomless_chests()))
        } else if inhabited(self.unclaimed_cells()) {
            failure_at(
                FailureReason::LargeAreaOutsideOfTreasureRoom,
                first(self.unclaimed_cells()),
            )
        } else {
            Ok(())
        }
    }
}

} // verus!
