//! What follows from the rules: the properties of the verdict that a player
//! or a solver may rely on, each proved from the definitions of
//! [`Board`](crate::rules::Board).

use vstd::prelude::*;
use aglet::Coord;
use crate::checker::{describes, walled, Failure, FailureReason};
use crate::reading::{lemma_first_exists, lemma_first_unique};
use crate::rules::{
    adjacent, before, failure_at, first, in_window, inhabited, no_later, spot, Board, Cell,
};
use crate::{PuzzleView, Solution};

verus! {

/// A layout is legal if it breaks none of the rules: no wall lies on a fixed
/// tile, every open cell can be walked to from every other, the monsters
/// sit exactly in the dead ends, every chest has a treasure room, and every
/// cell of an open two-by-two square lies in the room of a chest.
pub open spec fn legal(b: Board) -> bool {
    &&& forall|c: Cell| !b.covered(c)
    &&& forall|a: Cell, c: Cell| b.open(a) && b.open(c) ==> b.connected(a, c)
    &&& forall|c: Cell| b.open(c) ==> (b.monster(c) <==> b.dead_end(c))
    &&& forall|c: Cell| b.chest(c) ==> b.has_room(c)
    &&& forall|c: Cell| b.oversized(c) ==> b.claimed(c)
}

/// A walk read backwards is a walk.
proof fn lemma_walk_back(b: Board, p: Seq<Cell>)
    requires
        b.is_walk(p),
    ensures
        b.is_walk(p.reverse()),
        p.reverse()[0] == p.last(),
        p.reverse().last() == p[0],
{
    let q = p.reverse();
    assert forall|i: int| 0 <= i < q.len() implies b.open(#[trigger] q[i]) by {
        assert(q[i] == p[p.len() - 1 - i]);
    }
    assert forall|i: int| 0 < i < q.len() implies adjacent(q[i - 1], #[trigger] q[i]) by {
        assert(q[i] == p[p.len() - 1 - i]);
        assert(q[i - 1] == p[p.len() - i]);
        assert(adjacent(p[p.len() - i - 1], p[p.len() - i]));
    }
}

/// Two walks that meet make one walk.
proof fn lemma_walk_on(b: Board, p: Seq<Cell>, q: Seq<Cell>)
    requires
        b.is_walk(p),
        b.is_walk(q),
        p.last() == q[0],
    ensures
        b.is_walk(p + q.subrange(1, q.len() as int)),
        (p + q.subrange(1, q.len() as int))[0] == p[0],
        (p + q.subrange(1, q.len() as int)).last() == q.last(),
{
    let tail = q.subrange(1, q.len() as int);
    let r = p + tail;
    assert forall|i: int| 0 <= i < r.len() implies b.open(#[trigger] r[i]) by {
        if i < p.len() {
            assert(r[i] == p[i]);
        } else {
            assert(r[i] == q[i - p.len() + 1]);
        }
    }
    assert forall|i: int| 0 < i < r.len() implies adjacent(r[i - 1], #[trigger] r[i]) by {
        if i < p.len() {
            assert(r[i] == p[i]);
            assert(r[i - 1] == p[i - 1]);
        } else {
            assert(r[i] == q[i - p.len() + 1]);
            if i == p.len() {
                assert(r[i - 1] == p[p.len() - 1]);
                assert(adjacent(q[0], q[1]));
            } else {
                assert(r[i - 1] == q[i - p.len()]);
            }
        }
    }
    if tail.len() == 0 {
        assert(r.last() == p.last());
    } else {
        assert(r.last() == q[q.len() - 1]);
    }
}

/// Being connected goes both ways.
pub proof fn lemma_connected_back(b: Board, a: Cell, c: Cell)
    requires
        b.connected(a, c),
    ensures
        b.connected(c, a),
{
    let p = choose|p: Seq<Cell>| #[trigger] b.is_walk(p) && p[0] == a && p.last() == c;
    lemma_walk_back(b, p);
}

/// Being connected carries on.
pub proof fn lemma_connected_on(b: Board, a: Cell, c: Cell, d: Cell)
    requires
        b.connected(a, c),
        b.connected(c, d),
    ensures
        b.connected(a, d),
{
    let p = choose|p: Seq<Cell>| #[trigger] b.is_walk(p) && p[0] == a && p.last() == c;
    let q = choose|q: Seq<Cell>| #[trigger] b.is_walk(q) && q[0] == c && q.last() == d;
    lemma_walk_on(b, p, q);
}

/// The verdict is `Ok` exactly on the legal layouts.
pub proof fn lemma_accepted_iff_legal(b: Board)
    ensures
        b.verdict() is Ok <==> legal(b),
{
    if legal(b) {
        assert forall|c: Cell| !b.covered_cells().contains(c) by {}
        assert forall|c: Cell| !b.faulty_cells().contains(c) by {
            if b.open(c) && inhabited(b.open_cells()) {
                let w = choose|w: Cell| b.open_cells().contains(w);
                lemma_first_exists(b, b.open_cells(), w);
                assert(b.open(b.origin()));
            }
            if b.open(c) {
                assert(b.open_cells().contains(c));
            }
        }
        assert forall|c: Cell| !b.roomless_chests().contains(c) by {}
        assert forall|c: Cell| !b.unclaimed_cells().contains(c) by {}
    }
    if b.verdict() is Ok {
        assert forall|c: Cell| !b.covered(c) by {
            assert(!b.covered_cells().contains(c));
        }
        assert forall|c: Cell| b.open(c) implies b.connected(b.origin(), c) && (b.monster(c)
            <==> b.dead_end(c)) by {
            assert(!b.faulty_cells().contains(c));
        }
        assert forall|a: Cell, c: Cell| b.open(a) && b.open(c) implies b.connected(a, c) by {
            lemma_connected_back(b, b.origin(), a);
            lemma_connected_on(b, a, b.origin(), c);
        }
        assert forall|c: Cell| b.chest(c) implies b.has_room(c) by {
            assert(!b.roomless_chests().contains(c));
        }
        assert forall|c: Cell| b.oversized(c) implies b.claimed(c) by {
            assert(!b.unclaimed_cells().contains(c));
        }
    }
}

/// The four cells of the two-by-two block whose north-west corner is `k`
/// are open.
pub open spec fn open_block(b: Board, k: Cell) -> bool {
    &&& b.open(k)
    &&& b.open((k.0 + 1, k.1))
    &&& b.open((k.0, k.1 + 1))
    &&& b.open((k.0 + 1, k.1 + 1))
}

/// `c` is one of the four cells of the block at `k`.
pub open spec fn in_block(k: Cell, c: Cell) -> bool {
    k.0 <= c.0 <= k.0 + 1 && k.1 <= c.1 <= k.1 + 1
}

/// A cell is oversized exactly if it lies in some two-by-two block of open
/// cells: the test of the three neighbours towards each diagonal misses
/// none.
pub proof fn lemma_oversized_iff_in_open_block(b: Board, c: Cell)
    ensures
        b.oversized(c) <==> exists|k: Cell| #[trigger] open_block(b, k) && in_block(k, c),
{
    if b.square(c, 1, -1) {
        assert(open_block(b, (c.0, c.1 - 1)));
    }
    if b.square(c, 1, 1) {
        assert(open_block(b, c));
    }
    if b.square(c, -1, 1) {
        assert(open_block(b, (c.0 - 1, c.1)));
    }
    if b.square(c, -1, -1) {
        assert(open_block(b, (c.0 - 1, c.1 - 1)));
    }
}

/// What a verdict tells: `Ok` that the layout is legal, a failure that the
/// rule it names is broken on the board at the cell it names. No verdict
/// gives `EntirelyFilledWithWalls`.
pub open spec fn explains(b: Board, verdict: Result<(), Failure>) -> bool {
    match verdict {
        Ok(()) => legal(b),
        Err(failure) => exists|c: Cell|
            {
                &&& #[trigger] b.in_bounds(c)
                &&& failure.pos == spot(c)
                &&& match failure.reason {
                    FailureReason::EntirelyFilledWithWalls => false,
                    FailureReason::WallOverlapsFilledTile(tile) => b.covered(c) && b.tile(c)
                        == Some(tile),
                    FailureReason::DiscontiguousAreas => b.open(c) && !b.connected(
                        b.origin(),
                        c,
                    ),
                    FailureReason::DeadEndWithoutMonster => b.dead_end(c) && !b.monster(c),
                    FailureReason::MonsterWithoutDeadEnd => b.open(c) && b.monster(c)
                        && !b.dead_end(c),
                    FailureReason::NoTreasureRoom => b.chest(c) && !b.has_room(c),
                    FailureReason::LargeAreaOutsideOfTreasureRoom => b.oversized(c)
                        && !b.claimed(c),
                }
            },
    }
}

/// Every verdict is true of the board: an accepted layout is legal, and a
/// failure names a rule that is broken at the cell it names.
pub proof fn lemma_verdict_is_true(b: Board)
    ensures
        explains(b, b.verdict()),
{
    lemma_accepted_iff_legal(b);
    if inhabited(b.covered_cells()) {
        let w = choose|w: Cell| b.covered_cells().contains(w);
        lemma_first_exists(b, b.covered_cells(), w);
        let c = first(b.covered_cells());
        assert(b.in_bounds(c));
    } else if inhabited(b.faulty_cells()) {
        let w = choose|w: Cell| b.faulty_cells().contains(w);
        lemma_first_exists(b, b.faulty_cells(), w);
        let c = first(b.faulty_cells());
        assert(b.in_bounds(c));
    } else if inhabited(b.roomless_chests()) {
        let w = choose|w: Cell| b.roomless_chests().contains(w);
        lemma_first_exists(b, b.roomless_chests(), w);
        let c = first(b.roomless_chests());
        assert(b.in_bounds(c));
    } else if inhabited(b.unclaimed_cells()) {
        let w = choose|w: Cell| b.unclaimed_cells().contains(w);
        lemma_first_exists(b, b.unclaimed_cells(), w);
        let c = first(b.unclaimed_cells());
        assert(b.in_bounds(c));
    }
}

/// On a board without fixed tiles the layout that is all walls is accepted.
pub proof fn lemma_all_walls_accepted(b: Board)
    requires
        forall|c: Cell| b.tile(c) is None,
        forall|c: Cell| !b.open(c),
    ensures
        b.verdict() == Ok::<(), Failure>(()),
{
    assert forall|a: Cell, k: Cell| !(b.chest(a) && #[trigger] b.room_of(a, k)) by {}
    lemma_accepted_iff_legal(b);
}

/// A board without cells accepts every layout.
pub proof fn lemma_no_cells_accepted(b: Board)
    requires
        b.width <= 0 || b.height <= 0,
    ensures
        b.verdict() == Ok::<(), Failure>(()),
{
    assert forall|c: Cell| !b.in_bounds(c) by {}
    lemma_accepted_iff_legal(b);
}

/// On a board that has cells and no fixed tiles, the layout that is all open
/// is rejected: a board one cell wide or high ends in dead ends without a
/// monster, and any other holds an open square that no room claims.
pub proof fn lemma_all_open_rejected(b: Board)
    requires
        b.width > 0,
        b.height > 0,
        forall|c: Cell| b.tile(c) is None,
        forall|c: Cell| b.in_bounds(c) ==> b.open(c),
    ensures
        b.verdict() is Err,
{
    lemma_accepted_iff_legal(b);
    let corner: Cell = (0, 0);
    assert(b.open(corner));
    if b.width >= 2 && b.height >= 2 {
        assert(b.open((1, 0)));
        assert(b.open((1, 1)));
        assert(b.open((0, 1)));
        assert(b.square(corner, 1, 1));
        assert(b.oversized(corner));
        assert forall|a: Cell, k: Cell| !(b.chest(a) && #[trigger] b.room_of(a, k)) by {}
        assert(!b.claimed(corner));
    } else {
        assert(!b.open((0, -1)));
        assert(!b.open((-1, 0)));
        assert(!b.open((1, 0)) || !b.open((0, 1)));
        assert(b.dead_end(corner));
        assert(!b.monster(corner));
    }
}

/// Where a wall lies on a fixed tile, the verdict is
/// `WallOverlapsFilledTile` with the kind of the tile, at the first cell in
/// reading order where a tile is covered.
pub proof fn lemma_covered_tile_reported(b: Board, c: Cell)
    requires
        b.covered(c),
    ensures
        b.covered(first(b.covered_cells())),
        no_later(first(b.covered_cells()), c),
        b.verdict() == failure_at(
            FailureReason::WallOverlapsFilledTile(b.tile(first(b.covered_cells())).unwrap()),
            first(b.covered_cells()),
        ),
{
    assert(b.covered_cells().contains(c));
    lemma_first_exists(b, b.covered_cells(), c);
}

/// Where a wall lies on one fixed tile only, the failure is at that tile.
pub proof fn lemma_one_covered_tile_reported(b: Board, c: Cell)
    requires
        b.covered(c),
        forall|d: Cell| b.covered(d) ==> d == c,
    ensures
        b.verdict() == failure_at(
            FailureReason::WallOverlapsFilledTile(b.tile(c).unwrap()),
            c,
        ),
{
    lemma_covered_tile_reported(b, c);
}

/// A layout whose open cells fall into two or more regions is rejected.
pub proof fn lemma_split_region_rejected(b: Board, a: Cell, c: Cell)
    requires
        b.open(a),
        b.open(c),
        !b.connected(a, c),
    ensures
        b.verdict() is Err,
{
    lemma_accepted_iff_legal(b);
}

/// Where no wall lies on a fixed tile and the open cells fall into two or
/// more regions, the verdict is `DiscontiguousAreas` at the first cell in
/// reading order that is cut off from the first open cell, unless an open
/// cell before it breaks the rule of monsters and dead ends.
pub proof fn lemma_split_region_reported(b: Board, a: Cell, c: Cell)
    requires
        forall|d: Cell| !b.covered(d),
        b.open(a),
        b.open(c),
        !b.connected(a, c),
        forall|d: Cell|
            b.open(d) && before(d, first(b.cut_off_cells())) ==> (b.monster(d) <==> b.dead_end(d)),
    ensures
        b.cut_off_cells().contains(first(b.cut_off_cells())),
        b.verdict() == failure_at(FailureReason::DiscontiguousAreas, first(b.cut_off_cells())),
{
    let origin = b.origin();
    assert(b.open_cells().contains(a));
    lemma_first_exists(b, b.open_cells(), a);
    assert(b.open(origin));
    if b.connected(origin, a) && b.connected(origin, c) {
        lemma_connected_back(b, origin, a);
        lemma_connected_on(b, a, origin, c);
    }
    let lost = if b.connected(origin, a) {
        c
    } else {
        a
    };
    assert(b.cut_off_cells().contains(lost));
    lemma_first_exists(b, b.cut_off_cells(), lost);
    let u = first(b.cut_off_cells());
    assert forall|d: Cell| before(d, u) implies b.fault(d) is None by {
        if b.open(d) && !b.connected(origin, d) {
            assert(b.cut_off_cells().contains(d));
        }
    }
    lemma_first_fault_reported(b, u);
}

/// A dead end without a monster is never accepted.
pub proof fn lemma_dead_end_needs_monster(b: Board, c: Cell)
    requires
        b.open(c),
        b.blocked_sides(c) >= 3,
        !b.monster(c),
    ensures
        b.verdict() is Err,
{
    lemma_accepted_iff_legal(b);
}

/// A monster outside a dead end is never accepted.
pub proof fn lemma_monster_needs_dead_end(b: Board, c: Cell)
    requires
        b.open(c),
        b.blocked_sides(c) <= 2,
        b.monster(c),
    ensures
        b.verdict() is Err,
{
    lemma_accepted_iff_legal(b);
}

/// Where no wall lies on a fixed tile, the verdict is the fault of the first
/// open cell in reading order that has one: `DiscontiguousAreas` if it is
/// cut off from the first open cell, else `MonsterWithoutDeadEnd` or
/// `DeadEndWithoutMonster`.
pub proof fn lemma_first_fault_reported(b: Board, c: Cell)
    requires
        forall|d: Cell| !b.covered(d),
        b.fault(c) is Some,
        forall|d: Cell| before(d, c) ==> b.fault(d) is None,
    ensures
        b.verdict() == failure_at(b.fault(c).unwrap(), c),
{
    assert(b.faulty_cells().contains(c));
    assert forall|d: Cell| #[trigger] b.faulty_cells().contains(d) implies no_later(c, d) by {
        assert(!before(d, c));
    }
    lemma_first_unique(b.faulty_cells(), c);
}

/// In an accepted layout the monsters sit exactly in the dead ends: an open
/// cell with three or four blocked sides holds a monster, and one with
/// fewer holds none.
pub proof fn lemma_accepted_dead_ends(b: Board, c: Cell)
    requires
        b.verdict() is Ok,
        b.open(c),
    ensures
        b.blocked_sides(c) >= 3 <==> b.monster(c),
{
    lemma_accepted_iff_legal(b);
}

/// In an accepted layout every cell of an open two-by-two square lies in
/// the treasure room of a chest.
pub proof fn lemma_accepted_wide_areas(b: Board, c: Cell)
    requires
        b.verdict() is Ok,
        b.oversized(c),
    ensures
        b.claimed(c),
{
    lemma_accepted_iff_legal(b);
}

/// In an accepted layout every chest has a treasure room, and the room
/// claims its nine cells.
pub proof fn lemma_accepted_chests(b: Board, chest: Cell, c: Cell)
    requires
        b.verdict() is Ok,
        b.chest(chest),
    ensures
        b.has_room(chest),
        in_window(b.the_room(chest), c) ==> b.claimed(c),
{
    lemma_accepted_iff_legal(b);
    assert(b.room_of(chest, b.the_room(chest)));
}

/// Where the shape of the open area is in order, the first chest in reading
/// order that has no treasure room is reported.
pub proof fn lemma_roomless_chest_reported(b: Board, c: Cell)
    requires
        b.shape_verdict() is Ok,
        b.chest(c),
        !b.has_room(c),
    ensures
        b.roomless_chests().contains(first(b.roomless_chests())),
        no_later(first(b.roomless_chests()), c),
        b.verdict() == failure_at(FailureReason::NoTreasureRoom, first(b.roomless_chests())),
{
    assert(b.roomless_chests().contains(c));
    lemma_first_exists(b, b.roomless_chests(), c);
}

/// Where the shape is in order and every chest has its room, the first cell
/// in reading order of an open two-by-two square that no room claims is
/// reported.
pub proof fn lemma_unclaimed_area_reported(b: Board, c: Cell)
    requires
        b.shape_verdict() is Ok,
        forall|d: Cell| b.chest(d) ==> b.has_room(d),
        b.oversized(c),
        !b.claimed(c),
    ensures
        b.unclaimed_cells().contains(first(b.unclaimed_cells())),
        no_later(first(b.unclaimed_cells()), c),
        b.verdict() == failure_at(
            FailureReason::LargeAreaOutsideOfTreasureRoom,
            first(b.unclaimed_cells()),
        ),
{
    assert(b.unclaimed_cells().contains(c));
    lemma_first_exists(b, b.unclaimed_cells(), c);
    assert forall|d: Cell| !b.roomless_chests().contains(d) by {}
}

/// The verdict reads nothing but the board: two boards of one size that
/// agree on the tile and on the openness of every cell get the same
/// verdict. Checking the same puzzle and layout again gives the same
/// result.
pub proof fn lemma_verdict_of_board_alone(a: Board, b: Board)
    requires
        a.width == b.width,
        a.height == b.height,
        forall|c: Cell| a.tile(c) == b.tile(c),
        forall|c: Cell| a.open(c) == b.open(c),
    ensures
        a.verdict() == b.verdict(),
{
    assert forall|x: Cell, y: Cell| a.connected(x, y) == b.connected(x, y) by {
        if a.connected(x, y) {
            let p = choose|p: Seq<Cell>| #[trigger] a.is_walk(p) && p[0] == x && p.last() == y;
            assert(b.is_walk(p));
        }
        if b.connected(x, y) {
            let p = choose|p: Seq<Cell>| #[trigger] b.is_walk(p) && p[0] == x && p.last() == y;
            assert(a.is_walk(p));
        }
    }
    assert forall|k: Cell| a.is_room(k) == b.is_room(k) by {
        if a.all_open(k) {
            assert forall|c: Cell| in_window(k, c) implies #[trigger] b.open(c) by {
                assert(a.open(c));
            }
        }
        if b.all_open(k) {
            assert forall|c: Cell| in_window(k, c) implies #[trigger] a.open(c) by {
                assert(b.open(c));
            }
        }
    }
    assert forall|c: Cell| a.has_room(c) == b.has_room(c) by {
        if a.has_room(c) {
            let k = choose|k: Cell| #[trigger] a.room_of(c, k);
            assert(b.room_of(c, k));
        }
        if b.has_room(c) {
            let k = choose|k: Cell| #[trigger] b.room_of(c, k);
            assert(a.room_of(c, k));
        }
    }
    assert forall|c: Cell| a.claimed(c) == b.claimed(c) by {
        if a.claimed(c) {
            let (chest, k) = choose|chest: Cell, k: Cell|
                a.chest(chest) && #[trigger] a.room_of(chest, k) && in_window(k, c);
            assert(b.chest(chest) && b.room_of(chest, k));
        }
        if b.claimed(c) {
            let (chest, k) = choose|chest: Cell, k: Cell|
                b.chest(chest) && #[trigger] b.room_of(chest, k) && in_window(k, c);
            assert(a.chest(chest) && a.room_of(chest, k));
        }
    }
    assert(a.open_cells() =~= b.open_cells());
    assert(a.covered_cells() =~= b.covered_cells());
    assert(a.faulty_cells() =~= b.faulty_cells());
    assert(a.roomless_chests() =~= b.roomless_chests());
    assert(a.unclaimed_cells() =~= b.unclaimed_cells());
    if inhabited(a.covered_cells()) {
        let w = choose|w: Cell| a.covered_cells().contains(w);
        lemma_first_exists(a, a.covered_cells(), w);
    }
}

/// The solution has one answer for each cell of the board: what `is_wall`
/// promises leaves no choice.
pub open spec fn single_valued<S: Solution>(solution: &S, puzzle: PuzzleView) -> bool {
    forall|c: Coord, one: bool, other: bool|
        c.x < puzzle.width && c.y < puzzle.height && #[trigger] call_ensures(
            S::is_wall,
            (solution, c),
            one,
        ) && #[trigger] call_ensures(S::is_wall, (solution, c), other) ==> one == other
}

/// Checking the same puzzle with the same solution again gives the same
/// verdict, where the solution has one answer for each cell of the board:
/// any two layouts that it may describe get one verdict.
pub proof fn lemma_one_solution_one_verdict<S: Solution>(
    solution: &S,
    puzzle: PuzzleView,
    floor: Set<Coord>,
    again: Set<Coord>,
)
    requires
        puzzle.wf(),
        single_valued(solution, puzzle),
        describes(solution, puzzle, floor),
        describes(solution, puzzle, again),
    ensures
        puzzle.board(floor).verdict() == puzzle.board(again).verdict(),
{
    assert forall|c: Cell| puzzle.board(floor).open(c) == puzzle.board(again).open(c) by {
        if puzzle.board(floor).in_bounds(c) {
            assert(walled(floor, spot(c)) == walled(again, spot(c)));
        }
    }
    lemma_verdict_of_board_alone(puzzle.board(floor), puzzle.board(again));
}

} // verus!
