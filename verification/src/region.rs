//! Connected regions: what a flood over open cells reaches.

use vstd::prelude::*;
use aglet::Coord;
use crate::compass::{orthogonal_neighbors, COORD_LIMIT};
use crate::rules::{adjacent, cell, spot, Board, Cell};

verus! {

/// The coordinates in one row of a board of width `width`.
pub open spec fn row_spots(width: nat, y: u32) -> Set<Coord> {
    Set::new(|c: Coord| c.x < width && c.y == y)
}

/// The coordinates on a board of the given size.
pub open spec fn board_spots(width: nat, height: nat) -> Set<Coord> {
    Set::new(|c: Coord| c.x < width && c.y < height)
}

/// `s` holds every open cell that shares an edge with one of its own.
pub open spec fn closed_under_steps(b: Board, s: Set<Coord>) -> bool {
    forall|c: Coord, d: Cell|
        s.contains(c) && #[trigger] adjacent(cell(c), d) && b.open(d) ==> #[trigger] s.contains(
            spot(d),
        )
}

proof fn lemma_row_finite(width: nat, y: u32)
    ensures
        row_spots(width, y).finite(),
    decreases width,
{
    if width == 0 {
        assert(row_spots(width, y) =~= Set::<Coord>::empty());
    } else {
        let shorter = (width - 1) as nat;
        lemma_row_finite(shorter, y);
        if shorter <= u32::MAX {
            let last = Coord { x: shorter as u32, y };
            assert(row_spots(width, y) =~= row_spots(shorter, y).insert(last));
        } else {
            assert(row_spots(width, y) =~= row_spots(shorter, y));
        }
    }
}

/// A board has finitely many coordinates.
pub proof fn lemma_board_spots_finite(width: nat, height: nat)
    ensures
        board_spots(width, height).finite(),
    decreases height,
{
    if height == 0 {
        assert(board_spots(width, height) =~= Set::<Coord>::empty());
    } else {
        let lower = (height - 1) as nat;
        lemma_board_spots_finite(width, lower);
        if lower <= u32::MAX {
            lemma_row_finite(width, lower as u32);
            assert(board_spots(width, height) =~= board_spots(width, lower).union(
                row_spots(width, lower as u32),
            ));
        } else {
            assert(board_spots(width, height) =~= board_spots(width, lower));
        }
    }
}

/// A board has finitely many open cells.
pub proof fn lemma_open_spots_finite(b: Board)
    requires
        b.wf(),
    ensures
        b.open_spots().finite(),
{
    lemma_board_spots_finite(b.width as nat, b.height as nat);
    assert(b.open_spots().subset_of(board_spots(b.width as nat, b.height as nat)));
    vstd::set_lib::lemma_set_subset_finite(
        board_spots(b.width as nat, b.height as nat),
        b.open_spots(),
    );
}

/// An open cell is connected to itself.
pub proof fn lemma_connected_self(b: Board, a: Cell)
    requires
        b.open(a),
    ensures
        b.connected(a, a),
{
    let p = seq![a];
    assert(b.is_walk(p));
    assert(p[0] == a && p.last() == a);
}

/// What is connected to a cell is open.
pub proof fn lemma_connected_open(b: Board, a: Cell, c: Cell)
    requires
        b.connected(a, c),
    ensures
        b.open(a),
        b.open(c),
{
    let p = choose|p: Seq<Cell>| #[trigger] b.is_walk(p) && p[0] == a && p.last() == c;
    assert(b.open(p[0]));
    assert(b.open(p[p.len() - 1]));
}

/// A walk can be carried on by one step to an open cell.
pub proof fn lemma_connected_step(b: Board, a: Cell, c: Cell, d: Cell)
    requires
        b.connected(a, c),
        b.open(d),
        adjacent(c, d),
    ensures
        b.connected(a, d),
{
    let p = choose|p: Seq<Cell>| #[trigger] b.is_walk(p) && p[0] == a && p.last() == c;
    let q = p.push(d);
    assert forall|i: int| 0 <= i < q.len() implies b.open(#[trigger] q[i]) by {
        if i < p.len() {
            assert(q[i] == p[i]);
        }
    }
    assert forall|i: int| 0 < i < q.len() implies adjacent(q[i - 1], #[trigger] q[i]) by {
        if i < p.len() {
            assert(q[i] == p[i]);
            assert(q[i - 1] == p[i - 1]);
        } else {
            assert(q[i - 1] == p.last());
        }
    }
    assert(b.is_walk(q));
    assert(q[0] == a && q.last() == d);
}

proof fn lemma_closed_holds_walk(b: Board, s: Set<Coord>, p: Seq<Cell>, i: int)
    requires
        b.wf(),
        b.is_walk(p),
        s.contains(spot(p[0])),
        closed_under_steps(b, s),
        0 <= i < p.len(),
    ensures
        s.contains(spot(p[i])),
    decreases i,
{
    if i > 0 {
        lemma_closed_holds_walk(b, s, p, i - 1);
        let c = spot(p[i - 1]);
        assert(b.open(p[i - 1]));
        assert(cell(c) == p[i - 1]);
        assert(adjacent(cell(c), p[i]));
        assert(b.open(p[i]));
    }
}

/// A set that holds a cell and is closed under steps holds all that is
/// connected to the cell.
pub proof fn lemma_closed_holds_connected(b: Board, s: Set<Coord>, a: Cell, c: Cell)
    requires
        b.wf(),
        s.contains(spot(a)),
        closed_under_steps(b, s),
        b.connected(a, c),
    ensures
        s.contains(spot(c)),
{
    let p = choose|p: Seq<Cell>| #[trigger] b.is_walk(p) && p[0] == a && p.last() == c;
    lemma_closed_holds_walk(b, s, p, p.len() - 1);
}

/// Each orthogonal neighbour of a coordinate shares an edge with it.
pub proof fn lemma_neighbors_adjacent(here: Coord, k: int)
    requires
        here.x <= COORD_LIMIT,
        here.y <= COORD_LIMIT,
        0 <= k < orthogonal_neighbors(here).len(),
    ensures
        adjacent(cell(here), cell(orthogonal_neighbors(here)[k])),
{
}

/// Every cell without a negative part that shares an edge with a coordinate
/// is among its orthogonal neighbours.
pub proof fn lemma_neighbors_cover(here: Coord, d: Cell)
    requires
        here.x <= COORD_LIMIT,
        here.y <= COORD_LIMIT,
        adjacent(cell(here), d),
        d.0 >= 0,
        d.1 >= 0,
    ensures
        orthogonal_neighbors(here).contains(spot(d)),
{
    let ns = orthogonal_neighbors(here);
    let skip: int = if here.y > 0 {
        1
    } else {
        0
    };
    if d.1 == here.y - 1 {
        assert(ns[0] == spot(d));
    } else if d.0 == here.x + 1 {
        assert(ns[skip] == spot(d));
    } else if d.1 == here.y + 1 {
        assert(ns[skip + 1] == spot(d));
    } else {
        assert(ns[skip + 2] == spot(d));
    }
}

} // verus!
