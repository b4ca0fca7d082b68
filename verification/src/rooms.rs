//! Treasure rooms: a chest has at most one, and how the rooms of the chests
//! add up to what is claimed.

use vstd::prelude::*;
use aglet::Coord;
use crate::rules::{before, cell, in_window, room_spots, Board, Cell};

verus! {

/// `c` lies in the treasure room of a chest that is read before `limit`.
pub open spec fn claimed_before(b: Board, c: Cell, limit: Cell) -> bool {
    exists|chest: Cell, corner: Cell|
        before(chest, limit) && b.chest(chest) && #[trigger] b.room_of(chest, corner) && in_window(
            corner,
            c,
        )
}

/// A second window that holds the same chest and is open throughout puts
/// at least two open cells on the border of the first.
proof fn lemma_overlap_opens_border(b: Board, k: Cell, other: Cell)
    requires
        b.all_open(other),
        k != other,
        -2 <= other.0 - k.0 <= 2,
        -2 <= other.1 - k.1 <= 2,
    ensures
        b.entrances(k) >= 2,
{
    let dx = other.0 - k.0;
    let dy = other.1 - k.1;
    // Each border cell of `k` that lies in the other window is open.
    assert forall|c: Cell| in_window(other, c) implies b.door(c) == 1 by {
        assert(b.open(c));
    }
    if dx > 0 {
        if dy == 0 {
            assert(in_window(other, (k.0 + 3, k.1 + 0)));
            assert(in_window(other, (k.0 + 3, k.1 + 1)));
        } else if dy > 0 {
            assert(in_window(other, (k.0 + 3, k.1 + 2)));
            assert(in_window(other, (k.0 + 2, k.1 + 3)));
        } else {
            assert(in_window(other, (k.0 + 3, k.1 + 0)));
            assert(in_window(other, (k.0 + 2, k.1 - 1)));
        }
    } else if dx < 0 {
        if dy == 0 {
            assert(in_window(other, (k.0 - 1, k.1 + 0)));
            assert(in_window(other, (k.0 - 1, k.1 + 1)));
        } else if dy > 0 {
            assert(in_window(other, (k.0 - 1, k.1 + 2)));
            assert(in_window(other, (k.0 + 0, k.1 + 3)));
        } else {
            assert(in_window(other, (k.0 - 1, k.1 + 0)));
            assert(in_window(other, (k.0 + 0, k.1 - 1)));
        }
    } else {
        if dy > 0 {
            assert(in_window(other, (k.0 + 0, k.1 + 3)));
            assert(in_window(other, (k.0 + 1, k.1 + 3)));
        } else {
            assert(in_window(other, (k.0 + 0, k.1 - 1)));
            assert(in_window(other, (k.0 + 1, k.1 - 1)));
        }
    }
}

/// A chest lies in at most one treasure room.
pub proof fn lemma_room_unique(b: Board, chest: Cell, k: Cell, other: Cell)
    requires
        b.room_of(chest, k),
        b.room_of(chest, other),
    ensures
        k == other,
{
    if k != other {
        lemma_overlap_opens_border(b, k, other);
    }
}

/// The room that a search finds for a chest is the room of the chest.
pub proof fn lemma_found_room(b: Board, chest: Cell, k: Cell)
    requires
        b.room_of(chest, k),
    ensures
        b.has_room(chest),
        b.the_room(chest) == k,
{
    lemma_room_unique(b, chest, k, b.the_room(chest));
}

/// A cell that is no chest adds nothing to what is claimed.
pub proof fn lemma_claimed_skip(b: Board, c: Cell, here: Cell)
    requires
        !b.chest(here),
    ensures
        claimed_before(b, c, (here.0 + 1, here.1)) <==> claimed_before(b, c, here),
{
    if claimed_before(b, c, (here.0 + 1, here.1)) {
        let (chest, corner) = choose|chest: Cell, corner: Cell|
            before(chest, (here.0 + 1, here.1)) && b.chest(chest) && #[trigger] b.room_of(
                chest,
                corner,
            ) && in_window(corner, c);
        assert(before(chest, here));
    }
    if claimed_before(b, c, here) {
        let (chest, corner) = choose|chest: Cell, corner: Cell|
            before(chest, here) && b.chest(chest) && #[trigger] b.room_of(chest, corner)
                && in_window(corner, c);
        assert(before(chest, (here.0 + 1, here.1)));
    }
}

/// A chest adds its room to what is claimed.
pub proof fn lemma_claimed_take(b: Board, c: Cell, here: Cell, k: Cell)
    requires
        b.chest(here),
        b.room_of(here, k),
    ensures
        claimed_before(b, c, (here.0 + 1, here.1)) <==> claimed_before(b, c, here) || in_window(
            k,
            c,
        ),
{
    if claimed_before(b, c, (here.0 + 1, here.1)) {
        let (chest, corner) = choose|chest: Cell, corner: Cell|
            before(chest, (here.0 + 1, here.1)) && b.chest(chest) && #[trigger] b.room_of(
                chest,
                corner,
            ) && in_window(corner, c);
        if chest == here {
            lemma_room_unique(b, here, k, corner);
        } else {
            assert(before(chest, here));
        }
    }
    if claimed_before(b, c, here) {
        let (chest, corner) = choose|chest: Cell, corner: Cell|
            before(chest, here) && b.chest(chest) && #[trigger] b.room_of(chest, corner)
                && in_window(corner, c);
        assert(before(chest, (here.0 + 1, here.1)));
    }
    if in_window(k, c) {
        assert(before(here, (here.0 + 1, here.1)));
        assert(b.room_of(here, k));
    }
}

/// What is claimed at the end of a row is what is claimed at the start of
/// the next.
pub proof fn lemma_claimed_next_row(b: Board, c: Cell, y: int)
    ensures
        claimed_before(b, c, (b.width, y)) <==> claimed_before(b, c, (0, y + 1)),
{
    if claimed_before(b, c, (b.width, y)) {
        let (chest, corner) = choose|chest: Cell, corner: Cell|
            before(chest, (b.width, y)) && b.chest(chest) && #[trigger] b.room_of(chest, corner)
                && in_window(corner, c);
        assert(before(chest, (0, y + 1)));
    }
    if claimed_before(b, c, (0, y + 1)) {
        let (chest, corner) = choose|chest: Cell, corner: Cell|
            before(chest, (0, y + 1)) && b.chest(chest) && #[trigger] b.room_of(chest, corner)
                && in_window(corner, c);
        assert(b.in_bounds(chest));
        assert(before(chest, (b.width, y)));
    }
}

/// Nothing is claimed before the first cell.
pub proof fn lemma_claimed_none(b: Board, c: Cell)
    ensures
        !claimed_before(b, c, (0, 0)),
{
    if claimed_before(b, c, (0, 0)) {
        let (chest, corner) = choose|chest: Cell, corner: Cell|
            before(chest, (0, 0)) && b.chest(chest) && #[trigger] b.room_of(chest, corner)
                && in_window(corner, c);
        assert(b.in_bounds(chest));
    }
}

/// Once every row is read, what is claimed is what the rooms of all chests
/// hold.
pub proof fn lemma_claimed_done(b: Board, c: Cell)
    ensures
        claimed_before(b, c, (0, b.height)) <==> b.claimed(c),
{
    if claimed_before(b, c, (0, b.height)) {
        let (chest, corner) = choose|chest: Cell, corner: Cell|
            before(chest, (0, b.height)) && b.chest(chest) && #[trigger] b.room_of(chest, corner)
                && in_window(corner, c);
        assert(b.chest(chest) && b.room_of(chest, corner) && in_window(corner, c));
    }
    if b.claimed(c) {
        let (chest, corner) = choose|chest: Cell, corner: Cell|
            b.chest(chest) && #[trigger] b.room_of(chest, corner) && in_window(corner, c);
        assert(b.in_bounds(chest));
        assert(before(chest, (0, b.height)));
    }
}

/// The coordinates of a room on the board are those of the cells in its
/// window.
pub proof fn lemma_room_spots(b: Board, k: Cell, c: Coord)
    requires
        b.wf(),
        b.all_open(k),
    ensures
        room_spots(k).contains(c) <==> in_window(k, cell(c)),
{
    if room_spots(k).contains(c) {
        let i = choose|i: int| 0 <= i < room_spots(k).len() && room_spots(k)[i] == c;
        let at: Cell = (k.0 + i % 3, k.1 + i / 3);
        assert(in_window(k, at));
        assert(b.open(at));
    }
    if in_window(k, cell(c)) {
        let i = (c.y - k.1) * 3 + (c.x - k.0);
        assert(room_spots(k)[i] == c);
    }
}

} // verus!
