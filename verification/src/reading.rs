//! Reading order: how a scan of the board, row by row, finds the first cell
//! of a set.

use vstd::prelude::*;
use crate::rules::{before, first, inhabited, is_first, no_later, Board, Cell};

verus! {

/// No cell of `s` is read before `limit`.
pub open spec fn none_before(s: Set<Cell>, limit: Cell) -> bool {
    forall|c: Cell| #[trigger] s.contains(c) ==> !before(c, limit)
}

/// Every cell of `s` lies on the board.
pub open spec fn on_board(b: Board, s: Set<Cell>) -> bool {
    forall|c: Cell| #[trigger] s.contains(c) ==> b.in_bounds(c)
}

/// A set has at most one first cell, so the first cell that a scan meets is
/// the one that `first` names.
pub proof fn lemma_first_unique(s: Set<Cell>, c: Cell)
    requires
        is_first(s, c),
    ensures
        first(s) == c,
        inhabited(s),
{
    let d = first(s);
    assert(is_first(s, d));
    assert(s.contains(d));
    assert(no_later(c, d));
    assert(no_later(d, c));
}

/// A cell of `s` that a scan reaches before any other is its first.
pub proof fn lemma_scan_hit(s: Set<Cell>, c: Cell)
    requires
        s.contains(c),
        none_before(s, c),
    ensures
        is_first(s, c),
        first(s) == c,
        inhabited(s),
{
    assert forall|d: Cell| #[trigger] s.contains(d) implies no_later(c, d) by {
        assert(!before(d, c));
    }
    lemma_first_unique(s, c);
}

/// A scan that has passed the end of a row has passed the start of the next.
pub proof fn lemma_scan_next_row(b: Board, s: Set<Cell>, y: int)
    requires
        on_board(b, s),
        none_before(s, (b.width, y)),
    ensures
        none_before(s, (0, y + 1)),
{
    assert forall|c: Cell| #[trigger] s.contains(c) implies !before(c, (0, y + 1)) by {
        assert(b.in_bounds(c));
        assert(!before(c, (b.width, y)));
    }
}

/// A scan moves on from a cell that is not in the set.
pub proof fn lemma_scan_step(s: Set<Cell>, c: Cell)
    requires
        none_before(s, c),
        !s.contains(c),
    ensures
        none_before(s, (c.0 + 1, c.1)),
{
    assert forall|d: Cell| #[trigger] s.contains(d) implies !before(d, (c.0 + 1, c.1)) by {
        assert(!before(d, c));
        assert(d != c);
    }
}

/// A scan that has passed the last row without a hit shows the set empty.
pub proof fn lemma_scan_done(b: Board, s: Set<Cell>)
    requires
        on_board(b, s),
        none_before(s, (0, b.height)),
    ensures
        !inhabited(s),
{
    assert forall|c: Cell| !s.contains(c) by {
        if s.contains(c) {
            assert(b.in_bounds(c));
            assert(!before(c, (0, b.height)));
        }
    }
}

/// A set of cells of the board that holds `c` has a first cell, and it comes
/// no later than `c`.
pub proof fn lemma_first_exists(b: Board, s: Set<Cell>, c: Cell)
    requires
        on_board(b, s),
        s.contains(c),
    ensures
        is_first(s, first(s)),
        no_later(first(s), c),
    decreases c.1, c.0,
{
    assert(b.in_bounds(c));
    if none_before(s, c) {
        lemma_scan_hit(s, c);
    } else {
        let d = choose|d: Cell| #[trigger] s.contains(d) && before(d, c);
        assert(b.in_bounds(d));
        lemma_first_exists(b, s, d);
    }
}

} // verus!
