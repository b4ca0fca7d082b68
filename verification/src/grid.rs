//! The grid of the `aglet` crate, which holds the fixed tiles of a puzzle
//! and the markings of a player.
//!
//! The type is declared here; what a grid of tiles and a grid of markings
//! hold is named in [`tiles`](crate::tiles) and [`marks`](crate::marks).

use vstd::prelude::*;

verus! {

/// `aglet::Grid`: a width, a height and one slot for each cell, row by row.
#[verifier::external_type_specification]
#[verifier::external_body]
#[verifier::reject_recursive_types(T)]
pub struct ExGrid<T>(aglet::Grid<T>);

/// The place of a cell among the slots of a grid of width `width`.
pub open spec fn slot_index(width: nat, x: int, y: int) -> int {
    width * y + x
}

/// The slot of each cell of a grid lies among its slots, apart from the slot
/// of every other cell.
pub proof fn lemma_slots_apart(width: nat, height: nat, x: int, y: int, x2: int, y2: int)
    requires
        0 <= x < width,
        0 <= y < height,
        0 <= x2 < width,
        0 <= y2 < height,
    ensures
        0 <= slot_index(width, x, y) < width * height,
        (x, y) != (x2, y2) ==> slot_index(width, x, y) != slot_index(width, x2, y2),
{
    assert(0 <= width * y + x < width * height) by (nonlinear_arith)
        requires
            0 <= x < width,
            0 <= y < height,
    ;
    if y < y2 {
        assert(width * y + x < width * y2 + x2) by (nonlinear_arith)
            requires
                0 <= x < width,
                0 <= x2,
                0 <= y < y2,
        ;
    } else if y2 < y {
        assert(width * y2 + x2 < width * y + x) by (nonlinear_arith)
            requires
                0 <= x2 < width,
                0 <= x,
                0 <= y2 < y,
        ;
    }
}

} // verus!
