//! The grid that holds a player's markings.
//!
//! The game keeps the markings in an `aglet::Grid`, as a puzzle keeps its
//! tiles. This module names what such a grid holds and gives the methods
//! that the game calls contracts over those names, as `aglet`'s source shows
//! them; none of the contracts is proved.

use vstd::prelude::*;
use aglet::{Coord, Grid};
use crate::play::Marking;
use crate::grid::slot_index;

verus! {

/// The width and the height that the grid was made with.
pub uninterp spec fn marks_dims(g: Grid<Marking>) -> (nat, nat);

/// The grid's slots in storage order: the rows from north to south, each from
/// west to east.
pub uninterp spec fn marks_slots(g: Grid<Marking>) -> Seq<Option<Marking>>;

/// A grid is regular if it has one slot for each cell and the number of cells
/// fits in a `u32`, as in every grid that `Grid::new` returns.
pub open spec fn marks_regular(g: Grid<Marking>) -> bool {
    &&& marks_dims(g).0 * marks_dims(g).1 <= u32::MAX
    &&& marks_slots(g).len() == marks_dims(g).0 * marks_dims(g).1
}

/// What a regular grid holds at `(x, y)`: nothing outside its bounds.
pub open spec fn marks_at(g: Grid<Marking>, x: int, y: int) -> Option<Marking> {
    if 0 <= x < marks_dims(g).0 && 0 <= y < marks_dims(g).1 {
        marks_slots(g)[slot_index(marks_dims(g).0, x, y)]
    } else {
        None
    }
}

/// `Grid::new`: a grid of the given size with every slot empty. The
/// multiplication of the two sizes must not overflow.
#[verifier::external_body]
pub(crate) fn marks_new(width: u32, height: u32) -> (g: Grid<Marking>)
    requires
        width * height <= u32::MAX,
    ensures
        marks_dims(g) == (width as nat, height as nat),
        marks_slots(g) == Seq::new((width * height) as nat, |i: int| None::<Marking>),
{
    Grid::new(width, height)
}

/// `Grid::get`, copied out of the reference: the slot of an in-bounds cell,
/// `None` for any other.
#[verifier::external_body]
pub(crate) fn marks_get(g: &Grid<Marking>, coord: Coord) -> (m: Option<Marking>)
    requires
        marks_regular(*g),
    ensures
        m == marks_at(*g, coord.x as int, coord.y as int),
{
    g.get(coord).copied()
}

/// `Grid::insert_direct`: sets the slot of an in-bounds cell, to a marking
/// or to nothing, and returns what it held; for any other cell it changes
/// nothing and returns `None`. On a regular grid the slot exists, so the
/// call does not panic.
#[verifier::external_body]
pub(crate) fn marks_put(g: &mut Grid<Marking>, coord: Coord, marking: Option<Marking>) -> (was:
    Option<Marking>)
    requires
        marks_regular(*old(g)),
    ensures
        marks_dims(*final(g)) == marks_dims(*old(g)),
        was == marks_at(*old(g), coord.x as int, coord.y as int),
        marks_slots(*final(g)) == if coord.x < marks_dims(*old(g)).0 && coord.y < marks_dims(
            *old(g),
        ).1 {
            marks_slots(*old(g)).update(
                slot_index(marks_dims(*old(g)).0, coord.x as int, coord.y as int),
                marking,
            )
        } else {
            marks_slots(*old(g))
        },
    no_unwind
{
    g.insert_direct(coord, marking)
}

} // verus!
