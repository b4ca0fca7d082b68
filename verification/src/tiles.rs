//! The grid that holds a puzzle's fixed tiles.
//!
//! A puzzle keeps its tiles in an `aglet::Grid`, whose fields are private.
//! This module names what such a grid holds and gives the methods that the
//! library calls contracts over those names, as `aglet`'s source shows them;
//! none of the contracts is proved.

use vstd::prelude::*;
use aglet::{Coord, Grid};
use crate::grid::slot_index;
use crate::Tile;

verus! {

/// The width and the height that the grid was made with.
pub uninterp spec fn grid_dims(g: Grid<Tile>) -> (nat, nat);

/// The grid's slots in storage order: the rows from north to south, each from
/// west to east.
pub uninterp spec fn grid_slots(g: Grid<Tile>) -> Seq<Option<Tile>>;

/// A grid is regular if it has one slot for each cell and the number of cells
/// fits in a `u32`, as in every grid that `Grid::new` returns.
pub open spec fn grid_regular(g: Grid<Tile>) -> bool {
    &&& grid_dims(g).0 * grid_dims(g).1 <= u32::MAX
    &&& grid_slots(g).len() == grid_dims(g).0 * grid_dims(g).1
}

/// What a regular grid holds at `(x, y)`: nothing outside its bounds.
pub open spec fn grid_at(g: Grid<Tile>, x: int, y: int) -> Option<Tile> {
    if 0 <= x < grid_dims(g).0 && 0 <= y < grid_dims(g).1 {
        grid_slots(g)[slot_index(grid_dims(g).0, x, y)]
    } else {
        None
    }
}

/// `Grid::new`: a grid of the given size with every slot empty. The
/// multiplication of the two sizes must not overflow.
#[verifier::external_body]
pub(crate) fn grid_new(width: u32, height: u32) -> (g: Grid<Tile>)
    requires
        width * height <= u32::MAX,
    ensures
        grid_dims(g) == (width as nat, height as nat),
        grid_slots(g) == Seq::new((width * height) as nat, |i: int| None::<Tile>),
{
    Grid::new(width, height)
}

/// `Grid`'s derived `clone`: a grid of the same size with a copy of each
/// slot.
#[verifier::external_body]
pub(crate) fn grid_clone(g: &Grid<Tile>) -> (copy: Grid<Tile>)
    ensures
        grid_dims(copy) == grid_dims(*g),
        grid_slots(copy) == grid_slots(*g),
{
    g.clone()
}

/// `Grid::width`.
#[verifier::external_body]
pub(crate) fn grid_width(g: &Grid<Tile>) -> (w: u32)
    ensures
        w == grid_dims(*g).0,
{
    g.width()
}

/// `Grid::height`.
#[verifier::external_body]
pub(crate) fn grid_height(g: &Grid<Tile>) -> (h: u32)
    ensures
        h == grid_dims(*g).1,
{
    g.height()
}

/// `Grid::get`, copied out of the reference: the slot of an in-bounds cell,
/// `None` for any other.
#[verifier::external_body]
pub(crate) fn grid_get(g: &Grid<Tile>, coord: Coord) -> (t: Option<Tile>)
    requires
        grid_regular(*g),
    ensures
        t == grid_at(*g, coord.x as int, coord.y as int),
{
    g.get(coord).copied()
}

/// `Grid::insert`: fills the slot of an in-bounds cell and returns what it
/// held; for any other cell it changes nothing and returns `None`.
#[verifier::external_body]
pub(crate) fn grid_insert(g: &mut Grid<Tile>, coord: Coord, tile: Tile) -> (was: Option<Tile>)
    requires
        grid_regular(*old(g)),
    ensures
        grid_dims(*final(g)) == grid_dims(*old(g)),
        was == grid_at(*old(g), coord.x as int, coord.y as int),
        grid_slots(*final(g)) == if coord.x < grid_dims(*old(g)).0 && coord.y < grid_dims(*old(g)).1 {
            grid_slots(*old(g)).update(
                slot_index(grid_dims(*old(g)).0, coord.x as int, coord.y as int),
                Some(tile),
            )
        } else {
            grid_slots(*old(g))
        },
{
    g.insert(coord, tile)
}

} // verus!
