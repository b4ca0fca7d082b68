//! Coordinates and compass directions.
//!
//! The board's coordinate types come from the `aglet` crate. Their fields and
//! variants are public, so the types are declared here with what they hold:
//! Verus reads the fields and variants from the crate itself, and contracts
//! use them directly. The functions of `aglet` that the library calls are
//! given contracts that restate what their source computes; none of those
//! contracts is proved.

use vstd::prelude::*;
use aglet::{Coord, CoordVec, Direction8};

verus! {

/// `aglet::Coord`: an unsigned position with the public fields `x`, to the
/// east, and `y`, to the south.
#[verifier::external_type_specification]
pub struct ExCoord(aglet::Coord);

/// `aglet::CoordVec`: a signed position or offset with the public fields `x`
/// and `y`; it may lie off the board.
#[verifier::external_type_specification]
pub struct ExCoordVec(aglet::CoordVec);

/// `aglet::Direction4`: the four orthogonal directions.
#[verifier::external_type_specification]
pub struct ExDirection4(aglet::Direction4);

/// `aglet::Direction8`: the eight compass points, clockwise from north.
#[verifier::external_type_specification]
pub struct ExDirection8(aglet::Direction8);

/// The largest coordinate whose signed neighbours `aglet` can compute
/// without leaving the range of `i32`.
pub const COORD_LIMIT: u32 = 0x7fff_fffe;

/// The position of a direction in the clockwise order that starts at north.
pub open spec fn ordinal(d: Direction8) -> int {
    match d {
        Direction8::North => 0,
        Direction8::NorthEast => 1,
        Direction8::East => 2,
        Direction8::SouthEast => 3,
        Direction8::South => 4,
        Direction8::SouthWest => 5,
        Direction8::West => 6,
        Direction8::NorthWest => 7,
    }
}

/// The direction at a position of the clockwise order.
pub open spec fn direction_at(i: int) -> Direction8 {
    if i == 0 {
        Direction8::North
    } else if i == 1 {
        Direction8::NorthEast
    } else if i == 2 {
        Direction8::East
    } else if i == 3 {
        Direction8::SouthEast
    } else if i == 4 {
        Direction8::South
    } else if i == 5 {
        Direction8::SouthWest
    } else if i == 6 {
        Direction8::West
    } else {
        Direction8::NorthWest
    }
}

/// The step that a direction takes, as `(dx, dy)`; north is `-y`.
pub open spec fn step(d: Direction8) -> (int, int) {
    match d {
        Direction8::North => (0, -1),
        Direction8::NorthEast => (1, -1),
        Direction8::East => (1, 0),
        Direction8::SouthEast => (1, 1),
        Direction8::South => (0, 1),
        Direction8::SouthWest => (-1, 1),
        Direction8::West => (-1, 0),
        Direction8::NorthWest => (-1, -1),
    }
}

/// The on-board orthogonal neighbours of `c`, clockwise from north; a
/// neighbour with a negative coordinate is left out.
pub open spec fn orthogonal_neighbors(c: Coord) -> Seq<Coord> {
    let north = if c.y > 0 {
        seq![Coord { x: c.x, y: (c.y - 1) as u32 }]
    } else {
        seq![]
    };
    let west = if c.x > 0 {
        seq![Coord { x: (c.x - 1) as u32, y: c.y }]
    } else {
        seq![]
    };
    north + seq![Coord { x: (c.x + 1) as u32, y: c.y }, Coord { x: c.x, y: (c.y + 1) as u32 }]
        + west
}

/// The four orthogonal neighbours of `v`, clockwise from north, on or off
/// the board.
pub open spec fn signed_neighbors(v: CoordVec) -> Seq<CoordVec> {
    seq![
        CoordVec { x: v.x, y: (v.y - 1) as i32 },
        CoordVec { x: (v.x + 1) as i32, y: v.y },
        CoordVec { x: v.x, y: (v.y + 1) as i32 },
        CoordVec { x: (v.x - 1) as i32, y: v.y },
    ]
}

/// The unsigned position that `v` names, if neither field is negative.
pub open spec fn unsigned(v: CoordVec) -> Option<Coord> {
    if v.x >= 0 && v.y >= 0 {
        Some(Coord { x: v.x as u32, y: v.y as u32 })
    } else {
        None
    }
}

/// `Coord::new` stores its two arguments.
pub assume_specification[ aglet::Coord::new ](x: u32, y: u32) -> (c: Coord)
    ensures
        c.x == x,
        c.y == y,
;

/// `Coord::to_icoord` casts both fields to `i32`; the contract speaks only of
/// fields that fit, where the cast keeps the value.
pub assume_specification[ aglet::Coord::to_icoord ](c: Coord) -> (v: CoordVec)
    ensures
        c.x <= i32::MAX ==> v.x == c.x,
        c.y <= i32::MAX ==> v.y == c.y,
;

/// `Coord::neighbors4` adds the four orthogonal steps in signed arithmetic,
/// clockwise from north, and keeps the results without a negative field. The
/// bound keeps the signed additions in range.
pub assume_specification[ aglet::Coord::neighbors4 ](c: Coord) -> (ns: Vec<Coord>)
    requires
        c.x <= COORD_LIMIT,
        c.y <= COORD_LIMIT,
    ensures
        ns@ == orthogonal_neighbors(c),
;

/// `CoordVec::new` stores its two arguments.
pub assume_specification[ aglet::CoordVec::new ](x: i32, y: i32) -> (v: CoordVec)
    ensures
        v.x == x,
        v.y == y,
;

/// `CoordVec::to_coord` gives the same position as a `Coord`, or `None` where
/// a field is negative.
pub assume_specification[ aglet::CoordVec::to_coord ](v: CoordVec) -> (c: Option<Coord>)
    ensures
        c == unsigned(v),
;

/// `CoordVec::neighbors4` gives the four orthogonal neighbours, clockwise from
/// north, on or off the board. The bounds keep the additions in range.
pub assume_specification[ aglet::CoordVec::neighbors4 ](v: CoordVec) -> (ns: [CoordVec; 4])
    requires
        i32::MIN < v.x < i32::MAX,
        i32::MIN < v.y < i32::MAX,
    ensures
        ns@ == signed_neighbors(v),
;

/// `Direction8::rotate_by` moves the given number of places through the
/// clockwise order, wrapping round. The bounds keep its signed addition in
/// range.
pub assume_specification[ aglet::Direction8::rotate_by ](d: Direction8, steps_clockwise: i32) -> (r:
    Direction8)
    requires
        -0x7fff_fff0 <= steps_clockwise <= 0x7fff_fff0,
    ensures
        r == direction_at((ordinal(d) + steps_clockwise) % 8),
;

/// `Direction8::deltas` gives the step of a direction.
pub assume_specification[ aglet::Direction8::deltas ](d: Direction8) -> (v: CoordVec)
    ensures
        (v.x as int, v.y as int) == step(d),
;

/// The sum of two signed positions: `CoordVec`'s `+`, which adds field by
/// field. The bounds keep the additions in range.
#[verifier::external_body]
pub(crate) fn shifted(v: CoordVec, by: CoordVec) -> (r: CoordVec)
    requires
        i32::MIN <= v.x + by.x <= i32::MAX,
        i32::MIN <= v.y + by.y <= i32::MAX,
    ensures
        r.x == v.x + by.x,
        r.y == v.y + by.y,
{
    v + by
}

} // verus!
