//! Sets of cells.
//!
//! The checker keeps its working sets of coordinates in `ahash::AHashSet`.
//! This module names what such a set holds and gives the three operations
//! that the checker uses contracts over that name; none of them is proved.

use vstd::prelude::*;
use aglet::Coord;
use ahash::AHashSet;

verus! {

/// `ahash::AHashSet`: std's `HashSet` with `ahash`'s hasher.
#[verifier::external_type_specification]
#[verifier::external_body]
#[verifier::reject_recursive_types(T)]
#[verifier::reject_recursive_types(S)]
pub struct ExAHashSet<T, S>(ahash::AHashSet<T, S>);

/// `ahash::RandomState`: the hasher state that an `AHashSet` is made with by
/// default.
#[verifier::external_type_specification]
#[verifier::external_body]
pub struct ExRandomState(ahash::RandomState);

/// The coordinates that the set holds.
pub uninterp spec fn cells_of(s: AHashSet<Coord>) -> Set<Coord>;

/// `AHashSet::new`: a set that holds nothing.
#[verifier::external_body]
pub(crate) fn cells_new() -> (s: AHashSet<Coord>)
    ensures
        cells_of(s) == Set::<Coord>::empty(),
{
    AHashSet::new()
}

/// `HashSet::insert`, reached through the set's `DerefMut`: adds the
/// coordinate and says whether it was new.
#[verifier::external_body]
pub(crate) fn cells_insert(s: &mut AHashSet<Coord>, coord: Coord) -> (fresh: bool)
    ensures
        cells_of(*final(s)) == cells_of(*old(s)).insert(coord),
        fresh == !cells_of(*old(s)).contains(coord),
{
    s.insert(coord)
}

/// `HashSet::contains`, reached through the set's `Deref`.
#[verifier::external_body]
pub(crate) fn cells_contains(s: &AHashSet<Coord>, coord: Coord) -> (held: bool)
    ensures
        held == cells_of(*s).contains(coord),
{
    s.contains(&coord)
}

} // verus!
