//! Turn-resolution core of a grid-based roguelike.
//!
//! The library owns the parts of the game with real invariants: the dungeon
//! generator (randomized room placement and corridor carving), the
//! entity/component store, the energy-based turn scheduler, and the movement
//! resolver. Rendering and input polling are left to the surrounding
//! application, which feeds the core a directional input snapshot each tick
//! and reads the world back through the query surface.

pub mod components;
pub mod entities;
pub mod reachability;
pub mod resources;
pub mod systems;
mod rng;
pub mod world;

use vstd::prelude::*;

use crate::components::Position;
use crate::components::Sprite;
use crate::resources::MapTile;
use crate::resources::TileMap;
use crate::world::World;

verus! {

/// The world query surface is idempotent: two query results taken from the
/// same un-mutated state are identical sequences, for both the tile view
/// and the drawable-entity view.
pub proof fn lemma_query_idempotent(
    m: TileMap,
    w: World,
    t1: Seq<(usize, usize, MapTile)>,
    t2: Seq<(usize, usize, MapTile)>,
    d1: Seq<(Position, Sprite)>,
    d2: Seq<(Position, Sprite)>,
)
    requires
        t1.len() == m.spec_width() * m.spec_height(),
        forall|i: int| 0 <= i < t1.len() ==> t1[i] == m.tile_entry(i),
        t2.len() == m.spec_width() * m.spec_height(),
        forall|i: int| 0 <= i < t2.len() ==> t2[i] == m.tile_entry(i),
        d1 == w.drawables_prefix(w.spec_len()),
        d2 == w.drawables_prefix(w.spec_len()),
    ensures
        t1 == t2,
        d1 == d2,
{
    assert(t1 =~= t2);
}

} // verus!

