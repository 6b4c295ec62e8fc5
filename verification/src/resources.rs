//! Shared simulation state: the directional input snapshot, the turn gate,
//! and the tile map with its randomized dungeon generator.

use vstd::prelude::*;

use rand::rngs::StdRng;

use crate::components::Color;
use crate::components::Sprite;
use crate::entities;
use crate::reachability::lemma_l_corridor_hv;
use crate::reachability::lemma_l_corridor_vh;
use crate::reachability::lemma_reach_mono;
use crate::reachability::lemma_reach_refl;
use crate::reachability::lemma_reach_trans;
use crate::reachability::lemma_rect_connected;
use crate::reachability::reach;
use crate::rng::rand_range;
use crate::rng::rng_from_seed;
use crate::world::World;

verus! {

/// Attempt budget for randomized room placement.
pub const MAX_ATTEMPTS: usize = 200;

/// Room quota: placement stops once this many rooms are accepted.
pub const MAX_ROOMS: usize = 20;

/// Smallest accepted room extent.
pub const MIN_SIZE: usize = 5;

/// Exclusive upper bound on a sampled room extent.
pub const MAX_SIZE: usize = 15;

/// The one failure generation can surface: fewer rooms were placed than
/// spawn points are needed, after exhausting the attempt budget. The caller
/// may retry with a fresh seed.
#[derive(Clone, Copy, Debug, PartialEq, Eq, Structural)]
pub enum GenError {
    RoomShortfall,
}

/// One tick's normalized directional input. More than one direction may be
/// asserted at once; each asserted direction is honored independently.
#[derive(Clone, Copy, Debug, PartialEq, Eq, Structural)]
pub struct Input {
    pub up: bool,
    pub down: bool,
    pub left: bool,
    pub right: bool,
}

impl Input {
    pub fn new() -> (i: Input)
        ensures
            i == (Input { up: false, down: false, left: false, right: false }),
    {
        Input { up: false, down: false, left: false, right: false }
    }
}

/// The process-wide turn gate: while `waiting` is set the simulation is
/// paused, awaiting the player's next input-derived intent.
#[derive(Clone, Copy, Debug, PartialEq, Eq, Structural)]
pub struct TurnState {
    pub waiting: bool,
}

impl TurnState {
    pub fn new() -> (t: TurnState)
        ensures
            t == (TurnState { waiting: false }),
    {
        TurnState { waiting: false }
    }
}

/// One grid cell: whether it blocks movement, and the color the renderer
/// paints it with.
#[derive(Clone, Copy, Debug, PartialEq, Eq, Structural)]
pub struct MapTile {
    pub color: Color,
    pub solid: bool,
}

impl MapTile {
    /// The solid tile every cell starts as.
    pub open spec fn wall_spec() -> MapTile {
        MapTile { color: Color { r: 51, g: 51, b: 51 }, solid: true }
    }

    /// The open tile that carving produces.
    pub open spec fn floor_spec() -> MapTile {
        MapTile { color: Color { r: 0, g: 0, b: 0 }, solid: false }
    }

    pub fn wall() -> (t: MapTile)
        ensures
            t == MapTile::wall_spec(),
    {
        MapTile { color: Color { r: 51, g: 51, b: 51 }, solid: true }
    }

    pub fn floor() -> (t: MapTile)
        ensures
            t == MapTile::floor_spec(),
    {
        MapTile { color: Color { r: 0, g: 0, b: 0 }, solid: false }
    }
}

/// The `width x height` tile grid, stored row-major. It is the exclusive
/// owner of tile solidity; actors are validated against it and never against
/// other entities.
pub struct TileMap {
    tiles: Vec<MapTile>,
    width: usize,
    height: usize,
}

impl TileMap {
    pub closed spec fn spec_width(&self) -> int {
        self.width as int
    }

    pub closed spec fn spec_height(&self) -> int {
        self.height as int
    }

    /// Structural invariant: positive dimensions and a fully allocated grid.
    pub closed spec fn wf(&self) -> bool {
        &&& 1 <= self.width
        &&& 1 <= self.height
        &&& self.tiles@.len() == self.spec_width() * self.spec_height()
    }

    pub open spec fn in_bounds(&self, x: int, y: int) -> bool {
        0 <= x < self.spec_width() && 0 <= y < self.spec_height()
    }

    /// The tile at `(x, y)`, row-major.
    pub closed spec fn tile_at(&self, x: int, y: int) -> MapTile {
        self.tiles@[x + y * self.spec_width()]
    }

    /// An open cell: in bounds and not solid.
    pub open spec fn is_floor(&self, x: int, y: int) -> bool {
        self.in_bounds(x, y) && !self.tile_at(x, y).solid
    }

    pub fn width(&self) -> (w: usize)
        ensures
            w == self.spec_width(),
            self.wf() ==> 1 <= w,
    {
        self.width
    }

    pub fn height(&self) -> (h: usize)
        ensures
            h == self.spec_height(),
            self.wf() ==> 1 <= h,
    {
        self.height
    }

    /// A fresh map with every tile solid.
    pub fn new(width: usize, height: usize) -> (m: TileMap)
        requires
            1 <= width,
            1 <= height,
            width * height <= usize::MAX,
        ensures
            m.wf(),
            m.spec_width() == width,
            m.spec_height() == height,
            forall|x: int, y: int| m.in_bounds(x, y) ==> m.tile_at(x, y) == MapTile::wall_spec(),
    {
        let n = width * height;
        let mut tiles: Vec<MapTile> = Vec::new();
        let mut i: usize = 0;
        while i < n
            invariant
                i <= n,
                tiles@.len() == i,
                forall|k: int| 0 <= k < i ==> tiles@[k] == MapTile::wall_spec(),
            decreases n - i,
        {
            tiles.push(MapTile::wall());
            i = i + 1;
        }
        let m = TileMap { tiles, width, height };
        proof {
            assert forall|x: int, y: int| m.in_bounds(x, y) implies m.tile_at(x, y)
                == MapTile::wall_spec() by {
                lemma_row_major_index(x, y, width as int, height as int);
            }
        }
        m
    }

    /// Writes one tile, leaving every other cell unchanged.
    fn set_tile(&mut self, x: usize, y: usize, t: MapTile)
        requires
            old(self).wf(),
            x < old(self).spec_width(),
            y < old(self).spec_height(),
        ensures
            final(self).wf(),
            final(self).spec_width() == old(self).spec_width(),
            final(self).spec_height() == old(self).spec_height(),
            forall|a: int, b: int|
                old(self).in_bounds(a, b) ==> #[trigger] final(self).tile_at(a, b) == (if a == x
                    && b == y {
                    t
                } else {
                    old(self).tile_at(a, b)
                }),
    {
        // binding the length shows the verifier that the linear index fits
        let n = self.tiles.len();
        proof {
            lemma_row_major_index(x as int, y as int, self.spec_width(), self.spec_height());
        }
        let i = x + y * self.width;
        self.tiles[i] = t;
        proof {
            assert forall|a: int, b: int| old(self).in_bounds(a, b) implies #[trigger] self.tile_at(
                a,
                b,
            ) == (if a == x && b == y {
                t
            } else {
                old(self).tile_at(a, b)
            }) by {
                lemma_row_major_index(a, b, self.spec_width(), self.spec_height());
                if a + b * self.spec_width() == i {
                    lemma_row_major_injective(
                        a,
                        b,
                        x as int,
                        y as int,
                        self.spec_width(),
                        self.spec_height(),
                    );
                }
            }
        }
    }

    /// Opens a room's interior to floor, leaving a one-tile wall margin on
    /// its border: exactly the cells strictly inside the rectangle change.
    pub fn carve_room(&mut self, room: &Room)
        requires
            old(self).wf(),
            1 <= room.spec_width(),
            1 <= room.spec_height(),
            room.spec_x() + room.spec_width() <= old(self).spec_width(),
            room.spec_y() + room.spec_height() <= old(self).spec_height(),
        ensures
            final(self).wf(),
            final(self).spec_width() == old(self).spec_width(),
            final(self).spec_height() == old(self).spec_height(),
            forall|a: int, b: int|
                old(self).in_bounds(a, b) ==> #[trigger] final(self).tile_at(a, b) == (
                if room.interior_contains(a, b) {
                    MapTile::floor_spec()
                } else {
                    old(self).tile_at(a, b)
                }),
    {
        let x_end = room.x + room.width;
        let y_end = room.y + room.height;
        let mut x = room.x + 1;
        while x < x_end
            invariant
                self.wf(),
                self.spec_width() == old(self).spec_width(),
                self.spec_height() == old(self).spec_height(),
                x_end == room.spec_x() + room.spec_width(),
                y_end == room.spec_y() + room.spec_height(),
                x_end <= self.spec_width(),
                y_end <= self.spec_height(),
                1 <= room.spec_width(),
                1 <= room.spec_height(),
                room.spec_x() + 1 <= x <= x_end,
                forall|a: int, b: int|
                    old(self).in_bounds(a, b) ==> #[trigger] self.tile_at(a, b) == (
                    if room.spec_x() < a < x && room.interior_contains_y(b) {
                        MapTile::floor_spec()
                    } else {
                        old(self).tile_at(a, b)
                    }),
            decreases x_end - x,
        {
            let mut y = room.y + 1;
            while y < y_end
                invariant
                    self.wf(),
                    self.spec_width() == old(self).spec_width(),
                    self.spec_height() == old(self).spec_height(),
                    x_end == room.spec_x() + room.spec_width(),
                    y_end == room.spec_y() + room.spec_height(),
                    x_end <= self.spec_width(),
                    y_end <= self.spec_height(),
                    1 <= room.spec_width(),
                    1 <= room.spec_height(),
                    room.spec_x() + 1 <= x < x_end,
                    room.spec_y() + 1 <= y <= y_end,
                    forall|a: int, b: int|
                        old(self).in_bounds(a, b) ==> #[trigger] self.tile_at(a, b) == (
                        if (room.spec_x() < a < x && room.interior_contains_y(b)) || (a == x
                            && room.spec_y() < b < y) {
                            MapTile::floor_spec()
                        } else {
                            old(self).tile_at(a, b)
                        }),
                decreases y_end - y,
            {
                self.set_tile(x, y, MapTile::floor());
                y = y + 1;
            }
            x = x + 1;
        }
    }

    /// Opens a horizontal corridor at row `y`, spanning from `x1` to `x2`
    /// inclusive of both endpoints; no other cell changes.
    pub fn carve_h_corridor(&mut self, x1: usize, x2: usize, y: usize)
        requires
            old(self).wf(),
            x1 < old(self).spec_width(),
            x2 < old(self).spec_width(),
            y < old(self).spec_height(),
        ensures
            final(self).wf(),
            final(self).spec_width() == old(self).spec_width(),
            final(self).spec_height() == old(self).spec_height(),
            forall|a: int, b: int|
                old(self).in_bounds(a, b) ==> #[trigger] final(self).tile_at(a, b) == (if b == y
                    && vstd::math::min(x1 as int, x2 as int) <= a <= vstd::math::max(
                    x1 as int,
                    x2 as int,
                ) {
                    MapTile::floor_spec()
                } else {
                    old(self).tile_at(a, b)
                }),
    {
        let (start, end) = if x1 < x2 {
            (x1, x2)
        } else {
            (x2, x1)
        };
        let mut x = start;
        while x <= end
            invariant
                self.wf(),
                self.spec_width() == old(self).spec_width(),
                self.spec_height() == old(self).spec_height(),
                start == vstd::math::min(x1 as int, x2 as int),
                end == vstd::math::max(x1 as int, x2 as int),
                end < self.spec_width(),
                y < self.spec_height(),
                start <= x <= end + 1,
                forall|a: int, b: int|
                    old(self).in_bounds(a, b) ==> #[trigger] self.tile_at(a, b) == (if b == y
                        && start <= a < x {
                        MapTile::floor_spec()
                    } else {
                        old(self).tile_at(a, b)
                    }),
            decreases end + 1 - x,
        {
            self.set_tile(x, y, MapTile::floor());
            x = x + 1;
        }
    }

    /// Opens a vertical corridor at column `x`, spanning from `y1` to `y2`
    /// inclusive of both endpoints; no other cell changes.
    pub fn carve_v_corridor(&mut self, x: usize, y1: usize, y2: usize)
        requires
            old(self).wf(),
            x < old(self).spec_width(),
            y1 < old(self).spec_height(),
            y2 < old(self).spec_height(),
        ensures
            final(self).wf(),
            final(self).spec_width() == old(self).spec_width(),
            final(self).spec_height() == old(self).spec_height(),
            forall|a: int, b: int|
                old(self).in_bounds(a, b) ==> #[trigger] final(self).tile_at(a, b) == (if a == x
                    && vstd::math::min(y1 as int, y2 as int) <= b <= vstd::math::max(
                    y1 as int,
                    y2 as int,
                ) {
                    MapTile::floor_spec()
                } else {
                    old(self).tile_at(a, b)
                }),
    {
        let (start, end) = if y1 < y2 {
            (y1, y2)
        } else {
            (y2, y1)
        };
        let mut y = start;
        while y <= end
            invariant
                self.wf(),
                self.spec_width() == old(self).spec_width(),
                self.spec_height() == old(self).spec_height(),
                start == vstd::math::min(y1 as int, y2 as int),
                end == vstd::math::max(y1 as int, y2 as int),
                end < self.spec_height(),
                x < self.spec_width(),
                start <= y <= end + 1,
                forall|a: int, b: int|
                    old(self).in_bounds(a, b) ==> #[trigger] self.tile_at(a, b) == (if a == x
                        && start <= b < y {
                        MapTile::floor_spec()
                    } else {
                        old(self).tile_at(a, b)
                    }),
            decreases end + 1 - y,
        {
            self.set_tile(x, y, MapTile::floor());
            y = y + 1;
        }
    }

    /// Bounds-checked tile lookup; the only query surface callers may use for
    /// coordinates they have not already validated.
    pub fn get(&self, x: usize, y: usize) -> (r: Option<&MapTile>)
        requires
            self.wf(),
        ensures
            match r {
                Some(t) => self.in_bounds(x as int, y as int) && *t == self.tile_at(
                    x as int,
                    y as int,
                ),
                None => !self.in_bounds(x as int, y as int),
            },
    {
        if x < self.width && y < self.height {
            // binding the length shows the verifier that the linear index fits
            let n = self.tiles.len();
            proof {
                lemma_row_major_index(x as int, y as int, self.spec_width(), self.spec_height());
            }
            Some(&self.tiles[x + y * self.width])
        } else {
            None
        }
    }

    /// The `(x, y, tile)` triple of linear cell `i`, row-major.
    pub open spec fn tile_entry(&self, i: int) -> (usize, usize, MapTile) {
        (
            (i % self.spec_width()) as usize,
            (i / self.spec_width()) as usize,
            self.tile_at(i % self.spec_width(), i / self.spec_width()),
        )
    }

    /// The query surface for presentation: every cell as `(x, y, tile)`, in
    /// row-major order. A read-only snapshot: the result is a function of
    /// the map alone.
    pub fn tile_positions(&self) -> (r: Vec<(usize, usize, MapTile)>)
        requires
            self.wf(),
        ensures
            r@.len() == self.spec_width() * self.spec_height(),
            forall|i: int| 0 <= i < r@.len() ==> r@[i] == self.tile_entry(i),
    {
        let n = self.tiles.len();
        let mut r: Vec<(usize, usize, MapTile)> = Vec::new();
        let mut i: usize = 0;
        while i < n
            invariant
                self.wf(),
                n == self.tiles@.len(),
                i <= n,
                r@.len() == i,
                forall|k: int| 0 <= k < i ==> r@[k] == self.tile_entry(k),
            decreases n - i,
        {
            let x = i % self.width;
            let y = i / self.width;
            r.push((x, y, self.tiles[i]));
            proof {
                vstd::arithmetic::div_mod::lemma_fundamental_div_mod(
                    i as int,
                    self.spec_width(),
                );
                assert(self.spec_width() * (i as int / self.spec_width()) == (i as int
                    / self.spec_width()) * self.spec_width()) by (nonlinear_arith);
            }
            i = i + 1;
        }
        r
    }

    /// Carves every accepted room's interior into an all-wall map. Each
    /// interior ends open, and every open cell is reachable from the
    /// centroid of the room that opened it.
    fn carve_all_rooms(&mut self, rooms: &Vec<Room>)
        requires
            old(self).wf(),
            rooms_ok(rooms@, old(self).spec_width(), old(self).spec_height()),
            forall|x: int, y: int| !old(self).is_floor(x, y),
        ensures
            final(self).wf(),
            final(self).spec_width() == old(self).spec_width(),
            final(self).spec_height() == old(self).spec_height(),
            forall|j: int, a: int, b: int|
                0 <= j < rooms@.len() && (#[trigger] rooms@[j].interior_contains(a, b)) ==> final(self).is_floor(a, b),
            forall|x: int, y: int|
                #[trigger] final(self).is_floor(x, y) ==> exists|j: int|
                    0 <= j < rooms@.len() && reach(*final(self), rooms@[j].spec_centre(), (x, y)),
            forall|x: int, y: int|
                old(self).in_bounds(x, y) ==> (#[trigger] final(self).tile_at(x, y) == old(
                    self,
                ).tile_at(x, y) || final(self).tile_at(x, y) == MapTile::floor_spec()),
            forall|x: int, y: int|
                old(self).in_bounds(x, y) && on_border(
                    x,
                    y,
                    old(self).spec_width(),
                    old(self).spec_height(),
                ) ==> #[trigger] final(self).tile_at(x, y) == old(self).tile_at(x, y),
    {
        let nrooms = rooms.len();
        let mut i: usize = 0;
        while i < nrooms
            invariant
                self.wf(),
                self.spec_width() == old(self).spec_width(),
                self.spec_height() == old(self).spec_height(),
                nrooms == rooms@.len(),
                rooms_ok(rooms@, self.spec_width(), self.spec_height()),
                i <= nrooms,
                forall|j: int, a: int, b: int|
                    0 <= j < i && (#[trigger] rooms@[j].interior_contains(a, b)) ==> self.is_floor(
                        a,
                        b,
                    ),
                forall|x: int, y: int|
                    #[trigger] self.is_floor(x, y) ==> exists|j: int|
                        0 <= j < i && reach(*self, rooms@[j].spec_centre(), (x, y)),
                forall|x: int, y: int|
                    old(self).in_bounds(x, y) ==> (#[trigger] self.tile_at(x, y) == old(
                        self,
                    ).tile_at(x, y) || self.tile_at(x, y) == MapTile::floor_spec()),
                forall|x: int, y: int|
                    old(self).in_bounds(x, y) && on_border(
                        x,
                        y,
                        old(self).spec_width(),
                        old(self).spec_height(),
                    ) ==> #[trigger] self.tile_at(x, y) == old(self).tile_at(x, y),
            decreases nrooms - i,
        {
            let room = rooms[i];
            let ghost m_prev = *self;
            self.carve_room(&room);
            proof {
                assert(floors_preserved(m_prev, *self));
                assert forall|x: int, y: int| #[trigger] self.is_floor(x, y) implies exists|j: int|
                    0 <= j < i + 1 && reach(*self, rooms@[j].spec_centre(), (x, y)) by {
                    if m_prev.is_floor(x, y) {
                        let j = choose|j: int|
                            0 <= j < i && reach(m_prev, rooms@[j].spec_centre(), (x, y));
                        lemma_reach_mono(m_prev, *self, rooms@[j].spec_centre(), (x, y));
                    } else {
                        assert(rooms@[i as int].interior_contains(x, y));
                        assert forall|a: int, b: int|
                            rooms@[i as int].interior_contains(a, b) implies #[trigger] self.is_floor(
                            a,
                            b,
                        ) by {}
                        lemma_rect_connected(*self, rooms@[i as int], x, y);
                        assert(reach(*self, rooms@[i as int].spec_centre(), (x, y)));
                    }
                }
            }
            i = i + 1;
        }
    }

    /// Joins consecutive rooms with L-shaped corridors, choosing the bend
    /// at random. Room interiors stay open, and afterwards every open cell
    /// is reachable from the first room's centroid.
    /// Carves one L-shaped corridor between two rooms' centroids, bending
    /// at random: every old floor cell survives, the two centroids end up
    /// joined, every newly opened cell is reachable from the first
    /// centroid, and the border ring is untouched.
    #[verifier::spinoff_prover]
    fn carve_link(&mut self, room_a: Room, room_b: Room, rng: &mut StdRng)
        requires
            old(self).wf(),
            room_a.placed_in(old(self).spec_width(), old(self).spec_height()),
            room_b.placed_in(old(self).spec_width(), old(self).spec_height()),
        ensures
            final(self).wf(),
            final(self).spec_width() == old(self).spec_width(),
            final(self).spec_height() == old(self).spec_height(),
            floors_preserved(*old(self), *final(self)),
            reach(*final(self), room_a.spec_centre(), room_b.spec_centre()),
            forall|x: int, y: int|
                #[trigger] final(self).is_floor(x, y) ==> old(self).is_floor(x, y) || reach(
                    *final(self),
                    room_a.spec_centre(),
                    (x, y),
                ),
            forall|x: int, y: int|
                old(self).in_bounds(x, y) ==> (#[trigger] final(self).tile_at(x, y) == old(
                    self,
                ).tile_at(x, y) || final(self).tile_at(x, y) == MapTile::floor_spec()),
            forall|x: int, y: int|
                old(self).in_bounds(x, y) && on_border(
                    x,
                    y,
                    old(self).spec_width(),
                    old(self).spec_height(),
                ) ==> #[trigger] final(self).tile_at(x, y) == old(self).tile_at(x, y),
    {
        let (ax, ay) = room_a.centre();
        let (bx, by) = room_b.centre();
        proof {
            lemma_centre_in_interior(room_a);
            lemma_centre_in_interior(room_b);
            assert(2 <= ax as int && ax as int <= self.spec_width() - 2);
            assert(2 <= bx as int && bx as int <= self.spec_width() - 2);
            assert(2 <= ay as int && ay as int <= self.spec_height() - 2);
            assert(2 <= by as int && by as int <= self.spec_height() - 2);
        }
        if rand_range(rng, 0, 2) == 0 {
            self.carve_h_corridor(ax, bx, ay);
            let ghost m1 = *self;
            self.carve_v_corridor(bx, ay, by);
            proof {
                lemma_l_corridor_hv(
                    *old(self),
                    m1,
                    *self,
                    ax as int,
                    ay as int,
                    bx as int,
                    by as int,
                );
                assert forall|x: int, y: int|
                    old(self).in_bounds(x, y) implies (#[trigger] self.tile_at(x, y) == old(
                    self,
                ).tile_at(x, y) || self.tile_at(x, y) == MapTile::floor_spec()) by {
                    let t1 = m1.tile_at(x, y);
                }
                assert forall|x: int, y: int|
                    old(self).in_bounds(x, y) && on_border(
                        x,
                        y,
                        old(self).spec_width(),
                        old(self).spec_height(),
                    ) implies #[trigger] self.tile_at(x, y) == old(self).tile_at(x, y) by {
                    let t1 = m1.tile_at(x, y);
                }
            }
        } else {
            self.carve_v_corridor(ax, ay, by);
            let ghost m1 = *self;
            self.carve_h_corridor(ax, bx, by);
            proof {
                lemma_l_corridor_vh(
                    *old(self),
                    m1,
                    *self,
                    ax as int,
                    ay as int,
                    bx as int,
                    by as int,
                );
                assert forall|x: int, y: int|
                    old(self).in_bounds(x, y) implies (#[trigger] self.tile_at(x, y) == old(
                    self,
                ).tile_at(x, y) || self.tile_at(x, y) == MapTile::floor_spec()) by {
                    let t1 = m1.tile_at(x, y);
                }
                assert forall|x: int, y: int|
                    old(self).in_bounds(x, y) && on_border(
                        x,
                        y,
                        old(self).spec_width(),
                        old(self).spec_height(),
                    ) implies #[trigger] self.tile_at(x, y) == old(self).tile_at(x, y) by {
                    let t1 = m1.tile_at(x, y);
                }
            }
        }
    }

    /// Joins consecutive rooms with L-shaped corridors, choosing the bend
    /// at random. Room interiors stay open, afterwards every open cell is
    /// reachable from the first room's centroid, opened cells are the only
    /// change, and the border ring keeps its tiles.
    #[verifier::rlimit(100)]
    #[verifier::spinoff_prover]
    fn connect_rooms(&mut self, rooms: &Vec<Room>, rng: &mut StdRng)
        requires
            old(self).wf(),
            rooms_ok(rooms@, old(self).spec_width(), old(self).spec_height()),
            1 <= rooms@.len(),
            forall|j: int, a: int, b: int|
                0 <= j < rooms@.len() && (#[trigger] rooms@[j].interior_contains(a, b)) ==> old(self).is_floor(a, b),
            forall|x: int, y: int|
                #[trigger] old(self).is_floor(x, y) ==> exists|j: int|
                    0 <= j < rooms@.len() && reach(*old(self), rooms@[j].spec_centre(), (x, y)),
        ensures
            final(self).wf(),
            final(self).spec_width() == old(self).spec_width(),
            final(self).spec_height() == old(self).spec_height(),
            forall|j: int, a: int, b: int|
                0 <= j < rooms@.len() && (#[trigger] rooms@[j].interior_contains(a, b)) ==> final(self).is_floor(a, b),
            forall|x: int, y: int|
                #[trigger] final(self).is_floor(x, y) ==> reach(
                    *final(self),
                    rooms@[0].spec_centre(),
                    (x, y),
                ),
            forall|x: int, y: int|
                old(self).in_bounds(x, y) ==> (#[trigger] final(self).tile_at(x, y) == old(
                    self,
                ).tile_at(x, y) || final(self).tile_at(x, y) == MapTile::floor_spec()),
            forall|x: int, y: int|
                old(self).in_bounds(x, y) && on_border(
                    x,
                    y,
                    old(self).spec_width(),
                    old(self).spec_height(),
                ) ==> #[trigger] final(self).tile_at(x, y) == old(self).tile_at(x, y),
    {
        let nrooms = rooms.len();
        proof {
            assert(rooms@[0].placed_in(self.spec_width(), self.spec_height()));
            lemma_centre_in_interior(rooms@[0]);
            assert(self.is_floor(rooms@[0].spec_centre().0, rooms@[0].spec_centre().1));
            lemma_reach_refl(*self, rooms@[0].spec_centre());
        }
        let mut k: usize = 0;
        while k < nrooms - 1
            invariant
                self.wf(),
                self.spec_width() == old(self).spec_width(),
                self.spec_height() == old(self).spec_height(),
                nrooms == rooms@.len(),
                1 <= nrooms,
                rooms_ok(rooms@, self.spec_width(), self.spec_height()),
                k <= nrooms - 1,
                forall|j: int, a: int, b: int|
                    0 <= j < nrooms && (#[trigger] rooms@[j].interior_contains(a, b))
                        ==> self.is_floor(a, b),
                forall|x: int, y: int|
                    #[trigger] self.is_floor(x, y) ==> exists|j: int|
                        0 <= j < nrooms && reach(*self, rooms@[j].spec_centre(), (x, y)),
                forall|j: int|
                    0 <= j <= k ==> reach(
                        *self,
                        rooms@[0].spec_centre(),
                        (#[trigger] rooms@[j]).spec_centre(),
                    ),
                forall|x: int, y: int|
                    old(self).in_bounds(x, y) ==> (#[trigger] self.tile_at(x, y) == old(
                        self,
                    ).tile_at(x, y) || self.tile_at(x, y) == MapTile::floor_spec()),
                forall|x: int, y: int|
                    old(self).in_bounds(x, y) && on_border(
                        x,
                        y,
                        old(self).spec_width(),
                        old(self).spec_height(),
                    ) ==> #[trigger] self.tile_at(x, y) == old(self).tile_at(x, y),
            decreases nrooms - 1 - k,
        {
            let room_a = rooms[k];
            let room_b = rooms[k + 1];
            let ghost m0 = *self;
            self.carve_link(room_a, room_b, rng);
            proof {
                assert forall|x: int, y: int|
                    old(self).in_bounds(x, y) implies (#[trigger] self.tile_at(x, y) == old(
                    self,
                ).tile_at(x, y) || self.tile_at(x, y) == MapTile::floor_spec()) by {
                    let t0 = m0.tile_at(x, y);
                }
                assert forall|x: int, y: int|
                    old(self).in_bounds(x, y) && on_border(
                        x,
                        y,
                        old(self).spec_width(),
                        old(self).spec_height(),
                    ) implies #[trigger] self.tile_at(x, y) == old(self).tile_at(x, y) by {
                    let t0 = m0.tile_at(x, y);
                }
                let ca = rooms@[k as int].spec_centre();
                let cb = rooms@[k as int + 1].spec_centre();
                assert(reach(*self, ca, cb));
                assert forall|j: int| 0 <= j <= k + 1 implies reach(
                    *self,
                    rooms@[0].spec_centre(),
                    (#[trigger] rooms@[j]).spec_centre(),
                ) by {
                    if j <= k {
                        lemma_reach_mono(
                            m0,
                            *self,
                            rooms@[0].spec_centre(),
                            rooms@[j].spec_centre(),
                        );
                    } else {
                        lemma_reach_mono(m0, *self, rooms@[0].spec_centre(), ca);
                        lemma_reach_trans(*self, rooms@[0].spec_centre(), ca, cb);
                    }
                }
                assert forall|x: int, y: int| #[trigger] self.is_floor(x, y) implies exists|j: int|
                    0 <= j < nrooms && reach(*self, rooms@[j].spec_centre(), (x, y)) by {
                    if m0.is_floor(x, y) {
                        let j = choose|j: int|
                            0 <= j < nrooms && reach(m0, rooms@[j].spec_centre(), (x, y));
                        lemma_reach_mono(m0, *self, rooms@[j].spec_centre(), (x, y));
                    } else {
                        assert(reach(*self, ca, (x, y)));
                    }
                }
            }
            k = k + 1;
        }
        proof {
            assert forall|x: int, y: int| #[trigger] self.is_floor(x, y) implies reach(
                *self,
                rooms@[0].spec_centre(),
                (x, y),
            ) by {
                let j = choose|j: int|
                    0 <= j < nrooms && reach(*self, rooms@[j].spec_centre(), (x, y));
                lemma_reach_trans(
                    *self,
                    rooms@[0].spec_centre(),
                    rooms@[j].spec_centre(),
                    (x, y),
                );
            }
        }
    }

    /// Generates a dungeon from a seed: every tile starts solid, rooms are
    /// placed by rejection sampling and carved, consecutive rooms are joined
    /// by L-shaped corridors, and the player, snake and rat are spawned on
    /// the first three rooms' centroids. Fails, leaving the world untouched,
    /// when fewer rooms were placed than spawn points are needed.
    pub fn generate(
        world: &mut World,
        map_width: usize,
        map_height: usize,
        seed: u64,
    ) -> (r: Result<TileMap, GenError>)
        requires
            old(world).wf(),
            3 <= map_width,
            3 <= map_height,
            map_width * map_height <= usize::MAX,
        ensures
            match r {
                Ok(map) => generate_post(
                    *old(world),
                    *final(world),
                    map,
                    map_width as int,
                    map_height as int,
                ),
                Err(e) => *final(world) == *old(world) && e == GenError::RoomShortfall,
            },
    {
        let mut rng = rng_from_seed(seed);
        let rooms = place_rooms_with(&mut rng, map_width, map_height);
        match check_spawn_quota(&rooms) {
            Err(e) => {
                return Err(e);
            },
            Ok(_) => {},
        }
        let mut map = TileMap::new(map_width, map_height);
        let ghost m_base = map;
        map.carve_all_rooms(&rooms);
        let ghost m_mid = map;
        map.connect_rooms(&rooms, &mut rng);
        proof {
            assert forall|x: int, y: int| map.in_bounds(x, y) implies ((#[trigger] map.tile_at(
                x,
                y,
            )) == MapTile::wall_spec() || map.tile_at(x, y) == MapTile::floor_spec()) by {
                let t1 = m_mid.tile_at(x, y);
                let t0 = m_base.tile_at(x, y);
            }
            assert forall|x: int, y: int|
                map.in_bounds(x, y) && on_border(
                    x,
                    y,
                    map_width as int,
                    map_height as int,
                ) implies (#[trigger] map.tile_at(x, y)) == MapTile::wall_spec() by {
                let t1 = m_mid.tile_at(x, y);
                let t0 = m_base.tile_at(x, y);
            }
        }
        let room0 = rooms[0];
        let room1 = rooms[1];
        let room2 = rooms[2];
        let c0 = room0.centre();
        let c1 = room1.centre();
        let c2 = room2.centre();
        proof {
            lemma_centre_in_interior(room0);
            lemma_centre_in_interior(room1);
            lemma_centre_in_interior(room2);
            lemma_interiors_disjoint(
                rooms@[0],
                rooms@[1],
                rooms@[0].spec_centre().0,
                rooms@[0].spec_centre().1,
            );
            lemma_interiors_disjoint(
                rooms@[0],
                rooms@[2],
                rooms@[0].spec_centre().0,
                rooms@[0].spec_centre().1,
            );
            lemma_interiors_disjoint(
                rooms@[1],
                rooms@[2],
                rooms@[1].spec_centre().0,
                rooms@[1].spec_centre().1,
            );
        }
        world.spawn(entities::player(c0.0, c0.1));
        world.spawn(entities::snake(c1.0, c1.1));
        world.spawn(entities::rat(c2.0, c2.1));
        Ok(map)
    }
}

/// A generator-internal rectangle of cells. Carving opens its strict
/// interior, keeping a one-tile wall margin; its centroid is kept as a spawn
/// point and corridor endpoint.
#[derive(Clone, Copy)]
pub struct Room {
    pub x: usize,
    pub y: usize,
    pub width: usize,
    pub height: usize,
}

impl Room {
    pub closed spec fn spec_x(&self) -> int {
        self.x as int
    }

    pub closed spec fn spec_y(&self) -> int {
        self.y as int
    }

    pub closed spec fn spec_width(&self) -> int {
        self.width as int
    }

    pub closed spec fn spec_height(&self) -> int {
        self.height as int
    }

    /// Open rectangle overlap: rectangles that share only a border do not
    /// count as overlapping.
    pub open spec fn overlaps(&self, other: &Room) -> bool {
        &&& self.spec_x() < other.spec_x() + other.spec_width()
        &&& self.spec_x() + self.spec_width() > other.spec_x()
        &&& self.spec_y() < other.spec_y() + other.spec_height()
        &&& self.spec_y() + self.spec_height() > other.spec_y()
    }

    /// The strictly interior cells, the ones carving opens.
    pub open spec fn interior_contains(&self, cx: int, cy: int) -> bool {
        self.spec_x() < cx < self.spec_x() + self.spec_width() && self.interior_contains_y(cy)
    }

    pub open spec fn interior_contains_y(&self, cy: int) -> bool {
        self.spec_y() < cy < self.spec_y() + self.spec_height()
    }

    pub open spec fn spec_centre(&self) -> (int, int) {
        (self.spec_x() + self.spec_width() / 2, self.spec_y() + self.spec_height() / 2)
    }

    /// An accepted room: extents within the sampled range, placed strictly
    /// inside the map border so that carving keeps a solid outer wall.
    pub open spec fn placed_in(&self, map_width: int, map_height: int) -> bool {
        &&& 1 <= self.spec_x()
        &&& 1 <= self.spec_y()
        &&& MIN_SIZE <= self.spec_width() < MAX_SIZE
        &&& MIN_SIZE <= self.spec_height() < MAX_SIZE
        &&& self.spec_x() + self.spec_width() <= map_width - 1
        &&& self.spec_y() + self.spec_height() <= map_height - 1
    }

    /// The room's centroid, used for spawn points and corridor endpoints.
    pub fn centre(&self) -> (c: (usize, usize))
        requires
            self.spec_x() + self.spec_width() <= usize::MAX,
            self.spec_y() + self.spec_height() <= usize::MAX,
        ensures
            c.0 == self.spec_centre().0,
            c.1 == self.spec_centre().1,
    {
        (self.x + self.width / 2, self.y + self.height / 2)
    }

    /// Whether two rooms' rectangles overlap; sharing only a border returns
    /// false.
    pub fn intersects(&self, other: &Room) -> (r: bool)
        requires
            self.spec_x() + self.spec_width() <= usize::MAX,
            self.spec_y() + self.spec_height() <= usize::MAX,
            other.spec_x() + other.spec_width() <= usize::MAX,
            other.spec_y() + other.spec_height() <= usize::MAX,
        ensures
            r == self.overlaps(other),
    {
        self.x < other.x + other.width && self.x + self.width > other.x && self.y < other.y
            + other.height && self.y + self.height > other.y
    }
}

/// A cell of the map's outermost ring.
pub open spec fn on_border(x: int, y: int, map_width: int, map_height: int) -> bool {
    x == 0 || y == 0 || x == map_width - 1 || y == map_height - 1
}

/// Every cell that is floor in `m1` is still floor in `m2`: carving only
/// opens cells, it never closes one.
pub open spec fn floors_preserved(m1: TileMap, m2: TileMap) -> bool {
    forall|x: int, y: int| m1.is_floor(x, y) ==> #[trigger] m2.is_floor(x, y)
}

/// One freshly spawned actor at row `i`: its components, a well-formed
/// movement state with an empty intent queue, and a spawn cell that is open
/// floor of `map`.
pub open spec fn spawned_actor(
    w: World,
    i: int,
    player: bool,
    energy: int,
    speed: int,
    glyph: char,
    color: Color,
    map: TileMap,
) -> bool {
    &&& w.positions@[i] matches Some(p) && map.is_floor(p.x as int, p.y as int)
    &&& w.sprites@[i] == Some(Sprite { character: glyph, color })
    &&& w.movements@[i] matches Some(m) && m.player_input == player && m.energy == energy
        && m.speed == speed && m.move_queue@.len() == 0
}

/// The initial entity set generation owes: the player and the two monster
/// kinds, on pairwise distinct floor cells, starting at rows `n..n + 3`.
pub open spec fn spawned_set(w: World, n: int, map: TileMap) -> bool {
    &&& spawned_actor(w, n, true, 2, 2, '@', Color { r: 255, g: 255, b: 255 }, map)
    &&& spawned_actor(w, n + 1, false, 0, 1, 'S', Color { r: 0, g: 255, b: 0 }, map)
    &&& spawned_actor(w, n + 2, false, 0, 4, 'r', Color { r: 150, g: 105, b: 79 }, map)
    &&& w.positions@[n] != w.positions@[n + 1]
    &&& w.positions@[n] != w.positions@[n + 2]
    &&& w.positions@[n + 1] != w.positions@[n + 2]
}

/// Everything successful generation promises: a fully allocated map of the
/// requested dimensions, the previous entities untouched, and the three
/// spawns appended on distinct open cells.
pub open spec fn generate_post(
    w_old: World,
    w_new: World,
    map: TileMap,
    map_width: int,
    map_height: int,
) -> bool {
    let n = w_old.spec_len();
    &&& map.wf()
    &&& map.spec_width() == map_width
    &&& map.spec_height() == map_height
    &&& w_new.wf()
    &&& w_new.spec_len() == n + 3
    &&& forall|i: int| 0 <= i < n ==> #[trigger] w_new.positions@[i] == w_old.positions@[i]
    &&& forall|i: int| 0 <= i < n ==> #[trigger] w_new.sprites@[i] == w_old.sprites@[i]
    &&& forall|i: int| 0 <= i < n ==> #[trigger] w_new.movements@[i] == w_old.movements@[i]
    &&& spawned_set(w_new, n, map)
    &&& w_new.positions@[n] matches Some(p0) && (forall|x: int, y: int|
        map.is_floor(x, y) ==> #[trigger] reach(map, (p0.x as int, p0.y as int), (x, y)))
    &&& forall|x: int, y: int|
        map.in_bounds(x, y) ==> ((#[trigger] map.tile_at(x, y)) == MapTile::wall_spec()
            || map.tile_at(x, y) == MapTile::floor_spec())
    &&& forall|x: int, y: int|
        map.in_bounds(x, y) && on_border(x, y, map_width, map_height) ==> (#[trigger] map.tile_at(
            x,
            y,
        )) == MapTile::wall_spec()
}

/// What room placement guarantees: a bounded number of rooms, each placed
/// strictly inside the border, and no two accepted rooms' rectangles
/// overlapping.
pub open spec fn rooms_ok(rooms: Seq<Room>, map_width: int, map_height: int) -> bool {
    &&& rooms.len() <= MAX_ROOMS
    &&& forall|i: int|
        0 <= i < rooms.len() ==> (#[trigger] rooms[i]).placed_in(map_width, map_height)
    &&& forall|i: int, j: int|
        0 <= i < j < rooms.len() ==> !(#[trigger] rooms[i].overlaps(&rooms[j]))
}

/// The extent a sampled size is clamped to, so the room stays inside the
/// border.
pub open spec fn clamped(sample: int, cap: int) -> int {
    if sample < cap {
        sample
    } else {
        cap
    }
}

/// The candidate rectangle one placement attempt proposes: the sampled
/// origin with each sampled extent clamped against the border.
pub open spec fn candidate_room(
    x: usize,
    y: usize,
    ws: usize,
    hs: usize,
    map_width: usize,
    map_height: usize,
) -> Room {
    Room {
        x,
        y,
        width: clamped(ws as int, map_width - x - 1) as usize,
        height: clamped(hs as int, map_height - y - 1) as usize,
    }
}

/// When one placement attempt succeeds: the clamped extents still reach the
/// minimum size, and the candidate overlaps no previously accepted room.
pub open spec fn candidate_accepted(
    rooms: Seq<Room>,
    x: usize,
    y: usize,
    ws: usize,
    hs: usize,
    map_width: usize,
    map_height: usize,
) -> bool {
    let c = candidate_room(x, y, ws, hs, map_width, map_height);
    &&& MIN_SIZE <= c.spec_width()
    &&& MIN_SIZE <= c.spec_height()
    &&& forall|k: int| 0 <= k < rooms.len() ==> !c.overlaps(&#[trigger] rooms[k])
}

/// One placement attempt, for given sampled draws: the candidate rectangle
/// is accepted — pushed onto the accepted list — exactly when its clamped
/// extents still reach the minimum size and it overlaps no accepted room;
/// otherwise the list is unchanged.
pub fn try_place(
    rooms: &mut Vec<Room>,
    x: usize,
    y: usize,
    ws: usize,
    hs: usize,
    map_width: usize,
    map_height: usize,
) -> (accepted: bool)
    requires
        3 <= map_width,
        3 <= map_height,
        1 <= x <= map_width - 2,
        1 <= y <= map_height - 2,
        MIN_SIZE <= ws < MAX_SIZE,
        MIN_SIZE <= hs < MAX_SIZE,
        rooms_ok(old(rooms)@, map_width as int, map_height as int),
        old(rooms)@.len() < MAX_ROOMS,
    ensures
        rooms_ok(final(rooms)@, map_width as int, map_height as int),
        accepted == candidate_accepted(old(rooms)@, x, y, ws, hs, map_width, map_height),
        accepted ==> final(rooms)@ == old(rooms)@.push(
            candidate_room(x, y, ws, hs, map_width, map_height),
        ),
        !accepted ==> final(rooms)@ == old(rooms)@,
{
    let w_cap = map_width - 1 - x;
    let h_cap = map_height - 1 - y;
    let width = if ws < w_cap {
        ws
    } else {
        w_cap
    };
    let height = if hs < h_cap {
        hs
    } else {
        h_cap
    };
    if width < MIN_SIZE || height < MIN_SIZE {
        return false;
    }
    let room = Room { x, y, width, height };
    let mut j: usize = 0;
    while j < rooms.len()
        invariant
            rooms_ok(rooms@, map_width as int, map_height as int),
            rooms@ == old(rooms)@,
            j <= rooms@.len(),
            room == candidate_room(x, y, ws, hs, map_width, map_height),
            room.placed_in(map_width as int, map_height as int),
            forall|k: int| 0 <= k < j ==> !room.overlaps(&#[trigger] rooms@[k]),
        decreases rooms@.len() - j,
    {
        let existing = rooms[j];
        if room.intersects(&existing) {
            return false;
        }
        j = j + 1;
    }
    rooms.push(room);
    true
}

/// Decides generation's one failure from the accepted rooms: succeeds
/// exactly when there are enough rooms for the three spawn points.
pub fn check_spawn_quota(rooms: &Vec<Room>) -> (r: Result<(), GenError>)
    ensures
        match r {
            Ok(_) => rooms@.len() >= 3,
            Err(e) => rooms@.len() < 3 && e == GenError::RoomShortfall,
        },
{
    if rooms.len() < 3 {
        Err(GenError::RoomShortfall)
    } else {
        Ok(())
    }
}

/// Rejection-sampled room placement: sample an origin strictly inside the
/// border and extents within the size range, attempt to place the
/// candidate, and stop at the room quota or the attempt budget.
fn place_rooms_with(rng: &mut StdRng, map_width: usize, map_height: usize) -> (rooms: Vec<Room>)
    requires
        3 <= map_width,
        3 <= map_height,
    ensures
        rooms_ok(rooms@, map_width as int, map_height as int),
{
    let mut rooms: Vec<Room> = Vec::new();
    let mut attempt: usize = 0;
    while attempt < MAX_ATTEMPTS
        invariant_except_break
            rooms@.len() < MAX_ROOMS,
        invariant
            3 <= map_width,
            3 <= map_height,
            attempt <= MAX_ATTEMPTS,
            rooms_ok(rooms@, map_width as int, map_height as int),
        ensures
            rooms_ok(rooms@, map_width as int, map_height as int),
        decreases MAX_ATTEMPTS - attempt,
    {
        attempt = attempt + 1;
        let x = rand_range(rng, 1, map_width - 1);
        let y = rand_range(rng, 1, map_height - 1);
        let ws = rand_range(rng, MIN_SIZE, MAX_SIZE);
        let hs = rand_range(rng, MIN_SIZE, MAX_SIZE);
        try_place(&mut rooms, x, y, ws, hs, map_width, map_height);
        if rooms.len() == MAX_ROOMS {
            break;
        }
    }
    rooms
}

/// Randomized room placement from a seed. No two rooms of the result
/// overlap, each lies strictly inside the border with at least the minimum
/// extent, and at most the room quota is returned.
pub fn place_rooms(map_width: usize, map_height: usize, seed: u64) -> (rooms: Vec<Room>)
    requires
        3 <= map_width,
        3 <= map_height,
    ensures
        rooms_ok(rooms@, map_width as int, map_height as int),
{
    let mut rng = rng_from_seed(seed);
    place_rooms_with(&mut rng, map_width, map_height)
}

/// The simulation context threaded by reference into each phase: the input
/// snapshot, the turn gate, and the map. Each field has a single writing
/// phase per tick.
pub struct Resources {
    pub input: Input,
    pub turn_state: TurnState,
    pub map: TileMap,
}

impl Resources {
    /// Fresh simulation state: cleared input, an open turn gate, and a
    /// dungeon generated from the seed with its three actors spawned into
    /// `world`. Fails, leaving the world untouched, on a room shortfall.
    pub fn new(world: &mut World, map_width: usize, map_height: usize, seed: u64) -> (r: Result<
        Resources,
        GenError,
    >)
        requires
            old(world).wf(),
            3 <= map_width,
            3 <= map_height,
            map_width * map_height <= usize::MAX,
        ensures
            match r {
                Ok(res) => {
                    &&& res.input == (Input { up: false, down: false, left: false, right: false })
                    &&& res.turn_state == (TurnState { waiting: false })
                    &&& generate_post(
                        *old(world),
                        *final(world),
                        res.map,
                        map_width as int,
                        map_height as int,
                    )
                },
                Err(e) => *final(world) == *old(world) && e == GenError::RoomShortfall,
            },
    {
        let input = Input::new();
        let turn_state = TurnState::new();
        match TileMap::generate(world, map_width, map_height, seed) {
            Ok(map) => Ok(Resources { input, turn_state, map }),
            Err(e) => Err(e),
        }
    }

    /// Full simulation reset: atomically discards every entity, then
    /// regenerates. On success the world holds exactly the three fresh
    /// spawns; on a room shortfall it is left empty, never partially
    /// populated.
    pub fn reset(world: &mut World, map_width: usize, map_height: usize, seed: u64) -> (r: Result<
        Resources,
        GenError,
    >)
        requires
            3 <= map_width,
            3 <= map_height,
            map_width * map_height <= usize::MAX,
        ensures
            final(world).wf(),
            match r {
                Ok(res) => {
                    &&& res.input == (Input { up: false, down: false, left: false, right: false })
                    &&& res.turn_state == (TurnState { waiting: false })
                    &&& res.map.wf()
                    &&& res.map.spec_width() == map_width
                    &&& res.map.spec_height() == map_height
                    &&& final(world).spec_len() == 3
                    &&& spawned_set(*final(world), 0, res.map)
                },
                Err(e) => final(world).spec_len() == 0 && e == GenError::RoomShortfall,
            },
    {
        world.clear();
        Resources::new(world, map_width, map_height, seed)
    }
}

/// A room's centroid lies strictly inside it, in the carved interior.
pub proof fn lemma_centre_in_interior(r: Room)
    requires
        2 <= r.spec_width(),
        2 <= r.spec_height(),
    ensures
        r.interior_contains(r.spec_centre().0, r.spec_centre().1),
{
}

/// Non-overlapping rooms have disjoint interiors: a cell strictly inside
/// one is not strictly inside the other.
pub proof fn lemma_interiors_disjoint(r1: Room, r2: Room, cx: int, cy: int)
    requires
        !r1.overlaps(&r2),
        r1.interior_contains(cx, cy),
    ensures
        !r2.interior_contains(cx, cy),
{
}

/// Row-major indexing is injective on the grid: two in-bounds coordinates
/// with the same linear index are the same coordinate.
pub proof fn lemma_row_major_injective(a: int, b: int, x: int, y: int, w: int, h: int)
    requires
        0 <= a < w,
        0 <= b < h,
        0 <= x < w,
        0 <= y < h,
        a + b * w == x + y * w,
    ensures
        a == x && b == y,
{
    assert(b == y) by (nonlinear_arith)
        requires
            0 <= a < w,
            0 <= x < w,
            a + b * w == x + y * w,
    ;
}

/// Row-major indexing stays inside the allocation: for in-bounds `(x, y)`,
/// `x + y * w` lies in `[0, w * h)`.
pub proof fn lemma_row_major_index(x: int, y: int, w: int, h: int)
    requires
        0 <= x < w,
        0 <= y < h,
    ensures
        0 <= x + y * w < w * h,
{
    assert(x + y * w < w * h) by (nonlinear_arith)
        requires
            0 <= x < w,
            0 <= y < h,
    ;
    assert(0 <= y * w) by (nonlinear_arith)
        requires
            0 <= y,
            0 <= w,
    ;
}

} // verus!
