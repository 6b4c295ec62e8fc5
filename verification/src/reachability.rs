//! Reachability over floor tiles: the specification of dungeon
//! connectivity, and the lemmas the generator's proof is built from. A cell
//! is reachable from another when a walk of 4-directionally adjacent open
//! cells joins them.

use vstd::prelude::*;

use crate::resources::Room;
use crate::resources::TileMap;

verus! {

/// Two cells share an edge of the grid.
pub open spec fn adjacent(a: (int, int), b: (int, int)) -> bool {
    (a.0 == b.0 && (a.1 == b.1 + 1 || a.1 + 1 == b.1)) || (a.1 == b.1 && (a.0 == b.0 + 1 || a.0
        + 1 == b.0))
}

/// A walk over the map: nonempty, every cell open floor, consecutive cells
/// adjacent.
pub open spec fn path_ok(m: TileMap, p: Seq<(int, int)>) -> bool {
    &&& p.len() >= 1
    &&& forall|i: int| 0 <= i < p.len() ==> m.is_floor((#[trigger] p[i]).0, p[i].1)
    &&& forall|i: int| 0 <= i < p.len() - 1 ==> adjacent(#[trigger] p[i], p[i + 1])
}

/// Cell `b` can be reached from cell `a` by walking over floor tiles.
pub open spec fn reach(m: TileMap, a: (int, int), b: (int, int)) -> bool {
    exists|p: Seq<(int, int)>| path_ok(m, p) && p.first() == a && p.last() == b
}

/// An open cell reaches itself.
pub proof fn lemma_reach_refl(m: TileMap, a: (int, int))
    requires
        m.is_floor(a.0, a.1),
    ensures
        reach(m, a, a),
{
    let p = seq![a];
    assert(path_ok(m, p) && p.first() == a && p.last() == a);
}

/// Two adjacent open cells reach each other.
pub proof fn lemma_reach_adjacent(m: TileMap, a: (int, int), b: (int, int))
    requires
        m.is_floor(a.0, a.1),
        m.is_floor(b.0, b.1),
        adjacent(a, b),
    ensures
        reach(m, a, b),
{
    let p = seq![a, b];
    assert(path_ok(m, p) && p.first() == a && p.last() == b);
}

/// Reachability is transitive: concatenating two walks gives a walk.
pub proof fn lemma_reach_trans(m: TileMap, a: (int, int), b: (int, int), c: (int, int))
    requires
        reach(m, a, b),
        reach(m, b, c),
    ensures
        reach(m, a, c),
{
    let p1 = choose|p: Seq<(int, int)>| path_ok(m, p) && p.first() == a && p.last() == b;
    let p2 = choose|p: Seq<(int, int)>| path_ok(m, p) && p.first() == b && p.last() == c;
    if p2.len() == 1 {
        assert(path_ok(m, p1) && p1.first() == a && p1.last() == c);
    } else {
        let p = p1 + p2.drop_first();
        assert(p.len() == p1.len() + p2.len() - 1);
        assert forall|i: int| 0 <= i < p.len() implies m.is_floor((#[trigger] p[i]).0, p[i].1) by {
            if i < p1.len() {
                assert(p[i] == p1[i]);
            } else {
                assert(p[i] == p2[i - p1.len() + 1]);
            }
        }
        assert forall|i: int| 0 <= i < p.len() - 1 implies adjacent(#[trigger] p[i], p[i + 1]) by {
            if i + 1 < p1.len() {
                assert(p[i] == p1[i] && p[i + 1] == p1[i + 1]);
            } else if i + 1 == p1.len() {
                assert(p[i] == p1[i] && p1[i] == b && p[i + 1] == p2[1]);
                assert(adjacent(p2[0], p2[1]));
            } else {
                assert(p[i] == p2[i - p1.len() + 1] && p[i + 1] == p2[i - p1.len() + 2]);
            }
        }
        assert(p.first() == a);
        assert(p.last() == p2.last());
        assert(path_ok(m, p) && p.first() == a && p.last() == c);
    }
}

/// Opening more cells never breaks reachability: a walk over the floor of
/// `m1` is still a walk wherever every floor cell of `m1` stays floor.
pub proof fn lemma_reach_mono(m1: TileMap, m2: TileMap, a: (int, int), b: (int, int))
    requires
        reach(m1, a, b),
        forall|x: int, y: int| m1.is_floor(x, y) ==> #[trigger] m2.is_floor(x, y),
    ensures
        reach(m2, a, b),
{
    let p = choose|p: Seq<(int, int)>| path_ok(m1, p) && p.first() == a && p.last() == b;
    assert(path_ok(m2, p) && p.first() == a && p.last() == b);
}

/// A horizontal run of open cells joins its two ends, in both directions.
pub proof fn lemma_h_run(m: TileMap, x1: int, x2: int, y: int)
    requires
        x1 <= x2,
        forall|x: int| x1 <= x <= x2 ==> #[trigger] m.is_floor(x, y),
    ensures
        reach(m, (x1, y), (x2, y)),
        reach(m, (x2, y), (x1, y)),
    decreases x2 - x1,
{
    if x1 == x2 {
        lemma_reach_refl(m, (x1, y));
    } else {
        lemma_h_run(m, x1, x2 - 1, y);
        lemma_reach_adjacent(m, (x2 - 1, y), (x2, y));
        lemma_reach_adjacent(m, (x2, y), (x2 - 1, y));
        lemma_reach_trans(m, (x1, y), (x2 - 1, y), (x2, y));
        lemma_reach_trans(m, (x2, y), (x2 - 1, y), (x1, y));
    }
}

/// A vertical run of open cells joins its two ends, in both directions.
pub proof fn lemma_v_run(m: TileMap, x: int, y1: int, y2: int)
    requires
        y1 <= y2,
        forall|y: int| y1 <= y <= y2 ==> #[trigger] m.is_floor(x, y),
    ensures
        reach(m, (x, y1), (x, y2)),
        reach(m, (x, y2), (x, y1)),
    decreases y2 - y1,
{
    if y1 == y2 {
        lemma_reach_refl(m, (x, y1));
    } else {
        lemma_v_run(m, x, y1, y2 - 1);
        lemma_reach_adjacent(m, (x, y2 - 1), (x, y2));
        lemma_reach_adjacent(m, (x, y2), (x, y2 - 1));
        lemma_reach_trans(m, (x, y1), (x, y2 - 1), (x, y2));
        lemma_reach_trans(m, (x, y2), (x, y2 - 1), (x, y1));
    }
}

/// A horizontal run regardless of the order of its endpoints.
pub proof fn lemma_h_run_any(m: TileMap, x1: int, x2: int, y: int)
    requires
        forall|x: int|
            vstd::math::min(x1, x2) <= x <= vstd::math::max(x1, x2) ==> #[trigger] m.is_floor(
                x,
                y,
            ),
    ensures
        reach(m, (x1, y), (x2, y)),
        reach(m, (x2, y), (x1, y)),
{
    if x1 <= x2 {
        lemma_h_run(m, x1, x2, y);
    } else {
        lemma_h_run(m, x2, x1, y);
    }
}

/// A vertical run regardless of the order of its endpoints.
pub proof fn lemma_v_run_any(m: TileMap, x: int, y1: int, y2: int)
    requires
        forall|y: int|
            vstd::math::min(y1, y2) <= y <= vstd::math::max(y1, y2) ==> #[trigger] m.is_floor(
                x,
                y,
            ),
    ensures
        reach(m, (x, y1), (x, y2)),
        reach(m, (x, y2), (x, y1)),
{
    if y1 <= y2 {
        lemma_v_run(m, x, y1, y2);
    } else {
        lemma_v_run(m, x, y2, y1);
    }
}

/// The effect of one L-shaped corridor carved horizontally first: `m1` is
/// `m0` with row `ay` opened from `ax` to `bx`, and `m2` is `m1` with
/// column `bx` opened from `ay` to `by`. Every old floor cell survives,
/// both corner points are joined, and every cell the corridor opened is
/// reachable from its start.
pub proof fn lemma_l_corridor_hv(m0: TileMap, m1: TileMap, m2: TileMap, ax: int, ay: int, bx: int, by: int)
    requires
        m1.spec_width() == m0.spec_width(),
        m1.spec_height() == m0.spec_height(),
        m2.spec_width() == m0.spec_width(),
        m2.spec_height() == m0.spec_height(),
        m0.in_bounds(ax, ay),
        m0.in_bounds(bx, by),
        forall|a: int, b: int|
            m0.in_bounds(a, b) ==> #[trigger] m1.tile_at(a, b) == (if b == ay && vstd::math::min(
                ax,
                bx,
            ) <= a <= vstd::math::max(ax, bx) {
                crate::resources::MapTile::floor_spec()
            } else {
                m0.tile_at(a, b)
            }),
        forall|a: int, b: int|
            m0.in_bounds(a, b) ==> #[trigger] m2.tile_at(a, b) == (if a == bx && vstd::math::min(
                ay,
                by,
            ) <= b <= vstd::math::max(ay, by) {
                crate::resources::MapTile::floor_spec()
            } else {
                m1.tile_at(a, b)
            }),
    ensures
        forall|x: int, y: int| m0.is_floor(x, y) ==> #[trigger] m2.is_floor(x, y),
        reach(m2, (ax, ay), (bx, by)),
        forall|x: int, y: int|
            #[trigger] m2.is_floor(x, y) ==> m0.is_floor(x, y) || reach(m2, (ax, ay), (x, y)),
{
    assert forall|t: int|
        vstd::math::min(ax, bx) <= t <= vstd::math::max(ax, bx) implies #[trigger] m2.is_floor(
        t,
        ay,
    ) by {
        assert(m0.in_bounds(t, ay));
    }
    assert forall|t: int|
        vstd::math::min(ay, by) <= t <= vstd::math::max(ay, by) implies #[trigger] m2.is_floor(
        bx,
        t,
    ) by {
        assert(m0.in_bounds(bx, t));
    }
    lemma_h_run_any(m2, ax, bx, ay);
    lemma_v_run_any(m2, bx, ay, by);
    lemma_reach_trans(m2, (ax, ay), (bx, ay), (bx, by));
    assert forall|x: int, y: int|
        #[trigger] m2.is_floor(x, y) && !m0.is_floor(x, y) implies reach(m2, (ax, ay), (x, y)) by {
        if y == ay && vstd::math::min(ax, bx) <= x <= vstd::math::max(ax, bx) {
            lemma_h_run_any(m2, ax, x, ay);
        } else {
            assert(x == bx && vstd::math::min(ay, by) <= y <= vstd::math::max(ay, by));
            lemma_v_run_any(m2, bx, ay, y);
            lemma_reach_trans(m2, (ax, ay), (bx, ay), (bx, y));
        }
    }
}

/// The effect of one L-shaped corridor carved vertically first: `m1` is
/// `m0` with column `ax` opened from `ay` to `by`, and `m2` is `m1` with
/// row `by` opened from `ax` to `bx`.
pub proof fn lemma_l_corridor_vh(m0: TileMap, m1: TileMap, m2: TileMap, ax: int, ay: int, bx: int, by: int)
    requires
        m1.spec_width() == m0.spec_width(),
        m1.spec_height() == m0.spec_height(),
        m2.spec_width() == m0.spec_width(),
        m2.spec_height() == m0.spec_height(),
        m0.in_bounds(ax, ay),
        m0.in_bounds(bx, by),
        forall|a: int, b: int|
            m0.in_bounds(a, b) ==> #[trigger] m1.tile_at(a, b) == (if a == ax && vstd::math::min(
                ay,
                by,
            ) <= b <= vstd::math::max(ay, by) {
                crate::resources::MapTile::floor_spec()
            } else {
                m0.tile_at(a, b)
            }),
        forall|a: int, b: int|
            m0.in_bounds(a, b) ==> #[trigger] m2.tile_at(a, b) == (if b == by && vstd::math::min(
                ax,
                bx,
            ) <= a <= vstd::math::max(ax, bx) {
                crate::resources::MapTile::floor_spec()
            } else {
                m1.tile_at(a, b)
            }),
    ensures
        forall|x: int, y: int| m0.is_floor(x, y) ==> #[trigger] m2.is_floor(x, y),
        reach(m2, (ax, ay), (bx, by)),
        forall|x: int, y: int|
            #[trigger] m2.is_floor(x, y) ==> m0.is_floor(x, y) || reach(m2, (ax, ay), (x, y)),
{
    assert forall|t: int|
        vstd::math::min(ay, by) <= t <= vstd::math::max(ay, by) implies #[trigger] m2.is_floor(
        ax,
        t,
    ) by {
        assert(m0.in_bounds(ax, t));
    }
    assert forall|t: int|
        vstd::math::min(ax, bx) <= t <= vstd::math::max(ax, bx) implies #[trigger] m2.is_floor(
        t,
        by,
    ) by {
        assert(m0.in_bounds(t, by));
    }
    lemma_v_run_any(m2, ax, ay, by);
    lemma_h_run_any(m2, ax, bx, by);
    lemma_reach_trans(m2, (ax, ay), (ax, by), (bx, by));
    assert forall|x: int, y: int|
        #[trigger] m2.is_floor(x, y) && !m0.is_floor(x, y) implies reach(m2, (ax, ay), (x, y)) by {
        if x == ax && vstd::math::min(ay, by) <= y <= vstd::math::max(ay, by) {
            lemma_v_run_any(m2, ax, ay, y);
        } else {
            assert(y == by && vstd::math::min(ax, bx) <= x <= vstd::math::max(ax, bx));
            lemma_h_run_any(m2, ax, x, by);
            lemma_reach_trans(m2, (ax, ay), (ax, by), (x, by));
        }
    }
}

/// Inside a fully carved room interior, the centroid reaches every cell:
/// walk horizontally along the centroid's row, then vertically down the
/// target's column, both inside the rectangle.
pub proof fn lemma_rect_connected(m: TileMap, room: Room, x: int, y: int)
    requires
        2 <= room.spec_width(),
        2 <= room.spec_height(),
        forall|a: int, b: int| room.interior_contains(a, b) ==> #[trigger] m.is_floor(a, b),
        room.interior_contains(x, y),
    ensures
        reach(m, room.spec_centre(), (x, y)),
{
    let (cx, cy) = room.spec_centre();
    crate::resources::lemma_centre_in_interior(room);
    assert forall|t: int|
        vstd::math::min(cx, x) <= t <= vstd::math::max(cx, x) implies #[trigger] m.is_floor(
        t,
        cy,
    ) by {
        assert(room.interior_contains(t, cy));
    }
    lemma_h_run_any(m, cx, x, cy);
    assert forall|t: int|
        vstd::math::min(cy, y) <= t <= vstd::math::max(cy, y) implies #[trigger] m.is_floor(
        x,
        t,
    ) by {
        assert(room.interior_contains(x, t));
    }
    lemma_v_run_any(m, x, cy, y);
    lemma_reach_trans(m, (cx, cy), (x, cy), (x, y));
}

} // verus!
