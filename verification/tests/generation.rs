use std::collections::VecDeque;

use rogue_core::resources::GenError;
use rogue_core::resources::Resources;
use rogue_core::resources::TileMap;
use rogue_core::resources::place_rooms;
use rogue_core::world::World;

#[test]
fn rooms_never_overlap() {
    for seed in [0u64, 1, 7, 42, 1234, 99999] {
        let rooms = place_rooms(80, 50, seed);
        for i in 0..rooms.len() {
            for j in 0..rooms.len() {
                if i != j {
                    assert!(!rooms[i].intersects(&rooms[j]));
                }
            }
        }
    }
}

#[test]
fn placement_produces_enough_rooms() {
    let rooms = place_rooms(80, 50, 42);
    assert!(rooms.len() >= 3);
    assert!(rooms.len() <= 20);
}

#[test]
fn generate_fixed_seed_spawns_on_distinct_floor() {
    let mut world = World::new();
    let map = TileMap::generate(&mut world, 80, 50, 42).unwrap();
    assert_eq!(world.len(), 3);
    let player = world.positions[0].unwrap();
    let snake = world.positions[1].unwrap();
    let rat = world.positions[2].unwrap();
    let player_tile = map.get(player.x, player.y).unwrap();
    assert!(!player_tile.solid);
    assert!(player != snake);
    assert!(player != rat);
    assert!(snake != rat);
}

#[test]
fn every_floor_tile_reachable_from_player_spawn() {
    for seed in [3u64, 42, 2026] {
        let mut world = World::new();
        let map = TileMap::generate(&mut world, 80, 50, seed).unwrap();
        let spawn = world.positions[0].unwrap();
        let width = map.width();
        let height = map.height();
        let mut seen = vec![false; width * height];
        let mut queue = VecDeque::new();
        assert!(!map.get(spawn.x, spawn.y).unwrap().solid);
        seen[spawn.x + spawn.y * width] = true;
        queue.push_back((spawn.x, spawn.y));
        while let Some((x, y)) = queue.pop_front() {
            let mut neighbours = Vec::new();
            if x + 1 < width {
                neighbours.push((x + 1, y));
            }
            if x >= 1 {
                neighbours.push((x - 1, y));
            }
            if y + 1 < height {
                neighbours.push((x, y + 1));
            }
            if y >= 1 {
                neighbours.push((x, y - 1));
            }
            for (nx, ny) in neighbours {
                if !seen[nx + ny * width] && !map.get(nx, ny).unwrap().solid {
                    seen[nx + ny * width] = true;
                    queue.push_back((nx, ny));
                }
            }
        }
        for y in 0..height {
            for x in 0..width {
                if !map.get(x, y).unwrap().solid {
                    assert!(seen[x + y * width], "floor tile ({x}, {y}) unreachable");
                }
            }
        }
    }
}

#[test]
fn generation_shortfall_is_surfaced() {
    let mut world = World::new();
    let r = TileMap::generate(&mut world, 4, 4, 0);
    assert_eq!(r.err(), Some(GenError::RoomShortfall));
    assert_eq!(world.len(), 0);
}

#[test]
fn generate_same_seed_same_map() {
    let mut w1 = World::new();
    let m1 = TileMap::generate(&mut w1, 60, 40, 7).unwrap();
    let mut w2 = World::new();
    let m2 = TileMap::generate(&mut w2, 60, 40, 7).unwrap();
    assert_eq!(m1.tile_positions(), m2.tile_positions());
    assert_eq!(w1.positions[0], w2.positions[0]);
}

#[test]
fn map_lookup_is_bounds_checked() {
    let map = TileMap::new(8, 6);
    assert!(map.get(0, 0).is_some());
    assert!(map.get(7, 5).is_some());
    assert!(map.get(8, 0).is_none());
    assert!(map.get(0, 6).is_none());
    assert!(map.get(100, 100).is_none());
    assert!(map.get(0, 0).unwrap().solid);
}

#[test]
fn carving_opens_exactly_the_span() {
    let mut map = TileMap::new(10, 10);
    map.carve_h_corridor(2, 6, 4);
    for x in 2..=6 {
        assert!(!map.get(x, 4).unwrap().solid);
    }
    assert!(map.get(1, 4).unwrap().solid);
    assert!(map.get(7, 4).unwrap().solid);
    assert!(map.get(4, 3).unwrap().solid);
    map.carve_v_corridor(8, 7, 3);
    for y in 3..=7 {
        assert!(!map.get(8, y).unwrap().solid);
    }
    assert!(map.get(8, 2).unwrap().solid);
    assert!(map.get(8, 8).unwrap().solid);
}

#[test]
fn tile_positions_lists_every_cell_row_major() {
    let mut map = TileMap::new(4, 3);
    map.carve_h_corridor(1, 2, 1);
    let cells = map.tile_positions();
    assert_eq!(cells.len(), 12);
    assert_eq!((cells[0].0, cells[0].1), (0, 0));
    assert_eq!((cells[5].0, cells[5].1), (1, 1));
    assert!(!cells[5].2.solid);
    assert_eq!((cells[11].0, cells[11].1), (3, 2));
    assert!(cells[11].2.solid);
}

#[test]
fn query_surface_is_idempotent() {
    let mut world = World::new();
    let map = TileMap::generate(&mut world, 40, 30, 11).unwrap();
    assert_eq!(map.tile_positions(), map.tile_positions());
    assert_eq!(world.drawables(), world.drawables());
}

#[test]
fn resources_new_and_reset() {
    let mut world = World::new();
    let res = Resources::new(&mut world, 80, 50, 5).unwrap();
    assert!(!res.input.up && !res.input.down && !res.input.left && !res.input.right);
    assert!(!res.turn_state.waiting);
    assert_eq!(world.len(), 3);
    let res2 = Resources::reset(&mut world, 80, 50, 9).unwrap();
    assert_eq!(world.len(), 3);
    assert!(!res2.turn_state.waiting);
    let shortfall = Resources::reset(&mut world, 4, 4, 0);
    assert!(shortfall.is_err());
    assert_eq!(world.len(), 0);
}

#[test]
fn room_overlap_truth_table() {
    let a = rogue_core::resources::Room { x: 2, y: 2, width: 6, height: 5 };
    let b = rogue_core::resources::Room { x: 5, y: 4, width: 6, height: 5 };
    let touching = rogue_core::resources::Room { x: 8, y: 2, width: 4, height: 4 };
    let far = rogue_core::resources::Room { x: 20, y: 20, width: 5, height: 5 };
    assert!(a.intersects(&b));
    assert!(b.intersects(&a));
    // rectangles sharing only a border do not count as intersecting
    assert!(!a.intersects(&touching));
    assert!(!a.intersects(&far));
    assert_eq!(a.centre(), (5, 4));
    assert_eq!(far.centre(), (22, 22));
}

#[test]
fn placement_attempt_accepts_and_rejects() {
    let mut rooms = Vec::new();
    // fits and overlaps nothing: accepted
    assert!(rogue_core::resources::try_place(&mut rooms, 2, 2, 6, 6, 40, 30));
    assert_eq!(rooms.len(), 1);
    // overlaps the accepted room: rejected, list unchanged
    assert!(!rogue_core::resources::try_place(&mut rooms, 3, 3, 6, 6, 40, 30));
    assert_eq!(rooms.len(), 1);
    // clamped below the minimum size near the border: rejected
    assert!(!rogue_core::resources::try_place(&mut rooms, 37, 2, 6, 6, 40, 30));
    assert_eq!(rooms.len(), 1);
    // clamping still leaves the minimum size: accepted
    assert!(rogue_core::resources::try_place(&mut rooms, 20, 20, 14, 14, 40, 30));
    assert_eq!(rooms.len(), 2);
}

#[test]
fn quota_decides_shortfall() {
    let mut rooms = Vec::new();
    assert!(rogue_core::resources::check_spawn_quota(&rooms).is_err());
    assert!(rogue_core::resources::try_place(&mut rooms, 2, 2, 6, 6, 80, 50));
    assert!(rogue_core::resources::try_place(&mut rooms, 20, 2, 6, 6, 80, 50));
    assert_eq!(
        rogue_core::resources::check_spawn_quota(&rooms),
        Err(GenError::RoomShortfall)
    );
    assert!(rogue_core::resources::try_place(&mut rooms, 40, 2, 6, 6, 80, 50));
    assert_eq!(rooms.len(), 3);
    assert!(rogue_core::resources::check_spawn_quota(&rooms).is_ok());
}

#[test]
fn accepted_rooms_stay_inside_the_sampled_range() {
    for seed in [0u64, 42, 31337] {
        let rooms = place_rooms(80, 50, seed);
        for r in &rooms {
            assert!(5 <= r.width && r.width < 15);
            assert!(5 <= r.height && r.height < 15);
            assert!(1 <= r.x && r.x + r.width <= 79);
            assert!(1 <= r.y && r.y + r.height <= 49);
        }
    }
}

#[test]
fn generated_map_keeps_solid_border_and_known_tiles() {
    let mut world = World::new();
    let map = TileMap::generate(&mut world, 80, 50, 42).unwrap();
    for x in 0..80 {
        assert!(map.get(x, 0).unwrap().solid);
        assert!(map.get(x, 49).unwrap().solid);
    }
    for y in 0..50 {
        assert!(map.get(0, y).unwrap().solid);
        assert!(map.get(79, y).unwrap().solid);
    }
    let wall = rogue_core::resources::MapTile::wall();
    let floor = rogue_core::resources::MapTile::floor();
    for (_, _, tile) in map.tile_positions() {
        assert!(tile == wall || tile == floor);
    }
}
