use rogue_core::components::Color;
use rogue_core::components::MoveAction;
use rogue_core::components::Movement;
use rogue_core::components::Position;
use rogue_core::components::Sprite;
use rogue_core::entities;
use rogue_core::resources::Input;
use rogue_core::resources::Resources;
use rogue_core::resources::TileMap;
use rogue_core::resources::TurnState;
use rogue_core::systems::basic_enemy_movement;
use rogue_core::systems::grant_energy;
use rogue_core::systems::player_movement;
use rogue_core::systems::process_movement;
use rogue_core::systems::step_target;
use rogue_core::systems::tick;
use rogue_core::world::World;

fn open_room_resources(width: usize, height: usize) -> Resources {
    let mut map = TileMap::new(width, height);
    for y in 1..height - 1 {
        map.carve_h_corridor(1, width - 2, y);
    }
    Resources { input: Input::new(), turn_state: TurnState::new(), map }
}

fn actor(x: usize, y: usize, player: bool, energy: i32, speed: i32) -> (Position, Sprite, Movement) {
    (
        Position::new(x, y),
        Sprite::new('@', Color::rgb(255, 255, 255)),
        Movement::new(player, energy, speed),
    )
}

#[test]
fn movement_ready_once_energy_reaches_speed() {
    let m = Movement::new(false, 0, 4);
    assert!(!m.ready());
    assert_eq!(m.energy, 0);
    assert_eq!(m.speed, 4);
    assert!(m.move_queue.is_empty());
    let ready = Movement::new(true, 2, 2);
    assert!(ready.ready());
}

#[test]
fn input_and_turn_state_start_cleared() {
    let input = Input::new();
    assert!(!input.up && !input.down && !input.left && !input.right);
    assert!(!TurnState::new().waiting);
}

#[test]
fn energy_grant_is_clamped_to_speed() {
    let mut world = World::new();
    world.spawn(actor(2, 2, false, 0, 2));
    let mut res = open_room_resources(8, 8);
    for _ in 0..5 {
        grant_energy(&mut world, &mut res);
        let m = world.movements[0].as_ref().unwrap();
        assert!(0 <= m.energy && m.energy <= m.speed);
    }
    assert_eq!(world.movements[0].as_ref().unwrap().energy, 2);
}

#[test]
fn gate_rises_when_player_is_ready() {
    let mut world = World::new();
    world.spawn(actor(2, 2, true, 1, 2));
    let mut res = open_room_resources(8, 8);
    grant_energy(&mut world, &mut res);
    assert!(res.turn_state.waiting);
    // while gated, energy stops accruing
    let before = world.movements[0].as_ref().unwrap().energy;
    grant_energy(&mut world, &mut res);
    assert_eq!(world.movements[0].as_ref().unwrap().energy, before);
}

#[test]
fn gated_tick_without_input_freezes_enemies() {
    let mut world = World::new();
    world.spawn(actor(2, 2, true, 2, 2));
    world.spawn(actor(4, 4, false, 1, 1));
    let mut res = open_room_resources(10, 10);
    res.turn_state.waiting = true;
    tick(&mut world, &mut res);
    assert_eq!(world.positions[1], Some(Position::new(4, 4)));
    let enemy = world.movements[1].as_ref().unwrap();
    assert_eq!(enemy.energy, 1);
    assert!(enemy.move_queue.is_empty());
    assert!(res.turn_state.waiting);
}

#[test]
fn ungated_tick_moves_ready_enemy_right() {
    let mut world = World::new();
    world.spawn(actor(4, 4, false, 1, 1));
    let mut res = open_room_resources(10, 10);
    tick(&mut world, &mut res);
    assert_eq!(world.positions[0], Some(Position::new(5, 4)));
    let enemy = world.movements[0].as_ref().unwrap();
    assert_eq!(enemy.energy, 0);
    assert!(enemy.move_queue.is_empty());
}

#[test]
fn blocked_move_keeps_position_and_consumes_turn() {
    let mut world = World::new();
    world.spawn(actor(5, 5, true, 1, 1));
    let mut map = TileMap::new(12, 12);
    map.carve_h_corridor(5, 5, 5);
    let mut res = Resources { input: Input::new(), turn_state: TurnState::new(), map };
    res.input.up = true;
    tick(&mut world, &mut res);
    assert_eq!(world.positions[0], Some(Position::new(5, 5)));
    let m = world.movements[0].as_ref().unwrap();
    assert_eq!(m.energy, 0);
    assert!(m.move_queue.is_empty());
}

#[test]
fn ready_actor_steps_up_onto_floor() {
    let mut world = World::new();
    world.spawn(actor(5, 5, true, 0, 1));
    let mut map = TileMap::new(12, 12);
    map.carve_v_corridor(5, 4, 5);
    let mut res = Resources { input: Input::new(), turn_state: TurnState::new(), map };
    grant_energy(&mut world, &mut res);
    let m = world.movements[0].as_ref().unwrap();
    assert_eq!(m.energy, 1);
    assert!(m.ready());
    assert!(res.turn_state.waiting);
    res.input.up = true;
    player_movement(&mut world, &mut res);
    assert_eq!(world.movements[0].as_ref().unwrap().move_queue[0], MoveAction::Up);
    assert!(!res.turn_state.waiting);
    basic_enemy_movement(&mut world, &mut res);
    process_movement(&mut world, &mut res);
    assert_eq!(world.positions[0], Some(Position::new(5, 4)));
    assert_eq!(world.movements[0].as_ref().unwrap().energy, 0);
}

#[test]
fn left_move_at_column_zero_is_discarded() {
    let mut world = World::new();
    world.spawn(actor(0, 5, true, 1, 1));
    let mut map = TileMap::new(12, 12);
    map.carve_h_corridor(0, 3, 5);
    let mut res = Resources { input: Input::new(), turn_state: TurnState::new(), map };
    res.input.left = true;
    tick(&mut world, &mut res);
    assert_eq!(world.positions[0], Some(Position::new(0, 5)));
    // out-of-bounds attempts do not consume the turn
    let m = world.movements[0].as_ref().unwrap();
    assert_eq!(m.energy, 1);
    assert!(m.move_queue.is_empty());
}

#[test]
fn simultaneous_directions_enqueue_in_fixed_order() {
    let mut world = World::new();
    world.spawn(actor(5, 5, true, 1, 1));
    let mut res = open_room_resources(12, 12);
    res.turn_state.waiting = true;
    res.input.up = true;
    res.input.right = true;
    player_movement(&mut world, &mut res);
    let queue: Vec<MoveAction> =
        world.movements[0].as_ref().unwrap().move_queue.iter().copied().collect();
    assert_eq!(queue, vec![MoveAction::Up, MoveAction::Right]);
    assert!(!res.turn_state.waiting);
    // first tick's resolver consumes the up intent
    process_movement(&mut world, &mut res);
    assert_eq!(world.positions[0], Some(Position::new(5, 4)));
    assert_eq!(
        world.movements[0].as_ref().unwrap().move_queue.front(),
        Some(&MoveAction::Right)
    );
    // the next tick consumes the right intent once the actor is ready again
    res.input = Input::new();
    tick(&mut world, &mut res);
    assert_eq!(world.positions[0], Some(Position::new(6, 4)));
    assert!(world.movements[0].as_ref().unwrap().move_queue.is_empty());
}

#[test]
fn energy_stays_within_bounds_over_many_ticks() {
    let mut world = World::new();
    let mut res = Resources::new(&mut world, 80, 50, 42).unwrap();
    for step in 0..200 {
        res.input.up = step % 3 == 0;
        res.input.down = step % 5 == 0;
        res.input.left = step % 7 == 0;
        res.input.right = step % 2 == 0;
        tick(&mut world, &mut res);
        for slot in &world.movements {
            if let Some(m) = slot {
                assert!(0 <= m.energy && m.energy <= m.speed);
            }
        }
    }
}

#[test]
fn step_target_clips_at_every_border() {
    assert_eq!(step_target(Position::new(0, 0), MoveAction::Left, 5, 5), None);
    assert_eq!(step_target(Position::new(0, 0), MoveAction::Up, 5, 5), None);
    assert_eq!(step_target(Position::new(4, 4), MoveAction::Right, 5, 5), None);
    assert_eq!(step_target(Position::new(4, 4), MoveAction::Down, 5, 5), None);
    assert_eq!(
        step_target(Position::new(2, 2), MoveAction::Up, 5, 5),
        Some(Position::new(2, 1))
    );
    assert_eq!(
        step_target(Position::new(2, 2), MoveAction::Right, 5, 5),
        Some(Position::new(3, 2))
    );
}

#[test]
fn spawn_despawn_and_drawables() {
    let mut world = World::new();
    let player = entities::player(3, 4);
    let snake = entities::snake(6, 7);
    let rat = entities::rat(1, 1);
    assert_eq!(player.1.character, '@');
    assert_eq!(snake.2.speed, 1);
    assert_eq!(rat.2.speed, 4);
    assert!(!snake.2.player_input && !rat.2.player_input);
    let id0 = world.spawn(player);
    let id1 = world.spawn(snake);
    assert_eq!((id0, id1), (0, 1));
    assert_eq!(world.len(), 2);
    let drawn = world.drawables();
    assert_eq!(drawn.len(), 2);
    assert_eq!(drawn[0].0, Position::new(3, 4));
    assert_eq!(drawn[1].1.character, 'S');
    world.despawn(0);
    assert_eq!(world.len(), 2);
    assert_eq!(world.positions[0], None);
    let drawn = world.drawables();
    assert_eq!(drawn.len(), 1);
    assert_eq!(drawn[0].1.character, 'S');
    world.clear();
    assert_eq!(world.len(), 0);
}
