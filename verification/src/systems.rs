//! The per-tick simulation phases, in their fixed order: grant energy and
//! update the turn gate, collect player intents, collect scripted enemy
//! intents, then resolve movement.

use vstd::prelude::*;

use crate::components::MoveAction;
use crate::components::Movement;
use crate::components::Position;
use crate::resources::Input;
use crate::resources::Resources;
use crate::resources::TileMap;
use crate::world::World;

verus! {

/// The unit-step target of an intent from `p`, or `None` when the step
/// leaves the `w x h` grid.
pub open spec fn step_spec(p: Position, a: MoveAction, w: int, h: int) -> Option<Position> {
    let cx: int = match a {
        MoveAction::Left => p.x - 1,
        MoveAction::Right => p.x + 1,
        _ => p.x as int,
    };
    let cy: int = match a {
        MoveAction::Up => p.y - 1,
        MoveAction::Down => p.y + 1,
        _ => p.y as int,
    };
    if 0 <= cx < w && 0 <= cy < h {
        Some(Position { x: cx as usize, y: cy as usize })
    } else {
        None
    }
}

/// Computes the tentative target cell of one intent, bounds-checked against
/// the grid.
pub fn step_target(p: Position, a: MoveAction, map_width: usize, map_height: usize) -> (r: Option<
    Position,
>)
    requires
        1 <= map_width,
        1 <= map_height,
    ensures
        r == step_spec(p, a, map_width as int, map_height as int),
{
    match a {
        MoveAction::Up => {
            if p.x < map_width && p.y >= 1 && p.y - 1 < map_height {
                Some(Position { x: p.x, y: p.y - 1 })
            } else {
                None
            }
        },
        MoveAction::Down => {
            if p.x < map_width && p.y < map_height - 1 {
                Some(Position { x: p.x, y: p.y + 1 })
            } else {
                None
            }
        },
        MoveAction::Left => {
            if p.y < map_height && p.x >= 1 && p.x - 1 < map_width {
                Some(Position { x: p.x - 1, y: p.y })
            } else {
                None
            }
        },
        MoveAction::Right => {
            if p.y < map_height && p.x < map_width - 1 {
                Some(Position { x: p.x + 1, y: p.y })
            } else {
                None
            }
        },
    }
}

/// The two movement slots hold the same observable state: same controller,
/// energy, speed, and queued intents.
pub open spec fn movement_unchanged(a: Option<Movement>, b: Option<Movement>) -> bool {
    match a {
        None => b is None,
        Some(m) => b matches Some(m2) && m2.player_input == m.player_input && m2.energy == m.energy
            && m2.speed == m.speed && m2.move_queue@ == m.move_queue@,
    }
}

/// How one tick of energy accrual changes a movement slot: energy rises by
/// one, clamped to `speed`; nothing else changes.
pub open spec fn granted_rel(a: Option<Movement>, b: Option<Movement>) -> bool {
    match a {
        None => b is None,
        Some(m) => b matches Some(m2) && m2.player_input == m.player_input && m2.speed == m.speed
            && m2.move_queue@ == m.move_queue@ && m2.energy == vstd::math::min(
            m.energy as int + 1,
            m.speed as int,
        ),
    }
}

/// A player-controlled actor is ready to act and has no intent queued: the
/// condition that raises the turn gate.
pub open spec fn some_player_ready_unqueued(w: World) -> bool {
    exists|i: int|
        {
            &&& 0 <= i < w.spec_len()
            &&& (#[trigger] w.movements@[i]) matches Some(m)
            &&& m.player_input
            &&& m.energy >= m.speed
            &&& m.move_queue@.len() == 0
        }
}

/// A player-controlled actor is ready to act.
pub open spec fn some_player_ready(w: World) -> bool {
    exists|i: int|
        {
            &&& 0 <= i < w.spec_len()
            &&& (#[trigger] w.movements@[i]) matches Some(m)
            &&& m.player_input
            &&& m.energy >= m.speed
        }
}

/// At least one direction of the snapshot is asserted.
pub open spec fn any_direction(inp: Input) -> bool {
    inp.up || inp.down || inp.left || inp.right
}

/// The intents one input snapshot enqueues, in the fixed order up, down,
/// left, right.
pub open spec fn input_intents(inp: Input) -> Seq<MoveAction> {
    let s0 = Seq::<MoveAction>::empty();
    let s1 = if inp.up {
        s0.push(MoveAction::Up)
    } else {
        s0
    };
    let s2 = if inp.down {
        s1.push(MoveAction::Down)
    } else {
        s1
    };
    let s3 = if inp.left {
        s2.push(MoveAction::Left)
    } else {
        s2
    };
    if inp.right {
        s3.push(MoveAction::Right)
    } else {
        s3
    }
}

/// How the player-input phase changes a movement slot: a ready
/// player-controlled actor has the snapshot's intents appended; every other
/// slot keeps its state.
pub open spec fn player_enqueue_rel(a: Option<Movement>, b: Option<Movement>, inp: Input) -> bool {
    match a {
        None => b is None,
        Some(m) => b matches Some(m2) && m2.player_input == m.player_input && m2.speed == m.speed
            && m2.energy == m.energy && m2.move_queue@ == (if m.player_input && m.energy >= m.speed {
            m.move_queue@ + input_intents(inp)
        } else {
            m.move_queue@
        }),
    }
}

/// How the scripted-enemy phase changes a movement slot: a ready non-player
/// actor enqueues exactly one fixed intent (move right); every other slot
/// keeps its state.
pub open spec fn enemy_enqueue_rel(a: Option<Movement>, b: Option<Movement>) -> bool {
    match a {
        None => b is None,
        Some(m) => b matches Some(m2) && m2.player_input == m.player_input && m2.speed == m.speed
            && m2.energy == m.energy && m2.move_queue@ == (if !m.player_input && m.energy
            >= m.speed {
            m.move_queue@.push(MoveAction::Right)
        } else {
            m.move_queue@
        }),
    }
}

/// How the resolver changes one actor's movement and position slots. An
/// actor owning both components with a queued intent has the front intent
/// popped and validated: a target off the grid discards it with energy kept;
/// a solid target discards it and consumes the turn (energy 0); an open
/// target commits the move and consumes the turn. Everyone else is left
/// alone.
pub open spec fn resolve_rel(
    map: TileMap,
    m_old: Option<Movement>,
    p_old: Option<Position>,
    m_new: Option<Movement>,
    p_new: Option<Position>,
) -> bool {
    match (m_old, p_old) {
        (Some(m), Some(p)) => {
            if m.move_queue@.len() == 0 {
                movement_unchanged(m_old, m_new) && p_new == p_old
            } else {
                m_new matches Some(m2) && {
                    &&& m2.player_input == m.player_input
                    &&& m2.speed == m.speed
                    &&& m2.move_queue@ == m.move_queue@.drop_first()
                    &&& match step_spec(p, m.move_queue@[0], map.spec_width(), map.spec_height()) {
                        None => m2.energy == m.energy && p_new == p_old,
                        Some(t) => {
                            if map.tile_at(t.x as int, t.y as int).solid {
                                m2.energy == 0 && p_new == p_old
                            } else {
                                m2.energy == 0 && p_new == Some(t)
                            }
                        },
                    }
                }
            }
        },
        _ => movement_unchanged(m_old, m_new) && p_new == p_old,
    }
}

/// Actor `i` is a player-controlled actor whose front intent will commit
/// this tick: the event that clears the turn gate.
pub open spec fn player_commits_at(map: TileMap, w: World, i: int) -> bool {
    &&& w.movements@[i] matches Some(m) && m.player_input && m.move_queue@.len() > 0 && (
    w.positions@[i] matches Some(p) && (step_spec(
        p,
        m.move_queue@[0],
        map.spec_width(),
        map.spec_height(),
    ) matches Some(t) && !map.tile_at(t.x as int, t.y as int).solid))
}

pub open spec fn some_player_commits(map: TileMap, w: World) -> bool {
    exists|i: int| 0 <= i < w.spec_len() && #[trigger] player_commits_at(map, w, i)
}

/// No non-player actor that owns a position holds a queued intent; between
/// ticks this always holds, because the scripted phase enqueues at most one
/// intent and the resolver drains it the same tick.
pub open spec fn enemies_idle(w: World) -> bool {
    forall|i: int|
        0 <= i < w.spec_len() ==> ((#[trigger] w.movements@[i]) matches Some(m) ==> ((
        !m.player_input && w.positions@[i] is Some) ==> m.move_queue@.len() == 0))
}

/// Every actor that owns a position has an empty intent queue: the resting
/// state between ticks once all queued intents have been resolved.
pub open spec fn intents_drained(w: World) -> bool {
    forall|i: int|
        0 <= i < w.spec_len() ==> ((#[trigger] w.movements@[i]) matches Some(m) ==> (
        w.positions@[i] is Some ==> m.move_queue@.len() == 0))
}

/// Every stored position lies within the map's bounds. Generation spawns
/// actors on open cells and the resolver commits only bounds-checked
/// targets, so the simulation preserves this from spawn onward.
pub open spec fn positions_in_map(w: World, map: TileMap) -> bool {
    forall|i: int|
        0 <= i < w.spec_len() ==> ((#[trigger] w.positions@[i]) matches Some(p) ==> map.in_bounds(
            p.x as int,
            p.y as int,
        ))
}

/// A freshly generated world is ready for the scheduler: the store is
/// well-formed, every intent queue is empty, and every spawn position lies
/// on the generated map.
pub proof fn lemma_generated_world_ready(
    w_old: World,
    w_new: World,
    map: TileMap,
    map_width: int,
    map_height: int,
)
    requires
        crate::resources::generate_post(w_old, w_new, map, map_width, map_height),
        w_old.spec_len() == 0,
    ensures
        w_new.wf(),
        intents_drained(w_new),
        enemies_idle(w_new),
        positions_in_map(w_new, map),
{
    assert forall|i: int|
        0 <= i < w_new.spec_len() implies ((#[trigger] w_new.movements@[i]) matches Some(m)
        ==> m.move_queue@.len() == 0) by {
        assert(i == 0 || i == 1 || i == 2);
    }
    assert forall|i: int|
        0 <= i < w_new.spec_len() implies ((#[trigger] w_new.positions@[i]) matches Some(p)
        ==> map.in_bounds(p.x as int, p.y as int)) by {
        assert(i == 0 || i == 1 || i == 2);
    }
}

/// The exact effect of the energy-grant phase on the whole simulation
/// state: gated, nothing changes; otherwise every movement slot accrues
/// energy and the turn gate is set exactly when some player-controlled
/// actor is ready with an empty intent queue.
pub open spec fn grant_energy_rel(w0: World, r0: Resources, w1: World, r1: Resources) -> bool {
    &&& w1.spec_len() == w0.spec_len()
    &&& w1.movements@.len() == w0.movements@.len()
    &&& w1.positions@ == w0.positions@
    &&& w1.sprites@ == w0.sprites@
    &&& r1.input == r0.input
    &&& r1.map == r0.map
    &&& (r0.turn_state.waiting ==> w1 == w0 && r1 == r0)
    &&& (!r0.turn_state.waiting ==> {
        &&& forall|i: int|
            0 <= i < w0.spec_len() ==> #[trigger] granted_rel(w0.movements@[i], w1.movements@[i])
        &&& r1.turn_state.waiting == some_player_ready_unqueued(w1)
    })
}

/// The exact effect of the player-intent phase: ungated, nothing changes;
/// gated, every ready player-controlled actor has the snapshot's intents
/// appended and the turn gate clears exactly when any intent was enqueued.
pub open spec fn player_movement_rel(w1: World, r1: Resources, w2: World, r2: Resources) -> bool {
    &&& w2.spec_len() == w1.spec_len()
    &&& w2.movements@.len() == w1.movements@.len()
    &&& w2.positions@ == w1.positions@
    &&& w2.sprites@ == w1.sprites@
    &&& r2.input == r1.input
    &&& r2.map == r1.map
    &&& (!r1.turn_state.waiting ==> w2 == w1 && r2 == r1)
    &&& (r1.turn_state.waiting ==> {
        &&& forall|i: int|
            0 <= i < w1.spec_len() ==> #[trigger] player_enqueue_rel(
                w1.movements@[i],
                w2.movements@[i],
                r1.input,
            )
        &&& r2.turn_state.waiting == !(any_direction(r1.input) && some_player_ready(w1))
    })
}

/// The exact effect of the scripted-enemy phase: gated, nothing changes;
/// otherwise every ready non-player actor enqueues one fixed intent.
pub open spec fn enemy_movement_rel(w2: World, r2: Resources, w3: World, r3: Resources) -> bool {
    &&& w3.spec_len() == w2.spec_len()
    &&& w3.movements@.len() == w2.movements@.len()
    &&& w3.positions@ == w2.positions@
    &&& w3.sprites@ == w2.sprites@
    &&& r3 == r2
    &&& (r2.turn_state.waiting ==> w3 == w2)
    &&& (!r2.turn_state.waiting ==> forall|i: int|
        0 <= i < w2.spec_len() ==> #[trigger] enemy_enqueue_rel(
            w2.movements@[i],
            w3.movements@[i],
        ))
}

/// The exact effect of the movement-resolution phase: every actor's slots
/// change per `resolve_rel`, and the turn gate clears exactly when a
/// player-controlled actor commits a move.
pub open spec fn process_movement_rel(w3: World, r3: Resources, w4: World, r4: Resources) -> bool {
    &&& w4.spec_len() == w3.spec_len()
    &&& w4.movements@.len() == w3.movements@.len()
    &&& w4.positions@.len() == w3.positions@.len()
    &&& w4.sprites@ == w3.sprites@
    &&& r4.input == r3.input
    &&& r4.map == r3.map
    &&& forall|i: int|
        0 <= i < w3.spec_len() ==> #[trigger] resolve_rel(
            r3.map,
            w3.movements@[i],
            w3.positions@[i],
            w4.movements@[i],
            w4.positions@[i],
        )
    &&& r4.turn_state.waiting == (r3.turn_state.waiting && !some_player_commits(r3.map, w3))
}

/// The composed effect of one full tick: the four phase effects, chained in
/// their fixed order through the intermediate states.
pub open spec fn tick_rel(w0: World, r0: Resources, w4: World, r4: Resources) -> bool {
    exists|w1: World, r1: Resources, w2: World, r2: Resources, w3: World, r3: Resources|
        #![trigger grant_energy_rel(w0, r0, w1, r1), player_movement_rel(w1, r1, w2, r2),
            enemy_movement_rel(w2, r2, w3, r3), process_movement_rel(w3, r3, w4, r4)]
        {
            &&& grant_energy_rel(w0, r0, w1, r1)
            &&& player_movement_rel(w1, r1, w2, r2)
            &&& enemy_movement_rel(w2, r2, w3, r3)
            &&& process_movement_rel(w3, r3, w4, r4)
        }
}

/// Scheduler phase one. While the turn gate is set nothing moves: the
/// world and resources are untouched. Otherwise every actor's energy rises
/// by one, clamped to its speed, and the turn gate is set exactly when some
/// player-controlled actor is ready with an empty intent queue.
pub fn grant_energy(world: &mut World, resources: &mut Resources)
    requires
        old(world).wf(),
    ensures
        final(world).wf(),
        grant_energy_rel(*old(world), *old(resources), *final(world), *final(resources)),
{
    if resources.turn_state.waiting {
        return ;
    }
    let n = world.movements.len();
    let mut player_ready = false;
    let mut i: usize = 0;
    while i < n
        invariant
            old(world).wf(),
            n == old(world).spec_len(),
            world.spec_len() == old(world).spec_len(),
            world.movements@.len() == n,
            world.positions@ == old(world).positions@,
            world.sprites@ == old(world).sprites@,
            i <= n,
            forall|j: int|
                0 <= j < i ==> #[trigger] granted_rel(
                    old(world).movements@[j],
                    world.movements@[j],
                ),
            forall|j: int| i <= j < n ==> world.movements@[j] == old(world).movements@[j],
            world.wf(),
            player_ready == exists|j: int|
                {
                    &&& 0 <= j < i
                    &&& (#[trigger] world.movements@[j]) matches Some(m)
                    &&& m.player_input
                    &&& m.energy >= m.speed
                    &&& m.move_queue@.len() == 0
                },
        decreases n - i,
    {
        let ghost w0 = world.movements@;
        let slot = &mut world.movements[i];
        match slot {
            Some(m) => {
                let e = if m.energy < m.speed {
                    m.energy + 1
                } else {
                    m.speed
                };
                m.energy = e;
                if m.player_input && m.energy >= m.speed && m.move_queue.len() == 0 {
                    player_ready = true;
                }
            },
            None => {},
        }
        proof {
            assert(forall|j: int| 0 <= j < n && j != i ==> world.movements@[j] == w0[j]);
        }
        i = i + 1;
    }
    resources.turn_state.waiting = player_ready;
}

/// Scheduler phase two: player intents. Only while the turn gate is set,
/// every ready player-controlled actor enqueues one intent per asserted
/// direction, in the fixed order up, down, left, right; the turn gate
/// clears the moment any intent is enqueued. With no direction asserted
/// nothing changes and the turn gate stays set.
pub fn player_movement(world: &mut World, resources: &mut Resources)
    requires
        old(world).wf(),
    ensures
        final(world).wf(),
        player_movement_rel(*old(world), *old(resources), *final(world), *final(resources)),
{
    if !resources.turn_state.waiting {
        return ;
    }
    let n = world.movements.len();
    let up = resources.input.up;
    let down = resources.input.down;
    let left = resources.input.left;
    let right = resources.input.right;
    let mut cleared = false;
    let mut i: usize = 0;
    while i < n
        invariant
            old(world).wf(),
            n == old(world).spec_len(),
            world.spec_len() == n,
            world.movements@.len() == n,
            world.positions@ == old(world).positions@,
            world.sprites@ == old(world).sprites@,
            world.wf(),
            i <= n,
            up == old(resources).input.up,
            down == old(resources).input.down,
            left == old(resources).input.left,
            right == old(resources).input.right,
            forall|j: int|
                0 <= j < i ==> #[trigger] player_enqueue_rel(
                    old(world).movements@[j],
                    world.movements@[j],
                    old(resources).input,
                ),
            forall|j: int| i <= j < n ==> world.movements@[j] == old(world).movements@[j],
            cleared == ((up || down || left || right) && exists|j: int|
                {
                    &&& 0 <= j < i
                    &&& (#[trigger] old(world).movements@[j]) matches Some(m)
                    &&& m.player_input
                    &&& m.energy >= m.speed
                }),
        decreases n - i,
    {
        let ghost w0 = world.movements@;
        let slot = &mut world.movements[i];
        match slot {
            Some(m) => {
                if m.player_input && m.energy >= m.speed {
                    if up {
                        m.move_queue.push_back(MoveAction::Up);
                    }
                    if down {
                        m.move_queue.push_back(MoveAction::Down);
                    }
                    if left {
                        m.move_queue.push_back(MoveAction::Left);
                    }
                    if right {
                        m.move_queue.push_back(MoveAction::Right);
                    }
                    if up || down || left || right {
                        cleared = true;
                    }
                }
            },
            None => {},
        }
        proof {
            assert(forall|j: int| 0 <= j < n && j != i ==> world.movements@[j] == w0[j]);
            assert(w0[i as int] matches Some(m) ==> ((m.player_input && m.energy >= m.speed) ==> (
            world.movements@[i as int] matches Some(m2) ==> m2.move_queue@ =~= m.move_queue@
                + input_intents(old(resources).input))));
        }
        i = i + 1;
    }
    if cleared {
        resources.turn_state.waiting = false;
    }
}

/// Scheduler phase three: scripted enemies. Only while the turn gate is
/// clear, every ready non-player actor enqueues exactly one fixed intent:
/// move right.
pub fn basic_enemy_movement(world: &mut World, resources: &mut Resources)
    requires
        old(world).wf(),
    ensures
        final(world).wf(),
        enemy_movement_rel(*old(world), *old(resources), *final(world), *final(resources)),
{
    if resources.turn_state.waiting {
        return ;
    }
    let n = world.movements.len();
    let mut i: usize = 0;
    while i < n
        invariant
            old(world).wf(),
            n == old(world).spec_len(),
            world.spec_len() == n,
            world.movements@.len() == n,
            world.positions@ == old(world).positions@,
            world.sprites@ == old(world).sprites@,
            world.wf(),
            i <= n,
            forall|j: int|
                0 <= j < i ==> #[trigger] enemy_enqueue_rel(
                    old(world).movements@[j],
                    world.movements@[j],
                ),
            forall|j: int| i <= j < n ==> world.movements@[j] == old(world).movements@[j],
        decreases n - i,
    {
        let ghost w0 = world.movements@;
        let slot = &mut world.movements[i];
        match slot {
            Some(m) => {
                if !m.player_input && m.energy >= m.speed {
                    m.move_queue.push_back(MoveAction::Right);
                }
            },
            None => {},
        }
        proof {
            assert(forall|j: int| 0 <= j < n && j != i ==> world.movements@[j] == w0[j]);
        }
        i = i + 1;
    }
}

/// The movement resolver. For every actor owning both a movement state and
/// a position, the front queued intent (if any) is popped and validated
/// against the map: an off-grid target is discarded without consuming the
/// turn, a solid target wastes the turn (energy resets to 0, no move), and
/// an open target commits the move and resets energy. A committing player
/// drops the turn gate.
pub fn process_movement(world: &mut World, resources: &mut Resources)
    requires
        old(world).wf(),
        old(resources).map.wf(),
    ensures
        final(world).wf(),
        process_movement_rel(*old(world), *old(resources), *final(world), *final(resources)),
        positions_in_map(*old(world), old(resources).map) ==> positions_in_map(
            *final(world),
            old(resources).map,
        ),
        forall|i: int|
            0 <= i < old(world).spec_len() ==> ((#[trigger] old(world).movements@[i]) matches Some(
                m,
            ) ==> (m.move_queue@.len() == 0 ==> final(world).positions@[i] == old(
                world,
            ).positions@[i])),
{
    let n = world.movements.len();
    let map_width = resources.map.width();
    let map_height = resources.map.height();
    let mut i: usize = 0;
    while i < n
        invariant
            old(world).wf(),
            old(resources).map.wf(),
            n == old(world).spec_len(),
            world.spec_len() == n,
            world.movements@.len() == n,
            world.positions@.len() == n,
            world.sprites@ == old(world).sprites@,
            world.wf(),
            i <= n,
            map_width == old(resources).map.spec_width(),
            map_height == old(resources).map.spec_height(),
            1 <= map_width,
            1 <= map_height,
            resources.input == old(resources).input,
            resources.map == old(resources).map,
            forall|j: int|
                0 <= j < i ==> #[trigger] resolve_rel(
                    old(resources).map,
                    old(world).movements@[j],
                    old(world).positions@[j],
                    world.movements@[j],
                    world.positions@[j],
                ),
            forall|j: int|
                i <= j < n ==> world.movements@[j] == old(world).movements@[j]
                    && world.positions@[j] == old(world).positions@[j],
            resources.turn_state.waiting == (old(resources).turn_state.waiting && !(exists|j: int|
                0 <= j < i && #[trigger] player_commits_at(
                    old(resources).map,
                    *old(world),
                    j,
                ))),
        decreases n - i,
    {
        let ghost w0m = world.movements@;
        let ghost w0p = world.positions@;
        let mut committed = false;
        let mut target = Position { x: 0, y: 0 };
        let mut is_player = false;
        let p_opt = world.positions[i];
        match p_opt {
            None => {},
            Some(p) => {
                let taken = world.movements[i].take();
                match taken {
                    Some(mut m) => {
                        match m.move_queue.pop_front() {
                            None => {},
                            Some(a) => {
                                match step_target(p, a, map_width, map_height) {
                                    None => {},
                                    Some(t) => {
                                        let solid = match resources.map.get(t.x, t.y) {
                                            Some(tile) => tile.solid,
                                            None => true,
                                        };
                                        if solid {
                                            m.energy = 0;
                                        } else {
                                            m.energy = 0;
                                            committed = true;
                                            target = t;
                                            is_player = m.player_input;
                                        }
                                    },
                                }
                            },
                        }
                        world.movements[i] = Some(m);
                    },
                    None => {},
                }
                if committed {
                    world.positions[i] = Some(target);
                    if is_player {
                        resources.turn_state.waiting = false;
                    }
                }
            },
        }
        proof {
            assert(forall|j: int|
                0 <= j < n && j != i ==> world.movements@[j] == w0m[j] && world.positions@[j]
                    == w0p[j]);
            assert(w0p[i as int] is Some ==> (w0m[i as int] matches Some(m) ==> (
            m.move_queue@.len() > 0 ==> (world.movements@[i as int] matches Some(m2)
                ==> m2.move_queue@ =~= m.move_queue@.drop_first()))));
            assert(resolve_rel(
                old(resources).map,
                w0m[i as int],
                w0p[i as int],
                world.movements@[i as int],
                world.positions@[i as int],
            ));
            assert(player_commits_at(old(resources).map, *old(world), i as int) == (committed
                && is_player));
        }
        i = i + 1;
    }
    proof {
        assert forall|i: int|
            0 <= i < n implies ((#[trigger] old(world).movements@[i]) matches Some(m) ==> (
        m.move_queue@.len() == 0 ==> world.positions@[i] == old(world).positions@[i])) by {
            assert(resolve_rel(
                old(resources).map,
                old(world).movements@[i],
                old(world).positions@[i],
                world.movements@[i],
                world.positions@[i],
            ));
        }
        if positions_in_map(*old(world), old(resources).map) {
            assert forall|i: int|
                0 <= i < n implies ((#[trigger] world.positions@[i]) matches Some(p) ==> old(
                resources,
            ).map.in_bounds(p.x as int, p.y as int)) by {
                assert(resolve_rel(
                    old(resources).map,
                    old(world).movements@[i],
                    old(world).positions@[i],
                    world.movements@[i],
                    world.positions@[i],
                ));
            }
        }
    }
}

/// A blocked move never changes the actor's position but does consume the
/// turn: when the front intent's target is an in-bounds solid cell, the
/// resolver keeps the position and resets the energy to 0.
pub proof fn lemma_blocked_move_consumes_turn(
    map: TileMap,
    m: Movement,
    p: Position,
    m_new: Option<Movement>,
    p_new: Option<Position>,
)
    requires
        resolve_rel(map, Some(m), Some(p), m_new, p_new),
        m.move_queue@.len() > 0,
        step_spec(p, m.move_queue@[0], map.spec_width(), map.spec_height()) matches Some(t)
            && map.tile_at(t.x as int, t.y as int).solid,
    ensures
        p_new == Some(p),
        m_new matches Some(m2) && m2.energy == 0,
{
}

/// One full simulation tick, the fixed phase order of the engine: grant
/// energy and update the turn gate, collect player intents, collect scripted
/// enemy intents, resolve movement. Preserves the store's invariants (every
/// energy stays within `[0, speed]`, every position inside the map), keeps
/// non-player actors drained of intents between ticks, freezes every
/// non-player actor on a gated tick with no asserted direction, and on such
/// a tick with all intents drained changes nothing at all and leaves the
/// turn gate set.
pub fn tick(world: &mut World, resources: &mut Resources)
    requires
        old(world).wf(),
        old(resources).map.wf(),
    ensures
        final(world).wf(),
        tick_rel(*old(world), *old(resources), *final(world), *final(resources)),
        final(world).spec_len() == old(world).spec_len(),
        final(world).sprites@ == old(world).sprites@,
        final(resources).input == old(resources).input,
        final(resources).map == old(resources).map,
        enemies_idle(*old(world)) ==> enemies_idle(*final(world)),
        positions_in_map(*old(world), old(resources).map) ==> positions_in_map(
            *final(world),
            old(resources).map,
        ),
        (old(resources).turn_state.waiting && !any_direction(old(resources).input)
            && intents_drained(*old(world))) ==> {
            &&& forall|i: int|
                0 <= i < old(world).spec_len() ==> (movement_unchanged(
                    old(world).movements@[i],
                    final(world).movements@[i],
                ) && final(world).positions@[i] == old(world).positions@[i])
            &&& final(resources).turn_state.waiting
        },
        (old(resources).turn_state.waiting && !any_direction(old(resources).input) && enemies_idle(
            *old(world),
        )) ==> forall|i: int|
            0 <= i < old(world).spec_len() ==> ((#[trigger] old(world).movements@[i]) matches Some(
                m,
            ) ==> (!m.player_input ==> (movement_unchanged(
                old(world).movements@[i],
                final(world).movements@[i],
            ) && final(world).positions@[i] == old(world).positions@[i]))),
{
    grant_energy(world, resources);
    let ghost w1 = *world;
    let ghost r1 = *resources;
    player_movement(world, resources);
    let ghost w2 = *world;
    let ghost r2 = *resources;
    basic_enemy_movement(world, resources);
    let ghost w3 = *world;
    let ghost r3 = *resources;
    process_movement(world, resources);
    proof {
        assert(grant_energy_rel(*old(world), *old(resources), w1, r1));
        assert(player_movement_rel(w1, r1, w2, r2));
        assert(enemy_movement_rel(w2, r2, w3, r3));
        assert(process_movement_rel(w3, r3, *world, *resources));
        assert(tick_rel(*old(world), *old(resources), *world, *resources));
        let n = old(world).spec_len();
        if !old(resources).turn_state.waiting {
            assert forall|i: int| 0 <= i < n implies (#[trigger] world.movements@[i]) matches Some(
                m4,
            ) ==> ((!m4.player_input && world.positions@[i] is Some) ==> (enemies_idle(*old(world))
                ==> m4.move_queue@.len() == 0)) by {
                assert(granted_rel(old(world).movements@[i], w1.movements@[i]));
                if r1.turn_state.waiting {
                    assert(player_enqueue_rel(w1.movements@[i], w2.movements@[i], r1.input));
                } else {
                    assert(w2 == w1);
                }
                if r2.turn_state.waiting {
                    assert(w3 == w2);
                } else {
                    assert(enemy_enqueue_rel(w2.movements@[i], w3.movements@[i]));
                }
                assert(resolve_rel(
                    r3.map,
                    w3.movements@[i],
                    w3.positions@[i],
                    world.movements@[i],
                    world.positions@[i],
                ));
            }
        } else {
            assert(w1 == *old(world) && r1 == *old(resources));
            if !any_direction(old(resources).input) {
                assert(input_intents(r1.input) == Seq::<MoveAction>::empty());
                assert forall|i: int| 0 <= i < n implies (#[trigger] old(
                    world,
                ).movements@[i]) matches Some(m) ==> (((!m.player_input && enemies_idle(
                    *old(world),
                )) || m.move_queue@.len() == 0 || old(world).positions@[i] is None) ==> (
                movement_unchanged(
                    old(world).movements@[i],
                    world.movements@[i],
                ) && world.positions@[i] == old(world).positions@[i])) by {
                    assert(player_enqueue_rel(w1.movements@[i], w2.movements@[i], r1.input));
                    assert(w1.movements@[i] matches Some(m1) ==> (w2.movements@[i] matches Some(
                        m2,
                    ) ==> m2.move_queue@ =~= m1.move_queue@));
                    assert(w3 == w2);
                    assert(resolve_rel(
                        r3.map,
                        w3.movements@[i],
                        w3.positions@[i],
                        world.movements@[i],
                        world.positions@[i],
                    ));
                }
                assert forall|i: int| 0 <= i < n implies (#[trigger] world.movements@[i]) matches Some(
                    m4,
                ) ==> ((!m4.player_input && world.positions@[i] is Some) ==> (enemies_idle(
                    *old(world),
                ) ==> m4.move_queue@.len() == 0)) by {
                    assert(player_enqueue_rel(w1.movements@[i], w2.movements@[i], r1.input));
                    assert(w3 == w2);
                    assert(resolve_rel(
                        r3.map,
                        w3.movements@[i],
                        w3.positions@[i],
                        world.movements@[i],
                        world.positions@[i],
                    ));
                }
                if intents_drained(*old(world)) {
                    assert forall|i: int| 0 <= i < n implies (movement_unchanged(
                        old(world).movements@[i],
                        world.movements@[i],
                    ) && world.positions@[i] == old(world).positions@[i]) by {
                        assert(player_enqueue_rel(w1.movements@[i], w2.movements@[i], r1.input));
                        assert(w1.movements@[i] matches Some(m1) ==> (
                        w2.movements@[i] matches Some(m2) ==> m2.move_queue@
                            =~= m1.move_queue@));
                        assert(w3 == w2);
                        assert(resolve_rel(
                            r3.map,
                            w3.movements@[i],
                            w3.positions@[i],
                            world.movements@[i],
                            world.positions@[i],
                        ));
                    }
                    assert forall|i: int| 0 <= i < n implies !player_commits_at(
                        r3.map,
                        w3,
                        i,
                    ) by {
                        assert(player_enqueue_rel(w1.movements@[i], w2.movements@[i], r1.input));
                        assert(w1.movements@[i] matches Some(m1) ==> (
                        w2.movements@[i] matches Some(m2) ==> m2.move_queue@
                            =~= m1.move_queue@));
                        assert(w3 == w2);
                    }
                    assert(!some_player_commits(r3.map, w3));
                    assert(resources.turn_state.waiting);
                }
            } else {
                assert forall|i: int| 0 <= i < n implies (#[trigger] world.movements@[i]) matches Some(
                    m4,
                ) ==> ((!m4.player_input && world.positions@[i] is Some) ==> (enemies_idle(
                    *old(world),
                ) ==> m4.move_queue@.len() == 0)) by {
                    assert(player_enqueue_rel(w1.movements@[i], w2.movements@[i], r1.input));
                    if !r2.turn_state.waiting {
                        assert(enemy_enqueue_rel(w2.movements@[i], w3.movements@[i]));
                    } else {
                        assert(w3 == w2);
                    }
                    assert(resolve_rel(
                        r3.map,
                        w3.movements@[i],
                        w3.positions@[i],
                        world.movements@[i],
                        world.positions@[i],
                    ));
                }
            }
        }
    }
}

} // verus!
