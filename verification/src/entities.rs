//! Spawn bundles for the three actor kinds the generator places.

use vstd::prelude::*;

use crate::components::Color;
use crate::components::MoveAction;
use crate::components::Movement;
use crate::components::Position;
use crate::components::Sprite;

verus! {

/// The player actor: starts with full energy, ready to act at once.
pub fn player(x: usize, y: usize) -> (b: (Position, Sprite, Movement))
    ensures
        b.0 == (Position { x, y }),
        b.1 == (Sprite { character: '@', color: Color { r: 255, g: 255, b: 255 } }),
        b.2.player_input == true,
        b.2.energy == 2,
        b.2.speed == 2,
        b.2.move_queue@ == Seq::<MoveAction>::empty(),
        b.2.wf(),
{
    (
        Position::new(x, y),
        Sprite::new('@', Color::rgb(255, 255, 255)),
        Movement::new(true, 2, 2),
    )
}

/// A fast scripted monster: acts every tick.
pub fn snake(x: usize, y: usize) -> (b: (Position, Sprite, Movement))
    ensures
        b.0 == (Position { x, y }),
        b.1 == (Sprite { character: 'S', color: Color { r: 0, g: 255, b: 0 } }),
        b.2.player_input == false,
        b.2.energy == 0,
        b.2.speed == 1,
        b.2.move_queue@ == Seq::<MoveAction>::empty(),
        b.2.wf(),
{
    (Position::new(x, y), Sprite::new('S', Color::rgb(0, 255, 0)), Movement::new(false, 0, 1))
}

/// A slow scripted monster: acts every fourth tick.
pub fn rat(x: usize, y: usize) -> (b: (Position, Sprite, Movement))
    ensures
        b.0 == (Position { x, y }),
        b.1 == (Sprite { character: 'r', color: Color { r: 150, g: 105, b: 79 } }),
        b.2.player_input == false,
        b.2.energy == 0,
        b.2.speed == 4,
        b.2.move_queue@ == Seq::<MoveAction>::empty(),
        b.2.wf(),
{
    (Position::new(x, y), Sprite::new('r', Color::rgb(150, 105, 79)), Movement::new(false, 0, 4))
}

} // verus!
