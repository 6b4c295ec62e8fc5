//! Per-entity components: grid position, drawable sprite, and the
//! energy/speed movement state driving the turn scheduler.

use std::collections::VecDeque;
use vstd::prelude::*;

verus! {

/// An RGB color with 8-bit channels; opaque to the core rules, read only by
/// the presentation layer.
#[derive(Clone, Copy, Debug, PartialEq, Eq, Structural)]
pub struct Color {
    pub r: u8,
    pub g: u8,
    pub b: u8,
}

impl Color {
    pub fn rgb(r: u8, g: u8, b: u8) -> (c: Color)
        ensures
            c == (Color { r, g, b }),
    {
        Color { r, g, b }
    }
}

/// An entity's grid coordinate. Valid positions lie within
/// `[0, width) x [0, height)` of the map; the movement resolver is the only
/// system that mutates it.
#[derive(Clone, Copy, Debug, PartialEq, Eq, Structural)]
pub struct Position {
    pub x: usize,
    pub y: usize,
}

impl Position {
    pub fn new(x: usize, y: usize) -> (p: Position)
        ensures
            p == (Position { x, y }),
    {
        Position { x, y }
    }
}

/// A drawable glyph with its foreground color.
#[derive(Clone, Copy, Debug, PartialEq, Eq, Structural)]
pub struct Sprite {
    pub character: char,
    pub color: Color,
}

impl Sprite {
    pub fn new(character: char, color: Color) -> (s: Sprite)
        ensures
            s == (Sprite { character, color }),
    {
        Sprite { character, color }
    }
}

/// A queued unit-step move request awaiting validation by the resolver.
#[derive(Clone, Copy, Debug, PartialEq, Eq, Structural)]
pub enum MoveAction {
    Up,
    Down,
    Left,
    Right,
}

/// Action-point state of one actor. An actor accumulates one energy per
/// ungated tick and may act once `energy` reaches `speed`; acting resets
/// `energy` to 0.
pub struct Movement {
    pub player_input: bool,
    pub energy: i32,
    pub speed: i32,
    pub move_queue: VecDeque<MoveAction>,
}

impl Movement {
    /// The scheduler's invariant on every actor: energy never leaves
    /// `[0, speed]`, and `speed` is positive.
    pub open spec fn wf(&self) -> bool {
        0 <= self.energy <= self.speed && 1 <= self.speed
    }

    pub fn new(player_input: bool, energy: i32, speed: i32) -> (m: Movement)
        requires
            0 <= energy <= speed,
            1 <= speed,
        ensures
            m.wf(),
            m.player_input == player_input,
            m.energy == energy,
            m.speed == speed,
            m.move_queue@ == Seq::<MoveAction>::empty(),
    {
        Movement { player_input, energy, speed, move_queue: VecDeque::new() }
    }

    /// An actor is ready to act once its energy has reached its speed.
    pub fn ready(&self) -> (r: bool)
        ensures
            r == (self.energy >= self.speed),
    {
        self.energy >= self.speed
    }
}

} // verus!
