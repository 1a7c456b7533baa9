//! The concrete component types of the simulation: plain data records that
//! can be attached to entities, one of each type per entity at most.

use vstd::prelude::*;

verus! {

/// A colour as three 8-bit channels.
#[derive(Clone, Copy, PartialEq, Eq, Structural, Debug)]
pub struct Rgb {
    pub r: u8,
    pub g: u8,
    pub b: u8,
}

/// Where an entity stands on the simulated grid.
#[derive(Clone, Copy, PartialEq, Eq, Structural, Debug)]
pub struct Position {
    pub x: i32,
    pub y: i32,
}

/// How an entity is drawn: a glyph code and its foreground and background
/// colours. The engine never interprets these values; a presentation
/// collaborator reads them after each tick.
#[derive(Clone, Copy, PartialEq, Eq, Structural, Debug)]
pub struct Renderable {
    pub glyph: u16,
    pub fg: Rgb,
    pub bg: Rgb,
}

/// Tag component: the entity drifts one column to the left every tick,
/// wrapping at the screen edge.
#[derive(Clone, Copy, PartialEq, Eq, Structural, Debug)]
pub struct LeftMover {}

/// Tag component: the entity is steered directly by player input.
#[derive(Clone, Copy, PartialEq, Eq, Structural, Debug)]
pub struct Player {}

} // verus!
