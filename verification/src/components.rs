//! Small per-entity component types shared with the rendering collaborator.

use vstd::prelude::*;

use crate::color::Color;

verus! {

/// A grid position.
#[derive(Clone, Copy, Debug, PartialEq, Eq, Structural)]
pub struct Position {
    pub x: i32,
    pub y: i32,
}

/// How an entity is drawn on the map: its glyph and color.
#[derive(Clone, Copy, Debug, PartialEq, Eq, Structural)]
pub struct MapRenderable {
    pub rep: char,
    pub color: Color,
}

/// Marker for the player-controlled entity.
#[derive(Clone, Copy, Debug, PartialEq, Eq, Structural)]
pub struct Player;

} // verus!
