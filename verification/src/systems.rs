//! Per-cycle decision systems on the shared resources: applying the
//! current command to a position, and raising the exit flag.
//!
//! The input-polling and rendering drivers that feed these systems live
//! outside the core.

use vstd::prelude::*;

use crate::components::Position;
use crate::resources::InputMapping;
use crate::resources::PlayerExit;
use crate::resources::VirtualKey;

verus! {

/// Moves the player-controlled position one cell in the commanded
/// direction.
#[derive(Clone, Copy, Debug, Default)]
pub struct Movement;

impl Movement {
    /// Apply the current command to a position: one cell in the commanded
    /// direction, or no change for any other command. This system sees no
    /// map and moves unconditionally; collision against blocked cells is
    /// the business of the registry's movement operations and of the turn
    /// engine, which reject a blocked destination before any position
    /// changes.
    pub fn run(&self, im: &InputMapping, pos: &mut Position)
        requires
            i32::MIN < old(pos).x < i32::MAX,
            i32::MIN < old(pos).y < i32::MAX,
        ensures
            im.key == Some(VirtualKey::MoveUp) ==> *final(pos) == (Position {
                x: old(pos).x,
                y: (old(pos).y - 1) as i32,
            }),
            im.key == Some(VirtualKey::MoveDown) ==> *final(pos) == (Position {
                x: old(pos).x,
                y: (old(pos).y + 1) as i32,
            }),
            im.key == Some(VirtualKey::MoveLeft) ==> *final(pos) == (Position {
                x: (old(pos).x - 1) as i32,
                y: old(pos).y,
            }),
            im.key == Some(VirtualKey::MoveRight) ==> *final(pos) == (Position {
                x: (old(pos).x + 1) as i32,
                y: old(pos).y,
            }),
            !(im.key == Some(VirtualKey::MoveUp) || im.key == Some(VirtualKey::MoveDown) || im.key
                == Some(VirtualKey::MoveLeft) || im.key == Some(VirtualKey::MoveRight))
                ==> *final(pos) == *old(pos),
    {
        match &im.key {
            Some(VirtualKey::MoveUp) => {
                pos.y = pos.y - 1;
            },
            Some(VirtualKey::MoveDown) => {
                pos.y = pos.y + 1;
            },
            Some(VirtualKey::MoveLeft) => {
                pos.x = pos.x - 1;
            },
            Some(VirtualKey::MoveRight) => {
                pos.x = pos.x + 1;
            },
            _ => {},
        }
    }
}

/// Raises the exit flag when the current command asks to leave.
#[derive(Clone, Copy, Debug, Default)]
pub struct Exit;

impl Exit {
    /// Raise the exit flag on the exit command; never lower it.
    pub fn run(&self, im: &InputMapping, pe: &mut PlayerExit)
        ensures
            final(pe).0 == (old(pe).0 || im.key == Some(VirtualKey::Exit)),
    {
        if let Some(VirtualKey::Exit) = &im.key {
            pe.0 = true;
        }
    }
}

} // verus!
