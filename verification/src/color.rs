//! Plain RGB colors used as render hints on entities and narration.
//!
//! The core never draws; colors only travel through it to the rendering
//! collaborator.

use vstd::prelude::*;

verus! {

/// An RGB color triple.
#[derive(Clone, Copy, Debug, PartialEq, Eq, Structural)]
pub struct Color {
    pub r: u8,
    pub g: u8,
    pub b: u8,
}

/// The corpse color, applied by the death transition.
pub open spec fn spec_dark_red() -> Color {
    Color { r: 191, g: 0, b: 0 }
}

impl Color {
    pub fn new(r: u8, g: u8, b: u8) -> (c: Color)
        ensures
            c == (Color { r, g, b }),
    {
        Color { r, g, b }
    }

    pub fn dark_red() -> (c: Color)
        ensures
            c == spec_dark_red(),
    {
        Color { r: 191, g: 0, b: 0 }
    }

    pub fn cyan() -> (c: Color)
        ensures
            c == (Color { r: 0, g: 255, b: 255 }),
    {
        Color { r: 0, g: 255, b: 255 }
    }

    pub fn desaturated_green() -> (c: Color)
        ensures
            c == (Color { r: 63, g: 127, b: 63 }),
    {
        Color { r: 63, g: 127, b: 63 }
    }

    pub fn darker_green() -> (c: Color)
        ensures
            c == (Color { r: 0, g: 127, b: 0 }),
    {
        Color { r: 0, g: 127, b: 0 }
    }

    pub fn violet() -> (c: Color)
        ensures
            c == (Color { r: 127, g: 0, b: 255 }),
    {
        Color { r: 127, g: 0, b: 255 }
    }
}

} // verus!
