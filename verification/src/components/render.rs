//! Attributes that only the renderer reads.

use vstd::prelude::*;

verus! {

/// An opaque colour by its red, green and blue parts.
#[derive(Debug, Clone, Copy, PartialEq, Eq, Structural)]
pub struct Color {
    pub r: u8,
    pub g: u8,
    pub b: u8,
}

impl Color {
    #[allow(non_snake_case)]
    pub fn RGB(r: u8, g: u8, b: u8) -> (c: Color)
        ensures
            c.r == r,
            c.g == g,
            c.b == b,
    {
        Color { r, g, b }
    }
}

/// The colour an entity is drawn in.
#[derive(Debug, Clone, Copy, PartialEq, Eq, Structural)]
pub struct RenderComponent {
    pub color: Color,
}

impl RenderComponent {
    pub fn new(color: Color) -> (r: RenderComponent)
        ensures
            r.color == color,
    {
        RenderComponent { color }
    }
}

} // verus!
