use vstd::prelude::*;
use crate::color::Color;

verus! {

/// The procedural patterns a surface can be painted with.
#[derive(Debug, Clone, Copy, PartialEq, Eq, Structural)]
pub enum TextureType {
    Solid(Color),
    Checkerboard(Color, Color),
    Stripes(Color, Color),
    /// Bricks of the first colour joined by mortar of the second.
    Brick(Color, Color),
}

/// A procedural texture.
pub struct Texture {
    pub texture_type: TextureType,
}

impl Texture {
    pub fn new_solid(color: Color) -> (t: Texture)
        ensures
            t.texture_type == TextureType::Solid(color),
    {
        Texture { texture_type: TextureType::Solid(color) }
    }

    pub fn new_checkerboard(color1: Color, color2: Color) -> (t: Texture)
        ensures
            t.texture_type == TextureType::Checkerboard(color1, color2),
    {
        Texture { texture_type: TextureType::Checkerboard(color1, color2) }
    }

    pub fn new_stripes(color1: Color, color2: Color) -> (t: Texture)
        ensures
            t.texture_type == TextureType::Stripes(color1, color2),
    {
        Texture { texture_type: TextureType::Stripes(color1, color2) }
    }

    pub fn new_brick(brick_color: Color, mortar_color: Color) -> (t: Texture)
        ensures
            t.texture_type == TextureType::Brick(brick_color, mortar_color),
    {
        Texture { texture_type: TextureType::Brick(brick_color, mortar_color) }
    }
}

} // verus!
