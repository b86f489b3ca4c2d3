use vstd::prelude::*;

verus! {

/// An RGB colour with 8-bit channels.
#[derive(Clone, Copy, Debug, PartialEq, Eq, Structural)]
pub struct Color {
    pub r: u8,
    pub g: u8,
    pub b: u8,
}

/// The sum of two channels, saturated at 255.
pub open spec fn channel_sum(a: u8, b: u8) -> u8 {
    if a + b > 255 { 255u8 } else { (a + b) as u8 }
}

/// Adding two channels gives their sum when it fits in 8 bits and 255
/// otherwise: the result is never below either channel, and it is 255
/// exactly when the sum reaches 255. White has every channel at 255.
pub proof fn lemma_channel_sum(a: u8, b: u8)
    ensures
        a + b <= 255 ==> channel_sum(a, b) == a + b,
        a + b > 255 ==> channel_sum(a, b) == 255,
        channel_sum(a, b) >= a && channel_sum(a, b) >= b,
        channel_sum(a, b) == channel_sum(b, a),
        Color::white_spec().r == 255 && Color::white_spec().g == 255 && Color::white_spec().b == 255,
{
}

impl Color {
    pub open spec fn white_spec() -> Color {
        Color { r: 255, g: 255, b: 255 }
    }

    pub fn new(r: u8, g: u8, b: u8) -> (c: Color)
        ensures
            c == (Color { r, g, b }),
    {
        Color { r, g, b }
    }

    pub fn white() -> (c: Color)
        ensures
            c == Color::white_spec(),
    {
        Color { r: 255, g: 255, b: 255 }
    }

    pub fn black() -> (c: Color)
        ensures
            c == (Color { r: 0, g: 0, b: 0 }),
    {
        Color { r: 0, g: 0, b: 0 }
    }

    /// Adds two colours channel by channel, each channel saturating at 255,
    /// as light contributions are accumulated.
    pub fn add_saturating(&self, other: &Color) -> (c: Color)
        ensures
            c.r == channel_sum(self.r, other.r),
            c.g == channel_sum(self.g, other.g),
            c.b == channel_sum(self.b, other.b),
    {
        let r: u16 = self.r as u16 + other.r as u16;
        let g: u16 = self.g as u16 + other.g as u16;
        let b: u16 = self.b as u16 + other.b as u16;
        Color {
            r: if r > 255 { 255 } else { r as u8 },
            g: if g > 255 { 255 } else { g as u8 },
            b: if b > 255 { 255 } else { b as u8 },
        }
    }
}

} // verus!
