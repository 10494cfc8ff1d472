//! Colours with eight bits per channel.

use vstd::prelude::*;
use crate::math::random_byte;

verus! {

/// A colour: red, green, blue and opacity, each from 0 to 255.
#[derive(Clone, Copy, Debug, PartialEq, Eq, Structural)]
pub struct Color {
    pub red: u8,
    pub green: u8,
    pub blue: u8,
    pub alpha: u8,
}

/// One channel blended with white: four fifths of the channel and one fifth
/// of full intensity.
pub open spec fn pastel_channel(c: u8) -> u8 {
    (51 + (4 * c) / 5) as u8
}

/// The opaque colour `r`, `g`, `b` blended with white by one fifth.
pub open spec fn pastel_spec(r: u8, g: u8, b: u8) -> Color {
    Color { red: pastel_channel(r), green: pastel_channel(g), blue: pastel_channel(b), alpha: 255 }
}

/// A colour that `pastel` can give.
pub open spec fn is_pastel(c: Color) -> bool {
    exists|r: u8, g: u8, b: u8| c == #[trigger] pastel_spec(r, g, b)
}

fn blend_channel(c: u8) -> (p: u8)
    ensures
        p == pastel_channel(c),
        p >= 51,
{
    let wide: u16 = 4 * (c as u16);
    (51 + wide / 5) as u8
}

impl Color {
    pub fn new(red: u8, green: u8, blue: u8, alpha: u8) -> (c: Color)
        ensures
            c == (Color { red, green, blue, alpha }),
    {
        Color { red, green, blue, alpha }
    }

    /// The opaque colour with the given channels.
    pub fn opaque(red: u8, green: u8, blue: u8) -> (c: Color)
        ensures
            c == (Color { red, green, blue, alpha: 255 }),
    {
        Color { red, green, blue, alpha: 255 }
    }
}

/// The opaque colour `r`, `g`, `b` blended with white by one fifth.
pub fn pastel(r: u8, g: u8, b: u8) -> (c: Color)
    ensures
        c == pastel_spec(r, g, b),
        is_pastel(c),
        c.alpha == 255,
        c.red >= 51 && c.green >= 51 && c.blue >= 51,
{
    Color { red: blend_channel(r), green: blend_channel(g), blue: blend_channel(b), alpha: 255 }
}

/// A pastel colour of three random channels.
pub fn random_color() -> (c: Color)
    ensures
        is_pastel(c),
{
    let r = random_byte();
    let g = random_byte();
    let b = random_byte();
    pastel(r, g, b)
}

/// `n` random pastel colours.
pub fn generate_color_palette(n: usize) -> (palette: Vec<Color>)
    ensures
        palette@.len() == n,
        forall|i: int| 0 <= i < n ==> is_pastel(#[trigger] palette@[i]),
{
    let mut palette: Vec<Color> = Vec::new();
    let mut i: usize = 0;
    while i < n
        invariant
            i <= n,
            palette@.len() == i,
            forall|j: int| 0 <= j < i ==> is_pastel(#[trigger] palette@[j]),
        decreases n - i,
    {
        palette.push(random_color());
        i += 1;
    }
    palette
}

} // verus!
