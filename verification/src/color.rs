//! RGB color values and the named palette used by the game.

use vstd::prelude::*;

verus! {

/// An RGB triple with 8-bit channels. Pixels are stored on the surface in
/// BGR byte order; the reordering happens at the pixel writer, not here.
#[derive(Copy, Clone, Debug, PartialEq, Eq, Structural)]
pub struct Color {
    pub r: u8,
    pub g: u8,
    pub b: u8,
}

pub fn red() -> (c: Color)
    ensures
        c == (Color { r: 255, g: 0, b: 0 }),
{
    Color { r: 255, g: 0, b: 0 }
}

pub fn green() -> (c: Color)
    ensures
        c == (Color { r: 0, g: 0, b: 255 }),
{
    Color { r: 0, g: 0, b: 255 }
}

pub fn blue() -> (c: Color)
    ensures
        c == (Color { r: 0, g: 0, b: 255 }),
{
    Color { r: 0, g: 0, b: 255 }
}

pub fn cyan() -> (c: Color)
    ensures
        c == (Color { r: 0, g: 255, b: 255 }),
{
    Color { r: 0, g: 255, b: 255 }
}

pub fn magenta() -> (c: Color)
    ensures
        c == (Color { r: 255, g: 0, b: 255 }),
{
    Color { r: 255, g: 0, b: 255 }
}

pub fn yellow() -> (c: Color)
    ensures
        c == (Color { r: 255, g: 255, b: 0 }),
{
    Color { r: 255, g: 255, b: 0 }
}

pub fn white() -> (c: Color)
    ensures
        c == (Color { r: 255, g: 255, b: 255 }),
{
    Color { r: 255, g: 255, b: 255 }
}

pub fn black() -> (c: Color)
    ensures
        c == (Color { r: 0, g: 0, b: 0 }),
{
    Color { r: 0, g: 0, b: 0 }
}

pub fn orange() -> (c: Color)
    ensures
        c == (Color { r: 255, g: 127, b: 0 }),
{
    Color { r: 255, g: 127, b: 0 }
}

/// The value of the twelve-entry rainbow palette at a given index.
pub open spec fn rainbow_spec() -> Seq<Color> {
    seq![
        Color { r: 255, g: 0, b: 0 },
        Color { r: 255, g: 127, b: 0 },
        Color { r: 255, g: 255, b: 0 },
        Color { r: 127, g: 255, b: 0 },
        Color { r: 0, g: 255, b: 0 },
        Color { r: 0, g: 255, b: 127 },
        Color { r: 0, g: 255, b: 255 },
        Color { r: 0, g: 255, b: 255 },
        Color { r: 0, g: 127, b: 255 },
        Color { r: 0, g: 0, b: 255 },
        Color { r: 127, g: 0, b: 255 },
        Color { r: 255, g: 0, b: 255 },
    ]
}

/// The twelve-entry rainbow palette.
pub fn rainbow() -> (v: Vec<Color>)
    ensures
        v@ == rainbow_spec(),
{
    let mut v: Vec<Color> = Vec::new();
    v.push(Color { r: 255, g: 0, b: 0 });
    v.push(Color { r: 255, g: 127, b: 0 });
    v.push(Color { r: 255, g: 255, b: 0 });
    v.push(Color { r: 127, g: 255, b: 0 });
    v.push(Color { r: 0, g: 255, b: 0 });
    v.push(Color { r: 0, g: 255, b: 127 });
    v.push(Color { r: 0, g: 255, b: 255 });
    v.push(Color { r: 0, g: 255, b: 255 });
    v.push(Color { r: 0, g: 127, b: 255 });
    v.push(Color { r: 0, g: 0, b: 255 });
    v.push(Color { r: 127, g: 0, b: 255 });
    v.push(Color { r: 255, g: 0, b: 255 });
    proof {
        assert(v@ =~= rainbow_spec());
    }
    v
}

} // verus!
