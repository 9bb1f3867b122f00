//! Note colours: the default palette (one colour per pitch class) and the
//! adjustments used to draw hovered and labelled notes.

use vstd::prelude::*;

verus! {

/// An opaque colour given by its red, green and blue channels.
#[derive(PartialEq, Eq, Structural, Clone, Copy, Debug)]
pub struct Rgb {
    pub r: u8,
    pub g: u8,
    pub b: u8,
}

/// The default colour of pitch class `pc`.
pub open spec fn spec_default_color(pc: int) -> Rgb {
    if pc == 0 { Rgb { r: 210, g: 43, b: 43 } }
    else if pc == 1 { Rgb { r: 129, g: 19, b: 49 } }
    else if pc == 2 { Rgb { r: 255, g: 127, b: 80 } }
    else if pc == 3 { Rgb { r: 184, g: 115, b: 51 } }
    else if pc == 4 { Rgb { r: 255, g: 191, b: 0 } }
    else if pc == 5 { Rgb { r: 175, g: 225, b: 175 } }
    else if pc == 6 { Rgb { r: 9, g: 121, b: 105 } }
    else if pc == 7 { Rgb { r: 100, g: 149, b: 237 } }
    else if pc == 8 { Rgb { r: 25, g: 25, b: 112 } }
    else if pc == 9 { Rgb { r: 218, g: 112, b: 214 } }
    else if pc == 10 { Rgb { r: 93, g: 63, b: 211 } }
    else { Rgb { r: 204, g: 204, b: 255 } }
}

/// The colour pitch class `pc` has until the user changes the palette.
pub fn default_color(pc: usize) -> (c: Rgb)
    requires
        pc < 12,
    ensures
        c == spec_default_color(pc as int),
{
    match pc {
        0 => Rgb { r: 210, g: 43, b: 43 },
        1 => Rgb { r: 129, g: 19, b: 49 },
        2 => Rgb { r: 255, g: 127, b: 80 },
        3 => Rgb { r: 184, g: 115, b: 51 },
        4 => Rgb { r: 255, g: 191, b: 0 },
        5 => Rgb { r: 175, g: 225, b: 175 },
        6 => Rgb { r: 9, g: 121, b: 105 },
        7 => Rgb { r: 100, g: 149, b: 237 },
        8 => Rgb { r: 25, g: 25, b: 112 },
        9 => Rgb { r: 218, g: 112, b: 214 },
        10 => Rgb { r: 93, g: 63, b: 211 },
        _ => Rgb { r: 204, g: 204, b: 255 },
    }
}

/// The whole default palette, indexed by pitch class.
pub fn default_palette() -> (p: Vec<Rgb>)
    ensures
        p@.len() == 12,
        forall|pc: int| 0 <= pc < 12 ==> #[trigger] p@[pc] == spec_default_color(pc),
{
    let mut p: Vec<Rgb> = Vec::new();
    let mut pc: usize = 0;
    while pc < 12
        invariant
            0 <= pc <= 12,
            p@.len() == pc,
            forall|j: int| 0 <= j < pc ==> #[trigger] p@[j] == spec_default_color(j),
        decreases 12 - pc,
    {
        p.push(default_color(pc));
        pc += 1;
    }
    p
}

/// `x + d`, capped at 255.
pub open spec fn saturating(x: u8, d: int) -> u8 {
    if x + d > 255 { 255 } else { (x + d) as u8 }
}

/// Every channel raised by `d`, capped at 255.
pub open spec fn lighter(c: Rgb, d: int) -> Rgb {
    Rgb { r: saturating(c.r, d), g: saturating(c.g, d), b: saturating(c.b, d) }
}

/// A hovered white key: each channel 30 brighter.
pub fn hl(c: Rgb) -> (h: Rgb)
    ensures
        h == lighter(c, 30),
{
    Rgb { r: c.r.saturating_add(30), g: c.g.saturating_add(30), b: c.b.saturating_add(30) }
}

/// A hovered black key or fretboard note: each channel 50 brighter.
pub fn hl_dark(c: Rgb) -> (h: Rgb)
    ensures
        h == lighter(c, 50),
{
    Rgb { r: c.r.saturating_add(50), g: c.g.saturating_add(50), b: c.b.saturating_add(50) }
}

/// A label on this colour reads best in black (the colour is light).
pub open spec fn spec_prefers_black_text(c: Rgb) -> bool {
    c.r + c.g + c.b > 400
}

/// Whether text drawn on colour `c` should be black rather than white.
pub fn prefers_black_text(c: Rgb) -> (black: bool)
    ensures
        black == spec_prefers_black_text(c),
{
    c.r as u32 + c.g as u32 + c.b as u32 > 400
}

} // verus!
