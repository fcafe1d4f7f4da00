//! The xterm-256color palette: snapshot colors as RGB for image rendering.

use vstd::prelude::*;

use crate::render::screen::Color;

verus! {

/// The sixteen base colors (xterm's defaults).
pub open spec fn base_rgb(i: int) -> (u8, u8, u8) {
    if i == 0 {
        (0, 0, 0)
    } else if i == 1 {
        (205, 0, 0)
    } else if i == 2 {
        (0, 205, 0)
    } else if i == 3 {
        (205, 205, 0)
    } else if i == 4 {
        (0, 0, 238)
    } else if i == 5 {
        (205, 0, 205)
    } else if i == 6 {
        (0, 205, 205)
    } else if i == 7 {
        (229, 229, 229)
    } else if i == 8 {
        (127, 127, 127)
    } else if i == 9 {
        (255, 0, 0)
    } else if i == 10 {
        (0, 255, 0)
    } else if i == 11 {
        (255, 255, 0)
    } else if i == 12 {
        (92, 92, 255)
    } else if i == 13 {
        (255, 0, 255)
    } else if i == 14 {
        (0, 255, 255)
    } else {
        (255, 255, 255)
    }
}

/// One axis of the 6x6x6 color cube: 0, then 95 up to 255 in steps of 40.
pub open spec fn cube_level(v: int) -> int {
    if v == 0 {
        0
    } else {
        55 + 40 * v
    }
}

/// Palette entry `i`: the base colors, the color cube (16 to 231), and the
/// grey ramp (232 to 255) from 8 in steps of 10.
pub open spec fn palette_rgb(i: u8) -> (u8, u8, u8) {
    if i < 16 {
        base_rgb(i as int)
    } else if i < 232 {
        let n = i - 16;
        (cube_level(n / 36) as u8, cube_level((n / 6) % 6) as u8, cube_level(n % 6) as u8)
    } else {
        let g = (8 + 10 * (i - 232)) as u8;
        (g, g, g)
    }
}

/// The RGB of a cell color: the default is light grey as a foreground and
/// black as a background.
pub open spec fn color_rgb(color: Color, foreground: bool) -> (u8, u8, u8) {
    match color {
        Color::Default => if foreground {
            (229, 229, 229)
        } else {
            (0, 0, 0)
        },
        Color::Indexed(i) => palette_rgb(i),
        Color::Rgb(r, g, b) => (r, g, b),
    }
}

fn base_color(i: u8) -> (r: (u8, u8, u8))
    requires
        i < 16,
    ensures
        r == base_rgb(i as int),
{
    if i == 0 {
        (0, 0, 0)
    } else if i == 1 {
        (205, 0, 0)
    } else if i == 2 {
        (0, 205, 0)
    } else if i == 3 {
        (205, 205, 0)
    } else if i == 4 {
        (0, 0, 238)
    } else if i == 5 {
        (205, 0, 205)
    } else if i == 6 {
        (0, 205, 205)
    } else if i == 7 {
        (229, 229, 229)
    } else if i == 8 {
        (127, 127, 127)
    } else if i == 9 {
        (255, 0, 0)
    } else if i == 10 {
        (0, 255, 0)
    } else if i == 11 {
        (255, 255, 0)
    } else if i == 12 {
        (92, 92, 255)
    } else if i == 13 {
        (255, 0, 255)
    } else if i == 14 {
        (0, 255, 255)
    } else {
        (255, 255, 255)
    }
}

fn level(v: u8) -> (r: u8)
    requires
        v < 6,
    ensures
        r as int == cube_level(v as int),
{
    if v == 0 {
        0
    } else {
        55 + 40 * v
    }
}

/// The RGB of palette entry `i`; see `palette_rgb`.
pub fn palette(i: u8) -> (r: (u8, u8, u8))
    ensures
        r == palette_rgb(i),
{
    if i < 16 {
        base_color(i)
    } else if i < 232 {
        let n = i - 16;
        (level(n / 36), level((n / 6) % 6), level(n % 6))
    } else {
        let g = 8 + 10 * (i - 232);
        (g, g, g)
    }
}

/// The RGB of a cell color; see `color_rgb`.
pub fn color_to_rgb(color: Color, foreground: bool) -> (r: (u8, u8, u8))
    ensures
        r == color_rgb(color, foreground),
{
    match color {
        Color::Default => if foreground {
            (229, 229, 229)
        } else {
            (0, 0, 0)
        },
        Color::Indexed(i) => palette(i),
        Color::Rgb(r, g, b) => (r, g, b),
    }
}

} // verus!
