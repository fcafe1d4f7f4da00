//! Terminal screen rendering: an owned snapshot of the emulator's cell grid,
//! the plain-text screenshot format, and the palette the image renderer
//! paints with. (The rasterizer itself lives with the program, outside the
//! library.)

pub mod colors;
pub mod screen;
pub mod text;
