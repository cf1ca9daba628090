//! A small snake game: a fixed-tick simulation state machine (movement,
//! growth, collision, food placement) together with pixel-level
//! rasterization routines that draw rectangles, circles, sprites and a
//! bitmap digit font into a rotated, BGR-ordered framebuffer held as an
//! owned byte buffer.

pub mod color;
pub mod draw;
pub mod snake;
pub mod util;

pub use color::Color;
