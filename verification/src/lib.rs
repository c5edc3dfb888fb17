//! Conway's Game of Life on a toroidal grid, together with a software
//! framebuffer that rasterizes the grid to pixels, an integer line
//! rasterizer, and a recorder that encodes rendered frames as an animated
//! image.

pub mod animation;
pub mod framebuffer;
pub mod game_of_life;
pub mod laws;
pub mod line;
pub mod render;

use vstd::prelude::*;

verus! {

/// The ways an operation of this library can fail: construction with
/// non-positive dimensions, or a failure while encoding an image for
/// export. An encoding failure carries the underlying cause as text.
#[derive(Clone, PartialEq, Eq, Debug)]
pub enum ErrorKind {
    InvalidDimensions,
    IOFailure(String),
}

} // verus!
