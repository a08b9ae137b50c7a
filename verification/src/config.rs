//! The fixed configuration of the animation.

use vstd::prelude::*;

verus! {

/// Width of the canvas in pixels.
pub const CANVAS_WIDTH: u32 = 400;

/// Height of the canvas in pixels.
pub const CANVAS_HEIGHT: u32 = 400;

/// Number of points in the swarm.
pub const POPULATION: usize = 50;

} // verus!
