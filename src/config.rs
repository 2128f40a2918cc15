//! The fixed dimensions of the simulated world.
use vstd::prelude::*;

verus! {

/// Width of the world, in pixels.
pub const WIDTH: u32 = 800;

/// Height of the world, in pixels.
pub const HEIGHT: u32 = 800;

/// Length of a painted lane dash, in pixels.
pub const DASH_LENGTH: usize = 10;

/// Gap between painted lane dashes, in pixels.
pub const GAP_LENGTH: usize = 10;

/// Half the side of the central intersection box, in pixels.
pub const BOX_HALF: u32 = 50;

} // verus!
