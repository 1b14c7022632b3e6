//! Two-dimensional coordinates as they travel through the game state.
//!
//! The simulation computes positions and velocities in single precision.
//! The game state only stores and forwards them, so a coordinate is kept
//! here as the 32-bit pattern of that number and never interpreted.

use vstd::prelude::*;

verus! {

/// Bit pattern of the single-precision number zero.
pub const ZERO_BITS: u32 = 0;

/// A point or a displacement on the play field, one bit pattern per axis.
#[derive(Clone, Copy, Debug, PartialEq, Eq, Structural)]
pub struct Vec2 {
    pub x: u32,
    pub y: u32,
}

impl Vec2 {
    /// The vector with the given coordinate patterns.
    pub fn new(x: u32, y: u32) -> (v: Self)
        ensures
            v == (Vec2 { x, y }),
    {
        Vec2 { x, y }
    }

    /// The vector whose coordinates are both zero.
    pub fn zero() -> (v: Self)
        ensures
            v == (Vec2 { x: ZERO_BITS, y: ZERO_BITS }),
    {
        Vec2 { x: ZERO_BITS, y: ZERO_BITS }
    }
}

} // verus!
