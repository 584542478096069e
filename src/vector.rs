//! Plain 2D vectors: positions and velocities in whole world units, and
//! forces in the finer units and wider range that pairwise gravity needs.
use vstd::prelude::*;

verus! {

/// A position or velocity, in whole world units.
#[derive(Clone, Copy, Debug, PartialEq, Eq, Structural)]
pub struct TomlVector {
    pub x: i16,
    pub y: i16,
}

/// A force vector, in units of `1 / FORCE_ONE`. Each pairwise force fits in
/// 64 bits, so the sum over many bodies fits here.
#[derive(Clone, Copy, Debug, PartialEq, Eq, Structural)]
pub struct Force {
    pub x: i128,
    pub y: i128,
}

impl Force {
    /// The mathematical value of the force.
    pub open spec fn view(self) -> (int, int) {
        (self.x as int, self.y as int)
    }

    /// The zero force.
    pub fn zero() -> (r: Force)
        ensures
            r@ == (0int, 0int),
    {
        Force { x: 0, y: 0 }
    }
}

} // verus!
