//! A two-component integer vector, used both for world positions (plain
//! units) and for fixed-point quantities (units of `1 / SCALE`).

use vstd::prelude::*;

verus! {

/// A 2D vector with `i64` components.
#[derive(Clone, Copy, PartialEq, Eq, Structural, Debug)]
pub struct Vec2i {
    pub x: i64,
    pub y: i64,
}

impl Vec2i {
    /// Both components lie in `[-m, m]`.
    pub open spec fn in_bounds(self, m: int) -> bool {
        &&& -m <= self.x <= m
        &&& -m <= self.y <= m
    }

    /// The zero vector.
    pub fn zero() -> (v: Vec2i)
        ensures
            v.x == 0,
            v.y == 0,
    {
        Vec2i { x: 0, y: 0 }
    }

    /// Component-wise construction.
    pub fn new(x: i64, y: i64) -> (v: Vec2i)
        ensures
            v.x == x,
            v.y == y,
    {
        Vec2i { x, y }
    }
}

} // verus!
