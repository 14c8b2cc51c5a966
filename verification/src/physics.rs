//! Two-dimensional vectors of scalars.

use vstd::prelude::*;
use crate::scalar::Scalar;

verus! {

/// A vector in the plane.
#[derive(Debug, Clone, Copy, PartialEq, Eq, Structural)]
pub struct Vec2 {
    pub x: Scalar,
    pub y: Scalar,
}

impl Vec2 {
    pub fn new(x: Scalar, y: Scalar) -> (r: Vec2)
        ensures
            r.x == x,
            r.y == y,
    {
        Vec2 { x, y }
    }

    /// The vector whose coordinates are the whole numbers `x` and `y`.
    pub open spec fn is_at(self, x: int, y: int) -> bool {
        self.x.is_int(x) && self.y.is_int(y)
    }

    /// The vector with the sign of both coordinates flipped.
    pub open spec fn negated(self) -> Vec2 {
        Vec2 { x: self.x.spec_neg(), y: self.y.spec_neg() }
    }
}

impl Default for Vec2 {
    fn default() -> (r: Vec2)
        ensures
            r.x.bits == 0,
            r.y.bits == 0,
    {
        Vec2 { x: Scalar { bits: 0 }, y: Scalar { bits: 0 } }
    }
}

impl core::ops::Neg for Vec2 {
    type Output = Vec2;

    fn neg(self) -> (r: Vec2) {
        Vec2 { x: self.x.neg(), y: self.y.neg() }
    }
}

impl vstd::std_specs::ops::NegSpecImpl for Vec2 {
    open spec fn obeys_neg_spec() -> bool {
        true
    }

    open spec fn neg_req(self) -> bool {
        true
    }

    open spec fn neg_spec(self) -> Vec2 {
        self.negated()
    }
}

} // verus!
