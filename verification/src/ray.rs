//! Rays: an origin and a direction.

use crate::matrix::{applied, entries_within, Matrix4x4};
use crate::tuple::{Tuple, Vec4, PRODUCT_LIMIT};
use vstd::prelude::*;

verus! {

/// A half-line of points `origin + direction * t`.
#[derive(Clone, Copy, Debug, PartialEq, Eq, Structural)]
pub struct Ray {
    pub origin: Tuple,
    pub direction: Tuple,
}

impl Ray {
    /// The point of the ray at parameter `t`.
    pub open spec fn at(self, t: int) -> Vec4 {
        self.origin@.add(self.direction@.scale(t))
    }

    /// Whether origin and direction have all components between `-limit` and
    /// `limit`.
    pub open spec fn within(self, limit: int) -> bool {
        self.origin@.within(limit) && self.direction@.within(limit)
    }

    pub fn new(origin: Tuple, direction: Tuple) -> (r: Ray)
        ensures
            r.origin == origin,
            r.direction == direction,
    {
        Ray { origin, direction }
    }

    pub fn position_at(&self, t: i64) -> (p: Tuple)
        requires
            self.direction@.scale(t as int).representable(),
            self.at(t as int).representable(),
        ensures
            p@ == self.at(t as int),
    {
        self.origin.add(self.direction.mul(t))
    }

    /// The ray with the matrix applied to its origin and to its direction.
    pub fn transform(&self, m: Matrix4x4) -> (r: Ray)
        requires
            entries_within(m@, 4, PRODUCT_LIMIT as int),
            self.within(PRODUCT_LIMIT as int),
        ensures
            r.origin@ == applied(m@, self.origin@),
            r.direction@ == applied(m@, self.direction@),
    {
        Ray { origin: m.mul_tuple(self.origin), direction: m.mul_tuple(self.direction) }
    }
}

} // verus!
