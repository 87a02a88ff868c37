//! The result of an intersection query.

use crate::shapes::Shapes;
use vstd::prelude::*;

verus! {

/// One solution of a quadratic, held exactly: the number
/// `(offset - sqrt(radicand)) / divisor`, or with `+` in place of `-` where
/// `upper` is set.
#[derive(Clone, Copy, Debug, PartialEq, Eq, Structural)]
pub struct Root {
    pub offset: i64,
    pub radicand: i128,
    pub upper: bool,
    pub divisor: i64,
}

/// The shape that a ray met and the ray parameters at which it met it, in the
/// order in which they were found.
#[derive(Debug, PartialEq, Eq)]
pub struct Hit<'a> {
    shape: &'a Shapes,
    xs: Vec<Root>,
}

impl<'a> Hit<'a> {
    /// The shape that was hit.
    pub closed spec fn hit_shape(&self) -> Shapes {
        *self.shape
    }

    /// The intersection parameters.
    pub closed spec fn hit_xs(&self) -> Seq<Root> {
        self.xs@
    }

    pub fn new(shape: &'a Shapes, xs: Vec<Root>) -> (h: Self)
        ensures
            h.hit_shape() == *shape,
            h.hit_xs() == xs@,
    {
        Self { shape, xs }
    }

    pub fn xs(&self) -> (r: &[Root])
        ensures
            r@ == self.hit_xs(),
    {
        self.xs.as_slice()
    }

    pub fn shape(&self) -> (s: &Shapes)
        ensures
            *s == self.hit_shape(),
    {
        self.shape
    }
}

} // verus!
