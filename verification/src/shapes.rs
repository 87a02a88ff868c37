//! Shapes and the intersection of a ray with them.

use crate::hit::{Hit, Root};
use crate::matrix::{applied, entries_within, lemma_applied_within, Matrix4x4};
use crate::ray::Ray;
use crate::tuple::{lemma_product_bounded, lemma_zero_length, Tuple, Vec4, PRODUCT_BOUND};
use vstd::prelude::*;

verus! {

/// Largest magnitude of a transform's entries and of a ray's components for
/// which an intersection is computed without overflow.
pub const SCENE_LIMIT: i64 = 10_000;

/// The coefficients of `a * t * t + b * t + c`.
pub struct Quadratic {
    pub a: int,
    pub b: int,
    pub c: int,
}

impl Quadratic {
    pub open spec fn discriminant(self) -> int {
        self.b * self.b - 4 * self.a * self.c
    }

    /// The numbers that the roots are made of fit in their machine words, so
    /// that the roots below hold them unchanged.
    pub open spec fn representable(self) -> bool {
        &&& i64::MIN <= -self.b <= i64::MAX
        &&& i64::MIN <= 2 * self.a <= i64::MAX
        &&& i128::MIN <= self.discriminant() <= i128::MAX
    }

    /// The solution with the square root subtracted.
    pub open spec fn lower_root(self) -> Root {
        Root {
            offset: (-self.b) as i64,
            radicand: self.discriminant() as i128,
            upper: false,
            divisor: (2 * self.a) as i64,
        }
    }

    /// The solution with the square root added.
    pub open spec fn upper_root(self) -> Root {
        Root {
            offset: (-self.b) as i64,
            radicand: self.discriminant() as i128,
            upper: true,
            divisor: (2 * self.a) as i64,
        }
    }
}

/// The quadratic whose solutions are the parameters at which the ray from
/// `origin` along `direction` meets the unit sphere round the origin.
pub open spec fn unit_sphere_quadratic(origin: Vec4, direction: Vec4) -> Quadratic {
    let sphere_to_ray = origin.sub(Vec4 { x: 0, y: 0, z: 0, w: 1 });
    Quadratic {
        a: direction.dot(direction),
        b: 2 * direction.dot(sphere_to_ray),
        c: sphere_to_ray.dot(sphere_to_ray) - 1,
    }
}

/// A geometric primitive with the matrix that is applied to a ray before the
/// ray is intersected with the primitive.
#[derive(Debug, PartialEq, Eq)]
pub enum Shapes {
    /// The unit sphere round the origin.
    Sphere { transform: Matrix4x4 },
}

impl Shapes {
    /// The quadratic that `intersect` solves for `ray`.
    pub open spec fn quadratic(self, ray: Ray) -> Quadratic {
        match self {
            Shapes::Sphere { transform } => unit_sphere_quadratic(
                applied(transform@, ray.origin@),
                applied(transform@, ray.direction@),
            ),
        }
    }

    /// Whether the transform's entries lie between `-limit` and `limit`.
    pub open spec fn within(self, limit: int) -> bool {
        match self {
            Shapes::Sphere { transform } => entries_within(transform@, 4, limit),
        }
    }

    pub fn sphere(transform: Matrix4x4) -> (s: Self)
        ensures
            s == (Shapes::Sphere { transform }),
    {
        Self::Sphere { transform }
    }

    /// Where the ray meets the shape: nothing where the discriminant of the
    /// quadratic is negative, else its two solutions, the lower one first
    /// (twice the same number where the ray is tangent).
    pub fn intersect<'a>(&'a self, ray: Ray) -> (r: Option<Hit<'a>>)
        requires
            self.within(SCENE_LIMIT as int),
            ray.within(SCENE_LIMIT as int),
        ensures
            self.quadratic(ray).representable(),
            self.quadratic(ray).a >= 0,
            self.quadratic(ray).discriminant() < 0 <==> r is None,
            r is Some ==> r->Some_0.hit_shape() == *self && r->Some_0.hit_xs() == seq![
                self.quadratic(ray).lower_root(),
                self.quadratic(ray).upper_root(),
            ],
    {
        match self {
            Shapes::Sphere { transform } => {
                proof {
                    lemma_applied_within(
                        transform@,
                        ray.origin@,
                        SCENE_LIMIT as int,
                        SCENE_LIMIT as int,
                    );
                    lemma_applied_within(
                        transform@,
                        ray.direction@,
                        SCENE_LIMIT as int,
                        SCENE_LIMIT as int,
                    );
                    let l = SCENE_LIMIT as int;
                    assert(4 * (l * l) == 400_000_000) by (nonlinear_arith)
                        requires
                            l == 10_000,
                    ;
                }
                let r = ray.transform(*transform);
                let sphere_to_ray = r.origin.sub(Tuple::point(0, 0, 0));
                let a = Tuple::dot(r.direction, r.direction);
                let b = 2 * Tuple::dot(r.direction, sphere_to_ray);
                let c = Tuple::dot(sphere_to_ray, sphere_to_ray) - 1;
                proof {
                    lemma_zero_length(r.direction@);
                    let span = 4 * PRODUCT_BOUND;
                    lemma_product_bounded(b as int, b as int, 2 * span, 2 * span);
                    lemma_product_bounded(4 * a, c as int, 4 * span, span + 1);
                    assert((2 * span) * (2 * span) + (4 * span) * (span + 1) <= i128::MAX)
                        by (nonlinear_arith)
                        requires
                            span == 4_000_000_000_000_000_000,
                    ;
                }
                let d = (b as i128) * (b as i128) - 4 * (a as i128) * (c as i128);
                if d >= 0 {
                    let t1 = Root { offset: -b, radicand: d, upper: false, divisor: 2 * a };
                    let t2 = Root { offset: -b, radicand: d, upper: true, divisor: 2 * a };
                    Some(Hit::new(self, vec![t1, t2]))
                } else {
                    None
                }
            },
        }
    }
}

} // verus!
