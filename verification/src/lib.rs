//! Exact geometric algebra for ray casting: homogeneous tuples, small square
//! matrices with cofactor determinants and adjugate inverses, rays, the
//! analytic ray-sphere intersection, and a pixel grid with its text form.
//!
//! Every coordinate is a 64-bit integer and every result is exact. Where a
//! result is a quotient or a square root, it is handed out as the numbers it
//! is made of (numerators and a denominator, the number under the root), so
//! that nothing is rounded here and equality is plain equality.
//!
//! Functions that multiply state how large their inputs may be; the limits
//! are the constants `PRODUCT_LIMIT`, `LIMIT_2X2`, `LIMIT_3X3`, `LIMIT_4X4`
//! and `SCENE_LIMIT`, and the `within` methods test them.

pub mod adjugate;
pub mod canvas;
pub mod expansion;
pub mod hit;
pub mod matrix;
pub mod ppm;
pub mod ray;
pub mod shapes;
pub mod tuple;
