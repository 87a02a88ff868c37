use raycore::hit::{Hit, Root};
use raycore::matrix::Matrix4x4;
use raycore::ray::Ray;
use raycore::shapes::Shapes;
use raycore::tuple::Tuple;

fn value(r: &Root) -> f64 {
    let s = (r.radicand as f64).sqrt();
    let n = if r.upper { r.offset as f64 + s } else { r.offset as f64 - s };
    n / r.divisor as f64
}

fn values(h: &Hit) -> Vec<f64> {
    let mut out = Vec::new();
    for r in h.xs() {
        out.push(value(r));
    }
    out
}

#[test]
fn ray_through_the_centre() {
    let s = Shapes::sphere(Matrix4x4::identity());
    let r = Ray::new(Tuple::point(0, 0, -5), Tuple::vector(0, 0, 1));
    let h = s.intersect(r).unwrap();
    assert_eq!(
        h.xs(),
        &[
            Root { offset: 10, radicand: 4, upper: false, divisor: 2 },
            Root { offset: 10, radicand: 4, upper: true, divisor: 2 },
        ]
    );
    assert_eq!(values(&h), vec![4.0, 6.0]);
    assert_eq!(h.shape(), &s);
}

#[test]
fn tangent_ray() {
    let s = Shapes::sphere(Matrix4x4::identity());
    let r = Ray::new(Tuple::point(0, 1, -5), Tuple::vector(0, 0, 1));
    let h = s.intersect(r).unwrap();
    assert_eq!(h.xs().len(), 2);
    assert_eq!(h.xs()[0].radicand, 0);
    assert_eq!(values(&h), vec![5.0, 5.0]);
}

#[test]
fn ray_that_misses() {
    let s = Shapes::sphere(Matrix4x4::identity());
    let r = Ray::new(Tuple::point(0, 2, -5), Tuple::vector(0, 0, 1));
    assert_eq!(s.intersect(r), None);
}

#[test]
fn ray_from_inside() {
    let s = Shapes::sphere(Matrix4x4::identity());
    let r = Ray::new(Tuple::point(0, 0, 0), Tuple::vector(0, 0, 1));
    let h = s.intersect(r).unwrap();
    assert_eq!(values(&h), vec![-1.0, 1.0]);
}

#[test]
fn sphere_behind_the_ray() {
    let s = Shapes::sphere(Matrix4x4::identity());
    let r = Ray::new(Tuple::point(0, 0, 5), Tuple::vector(0, 0, 1));
    let h = s.intersect(r).unwrap();
    assert_eq!(values(&h), vec![-6.0, -4.0]);
}

#[test]
fn transform_is_applied_to_the_ray() {
    let scaling = Matrix4x4::new([[2, 0, 0, 0], [0, 2, 0, 0], [0, 0, 2, 0], [0, 0, 0, 1]]);
    let s = Shapes::sphere(scaling);
    let r = Ray::new(Tuple::point(0, 0, -5), Tuple::vector(0, 0, 1));
    let h = s.intersect(r).unwrap();
    assert_eq!(
        h.xs(),
        &[
            Root { offset: 40, radicand: 16, upper: false, divisor: 8 },
            Root { offset: 40, radicand: 16, upper: true, divisor: 8 },
        ]
    );
    assert_eq!(values(&h), vec![4.5, 5.5]);
    assert_eq!(h.shape(), &s);
}

#[test]
fn translated_ray_misses() {
    let translate = Matrix4x4::new([[1, 0, 0, 5], [0, 1, 0, 0], [0, 0, 1, 0], [0, 0, 0, 1]]);
    let s = Shapes::sphere(translate);
    let r = Ray::new(Tuple::point(0, 0, -5), Tuple::vector(0, 0, 1));
    assert_eq!(s.intersect(r), None);
}

#[test]
fn hit_carries_its_fields() {
    let s = Shapes::sphere(Matrix4x4::identity());
    let root = Root { offset: 1, radicand: 9, upper: true, divisor: 2 };
    let h = Hit::new(&s, vec![root]);
    assert_eq!(h.xs(), &[root]);
    assert_eq!(h.shape(), &s);
    assert_eq!(value(&root), 2.0);
}

#[test]
fn intersect_at_the_limit() {
    let l = 10_000;
    let m = Matrix4x4::new([[l, l, l, l], [l, l, l, l], [l, l, l, l], [l, l, l, l]]);
    let s = Shapes::sphere(m);
    let r = Ray::new(Tuple::tuple(l, l, l, l), Tuple::tuple(l, l, l, l));
    let h = s.intersect(r).unwrap();
    let a: i128 = 4 * 400_000_000 * 400_000_000;
    let b: i128 = 2 * (4 * 400_000_000 * 400_000_000 - 400_000_000);
    let c: i128 = 3 * 400_000_000 * 400_000_000 + 399_999_999 * 399_999_999 - 1;
    assert_eq!(h.xs()[0].radicand, b * b - 4 * a * c);
    assert_eq!(h.xs()[0].offset as i128, -b);
    assert_eq!(h.xs()[1].divisor as i128, 2 * a);
    assert!(!h.xs()[0].upper);
    assert!(h.xs()[1].upper);
}
