use raycore::ray::Ray;
use raycore::tuple::{fraction_close, Normalized, Quotient, SquareRoot, Tuple, PRODUCT_LIMIT};

fn root(r: SquareRoot) -> f64 {
    (r.radicand as f64).sqrt()
}

fn close(a: [f64; 4], b: [f64; 4]) -> bool {
    (0..4).all(|i| (a[i] - b[i]).abs() < 1e-5)
}

fn normalized(n: Normalized) -> [f64; 4] {
    let l = root(n.length);
    let t = n.numerators;
    [t.x as f64 / l, t.y as f64 / l, t.z as f64 / l, t.w as f64 / l]
}

fn divided(q: Quotient<Tuple>) -> [f64; 4] {
    let d = q.denominator as f64;
    let t = q.numerators;
    [t.x as f64 / d, t.y as f64 / d, t.z as f64 / d, t.w as f64 / d]
}

#[test]
fn point_w() {
    assert_eq!(Tuple::point(43, -42, 31), Tuple::tuple(43, -42, 31, 1));
}

#[test]
fn vector_w() {
    assert_eq!(Tuple::vector(43, -42, 31), Tuple::tuple(43, -42, 31, 0));
}

#[test]
fn add_tuples() {
    assert_eq!(
        Tuple::tuple(3, -2, 5, 1).add(Tuple::tuple(-2, 3, 1, 0)),
        Tuple::tuple(1, 1, 6, 1),
    );
}

#[test]
fn sub_points() {
    assert_eq!(
        Tuple::point(3, 2, 1).sub(Tuple::point(5, 6, 7)),
        Tuple::vector(-2, -4, -6),
    );
    assert_eq!(
        Tuple::point(3, 2, 1).sub(Tuple::vector(5, 6, 7)),
        Tuple::point(-2, -4, -6)
    );
    assert_eq!(
        Tuple::vector(3, 2, 1).sub(Tuple::vector(5, 6, 7)),
        Tuple::vector(-2, -4, -6),
    );
}

#[test]
fn mul_tuple() {
    assert_eq!(
        Tuple::tuple(2, -4, 6, -8).mul(7),
        Tuple::tuple(14, -28, 42, -56),
    );
    assert_eq!(Tuple::tuple(1, -2, 3, -4).mul(1), Tuple::tuple(1, -2, 3, -4));
    assert_eq!(Tuple::tuple(1, -2, 3, -4).mul(0), Tuple::tuple(0, 0, 0, 0));
}

#[test]
fn negate_tuple() {
    assert_eq!(Tuple::tuple(1, -2, 3, -4).neg(), Tuple::tuple(-1, 2, -3, 4));
}

#[test]
fn vec_length_squared() {
    assert_eq!(Tuple::vector(1, 0, 0).length_squared(), 1);
    assert_eq!(Tuple::vector(0, 1, 0).length_squared(), 1);
    assert_eq!(Tuple::vector(0, 0, 1).length_squared(), 1);
    assert_eq!(Tuple::vector(1, 2, 3).length_squared(), 14);
    assert_eq!(Tuple::vector(-1, -2, -3).length_squared(), 14);
    assert_eq!(Tuple::tuple(1, 2, 3, 4).length_squared(), 30);
}

#[test]
fn vec_dot() {
    assert_eq!(Tuple::dot(Tuple::vector(1, 2, 3), Tuple::vector(2, 3, 4)), 20);
}

#[test]
fn dot_commutes() {
    let a = Tuple::tuple(7, -3, 2, 1);
    let b = Tuple::tuple(-4, 5, 9, 0);
    assert_eq!(Tuple::dot(a, b), Tuple::dot(b, a));
    assert_eq!(Tuple::dot(a, b), -25);
}

#[test]
fn dot_at_the_limit() {
    let a = Tuple::tuple(PRODUCT_LIMIT, PRODUCT_LIMIT, PRODUCT_LIMIT, PRODUCT_LIMIT);
    assert!(a.within(PRODUCT_LIMIT));
    assert!(!a.within(PRODUCT_LIMIT - 1));
    assert_eq!(Tuple::dot(a, a), 4_000_000_000_000_000_000);
    assert_eq!(Tuple::dot(a, a.neg()), -4_000_000_000_000_000_000);
}

#[test]
fn vec_cross() {
    let a = Tuple::vector(1, 2, 3);
    let b = Tuple::vector(2, 3, 4);
    assert_eq!(Tuple::cross(a, b), Tuple::vector(-1, 2, -1));
    assert_eq!(Tuple::cross(b, a), Tuple::vector(1, -2, 1));
}

#[test]
fn cross_anticommutes() {
    let a = Tuple::vector(3, -7, 11);
    let b = Tuple::vector(-2, 5, 13);
    assert_eq!(Tuple::cross(a, b), Tuple::cross(b, a).neg());
    assert_eq!(Tuple::cross(a, b), Tuple::vector(-146, -61, 1));
}

#[test]
fn cross_ignores_w() {
    let a = Tuple::point(1, 2, 3);
    let b = Tuple::point(2, 3, 4);
    assert_eq!(Tuple::cross(a, b), Tuple::vector(-1, 2, -1));
}

#[test]
fn ray_position() {
    let r = Ray::new(Tuple::point(2, 3, 4), Tuple::vector(1, 0, 0));
    assert_eq!(r.origin, Tuple::point(2, 3, 4));
    assert_eq!(r.direction, Tuple::vector(1, 0, 0));
    assert_eq!(r.position_at(0), Tuple::point(2, 3, 4));
    assert_eq!(r.position_at(1), Tuple::point(3, 3, 4));
    assert_eq!(r.position_at(-1), Tuple::point(1, 3, 4));
    assert_eq!(r.position_at(5), Tuple::point(7, 3, 4));
}

#[test]
fn div_tuple() {
    assert!(close(
        divided(Tuple::tuple(1, -2, 3, -4).div(2)),
        [0.5, -1.0, 1.5, -2.0]
    ));
    let q = Tuple::tuple(1, -2, 3, -4).div(2);
    assert_eq!(q.numerators, Tuple::tuple(1, -2, 3, -4));
    assert_eq!(q.denominator, 2);
}

#[test]
fn vec_length() {
    assert_eq!(root(Tuple::vector(1, 0, 0).length()), 1.0);
    assert_eq!(root(Tuple::vector(0, 1, 0).length()), 1.0);
    assert_eq!(root(Tuple::vector(0, 0, 1).length()), 1.0);
    assert_eq!(root(Tuple::vector(1, 2, 3).length()), 14.0_f64.sqrt());
    assert_eq!(root(Tuple::vector(-1, -2, -3).length()), 14.0_f64.sqrt());
    assert_eq!(Tuple::vector(1, 2, 3).length(), SquareRoot { radicand: 14 });
}

#[test]
fn vec_norm() {
    assert!(close(
        normalized(Tuple::vector(4, 0, 0).normalize()),
        [1.0, 0.0, 0.0, 0.0]
    ));
    assert!(close(
        normalized(Tuple::vector(1, 2, 3).normalize()),
        [
            1.0 / 14.0_f64.sqrt(),
            2.0 / 14.0_f64.sqrt(),
            3.0 / 14.0_f64.sqrt(),
            0.0
        ]
    ));

    let norm = Tuple::vector(1, 2, 3).normalize();
    assert_eq!(norm.numerators, Tuple::vector(1, 2, 3));
    assert_eq!(norm.length, SquareRoot { radicand: 14 });
    assert_eq!(Tuple::dot(norm.numerators, norm.numerators), norm.length.radicand);
    let n = normalized(norm);
    let l = (n[0] * n[0] + n[1] * n[1] + n[2] * n[2] + n[3] * n[3]).sqrt();
    assert!((l - 1.0).abs() < 1e-5);
}

#[test]
fn normalize_zero() {
    let n = Tuple::vector(0, 0, 0).normalize();
    assert_eq!(n.length.radicand, 0);
    assert!(!normalized(n)[0].is_finite());
}

#[test]
fn divided_tuples_close() {
    let half = Tuple::tuple(1, -2, 3, -4).div(2);
    let decimals = Tuple::tuple(5, -10, 15, -20).div(10);
    assert!(half.close_to(&decimals));
    assert!(decimals.close_to(&half));
    let near = Tuple::tuple(500_000, -1_000_000, 1_500_000, -1_999_991).div(1_000_000);
    assert!(near.close_to(&half));
    let far = Tuple::tuple(500_000, -1_000_000, 1_500_000, -1_999_990).div(1_000_000);
    assert!(!far.close_to(&half));
}

#[test]
fn fractions_close_to_each_other() {
    assert!(fraction_close(1, 3, 33_333, 100_000));
    assert!(!fraction_close(1, 3, 3_333, 10_000));
    assert!(fraction_close(-160, 532, -30_075, 100_000));
    assert!(fraction_close(1, -2, -1, 2));
    assert!(!fraction_close(0, 1, 1, 100_000));
    assert!(fraction_close(0, 1, 1, 100_001));
    assert!(!fraction_close(1, 0, 1, 0));
}
