use raycore::matrix::{Matrix2x2, Matrix3x3, Matrix4x4, MatrixError};
use raycore::ray::Ray;
use raycore::tuple::{Quotient, Tuple};

fn close(q: &Quotient<Matrix4x4>, expected: [[f64; 4]; 4]) -> bool {
    for i in 0..4 {
        for j in 0..4 {
            let v = q.numerators.get(i, j) as f64 / q.denominator as f64;
            if (v - expected[i][j]).abs() > 1e-5 {
                return false;
            }
        }
    }
    true
}

fn scale(m: Matrix4x4, k: i64) -> Matrix4x4 {
    let mut data = [[0i64; 4]; 4];
    for i in 0..4 {
        for j in 0..4 {
            data[i][j] = m.get(i, j) * k;
        }
    }
    Matrix4x4::new(data)
}

#[test]
fn matrix_2x2() {
    let m = Matrix2x2::new([[-3, 5], [1, -2]]);
    assert_eq!(m.get(0, 0), -3);
    assert_eq!(m.get(0, 1), 5);
    assert_eq!(m.get(1, 0), 1);
    assert_eq!(m.get(1, 1), -2);
}

#[test]
fn matrix_3x3() {
    let m = Matrix3x3::new([[-3, 5, 0], [1, -2, -7], [0, 1, 1]]);
    assert_eq!(m.get(0, 0), -3);
    assert_eq!(m.get(1, 1), -2);
    assert_eq!(m.get(2, 2), 1);
}

#[test]
fn matrix_4x4() {
    let m = Matrix4x4::new([
        [2, 4, 6, 8],
        [11, 13, 15, 17],
        [18, 20, 22, 24],
        [27, 29, 31, 33],
    ]);
    assert_eq!(m.get(0, 0), 2);
    assert_eq!(m.get(0, 3), 8);
    assert_eq!(m.get(1, 0), 11);
    assert_eq!(m.get(1, 2), 15);
    assert_eq!(m.get(2, 2), 22);
    assert_eq!(m.get(3, 0), 27);
    assert_eq!(m.get(3, 2), 31);
}

#[test]
fn mul_matrix_4x4() {
    let a = Matrix4x4::new([[1, 2, 3, 4], [5, 6, 7, 8], [9, 8, 7, 6], [5, 4, 3, 2]]);
    let b = Matrix4x4::new([[-2, 1, 2, 3], [3, 2, 1, -1], [4, 3, 6, 5], [1, 2, 7, 8]]);
    let ab = Matrix4x4::new([
        [20, 22, 50, 48],
        [44, 54, 114, 108],
        [40, 58, 110, 102],
        [16, 26, 46, 42],
    ]);
    assert_eq!(a.mul(b), ab);
}

#[test]
fn mul_matrix_2x2_and_3x3() {
    let a = Matrix2x2::new([[1, 2], [3, 4]]);
    let b = Matrix2x2::new([[5, 6], [7, 8]]);
    assert_eq!(a.mul(b), Matrix2x2::new([[19, 22], [43, 50]]));
    assert_eq!(b.mul(a), Matrix2x2::new([[23, 34], [31, 46]]));
    let c = Matrix3x3::new([[1, 2, 3], [4, 5, 6], [7, 8, 9]]);
    let d = Matrix3x3::new([[1, 0, 2], [0, 1, 0], [3, 0, 1]]);
    assert_eq!(c.mul(d), Matrix3x3::new([[10, 2, 5], [22, 5, 14], [34, 8, 23]]));
}

#[test]
fn mul_matrix_tuple() {
    let a = Matrix4x4::new([[1, 2, 3, 4], [2, 4, 4, 2], [8, 6, 4, 1], [0, 0, 0, 1]]);
    let b = Tuple::tuple(1, 2, 3, 1);
    let ab = Tuple::tuple(18, 24, 33, 1);
    assert_eq!(a.mul_tuple(b), ab);
}

#[test]
fn identity_matrix() {
    let a = Matrix4x4::new([[1, 0, 0, 0], [0, 1, 0, 0], [0, 0, 1, 0], [0, 0, 0, 1]]);
    assert_eq!(Matrix4x4::identity(), a);
    assert_eq!(Matrix3x3::identity(), Matrix3x3::new([[1, 0, 0], [0, 1, 0], [0, 0, 1]]));
    assert_eq!(Matrix2x2::identity(), Matrix2x2::new([[1, 0], [0, 1]]));
}

#[test]
fn identity_is_neutral() {
    let a = Matrix4x4::new([[1, 2, 3, 4], [5, 6, 7, 8], [9, 8, 7, 6], [5, 4, 3, 2]]);
    assert_eq!(Matrix4x4::identity().mul(a), a);
    assert_eq!(a.mul(Matrix4x4::identity()), a);
    let b = Matrix3x3::new([[1, 2, 6], [-5, 8, -4], [2, 6, 4]]);
    assert_eq!(Matrix3x3::identity().mul(b), b);
    assert_eq!(b.mul(Matrix3x3::identity()), b);
    let c = Matrix2x2::new([[1, 5], [-3, 2]]);
    assert_eq!(Matrix2x2::identity().mul(c), c);
    assert_eq!(c.mul(Matrix2x2::identity()), c);
    let t = Tuple::tuple(1, 2, 3, 4);
    assert_eq!(Matrix4x4::identity().mul_tuple(t), t);
}

#[test]
fn transpose_matrix() {
    let a = Matrix4x4::new([[0, 9, 3, 0], [9, 8, 0, 8], [1, 8, 5, 3], [0, 0, 5, 8]]);
    let a_t = Matrix4x4::new([[0, 9, 1, 0], [9, 8, 8, 0], [3, 0, 5, 5], [0, 8, 3, 8]]);
    assert_eq!(a.transpose(), a_t);
}

#[test]
fn transpose_twice() {
    let a = Matrix4x4::new([[0, 9, 3, 0], [9, 8, 0, 8], [1, 8, 5, 3], [0, 0, 5, 8]]);
    assert_eq!(a.transpose().transpose(), a);
    let b = Matrix3x3::new([[1, 2, 3], [4, 5, 6], [7, 8, 9]]);
    assert_eq!(b.transpose(), Matrix3x3::new([[1, 4, 7], [2, 5, 8], [3, 6, 9]]));
    assert_eq!(b.transpose().transpose(), b);
}

#[test]
fn transpose_identity_matrix() {
    assert_eq!(Matrix4x4::identity(), Matrix4x4::identity().transpose());
}

#[test]
fn matrix_2x2_determinant() {
    let a = Matrix2x2::new([[1, 5], [-3, 2]]);
    assert_eq!(a.determinant(), 17);
}

#[test]
fn matrix_3x3_determinant() {
    let a = Matrix3x3::new([[1, 2, 6], [-5, 8, -4], [2, 6, 4]]);
    assert_eq!(a.cofactor(0, 0), Ok(56));
    assert_eq!(a.cofactor(0, 1), Ok(12));
    assert_eq!(a.cofactor(0, 2), Ok(-46));
    assert_eq!(a.determinant(), -196);
}

#[test]
fn matrix_4x4_determinant() {
    let a = Matrix4x4::new([[-2, -8, 3, 5], [-3, 1, 7, 3], [1, 2, -9, 6], [-6, 7, 7, -9]]);
    assert_eq!(a.cofactor(0, 0), Ok(690));
    assert_eq!(a.cofactor(0, 1), Ok(447));
    assert_eq!(a.cofactor(0, 2), Ok(210));
    assert_eq!(a.cofactor(0, 3), Ok(51));
    assert_eq!(a.determinant(), -4071);
}

#[test]
fn matrix_3x3_submatrix() {
    let a = Matrix3x3::new([[1, 5, 0], [-3, 2, 7], [0, 6, -3]]);
    let sub = Matrix2x2::new([[-3, 2], [0, 6]]);
    assert_eq!(a.submatrix(0, 2), Ok(sub));
}

#[test]
fn matrix_4x4_submatrix() {
    let a = Matrix4x4::new([[-6, 1, 1, 6], [-8, 5, 8, 6], [-1, 0, 8, 2], [-7, 1, -1, 1]]);
    let sub = Matrix3x3::new([[-6, 1, 6], [-8, 8, 6], [-7, -1, 1]]);
    assert_eq!(a.submatrix(2, 1), Ok(sub));
}

#[test]
fn submatrix_corners() {
    let a = Matrix4x4::new([[1, 2, 3, 4], [5, 6, 7, 8], [9, 10, 11, 12], [13, 14, 15, 16]]);
    assert_eq!(
        a.submatrix(0, 0),
        Ok(Matrix3x3::new([[6, 7, 8], [10, 11, 12], [14, 15, 16]]))
    );
    assert_eq!(
        a.submatrix(3, 3),
        Ok(Matrix3x3::new([[1, 2, 3], [5, 6, 7], [9, 10, 11]]))
    );
    assert_eq!(
        a.submatrix(0, 3),
        Ok(Matrix3x3::new([[5, 6, 7], [9, 10, 11], [13, 14, 15]]))
    );
}

#[test]
fn index_out_of_bounds() {
    let a = Matrix3x3::new([[1, 5, 0], [-3, 2, 7], [0, 6, -3]]);
    assert_eq!(a.submatrix(3, 0), Err(MatrixError::IndexOutOfBounds));
    assert_eq!(a.submatrix(0, 3), Err(MatrixError::IndexOutOfBounds));
    assert_eq!(a.minor(3, 3), Err(MatrixError::IndexOutOfBounds));
    assert_eq!(a.cofactor(0, 7), Err(MatrixError::IndexOutOfBounds));
    let b = Matrix4x4::identity();
    assert_eq!(b.submatrix(4, 0), Err(MatrixError::IndexOutOfBounds));
    assert_eq!(b.submatrix(0, 4), Err(MatrixError::IndexOutOfBounds));
    assert_eq!(b.minor(4, 4), Err(MatrixError::IndexOutOfBounds));
    assert_eq!(b.cofactor(usize::MAX, 1), Err(MatrixError::IndexOutOfBounds));
    assert!(b.submatrix(3, 3).is_ok());
}

#[test]
fn matrix_3x3_minor() {
    let a = Matrix3x3::new([[3, 5, 0], [2, -1, -7], [6, -1, 5]]);
    let b = a.submatrix(1, 0).unwrap();
    assert_eq!(Ok(b.determinant()), a.minor(1, 0));
}

#[test]
fn matrix_3x3_cofactor() {
    let a = Matrix3x3::new([[3, 5, 0], [2, -1, -7], [6, -1, 5]]);
    assert_eq!(a.minor(0, 0), Ok(-12));
    assert_eq!(a.cofactor(0, 0), Ok(-12));
    assert_eq!(a.minor(1, 0), Ok(25));
    assert_eq!(a.cofactor(1, 0), Ok(-25));
}

#[test]
fn matrix_2x2_inverse() {
    let a = Matrix2x2::new([[1, 5], [-3, 2]]);
    let i = a.inverse().unwrap();
    assert_eq!(i.denominator, 17);
    assert_eq!(i.numerators, Matrix2x2::new([[2, -5], [3, 1]]));
    assert_eq!(a.mul(i.numerators), Matrix2x2::new([[17, 0], [0, 17]]));
    assert_eq!(i.numerators.mul(a), Matrix2x2::new([[17, 0], [0, 17]]));
}

#[test]
fn matrix_3x3_inverse() {
    let a = Matrix3x3::new([[1, 2, 6], [-5, 8, -4], [2, 6, 4]]);
    let i = a.inverse().unwrap();
    assert_eq!(i.denominator, -196);
    assert_eq!(i.numerators.get(0, 0), 56);
    assert_eq!(i.numerators.get(1, 0), 12);
    assert_eq!(i.numerators.get(2, 0), -46);
    let d = Matrix3x3::new([[-196, 0, 0], [0, -196, 0], [0, 0, -196]]);
    assert_eq!(a.mul(i.numerators), d);
    assert_eq!(i.numerators.mul(a), d);
}

#[test]
fn singular_matrix() {
    let a = Matrix4x4::new([[-4, 2, -2, -3], [9, 6, 2, 6], [0, -5, 1, -5], [0, 0, 0, 0]]);
    assert_eq!(a.determinant(), 0);
    assert_eq!(a.inverse(), Err(MatrixError::Singular));
    let b = Matrix3x3::new([[1, 2, 3], [2, 4, 6], [0, 1, 1]]);
    assert_eq!(b.inverse(), Err(MatrixError::Singular));
    let c = Matrix2x2::new([[2, 4], [1, 2]]);
    assert_eq!(c.inverse(), Err(MatrixError::Singular));
}

#[test]
fn matrix_4x4_inverse() {
    let a = Matrix4x4::new([[-5, 2, 6, -8], [1, -5, 1, 8], [7, 7, -6, -7], [1, -3, 7, 4]]);
    let i = a.inverse().unwrap();
    assert_eq!(a.determinant(), 532);
    assert_eq!(a.cofactor(2, 3), Ok(-160));
    assert_eq!(i.numerators.get(3, 2), -160);
    assert_eq!(i.denominator, 532);
    assert_eq!(a.cofactor(3, 2), Ok(105));
    assert_eq!(i.numerators.get(2, 3), 105);
    assert!(close(
        &i,
        [
            [0.21805, 0.45113, 0.24060, -0.04511],
            [-0.80827, -1.45677, -0.44361, 0.52068],
            [-0.07895, -0.22368, -0.05263, 0.19737],
            [-0.52256, -0.81391, -0.30075, 0.30639],
        ]
    ));

    let a = Matrix4x4::new([[8, -5, 9, 2], [7, 5, 6, 1], [-6, 0, 9, 6], [-3, 0, -9, -4]]);
    assert!(close(
        &a.inverse().unwrap(),
        [
            [-0.15385, -0.15385, -0.28205, -0.53846],
            [-0.07692, 0.12308, 0.02564, 0.03077],
            [0.35897, 0.35897, 0.43590, 0.92308],
            [-0.69231, -0.69231, -0.76923, -1.92308],
        ]
    ));

    let a = Matrix4x4::new([[9, 3, 0, 9], [-5, -2, -6, -3], [-4, 9, 6, 4], [-7, 6, 6, 2]]);
    assert!(close(
        &a.inverse().unwrap(),
        [
            [-0.04074, -0.07778, 0.14444, -0.22222],
            [-0.07778, 0.03333, 0.36667, -0.33333],
            [-0.02901, -0.14630, -0.10926, 0.12963],
            [0.17778, 0.06667, -0.26667, 0.33333],
        ]
    ));
}

#[test]
fn matrix_times_inverse() {
    let a = Matrix4x4::new([[-5, 2, 6, -8], [1, -5, 1, 8], [7, 7, -6, -7], [1, -3, 7, 4]]);
    let i = a.inverse().unwrap();
    let d = scale(Matrix4x4::identity(), 532);
    assert_eq!(a.mul(i.numerators), d);
    assert_eq!(i.numerators.mul(a), d);
}

#[test]
fn mul_matrix_4x4_inverse() {
    let a = Matrix4x4::new([[3, -9, 7, 3], [3, -8, 2, -9], [-4, 4, 4, 1], [-6, 5, -1, 1]]);
    let b = Matrix4x4::new([[8, 2, 2, 2], [3, -1, 7, 0], [7, 0, 5, 4], [6, -2, 0, 5]]);
    let c = a.mul(b);
    let i = b.inverse().unwrap();
    assert_eq!(c.mul(i.numerators), scale(a, i.denominator));
}

#[test]
fn entries_within_limit() {
    let a = Matrix4x4::new([[3, -9, 7, 3], [3, -8, 2, -9], [-4, 4, 4, 1], [-6, 5, -1, 10]]);
    assert!(a.within(10));
    assert!(!a.within(9));
    let b = Matrix3x3::new([[1, 2, 3], [4, 5, 6], [7, 8, -9]]);
    assert!(b.within(9));
    assert!(!b.within(8));
    let c = Matrix2x2::new([[-4, 0], [0, 0]]);
    assert!(c.within(4));
    assert!(!c.within(3));
}

#[test]
fn ray_transform() {
    let r = Ray::new(Tuple::point(1, 2, 3), Tuple::vector(0, 1, 0));
    let translate = Matrix4x4::new([[1, 0, 0, 3], [0, 1, 0, 4], [0, 0, 1, 5], [0, 0, 0, 1]]);
    let moved = r.transform(translate);
    assert_eq!(moved.origin, Tuple::point(4, 6, 8));
    assert_eq!(moved.direction, Tuple::vector(0, 1, 0));
    let scaling = Matrix4x4::new([[2, 0, 0, 0], [0, 3, 0, 0], [0, 0, 4, 0], [0, 0, 0, 1]]);
    let scaled = r.transform(scaling);
    assert_eq!(scaled.origin, Tuple::point(2, 6, 12));
    assert_eq!(scaled.direction, Tuple::vector(0, 3, 0));
}

#[test]
fn inverse_of_inverse() {
    let m = Matrix2x2::new([[1, 5], [-3, 2]]);
    let first = m.inverse().unwrap();
    let second = first.numerators.inverse().unwrap();
    assert_eq!(second.numerators, m);
    assert_eq!(second.denominator, 17);

    let m = Matrix3x3::new([[1, 2, 6], [-5, 8, -4], [2, 6, 4]]);
    let first = m.inverse().unwrap();
    let second = first.numerators.inverse().unwrap();
    assert_eq!(second.denominator, 196 * 196);
    for i in 0..3 {
        for j in 0..3 {
            assert_eq!(
                first.denominator * second.numerators.get(i, j),
                second.denominator * m.get(i, j)
            );
        }
    }

    let m = Matrix4x4::new([[-5, 2, 6, -8], [1, -5, 1, 8], [7, 7, -6, -7], [1, -3, 7, 4]]);
    let first = m.inverse().unwrap();
    assert!(first.numerators.within(10_000));
    let second = first.numerators.inverse().unwrap();
    assert_eq!(second.denominator, 532 * 532 * 532);
    for i in 0..4 {
        for j in 0..4 {
            assert_eq!(
                first.denominator * second.numerators.get(i, j),
                second.denominator * m.get(i, j)
            );
        }
    }
}

#[test]
fn matrix_equality() {
    let a = Matrix4x4::new([[1, 2, 3, 4], [5, 6, 7, 8], [9, 8, 7, 6], [5, 4, 3, 2]]);
    let b = Matrix4x4::new([[1, 2, 3, 4], [5, 6, 7, 8], [9, 8, 7, 6], [5, 4, 3, 2]]);
    let c = Matrix4x4::new([[1, 2, 3, 4], [5, 6, 7, 8], [9, 8, 7, 6], [5, 4, 3, 3]]);
    assert!(Matrix4x4::eq(&a, &b));
    assert!(!Matrix4x4::eq(&a, &c));
    assert!(!Matrix4x4::eq(&a, &a.transpose()));
}

#[test]
fn determinant_at_the_limit() {
    let l = 10_000;
    let m = Matrix4x4::new([[l, 0, 0, 0], [0, l, 0, 0], [0, 0, l, 0], [0, 0, 0, l]]);
    assert!(m.within(l));
    assert_eq!(m.determinant(), 10_000_000_000_000_000);
    let k = 1_000_000;
    let n = Matrix3x3::new([[k, 0, 0], [0, 0, -k], [0, k, 0]]);
    assert_eq!(n.determinant(), 1_000_000_000_000_000_000);
    let p = 1_000_000_000;
    let q = Matrix2x2::new([[p, p], [-p, p]]);
    assert_eq!(q.determinant(), 2_000_000_000_000_000_000);
}

#[test]
fn inverse_close_to_its_decimals() {
    let a = Matrix4x4::new([[-5, 2, 6, -8], [1, -5, 1, 8], [7, 7, -6, -7], [1, -3, 7, 4]]);
    let i = a.inverse().unwrap();
    let decimals = Quotient {
        numerators: Matrix4x4::new([
            [21805, 45113, 24060, -4511],
            [-80827, -145677, -44361, 52068],
            [-7895, -22368, -5263, 19737],
            [-52256, -81391, -30075, 30639],
        ]),
        denominator: 100_000,
    };
    assert!(i.close_to(&decimals));
    assert!(decimals.close_to(&i));
    assert!(i.close_to(&i));
    let off = Quotient {
        numerators: Matrix4x4::new([
            [21805, 45113, 24060, -4511],
            [-80827, -145677, -44361, 52068],
            [-7895, -22368, -5263, 19737],
            [-52256, -81391, -30075, 30641],
        ]),
        denominator: 100_000,
    };
    assert!(!i.close_to(&off));
}

#[test]
fn closeness_is_strict() {
    let zero = Matrix4x4::new([[0; 4]; 4]);
    let mut data = [[0i64; 4]; 4];
    data[2][1] = 1;
    let one = Matrix4x4::new(data);
    let a = Quotient { numerators: zero, denominator: 1 };
    let at_tolerance = Quotient { numerators: one, denominator: 100_000 };
    let below = Quotient { numerators: one, denominator: -100_001 };
    assert!(!a.close_to(&at_tolerance));
    assert!(a.close_to(&below));
    assert!(below.close_to(&a));
}
