use raytracer::{Invertible, Matrix, Point, Scalar, Vector};
use std::f64::consts::FRAC_PI_2;

fn s(x: f64) -> Scalar {
    Scalar::from_raw((x * 1e9).round() as i64)
}

fn mat<const M: usize, const N: usize>(rows: [[f64; N]; M]) -> Matrix<M, N> {
    let mut data = [[Scalar::zero(); N]; M];
    for i in 0..M {
        for j in 0..N {
            data[i][j] = s(rows[i][j]);
        }
    }
    Matrix::new(data)
}

fn pt(x: f64, y: f64, z: f64) -> Point {
    Point { x: s(x), y: s(y), z: s(z) }
}

fn vc(x: f64, y: f64, z: f64) -> Vector {
    Vector { x: s(x), y: s(y), z: s(z) }
}

fn assert_matrix_approx_eq<const M: usize, const N: usize>(a: Matrix<M, N>, b: Matrix<M, N>) {
    for i in 0..M {
        for j in 0..N {
            assert!(a.data[i][j].approx_eq(b.data[i][j]), "entry {} {}: {:?} {:?}", i, j, a.data[i][j], b.data[i][j]);
        }
    }
}

#[test]
fn create_matrix2x2() {
    let m = mat([[0.0, 0.1], [1.0, 1.1]]);
    assert_eq!(m.data[0][1], s(0.1));
    assert_eq!(m.data[1][0], s(1.0));
}

#[test]
fn create_matrix3x3() {
    let m = mat([[0.0, 0.1, 0.2], [1.0, 1.1, 1.2], [2.0, 2.1, 2.2]]);
    assert_eq!(m.data[0][1], s(0.1));
    assert_eq!(m.data[1][0], s(1.0));
    assert_eq!(m.data[2][2], s(2.2));
}

#[test]
fn create_matrix4x4() {
    let m = mat([
        [0.0, 0.1, 0.2, 0.3],
        [1.0, 1.1, 1.2, 1.3],
        [2.0, 2.1, 2.2, 2.3],
        [3.0, 3.1, 3.2, 3.3],
    ]);
    assert_eq!(m.data[0][1], s(0.1));
    assert_eq!(m.data[1][3], s(1.3));
    assert_eq!(m.data[2][0], s(2.0));
    assert_eq!(m.data[3][2], s(3.2));
    assert_eq!(m.get(3, 2), s(3.2));
}

#[test]
fn zeros_constructor() {
    let m = Matrix::<1, 2>::zeros();
    assert_eq!(m.data[0][0], s(0.0));
    assert_eq!(m.data[0][1], s(0.0));
}

#[test]
fn ones_constructor() {
    let m = Matrix::<2, 1>::ones();
    assert_eq!(m.data[0][0], s(1.0));
    assert_eq!(m.data[1][0], s(1.0));
}

#[test]
fn identity_constructor() {
    let m = Matrix::<2, 2>::identity();
    assert_eq!(m.data[0][0], s(1.0));
    assert_eq!(m.data[0][1], s(0.0));
    assert_eq!(m.data[1][0], s(0.0));
    assert_eq!(m.data[1][1], s(1.0));
}

#[test]
fn point_constructor() {
    let m = Matrix::<4, 1>::point(s(3.0), s(-5.0), s(7.0));
    assert_eq!(Point::try_from_matrix(&m).unwrap(), pt(3.0, -5.0, 7.0));
}

#[test]
fn vector_constructor() {
    let m = Matrix::<4, 1>::vector(s(3.0), s(-5.0), s(7.0));
    assert_eq!(Vector::try_from_matrix(&m).unwrap(), vc(3.0, -5.0, 7.0));
}

#[test]
fn matrix_comparison() {
    let m1 = mat([[0.0], [1.0]]);
    let m2 = mat([[0.0], [1.0]]);
    let m3 = mat([[1.0], [0.0]]);
    assert_eq!(m1, m2);
    assert_ne!(m1, m3);
}

#[test]
fn matrix_matrix_multiplication() {
    let a = mat([[1.0, 2.0, 3.0, 4.0], [5.0, 6.0, 7.0, 8.0], [9.0, 8.0, 7.0, 6.0], [5.0, 4.0, 3.0, 2.0]]);
    let b = mat([[-2.0, 1.0, 2.0, 3.0], [3.0, 2.0, 1.0, -1.0], [4.0, 3.0, 6.0, 5.0], [1.0, 2.0, 7.0, 8.0]]);
    let c = mat([
        [20.0, 22.0, 50.0, 48.0],
        [44.0, 54.0, 114.0, 108.0],
        [40.0, 58.0, 110.0, 102.0],
        [16.0, 26.0, 46.0, 42.0],
    ]);
    assert_eq!(a.matmul(&b), c);
}

#[test]
fn matrix_point_multiplication() {
    let p = pt(1.0, 2.0, 3.0);
    let m = mat([[1.0, 2.0, 3.0, 4.0], [2.0, 4.0, 4.0, 2.0], [8.0, 6.0, 4.0, 1.0], [0.0, 0.0, 0.0, 1.0]]);
    let o = mat([[18.0], [24.0], [33.0], [1.0]]);
    assert_eq!(m.matmul(&Matrix::from_point(p)), o);
}

#[test]
fn matrix_vector_multiplication() {
    let v = vc(1.0, 2.0, 3.0);
    let m = mat([[1.0, 2.0, 3.0, 4.0], [2.0, 4.0, 4.0, 2.0], [8.0, 6.0, 4.0, 1.0], [0.0, 0.0, 0.0, 1.0]]);
    let o = mat([[14.0], [22.0], [32.0], [0.0]]);
    assert_eq!(m.matmul(&Matrix::from_vector(v)), o);
}

#[test]
fn matrix_multiplication_with_identity() {
    let m = mat([[0.0, 1.0], [2.0, 3.0]]);
    let id = Matrix::<2, 2>::identity();
    assert_eq!(m.matmul(&id), m);
}

#[test]
fn matrix_multiplication_out_of_range() {
    let big = Matrix::<1, 1>::new([[Scalar::from_raw(i64::MAX)]]);
    let two = mat([[2.0]]);
    assert_eq!(big.try_matmul(&two), None);
    assert_eq!(two.try_matmul(&two), Some(mat([[4.0]])));
}

#[test]
fn matrix_transposition() {
    let m = mat([[0.0, 0.1], [1.0, 1.1], [2.0, 2.1]]);
    let t = mat([[0.0, 1.0, 2.0], [0.1, 1.1, 2.1]]);
    assert_eq!(m.transpose(), t);
}

#[test]
fn submatrices() {
    let m = mat([[1.0, 5.0, 0.0], [-3.0, 2.0, 7.0], [0.0, 6.0, -3.0]]);
    assert_eq!(m.submatrix::<2, 2>(0, 2), mat([[-3.0, 2.0], [0.0, 6.0]]));
    let m = mat([[-6.0, 1.0, 1.0, 6.0], [-8.0, 5.0, 8.0, 6.0], [-1.0, 0.0, 8.0, 2.0], [-7.0, 1.0, -1.0, 1.0]]);
    assert_eq!(m.submatrix::<3, 3>(2, 1), mat([[-6.0, 1.0, 6.0], [-8.0, 8.0, 6.0], [-7.0, -1.0, 1.0]]));
}

#[test]
fn cofactors_of_matrix3x3() {
    let m = mat([[3.0, 5.0, 0.0], [2.0, -1.0, -7.0], [6.0, -1.0, 5.0]]);
    assert_eq!(m.try_cofactor(0, 0), Some(s(-12.0)));
    assert_eq!(m.try_cofactor(1, 0), Some(s(-25.0)));
}

#[test]
fn determinant_of_matrix2x2() {
    assert_eq!(mat([[1.0, 5.0], [-3.0, 2.0]]).determinant(), s(17.0));
}

#[test]
fn inverse_of_matrix2x2() {
    let m = mat([[3.0, 2.0], [1.0, 1.0]]);
    let inv = m.inverse().unwrap();
    let eye = Matrix::<2, 2>::identity();
    assert_matrix_approx_eq(m.matmul(&inv), eye);
    assert_matrix_approx_eq(eye.inverse().unwrap(), eye);
    assert_eq!(Matrix::<2, 2>::ones().inverse(), None);
}

#[test]
fn determinant_of_matrix3x3() {
    assert_eq!(mat([[1.0, 2.0, 6.0], [-5.0, 8.0, -4.0], [2.0, 6.0, 4.0]]).determinant(), s(-196.0));
}

#[test]
fn inverse_of_matrix3x3() {
    let m = mat([[1.0, 2.0, 3.0], [4.0, 5.0, 7.0], [8.0, 9.0, 12.0]]);
    let inv = m.inverse().unwrap();
    let eye = Matrix::<3, 3>::identity();
    assert_matrix_approx_eq(m.matmul(&inv), eye);
    assert_matrix_approx_eq(eye.inverse().unwrap(), eye);
    assert_eq!(Matrix::<3, 3>::ones().inverse(), None);
}

#[test]
fn determinant_of_matrix4x4() {
    let m = mat([[-2.0, -8.0, 3.0, 5.0], [-3.0, 1.0, 7.0, 3.0], [1.0, 2.0, -9.0, 6.0], [-6.0, 7.0, 7.0, -9.0]]);
    assert_eq!(m.determinant(), s(-4071.0));
}

#[test]
fn inverse_of_matrix4x4() {
    let m = mat([[-5.0, 2.0, 6.0, -8.0], [1.0, -5.0, 1.0, 8.0], [7.0, 7.0, -6.0, -7.0], [1.0, -3.0, 7.0, 4.0]]);
    let inv = m.inverse().unwrap();
    let eye = Matrix::<4, 4>::identity();
    assert_matrix_approx_eq(m.matmul(&inv), eye);
    assert_matrix_approx_eq(eye.inverse().unwrap(), eye);
    assert_eq!(Matrix::<4, 4>::ones().inverse(), None);
}

#[test]
fn identity_is_its_own_exact_inverse() {
    assert_eq!(Matrix::<2, 2>::identity().inverse(), Some(Matrix::<2, 2>::identity()));
    assert_eq!(Matrix::<3, 3>::identity().inverse(), Some(Matrix::<3, 3>::identity()));
    assert_eq!(Matrix::<4, 4>::identity().inverse(), Some(Matrix::<4, 4>::identity()));
}

#[test]
fn inverse_entries_are_cofactors_over_determinant() {
    let m = mat([[-5.0, 2.0, 6.0, -8.0], [1.0, -5.0, 1.0, 8.0], [7.0, 7.0, -6.0, -7.0], [1.0, -3.0, 7.0, 4.0]]);
    let inv = m.inverse().unwrap();
    assert_eq!(m.determinant(), s(532.0));
    assert_eq!(m.try_cofactor(2, 3), Some(s(-160.0)));
    assert_eq!(inv.data[3][2], s(-160.0).div(s(532.0)));
    assert_eq!(m.try_cofactor(3, 2), Some(s(105.0)));
    assert_eq!(inv.data[2][3], s(105.0).div(s(532.0)));
}

#[test]
fn inverse_of_tiny_determinant_is_out_of_range() {
    let m = Matrix::<2, 2>::new([[Scalar::from_raw(1), s(0.0)], [s(0.0), Scalar::from_raw(1)]]);
    assert_eq!(m.try_determinant(), Some(s(0.0)));
    assert_eq!(m.inverse(), None);
    let d = Scalar::from_raw(2_000_000_000_000_000_001);
    let m = Matrix::<2, 2>::new([[s(2.0), s(4e9)], [s(1.0), d]]);
    assert_eq!(m.determinant().raw, 2);
    assert_eq!(m.inverse(), None);
}

#[test]
fn translation_for_point() {
    let t = Matrix::translation(s(5.0), s(-3.0), s(2.0));
    let p = pt(-3.0, 4.0, 5.0);
    assert_eq!(Point::try_from_matrix(&t.matmul(&Matrix::from_point(p))).unwrap(), pt(2.0, 1.0, 7.0));
}

#[test]
fn translation_for_vector() {
    let t = Matrix::translation(s(5.0), s(-3.0), s(2.0));
    let v = vc(-3.0, 4.0, 5.0);
    assert_eq!(Vector::try_from_matrix(&t.matmul(&Matrix::from_vector(v))).unwrap(), vc(-3.0, 4.0, 5.0));
}

#[test]
fn inverse_translation() {
    let t = Matrix::translation(s(5.0), s(-3.0), s(2.0)).inverse().unwrap();
    let p = pt(-3.0, 4.0, 5.0);
    assert_eq!(Point::try_from_matrix(&t.matmul(&Matrix::from_point(p))).unwrap(), pt(-8.0, 7.0, 3.0));
}

#[test]
fn scaling_for_point() {
    let m = Matrix::scaling(s(2.0), s(3.0), s(4.0));
    let p = pt(-4.0, 6.0, 8.0);
    assert_eq!(Point::try_from_matrix(&m.matmul(&Matrix::from_point(p))).unwrap(), pt(-8.0, 18.0, 32.0));
}

#[test]
fn scaling_for_vector() {
    let m = Matrix::scaling(s(2.0), s(3.0), s(4.0));
    let v = vc(-4.0, 6.0, 8.0);
    assert_eq!(Vector::try_from_matrix(&m.matmul(&Matrix::from_vector(v))).unwrap(), vc(-8.0, 18.0, 32.0));
}

#[test]
fn inverse_scaling() {
    let m = Matrix::scaling(s(2.0), s(3.0), s(4.0)).inverse().unwrap();
    let p = pt(-4.0, 6.0, 8.0);
    let q = Point::try_from_matrix(&m.matmul(&Matrix::from_point(p))).unwrap();
    let expected = pt(-2.0, 2.0, 2.0);
    assert!(q.x.approx_eq(expected.x));
    assert!(q.y.approx_eq(expected.y));
    assert!(q.z.approx_eq(expected.z));
}

#[test]
fn reflection_as_negative_scaling() {
    let m = Matrix::scaling(s(-1.0), s(1.0), s(1.0));
    let p = pt(2.0, 3.0, 4.0);
    assert_eq!(Point::try_from_matrix(&m.matmul(&Matrix::from_point(p))).unwrap(), pt(-2.0, 3.0, 4.0));
}

#[test]
fn rotation_around_x_axis() {
    let (sin, cos) = FRAC_PI_2.sin_cos();
    assert_matrix_approx_eq(
        Matrix::rotation_x(s(sin), s(cos)).matmul(&Matrix::<4, 4>::identity()),
        mat([[1.0, 0.0, 0.0, 0.0], [0.0, 0.0, -1.0, 0.0], [0.0, 1.0, 0.0, 0.0], [0.0, 0.0, 0.0, 1.0]]),
    );
}

#[test]
fn rotation_around_y_axis() {
    let (sin, cos) = FRAC_PI_2.sin_cos();
    assert_matrix_approx_eq(
        Matrix::rotation_y(s(sin), s(cos)).matmul(&Matrix::<4, 4>::identity()),
        mat([[0.0, 0.0, 1.0, 0.0], [0.0, 1.0, 0.0, 0.0], [-1.0, 0.0, 0.0, 0.0], [0.0, 0.0, 0.0, 1.0]]),
    );
}

#[test]
fn rotation_around_z_axis() {
    let (sin, cos) = FRAC_PI_2.sin_cos();
    assert_matrix_approx_eq(
        Matrix::rotation_z(s(sin), s(cos)).matmul(&Matrix::<4, 4>::identity()),
        mat([[0.0, -1.0, 0.0, 0.0], [1.0, 0.0, 0.0, 0.0], [0.0, 0.0, 1.0, 0.0], [0.0, 0.0, 0.0, 1.0]]),
    );
}

#[test]
fn shearing() {
    let v = Matrix::<4, 1>::vector(s(2.0), s(3.0), s(4.0));
    let sh = |a: f64, b: f64, c: f64, d: f64, e: f64, f: f64| Matrix::shearing(s(a), s(b), s(c), s(d), s(e), s(f));
    assert_eq!(sh(1.0, 0.0, 0.0, 0.0, 0.0, 0.0).matmul(&v), mat([[5.0], [3.0], [4.0], [0.0]]));
    assert_eq!(sh(0.0, 1.0, 0.0, 0.0, 0.0, 0.0).matmul(&v), mat([[6.0], [3.0], [4.0], [0.0]]));
    assert_eq!(sh(0.0, 0.0, 1.0, 0.0, 0.0, 0.0).matmul(&v), mat([[2.0], [5.0], [4.0], [0.0]]));
    assert_eq!(sh(0.0, 0.0, 0.0, 1.0, 0.0, 0.0).matmul(&v), mat([[2.0], [7.0], [4.0], [0.0]]));
    assert_eq!(sh(0.0, 0.0, 0.0, 0.0, 1.0, 0.0).matmul(&v), mat([[2.0], [3.0], [6.0], [0.0]]));
    assert_eq!(sh(0.0, 0.0, 0.0, 0.0, 0.0, 1.0).matmul(&v), mat([[2.0], [3.0], [7.0], [0.0]]));
}

#[test]
fn chaining_transformations() {
    let (sin, cos) = FRAC_PI_2.sin_cos();
    let p = Matrix::<4, 1>::point(s(1.0), s(0.0), s(1.0));
    let r = Matrix::rotation_x(s(sin), s(cos));
    let sc = Matrix::scaling(s(5.0), s(5.0), s(5.0));
    let t = Matrix::translation(s(10.0), s(5.0), s(7.0));
    let p2 = r.matmul(&p);
    assert_matrix_approx_eq(p2, Matrix::<4, 1>::point(s(1.0), s(-1.0), s(0.0)));
    let p3 = sc.matmul(&p2);
    assert_matrix_approx_eq(p3, Matrix::<4, 1>::point(s(5.0), s(-5.0), s(0.0)));
    let p4 = t.matmul(&p3);
    assert_matrix_approx_eq(p4, Matrix::<4, 1>::point(s(15.0), s(0.0), s(7.0)));
    let rst = t.matmul(&sc).matmul(&r);
    assert_matrix_approx_eq(rst.matmul(&p), p4);
}

#[test]
fn matrix_to_string() {
    let m = mat([[0.1, -1.0], [2.0, 3.09], [-4.0, 5.0]]);
    assert_eq!(m.to_string(), "[[0.1, -1]\n [2, 3.09]\n [-4, 5]]");
    assert_eq!(m.to_string_places(2, true), "[[+0.10, -1.00]\n [+2.00, +3.09]\n [-4.00, +5.00]]");
}

fn invert_twice<T: Invertible>(m: &T) -> Option<T> {
    m.inverse().and_then(|inv| inv.inverse())
}

#[test]
fn invertible_capability_for_each_size() {
    let m2 = mat([[3.0, 2.0], [1.0, 1.0]]);
    assert_eq!(Invertible::try_determinant(&m2), Some(s(1.0)));
    assert_eq!(invert_twice(&m2), Some(m2));
    let m3 = mat([[2.0, 0.0, 0.0], [0.0, 4.0, 0.0], [0.0, 0.0, 0.5]]);
    assert_eq!(invert_twice(&m3), Some(m3));
    let m4 = Matrix::translation(s(1.0), s(-2.0), s(3.0));
    assert_eq!(invert_twice(&m4), Some(m4));
    assert_eq!(Invertible::inverse(&Matrix::<4, 4>::ones()), None);
}
