//! Matrix behaviour: construction, products, the square-matrix
//! algorithms and the transform builders, on integer scalars and on a
//! test-local floating-point scalar.

use charmath::linear::matrix::matrices;
use charmath::linear::matrix::{GenericMatrix, Mat2, Mat4, Matrix, MatrixBase, SquareMatrix};
use charmath::linear::quaternion::Quaternion;
use charmath::linear::vector::{GenericVec2, GenericVec3, GenericVec4, Vec2, Vec3, Vec4, VectorBase};
use charmath::numeric::CharMathNumeric;
use charmath::CharMathCopy;

/// A double-precision scalar for exercising the library's generic
/// layers with inexact arithmetic.
#[derive(Debug, Clone, Copy, PartialEq)]
struct F64(f64);

impl CharMathNumeric<F64> for F64 {
    fn zero() -> F64 {
        F64(0.0)
    }
    fn one() -> F64 {
        F64(1.0)
    }
    fn two() -> F64 {
        F64(2.0)
    }
    fn half() -> F64 {
        F64(0.5)
    }
    fn add(a: F64, b: F64) -> F64 {
        F64(a.0 + b.0)
    }
    fn sub(a: F64, b: F64) -> F64 {
        F64(a.0 - b.0)
    }
    fn mul(a: F64, b: F64) -> F64 {
        F64(a.0 * b.0)
    }
    fn div(a: F64, b: F64) -> F64 {
        F64(a.0 / b.0)
    }
    fn neg(a: F64) -> F64 {
        F64(-a.0)
    }
    fn sqrt(a: F64) -> F64 {
        F64(a.0.sqrt())
    }
    fn sin(a: F64) -> F64 {
        F64(a.0.sin())
    }
    fn cos(a: F64) -> F64 {
        F64(a.0.cos())
    }
    fn tan(a: F64) -> F64 {
        F64(a.0.tan())
    }
    fn to_radians(deg: F64) -> F64 {
        F64(deg.0.to_radians())
    }
    fn to_degrees(rad: F64) -> F64 {
        F64(rad.0.to_degrees())
    }
}

fn close(a: f64, b: f64) -> bool {
    (a - b).abs() < 1e-6
}

fn cells<N: CharMathNumeric<N>, M: MatrixBase<N>>(m: &M) -> Vec<N> {
    m.flatten()
}

#[test]
fn from_flat_reports_its_shape() {
    let m = GenericMatrix::<F64>::from_flat(
        &[F64(1.0), F64(9.0), F64(3.3), F64(0.2), F64(1.4), F64(3.41)],
        3,
        2,
    );
    assert_eq!(m.get_width(), 2);
    assert_eq!(m.get_height(), 3);
    assert!(close(m.get_value(1, 0).0, 3.3));
    assert!(close(m.get_value(2, 1).0, 3.41));
}

#[test]
fn from_flat_pads_and_truncates() {
    let m = GenericMatrix::<i64>::from_flat(&[1, 2, 3], 2, 2);
    assert_eq!(cells(&m), vec![1, 2, 3, 0]);
    let t = GenericMatrix::<i64>::from_flat(&[1, 2, 3, 4, 5], 2, 2);
    assert_eq!(cells(&t), vec![1, 2, 3, 4]);
    let z = GenericMatrix::<i64>::sized(2, 3);
    assert_eq!(cells(&z), vec![0, 0, 0, 0, 0, 0]);
    assert!(!z.is_square());
}

#[test]
fn from_vec_keeps_rows() {
    let m = GenericMatrix::<i64>::from_vec(vec![vec![1, 2], vec![3, 4], vec![5, 6]]);
    assert_eq!(m.get_height(), 3);
    assert_eq!(m.get_width(), 2);
    assert_eq!(m.get_row_vec(1), vec![3, 4]);
    assert_eq!(m.get_col_vec(0), vec![1, 3, 5]);
}

#[test]
fn set_value_updates_one_cell() {
    let mut m = GenericMatrix::<i64>::sized(2, 2);
    m.set_value(0, 1, 9);
    assert_eq!(cells(&m), vec![0, 9, 0, 0]);
    let c = m.cm_copy();
    assert_eq!(cells(&c), vec![0, 9, 0, 0]);
}

#[test]
fn identity_multiplication_is_neutral() {
    let m = GenericMatrix::<i64>::from_vec(vec![
        vec![3, -1, 4],
        vec![1, 5, -9],
        vec![2, 6, 5],
    ]);
    let id = matrices::identity::<i64>(3);
    let left = id.mul_mat(&m);
    let right = m.mul_mat(&id);
    assert_eq!(cells(&left), cells(&m));
    assert_eq!(cells(&right), cells(&m));
}

#[test]
fn matrix_product_values() {
    let a = GenericMatrix::<i64>::from_vec(vec![vec![1, 2], vec![3, 4]]);
    let b = GenericMatrix::<i64>::from_vec(vec![vec![5, 6], vec![7, 8]]);
    let p = a.mul_mat(&b);
    assert_eq!(cells(&p), vec![19, 22, 43, 50]);
}

#[test]
fn scalar_broadcast_ops() {
    let m = GenericMatrix::<i64>::from_vec(vec![vec![2, 4], vec![-6, 8]]);
    assert_eq!(cells(&m.mul_num(3)), vec![6, 12, -18, 24]);
    assert_eq!(cells(&m.div_num(2)), vec![1, 2, -3, 4]);
    assert_eq!(cells(&m.add_num(1)), vec![3, 5, -5, 9]);
    assert_eq!(cells(&m.sub_num(2)), vec![0, 2, -8, 6]);
}

#[test]
fn matrix_vector_products() {
    // Row-vector convention: component i of the result is the dot of
    // the vector with column i.
    let m = GenericMatrix::<i64>::from_vec(vec![vec![1, 2], vec![3, 4]]);
    let v = GenericVec2::<i64>::new(5, 7);
    let r = m.mul_row_vec(&v);
    assert_eq!((r.get_x(), r.get_y()), (5 + 21, 10 + 28));
    let c = m.mul_col_vec(&v);
    assert_eq!((c.get_x(), c.get_y()), (5 + 14, 15 + 28));
}

#[test]
fn determinant_of_identity_is_one() {
    for n in 1..=5usize {
        let id = matrices::identity::<i64>(n);
        assert_eq!(id.determinant(), 1);
    }
}

#[test]
fn determinant_values() {
    let m = Mat2::<i64>::from_flat(&[1, 2, 3, 4], 2, 2);
    assert_eq!(m.determinant(), -2);
    let m3 = GenericMatrix::<i64>::from_vec(vec![
        vec![2, 0, 1],
        vec![1, 3, 2],
        vec![0, 1, 4],
    ]);
    assert_eq!(m3.determinant(), 21);
    let m4 = matrices::identity::<i64>(4).mul_num(3);
    assert_eq!(m4.determinant(), 81);
}

#[test]
fn cofactor_extracts_the_submatrix() {
    let m = GenericMatrix::<i64>::from_vec(vec![
        vec![1, 2, 3],
        vec![4, 5, 6],
        vec![7, 8, 9],
    ]);
    let c = m.get_cofactor(0, 1, 3);
    // Leading 2x2 block holds the submatrix with row 0 and column 1
    // deleted; the rest keeps the matrix's own cells.
    assert_eq!(c.get_value(0, 0), 4);
    assert_eq!(c.get_value(0, 1), 6);
    assert_eq!(c.get_value(1, 0), 7);
    assert_eq!(c.get_value(1, 1), 9);
    assert_eq!(c.get_value(2, 2), 9);
    assert_eq!(m.determinant_recursive(2), 1 * 5 - 2 * 4);
}

#[test]
fn adjoint_times_matrix_is_determinant_identity() {
    let m = GenericMatrix::<i64>::from_vec(vec![
        vec![2, 0, 1],
        vec![1, 3, 2],
        vec![0, 1, 4],
    ]);
    let d = m.determinant();
    let p = m.mul_mat(&m.adjoint());
    for i in 0..3 {
        for j in 0..3 {
            let expected = if i == j { d } else { 0 };
            assert_eq!(p.get_value(i, j), expected);
        }
    }
    let m2 = Mat2::<i64>::from_flat(&[1, 2, 3, 4], 2, 2);
    let a2 = m2.adjoint();
    assert_eq!(cells(&a2), vec![4, -2, -3, 1]);
}

#[test]
fn identity_inverse_is_itself() {
    let id = Mat2::<i64>::from_flat(&[1, 0, 0, 1], 2, 2);
    assert_eq!(id.determinant(), 1);
    let inv = id.inverse();
    assert_eq!(cells(&inv), vec![1, 0, 0, 1]);
}

#[test]
fn inverse_round_trips_within_tolerance() {
    let m = GenericMatrix::<F64>::from_vec(vec![
        vec![F64(4.0), F64(7.0)],
        vec![F64(2.0), F64(6.0)],
    ]);
    let p = m.mul_mat(&m.inverse());
    for i in 0..2 {
        for j in 0..2 {
            let expected = if i == j { 1.0 } else { 0.0 };
            assert!(close(p.get_value(i, j).0, expected));
        }
    }
}

#[test]
fn zero_rotation_is_identity() {
    let r = matrices::rotation_2d::<i64>(0);
    let v = GenericVec2::<i64>::new(1, 0);
    let out = r.mul_col_vec(&v);
    assert_eq!((out.get_x(), out.get_y()), (1, 0));
}

#[test]
fn rotation_2d_values() {
    let r = matrices::rotation_2d::<F64>(F64(std::f64::consts::FRAC_PI_2));
    let v = GenericVec2::<F64>::new(F64(1.0), F64(0.0));
    // Column-vector form: a quarter turn sends (1, 0) to (0, 1) with
    // the [[cos, -sin], [sin, cos]] layout.
    let out = r.mul_col_vec(&v);
    assert!(close(out.get_x().0, 0.0));
    assert!(close(out.get_y().0, 1.0));
}

#[test]
fn scale_and_translation_builders() {
    let s = matrices::scale::<i64>(3, &[2, 5]);
    assert_eq!(cells(&s), vec![2, 0, 0, 0, 5, 0, 0, 0, 1]);
    let t = matrices::translation::<i64>(3, &[7, 8]);
    assert_eq!(cells(&t), vec![1, 0, 0, 0, 1, 0, 7, 8, 1]);
    let sv = matrices::scale_vector(&GenericVec2::<i64>::new(4, 9));
    assert_eq!(cells(&sv), vec![4, 0, 0, 9]);
    let tv = matrices::translation_vector(&GenericVec2::<i64>::new(5, 6));
    assert_eq!(cells(&tv), vec![1, 0, 0, 0, 1, 0, 5, 6, 1]);
    let s3 = matrices::scale_3d(&GenericVec3::<i64>::new(2, 3, 4));
    assert_eq!(
        cells(&s3),
        vec![2, 0, 0, 0, 0, 3, 0, 0, 0, 0, 4, 0, 0, 0, 0, 1]
    );
    let s2 = matrices::scale_2d(&GenericVec2::<i64>::new(6, 7));
    assert_eq!(cells(&s2), vec![6, 0, 0, 7]);
    let t3 = matrices::translation_3d(&GenericVec3::<i64>::new(1, 2, 3));
    assert_eq!(
        cells(&t3),
        vec![1, 0, 0, 0, 0, 1, 0, 0, 0, 0, 1, 0, 1, 2, 3, 1]
    );
}

#[test]
fn translation_moves_a_row_vector() {
    let t = matrices::translation_3d(&GenericVec3::<i64>::new(10, 20, 30));
    let v = GenericVec4::<i64>::new(1, 2, 3, 1);
    let moved = t.mul_row_vec(&v);
    assert_eq!(
        (moved.get_x(), moved.get_y(), moved.get_z(), moved.get_w()),
        (11, 22, 33, 1)
    );
}

#[test]
fn rigid_transform_inverse_undoes_a_translation() {
    let t = matrices::translation_3d(&GenericVec3::<i64>::new(2, 3, 4));
    let m4 = Mat4::<i64>::from_matrix(&t);
    let inv = m4.inverse_rigid_transform();
    let p = m4.mul_mat(&inv);
    let id = matrices::identity::<i64>(4);
    assert_eq!(cells(&p), cells(&id));
}

#[test]
fn quaternion_half_turn_about_x() {
    let axis = GenericVec3::<F64>::new(F64(1.0), F64(0.0), F64(0.0));
    let theta = std::f64::consts::PI;
    let q = Quaternion::<F64>::angle_axis(F64(theta), &axis);
    let m = matrices::rotation_quaternion(&q);
    let v = GenericVec4::<F64>::new(F64(0.0), F64(1.0), F64(0.0), F64(0.0));
    let r = m.mul_row_vec(&v);
    assert!(close(r.get_x().0, 0.0));
    assert!(close(r.get_y().0, -1.0));
    assert!(close(r.get_z().0, 0.0));
    // The Euler form of the same rotation sends the vector to the same
    // place.
    let e = matrices::rotation_euler_num(F64(theta), F64(0.0), F64(0.0));
    let re = e.mul_row_vec(&v);
    assert!(close(re.get_x().0, r.get_x().0));
    assert!(close(re.get_y().0, r.get_y().0));
    assert!(close(re.get_z().0, r.get_z().0));
}

#[test]
fn perspective_values() {
    // fov 90 degrees: the scale term is 1/tan(45 degrees) = 1.
    let p = matrices::perspective(F64(90.0), F64(1.0), F64(1.0), F64(2.0));
    assert!(close(p.get_value(0, 0).0, 1.0));
    assert!(close(p.get_value(1, 1).0, 1.0));
    assert!(close(p.get_value(2, 2).0, 2.0));
    assert!(close(p.get_value(3, 2).0, -2.0));
    assert!(close(p.get_value(2, 3).0, 1.0));
    assert!(close(p.get_value(3, 3).0, 0.0));
}

#[test]
fn look_at_canonical_frame_is_identity() {
    let pos = GenericVec3::<F64>::new(F64(0.0), F64(0.0), F64(0.0));
    let target = GenericVec3::<F64>::new(F64(0.0), F64(0.0), F64(5.0));
    let up = GenericVec3::<F64>::new(F64(0.0), F64(1.0), F64(0.0));
    let m = matrices::look_at_3d(&pos, &target, &up);
    let id = matrices::identity::<F64>(4);
    let mf = cells(&m);
    let idf = cells(&id);
    for k in 0..16 {
        assert!(close(mf[k].0, idf[k].0));
    }
}

#[test]
fn rotation_euler_of_vector_matches_components() {
    let v = GenericVec3::<F64>::new(F64(0.3), F64(-0.2), F64(0.9));
    let a = matrices::rotation_euler(&v);
    let b = matrices::rotation_euler_num(F64(0.3), F64(-0.2), F64(0.9));
    let af = cells(&a);
    let bf = cells(&b);
    for k in 0..16 {
        assert!(close(af[k].0, bf[k].0));
    }
}

#[test]
fn fixed_size_matrices_mirror_the_generic_one() {
    let g = GenericMatrix::<i64>::from_vec(vec![vec![1, 2], vec![3, 4]]);
    let m = Mat2::<i64>::from_matrix(&g);
    assert_eq!(cells(&m), cells(&g));
    assert_eq!(m.get_size(), 2);
    let mv = Mat2::<i64>::from_vec(vec![vec![9, 8], vec![7, 6]]);
    assert_eq!(cells(&mv), vec![9, 8, 7, 6]);
}
