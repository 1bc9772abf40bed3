//! Vector and quaternion behaviour, on integer scalars and on a
//! test-local floating-point scalar.

use charmath::linear::quaternion::Quaternion;
use charmath::linear::vector::{
    vector_utils, GenericVec2, GenericVec3, GenericVec4, Vec2, Vec3, Vec4, Vector, VectorBase,
};
use charmath::numeric::CharMathNumeric;
use charmath::CharMathCopy;

/// A double-precision scalar for exercising the library's generic
/// layers with inexact arithmetic.
#[derive(Debug, Clone, Copy, PartialEq)]
struct F64(f64);

impl CharMathNumeric<F64> for F64 {
    fn zero() -> F64 {
        F64(0.0)
    }
    fn one() -> F64 {
        F64(1.0)
    }
    fn two() -> F64 {
        F64(2.0)
    }
    fn half() -> F64 {
        F64(0.5)
    }
    fn add(a: F64, b: F64) -> F64 {
        F64(a.0 + b.0)
    }
    fn sub(a: F64, b: F64) -> F64 {
        F64(a.0 - b.0)
    }
    fn mul(a: F64, b: F64) -> F64 {
        F64(a.0 * b.0)
    }
    fn div(a: F64, b: F64) -> F64 {
        F64(a.0 / b.0)
    }
    fn neg(a: F64) -> F64 {
        F64(-a.0)
    }
    fn sqrt(a: F64) -> F64 {
        F64(a.0.sqrt())
    }
    fn sin(a: F64) -> F64 {
        F64(a.0.sin())
    }
    fn cos(a: F64) -> F64 {
        F64(a.0.cos())
    }
    fn tan(a: F64) -> F64 {
        F64(a.0.tan())
    }
    fn to_radians(deg: F64) -> F64 {
        F64(deg.0.to_radians())
    }
    fn to_degrees(rad: F64) -> F64 {
        F64(rad.0.to_degrees())
    }
}

fn close(a: f64, b: f64) -> bool {
    (a - b).abs() < 1e-6
}

#[test]
fn add_vec_commutes() {
    let a = GenericVec3::<i64>::new(1, -2, 30);
    let b = GenericVec3::<i64>::new(7, 5, -4);
    let ab = a.add_vec(&b);
    let ba = b.add_vec(&a);
    for i in 0..3 {
        assert_eq!(ab.get_value(i), ba.get_value(i));
    }
}

#[test]
fn add_then_sub_num_round_trips() {
    let a = GenericVec4::<i32>::new(3, 1, 4, -1);
    let r = a.add_num(9).sub_num(9);
    for i in 0..4 {
        assert_eq!(r.get_value(i), a.get_value(i));
    }
}

#[test]
fn mul_then_div_num_round_trips() {
    let a = GenericVec3::<i64>::new(-6, 0, 11);
    let r = a.mul_num(7).div_num(7);
    for i in 0..3 {
        assert_eq!(r.get_value(i), a.get_value(i));
    }
    let f = GenericVec2::<F64>::new(F64(1.5), F64(-2.25));
    let rf = f.mul_num(F64(4.0)).div_num(F64(4.0));
    assert!(close(rf.get_x().0, 1.5));
    assert!(close(rf.get_y().0, -2.25));
}

#[test]
fn dot_and_len() {
    let a = GenericVec3::<i64>::new(1, 2, 3);
    let b = GenericVec3::<i64>::new(4, -5, 6);
    assert_eq!(a.dot(&b), 4 - 10 + 18);
    // len of (3, 4) is exactly 5 on integers.
    let v = GenericVec2::<i64>::new(3, 4);
    assert_eq!(v.len(), 5);
    // len of (2, 2) truncates: sqrt(8) -> 2.
    let w = GenericVec2::<i64>::new(2, 2);
    assert_eq!(w.len(), 2);
}

#[test]
fn vec2_len_matches_hypotenuse() {
    let v = GenericVec2::<F64>::new(F64(3.3), F64(1.4));
    let expected = (3.3f64 * 3.3 + 1.4 * 1.4).sqrt();
    assert!(close(v.len().0, expected));
    assert!((v.len().0 - 3.583).abs() < 1e-2);
}

#[test]
fn normalization_gives_unit_length() {
    let v = GenericVec3::<F64>::new(F64(3.0), F64(-4.0), F64(12.0));
    let n = v.normalized();
    assert!(close(n.len().0, 1.0));
    // The normalized vector is parallel to the one it came from: the
    // cross product is the zero vector.
    let c = n.cross(&v);
    assert!(close(c.get_x().0, 0.0));
    assert!(close(c.get_y().0, 0.0));
    assert!(close(c.get_z().0, 0.0));
}

#[test]
fn normalize_mutates_in_place() {
    let mut v = GenericVec2::<F64>::new(F64(0.0), F64(-7.0));
    v.normalize();
    assert!(close(v.get_x().0, 0.0));
    assert!(close(v.get_y().0, -1.0));
}

#[test]
fn cross_is_perpendicular_and_anticommutes() {
    let a = GenericVec3::<i64>::new(2, 3, 5);
    let b = GenericVec3::<i64>::new(-7, 11, 13);
    let c = a.cross(&b);
    assert_eq!(c.dot(&a), 0);
    assert_eq!(c.dot(&b), 0);
    let d = b.cross(&a);
    for i in 0..3 {
        assert_eq!(c.get_value(i), -d.get_value(i));
    }
}

#[test]
fn cross_of_axes() {
    let x = GenericVec3::<i64>::new(1, 0, 0);
    let y = GenericVec3::<i64>::new(0, 1, 0);
    let z = x.cross(&y);
    assert_eq!((z.get_x(), z.get_y(), z.get_z()), (0, 0, 1));
}

#[test]
fn accessors_and_setters() {
    let mut v = GenericVec4::<i32>::new(1, 2, 3, 4);
    assert_eq!((v.get_x(), v.get_y(), v.get_z(), v.get_w()), (1, 2, 3, 4));
    v.set_x(10);
    v.set_w(40);
    assert_eq!((v.get_x(), v.get_w()), (10, 40));
    assert_eq!(v.n_elems(), 4);
    let c = v.cm_copy();
    assert_eq!(c.get_value(1), 2);
}

#[test]
fn construction_pads_and_truncates() {
    let v = GenericVec3::<i64>::new_arr(&[8]);
    assert_eq!((v.get_x(), v.get_y(), v.get_z()), (8, 0, 0));
    let w = GenericVec2::<i64>::new_arr(&[1, 2, 3, 4]);
    assert_eq!((w.get_x(), w.get_y()), (1, 2));
    let u = GenericVec3::<i64>::new_std_vec(&vec![5, 6, 7]);
    assert_eq!((u.get_x(), u.get_y(), u.get_z()), (5, 6, 7));
}

#[test]
fn elementwise_vector_ops() {
    let a = GenericVec2::<i64>::new(10, -6);
    let b = GenericVec2::<i64>::new(4, 3);
    let s = a.sub_vec(&b);
    assert_eq!((s.get_x(), s.get_y()), (6, -9));
    let m = a.mul_vec(&b);
    assert_eq!((m.get_x(), m.get_y()), (40, -18));
    let d = a.div_vec(&b);
    assert_eq!((d.get_x(), d.get_y()), (2, -2));
    let mut e = a;
    e.add_eq_vec(&b);
    assert_eq!((e.get_x(), e.get_y()), (14, -3));
    let mut f = a;
    f.mul_eq_num(2);
    assert_eq!((f.get_x(), f.get_y()), (20, -12));
}

#[test]
fn array_helpers_agree() {
    let a: [i64; 3] = [1, 2, 3];
    let b: [i64; 3] = [4, 5, 6];
    assert_eq!(vector_utils::array_dot(&a, &b), 32);
    assert_eq!(vector_utils::vec_dot(vec![2i64, 3], vec![5, 7]), 31);
    assert_eq!(vector_utils::array_vec_dot(&a, vec![1i64, 1, 1]), 6);
    let c = vector_utils::array_cross(&a, &b);
    assert_eq!(c, vec![-3, 6, -3]);
}

#[test]
fn quaternion_parts() {
    let mut q = Quaternion::<i64>::new(1, 2, 3, 4);
    let c: GenericVec3<i64> = q.get_complex();
    assert_eq!((c.get_x(), c.get_y(), c.get_z()), (1, 2, 3));
    assert_eq!(q.get_w(), 4);
    q.set_complex(&GenericVec3::<i64>::new(9, 8, 7));
    assert_eq!((q.get_x(), q.get_y(), q.get_z(), q.get_w()), (9, 8, 7, 4));
    let r = Quaternion::<i64>::complex_real(&GenericVec3::<i64>::new(1, 0, 0), 5);
    assert_eq!((r.get_x(), r.get_y(), r.get_z(), r.get_w()), (1, 0, 0, 5));
}

#[test]
fn angle_axis_builds_a_unit_rotation() {
    let axis = GenericVec3::<F64>::new(F64(1.0), F64(0.0), F64(0.0));
    let theta = std::f64::consts::PI;
    let q = Quaternion::<F64>::angle_axis(F64(theta), &axis);
    // sin(pi/2) = 1, cos(pi/2) = 0.
    assert!(close(q.get_x().0, 1.0));
    assert!(close(q.get_y().0, 0.0));
    assert!(close(q.get_z().0, 0.0));
    assert!(close(q.get_w().0, 0.0));
    assert!(close(q.len().0, 1.0));
}
