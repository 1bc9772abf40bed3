//! Quaternions: 4-component values `(x, y, z, w)` that reuse the whole
//! vector machinery (the arithmetic is component-wise, not the Hamilton
//! product), plus angle-axis construction and the complex/real split.

use crate::linear::vector::{
    dot_ok, lemma_spec_dot2, lemma_spec_dot3, lemma_spec_dot4, pad_seq, seq_mul_num, seq_val,
    spec_dot, Vec3, Vec4, Vector, VectorBase,
};
use crate::numeric::CharMathNumeric;
use crate::CharMathCopy;
use vstd::prelude::*;

verus! {

/// A quaternion, generic over the scalar.  For a rotation the vector part
/// `(x, y, z)` and the real part `w` come from `angle_axis`; arbitrary
/// component-wise arithmetic is permitted but need not stay a rotation.
#[derive(Debug, Clone, Copy)]
pub struct Quaternion<N: CharMathNumeric<N>> {
    x: N,
    y: N,
    z: N,
    w: N,
}

impl<N: CharMathNumeric<N>> VectorBase<N> for Quaternion<N> {
    closed spec fn model(&self) -> Seq<int> {
        seq![N::sval(self.x), N::sval(self.y), N::sval(self.z), N::sval(self.w)]
    }

    open spec fn arity() -> nat {
        4
    }

    proof fn model_len(&self) {
    }

    fn n_elems(&self) -> usize {
        4
    }

    fn len(&self) -> (r: N) {
        proof {
            let m = self.model();
            lemma_spec_dot4(m, m);
            assert(m.take(4) =~= m);
            assert(m.take(1) =~= seq![N::sval(self.x)]);
            assert(m.take(2) =~= seq![N::sval(self.x), N::sval(self.y)]);
            assert(m.take(3) =~= seq![N::sval(self.x), N::sval(self.y), N::sval(self.z)]);
            lemma_spec_dot2(m.take(2), m.take(2));
            lemma_spec_dot3(m.take(3), m.take(3));
        }
        let d = N::add(
            N::add(N::add(N::mul(self.x, self.x), N::mul(self.y, self.y)), N::mul(self.z, self.z)),
            N::mul(self.w, self.w),
        );
        N::sqrt(d)
    }

    fn get_value(&self, index: usize) -> (r: N) {
        if index == 0 {
            self.x
        } else if index == 1 {
            self.y
        } else if index == 2 {
            self.z
        } else {
            self.w
        }
    }

    fn set_value(&mut self, index: usize, val: N) {
        if index == 0 {
            self.x = val;
        } else if index == 1 {
            self.y = val;
        } else if index == 2 {
            self.z = val;
        } else {
            self.w = val;
        }
        proof {
            assert(self.model() =~= old(self).model().update(index as int, N::sval(val)));
        }
    }
}

impl<N: CharMathNumeric<N>> CharMathCopy<Quaternion<N>> for Quaternion<N> {
    fn cm_copy(&self) -> (r: Quaternion<N>)
        ensures
            r.model() == self.model(),
    {
        Quaternion { x: self.x, y: self.y, z: self.z, w: self.w }
    }
}

impl<N: CharMathNumeric<N>> Vector<N, Quaternion<N>> for Quaternion<N> {
    fn new_arr(arr: &[N]) -> (r: Quaternion<N>) {
        let x = if arr.len() > 0 {
            arr[0]
        } else {
            N::zero()
        };
        let y = if arr.len() > 1 {
            arr[1]
        } else {
            N::zero()
        };
        let z = if arr.len() > 2 {
            arr[2]
        } else {
            N::zero()
        };
        let w = if arr.len() > 3 {
            arr[3]
        } else {
            N::zero()
        };
        let r = Quaternion { x, y, z, w };
        proof {
            assert(r.model() =~= pad_seq(seq_val(arr@), 4));
        }
        r
    }
}

impl<N: CharMathNumeric<N>> Vec4<N, Quaternion<N>> for Quaternion<N> {
    fn new(x: N, y: N, z: N, w: N) -> (r: Quaternion<N>) {
        Quaternion { x, y, z, w }
    }
}

impl<N: CharMathNumeric<N>> Quaternion<N> {
    /// Build a quaternion from its complex (vector) part and real part.
    pub fn complex_real<V: Vec3<N, V>>(complex: &V, re: N) -> (r: Quaternion<N>)
        requires
            complex.model().len() == 3,
        ensures
            r.model() == seq![
                complex.model()[0],
                complex.model()[1],
                complex.model()[2],
                N::sval(re),
            ],
    {
        Quaternion {
            x: complex.get_x(),
            y: complex.get_y(),
            z: complex.get_z(),
            w: re,
        }
    }

    /// The rotation quaternion of a rotation by `angle` about `axis`:
    /// `(axis * sin(angle/2), cos(angle/2))`.  The axis should be unit
    /// length for the result to be a rotation; that is the caller's
    /// charge, as is any scalar-range headroom for the products.
    pub fn angle_axis<V: Vec3<N, V>>(angle: N, axis: &V) -> (r: Quaternion<N>)
        requires
            axis.model().len() == 3,
            N::in_range(N::sval(angle) * N::half_val()),
            forall|i: int|
                0 <= i < 3 ==> N::in_range(
                    #[trigger] axis.model()[i] * N::sin_val(N::sval(angle) * N::half_val()),
                ),
        ensures
            r.model() == seq![
                axis.model()[0] * N::sin_val(N::sval(angle) * N::half_val()),
                axis.model()[1] * N::sin_val(N::sval(angle) * N::half_val()),
                axis.model()[2] * N::sin_val(N::sval(angle) * N::half_val()),
                N::cos_val(N::sval(angle) * N::half_val()),
            ],
    {
        let h = N::mul(angle, N::half());
        let s = N::sin(h);
        let c = N::cos(h);
        proof {
            axis.model_len();
        }
        let scaled = axis.mul_num(s);
        proof {
            assert(scaled.model() == seq_mul_num(axis.model(), N::sval(s)));
        }
        Self::complex_real::<V>(&scaled, c)
    }

    /// The complex (vector) part, as a 3-vector.
    pub fn get_complex<V: Vec3<N, V>>(&self) -> (r: V)
        ensures
            r.model() == seq![self.model()[0], self.model()[1], self.model()[2]],
    {
        V::new(self.x, self.y, self.z)
    }

    /// Replace the complex (vector) part, keeping the real part.
    pub fn set_complex<V: Vec3<N, V>>(&mut self, complex: &V)
        requires
            complex.model().len() == 3,
        ensures
            final(self).model() == seq![
                complex.model()[0],
                complex.model()[1],
                complex.model()[2],
                old(self).model()[3],
            ],
    {
        self.x = complex.get_x();
        self.y = complex.get_y();
        self.z = complex.get_z();
        proof {
            assert(self.model() =~= seq![
                complex.model()[0],
                complex.model()[1],
                complex.model()[2],
                old(self).model()[3],
            ]);
        }
    }
}

/// The per-scalar quaternion names of the integer scalars.
pub type Quaternioni32 = Quaternion<i32>;

pub type Quaternioni64 = Quaternion<i64>;

} // verus!
