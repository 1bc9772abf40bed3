//! Helper functions over plain slices and `Vec`s of scalars: dot products
//! and the 3-element cross product.

use crate::linear::vector::{cross_ok, cross_val, dot_ok, lemma_spec_dot_step, seq_val, spec_dot};
use crate::numeric::CharMathNumeric;
use vstd::prelude::*;

verus! {

/// The dot product of two equally long slices.
pub fn array_dot<T: CharMathNumeric<T>>(a: &[T], b: &[T]) -> (r: T)
    requires
        a@.len() == b@.len(),
        dot_ok::<T>(seq_val(a@), seq_val(b@)),
    ensures
        T::sval(r) == spec_dot(seq_val(a@), seq_val(b@)),
{
    let ghost ma = seq_val(a@);
    let ghost mb = seq_val(b@);
    let n = a.len();
    let mut acc: T = T::zero();
    proof {
        assert(ma.take(0) =~= Seq::<int>::empty());
        assert(mb.take(0) =~= Seq::<int>::empty());
    }
    let mut i: usize = 0;
    while i < n
        invariant
            n == ma.len(),
            ma.len() == mb.len(),
            ma == seq_val(a@),
            mb == seq_val(b@),
            dot_ok::<T>(ma, mb),
            0 <= i <= n,
            T::sval(acc) == spec_dot(ma.take(i as int), mb.take(i as int)),
        decreases n - i,
    {
        let av = a[i];
        let bv = b[i];
        proof {
            assert(T::sval(av) == ma[i as int]);
            assert(T::sval(bv) == mb[i as int]);
            lemma_spec_dot_step(ma, mb, i as int);
        }
        let p = T::mul(av, bv);
        acc = T::add(acc, p);
        i = i + 1;
    }
    proof {
        assert(ma.take(n as int) =~= ma);
        assert(mb.take(n as int) =~= mb);
    }
    acc
}

/// The dot product of a slice against a `Vec`.
pub fn array_vec_dot<T: CharMathNumeric<T>>(a: &[T], b: Vec<T>) -> (r: T)
    requires
        a@.len() == b@.len(),
        dot_ok::<T>(seq_val(a@), seq_val(b@)),
    ensures
        T::sval(r) == spec_dot(seq_val(a@), seq_val(b@)),
{
    array_dot(a, b.as_slice())
}

/// The dot product of two `Vec`s.
pub fn vec_dot<T: CharMathNumeric<T>>(a: Vec<T>, b: Vec<T>) -> (r: T)
    requires
        a@.len() == b@.len(),
        dot_ok::<T>(seq_val(a@), seq_val(b@)),
    ensures
        T::sval(r) == spec_dot(seq_val(a@), seq_val(b@)),
{
    array_dot(a.as_slice(), b.as_slice())
}

/// The 3-element cross product, as a `Vec` of the three components.
pub fn array_cross<T: CharMathNumeric<T>>(a: &[T], b: &[T]) -> (r: Vec<T>)
    requires
        a@.len() == 3,
        b@.len() == 3,
        cross_ok::<T>(seq_val(a@), seq_val(b@)),
    ensures
        seq_val(r@) == cross_val(seq_val(a@), seq_val(b@)),
{
    let a0 = a[0];
    let a1 = a[1];
    let a2 = a[2];
    let b0 = b[0];
    let b1 = b[1];
    let b2 = b[2];
    proof {
        assert(T::sval(a0) == seq_val(a@)[0]);
        assert(T::sval(a1) == seq_val(a@)[1]);
        assert(T::sval(a2) == seq_val(a@)[2]);
        assert(T::sval(b0) == seq_val(b@)[0]);
        assert(T::sval(b1) == seq_val(b@)[1]);
        assert(T::sval(b2) == seq_val(b@)[2]);
    }
    let mut ret: Vec<T> = Vec::new();
    ret.push(T::sub(T::mul(a1, b2), T::mul(a2, b1)));
    ret.push(T::sub(T::mul(a2, b0), T::mul(a0, b2)));
    ret.push(T::sub(T::mul(a0, b1), T::mul(a1, b0)));
    proof {
        assert(seq_val(ret@) =~= cross_val(seq_val(a@), seq_val(b@)));
    }
    ret
}

} // verus!
