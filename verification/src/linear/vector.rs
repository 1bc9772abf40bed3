//! Fixed-arity vectors over a `CharMathNumeric` scalar: element access,
//! dot product, Euclidean length, normalization, and the component-wise
//! arithmetic operations in vector-vector, vector-scalar and in-place
//! forms.
//!
//! Contracts are stated over each vector's model, the sequence of the
//! mathematical values of its components.

use crate::numeric::{lemma_tdiv_cancel, tdiv, CharMathNumeric};
use crate::CharMathCopy;
use vstd::prelude::*;

pub mod vector_utils;

verus! {

/// The model of a sequence of scalars: each component's mathematical value.
pub open spec fn seq_val<N: CharMathNumeric<N>>(s: Seq<N>) -> Seq<int> {
    Seq::new(s.len(), |i: int| N::sval(s[i]))
}

/// `s` padded with zeros (or truncated) to length `n`.
pub open spec fn pad_seq(s: Seq<int>, n: nat) -> Seq<int> {
    Seq::new(n, |i: int| if i < s.len() { s[i] } else { 0 })
}

/// The dot product of two equally long sequences.
pub open spec fn spec_dot(a: Seq<int>, b: Seq<int>) -> int
    decreases a.len(),
{
    if a.len() == 0 {
        0
    } else {
        spec_dot(a.drop_last(), b.drop_last()) + a.last() * b.last()
    }
}

/// The dot product of `a` and `b` can be computed in the scalar type:
/// every product and every partial sum stays in range.
pub open spec fn dot_ok<N: CharMathNumeric<N>>(a: Seq<int>, b: Seq<int>) -> bool {
    &&& forall|i: int| 0 <= i < a.len() ==> N::in_range(#[trigger] (a[i] * b[i]))
    &&& forall|k: int|
        0 <= k <= a.len() ==> N::in_range(spec_dot(#[trigger] a.take(k), b.take(k)))
}

/// Component-wise sum, difference, product and (truncating) quotient.
pub open spec fn seq_add(a: Seq<int>, b: Seq<int>) -> Seq<int> {
    Seq::new(a.len(), |i: int| a[i] + b[i])
}

pub open spec fn seq_sub(a: Seq<int>, b: Seq<int>) -> Seq<int> {
    Seq::new(a.len(), |i: int| a[i] - b[i])
}

pub open spec fn seq_mul(a: Seq<int>, b: Seq<int>) -> Seq<int> {
    Seq::new(a.len(), |i: int| a[i] * b[i])
}

pub open spec fn seq_div(a: Seq<int>, b: Seq<int>) -> Seq<int> {
    Seq::new(a.len(), |i: int| tdiv(a[i], b[i]))
}

/// The same four operations with a scalar broadcast over every component.
pub open spec fn seq_add_num(a: Seq<int>, s: int) -> Seq<int> {
    Seq::new(a.len(), |i: int| a[i] + s)
}

pub open spec fn seq_sub_num(a: Seq<int>, s: int) -> Seq<int> {
    Seq::new(a.len(), |i: int| a[i] - s)
}

pub open spec fn seq_mul_num(a: Seq<int>, s: int) -> Seq<int> {
    Seq::new(a.len(), |i: int| a[i] * s)
}

pub open spec fn seq_div_num(a: Seq<int>, s: int) -> Seq<int> {
    Seq::new(a.len(), |i: int| tdiv(a[i], s))
}

/// The 3-vector cross product `(a1 b2 - a2 b1, a2 b0 - a0 b2, a0 b1 - a1 b0)`.
pub open spec fn cross_val(a: Seq<int>, b: Seq<int>) -> Seq<int> {
    seq![
        a[1] * b[2] - a[2] * b[1],
        a[2] * b[0] - a[0] * b[2],
        a[0] * b[1] - a[1] * b[0],
    ]
}

/// The cross product of `a` and `b` can be computed in the scalar type.
pub open spec fn cross_ok<N: CharMathNumeric<N>>(a: Seq<int>, b: Seq<int>) -> bool {
    &&& N::in_range(a[1] * b[2])
    &&& N::in_range(a[2] * b[1])
    &&& N::in_range(a[2] * b[0])
    &&& N::in_range(a[0] * b[2])
    &&& N::in_range(a[0] * b[1])
    &&& N::in_range(a[1] * b[0])
    &&& N::in_range(a[1] * b[2] - a[2] * b[1])
    &&& N::in_range(a[2] * b[0] - a[0] * b[2])
    &&& N::in_range(a[0] * b[1] - a[1] * b[0])
}

/// Extending a dot product by one position adds that position's product.
pub proof fn lemma_spec_dot_step(a: Seq<int>, b: Seq<int>, i: int)
    requires
        a.len() == b.len(),
        0 <= i < a.len(),
    ensures
        spec_dot(a.take(i + 1), b.take(i + 1)) == spec_dot(a.take(i), b.take(i)) + a[i] * b[i],
{
    assert(a.take(i + 1).drop_last() =~= a.take(i));
    assert(b.take(i + 1).drop_last() =~= b.take(i));
    assert(a.take(i + 1).last() == a[i]);
    assert(b.take(i + 1).last() == b[i]);
}

/// The dot product of 2-sequences, written out.
pub proof fn lemma_spec_dot2(a: Seq<int>, b: Seq<int>)
    requires
        a.len() == 2,
        b.len() == 2,
    ensures
        spec_dot(a, b) == a[0] * b[0] + a[1] * b[1],
{
    assert(a.drop_last() =~= seq![a[0]]);
    assert(b.drop_last() =~= seq![b[0]]);
    assert(seq![a[0]].drop_last() =~= Seq::<int>::empty());
    assert(seq![b[0]].drop_last() =~= Seq::<int>::empty());
    assert(spec_dot(Seq::<int>::empty(), Seq::<int>::empty()) == 0);
    assert(spec_dot(seq![a[0]], seq![b[0]]) == a[0] * b[0]);
}

/// The dot product of 3-sequences, written out.
pub proof fn lemma_spec_dot3(a: Seq<int>, b: Seq<int>)
    requires
        a.len() == 3,
        b.len() == 3,
    ensures
        spec_dot(a, b) == a[0] * b[0] + a[1] * b[1] + a[2] * b[2],
{
    assert(a.drop_last() =~= seq![a[0], a[1]]);
    assert(b.drop_last() =~= seq![b[0], b[1]]);
    lemma_spec_dot2(seq![a[0], a[1]], seq![b[0], b[1]]);
}

/// The dot product of 4-sequences, written out.
pub proof fn lemma_spec_dot4(a: Seq<int>, b: Seq<int>)
    requires
        a.len() == 4,
        b.len() == 4,
    ensures
        spec_dot(a, b) == a[0] * b[0] + a[1] * b[1] + a[2] * b[2] + a[3] * b[3],
{
    assert(a.drop_last() =~= seq![a[0], a[1], a[2]]);
    assert(b.drop_last() =~= seq![b[0], b[1], b[2]]);
    lemma_spec_dot3(seq![a[0], a[1], a[2]], seq![b[0], b[1], b[2]]);
}

/// The dot product of two vectors seen through `VectorBase`.
pub fn dot_of<NUM: CharMathNumeric<NUM>, A: VectorBase<NUM>, B: VectorBase<NUM>>(
    a: &A,
    b: &B,
) -> (r: NUM)
    requires
        a.model().len() == b.model().len(),
        dot_ok::<NUM>(a.model(), b.model()),
    ensures
        NUM::sval(r) == spec_dot(a.model(), b.model()),
{
    let ghost ma = a.model();
    let ghost mb = b.model();
    let n = a.n_elems();
    let mut acc: NUM = NUM::zero();
    proof {
        assert(ma.take(0) =~= Seq::<int>::empty());
        assert(mb.take(0) =~= Seq::<int>::empty());
    }
    let mut i: usize = 0;
    while i < n
        invariant
            n == ma.len(),
            ma.len() == mb.len(),
            dot_ok::<NUM>(ma, mb),
            ma == a.model(),
            mb == b.model(),
            0 <= i <= n,
            NUM::sval(acc) == spec_dot(ma.take(i as int), mb.take(i as int)),
        decreases n - i,
    {
        let p = NUM::mul(a.get_value(i), b.get_value(i));
        proof {
            lemma_spec_dot_step(ma, mb, i as int);
        }
        acc = NUM::add(acc, p);
        i = i + 1;
    }
    proof {
        assert(ma.take(n as int) =~= ma);
        assert(mb.take(n as int) =~= mb);
    }
    acc
}

/// The base view of a vector: its arity, its components, and its
/// Euclidean length.
pub trait VectorBase<NUM: CharMathNumeric<NUM>>: Sized {
    /// The sequence of the mathematical values of the components.
    spec fn model(&self) -> Seq<int>;

    /// The fixed arity of the concrete vector type.
    spec fn arity() -> nat;

    /// A vector always has exactly its type's arity of components.
    proof fn model_len(&self)
        ensures
            self.model().len() == Self::arity(),
    ;

    fn n_elems(&self) -> (r: usize)
        ensures
            r == self.model().len(),
    ;

    fn get_value(&self, index: usize) -> (r: NUM)
        requires
            index < self.model().len(),
        ensures
            NUM::sval(r) == self.model()[index as int],
    ;

    fn set_value(&mut self, index: usize, val: NUM)
        requires
            index < old(self).model().len(),
        ensures
            final(self).model() == old(self).model().update(index as int, NUM::sval(val)),
    ;

    /// The Euclidean norm: the scalar square root of the self dot product.
    fn len(&self) -> (r: NUM)
        requires
            dot_ok::<NUM>(self.model(), self.model()),
        ensures
            NUM::sval(r) == NUM::sqrt_val(spec_dot(self.model(), self.model())),
    ;
}

/// The vector operations.  `VEC` is the concrete vector type the
/// operations produce; an implementing type uses itself there.
pub trait Vector<NUM: CharMathNumeric<NUM>, VEC: VectorBase<NUM>>: VectorBase<
    NUM,
> + CharMathCopy<VEC> {
    /// Build a vector from a slice of scalars, padding missing trailing
    /// components with zero and ignoring excess ones.
    fn new_arr(arr: &[NUM]) -> (r: VEC)
        ensures
            r.model() == pad_seq(seq_val(arr@), VEC::arity()),
    ;

    /// Build a vector from any `VectorBase`, with the same padding rule.
    fn new_vec<V2: VectorBase<NUM>>(vec: &V2) -> (r: VEC)
        ensures
            r.model() == pad_seq(vec.model(), VEC::arity()),
    {
        let n = vec.n_elems();
        let mut vals: Vec<NUM> = Vec::new();
        let mut i: usize = 0;
        while i < n
            invariant
                0 <= i <= n,
                n == vec.model().len(),
                vals@.len() == i,
                forall|j: int| 0 <= j < i ==> NUM::sval(#[trigger] vals@[j]) == vec.model()[j],
            decreases n - i,
        {
            let ghost ov = vals@;
            let v = vec.get_value(i);
            vals.push(v);
            proof {
                assert forall|j: int| 0 <= j < i + 1 implies NUM::sval(#[trigger] vals@[j])
                    == vec.model()[j] by {
                    if j < i {
                        assert(vals@[j] == ov[j]);
                    } else {
                        assert(vals@[j] == v);
                    }
                }
            }
            i = i + 1;
        }
        proof {
            assert(seq_val(vals@) =~= vec.model());
        }
        Self::new_arr(vals.as_slice())
    }

    /// Build a vector from a `Vec` of scalars, with the same padding rule.
    fn new_std_vec(vec: &Vec<NUM>) -> (r: VEC)
        ensures
            r.model() == pad_seq(seq_val(vec@), VEC::arity()),
    {
        Self::new_arr(vec.as_slice())
    }

    /// The dot product: the sum over the component-wise products.
    fn dot(&self, other: &VEC) -> (r: NUM)
        requires
            self.model().len() == other.model().len(),
            dot_ok::<NUM>(self.model(), other.model()),
        ensures
            NUM::sval(r) == spec_dot(self.model(), other.model()),
    {
        dot_of(self, other)
    }

    /// This vector scaled to length one: every component divided by the
    /// Euclidean length.  Undefined for a vector of length zero, which
    /// the precondition excludes.
    fn normalized(&self) -> (r: VEC)
        requires
            self.model().len() == VEC::arity(),
            dot_ok::<NUM>(self.model(), self.model()),
            NUM::sqrt_val(spec_dot(self.model(), self.model())) != 0,
            forall|i: int|
                0 <= i < self.model().len() ==> NUM::in_range(
                    tdiv(
                        #[trigger] self.model()[i],
                        NUM::sqrt_val(spec_dot(self.model(), self.model())),
                    ),
                ),
        ensures
            r.model() == seq_div_num(
                self.model(),
                NUM::sqrt_val(spec_dot(self.model(), self.model())),
            ),
    {
        let l = self.len();
        self.div_num(l)
    }

    /// Normalize in place.
    fn normalize(&mut self)
        requires
            old(self).model().len() == VEC::arity(),
            dot_ok::<NUM>(old(self).model(), old(self).model()),
            NUM::sqrt_val(spec_dot(old(self).model(), old(self).model())) != 0,
            forall|i: int|
                0 <= i < old(self).model().len() ==> NUM::in_range(
                    tdiv(
                        #[trigger] old(self).model()[i],
                        NUM::sqrt_val(spec_dot(old(self).model(), old(self).model())),
                    ),
                ),
        ensures
            final(self).model() == seq_div_num(
                old(self).model(),
                NUM::sqrt_val(spec_dot(old(self).model(), old(self).model())),
            ),
    {
        let r = self.normalized();
        self.set(&r);
    }

    /// Overwrite this vector's components with `other`'s.
    fn set(&mut self, other: &VEC)
        requires
            old(self).model().len() == other.model().len(),
        ensures
            final(self).model() == other.model(),
    {
        let n = self.n_elems();
        let mut i: usize = 0;
        while i < n
            invariant
                0 <= i <= n,
                n == self.model().len(),
                self.model().len() == other.model().len(),
                forall|j: int| 0 <= j < i ==> self.model()[j] == other.model()[j],
            decreases n - i,
        {
            let ghost om = self.model();
            let v = other.get_value(i);
            self.set_value(i, v);
            proof {
                assert forall|j: int| 0 <= j < i + 1 implies self.model()[j] == other.model()[
                    j
                ] by {
                    if j < i {
                        assert(self.model()[j] == om[j]);
                    }
                }
            }
            i = i + 1;
        }
        proof {
            assert(self.model() =~= other.model());
        }
    }

    /// Component-wise sum of two vectors of equal arity.
    fn add_vec(&self, other: &VEC) -> (r: VEC)
        requires
            self.model().len() == other.model().len(),
            self.model().len() == VEC::arity(),
            forall|i: int|
                0 <= i < self.model().len() ==> NUM::in_range(
                    #[trigger] self.model()[i] + other.model()[i],
                ),
        ensures
            r.model() == seq_add(self.model(), other.model()),
    {
        let n = self.n_elems();
        let mut vals: Vec<NUM> = Vec::new();
        let mut i: usize = 0;
        while i < n
            invariant
                0 <= i <= n,
                n == self.model().len(),
                self.model().len() == other.model().len(),
                forall|j: int|
                    0 <= j < n ==> NUM::in_range(#[trigger] self.model()[j] + other.model()[j]),
                vals@.len() == i,
                forall|j: int|
                    0 <= j < i ==> NUM::sval(#[trigger] vals@[j]) == self.model()[j] + other.model()[j],
            decreases n - i,
        {
            let ghost ov = vals@;
            let v = NUM::add(self.get_value(i), other.get_value(i));
            vals.push(v);
            proof {
                assert forall|j: int| 0 <= j < i + 1 implies NUM::sval(#[trigger] vals@[j])
                    == self.model()[j] + other.model()[j] by {
                    if j < i {
                        assert(vals@[j] == ov[j]);
                    } else {
                        assert(vals@[j] == v);
                    }
                }
            }
            i = i + 1;
        }
        proof {
            assert(seq_val(vals@) =~= seq_add(self.model(), other.model()));
            assert(pad_seq(seq_val(vals@), VEC::arity()) =~= seq_add(self.model(), other.model()));
        }
        Self::new_arr(vals.as_slice())
    }

    /// Component-wise difference of two vectors of equal arity.
    fn sub_vec(&self, other: &VEC) -> (r: VEC)
        requires
            self.model().len() == other.model().len(),
            self.model().len() == VEC::arity(),
            forall|i: int|
                0 <= i < self.model().len() ==> NUM::in_range(
                    #[trigger] self.model()[i] - other.model()[i],
                ),
        ensures
            r.model() == seq_sub(self.model(), other.model()),
    {
        let n = self.n_elems();
        let mut vals: Vec<NUM> = Vec::new();
        let mut i: usize = 0;
        while i < n
            invariant
                0 <= i <= n,
                n == self.model().len(),
                self.model().len() == other.model().len(),
                forall|j: int|
                    0 <= j < n ==> NUM::in_range(#[trigger] self.model()[j] - other.model()[j]),
                vals@.len() == i,
                forall|j: int|
                    0 <= j < i ==> NUM::sval(#[trigger] vals@[j]) == self.model()[j] - other.model()[j],
            decreases n - i,
        {
            let ghost ov = vals@;
            let v = NUM::sub(self.get_value(i), other.get_value(i));
            vals.push(v);
            proof {
                assert forall|j: int| 0 <= j < i + 1 implies NUM::sval(#[trigger] vals@[j])
                    == self.model()[j] - other.model()[j] by {
                    if j < i {
                        assert(vals@[j] == ov[j]);
                    } else {
                        assert(vals@[j] == v);
                    }
                }
            }
            i = i + 1;
        }
        proof {
            assert(seq_val(vals@) =~= seq_sub(self.model(), other.model()));
            assert(pad_seq(seq_val(vals@), VEC::arity()) =~= seq_sub(self.model(), other.model()));
        }
        Self::new_arr(vals.as_slice())
    }

    /// Component-wise product of two vectors of equal arity.
    fn mul_vec(&self, other: &VEC) -> (r: VEC)
        requires
            self.model().len() == other.model().len(),
            self.model().len() == VEC::arity(),
            forall|i: int|
                0 <= i < self.model().len() ==> NUM::in_range(
                    #[trigger] (self.model()[i] * other.model()[i]),
                ),
        ensures
            r.model() == seq_mul(self.model(), other.model()),
    {
        let n = self.n_elems();
        let mut vals: Vec<NUM> = Vec::new();
        let mut i: usize = 0;
        while i < n
            invariant
                0 <= i <= n,
                n == self.model().len(),
                self.model().len() == other.model().len(),
                forall|j: int|
                    0 <= j < n ==> NUM::in_range(#[trigger] (self.model()[j] * other.model()[j])),
                vals@.len() == i,
                forall|j: int|
                    0 <= j < i ==> NUM::sval(#[trigger] vals@[j]) == self.model()[j] * other.model()[j],
            decreases n - i,
        {
            let ghost ov = vals@;
            let v = NUM::mul(self.get_value(i), other.get_value(i));
            vals.push(v);
            proof {
                assert forall|j: int| 0 <= j < i + 1 implies NUM::sval(#[trigger] vals@[j])
                    == self.model()[j] * other.model()[j] by {
                    if j < i {
                        assert(vals@[j] == ov[j]);
                    } else {
                        assert(vals@[j] == v);
                    }
                }
            }
            i = i + 1;
        }
        proof {
            assert(seq_val(vals@) =~= seq_mul(self.model(), other.model()));
            assert(pad_seq(seq_val(vals@), VEC::arity()) =~= seq_mul(self.model(), other.model()));
        }
        Self::new_arr(vals.as_slice())
    }

    /// Component-wise quotient of two vectors of equal arity.  Every
    /// divisor component must be nonzero, and each quotient must fit the
    /// scalar type (on a signed type only the most negative value divided
    /// by minus one does not).
    fn div_vec(&self, other: &VEC) -> (r: VEC)
        requires
            self.model().len() == other.model().len(),
            self.model().len() == VEC::arity(),
            forall|i: int| 0 <= i < self.model().len() ==> #[trigger] other.model()[i] != 0,
            forall|i: int|
                0 <= i < self.model().len() ==> NUM::in_range(
                    tdiv(#[trigger] self.model()[i], other.model()[i]),
                ),
        ensures
            r.model() == seq_div(self.model(), other.model()),
    {
        let n = self.n_elems();
        let mut vals: Vec<NUM> = Vec::new();
        let mut i: usize = 0;
        while i < n
            invariant
                0 <= i <= n,
                n == self.model().len(),
                self.model().len() == other.model().len(),
                forall|j: int| 0 <= j < n ==> #[trigger] other.model()[j] != 0,
                forall|j: int|
                    0 <= j < n ==> NUM::in_range(tdiv(#[trigger] self.model()[j], other.model()[j])),
                vals@.len() == i,
                forall|j: int|
                    0 <= j < i ==> NUM::sval(#[trigger] vals@[j]) == tdiv(self.model()[j], other.model()[j]),
            decreases n - i,
        {
            let ghost ov = vals@;
            let v = NUM::div(self.get_value(i), other.get_value(i));
            vals.push(v);
            proof {
                assert forall|j: int| 0 <= j < i + 1 implies NUM::sval(#[trigger] vals@[j])
                    == tdiv(self.model()[j], other.model()[j]) by {
                    if j < i {
                        assert(vals@[j] == ov[j]);
                    } else {
                        assert(vals@[j] == v);
                    }
                }
            }
            i = i + 1;
        }
        proof {
            assert(seq_val(vals@) =~= seq_div(self.model(), other.model()));
            assert(pad_seq(seq_val(vals@), VEC::arity()) =~= seq_div(self.model(), other.model()));
        }
        Self::new_arr(vals.as_slice())
    }

    /// Add a scalar to every component.
    fn add_num(&self, other: NUM) -> (r: VEC)
        requires
            self.model().len() == VEC::arity(),
            forall|i: int|
                0 <= i < self.model().len() ==> NUM::in_range(
                    #[trigger] self.model()[i] + NUM::sval(other),
                ),
        ensures
            r.model() == seq_add_num(self.model(), NUM::sval(other)),
    {
        let n = self.n_elems();
        let mut vals: Vec<NUM> = Vec::new();
        let mut i: usize = 0;
        while i < n
            invariant
                0 <= i <= n,
                n == self.model().len(),
                forall|j: int|
                    0 <= j < n ==> NUM::in_range(#[trigger] self.model()[j] + NUM::sval(other)),
                vals@.len() == i,
                forall|j: int|
                    0 <= j < i ==> NUM::sval(#[trigger] vals@[j]) == self.model()[j] + NUM::sval(
                        other,
                    ),
            decreases n - i,
        {
            let ghost ov = vals@;
            let v = NUM::add(self.get_value(i), other);
            vals.push(v);
            proof {
                assert forall|j: int| 0 <= j < i + 1 implies NUM::sval(#[trigger] vals@[j])
                    == self.model()[j] + NUM::sval(other) by {
                    if j < i {
                        assert(vals@[j] == ov[j]);
                    } else {
                        assert(vals@[j] == v);
                    }
                }
            }
            i = i + 1;
        }
        proof {
            assert(seq_val(vals@) =~= seq_add_num(self.model(), NUM::sval(other)));
            assert(pad_seq(seq_val(vals@), VEC::arity()) =~= seq_add_num(
                self.model(),
                NUM::sval(other),
            ));
        }
        Self::new_arr(vals.as_slice())
    }

    /// Subtract a scalar from every component.
    fn sub_num(&self, other: NUM) -> (r: VEC)
        requires
            self.model().len() == VEC::arity(),
            forall|i: int|
                0 <= i < self.model().len() ==> NUM::in_range(
                    #[trigger] self.model()[i] - NUM::sval(other),
                ),
        ensures
            r.model() == seq_sub_num(self.model(), NUM::sval(other)),
    {
        let n = self.n_elems();
        let mut vals: Vec<NUM> = Vec::new();
        let mut i: usize = 0;
        while i < n
            invariant
                0 <= i <= n,
                n == self.model().len(),
                forall|j: int|
                    0 <= j < n ==> NUM::in_range(#[trigger] self.model()[j] - NUM::sval(other)),
                vals@.len() == i,
                forall|j: int|
                    0 <= j < i ==> NUM::sval(#[trigger] vals@[j]) == self.model()[j] - NUM::sval(other),
            decreases n - i,
        {
            let ghost ov = vals@;
            let v = NUM::sub(self.get_value(i), other);
            vals.push(v);
            proof {
                assert forall|j: int| 0 <= j < i + 1 implies NUM::sval(#[trigger] vals@[j])
                    == self.model()[j] - NUM::sval(other) by {
                    if j < i {
                        assert(vals@[j] == ov[j]);
                    } else {
                        assert(vals@[j] == v);
                    }
                }
            }
            i = i + 1;
        }
        proof {
            assert(seq_val(vals@) =~= seq_sub_num(self.model(), NUM::sval(other)));
            assert(pad_seq(seq_val(vals@), VEC::arity()) =~= seq_sub_num(
                self.model(),
                NUM::sval(other),
            ));
        }
        Self::new_arr(vals.as_slice())
    }

    /// Multiply every component by a scalar.
    fn mul_num(&self, other: NUM) -> (r: VEC)
        requires
            self.model().len() == VEC::arity(),
            forall|i: int|
                0 <= i < self.model().len() ==> NUM::in_range(
                    #[trigger] (self.model()[i] * NUM::sval(other)),
                ),
        ensures
            r.model() == seq_mul_num(self.model(), NUM::sval(other)),
    {
        let n = self.n_elems();
        let mut vals: Vec<NUM> = Vec::new();
        let mut i: usize = 0;
        while i < n
            invariant
                0 <= i <= n,
                n == self.model().len(),
                forall|j: int|
                    0 <= j < n ==> NUM::in_range(#[trigger] (self.model()[j] * NUM::sval(other))),
                vals@.len() == i,
                forall|j: int|
                    0 <= j < i ==> NUM::sval(#[trigger] vals@[j]) == self.model()[j] * NUM::sval(other),
            decreases n - i,
        {
            let ghost ov = vals@;
            let v = NUM::mul(self.get_value(i), other);
            vals.push(v);
            proof {
                assert forall|j: int| 0 <= j < i + 1 implies NUM::sval(#[trigger] vals@[j])
                    == self.model()[j] * NUM::sval(other) by {
                    if j < i {
                        assert(vals@[j] == ov[j]);
                    } else {
                        assert(vals@[j] == v);
                    }
                }
            }
            i = i + 1;
        }
        proof {
            assert(seq_val(vals@) =~= seq_mul_num(self.model(), NUM::sval(other)));
            assert(pad_seq(seq_val(vals@), VEC::arity()) =~= seq_mul_num(
                self.model(),
                NUM::sval(other),
            ));
        }
        Self::new_arr(vals.as_slice())
    }

    /// Divide every component by a nonzero scalar.
    fn div_num(&self, other: NUM) -> (r: VEC)
        requires
            self.model().len() == VEC::arity(),
            NUM::sval(other) != 0,
            forall|i: int|
                0 <= i < self.model().len() ==> NUM::in_range(
                    tdiv(#[trigger] self.model()[i], NUM::sval(other)),
                ),
        ensures
            r.model() == seq_div_num(self.model(), NUM::sval(other)),
    {
        let n = self.n_elems();
        let mut vals: Vec<NUM> = Vec::new();
        let mut i: usize = 0;
        while i < n
            invariant
                0 <= i <= n,
                n == self.model().len(),
                NUM::sval(other) != 0,
                forall|j: int|
                    0 <= j < n ==> NUM::in_range(tdiv(#[trigger] self.model()[j], NUM::sval(other))),
                vals@.len() == i,
                forall|j: int|
                    0 <= j < i ==> NUM::sval(#[trigger] vals@[j]) == tdiv(self.model()[j], NUM::sval(other)),
            decreases n - i,
        {
            let ghost ov = vals@;
            let v = NUM::div(self.get_value(i), other);
            vals.push(v);
            proof {
                assert forall|j: int| 0 <= j < i + 1 implies NUM::sval(#[trigger] vals@[j])
                    == tdiv(self.model()[j], NUM::sval(other)) by {
                    if j < i {
                        assert(vals@[j] == ov[j]);
                    } else {
                        assert(vals@[j] == v);
                    }
                }
            }
            i = i + 1;
        }
        proof {
            assert(seq_val(vals@) =~= seq_div_num(self.model(), NUM::sval(other)));
            assert(pad_seq(seq_val(vals@), VEC::arity()) =~= seq_div_num(
                self.model(),
                NUM::sval(other),
            ));
        }
        Self::new_arr(vals.as_slice())
    }

    /// In-place component-wise sum.
    fn add_eq_vec(&mut self, other: &VEC)
        requires
            old(self).model().len() == other.model().len(),
            old(self).model().len() == VEC::arity(),
            forall|i: int|
                0 <= i < old(self).model().len() ==> NUM::in_range(
                    #[trigger] old(self).model()[i] + other.model()[i],
                ),
        ensures
            final(self).model() == seq_add(old(self).model(), other.model()),
    {
        let r = self.add_vec(other);
        self.set(&r);
    }

    /// In-place component-wise difference.
    fn sub_eq_vec(&mut self, other: &VEC)
        requires
            old(self).model().len() == other.model().len(),
            old(self).model().len() == VEC::arity(),
            forall|i: int|
                0 <= i < old(self).model().len() ==> NUM::in_range(
                    #[trigger] old(self).model()[i] - other.model()[i],
                ),
        ensures
            final(self).model() == seq_sub(old(self).model(), other.model()),
    {
        let r = self.sub_vec(other);
        self.set(&r);
    }

    /// In-place component-wise product.
    fn mul_eq_vec(&mut self, other: &VEC)
        requires
            old(self).model().len() == other.model().len(),
            old(self).model().len() == VEC::arity(),
            forall|i: int|
                0 <= i < old(self).model().len() ==> NUM::in_range(
                    #[trigger] (old(self).model()[i] * other.model()[i]),
                ),
        ensures
            final(self).model() == seq_mul(old(self).model(), other.model()),
    {
        let r = self.mul_vec(other);
        self.set(&r);
    }

    /// In-place component-wise quotient.
    fn div_eq_vec(&mut self, other: &VEC)
        requires
            old(self).model().len() == other.model().len(),
            old(self).model().len() == VEC::arity(),
            forall|i: int| 0 <= i < old(self).model().len() ==> #[trigger] other.model()[i] != 0,
            forall|i: int|
                0 <= i < old(self).model().len() ==> NUM::in_range(
                    tdiv(#[trigger] old(self).model()[i], other.model()[i]),
                ),
        ensures
            final(self).model() == seq_div(old(self).model(), other.model()),
    {
        let r = self.div_vec(other);
        self.set(&r);
    }

    /// In-place scalar sum.
    fn add_eq_num(&mut self, other: NUM)
        requires
            old(self).model().len() == VEC::arity(),
            forall|i: int|
                0 <= i < old(self).model().len() ==> NUM::in_range(
                    #[trigger] old(self).model()[i] + NUM::sval(other),
                ),
        ensures
            final(self).model() == seq_add_num(old(self).model(), NUM::sval(other)),
    {
        let r = self.add_num(other);
        self.set(&r);
    }

    /// In-place scalar difference.
    fn sub_eq_num(&mut self, other: NUM)
        requires
            old(self).model().len() == VEC::arity(),
            forall|i: int|
                0 <= i < old(self).model().len() ==> NUM::in_range(
                    #[trigger] old(self).model()[i] - NUM::sval(other),
                ),
        ensures
            final(self).model() == seq_sub_num(old(self).model(), NUM::sval(other)),
    {
        let r = self.sub_num(other);
        self.set(&r);
    }

    /// In-place scalar product.
    fn mul_eq_num(&mut self, other: NUM)
        requires
            old(self).model().len() == VEC::arity(),
            forall|i: int|
                0 <= i < old(self).model().len() ==> NUM::in_range(
                    #[trigger] (old(self).model()[i] * NUM::sval(other)),
                ),
        ensures
            final(self).model() == seq_mul_num(old(self).model(), NUM::sval(other)),
    {
        let r = self.mul_num(other);
        self.set(&r);
    }

    /// In-place scalar quotient.
    fn div_eq_num(&mut self, other: NUM)
        requires
            old(self).model().len() == VEC::arity(),
            NUM::sval(other) != 0,
            forall|i: int|
                0 <= i < old(self).model().len() ==> NUM::in_range(
                    tdiv(#[trigger] old(self).model()[i], NUM::sval(other)),
                ),
        ensures
            final(self).model() == seq_div_num(old(self).model(), NUM::sval(other)),
    {
        let r = self.div_num(other);
        self.set(&r);
    }
}

/// A 2-vector: named accessors for the two components.
pub trait Vec2<N: CharMathNumeric<N>, V: VectorBase<N>>: Vector<N, V> {
    fn new(x: N, y: N) -> (r: V)
        ensures
            r.model() == seq![N::sval(x), N::sval(y)],
    ;

    fn get_x(&self) -> (r: N)
        requires
            self.model().len() >= 1,
        ensures
            N::sval(r) == self.model()[0],
    {
        self.get_value(0)
    }

    fn set_x(&mut self, x: N)
        requires
            old(self).model().len() >= 1,
        ensures
            final(self).model() == old(self).model().update(0, N::sval(x)),
    {
        self.set_value(0, x);
    }

    fn get_y(&self) -> (r: N)
        requires
            self.model().len() >= 2,
        ensures
            N::sval(r) == self.model()[1],
    {
        self.get_value(1)
    }

    fn set_y(&mut self, y: N)
        requires
            old(self).model().len() >= 2,
        ensures
            final(self).model() == old(self).model().update(1, N::sval(y)),
    {
        self.set_value(1, y);
    }
}

/// A 3-vector: named accessors and the cross product.
pub trait Vec3<N: CharMathNumeric<N>, V: VectorBase<N>>: Vector<N, V> {
    fn new(x: N, y: N, z: N) -> (r: V)
        ensures
            r.model() == seq![N::sval(x), N::sval(y), N::sval(z)],
    ;

    /// The 3-dimensional cross product.
    fn cross(&self, other: &V) -> (r: V)
        requires
            self.model().len() == 3,
            other.model().len() == 3,
            cross_ok::<N>(self.model(), other.model()),
        ensures
            r.model() == cross_val(self.model(), other.model()),
    {
        let a0 = self.get_value(0);
        let a1 = self.get_value(1);
        let a2 = self.get_value(2);
        let b0 = other.get_value(0);
        let b1 = other.get_value(1);
        let b2 = other.get_value(2);
        Self::new(
            N::sub(N::mul(a1, b2), N::mul(a2, b1)),
            N::sub(N::mul(a2, b0), N::mul(a0, b2)),
            N::sub(N::mul(a0, b1), N::mul(a1, b0)),
        )
    }

    fn get_x(&self) -> (r: N)
        requires
            self.model().len() >= 1,
        ensures
            N::sval(r) == self.model()[0],
    {
        self.get_value(0)
    }

    fn set_x(&mut self, x: N)
        requires
            old(self).model().len() >= 1,
        ensures
            final(self).model() == old(self).model().update(0, N::sval(x)),
    {
        self.set_value(0, x);
    }

    fn get_y(&self) -> (r: N)
        requires
            self.model().len() >= 2,
        ensures
            N::sval(r) == self.model()[1],
    {
        self.get_value(1)
    }

    fn set_y(&mut self, y: N)
        requires
            old(self).model().len() >= 2,
        ensures
            final(self).model() == old(self).model().update(1, N::sval(y)),
    {
        self.set_value(1, y);
    }

    fn get_z(&self) -> (r: N)
        requires
            self.model().len() >= 3,
        ensures
            N::sval(r) == self.model()[2],
    {
        self.get_value(2)
    }

    fn set_z(&mut self, z: N)
        requires
            old(self).model().len() >= 3,
        ensures
            final(self).model() == old(self).model().update(2, N::sval(z)),
    {
        self.set_value(2, z);
    }
}

/// A 4-vector: named accessors for the four components.
pub trait Vec4<N: CharMathNumeric<N>, V: VectorBase<N>>: Vector<N, V> {
    fn new(x: N, y: N, z: N, w: N) -> (r: V)
        ensures
            r.model() == seq![N::sval(x), N::sval(y), N::sval(z), N::sval(w)],
    ;

    fn get_x(&self) -> (r: N)
        requires
            self.model().len() >= 1,
        ensures
            N::sval(r) == self.model()[0],
    {
        self.get_value(0)
    }

    fn set_x(&mut self, x: N)
        requires
            old(self).model().len() >= 1,
        ensures
            final(self).model() == old(self).model().update(0, N::sval(x)),
    {
        self.set_value(0, x);
    }

    fn get_y(&self) -> (r: N)
        requires
            self.model().len() >= 2,
        ensures
            N::sval(r) == self.model()[1],
    {
        self.get_value(1)
    }

    fn set_y(&mut self, y: N)
        requires
            old(self).model().len() >= 2,
        ensures
            final(self).model() == old(self).model().update(1, N::sval(y)),
    {
        self.set_value(1, y);
    }

    fn get_z(&self) -> (r: N)
        requires
            self.model().len() >= 3,
        ensures
            N::sval(r) == self.model()[2],
    {
        self.get_value(2)
    }

    fn set_z(&mut self, z: N)
        requires
            old(self).model().len() >= 3,
        ensures
            final(self).model() == old(self).model().update(2, N::sval(z)),
    {
        self.set_value(2, z);
    }

    fn get_w(&self) -> (r: N)
        requires
            self.model().len() >= 4,
        ensures
            N::sval(r) == self.model()[3],
    {
        self.get_value(3)
    }

    fn set_w(&mut self, w: N)
        requires
            old(self).model().len() >= 4,
        ensures
            final(self).model() == old(self).model().update(3, N::sval(w)),
    {
        self.set_value(3, w);
    }
}

/// The concrete 2-vector, generic over the scalar.
#[derive(Debug, Clone, Copy)]
pub struct GenericVec2<N: CharMathNumeric<N>> {
    x: N,
    y: N,
}

impl<N: CharMathNumeric<N>> VectorBase<N> for GenericVec2<N> {
    closed spec fn model(&self) -> Seq<int> {
        seq![N::sval(self.x), N::sval(self.y)]
    }

    open spec fn arity() -> nat {
        2
    }

    proof fn model_len(&self) {
    }

    fn n_elems(&self) -> usize {
        2
    }

    fn len(&self) -> (r: N) {
        proof {
            let m = self.model();
            lemma_spec_dot2(m, m);
            assert(m.take(2) =~= m);
        }
        let d = N::add(N::mul(self.x, self.x), N::mul(self.y, self.y));
        N::sqrt(d)
    }

    fn get_value(&self, index: usize) -> (r: N) {
        if index == 0 {
            self.x
        } else {
            self.y
        }
    }

    fn set_value(&mut self, index: usize, val: N) {
        if index == 0 {
            self.x = val;
        } else {
            self.y = val;
        }
        proof {
            assert(self.model() =~= old(self).model().update(index as int, N::sval(val)));
        }
    }
}

impl<N: CharMathNumeric<N>> CharMathCopy<GenericVec2<N>> for GenericVec2<N> {
    fn cm_copy(&self) -> (r: GenericVec2<N>)
        ensures
            r.model() == self.model(),
    {
        GenericVec2 { x: self.x, y: self.y }
    }
}

impl<N: CharMathNumeric<N>> Vector<N, GenericVec2<N>> for GenericVec2<N> {
    fn new_arr(arr: &[N]) -> (r: GenericVec2<N>) {
        let x = if arr.len() > 0 {
            arr[0]
        } else {
            N::zero()
        };
        let y = if arr.len() > 1 {
            arr[1]
        } else {
            N::zero()
        };
        let r = GenericVec2 { x, y };
        proof {
            assert(r.model() =~= pad_seq(seq_val(arr@), 2));
        }
        r
    }
}

impl<N: CharMathNumeric<N>> Vec2<N, GenericVec2<N>> for GenericVec2<N> {
    fn new(x: N, y: N) -> (r: GenericVec2<N>) {
        GenericVec2 { x, y }
    }
}


/// The concrete 3-vector, generic over the scalar.
#[derive(Debug, Clone, Copy)]
pub struct GenericVec3<N: CharMathNumeric<N>> {
    x: N,
    y: N,
    z: N,
}

impl<N: CharMathNumeric<N>> VectorBase<N> for GenericVec3<N> {
    closed spec fn model(&self) -> Seq<int> {
        seq![N::sval(self.x), N::sval(self.y), N::sval(self.z)]
    }

    open spec fn arity() -> nat {
        3
    }

    proof fn model_len(&self) {
    }

    fn n_elems(&self) -> usize {
        3
    }

    fn len(&self) -> (r: N) {
        proof {
            let m = self.model();
            lemma_spec_dot3(m, m);
            assert(m.take(3) =~= m);
            assert(m.take(1) =~= seq![N::sval(self.x)]);
            assert(m.take(2) =~= seq![N::sval(self.x), N::sval(self.y)]);
            lemma_spec_dot2(m.take(2), m.take(2));
        }
        let d = N::add(N::add(N::mul(self.x, self.x), N::mul(self.y, self.y)), N::mul(self.z, self.z));
        N::sqrt(d)
    }

    fn get_value(&self, index: usize) -> (r: N) {
        if index == 0 {
            self.x
        } else if index == 1 {
            self.y
        } else {
            self.z
        }
    }

    fn set_value(&mut self, index: usize, val: N) {
        if index == 0 {
            self.x = val;
        } else if index == 1 {
            self.y = val;
        } else {
            self.z = val;
        }
        proof {
            assert(self.model() =~= old(self).model().update(index as int, N::sval(val)));
        }
    }
}

impl<N: CharMathNumeric<N>> CharMathCopy<GenericVec3<N>> for GenericVec3<N> {
    fn cm_copy(&self) -> (r: GenericVec3<N>)
        ensures
            r.model() == self.model(),
    {
        GenericVec3 { x: self.x, y: self.y, z: self.z }
    }
}

impl<N: CharMathNumeric<N>> Vector<N, GenericVec3<N>> for GenericVec3<N> {
    fn new_arr(arr: &[N]) -> (r: GenericVec3<N>) {
        let x = if arr.len() > 0 {
            arr[0]
        } else {
            N::zero()
        };
        let y = if arr.len() > 1 {
            arr[1]
        } else {
            N::zero()
        };
        let z = if arr.len() > 2 {
            arr[2]
        } else {
            N::zero()
        };
        let r = GenericVec3 { x, y, z };
        proof {
            assert(r.model() =~= pad_seq(seq_val(arr@), 3));
        }
        r
    }
}

impl<N: CharMathNumeric<N>> Vec3<N, GenericVec3<N>> for GenericVec3<N> {
    fn new(x: N, y: N, z: N) -> (r: GenericVec3<N>) {
        GenericVec3 { x, y, z }
    }
}

/// The concrete 4-vector, generic over the scalar.
#[derive(Debug, Clone, Copy)]
pub struct GenericVec4<N: CharMathNumeric<N>> {
    x: N,
    y: N,
    z: N,
    w: N,
}

impl<N: CharMathNumeric<N>> VectorBase<N> for GenericVec4<N> {
    closed spec fn model(&self) -> Seq<int> {
        seq![N::sval(self.x), N::sval(self.y), N::sval(self.z), N::sval(self.w)]
    }

    open spec fn arity() -> nat {
        4
    }

    proof fn model_len(&self) {
    }

    fn n_elems(&self) -> usize {
        4
    }

    fn len(&self) -> (r: N) {
        proof {
            let m = self.model();
            lemma_spec_dot4(m, m);
            assert(m.take(4) =~= m);
            assert(m.take(1) =~= seq![N::sval(self.x)]);
            assert(m.take(2) =~= seq![N::sval(self.x), N::sval(self.y)]);
            assert(m.take(3) =~= seq![N::sval(self.x), N::sval(self.y), N::sval(self.z)]);
            lemma_spec_dot2(m.take(2), m.take(2));
            lemma_spec_dot3(m.take(3), m.take(3));
        }
        let d = N::add(N::add(N::add(N::mul(self.x, self.x), N::mul(self.y, self.y)), N::mul(self.z, self.z)), N::mul(self.w, self.w));
        N::sqrt(d)
    }

    fn get_value(&self, index: usize) -> (r: N) {
        if index == 0 {
            self.x
        } else if index == 1 {
            self.y
        } else if index == 2 {
            self.z
        } else {
            self.w
        }
    }

    fn set_value(&mut self, index: usize, val: N) {
        if index == 0 {
            self.x = val;
        } else if index == 1 {
            self.y = val;
        } else if index == 2 {
            self.z = val;
        } else {
            self.w = val;
        }
        proof {
            assert(self.model() =~= old(self).model().update(index as int, N::sval(val)));
        }
    }
}

impl<N: CharMathNumeric<N>> CharMathCopy<GenericVec4<N>> for GenericVec4<N> {
    fn cm_copy(&self) -> (r: GenericVec4<N>)
        ensures
            r.model() == self.model(),
    {
        GenericVec4 { x: self.x, y: self.y, z: self.z, w: self.w }
    }
}

impl<N: CharMathNumeric<N>> Vector<N, GenericVec4<N>> for GenericVec4<N> {
    fn new_arr(arr: &[N]) -> (r: GenericVec4<N>) {
        let x = if arr.len() > 0 {
            arr[0]
        } else {
            N::zero()
        };
        let y = if arr.len() > 1 {
            arr[1]
        } else {
            N::zero()
        };
        let z = if arr.len() > 2 {
            arr[2]
        } else {
            N::zero()
        };
        let w = if arr.len() > 3 {
            arr[3]
        } else {
            N::zero()
        };
        let r = GenericVec4 { x, y, z, w };
        proof {
            assert(r.model() =~= pad_seq(seq_val(arr@), 4));
        }
        r
    }
}

impl<N: CharMathNumeric<N>> Vec4<N, GenericVec4<N>> for GenericVec4<N> {
    fn new(x: N, y: N, z: N, w: N) -> (r: GenericVec4<N>) {
        GenericVec4 { x, y, z, w }
    }
}

/// The per-scalar vector names of the integer scalars.
pub type Vec2i16 = GenericVec2<i16>;
pub type Vec2i32 = GenericVec2<i32>;
pub type Vec2i64 = GenericVec2<i64>;
pub type Vec2i128 = GenericVec2<i128>;
pub type Vec2u8 = GenericVec2<u8>;
pub type Vec2u16 = GenericVec2<u16>;
pub type Vec2u32 = GenericVec2<u32>;
pub type Vec2u64 = GenericVec2<u64>;
pub type Vec2u128 = GenericVec2<u128>;
pub type Vec2usize = GenericVec2<usize>;
pub type Vec3i16 = GenericVec3<i16>;
pub type Vec3i32 = GenericVec3<i32>;
pub type Vec3i64 = GenericVec3<i64>;
pub type Vec3i128 = GenericVec3<i128>;
pub type Vec3u8 = GenericVec3<u8>;
pub type Vec3u16 = GenericVec3<u16>;
pub type Vec3u32 = GenericVec3<u32>;
pub type Vec3u64 = GenericVec3<u64>;
pub type Vec3u128 = GenericVec3<u128>;
pub type Vec3usize = GenericVec3<usize>;
pub type Vec4i16 = GenericVec4<i16>;
pub type Vec4i32 = GenericVec4<i32>;
pub type Vec4i64 = GenericVec4<i64>;
pub type Vec4i128 = GenericVec4<i128>;
pub type Vec4u8 = GenericVec4<u8>;
pub type Vec4u16 = GenericVec4<u16>;
pub type Vec4u32 = GenericVec4<u32>;
pub type Vec4u64 = GenericVec4<u64>;
pub type Vec4u128 = GenericVec4<u128>;
pub type Vec4usize = GenericVec4<usize>;


/// Vector addition is commutative: adding `b` to `a` component-wise
/// gives the same vector as adding `a` to `b`.
pub proof fn lemma_add_vec_comm(a: Seq<int>, b: Seq<int>)
    requires
        a.len() == b.len(),
    ensures
        seq_add(a, b) == seq_add(b, a),
{
    assert(seq_add(a, b) =~= seq_add(b, a));
}

/// Adding and then subtracting the same scalar gives the vector back.
pub proof fn lemma_add_sub_num_cancel(a: Seq<int>, s: int)
    ensures
        seq_sub_num(seq_add_num(a, s), s) == a,
{
    assert(seq_sub_num(seq_add_num(a, s), s) =~= a);
}

/// Multiplying and then dividing by the same nonzero scalar gives the
/// vector back.
pub proof fn lemma_mul_div_num_cancel(a: Seq<int>, s: int)
    requires
        s != 0,
    ensures
        seq_div_num(seq_mul_num(a, s), s) == a,
{
    assert forall|i: int| 0 <= i < a.len() implies seq_div_num(seq_mul_num(a, s), s)[i]
        == a[i] by {
        lemma_tdiv_cancel(a[i], s);
    }
    assert(seq_div_num(seq_mul_num(a, s), s) =~= a);
}

/// The cross product of two 3-vectors is perpendicular to both: its
/// dot product against either factor is zero.
pub proof fn lemma_cross_perpendicular(a: Seq<int>, b: Seq<int>)
    requires
        a.len() == 3,
        b.len() == 3,
    ensures
        spec_dot(cross_val(a, b), a) == 0,
        spec_dot(cross_val(a, b), b) == 0,
{
    let c = cross_val(a, b);
    lemma_spec_dot3(c, a);
    lemma_spec_dot3(c, b);
    assert((a[1] * b[2] - a[2] * b[1]) * a[0] + (a[2] * b[0] - a[0] * b[2]) * a[1] + (a[0] * b[1]
        - a[1] * b[0]) * a[2] == 0) by (nonlinear_arith);
    assert((a[1] * b[2] - a[2] * b[1]) * b[0] + (a[2] * b[0] - a[0] * b[2]) * b[1] + (a[0] * b[1]
        - a[1] * b[0]) * b[2] == 0) by (nonlinear_arith);
}

/// The cross product is anticommutative: swapping the factors negates
/// every component.
pub proof fn lemma_cross_anticomm(a: Seq<int>, b: Seq<int>)
    requires
        a.len() == 3,
        b.len() == 3,
    ensures
        forall|i: int| 0 <= i < 3 ==> cross_val(a, b)[i] == -cross_val(b, a)[i],
{
}

} // verus!
