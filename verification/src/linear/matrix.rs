//! Matrices over a `CharMathNumeric` scalar: a dynamically sized
//! `GenericMatrix` and the fixed-size `Mat2` / `Mat3` / `Mat4`, with
//! matrix-matrix, matrix-vector and matrix-scalar operations, and the
//! square-matrix algorithms (cofactor expansion, determinant, adjoint,
//! inverse).
//!
//! Contracts are stated over each matrix's model, the rectangular
//! sequence of row sequences of the mathematical values of its cells.

use crate::linear::vector::{
    dot_ok, seq_val, spec_dot, Vector, VectorBase,
};
use crate::numeric::{tdiv, CharMathNumeric};
use crate::CharMathCopy;
use vstd::arithmetic::div_mod::lemma_fundamental_div_mod_converse_div;
use vstd::arithmetic::div_mod::lemma_fundamental_div_mod_converse_mod;
use vstd::arithmetic::div_mod::lemma_mod_bound;
use vstd::prelude::*;

pub mod matrices;

verus! {

/// The width of a grid: the length of its first row (0 for no rows).
pub open spec fn mwidth(m: Seq<Seq<int>>) -> nat {
    if m.len() == 0 {
        0
    } else {
        m[0].len()
    }
}

/// A rectangular grid: every row as long as the first.
pub open spec fn rect(m: Seq<Seq<int>>) -> bool {
    forall|i: int| 0 <= i < m.len() ==> (#[trigger] m[i]).len() == mwidth(m)
}

/// Column `j` of a grid.
pub open spec fn col(m: Seq<Seq<int>>, j: int) -> Seq<int> {
    Seq::new(m.len(), |i: int| m[i][j])
}

/// The row-major flattening of a rectangular grid.
pub open spec fn mat_flat(m: Seq<Seq<int>>) -> Seq<int> {
    Seq::new(m.len() * mwidth(m), |k: int| m[k / (mwidth(m) as int)][k % (mwidth(m) as int)])
}

/// The grid read row-major out of a flat sequence, `h` rows by `w`
/// columns, with zeros where the sequence runs out.
pub open spec fn grid_from_flat(s: Seq<int>, h: nat, w: nat) -> Seq<Seq<int>> {
    Seq::new(
        h,
        |i: int|
            Seq::new(
                w,
                |j: int|
                    if i * (w as int) + j < s.len() {
                        s[i * (w as int) + j]
                    } else {
                        0
                    },
            ),
    )
}

/// The model of a `Vec` of row `Vec`s.
pub open spec fn grid_of_vecs<N: CharMathNumeric<N>>(s: Seq<Vec<N>>) -> Seq<Seq<int>> {
    Seq::new(s.len(), |i: int| seq_val(s[i]@))
}

/// The matrix product: cell `(y, x)` is the dot product of row `y` of
/// `a` with column `x` of `b`.
pub open spec fn mat_mul(a: Seq<Seq<int>>, b: Seq<Seq<int>>) -> Seq<Seq<int>> {
    Seq::new(a.len(), |y: int| Seq::new(mwidth(b), |x: int| spec_dot(a[y], col(b, x))))
}

/// The product of `a` and `b` can be computed in the scalar type.
pub open spec fn mat_mul_ok<N: CharMathNumeric<N>>(a: Seq<Seq<int>>, b: Seq<Seq<int>>) -> bool {
    forall|y: int, x: int|
        0 <= y < a.len() && 0 <= x < mwidth(b) ==> #[trigger] dot_ok::<N>(a[y], col(b, x))
}

/// The four scalar-broadcast operations on a grid.
pub open spec fn mat_add_num(m: Seq<Seq<int>>, s: int) -> Seq<Seq<int>> {
    Seq::new(m.len(), |i: int| Seq::new(m[i].len(), |j: int| m[i][j] + s))
}

pub open spec fn mat_sub_num(m: Seq<Seq<int>>, s: int) -> Seq<Seq<int>> {
    Seq::new(m.len(), |i: int| Seq::new(m[i].len(), |j: int| m[i][j] - s))
}

pub open spec fn mat_mul_num(m: Seq<Seq<int>>, s: int) -> Seq<Seq<int>> {
    Seq::new(m.len(), |i: int| Seq::new(m[i].len(), |j: int| m[i][j] * s))
}

pub open spec fn mat_div_num(m: Seq<Seq<int>>, s: int) -> Seq<Seq<int>> {
    Seq::new(m.len(), |i: int| Seq::new(m[i].len(), |j: int| tdiv(m[i][j], s)))
}

/// Scalar-broadcast in-range conditions.
pub open spec fn mat_add_num_ok<N: CharMathNumeric<N>>(m: Seq<Seq<int>>, s: int) -> bool {
    forall|i: int, j: int|
        0 <= i < m.len() && 0 <= j < m[i].len() ==> N::in_range(#[trigger] m[i][j] + s)
}

pub open spec fn mat_sub_num_ok<N: CharMathNumeric<N>>(m: Seq<Seq<int>>, s: int) -> bool {
    forall|i: int, j: int|
        0 <= i < m.len() && 0 <= j < m[i].len() ==> N::in_range(#[trigger] m[i][j] - s)
}

pub open spec fn mat_mul_num_ok<N: CharMathNumeric<N>>(m: Seq<Seq<int>>, s: int) -> bool {
    forall|i: int, j: int|
        0 <= i < m.len() && 0 <= j < m[i].len() ==> N::in_range(#[trigger] (m[i][j] * s))
}

pub open spec fn mat_div_num_ok<N: CharMathNumeric<N>>(m: Seq<Seq<int>>, s: int) -> bool {
    forall|i: int, j: int|
        0 <= i < m.len() && 0 <= j < m[i].len() ==> N::in_range(tdiv(#[trigger] m[i][j], s))
}

/// Flat-index arithmetic: position `(i, j)` of a `w`-wide grid sits at
/// flat index `i * w + j`.
pub proof fn lemma_flat_index(i: int, j: int, w: int)
    requires
        0 <= i,
        0 <= j < w,
    ensures
        (i * w + j) / w == i,
        (i * w + j) % w == j,
        0 <= i * w + j,
        i * w + j < (i + 1) * w,
{
    assert(i * w + j >= 0 && i * w + j < (i + 1) * w && (i + 1) * w == i * w + w)
        by (nonlinear_arith)
        requires 0 <= i && 0 <= j < w;
    lemma_fundamental_div_mod_converse_div(i * w + j, w, i, j);
    lemma_fundamental_div_mod_converse_mod(i * w + j, w, i, j);
}

/// Flat-index arithmetic inside an `h` by `w` grid.
pub proof fn lemma_flat_cell(i: int, j: int, h: int, w: int)
    requires
        0 <= i < h,
        0 <= j < w,
    ensures
        (i * w + j) / w == i,
        (i * w + j) % w == j,
        0 <= i * w + j,
        i * w + j < h * w,
{
    lemma_flat_index(i, j, w);
    assert((i + 1) * w <= h * w) by (nonlinear_arith)
        requires i + 1 <= h, w >= 0;
}


/// Alternating sign: plus for even `i`, minus for odd.
pub open spec fn pow_neg1(i: int) -> int {
    if i % 2 == 0 {
        1
    } else {
        -1
    }
}

/// The `(n-1)` by `(n-1)` grid left of the leading `n` by `n` block of
/// `m` after deleting row `p` and column `q`.
pub open spec fn sub_del(m: Seq<Seq<int>>, p: int, q: int, n: nat) -> Seq<Seq<int>> {
    Seq::new(
        (n - 1) as nat,
        |i: int|
            Seq::new(
                (n - 1) as nat,
                |j: int|
                    m[if i < p {
                        i
                    } else {
                        i + 1
                    }][if j < q {
                        j
                    } else {
                        j + 1
                    }],
            ),
    )
}

/// The determinant of the leading `n` by `n` block, by Laplace expansion
/// along row 0 (base cases: the single cell for `n` 1, `ad - bc` for
/// `n` 2, and 0 for `n` 0, as the expansion loop leaves it).
pub open spec fn det(m: Seq<Seq<int>>, n: nat) -> int
    decreases n, n + 1int,
{
    if n == 0 {
        0
    } else if n == 1 {
        m[0][0]
    } else if n == 2 {
        m[0][0] * m[1][1] - m[0][1] * m[1][0]
    } else {
        lap(m, n, n as int)
    }
}

/// The first `i` terms of the Laplace expansion of the leading `n` by
/// `n` block along row 0.
pub open spec fn lap(m: Seq<Seq<int>>, n: nat, i: int) -> int
    decreases n, i,
{
    if n <= 2 || i <= 0 {
        0
    } else {
        lap(m, n, i - 1) + pow_neg1(i - 1) * m[0][i - 1] * det(
            sub_del(m, 0, i - 1, n),
            (n - 1) as nat,
        )
    }
}

/// The determinant computation of the leading `n` by `n` block stays in
/// the scalar type's range at every step.
pub open spec fn det_ok<N: CharMathNumeric<N>>(m: Seq<Seq<int>>, n: nat) -> bool
    decreases n, n + 1int,
{
    if n <= 1 {
        true
    } else if n == 2 {
        N::in_range(m[0][0] * m[1][1]) && N::in_range(m[0][1] * m[1][0]) && N::in_range(
            m[0][0] * m[1][1] - m[0][1] * m[1][0],
        )
    } else {
        lap_ok::<N>(m, n, n as int)
    }
}

/// The first `i` Laplace terms stay in range.
pub open spec fn lap_ok<N: CharMathNumeric<N>>(m: Seq<Seq<int>>, n: nat, i: int) -> bool
    decreases n, i,
{
    if n <= 2 || i <= 0 {
        true
    } else {
        let j = i - 1;
        let d = det(sub_del(m, 0, j, n), (n - 1) as nat);
        lap_ok::<N>(m, n, j) && det_ok::<N>(sub_del(m, 0, j, n), (n - 1) as nat) && N::in_range(d)
            && N::in_range(pow_neg1(j) * m[0][j]) && N::in_range(pow_neg1(j) * m[0][j] * d)
            && N::in_range(lap(m, n, i))
    }
}

/// Two grids that agree on the leading `n` by `n` block.
pub open spec fn agree(m1: Seq<Seq<int>>, m2: Seq<Seq<int>>, n: nat) -> bool {
    forall|i: int, j: int|
        #![trigger m1[i][j], m2[i][j]]
        0 <= i < n && 0 <= j < n ==> m1[i][j] == m2[i][j]
}

/// Deleting the same row and column of grids that agree on the leading
/// block leaves grids that agree on the smaller leading block.
pub proof fn lemma_sub_del_agree(m1: Seq<Seq<int>>, m2: Seq<Seq<int>>, p: int, q: int, n: nat)
    requires
        agree(m1, m2, n),
        0 <= p < n,
        0 <= q < n,
    ensures
        agree(sub_del(m1, p, q, n), sub_del(m2, p, q, n), (n - 1) as nat),
{
    assert forall|i: int, j: int|
        #![trigger sub_del(m1, p, q, n)[i][j], sub_del(m2, p, q, n)[i][j]]
        0 <= i < n - 1 && 0 <= j < n - 1 implies sub_del(m1, p, q, n)[i][j] == sub_del(
        m2,
        p,
        q,
        n,
    )[i][j] by {
        let si = if i < p {
            i
        } else {
            i + 1
        };
        let sj = if j < q {
            j
        } else {
            j + 1
        };
        assert(m1[si][sj] == m2[si][sj]);
    }
}


/// The determinant value reads only the leading `n` by `n` block.
pub proof fn lemma_det_leading_val(m1: Seq<Seq<int>>, m2: Seq<Seq<int>>, n: nat)
    requires
        agree(m1, m2, n),
    ensures
        det(m1, n) == det(m2, n),
    decreases n, n + 1int,
{
    if n <= 2 {
    } else {
        lemma_lap_leading_val(m1, m2, n, n as int);
    }
}

/// The Laplace prefix sums read only the leading `n` by `n` block.
pub proof fn lemma_lap_leading_val(m1: Seq<Seq<int>>, m2: Seq<Seq<int>>, n: nat, i: int)
    requires
        agree(m1, m2, n),
        i <= n,
    ensures
        lap(m1, n, i) == lap(m2, n, i),
    decreases n, i,
{
    if n <= 2 || i <= 0 {
    } else {
        let j = i - 1;
        lemma_lap_leading_val(m1, m2, n, j);
        assert(m1[0][j] == m2[0][j]);
        lemma_sub_del_agree(m1, m2, 0, j, n);
        lemma_det_leading_val(sub_del(m1, 0, j, n), sub_del(m2, 0, j, n), (n - 1) as nat);
    }
}

/// The determinant and its range condition read only the leading `n` by
/// `n` block.
pub proof fn lemma_det_leading<N: CharMathNumeric<N>>(m1: Seq<Seq<int>>, m2: Seq<Seq<int>>, n: nat)
    requires
        agree(m1, m2, n),
    ensures
        det(m1, n) == det(m2, n),
        det_ok::<N>(m1, n) == det_ok::<N>(m2, n),
    decreases n, n + 1int,
{
    if n <= 2 {
    } else {
        lemma_lap_leading::<N>(m1, m2, n, n as int);
    }
}

/// The Laplace prefix sums and their range conditions read only the
/// leading `n` by `n` block.
pub proof fn lemma_lap_leading<N: CharMathNumeric<N>>(
    m1: Seq<Seq<int>>,
    m2: Seq<Seq<int>>,
    n: nat,
    i: int,
)
    requires
        agree(m1, m2, n),
        i <= n,
    ensures
        lap(m1, n, i) == lap(m2, n, i),
        lap_ok::<N>(m1, n, i) == lap_ok::<N>(m2, n, i),
    decreases n, i,
{
    if n <= 2 || i <= 0 {
    } else {
        let j = i - 1;
        lemma_lap_leading::<N>(m1, m2, n, j);
        assert(m1[0][j] == m2[0][j]);
        lemma_sub_del_agree(m1, m2, 0, j, n);
        lemma_det_leading::<N>(sub_del(m1, 0, j, n), sub_del(m2, 0, j, n), (n - 1) as nat);
    }
}

/// A shorter Laplace prefix of an in-range expansion is in range too.
pub proof fn lemma_lap_ok_mono<N: CharMathNumeric<N>>(m: Seq<Seq<int>>, n: nat, i: int, j: int)
    requires
        lap_ok::<N>(m, n, i),
        0 <= j <= i,
    ensures
        lap_ok::<N>(m, n, j),
    decreases i - j,
{
    if j < i {
        if n <= 2 || i <= 0 {
        } else {
            lemma_lap_ok_mono::<N>(m, n, i - 1, j);
        }
    }
}

/// The classical adjoint of the leading `n` by `n` block: the transpose
/// of the cofactor matrix, cell `(r, c)` being the signed minor of
/// `(c, r)`.
pub open spec fn mat_adjoint(m: Seq<Seq<int>>, n: nat) -> Seq<Seq<int>> {
    Seq::new(
        n,
        |r: int|
            Seq::new(n, |c: int| pow_neg1(r + c) * det(sub_del(m, c, r, n), (n - 1) as nat)),
    )
}

/// The adjoint computation stays in the scalar type's range.
pub open spec fn adjoint_ok<N: CharMathNumeric<N>>(m: Seq<Seq<int>>, n: nat) -> bool {
    forall|r: int, c: int|
        #![trigger sub_del(m, c, r, n)]
        0 <= r < n && 0 <= c < n ==> det_ok::<N>(sub_del(m, c, r, n), (n - 1) as nat)
            && N::in_range(det(sub_del(m, c, r, n), (n - 1) as nat)) && N::in_range(
            pow_neg1(r + c) * det(sub_del(m, c, r, n), (n - 1) as nat),
        )
}

/// The grid a cofactor extraction hands back: the submatrix in the
/// leading `(n-1)` by `(n-1)` block and the matrix's own cells
/// everywhere else.
pub open spec fn cof_grid(m: Seq<Seq<int>>, p: int, q: int, n: int) -> Seq<Seq<int>> {
    Seq::new(
        m.len(),
        |i: int|
            Seq::new(
                mwidth(m),
                |j: int|
                    if i < n - 1 && j < n - 1 {
                        sub_del(m, p, q, n as nat)[i][j]
                    } else {
                        m[i][j]
                    },
            ),
    )
}

/// Parity of a sum against parity of the parts.
pub proof fn lemma_parity(i: int, j: int)
    requires
        0 <= i,
        0 <= j,
    ensures
        ((i + j) % 2 == 0) == (i % 2 == j % 2),
{
    vstd::arithmetic::div_mod::lemma_add_mod_noop(i, j, 2);
    lemma_mod_bound(i, 2);
    lemma_mod_bound(j, 2);
}

/// The base view of a matrix: its dimensions and its cells.
pub trait MatrixBase<N: CharMathNumeric<N>>: Sized {
    /// The grid of the mathematical values of the cells.
    spec fn model(&self) -> Seq<Seq<int>>;

    /// Which dimensions a value of this type can take.
    spec fn shape_ok(h: nat, w: nat) -> bool;

    /// The model is rectangular and of a permitted shape.  (A lemma in
    /// an executable shell, so that implementations may draw on their
    /// type invariant.)
    fn model_wf(&self)
        ensures
            rect(self.model()),
            Self::shape_ok(self.model().len(), mwidth(self.model())),
    ;

    fn get_width(&self) -> (r: usize)
        ensures
            r == mwidth(self.model()),
    ;

    fn get_height(&self) -> (r: usize)
        ensures
            r == self.model().len(),
    ;

    fn get_value(&self, h: usize, w: usize) -> (r: N)
        requires
            h < self.model().len(),
            w < mwidth(self.model()),
        ensures
            N::sval(r) == self.model()[h as int][w as int],
    ;

    fn set_value(&mut self, h: usize, w: usize, val: N)
        requires
            h < old(self).model().len(),
            w < mwidth(old(self).model()),
        ensures
            final(self).model() == old(self).model().update(
                h as int,
                old(self).model()[h as int].update(w as int, N::sval(val)),
            ),
    ;

    /// Column `index`, as a flat sequence of scalars.
    fn get_col_vec(&self, index: usize) -> (r: Vec<N>)
        requires
            index < mwidth(self.model()),
        ensures
            seq_val(r@) == col(self.model(), index as int),
    {
        let h = self.get_height();
        let mut ret: Vec<N> = Vec::new();
        let mut i: usize = 0;
        while i < h
            invariant
                0 <= i <= h,
                h == self.model().len(),
                index < mwidth(self.model()),
                ret@.len() == i,
                forall|k: int|
                    0 <= k < i ==> N::sval(#[trigger] ret@[k]) == self.model()[k][index as int],
            decreases h - i,
        {
            self.model_wf();
            let ghost ov = ret@;
            let v = self.get_value(i, index);
            ret.push(v);
            proof {
                assert forall|k: int| 0 <= k < i + 1 implies N::sval(#[trigger] ret@[k])
                    == self.model()[k][index as int] by {
                    if k < i {
                        assert(ret@[k] == ov[k]);
                    } else {
                        assert(ret@[k] == v);
                    }
                }
            }
            i = i + 1;
        }
        proof {
            assert(seq_val(ret@) =~= col(self.model(), index as int));
        }
        ret
    }

    /// Row `index`, as a flat sequence of scalars.
    fn get_row_vec(&self, index: usize) -> (r: Vec<N>)
        requires
            index < self.model().len(),
        ensures
            seq_val(r@) == self.model()[index as int],
    {
        let w = self.get_width();
        let mut ret: Vec<N> = Vec::new();
        let mut i: usize = 0;
        while i < w
            invariant
                0 <= i <= w,
                w == mwidth(self.model()),
                index < self.model().len(),
                ret@.len() == i,
                forall|k: int|
                    0 <= k < i ==> N::sval(#[trigger] ret@[k]) == self.model()[index as int][k],
            decreases w - i,
        {
            let ghost ov = ret@;
            let v = self.get_value(index, i);
            ret.push(v);
            proof {
                assert forall|k: int| 0 <= k < i + 1 implies N::sval(#[trigger] ret@[k])
                    == self.model()[index as int][k] by {
                    if k < i {
                        assert(ret@[k] == ov[k]);
                    } else {
                        assert(ret@[k] == v);
                    }
                }
            }
            i = i + 1;
        }
        self.model_wf();
        proof {
            assert(seq_val(ret@) =~= self.model()[index as int]);
        }
        ret
    }

    /// The cells row-major as one flat sequence.
    fn flatten(&self) -> (r: Vec<N>)
        ensures
            seq_val(r@) == mat_flat(self.model()),
    {
        let h = self.get_height();
        let w = self.get_width();
        let mut ret: Vec<N> = Vec::new();
        let mut i: usize = 0;
        self.model_wf();
        proof {
            assert(0int * (w as int) == 0) by (nonlinear_arith);
        }
        while i < h
            invariant
                0 <= i <= h,
                h == self.model().len(),
                w == mwidth(self.model()),
                rect(self.model()),
                ret@.len() == i * w,
                forall|k: int|
                    0 <= k < ret@.len() ==> N::sval(#[trigger] ret@[k]) == self.model()[k / (
                    w as int)][k % (w as int)],
            decreases h - i,
        {
            let mut j: usize = 0;
            while j < w
                invariant
                    0 <= i < h,
                    0 <= j <= w,
                    h == self.model().len(),
                    w == mwidth(self.model()),
                    rect(self.model()),
                    ret@.len() == i * w + j,
                    forall|k: int|
                        0 <= k < ret@.len() ==> N::sval(#[trigger] ret@[k]) == self.model()[k / (
                        w as int)][k % (w as int)],
                decreases w - j,
            {
                let ghost ov = ret@;
                let v = self.get_value(i, j);
                ret.push(v);
                proof {
                    lemma_flat_index(i as int, j as int, w as int);
                    assert forall|k: int| 0 <= k < ret@.len() implies N::sval(
                        #[trigger] ret@[k],
                    ) == self.model()[k / (w as int)][k % (w as int)] by {
                        if k < ov.len() {
                            assert(ret@[k] == ov[k]);
                        } else {
                            assert(ret@[k] == v);
                        }
                    }
                }
                j = j + 1;
            }
            proof {
                assert((i as int) * (w as int) + (w as int) == ((i as int) + 1) * (w as int))
                    by (nonlinear_arith);
            }
            i = i + 1;
        }
        proof {
            assert(seq_val(ret@) =~= mat_flat(self.model()));
        }
        ret
    }

    /// Whether the matrix has as many rows as columns.
    fn is_square(&self) -> (r: bool)
        ensures
            r == (mwidth(self.model()) == self.model().len()),
    {
        self.get_width() == self.get_height()
    }
}

/// The matrix operations.  `MAT` is the concrete matrix type the
/// operations produce; an implementing type uses itself there.
pub trait Matrix<N: CharMathNumeric<N>, MAT: MatrixBase<N>>: MatrixBase<N> + CharMathCopy<
    MAT,
> {
    /// Build a matrix that owns the given rows as they stand.
    fn from_vec(vec: Vec<Vec<N>>) -> (r: MAT)
        requires
            rect(grid_of_vecs(vec@)),
            MAT::shape_ok(vec@.len(), mwidth(grid_of_vecs(vec@))),
        ensures
            r.model() == grid_of_vecs(vec@),
    ;

    /// Build an `h` by `w` matrix from a row-major flat slice, padding
    /// missing trailing cells with zero and ignoring excess ones.
    fn from_flat(arr: &[N], h: usize, w: usize) -> (r: MAT)
        requires
            MAT::shape_ok(h as nat, w as nat),
            (h as int) * (w as int) <= usize::MAX as int,
        ensures
            r.model() == grid_from_flat(seq_val(arr@), h as nat, w as nat),
    ;

    /// Rebuild any `MatrixBase` as this matrix type.  (The flat cells
    /// are read back with the width and height arguments swapped, as
    /// the width-first argument order of `from_flat` has it; for the
    /// square matrices this is the identity.)
    fn from_matrix<M2: MatrixBase<N>>(mat: &M2) -> (r: MAT)
        requires
            MAT::shape_ok(mwidth(mat.model()), mat.model().len()),
        ensures
            r.model() == grid_from_flat(
                mat_flat(mat.model()),
                mwidth(mat.model()),
                mat.model().len(),
            ),
    {
        let f = mat.flatten();
        let flen = f.len();
        mat.model_wf();
        proof {
            let hh = mat.model().len() as int;
            let ww = mwidth(mat.model()) as int;
            assert(f@.len() == mat_flat(mat.model()).len());
            assert(mat_flat(mat.model()).len() == mat.model().len() * mwidth(mat.model()));
            assert(flen as int == hh * ww);
            assert(ww * hh == hh * ww) by (nonlinear_arith);
        }
        Self::from_flat(f.as_slice(), mat.get_width(), mat.get_height())
    }

    /// The matrix product.  The shapes must be conformable both ways:
    /// `self` as wide as `rhs` is tall and as tall as `rhs` is wide.
    fn mul_mat<M2: MatrixBase<N>>(&self, rhs: &M2) -> (r: MAT)
        requires
            mwidth(self.model()) == rhs.model().len(),
            self.model().len() == mwidth(rhs.model()),
            MAT::shape_ok(self.model().len(), mwidth(rhs.model())),
            mat_mul_ok::<N>(self.model(), rhs.model()),
        ensures
            r.model() == mat_mul(self.model(), rhs.model()),
    {
        let ghost ma = self.model();
        let ghost mb = rhs.model();
        let h = self.get_height();
        let w = rhs.get_width();
        let mut vals: Vec<N> = Vec::new();
        self.model_wf();
        rhs.model_wf();
        proof {
            assert(0int * (w as int) == 0) by (nonlinear_arith);
        }
        let mut y: usize = 0;
        while y < h
            invariant
                0 <= y <= h,
                h == ma.len(),
                w == mwidth(mb),
                ma == self.model(),
                mb == rhs.model(),
                rect(ma),
                rect(mb),
                mwidth(ma) == mb.len(),
                mat_mul_ok::<N>(ma, mb),
                vals@.len() == y * w,
                forall|k: int|
                    0 <= k < vals@.len() ==> N::sval(#[trigger] vals@[k]) == spec_dot(
                        ma[k / (w as int)],
                        col(mb, k % (w as int)),
                    ),
            decreases h - y,
        {
            let mut x: usize = 0;
            while x < w
                invariant
                    0 <= y < h,
                    0 <= x <= w,
                    h == ma.len(),
                    w == mwidth(mb),
                    ma == self.model(),
                    mb == rhs.model(),
                    rect(ma),
                    rect(mb),
                    mwidth(ma) == mb.len(),
                    mat_mul_ok::<N>(ma, mb),
                    vals@.len() == y * w + x,
                    forall|k: int|
                        0 <= k < vals@.len() ==> N::sval(#[trigger] vals@[k]) == spec_dot(
                            ma[k / (w as int)],
                            col(mb, k % (w as int)),
                        ),
                decreases w - x,
            {
                let rv = self.get_row_vec(y);
                let cv = rhs.get_col_vec(x);
                proof {
                    assert(dot_ok::<N>(ma[y as int], col(mb, x as int)));
                    assert(col(mb, x as int).len() == mb.len());
                }
                let v = crate::linear::vector::vector_utils::vec_dot(rv, cv);
                let ghost ov = vals@;
                vals.push(v);
                proof {
                    lemma_flat_index(y as int, x as int, w as int);
                    assert forall|k: int| 0 <= k < vals@.len() implies N::sval(
                        #[trigger] vals@[k],
                    ) == spec_dot(ma[k / (w as int)], col(mb, k % (w as int))) by {
                        if k < ov.len() {
                            assert(vals@[k] == ov[k]);
                        } else {
                            assert(vals@[k] == v);
                        }
                    }
                }
                x = x + 1;
            }
            proof {
                assert((y as int) * (w as int) + (w as int) == ((y as int) + 1) * (w as int))
                    by (nonlinear_arith);
            }
            y = y + 1;
        }
        let vlen = vals.len();
        proof {
            assert((h as int) * (w as int) == vlen as int);
        }
        let r = Self::from_flat(vals.as_slice(), h, w);
        proof {
            assert forall|i: int, j: int| 0 <= i < h && 0 <= j < w implies grid_from_flat(
                seq_val(vals@),
                h as nat,
                w as nat,
            )[i][j] == mat_mul(ma, mb)[i][j] by {
                lemma_flat_cell(i, j, h as int, w as int);
            }
            assert(grid_from_flat(seq_val(vals@), h as nat, w as nat) =~~= mat_mul(ma, mb));
        }
        r
    }

    /// Treat `vb` as a row vector and multiply it on the left of this
    /// matrix: output component `i` is the dot product of `vb` with
    /// column `i`; components past the width keep `vb`'s values.
    fn mul_row_vec<T: Vector<N, T> + VectorBase<N>>(&self, vb: &T) -> (r: T)
        requires
            self.model().len() == vb.model().len(),
            mwidth(self.model()) <= vb.model().len(),
            forall|i: int|
                0 <= i < mwidth(self.model()) ==> #[trigger] dot_ok::<N>(
                    vb.model(),
                    col(self.model(), i),
                ),
        ensures
            r.model().len() == vb.model().len(),
            forall|i: int|
                0 <= i < mwidth(self.model()) ==> #[trigger] r.model()[i] == spec_dot(
                    vb.model(),
                    col(self.model(), i),
                ),
            forall|i: int|
                mwidth(self.model()) <= i < vb.model().len() ==> #[trigger] r.model()[i]
                    == vb.model()[i],
    {
        let ghost ma = self.model();
        let ghost mv = vb.model();
        let n = vb.n_elems();
        let w = self.get_width();
        let mut bv: Vec<N> = Vec::new();
        let mut i: usize = 0;
        while i < n
            invariant
                0 <= i <= n,
                n == mv.len(),
                mv == vb.model(),
                bv@.len() == i,
                forall|k: int| 0 <= k < i ==> N::sval(#[trigger] bv@[k]) == mv[k],
            decreases n - i,
        {
            let ghost ov = bv@;
            let v = vb.get_value(i);
            bv.push(v);
            proof {
                assert forall|k: int| 0 <= k < i + 1 implies N::sval(#[trigger] bv@[k])
                    == mv[k] by {
                    if k < i {
                        assert(bv@[k] == ov[k]);
                    } else {
                        assert(bv@[k] == v);
                    }
                }
            }
            i = i + 1;
        }
        proof {
            assert(seq_val(bv@) =~= mv);
        }
        let mut vals: Vec<N> = Vec::new();
        let mut i: usize = 0;
        while i < w
            invariant
                0 <= i <= w,
                w == mwidth(ma),
                ma == self.model(),
                mv == vb.model(),
                ma.len() == mv.len(),
                seq_val(bv@) == mv,
                bv@.len() == mv.len(),
                forall|k: int|
                    0 <= k < w ==> #[trigger] dot_ok::<N>(mv, col(ma, k)),
                vals@.len() == i,
                forall|k: int|
                    0 <= k < i ==> N::sval(#[trigger] vals@[k]) == spec_dot(mv, col(ma, k)),
            decreases w - i,
        {
            let cv = self.get_col_vec(i);
            proof {
                assert(col(ma, i as int).len() == ma.len());
            }
            let v = crate::linear::vector::vector_utils::array_vec_dot(bv.as_slice(), cv);
            let ghost ov = vals@;
            vals.push(v);
            proof {
                assert forall|k: int| 0 <= k < i + 1 implies N::sval(#[trigger] vals@[k])
                    == spec_dot(mv, col(ma, k)) by {
                    if k < i {
                        assert(vals@[k] == ov[k]);
                    } else {
                        assert(vals@[k] == v);
                    }
                }
            }
            i = i + 1;
        }
        let mut i: usize = w;
        while i < n
            invariant
                w <= i <= n,
                n == mv.len(),
                w == mwidth(ma),
                ma == self.model(),
                mv == vb.model(),
                vals@.len() == i,
                forall|k: int|
                    0 <= k < w ==> N::sval(#[trigger] vals@[k]) == spec_dot(mv, col(ma, k)),
                forall|k: int| w <= k < i ==> N::sval(#[trigger] vals@[k]) == mv[k],
            decreases n - i,
        {
            let ghost ov = vals@;
            let v = vb.get_value(i);
            vals.push(v);
            proof {
                assert forall|k: int| 0 <= k < i + 1 && k < w implies N::sval(
                    #[trigger] vals@[k],
                ) == spec_dot(mv, col(ma, k)) by {
                    assert(vals@[k] == ov[k]);
                }
                assert forall|k: int| w <= k < i + 1 implies N::sval(#[trigger] vals@[k])
                    == mv[k] by {
                    if k < i {
                        assert(vals@[k] == ov[k]);
                    } else {
                        assert(vals@[k] == v);
                    }
                }
            }
            i = i + 1;
        }
        let r = T::new_arr(vals.as_slice());
        proof {
            vb.model_len();
            assert forall|k: int| 0 <= k < mv.len() implies #[trigger] r.model()[k] == seq_val(
                vals@,
            )[k] by {
            }
        }
        r
    }

    /// Treat `vb` as a column vector and multiply it on the right of
    /// this matrix: output component `i` is the dot product of `vb`
    /// with row `i`; components past the height keep `vb`'s values.
    fn mul_col_vec<T: Vector<N, T> + VectorBase<N>>(&self, vb: &T) -> (r: T)
        requires
            mwidth(self.model()) == vb.model().len(),
            self.model().len() <= vb.model().len(),
            forall|i: int|
                0 <= i < self.model().len() ==> #[trigger] dot_ok::<N>(
                    vb.model(),
                    self.model()[i],
                ),
        ensures
            r.model().len() == vb.model().len(),
            forall|i: int|
                0 <= i < self.model().len() ==> #[trigger] r.model()[i] == spec_dot(
                    vb.model(),
                    self.model()[i],
                ),
            forall|i: int|
                self.model().len() <= i < vb.model().len() ==> #[trigger] r.model()[i]
                    == vb.model()[i],
    {
        let ghost ma = self.model();
        let ghost mv = vb.model();
        let n = vb.n_elems();
        let h = self.get_height();
        let mut bv: Vec<N> = Vec::new();
        let mut i: usize = 0;
        while i < n
            invariant
                0 <= i <= n,
                n == mv.len(),
                mv == vb.model(),
                bv@.len() == i,
                forall|k: int| 0 <= k < i ==> N::sval(#[trigger] bv@[k]) == mv[k],
            decreases n - i,
        {
            let ghost ov = bv@;
            let v = vb.get_value(i);
            bv.push(v);
            proof {
                assert forall|k: int| 0 <= k < i + 1 implies N::sval(#[trigger] bv@[k])
                    == mv[k] by {
                    if k < i {
                        assert(bv@[k] == ov[k]);
                    } else {
                        assert(bv@[k] == v);
                    }
                }
            }
            i = i + 1;
        }
        self.model_wf();
        proof {
            assert(seq_val(bv@) =~= mv);
        }
        let mut vals: Vec<N> = Vec::new();
        let mut i: usize = 0;
        while i < h
            invariant
                0 <= i <= h,
                h == ma.len(),
                ma == self.model(),
                mv == vb.model(),
                rect(ma),
                mwidth(ma) == mv.len(),
                seq_val(bv@) == mv,
                bv@.len() == mv.len(),
                forall|k: int|
                    0 <= k < h ==> #[trigger] dot_ok::<N>(mv, ma[k]),
                vals@.len() == i,
                forall|k: int|
                    0 <= k < i ==> N::sval(#[trigger] vals@[k]) == spec_dot(mv, ma[k]),
            decreases h - i,
        {
            let rv = self.get_row_vec(i);
            let v = crate::linear::vector::vector_utils::array_vec_dot(bv.as_slice(), rv);
            let ghost ov = vals@;
            vals.push(v);
            proof {
                assert forall|k: int| 0 <= k < i + 1 implies N::sval(#[trigger] vals@[k])
                    == spec_dot(mv, ma[k]) by {
                    if k < i {
                        assert(vals@[k] == ov[k]);
                    } else {
                        assert(vals@[k] == v);
                    }
                }
            }
            i = i + 1;
        }
        let mut i: usize = h;
        while i < n
            invariant
                h <= i <= n,
                n == mv.len(),
                h == ma.len(),
                ma == self.model(),
                mv == vb.model(),
                vals@.len() == i,
                forall|k: int|
                    0 <= k < h ==> N::sval(#[trigger] vals@[k]) == spec_dot(mv, ma[k]),
                forall|k: int| h <= k < i ==> N::sval(#[trigger] vals@[k]) == mv[k],
            decreases n - i,
        {
            let ghost ov = vals@;
            let v = vb.get_value(i);
            vals.push(v);
            proof {
                assert forall|k: int| 0 <= k < i + 1 && k < h implies N::sval(
                    #[trigger] vals@[k],
                ) == spec_dot(mv, ma[k]) by {
                    assert(vals@[k] == ov[k]);
                }
                assert forall|k: int| h <= k < i + 1 implies N::sval(#[trigger] vals@[k])
                    == mv[k] by {
                    if k < i {
                        assert(vals@[k] == ov[k]);
                    } else {
                        assert(vals@[k] == v);
                    }
                }
            }
            i = i + 1;
        }
        let r = T::new_arr(vals.as_slice());
        proof {
            vb.model_len();
            assert forall|k: int| 0 <= k < mv.len() implies #[trigger] r.model()[k] == seq_val(
                vals@,
            )[k] by {
            }
        }
        r
    }

    /// Multiply every cell by a scalar.
    fn mul_num(&self, n: N) -> (r: MAT)
        requires
            MAT::shape_ok(self.model().len(), mwidth(self.model())),
            mat_mul_num_ok::<N>(self.model(), N::sval(n)),
        ensures
            r.model() == mat_mul_num(self.model(), N::sval(n)),
    {
        let ghost ma = self.model();
        let h = self.get_height();
        let w = self.get_width();
        let mut vals: Vec<N> = Vec::new();
        self.model_wf();
        proof {
            assert(0int * (w as int) == 0) by (nonlinear_arith);
        }
        let mut y: usize = 0;
        while y < h
            invariant
                0 <= y <= h,
                h == ma.len(),
                w == mwidth(ma),
                ma == self.model(),
                rect(ma),
                mat_mul_num_ok::<N>(ma, N::sval(n)),
                vals@.len() == y * w,
                forall|k: int|
                    0 <= k < vals@.len() ==> N::sval(#[trigger] vals@[k]) == mat_mul_num(
                        ma,
                        N::sval(n),
                    )[k / (w as int)][k % (w as int)],
            decreases h - y,
        {
            let mut x: usize = 0;
            while x < w
                invariant
                    0 <= y < h,
                    0 <= x <= w,
                    h == ma.len(),
                    w == mwidth(ma),
                    ma == self.model(),
                    rect(ma),
                    mat_mul_num_ok::<N>(ma, N::sval(n)),
                    vals@.len() == y * w + x,
                    forall|k: int|
                        0 <= k < vals@.len() ==> N::sval(#[trigger] vals@[k]) == mat_mul_num(
                            ma,
                            N::sval(n),
                        )[k / (w as int)][k % (w as int)],
                decreases w - x,
            {
                let c = self.get_value(y, x);
                let v = N::mul(c, n);
                let ghost ov = vals@;
                vals.push(v);
                proof {
                    lemma_flat_index(y as int, x as int, w as int);
                    assert forall|k: int| 0 <= k < vals@.len() implies N::sval(
                        #[trigger] vals@[k],
                    ) == mat_mul_num(ma, N::sval(n))[k / (w as int)][k % (w as int)] by {
                        if k < ov.len() {
                            assert(vals@[k] == ov[k]);
                        } else {
                            assert(vals@[k] == v);
                        }
                    }
                }
                x = x + 1;
            }
            proof {
                assert((y as int) * (w as int) + (w as int) == ((y as int) + 1) * (w as int))
                    by (nonlinear_arith);
            }
            y = y + 1;
        }
        let vlen = vals.len();
        proof {
            assert((h as int) * (w as int) == vlen as int);
        }
        let r = Self::from_flat(vals.as_slice(), h, w);
        proof {
            assert forall|i: int, j: int| 0 <= i < h && 0 <= j < w implies grid_from_flat(
                seq_val(vals@),
                h as nat,
                w as nat,
            )[i][j] == mat_mul_num(ma, N::sval(n))[i][j] by {
                lemma_flat_cell(i, j, h as int, w as int);
            }
            assert(grid_from_flat(seq_val(vals@), h as nat, w as nat) =~~= mat_mul_num(
                ma,
                N::sval(n),
            ));
        }
        r
    }

    /// Divide every cell by a nonzero scalar.
    fn div_num(&self, n: N) -> (r: MAT)
        requires
            N::sval(n) != 0,
            MAT::shape_ok(self.model().len(), mwidth(self.model())),
            mat_div_num_ok::<N>(self.model(), N::sval(n)),
        ensures
            r.model() == mat_div_num(self.model(), N::sval(n)),
    {
        let ghost ma = self.model();
        let h = self.get_height();
        let w = self.get_width();
        let mut vals: Vec<N> = Vec::new();
        self.model_wf();
        proof {
            assert(0int * (w as int) == 0) by (nonlinear_arith);
        }
        let mut y: usize = 0;
        while y < h
            invariant
                0 <= y <= h,
                h == ma.len(),
                w == mwidth(ma),
                ma == self.model(),
                rect(ma),
            N::sval(n) != 0,
                mat_div_num_ok::<N>(ma, N::sval(n)),
                vals@.len() == y * w,
                forall|k: int|
                    0 <= k < vals@.len() ==> N::sval(#[trigger] vals@[k]) == mat_div_num(
                        ma,
                        N::sval(n),
                    )[k / (w as int)][k % (w as int)],
            decreases h - y,
        {
            let mut x: usize = 0;
            while x < w
                invariant
                    0 <= y < h,
                    0 <= x <= w,
                    h == ma.len(),
                    w == mwidth(ma),
                    ma == self.model(),
                    rect(ma),
            N::sval(n) != 0,
                    mat_div_num_ok::<N>(ma, N::sval(n)),
                    vals@.len() == y * w + x,
                    forall|k: int|
                        0 <= k < vals@.len() ==> N::sval(#[trigger] vals@[k]) == mat_div_num(
                            ma,
                            N::sval(n),
                        )[k / (w as int)][k % (w as int)],
                decreases w - x,
            {
                let c = self.get_value(y, x);
                let v = N::div(c, n);
                let ghost ov = vals@;
                vals.push(v);
                proof {
                    lemma_flat_index(y as int, x as int, w as int);
                    assert forall|k: int| 0 <= k < vals@.len() implies N::sval(
                        #[trigger] vals@[k],
                    ) == mat_div_num(ma, N::sval(n))[k / (w as int)][k % (w as int)] by {
                        if k < ov.len() {
                            assert(vals@[k] == ov[k]);
                        } else {
                            assert(vals@[k] == v);
                        }
                    }
                }
                x = x + 1;
            }
            proof {
                assert((y as int) * (w as int) + (w as int) == ((y as int) + 1) * (w as int))
                    by (nonlinear_arith);
            }
            y = y + 1;
        }
        let vlen = vals.len();
        proof {
            assert((h as int) * (w as int) == vlen as int);
        }
        let r = Self::from_flat(vals.as_slice(), h, w);
        proof {
            assert forall|i: int, j: int| 0 <= i < h && 0 <= j < w implies grid_from_flat(
                seq_val(vals@),
                h as nat,
                w as nat,
            )[i][j] == mat_div_num(ma, N::sval(n))[i][j] by {
                lemma_flat_cell(i, j, h as int, w as int);
            }
            assert(grid_from_flat(seq_val(vals@), h as nat, w as nat) =~~= mat_div_num(
                ma,
                N::sval(n),
            ));
        }
        r
    }

    /// Add a scalar to every cell.
    fn add_num(&self, n: N) -> (r: MAT)
        requires
            MAT::shape_ok(self.model().len(), mwidth(self.model())),
            mat_add_num_ok::<N>(self.model(), N::sval(n)),
        ensures
            r.model() == mat_add_num(self.model(), N::sval(n)),
    {
        let ghost ma = self.model();
        let h = self.get_height();
        let w = self.get_width();
        let mut vals: Vec<N> = Vec::new();
        self.model_wf();
        proof {
            assert(0int * (w as int) == 0) by (nonlinear_arith);
        }
        let mut y: usize = 0;
        while y < h
            invariant
                0 <= y <= h,
                h == ma.len(),
                w == mwidth(ma),
                ma == self.model(),
                rect(ma),
                mat_add_num_ok::<N>(ma, N::sval(n)),
                vals@.len() == y * w,
                forall|k: int|
                    0 <= k < vals@.len() ==> N::sval(#[trigger] vals@[k]) == mat_add_num(
                        ma,
                        N::sval(n),
                    )[k / (w as int)][k % (w as int)],
            decreases h - y,
        {
            let mut x: usize = 0;
            while x < w
                invariant
                    0 <= y < h,
                    0 <= x <= w,
                    h == ma.len(),
                    w == mwidth(ma),
                    ma == self.model(),
                    rect(ma),
                    mat_add_num_ok::<N>(ma, N::sval(n)),
                    vals@.len() == y * w + x,
                    forall|k: int|
                        0 <= k < vals@.len() ==> N::sval(#[trigger] vals@[k]) == mat_add_num(
                            ma,
                            N::sval(n),
                        )[k / (w as int)][k % (w as int)],
                decreases w - x,
            {
                let c = self.get_value(y, x);
                let v = N::add(c, n);
                let ghost ov = vals@;
                vals.push(v);
                proof {
                    lemma_flat_index(y as int, x as int, w as int);
                    assert forall|k: int| 0 <= k < vals@.len() implies N::sval(
                        #[trigger] vals@[k],
                    ) == mat_add_num(ma, N::sval(n))[k / (w as int)][k % (w as int)] by {
                        if k < ov.len() {
                            assert(vals@[k] == ov[k]);
                        } else {
                            assert(vals@[k] == v);
                        }
                    }
                }
                x = x + 1;
            }
            proof {
                assert((y as int) * (w as int) + (w as int) == ((y as int) + 1) * (w as int))
                    by (nonlinear_arith);
            }
            y = y + 1;
        }
        let vlen = vals.len();
        proof {
            assert((h as int) * (w as int) == vlen as int);
        }
        let r = Self::from_flat(vals.as_slice(), h, w);
        proof {
            assert forall|i: int, j: int| 0 <= i < h && 0 <= j < w implies grid_from_flat(
                seq_val(vals@),
                h as nat,
                w as nat,
            )[i][j] == mat_add_num(ma, N::sval(n))[i][j] by {
                lemma_flat_cell(i, j, h as int, w as int);
            }
            assert(grid_from_flat(seq_val(vals@), h as nat, w as nat) =~~= mat_add_num(
                ma,
                N::sval(n),
            ));
        }
        r
    }

    /// Subtract a scalar from every cell.
    fn sub_num(&self, n: N) -> (r: MAT)
        requires
            MAT::shape_ok(self.model().len(), mwidth(self.model())),
            mat_sub_num_ok::<N>(self.model(), N::sval(n)),
        ensures
            r.model() == mat_sub_num(self.model(), N::sval(n)),
    {
        let ghost ma = self.model();
        let h = self.get_height();
        let w = self.get_width();
        let mut vals: Vec<N> = Vec::new();
        self.model_wf();
        proof {
            assert(0int * (w as int) == 0) by (nonlinear_arith);
        }
        let mut y: usize = 0;
        while y < h
            invariant
                0 <= y <= h,
                h == ma.len(),
                w == mwidth(ma),
                ma == self.model(),
                rect(ma),
                mat_sub_num_ok::<N>(ma, N::sval(n)),
                vals@.len() == y * w,
                forall|k: int|
                    0 <= k < vals@.len() ==> N::sval(#[trigger] vals@[k]) == mat_sub_num(
                        ma,
                        N::sval(n),
                    )[k / (w as int)][k % (w as int)],
            decreases h - y,
        {
            let mut x: usize = 0;
            while x < w
                invariant
                    0 <= y < h,
                    0 <= x <= w,
                    h == ma.len(),
                    w == mwidth(ma),
                    ma == self.model(),
                    rect(ma),
                    mat_sub_num_ok::<N>(ma, N::sval(n)),
                    vals@.len() == y * w + x,
                    forall|k: int|
                        0 <= k < vals@.len() ==> N::sval(#[trigger] vals@[k]) == mat_sub_num(
                            ma,
                            N::sval(n),
                        )[k / (w as int)][k % (w as int)],
                decreases w - x,
            {
                let c = self.get_value(y, x);
                let v = N::sub(c, n);
                let ghost ov = vals@;
                vals.push(v);
                proof {
                    lemma_flat_index(y as int, x as int, w as int);
                    assert forall|k: int| 0 <= k < vals@.len() implies N::sval(
                        #[trigger] vals@[k],
                    ) == mat_sub_num(ma, N::sval(n))[k / (w as int)][k % (w as int)] by {
                        if k < ov.len() {
                            assert(vals@[k] == ov[k]);
                        } else {
                            assert(vals@[k] == v);
                        }
                    }
                }
                x = x + 1;
            }
            proof {
                assert((y as int) * (w as int) + (w as int) == ((y as int) + 1) * (w as int))
                    by (nonlinear_arith);
            }
            y = y + 1;
        }
        let vlen = vals.len();
        proof {
            assert((h as int) * (w as int) == vlen as int);
        }
        let r = Self::from_flat(vals.as_slice(), h, w);
        proof {
            assert forall|i: int, j: int| 0 <= i < h && 0 <= j < w implies grid_from_flat(
                seq_val(vals@),
                h as nat,
                w as nat,
            )[i][j] == mat_sub_num(ma, N::sval(n))[i][j] by {
                lemma_flat_cell(i, j, h as int, w as int);
            }
            assert(grid_from_flat(seq_val(vals@), h as nat, w as nat) =~~= mat_sub_num(
                ma,
                N::sval(n),
            ));
        }
        r
    }
}


/// The dynamically sized matrix: a rectangular grid of rows.
#[derive(Debug)]
pub struct GenericMatrix<N: CharMathNumeric<N>> {
    mat: Vec<Vec<N>>,
}

impl<N: CharMathNumeric<N>> GenericMatrix<N> {
    /// Every row is as long as the first.
    #[verifier::type_invariant]
    closed spec fn wf(self) -> bool {
        forall|i: int|
            0 <= i < self.mat@.len() ==> (#[trigger] self.mat@[i])@.len() == self.mat@[0]@.len()
    }

    /// A zero-filled matrix of the given dimensions.
    pub fn sized(h: usize, w: usize) -> (r: GenericMatrix<N>)
        requires
            (h as int) * (w as int) <= usize::MAX as int,
        ensures
            r.model() == grid_from_flat(Seq::<int>::empty(), h as nat, w as nat),
    {
        let e: Vec<N> = Vec::new();
        let r = Self::from_flat(e.as_slice(), h, w);
        proof {
            assert(seq_val(e@) =~= Seq::<int>::empty());
        }
        r
    }
}

impl<N: CharMathNumeric<N>> MatrixBase<N> for GenericMatrix<N> {
    closed spec fn model(&self) -> Seq<Seq<int>> {
        grid_of_vecs(self.mat@)
    }

    open spec fn shape_ok(h: nat, w: nat) -> bool {
        true
    }

    fn model_wf(&self) {
        proof {
            use_type_invariant(self);
            assert(Self::shape_ok(self.model().len(), mwidth(self.model())));
            assert forall|i: int| 0 <= i < self.model().len() implies (#[trigger] self.model()[
                i
            ]).len() == mwidth(self.model()) by {
            }
        }
    }

    fn get_width(&self) -> (r: usize) {
        if self.mat.len() == 0 {
            0
        } else {
            self.mat[0].len()
        }
    }

    fn get_height(&self) -> (r: usize) {
        self.mat.len()
    }

    fn get_value(&self, h: usize, w: usize) -> (r: N) {
        proof {
            use_type_invariant(self);
        }
        self.mat[h][w]
    }

    fn set_value(&mut self, h: usize, w: usize, val: N) {
        proof {
            use_type_invariant(&*self);
        }
        let mut m: Vec<Vec<N>> = Vec::new();
        std::mem::swap(&mut m, &mut self.mat);
        let row: &mut Vec<N> = &mut m[h];
        row[w] = val;
        self.mat = m;
        proof {
            assert(final(self).model() =~~= old(self).model().update(
                h as int,
                old(self).model()[h as int].update(w as int, N::sval(val)),
            ));
        }
    }
}

impl<N: CharMathNumeric<N>> CharMathCopy<GenericMatrix<N>> for GenericMatrix<N> {
    fn cm_copy(&self) -> (r: GenericMatrix<N>)
        ensures
            r.model() == self.model(),
    {
        proof {
            use_type_invariant(self);
        }
        let h = self.get_height();
        let mut rows: Vec<Vec<N>> = Vec::new();
        let mut i: usize = 0;
        while i < h
            invariant
                0 <= i <= h,
                h == self.model().len(),
                self.wf(),
                rows@.len() == i,
                forall|k: int|
                    0 <= k < i ==> grid_of_vecs(rows@)[k] == self.model()[k],
            decreases h - i,
        {
            let ghost orows = rows@;
            let r = self.get_row_vec(i);
            rows.push(r);
            proof {
                assert forall|k: int| 0 <= k < i + 1 implies grid_of_vecs(rows@)[k]
                    == self.model()[k] by {
                    if k < i {
                        assert(rows@[k] == orows[k]);
                        assert(grid_of_vecs(orows)[k] == self.model()[k]);
                    } else {
                        assert(rows@[k] == r);
                    }
                }
            }
            i = i + 1;
        }
        proof {
            assert forall|ii: int| 0 <= ii < rows@.len() implies (#[trigger] rows@[ii])@.len()
                == rows@[0]@.len() by {
                assert(grid_of_vecs(rows@)[ii] == self.model()[ii]);
                assert(grid_of_vecs(rows@)[0] == self.model()[0]);
            }
        }
        let ret = GenericMatrix { mat: rows };
        proof {
            assert(ret.model() =~~= self.model());
        }
        ret
    }
}

impl<N: CharMathNumeric<N>> Matrix<N, GenericMatrix<N>> for GenericMatrix<N> {
    fn from_vec(vec: Vec<Vec<N>>) -> (r: GenericMatrix<N>) {
        proof {
            assert forall|i: int| 0 <= i < vec@.len() implies (#[trigger] vec@[i])@.len()
                == vec@[0]@.len() by {
                assert(grid_of_vecs(vec@)[i].len() == mwidth(grid_of_vecs(vec@)));
                assert(grid_of_vecs(vec@)[0].len() == mwidth(grid_of_vecs(vec@)));
            }
        }
        GenericMatrix { mat: vec }
    }

    fn from_flat(arr: &[N], h: usize, w: usize) -> (r: GenericMatrix<N>) {
        let ghost target = grid_from_flat(seq_val(arr@), h as nat, w as nat);
        let mut rows: Vec<Vec<N>> = Vec::new();
        let mut i: usize = 0;
        while i < h
            invariant
                0 <= i <= h,
                (h as int) * (w as int) <= usize::MAX as int,
                target == grid_from_flat(seq_val(arr@), h as nat, w as nat),
                rows@.len() == i,
                forall|k: int| 0 <= k < i ==> grid_of_vecs(rows@)[k] == target[k],
            decreases h - i,
        {
            let mut row: Vec<N> = Vec::new();
            let mut j: usize = 0;
            while j < w
                invariant
                    0 <= i < h,
                    0 <= j <= w,
                    (h as int) * (w as int) <= usize::MAX as int,
                    target == grid_from_flat(seq_val(arr@), h as nat, w as nat),
                    row@.len() == j,
                    forall|k: int|
                        0 <= k < j ==> N::sval(#[trigger] row@[k]) == target[i as int][k],
                decreases w - j,
            {
                proof {
                    lemma_flat_cell(i as int, j as int, h as int, w as int);
                }
                let idx: usize = i * w + j;
                let ghost orow = row@;
                let v = if idx < arr.len() {
                    arr[idx]
                } else {
                    N::zero()
                };
                row.push(v);
                proof {
                    assert forall|k: int| 0 <= k < j + 1 implies N::sval(#[trigger] row@[k])
                        == target[i as int][k] by {
                        if k < j {
                            assert(row@[k] == orow[k]);
                        } else {
                            assert(row@[k] == v);
                        }
                    }
                }
                j = j + 1;
            }
            let ghost orows = rows@;
            rows.push(row);
            proof {
                assert forall|k: int| 0 <= k < i + 1 implies grid_of_vecs(rows@)[k]
                    == target[k] by {
                    if k < i {
                        assert(rows@[k] == orows[k]);
                        assert(grid_of_vecs(orows)[k] == target[k]);
                    } else {
                        assert(seq_val(rows@[k]@) =~= target[k]);
                    }
                }
            }
            i = i + 1;
        }
        proof {
            assert forall|ii: int| 0 <= ii < rows@.len() implies (#[trigger] rows@[ii])@.len()
                == rows@[0]@.len() by {
                assert(grid_of_vecs(rows@)[ii] == target[ii]);
                assert(grid_of_vecs(rows@)[0] == target[0]);
                assert(target[ii].len() == w as int);
                assert(target[0].len() == w as int);
            }
        }
        let r = GenericMatrix { mat: rows };
        proof {
            assert(r.model() =~~= target);
        }
        r
    }
}


/// The fixed 2 by 2 matrix, generic over the scalar.
#[derive(Debug, Clone, Copy)]
pub struct Mat2<N: CharMathNumeric<N>> {
    m00: N,
    m01: N,
    m10: N,
    m11: N,
}

impl<N: CharMathNumeric<N>> MatrixBase<N> for Mat2<N> {
    closed spec fn model(&self) -> Seq<Seq<int>> {
        seq![seq![N::sval(self.m00), N::sval(self.m01)],
        seq![N::sval(self.m10), N::sval(self.m11)]]
    }

    open spec fn shape_ok(h: nat, w: nat) -> bool {
        h == 2 && w == 2
    }

    fn model_wf(&self) {
        proof {
            assert(self.model().len() == 2);
            assert(mwidth(self.model()) == 2);
            assert(Self::shape_ok(self.model().len(), mwidth(self.model())));
            assert forall|i: int| 0 <= i < self.model().len() implies (#[trigger] self.model()[
                i
            ]).len() == mwidth(self.model()) by {
            }
        }
    }

    fn get_width(&self) -> (r: usize) {
        2
    }

    fn get_height(&self) -> (r: usize) {
        2
    }

    fn get_value(&self, h: usize, w: usize) -> (r: N) {
        if h == 0 {
            if w == 0 {
                self.m00
            } else {
                self.m01
            }
        } else {
            if w == 0 {
                self.m10
            } else {
                self.m11
            }
        }
    }

    fn set_value(&mut self, h: usize, w: usize, val: N) {
        if h == 0 {
            if w == 0 {
                self.m00 = val;
            } else {
                self.m01 = val;
            }
        } else {
            if w == 0 {
                self.m10 = val;
            } else {
                self.m11 = val;
            }
        }
        proof {
            assert(self.model() =~~= old(self).model().update(
                h as int,
                old(self).model()[h as int].update(w as int, N::sval(val)),
            ));
        }
    }
}

impl<N: CharMathNumeric<N>> CharMathCopy<Mat2<N>> for Mat2<N> {
    fn cm_copy(&self) -> (r: Mat2<N>)
        ensures
            r.model() == self.model(),
    {
        Mat2 { m00: self.m00, m01: self.m01, m10: self.m10, m11: self.m11 }
    }
}

impl<N: CharMathNumeric<N>> Matrix<N, Mat2<N>> for Mat2<N> {
    fn from_vec(vec: Vec<Vec<N>>) -> (r: Mat2<N>) {
        proof {
            assert(grid_of_vecs(vec@).len() == 2);
            assert forall|i: int| 0 <= i < 2 implies (#[trigger] vec@[i])@.len() == 2 by {
                assert(grid_of_vecs(vec@)[i].len() == mwidth(grid_of_vecs(vec@)));
            }
        }
        let m00 = vec[0][0];
        let m01 = vec[0][1];
        let m10 = vec[1][0];
        let m11 = vec[1][1];
        let r = Mat2 { m00, m01, m10, m11 };
        proof {
            assert(r.model() =~~= grid_of_vecs(vec@));
        }
        r
    }

    fn from_flat(arr: &[N], h: usize, w: usize) -> (r: Mat2<N>) {
        let m00 = if arr.len() > 0 {
            arr[0]
        } else {
            N::zero()
        };
        let m01 = if arr.len() > 1 {
            arr[1]
        } else {
            N::zero()
        };
        let m10 = if arr.len() > 2 {
            arr[2]
        } else {
            N::zero()
        };
        let m11 = if arr.len() > 3 {
            arr[3]
        } else {
            N::zero()
        };
        let r = Mat2 { m00, m01, m10, m11 };
        proof {
            assert(r.model() =~~= grid_from_flat(seq_val(arr@), 2, 2));
        }
        r
    }
}

/// The fixed 3 by 3 matrix, generic over the scalar.
#[derive(Debug, Clone, Copy)]
pub struct Mat3<N: CharMathNumeric<N>> {
    m00: N,
    m01: N,
    m02: N,
    m10: N,
    m11: N,
    m12: N,
    m20: N,
    m21: N,
    m22: N,
}

impl<N: CharMathNumeric<N>> MatrixBase<N> for Mat3<N> {
    closed spec fn model(&self) -> Seq<Seq<int>> {
        seq![seq![N::sval(self.m00), N::sval(self.m01), N::sval(self.m02)],
        seq![N::sval(self.m10), N::sval(self.m11), N::sval(self.m12)],
        seq![N::sval(self.m20), N::sval(self.m21), N::sval(self.m22)]]
    }

    open spec fn shape_ok(h: nat, w: nat) -> bool {
        h == 3 && w == 3
    }

    fn model_wf(&self) {
        proof {
            assert(self.model().len() == 3);
            assert(mwidth(self.model()) == 3);
            assert(Self::shape_ok(self.model().len(), mwidth(self.model())));
            assert forall|i: int| 0 <= i < self.model().len() implies (#[trigger] self.model()[
                i
            ]).len() == mwidth(self.model()) by {
            }
        }
    }

    fn get_width(&self) -> (r: usize) {
        3
    }

    fn get_height(&self) -> (r: usize) {
        3
    }

    fn get_value(&self, h: usize, w: usize) -> (r: N) {
        if h == 0 {
            if w == 0 {
                self.m00
            } else if w == 1 {
                self.m01
            } else {
                self.m02
            }
        } else if h == 1 {
            if w == 0 {
                self.m10
            } else if w == 1 {
                self.m11
            } else {
                self.m12
            }
        } else {
            if w == 0 {
                self.m20
            } else if w == 1 {
                self.m21
            } else {
                self.m22
            }
        }
    }

    fn set_value(&mut self, h: usize, w: usize, val: N) {
        if h == 0 {
            if w == 0 {
                self.m00 = val;
            } else if w == 1 {
                self.m01 = val;
            } else {
                self.m02 = val;
            }
        } else if h == 1 {
            if w == 0 {
                self.m10 = val;
            } else if w == 1 {
                self.m11 = val;
            } else {
                self.m12 = val;
            }
        } else {
            if w == 0 {
                self.m20 = val;
            } else if w == 1 {
                self.m21 = val;
            } else {
                self.m22 = val;
            }
        }
        proof {
            assert(self.model() =~~= old(self).model().update(
                h as int,
                old(self).model()[h as int].update(w as int, N::sval(val)),
            ));
        }
    }
}

impl<N: CharMathNumeric<N>> CharMathCopy<Mat3<N>> for Mat3<N> {
    fn cm_copy(&self) -> (r: Mat3<N>)
        ensures
            r.model() == self.model(),
    {
        Mat3 { m00: self.m00, m01: self.m01, m02: self.m02, m10: self.m10, m11: self.m11, m12: self.m12, m20: self.m20, m21: self.m21, m22: self.m22 }
    }
}

impl<N: CharMathNumeric<N>> Matrix<N, Mat3<N>> for Mat3<N> {
    fn from_vec(vec: Vec<Vec<N>>) -> (r: Mat3<N>) {
        proof {
            assert(grid_of_vecs(vec@).len() == 3);
            assert forall|i: int| 0 <= i < 3 implies (#[trigger] vec@[i])@.len() == 3 by {
                assert(grid_of_vecs(vec@)[i].len() == mwidth(grid_of_vecs(vec@)));
            }
        }
        let m00 = vec[0][0];
        let m01 = vec[0][1];
        let m02 = vec[0][2];
        let m10 = vec[1][0];
        let m11 = vec[1][1];
        let m12 = vec[1][2];
        let m20 = vec[2][0];
        let m21 = vec[2][1];
        let m22 = vec[2][2];
        let r = Mat3 { m00, m01, m02, m10, m11, m12, m20, m21, m22 };
        proof {
            assert(r.model() =~~= grid_of_vecs(vec@));
        }
        r
    }

    fn from_flat(arr: &[N], h: usize, w: usize) -> (r: Mat3<N>) {
        let m00 = if arr.len() > 0 {
            arr[0]
        } else {
            N::zero()
        };
        let m01 = if arr.len() > 1 {
            arr[1]
        } else {
            N::zero()
        };
        let m02 = if arr.len() > 2 {
            arr[2]
        } else {
            N::zero()
        };
        let m10 = if arr.len() > 3 {
            arr[3]
        } else {
            N::zero()
        };
        let m11 = if arr.len() > 4 {
            arr[4]
        } else {
            N::zero()
        };
        let m12 = if arr.len() > 5 {
            arr[5]
        } else {
            N::zero()
        };
        let m20 = if arr.len() > 6 {
            arr[6]
        } else {
            N::zero()
        };
        let m21 = if arr.len() > 7 {
            arr[7]
        } else {
            N::zero()
        };
        let m22 = if arr.len() > 8 {
            arr[8]
        } else {
            N::zero()
        };
        let r = Mat3 { m00, m01, m02, m10, m11, m12, m20, m21, m22 };
        proof {
            assert(r.model() =~~= grid_from_flat(seq_val(arr@), 3, 3));
        }
        r
    }
}

/// The fixed 4 by 4 matrix, generic over the scalar.
#[derive(Debug, Clone, Copy)]
pub struct Mat4<N: CharMathNumeric<N>> {
    m00: N,
    m01: N,
    m02: N,
    m03: N,
    m10: N,
    m11: N,
    m12: N,
    m13: N,
    m20: N,
    m21: N,
    m22: N,
    m23: N,
    m30: N,
    m31: N,
    m32: N,
    m33: N,
}

impl<N: CharMathNumeric<N>> MatrixBase<N> for Mat4<N> {
    closed spec fn model(&self) -> Seq<Seq<int>> {
        seq![seq![N::sval(self.m00), N::sval(self.m01), N::sval(self.m02), N::sval(self.m03)],
        seq![N::sval(self.m10), N::sval(self.m11), N::sval(self.m12), N::sval(self.m13)],
        seq![N::sval(self.m20), N::sval(self.m21), N::sval(self.m22), N::sval(self.m23)],
        seq![N::sval(self.m30), N::sval(self.m31), N::sval(self.m32), N::sval(self.m33)]]
    }

    open spec fn shape_ok(h: nat, w: nat) -> bool {
        h == 4 && w == 4
    }

    fn model_wf(&self) {
        proof {
            assert(self.model().len() == 4);
            assert(mwidth(self.model()) == 4);
            assert(Self::shape_ok(self.model().len(), mwidth(self.model())));
            assert forall|i: int| 0 <= i < self.model().len() implies (#[trigger] self.model()[
                i
            ]).len() == mwidth(self.model()) by {
            }
        }
    }

    fn get_width(&self) -> (r: usize) {
        4
    }

    fn get_height(&self) -> (r: usize) {
        4
    }

    fn get_value(&self, h: usize, w: usize) -> (r: N) {
        if h == 0 {
            if w == 0 {
                self.m00
            } else if w == 1 {
                self.m01
            } else if w == 2 {
                self.m02
            } else {
                self.m03
            }
        } else if h == 1 {
            if w == 0 {
                self.m10
            } else if w == 1 {
                self.m11
            } else if w == 2 {
                self.m12
            } else {
                self.m13
            }
        } else if h == 2 {
            if w == 0 {
                self.m20
            } else if w == 1 {
                self.m21
            } else if w == 2 {
                self.m22
            } else {
                self.m23
            }
        } else {
            if w == 0 {
                self.m30
            } else if w == 1 {
                self.m31
            } else if w == 2 {
                self.m32
            } else {
                self.m33
            }
        }
    }

    fn set_value(&mut self, h: usize, w: usize, val: N) {
        if h == 0 {
            if w == 0 {
                self.m00 = val;
            } else if w == 1 {
                self.m01 = val;
            } else if w == 2 {
                self.m02 = val;
            } else {
                self.m03 = val;
            }
        } else if h == 1 {
            if w == 0 {
                self.m10 = val;
            } else if w == 1 {
                self.m11 = val;
            } else if w == 2 {
                self.m12 = val;
            } else {
                self.m13 = val;
            }
        } else if h == 2 {
            if w == 0 {
                self.m20 = val;
            } else if w == 1 {
                self.m21 = val;
            } else if w == 2 {
                self.m22 = val;
            } else {
                self.m23 = val;
            }
        } else {
            if w == 0 {
                self.m30 = val;
            } else if w == 1 {
                self.m31 = val;
            } else if w == 2 {
                self.m32 = val;
            } else {
                self.m33 = val;
            }
        }
        proof {
            assert(self.model() =~~= old(self).model().update(
                h as int,
                old(self).model()[h as int].update(w as int, N::sval(val)),
            ));
        }
    }
}

impl<N: CharMathNumeric<N>> CharMathCopy<Mat4<N>> for Mat4<N> {
    fn cm_copy(&self) -> (r: Mat4<N>)
        ensures
            r.model() == self.model(),
    {
        Mat4 { m00: self.m00, m01: self.m01, m02: self.m02, m03: self.m03, m10: self.m10, m11: self.m11, m12: self.m12, m13: self.m13, m20: self.m20, m21: self.m21, m22: self.m22, m23: self.m23, m30: self.m30, m31: self.m31, m32: self.m32, m33: self.m33 }
    }
}

impl<N: CharMathNumeric<N>> Matrix<N, Mat4<N>> for Mat4<N> {
    fn from_vec(vec: Vec<Vec<N>>) -> (r: Mat4<N>) {
        proof {
            assert(grid_of_vecs(vec@).len() == 4);
            assert forall|i: int| 0 <= i < 4 implies (#[trigger] vec@[i])@.len() == 4 by {
                assert(grid_of_vecs(vec@)[i].len() == mwidth(grid_of_vecs(vec@)));
            }
        }
        let m00 = vec[0][0];
        let m01 = vec[0][1];
        let m02 = vec[0][2];
        let m03 = vec[0][3];
        let m10 = vec[1][0];
        let m11 = vec[1][1];
        let m12 = vec[1][2];
        let m13 = vec[1][3];
        let m20 = vec[2][0];
        let m21 = vec[2][1];
        let m22 = vec[2][2];
        let m23 = vec[2][3];
        let m30 = vec[3][0];
        let m31 = vec[3][1];
        let m32 = vec[3][2];
        let m33 = vec[3][3];
        let r = Mat4 { m00, m01, m02, m03, m10, m11, m12, m13, m20, m21, m22, m23, m30, m31, m32, m33 };
        proof {
            assert(r.model() =~~= grid_of_vecs(vec@));
        }
        r
    }

    fn from_flat(arr: &[N], h: usize, w: usize) -> (r: Mat4<N>) {
        let m00 = if arr.len() > 0 {
            arr[0]
        } else {
            N::zero()
        };
        let m01 = if arr.len() > 1 {
            arr[1]
        } else {
            N::zero()
        };
        let m02 = if arr.len() > 2 {
            arr[2]
        } else {
            N::zero()
        };
        let m03 = if arr.len() > 3 {
            arr[3]
        } else {
            N::zero()
        };
        let m10 = if arr.len() > 4 {
            arr[4]
        } else {
            N::zero()
        };
        let m11 = if arr.len() > 5 {
            arr[5]
        } else {
            N::zero()
        };
        let m12 = if arr.len() > 6 {
            arr[6]
        } else {
            N::zero()
        };
        let m13 = if arr.len() > 7 {
            arr[7]
        } else {
            N::zero()
        };
        let m20 = if arr.len() > 8 {
            arr[8]
        } else {
            N::zero()
        };
        let m21 = if arr.len() > 9 {
            arr[9]
        } else {
            N::zero()
        };
        let m22 = if arr.len() > 10 {
            arr[10]
        } else {
            N::zero()
        };
        let m23 = if arr.len() > 11 {
            arr[11]
        } else {
            N::zero()
        };
        let m30 = if arr.len() > 12 {
            arr[12]
        } else {
            N::zero()
        };
        let m31 = if arr.len() > 13 {
            arr[13]
        } else {
            N::zero()
        };
        let m32 = if arr.len() > 14 {
            arr[14]
        } else {
            N::zero()
        };
        let m33 = if arr.len() > 15 {
            arr[15]
        } else {
            N::zero()
        };
        let r = Mat4 { m00, m01, m02, m03, m10, m11, m12, m13, m20, m21, m22, m23, m30, m31, m32, m33 };
        proof {
            assert(r.model() =~~= grid_from_flat(seq_val(arr@), 4, 4));
        }
        r
    }
}

/// The per-scalar matrix names of the integer scalars.
pub type Mat2i32 = Mat2<i32>;

pub type Mat2i64 = Mat2<i64>;

pub type Mat3i32 = Mat3<i32>;

pub type Mat3i64 = Mat3<i64>;

pub type Mat4i32 = Mat4<i32>;

pub type Mat4i64 = Mat4<i64>;


/// The cofactor extraction: a copy of `m` whose leading `(n-1)` by
/// `(n-1)` block is the submatrix of the leading `n` by `n` block with
/// row `p` and column `q` deleted (the remaining cells keep `m`'s
/// values, as the scan-and-pack of the extraction leaves them).
pub fn matrix_cofactor<N: CharMathNumeric<N>, M: Matrix<N, M>>(m: &M, p: i32, q: i32, n: i32) -> (r:
    M)
    requires
        0 <= p < n,
        0 <= q < n,
        n as int <= m.model().len(),
        n as int <= mwidth(m.model()),
    ensures
        r.model() == cof_grid(m.model(), p as int, q as int, n as int),
{
    let ghost ma = m.model();
    let ghost target = cof_grid(ma, p as int, q as int, n as int);
    let h = m.get_height();
    let w = m.get_width();
    m.model_wf();
    let mut vals: Vec<N> = Vec::new();
    proof {
        assert(0int * (w as int) == 0) by (nonlinear_arith);
        assert(target.len() == h);
        assert forall|i: int| 0 <= i < h implies (#[trigger] target[i]).len() == w by {
        }
    }
    let mut i: usize = 0;
    while i < h
        invariant
            0 <= i <= h,
            h == ma.len(),
            w == mwidth(ma),
            ma == m.model(),
            rect(ma),
            0 <= p < n,
            0 <= q < n,
            n as int <= h,
            n as int <= w,
            target == cof_grid(ma, p as int, q as int, n as int),
            vals@.len() == i * w,
            forall|k: int|
                0 <= k < vals@.len() ==> N::sval(#[trigger] vals@[k]) == target[k / (w as int)][k
                    % (w as int)],
        decreases h - i,
    {
        let mut j: usize = 0;
        while j < w
            invariant
                0 <= i < h,
                0 <= j <= w,
                h == ma.len(),
                w == mwidth(ma),
                ma == m.model(),
                rect(ma),
                0 <= p < n,
                0 <= q < n,
                n as int <= h,
                n as int <= w,
                target == cof_grid(ma, p as int, q as int, n as int),
                vals@.len() == i * w + j,
                forall|k: int|
                    0 <= k < vals@.len() ==> N::sval(#[trigger] vals@[k]) == target[k / (
                    w as int)][k % (w as int)],
            decreases w - j,
        {
            let n1 = (n - 1) as usize;
            let v = if i < n1 && j < n1 {
                let si = if (i as i32) < p {
                    i
                } else {
                    i + 1
                };
                let sj = if (j as i32) < q {
                    j
                } else {
                    j + 1
                };
                m.get_value(si, sj)
            } else {
                m.get_value(i, j)
            };
            proof {
                assert(target[i as int][j as int] == N::sval(v));
            }
            let ghost ov = vals@;
            vals.push(v);
            proof {
                lemma_flat_index(i as int, j as int, w as int);
                assert forall|k: int| 0 <= k < vals@.len() implies N::sval(#[trigger] vals@[k])
                    == target[k / (w as int)][k % (w as int)] by {
                    if k < ov.len() {
                        assert(vals@[k] == ov[k]);
                    } else {
                        assert(vals@[k] == v);
                    }
                }
            }
            j = j + 1;
        }
        proof {
            assert((i as int) * (w as int) + (w as int) == ((i as int) + 1) * (w as int))
                by (nonlinear_arith);
        }
        i = i + 1;
    }
    let vlen = vals.len();
    proof {
        assert((h as int) * (w as int) == vlen as int);
    }
    let r = M::from_flat(vals.as_slice(), h, w);
    proof {
        assert forall|ii: int, jj: int| 0 <= ii < h && 0 <= jj < w implies grid_from_flat(
            seq_val(vals@),
            h as nat,
            w as nat,
        )[ii][jj] == target[ii][jj] by {
            lemma_flat_cell(ii, jj, h as int, w as int);
        }
        assert(grid_from_flat(seq_val(vals@), h as nat, w as nat) =~~= target);
    }
    r
}

/// The determinant of the leading `n` by `n` block, by recursive
/// Laplace expansion along row 0.
pub fn matrix_determinant_n<N: CharMathNumeric<N>, M: Matrix<N, M>>(m: &M, n: u32) -> (r: N)
    requires
        n as int <= m.model().len(),
        n as int <= mwidth(m.model()),
        n <= 0x7fff_ffff,
        det_ok::<N>(m.model(), n as nat),
        n > 2 ==> N::in_range(-1) && N::in_range(1),
    ensures
        N::sval(r) == det(m.model(), n as nat),
    decreases n,
{
    let ghost ma = m.model();
    m.model_wf();
    if n == 0 {
        N::zero()
    } else if n == 1 {
        m.get_value(0, 0)
    } else if n == 2 {
        let a = N::mul(m.get_value(0, 0), m.get_value(1, 1));
        let b = N::mul(m.get_value(0, 1), m.get_value(1, 0));
        N::sub(a, b)
    } else {
        let mut acc: N = N::zero();
        let mut sign: N = N::one();
        let mut i: u32 = 0;
        while i < n
            invariant
                0 <= i <= n,
                2 < n,
                n as int <= ma.len(),
                n as int <= mwidth(ma),
                n <= 0x7fff_ffff,
                ma == m.model(),
                lap_ok::<N>(ma, n as nat, n as int),
                N::in_range(-1),
                N::in_range(1),
                N::sval(acc) == lap(ma, n as nat, i as int),
                N::sval(sign) == pow_neg1(i as int),
            decreases n - i,
        {
            proof {
                lemma_lap_ok_mono::<N>(ma, n as nat, n as int, i as int + 1);
                assert(lap_ok::<N>(ma, n as nat, i as int + 1));
            }
            let s1 = N::mul(sign, m.get_value(0, i as usize));
            let cof = matrix_cofactor(m, 0, i as i32, n as i32);
            proof {
                assert forall|ii: int, jj: int|
                    #![trigger cof.model()[ii][jj], sub_del(ma, 0, i as int, n as nat)[ii][jj]]
                    0 <= ii < (n - 1) as nat && 0 <= jj < (n - 1) as nat implies cof.model()[ii][jj]
                    == sub_del(ma, 0, i as int, n as nat)[ii][jj] by {
                    assert(cof.model()[ii][jj] == cof_grid(ma, 0, i as int, n as int)[ii][jj]);
                }
                lemma_det_leading::<N>(
                    cof.model(),
                    sub_del(ma, 0, i as int, n as nat),
                    (n - 1) as nat,
                );
            }
            let d = matrix_determinant_n(&cof, n - 1);
            let s2 = N::mul(s1, d);
            acc = N::add(acc, s2);
            sign = N::neg(sign);
            i = i + 1;
        }
        acc
    }
}

/// The determinant of a square matrix.
pub fn matrix_determinant<N: CharMathNumeric<N>, M: Matrix<N, M>>(m: &M) -> (r: N)
    requires
        mwidth(m.model()) == m.model().len(),
        m.model().len() <= 0x7fff_ffff,
        det_ok::<N>(m.model(), m.model().len()),
        m.model().len() > 2 ==> N::in_range(-1) && N::in_range(1),
    ensures
        N::sval(r) == det(m.model(), m.model().len()),
{
    let n = m.get_height();
    matrix_determinant_n(m, n as u32)
}

/// The classical adjoint of a square matrix: the transpose of the
/// cofactor matrix.
pub fn matrix_adjoint<N: CharMathNumeric<N>, M: Matrix<N, M>>(m: &M) -> (r: M)
    requires
        mwidth(m.model()) == m.model().len(),
        m.model().len() <= 0x7fff_ffff,
        adjoint_ok::<N>(m.model(), m.model().len()),
        m.model().len() >= 2 ==> N::in_range(-1),
        N::in_range(1),
    ensures
        r.model() == mat_adjoint(m.model(), m.model().len()),
{
    let ghost ma = m.model();
    let ghost nn = ma.len();
    let ghost target = mat_adjoint(ma, nn);
    let h = m.get_height();
    let w = h;
    m.model_wf();
    let mut vals: Vec<N> = Vec::new();
    proof {
        assert(0int * (w as int) == 0) by (nonlinear_arith);
    }
    let mut i: usize = 0;
    while i < h
        invariant
            0 <= i <= h,
            h == ma.len(),
            w == h,
            mwidth(ma) == ma.len(),
            h <= 0x7fff_ffff,
            ma == m.model(),
            rect(ma),
            adjoint_ok::<N>(ma, nn),
            nn == ma.len(),
            target == mat_adjoint(ma, nn),
            h >= 2 ==> N::in_range(-1),
            N::in_range(1),
            vals@.len() == i * w,
            forall|k: int|
                0 <= k < vals@.len() ==> N::sval(#[trigger] vals@[k]) == target[k / (w as int)][k
                    % (w as int)],
        decreases h - i,
    {
        let mut j: usize = 0;
        while j < w
            invariant
                0 <= i < h,
                0 <= j <= w,
                h == ma.len(),
                w == h,
                mwidth(ma) == ma.len(),
                h <= 0x7fff_ffff,
                ma == m.model(),
                rect(ma),
                adjoint_ok::<N>(ma, nn),
                nn == ma.len(),
                target == mat_adjoint(ma, nn),
                h >= 2 ==> N::in_range(-1),
                N::in_range(1),
                vals@.len() == i * w + j,
                forall|k: int|
                    0 <= k < vals@.len() ==> N::sval(#[trigger] vals@[k]) == target[k / (
                    w as int)][k % (w as int)],
            decreases w - j,
        {
            proof {
                lemma_parity(i as int, j as int);
            }
            let sign: N = if (i % 2) == (j % 2) {
                N::one()
            } else {
                proof {
                    assert(h >= 2);
                }
                N::neg(N::one())
            };
            let cof = matrix_cofactor(m, j as i32, i as i32, h as i32);
            proof {
                assert forall|ii: int, jj: int|
                    #![trigger cof.model()[ii][jj], sub_del(ma, j as int, i as int, nn)[ii][jj]]
                    0 <= ii < (nn - 1) as nat && 0 <= jj < (nn - 1) as nat implies cof.model()[
                    ii][jj] == sub_del(ma, j as int, i as int, nn)[ii][jj] by {
                    assert(cof.model()[ii][jj] == cof_grid(ma, j as int, i as int, h as int)[
                    ii][jj]);
                }
                lemma_det_leading::<N>(
                    cof.model(),
                    sub_del(ma, j as int, i as int, nn),
                    (nn - 1) as nat,
                );
            }
            let d = matrix_determinant_n(&cof, (h as u32) - 1);
            let v = N::mul(sign, d);
            proof {
                assert(N::sval(v) == target[i as int][j as int]);
            }
            let ghost ov = vals@;
            vals.push(v);
            proof {
                lemma_flat_index(i as int, j as int, w as int);
                assert forall|k: int| 0 <= k < vals@.len() implies N::sval(#[trigger] vals@[k])
                    == target[k / (w as int)][k % (w as int)] by {
                    if k < ov.len() {
                        assert(vals@[k] == ov[k]);
                    } else {
                        assert(vals@[k] == v);
                    }
                }
            }
            j = j + 1;
        }
        proof {
            assert((i as int) * (w as int) + (w as int) == ((i as int) + 1) * (w as int))
                by (nonlinear_arith);
        }
        i = i + 1;
    }
    let vlen = vals.len();
    proof {
        assert((h as int) * (w as int) == vlen as int);
    }
    let r = M::from_flat(vals.as_slice(), h, w);
    proof {
        assert forall|ii: int, jj: int| 0 <= ii < h && 0 <= jj < w implies grid_from_flat(
            seq_val(vals@),
            h as nat,
            w as nat,
        )[ii][jj] == target[ii][jj] by {
            lemma_flat_cell(ii, jj, h as int, w as int);
        }
        assert(grid_from_flat(seq_val(vals@), h as nat, w as nat) =~~= target);
    }
    r
}


/// The inverse by the classical route: the adjoint divided cell-wise
/// by the determinant.  (With integer scalars the division
/// truncates; the result is the exact inverse only where the
/// determinant divides every adjoint cell.)
pub fn matrix_inverse<N: CharMathNumeric<N>, M: Matrix<N, M>>(m: &M) -> (r: M)
    requires
        mwidth(m.model()) == m.model().len(),
        m.model().len() <= 0x7fff_ffff,
        adjoint_ok::<N>(m.model(), m.model().len()),
        det_ok::<N>(m.model(), m.model().len()),
        m.model().len() >= 2 ==> N::in_range(-1),
        N::in_range(1),
        det(m.model(), m.model().len()) != 0,
        mat_div_num_ok::<N>(
            mat_adjoint(m.model(), m.model().len()),
            det(m.model(), m.model().len()),
        ),
    ensures
        r.model() == mat_div_num(
            mat_adjoint(m.model(), m.model().len()),
            det(m.model(), m.model().len()),
        ),
{
    let adj = matrix_adjoint(m);
    let d = matrix_determinant(m);
    adj.model_wf();
    adj.div_num(d)
}

/// The square-matrix algorithms: size, cofactor extraction,
/// determinant, adjoint and inverse.  `MAT` is the concrete matrix type
/// the operations produce; an implementing type uses itself there.
pub trait SquareMatrix<N: CharMathNumeric<N>, MAT: MatrixBase<N>>: Matrix<N, MAT> {
    /// The shared row and column count.  Defined only for a square
    /// matrix; the precondition excludes the rest.
    fn get_size(&self) -> (r: usize)
        requires
            mwidth(self.model()) == self.model().len(),
        ensures
            r == self.model().len(),
    {
        self.get_height()
    }

    /// The cofactor extraction over the leading `n` by `n` block.
    fn get_cofactor(&self, p: i32, q: i32, n: i32) -> (r: MAT)
        requires
            0 <= p < n,
            0 <= q < n,
            n as int <= self.model().len(),
            n as int <= mwidth(self.model()),
        ensures
            r.model() == cof_grid(self.model(), p as int, q as int, n as int),
    ;

    /// The determinant of the leading `n` by `n` block.
    fn determinant_recursive(&self, n: u32) -> (r: N)
        requires
            n as int <= self.model().len(),
            n as int <= mwidth(self.model()),
            n <= 0x7fff_ffff,
            det_ok::<N>(self.model(), n as nat),
            n > 2 ==> N::in_range(-1) && N::in_range(1),
        ensures
            N::sval(r) == det(self.model(), n as nat),
    ;

    /// The determinant.
    fn determinant(&self) -> (r: N)
        requires
            mwidth(self.model()) == self.model().len(),
            self.model().len() <= 0x7fff_ffff,
            det_ok::<N>(self.model(), self.model().len()),
            self.model().len() > 2 ==> N::in_range(-1) && N::in_range(1),
        ensures
            N::sval(r) == det(self.model(), self.model().len()),
    ;

    /// The classical adjoint.
    fn adjoint(&self) -> (r: MAT)
        requires
            mwidth(self.model()) == self.model().len(),
            self.model().len() <= 0x7fff_ffff,
            adjoint_ok::<N>(self.model(), self.model().len()),
            self.model().len() >= 2 ==> N::in_range(-1),
            N::in_range(1),
        ensures
            r.model() == mat_adjoint(self.model(), self.model().len()),
    ;

    /// The inverse: the adjoint divided by the determinant.
    fn inverse(&self) -> (r: MAT)
        requires
            mwidth(self.model()) == self.model().len(),
            self.model().len() <= 0x7fff_ffff,
            adjoint_ok::<N>(self.model(), self.model().len()),
            det_ok::<N>(self.model(), self.model().len()),
            self.model().len() >= 2 ==> N::in_range(-1),
            N::in_range(1),
            det(self.model(), self.model().len()) != 0,
            mat_div_num_ok::<N>(
                mat_adjoint(self.model(), self.model().len()),
                det(self.model(), self.model().len()),
            ),
        ensures
            r.model() == mat_div_num(
                mat_adjoint(self.model(), self.model().len()),
                det(self.model(), self.model().len()),
            ),
    ;
}

impl<N: CharMathNumeric<N>> SquareMatrix<N, GenericMatrix<N>> for GenericMatrix<N> {
    fn get_cofactor(&self, p: i32, q: i32, n: i32) -> (r: GenericMatrix<N>) {
        matrix_cofactor(self, p, q, n)
    }

    fn determinant_recursive(&self, n: u32) -> (r: N) {
        matrix_determinant_n(self, n)
    }

    fn determinant(&self) -> (r: N) {
        matrix_determinant(self)
    }

    fn adjoint(&self) -> (r: GenericMatrix<N>) {
        matrix_adjoint(self)
    }

    fn inverse(&self) -> (r: GenericMatrix<N>) {
        matrix_inverse(self)
    }
}

impl<N: CharMathNumeric<N>> SquareMatrix<N, Mat2<N>> for Mat2<N> {
    fn get_cofactor(&self, p: i32, q: i32, n: i32) -> (r: Mat2<N>) {
        matrix_cofactor(self, p, q, n)
    }

    fn determinant_recursive(&self, n: u32) -> (r: N) {
        matrix_determinant_n(self, n)
    }

    fn determinant(&self) -> (r: N) {
        matrix_determinant(self)
    }

    fn adjoint(&self) -> (r: Mat2<N>) {
        matrix_adjoint(self)
    }

    fn inverse(&self) -> (r: Mat2<N>) {
        matrix_inverse(self)
    }
}

impl<N: CharMathNumeric<N>> SquareMatrix<N, Mat3<N>> for Mat3<N> {
    fn get_cofactor(&self, p: i32, q: i32, n: i32) -> (r: Mat3<N>) {
        matrix_cofactor(self, p, q, n)
    }

    fn determinant_recursive(&self, n: u32) -> (r: N) {
        matrix_determinant_n(self, n)
    }

    fn determinant(&self) -> (r: N) {
        matrix_determinant(self)
    }

    fn adjoint(&self) -> (r: Mat3<N>) {
        matrix_adjoint(self)
    }

    fn inverse(&self) -> (r: Mat3<N>) {
        matrix_inverse(self)
    }
}

impl<N: CharMathNumeric<N>> SquareMatrix<N, Mat4<N>> for Mat4<N> {
    fn get_cofactor(&self, p: i32, q: i32, n: i32) -> (r: Mat4<N>) {
        matrix_cofactor(self, p, q, n)
    }

    fn determinant_recursive(&self, n: u32) -> (r: N) {
        matrix_determinant_n(self, n)
    }

    fn determinant(&self) -> (r: N) {
        matrix_determinant(self)
    }

    fn adjoint(&self) -> (r: Mat4<N>) {
        matrix_adjoint(self)
    }

    fn inverse(&self) -> (r: Mat4<N>) {
        matrix_inverse(self)
    }
}

/// The grid of the rigid-transform inverse: the 3 by 3 block
/// transposed, the translation row replaced by its negated dot against
/// the transposed basis, and the last column `(0, 0, 0, 1)`.
pub open spec fn rigid_inverse_grid(m: Seq<Seq<int>>) -> Seq<Seq<int>> {
    seq![
        seq![m[0][0], m[1][0], m[2][0], 0],
        seq![m[0][1], m[1][1], m[2][1], 0],
        seq![m[0][2], m[1][2], m[2][2], 0],
        seq![
            -(m[3][0] * m[0][0] + m[3][1] * m[0][1] + m[3][2] * m[0][2]),
            -(m[3][0] * m[1][0] + m[3][1] * m[1][1] + m[3][2] * m[1][2]),
            -(m[3][0] * m[2][0] + m[3][1] * m[2][1] + m[3][2] * m[2][2]),
            1,
        ],
    ]
}

/// The rigid-transform inverse computation stays in the scalar type's
/// range.
pub open spec fn rigid_inverse_ok<N: CharMathNumeric<N>>(m: Seq<Seq<int>>) -> bool {
    &&& N::in_range(1)
    &&& forall|r: int, c: int|
        #![trigger m[3][r] * m[c][r]]
        0 <= r < 3 && 0 <= c < 3 ==> N::in_range(m[3][r] * m[c][r])
    &&& forall|c: int|
        #![trigger m[c][0]]
        0 <= c < 3 ==> {
            &&& N::in_range(m[3][0] * m[c][0] + m[3][1] * m[c][1])
            &&& N::in_range(m[3][0] * m[c][0] + m[3][1] * m[c][1] + m[3][2] * m[c][2])
            &&& N::in_range(-(m[3][0] * m[c][0] + m[3][1] * m[c][1] + m[3][2] * m[c][2]))
        }
}

impl<N: CharMathNumeric<N>> Mat4<N> {
    /// The fast inverse for a rigid transform (an orthonormal rotation
    /// block above a translation row): transpose the rotation block and
    /// negate the translation's dot against each transposed row.  Only
    /// a matrix of that shape gets its true inverse here; any other
    /// matrix gets the same formula applied all the same.
    pub fn inverse_rigid_transform(&self) -> (r: Mat4<N>)
        requires
            rigid_inverse_ok::<N>(self.model()),
        ensures
            r.model() == rigid_inverse_grid(self.model()),
    {
        let t0 = N::neg(
            N::add(
                N::add(N::mul(self.m30, self.m00), N::mul(self.m31, self.m01)),
                N::mul(self.m32, self.m02),
            ),
        );
        let t1 = N::neg(
            N::add(
                N::add(N::mul(self.m30, self.m10), N::mul(self.m31, self.m11)),
                N::mul(self.m32, self.m12),
            ),
        );
        let t2 = N::neg(
            N::add(
                N::add(N::mul(self.m30, self.m20), N::mul(self.m31, self.m21)),
                N::mul(self.m32, self.m22),
            ),
        );
        let r = Mat4 {
            m00: self.m00,
            m01: self.m10,
            m02: self.m20,
            m03: N::zero(),
            m10: self.m01,
            m11: self.m11,
            m12: self.m21,
            m13: N::zero(),
            m20: self.m02,
            m21: self.m12,
            m22: self.m22,
            m23: N::zero(),
            m30: t0,
            m31: t1,
            m32: t2,
            m33: N::one(),
        };
        proof {
            assert(r.model() =~~= rigid_inverse_grid(self.model()));
        }
        r
    }
}

} // verus!
