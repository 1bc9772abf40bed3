//! The transform builders: free functions producing identity, scale,
//! translation, rotation, perspective, look-at and quaternion-rotation
//! matrices.
//!
//! All builders follow the row-vector (pre-multiply) convention: a
//! vector is multiplied on the left of the matrix, so translation sits
//! in the last row.

use crate::linear::matrix::{
    agree, col, det, grid_from_flat, lap, lemma_det_leading_val, lemma_flat_cell, lemma_flat_index,
    mat_adjoint, mat_flat, mat_mul, mat_mul_num, mat_mul_ok, mwidth, pow_neg1, rect, sub_del,
    GenericMatrix, Mat2, Mat4, Matrix, MatrixBase,
};
use crate::linear::quaternion::Quaternion;
use crate::linear::vector::{
    cross_ok, cross_val, dot_ok, lemma_spec_dot2, lemma_spec_dot3, seq_div_num, seq_mul_num, seq_sub, seq_val,
    spec_dot, Vec3, Vec4, Vector, VectorBase,
};
use crate::numeric::{tdiv, CharMathNumeric};
use vstd::prelude::*;

verus! {

/// The `n` by `n` identity grid.
pub open spec fn mat_identity(n: nat) -> Seq<Seq<int>> {
    Seq::new(
        n,
        |i: int|
            Seq::new(
                n,
                |j: int|
                    if i == j {
                        1
                    } else {
                        0
                    },
            ),
    )
}

/// The `n` by `n` scale grid: `factors` down the diagonal, 1 where the
/// factors run out, 0 elsewhere.
pub open spec fn mat_scale(n: nat, factors: Seq<int>) -> Seq<Seq<int>> {
    Seq::new(
        n,
        |i: int|
            Seq::new(
                n,
                |j: int|
                    if i == j {
                        if i < factors.len() {
                            factors[i]
                        } else {
                            1
                        }
                    } else {
                        0
                    },
            ),
    )
}

/// The `n` by `n` translation grid: the identity with the leading
/// entries of the last row replaced by `offsets` (as far as both
/// reach).
pub open spec fn mat_translation(n: nat, offsets: Seq<int>) -> Seq<Seq<int>> {
    Seq::new(
        n,
        |i: int|
            Seq::new(
                n,
                |j: int|
                    if i == n - 1 && j < n - 1 && j < offsets.len() {
                        offsets[j]
                    } else if i == j {
                        1
                    } else {
                        0
                    },
            ),
    )
}

/// A rectangular square grid flattens and reads back unchanged.
pub proof fn lemma_square_flat_roundtrip(m: Seq<Seq<int>>)
    requires
        rect(m),
        mwidth(m) == m.len(),
    ensures
        grid_from_flat(mat_flat(m), mwidth(m), m.len()) == m,
{
    let n = m.len();
    assert forall|i: int, j: int| 0 <= i < n && 0 <= j < n implies grid_from_flat(
        mat_flat(m),
        mwidth(m),
        m.len(),
    )[i][j] == m[i][j] by {
        lemma_flat_cell(i, j, n as int, n as int);
    }
    assert(grid_from_flat(mat_flat(m), mwidth(m), m.len()) =~~= m);
}

/// The `size` by `size` identity matrix.
pub fn identity<N: CharMathNumeric<N>>(size: usize) -> (r: GenericMatrix<N>)
    requires
        (size as int) * (size as int) <= usize::MAX as int,
    ensures
        r.model() == mat_identity(size as nat),
{
    let ghost target = mat_identity(size as nat);
    let mut vals: Vec<N> = Vec::new();
    proof {
        assert(0int * (size as int) == 0) by (nonlinear_arith);
    }
    let mut i: usize = 0;
    while i < size
        invariant
            0 <= i <= size,
            (size as int) * (size as int) <= usize::MAX as int,
            target == mat_identity(size as nat),
            vals@.len() == i * size,
            forall|k: int|
                0 <= k < vals@.len() ==> N::sval(#[trigger] vals@[k]) == target[k / (
                size as int)][k % (size as int)],
        decreases size - i,
    {
        let mut j: usize = 0;
        while j < size
            invariant
                0 <= i < size,
                0 <= j <= size,
                (size as int) * (size as int) <= usize::MAX as int,
                target == mat_identity(size as nat),
                vals@.len() == i * size + j,
                forall|k: int|
                    0 <= k < vals@.len() ==> N::sval(#[trigger] vals@[k]) == target[k / (
                    size as int)][k % (size as int)],
            decreases size - j,
        {
            let v = if i == j {
                N::one()
            } else {
                N::zero()
            };
            let ghost ov = vals@;
            vals.push(v);
            proof {
                lemma_flat_index(i as int, j as int, size as int);
                assert forall|k: int| 0 <= k < vals@.len() implies N::sval(#[trigger] vals@[k])
                    == target[k / (size as int)][k % (size as int)] by {
                    if k < ov.len() {
                        assert(vals@[k] == ov[k]);
                    } else {
                        assert(vals@[k] == v);
                    }
                }
            }
            j = j + 1;
        }
        proof {
            assert((i as int) * (size as int) + (size as int) == ((i as int) + 1) * (size as int))
                by (nonlinear_arith);
        }
        i = i + 1;
    }
    let vlen = vals.len();
    proof {
        assert((size as int) * (size as int) == vlen as int);
    }
    let r = GenericMatrix::<N>::from_flat(vals.as_slice(), size, size);
    proof {
        assert forall|ii: int, jj: int| 0 <= ii < size && 0 <= jj < size implies grid_from_flat(
            seq_val(vals@),
            size as nat,
            size as nat,
        )[ii][jj] == target[ii][jj] by {
            lemma_flat_cell(ii, jj, size as int, size as int);
        }
        assert(grid_from_flat(seq_val(vals@), size as nat, size as nat) =~~= target);
    }
    r
}

/// The `size` by `size` scale matrix of the given diagonal factors.
pub fn scale<N: CharMathNumeric<N>>(size: usize, scales: &[N]) -> (r: GenericMatrix<N>)
    requires
        (size as int) * (size as int) <= usize::MAX as int,
    ensures
        r.model() == mat_scale(size as nat, seq_val(scales@)),
{
    let ghost target = mat_scale(size as nat, seq_val(scales@));
    let mut vals: Vec<N> = Vec::new();
    proof {
        assert(0int * (size as int) == 0) by (nonlinear_arith);
    }
    let mut i: usize = 0;
    while i < size
        invariant
            0 <= i <= size,
            (size as int) * (size as int) <= usize::MAX as int,
            target == mat_scale(size as nat, seq_val(scales@)),
            vals@.len() == i * size,
            forall|k: int|
                0 <= k < vals@.len() ==> N::sval(#[trigger] vals@[k]) == target[k / (
                size as int)][k % (size as int)],
        decreases size - i,
    {
        let mut j: usize = 0;
        while j < size
            invariant
                0 <= i < size,
                0 <= j <= size,
                (size as int) * (size as int) <= usize::MAX as int,
                target == mat_scale(size as nat, seq_val(scales@)),
                vals@.len() == i * size + j,
                forall|k: int|
                    0 <= k < vals@.len() ==> N::sval(#[trigger] vals@[k]) == target[k / (
                    size as int)][k % (size as int)],
            decreases size - j,
        {
            let v = if i == j {
                if i < scales.len() {
                    scales[i]
                } else {
                    N::one()
                }
            } else {
                N::zero()
            };
            let ghost ov = vals@;
            vals.push(v);
            proof {
                lemma_flat_index(i as int, j as int, size as int);
                assert forall|k: int| 0 <= k < vals@.len() implies N::sval(#[trigger] vals@[k])
                    == target[k / (size as int)][k % (size as int)] by {
                    if k < ov.len() {
                        assert(vals@[k] == ov[k]);
                    } else {
                        assert(vals@[k] == v);
                    }
                }
            }
            j = j + 1;
        }
        proof {
            assert((i as int) * (size as int) + (size as int) == ((i as int) + 1) * (size as int))
                by (nonlinear_arith);
        }
        i = i + 1;
    }
    let vlen = vals.len();
    proof {
        assert((size as int) * (size as int) == vlen as int);
    }
    let r = GenericMatrix::<N>::from_flat(vals.as_slice(), size, size);
    proof {
        assert forall|ii: int, jj: int| 0 <= ii < size && 0 <= jj < size implies grid_from_flat(
            seq_val(vals@),
            size as nat,
            size as nat,
        )[ii][jj] == target[ii][jj] by {
            lemma_flat_cell(ii, jj, size as int, size as int);
        }
        assert(grid_from_flat(seq_val(vals@), size as nat, size as nat) =~~= target);
    }
    r
}

/// The `size` by `size` translation matrix of the given offsets.
pub fn translation<N: CharMathNumeric<N>>(size: usize, trans: &[N]) -> (r: GenericMatrix<N>)
    requires
        (size as int) * (size as int) <= usize::MAX as int,
    ensures
        r.model() == mat_translation(size as nat, seq_val(trans@)),
{
    let ghost target = mat_translation(size as nat, seq_val(trans@));
    let mut vals: Vec<N> = Vec::new();
    proof {
        assert(0int * (size as int) == 0) by (nonlinear_arith);
    }
    let mut i: usize = 0;
    while i < size
        invariant
            0 <= i <= size,
            (size as int) * (size as int) <= usize::MAX as int,
            target == mat_translation(size as nat, seq_val(trans@)),
            vals@.len() == i * size,
            forall|k: int|
                0 <= k < vals@.len() ==> N::sval(#[trigger] vals@[k]) == target[k / (
                size as int)][k % (size as int)],
        decreases size - i,
    {
        let mut j: usize = 0;
        while j < size
            invariant
                0 <= i < size,
                0 <= j <= size,
                (size as int) * (size as int) <= usize::MAX as int,
                target == mat_translation(size as nat, seq_val(trans@)),
                vals@.len() == i * size + j,
                forall|k: int|
                    0 <= k < vals@.len() ==> N::sval(#[trigger] vals@[k]) == target[k / (
                    size as int)][k % (size as int)],
            decreases size - j,
        {
            let v = if i == size - 1 && j < size - 1 && j < trans.len() {
                trans[j]
            } else if i == j {
                N::one()
            } else {
                N::zero()
            };
            let ghost ov = vals@;
            vals.push(v);
            proof {
                lemma_flat_index(i as int, j as int, size as int);
                assert forall|k: int| 0 <= k < vals@.len() implies N::sval(#[trigger] vals@[k])
                    == target[k / (size as int)][k % (size as int)] by {
                    if k < ov.len() {
                        assert(vals@[k] == ov[k]);
                    } else {
                        assert(vals@[k] == v);
                    }
                }
            }
            j = j + 1;
        }
        proof {
            assert((i as int) * (size as int) + (size as int) == ((i as int) + 1) * (size as int))
                by (nonlinear_arith);
        }
        i = i + 1;
    }
    let vlen = vals.len();
    proof {
        assert((size as int) * (size as int) == vlen as int);
    }
    let r = GenericMatrix::<N>::from_flat(vals.as_slice(), size, size);
    proof {
        assert forall|ii: int, jj: int| 0 <= ii < size && 0 <= jj < size implies grid_from_flat(
            seq_val(vals@),
            size as nat,
            size as nat,
        )[ii][jj] == target[ii][jj] by {
            lemma_flat_cell(ii, jj, size as int, size as int);
        }
        assert(grid_from_flat(seq_val(vals@), size as nat, size as nat) =~~= target);
    }
    r
}

/// The scale matrix of a vector's components.
pub fn scale_vector<N: CharMathNumeric<N>, V: VectorBase<N>>(v: &V) -> (r: GenericMatrix<N>)
    requires
        (v.model().len() as int) * (v.model().len() as int) <= usize::MAX as int,
    ensures
        r.model() == mat_scale(v.model().len(), v.model()),
{
    let n = v.n_elems();
    let mut vals: Vec<N> = Vec::new();
    let mut i: usize = 0;
    while i < n
        invariant
            0 <= i <= n,
            n == v.model().len(),
            vals@.len() == i,
            forall|k: int| 0 <= k < i ==> N::sval(#[trigger] vals@[k]) == v.model()[k],
        decreases n - i,
    {
        let ghost ov = vals@;
        let x = v.get_value(i);
        vals.push(x);
        proof {
            assert forall|k: int| 0 <= k < i + 1 implies N::sval(#[trigger] vals@[k])
                == v.model()[k] by {
                if k < i {
                    assert(vals@[k] == ov[k]);
                } else {
                    assert(vals@[k] == x);
                }
            }
        }
        i = i + 1;
    }
    proof {
        assert(seq_val(vals@) =~= v.model());
    }
    scale(n, vals.as_slice())
}

/// The translation matrix of a vector's components, one size up.
pub fn translation_vector<N: CharMathNumeric<N>, V: VectorBase<N>>(v: &V) -> (r: GenericMatrix<N>)
    requires
        v.model().len() + 1 <= usize::MAX,
        ((v.model().len() + 1) as int) * ((v.model().len() + 1) as int) <= usize::MAX as int,
    ensures
        r.model() == mat_translation((v.model().len() + 1) as nat, v.model()),
{
    let n = v.n_elems();
    let mut vals: Vec<N> = Vec::new();
    let mut i: usize = 0;
    while i < n
        invariant
            0 <= i <= n,
            n == v.model().len(),
            vals@.len() == i,
            forall|k: int| 0 <= k < i ==> N::sval(#[trigger] vals@[k]) == v.model()[k],
        decreases n - i,
    {
        let ghost ov = vals@;
        let x = v.get_value(i);
        vals.push(x);
        proof {
            assert forall|k: int| 0 <= k < i + 1 implies N::sval(#[trigger] vals@[k])
                == v.model()[k] by {
                if k < i {
                    assert(vals@[k] == ov[k]);
                } else {
                    assert(vals@[k] == x);
                }
            }
        }
        i = i + 1;
    }
    proof {
        assert(seq_val(vals@) =~= v.model());
    }
    translation(n + 1, vals.as_slice())
}


/// Read a vector's components out as a `Vec` of scalars.
fn vector_values<N: CharMathNumeric<N>, V: VectorBase<N>>(v: &V) -> (r: Vec<N>)
    ensures
        seq_val(r@) == v.model(),
{
    let n = v.n_elems();
    let mut vals: Vec<N> = Vec::new();
    let mut i: usize = 0;
    while i < n
        invariant
            0 <= i <= n,
            n == v.model().len(),
            vals@.len() == i,
            forall|k: int| 0 <= k < i ==> N::sval(#[trigger] vals@[k]) == v.model()[k],
        decreases n - i,
    {
        let ghost ov = vals@;
        let x = v.get_value(i);
        vals.push(x);
        proof {
            assert forall|k: int| 0 <= k < i + 1 implies N::sval(#[trigger] vals@[k])
                == v.model()[k] by {
                if k < i {
                    assert(vals@[k] == ov[k]);
                } else {
                    assert(vals@[k] == x);
                }
            }
        }
        i = i + 1;
    }
    proof {
        assert(seq_val(vals@) =~= v.model());
    }
    vals
}

/// The 4 by 4 scale matrix of a vector's components.
pub fn scale_3d<N: CharMathNumeric<N>, V: VectorBase<N>>(v: &V) -> (r: Mat4<N>)
    ensures
        r.model() == mat_scale(4, v.model()),
{
    let vals = vector_values(v);
    let g = scale::<N>(4, vals.as_slice());
    g.model_wf();
    proof {
        lemma_square_flat_roundtrip(g.model());
    }
    Mat4::<N>::from_matrix(&g)
}

/// The 2 by 2 scale matrix of a vector's components.
pub fn scale_2d<N: CharMathNumeric<N>, V: VectorBase<N>>(v: &V) -> (r: Mat2<N>)
    ensures
        r.model() == mat_scale(2, v.model()),
{
    let vals = vector_values(v);
    let g = scale::<N>(2, vals.as_slice());
    g.model_wf();
    proof {
        lemma_square_flat_roundtrip(g.model());
    }
    Mat2::<N>::from_matrix(&g)
}

/// The 4 by 4 translation matrix of a vector's components.
pub fn translation_3d<N: CharMathNumeric<N>, V: VectorBase<N>>(v: &V) -> (r: Mat4<N>)
    ensures
        r.model() == mat_translation(4, v.model()),
{
    let vals = vector_values(v);
    let g = translation::<N>(4, vals.as_slice());
    g.model_wf();
    proof {
        lemma_square_flat_roundtrip(g.model());
    }
    Mat4::<N>::from_matrix(&g)
}

/// The 2 by 2 rotation grid of an angle: `[[cos, -sin], [sin, cos]]`.
pub open spec fn rot2_grid<N: CharMathNumeric<N>>(t: int) -> Seq<Seq<int>> {
    seq![
        seq![N::cos_val(t), -N::sin_val(t)],
        seq![N::sin_val(t), N::cos_val(t)],
    ]
}

/// The 2 by 2 rotation matrix of an angle in radians.
pub fn rotation_2d<N: CharMathNumeric<N>>(rot: N) -> (r: Mat2<N>)
    requires
        N::in_range(-N::sin_val(N::sval(rot))),
    ensures
        r.model() == rot2_grid::<N>(N::sval(rot)),
{
    let c = N::cos(rot);
    let sn = N::sin(rot);
    let ns = N::neg(sn);
    let mut vals: Vec<N> = Vec::new();
    vals.push(c);
    vals.push(ns);
    vals.push(sn);
    vals.push(c);
    let r = Mat2::<N>::from_flat(vals.as_slice(), 2, 2);
    proof {
        assert(r.model() =~~= rot2_grid::<N>(N::sval(rot)));
    }
    r
}

/// The 4 by 4 rotation grid about the x axis.
pub open spec fn rot_x_grid<N: CharMathNumeric<N>>(t: int) -> Seq<Seq<int>> {
    seq![
        seq![1, 0, 0, 0],
        seq![0, N::cos_val(t), N::sin_val(t), 0],
        seq![0, -N::sin_val(t), N::cos_val(t), 0],
        seq![0, 0, 0, 1],
    ]
}

/// The 4 by 4 rotation grid about the y axis.
pub open spec fn rot_y_grid<N: CharMathNumeric<N>>(t: int) -> Seq<Seq<int>> {
    seq![
        seq![N::cos_val(t), 0, N::sin_val(t), 0],
        seq![0, 1, 0, 0],
        seq![-N::sin_val(t), 0, N::cos_val(t), 0],
        seq![0, 0, 0, 1],
    ]
}

/// The 4 by 4 rotation grid about the z axis.
pub open spec fn rot_z_grid<N: CharMathNumeric<N>>(t: int) -> Seq<Seq<int>> {
    seq![
        seq![N::cos_val(t), N::sin_val(t), 0, 0],
        seq![-N::sin_val(t), N::cos_val(t), 0, 0],
        seq![0, 0, 1, 0],
        seq![0, 0, 0, 1],
    ]
}

/// The composed Euler rotation, multiplied in the order `Rz * Ry * Rx`.
pub open spec fn rot_euler_grid<N: CharMathNumeric<N>>(x: int, y: int, z: int) -> Seq<Seq<int>> {
    mat_mul(mat_mul(rot_z_grid::<N>(z), rot_y_grid::<N>(y)), rot_x_grid::<N>(x))
}

/// The Euler-rotation composition stays in the scalar type's range.
pub open spec fn rot_euler_ok<N: CharMathNumeric<N>>(x: int, y: int, z: int) -> bool {
    &&& N::in_range(-N::sin_val(x))
    &&& N::in_range(-N::sin_val(y))
    &&& N::in_range(-N::sin_val(z))
    &&& mat_mul_ok::<N>(rot_z_grid::<N>(z), rot_y_grid::<N>(y))
    &&& mat_mul_ok::<N>(mat_mul(rot_z_grid::<N>(z), rot_y_grid::<N>(y)), rot_x_grid::<N>(x))
}

/// One axis rotation matrix, as a dynamic matrix.
fn rot_axis_mat<N: CharMathNumeric<N>>(t: N, axis: u8) -> (r: GenericMatrix<N>)
    requires
        axis < 3,
        N::in_range(-N::sin_val(N::sval(t))),
    ensures
        axis == 0 ==> r.model() == rot_x_grid::<N>(N::sval(t)),
        axis == 1 ==> r.model() == rot_y_grid::<N>(N::sval(t)),
        axis == 2 ==> r.model() == rot_z_grid::<N>(N::sval(t)),
{
    let c = N::cos(t);
    let sn = N::sin(t);
    let ns = N::neg(sn);
    let z = N::zero();
    let o = N::one();
    let mut vals: Vec<N> = Vec::new();
    if axis == 0 {
        vals.push(o);
        vals.push(z);
        vals.push(z);
        vals.push(z);
        vals.push(z);
        vals.push(c);
        vals.push(sn);
        vals.push(z);
        vals.push(z);
        vals.push(ns);
        vals.push(c);
        vals.push(z);
        vals.push(z);
        vals.push(z);
        vals.push(z);
        vals.push(o);
    } else if axis == 1 {
        vals.push(c);
        vals.push(z);
        vals.push(sn);
        vals.push(z);
        vals.push(z);
        vals.push(o);
        vals.push(z);
        vals.push(z);
        vals.push(ns);
        vals.push(z);
        vals.push(c);
        vals.push(z);
        vals.push(z);
        vals.push(z);
        vals.push(z);
        vals.push(o);
    } else {
        vals.push(c);
        vals.push(sn);
        vals.push(z);
        vals.push(z);
        vals.push(ns);
        vals.push(c);
        vals.push(z);
        vals.push(z);
        vals.push(z);
        vals.push(z);
        vals.push(o);
        vals.push(z);
        vals.push(z);
        vals.push(z);
        vals.push(z);
        vals.push(o);
    }
    let r = GenericMatrix::<N>::from_flat(vals.as_slice(), 4, 4);
    proof {
        if axis == 0 {
            assert(r.model() =~~= rot_x_grid::<N>(N::sval(t)));
        } else if axis == 1 {
            assert(r.model() =~~= rot_y_grid::<N>(N::sval(t)));
        } else {
            assert(r.model() =~~= rot_z_grid::<N>(N::sval(t)));
        }
    }
    r
}

/// The 4 by 4 Euler rotation matrix: a rotation about x, then y, then
/// z, composed as `Rz * Ry * Rx`.
pub fn rotation_euler_num<N: CharMathNumeric<N>>(x: N, y: N, z: N) -> (r: Mat4<N>)
    requires
        rot_euler_ok::<N>(N::sval(x), N::sval(y), N::sval(z)),
    ensures
        r.model() == rot_euler_grid::<N>(N::sval(x), N::sval(y), N::sval(z)),
{
    let rot_x = rot_axis_mat(x, 0);
    let rot_y = rot_axis_mat(y, 1);
    let rot_z = rot_axis_mat(z, 2);
    let zy = rot_z.mul_mat(&rot_y);
    let zyx = zy.mul_mat(&rot_x);
    zyx.model_wf();
    proof {
        assert(rect(zyx.model()));
        assert(mwidth(zyx.model()) == zyx.model().len());
        lemma_square_flat_roundtrip(zyx.model());
    }
    Mat4::<N>::from_matrix(&zyx)
}

/// The Euler rotation matrix of a vector's first three components.
pub fn rotation_euler<N: CharMathNumeric<N>, V: VectorBase<N>>(v: &V) -> (r: Mat4<N>)
    requires
        v.model().len() >= 3,
        rot_euler_ok::<N>(v.model()[0], v.model()[1], v.model()[2]),
    ensures
        r.model() == rot_euler_grid::<N>(v.model()[0], v.model()[1], v.model()[2]),
{
    rotation_euler_num(v.get_value(0), v.get_value(1), v.get_value(2))
}

/// What the perspective scale term is on the model: the reciprocal of
/// the tangent of half the field of view, in radians.
pub open spec fn perspective_fov_term<N: CharMathNumeric<N>>(fov: int) -> int {
    tdiv(
        1,
        tdiv(
            N::sin_val(N::rad_val(fov * N::half_val())),
            N::cos_val(N::rad_val(fov * N::half_val())),
        ),
    )
}

/// The 4 by 4 perspective projection grid (row-vector convention).
pub open spec fn perspective_grid<N: CharMathNumeric<N>>(
    fov: int,
    aspect: int,
    near: int,
    far: int,
) -> Seq<Seq<int>> {
    let f = perspective_fov_term::<N>(fov);
    seq![
        seq![aspect * f, 0, 0, 0],
        seq![0, f, 0, 0],
        seq![0, 0, tdiv(far, far - near), 1],
        seq![0, 0, tdiv((-far) * near, far - near), 0],
    ]
}

/// The perspective construction stays in the scalar type's range and
/// divides by nothing zero.
pub open spec fn perspective_ok<N: CharMathNumeric<N>>(
    fov: int,
    aspect: int,
    near: int,
    far: int,
) -> bool {
    let h = N::rad_val(fov * N::half_val());
    let t = tdiv(N::sin_val(h), N::cos_val(h));
    let f = tdiv(1, t);
    &&& N::in_range(fov * N::half_val())
    &&& N::cos_val(h) != 0
    &&& N::in_range(t)
    &&& t != 0
    &&& N::in_range(f)
    &&& N::in_range(aspect * f)
    &&& far - near != 0
    &&& N::in_range(far - near)
    &&& N::in_range(tdiv(far, far - near))
    &&& N::in_range(-far)
    &&& N::in_range((-far) * near)
    &&& N::in_range(tdiv((-far) * near, far - near))
}

/// The 4 by 4 perspective projection matrix.
pub fn perspective<N: CharMathNumeric<N>>(fov: N, aspect: N, near: N, far: N) -> (r: Mat4<N>)
    requires
        perspective_ok::<N>(N::sval(fov), N::sval(aspect), N::sval(near), N::sval(far)),
    ensures
        r.model() == perspective_grid::<N>(
            N::sval(fov),
            N::sval(aspect),
            N::sval(near),
            N::sval(far),
        ),
{
    let fov_rad = N::div(N::one(), N::tan(N::to_radians(N::mul(fov, N::half()))));
    let c00 = N::mul(aspect, fov_rad);
    let fmn = N::sub(far, near);
    let c22 = N::div(far, fmn);
    let c32 = N::div(N::mul(N::neg(far), near), fmn);
    let z = N::zero();
    let o = N::one();
    let mut vals: Vec<N> = Vec::new();
    vals.push(c00);
    vals.push(z);
    vals.push(z);
    vals.push(z);
    vals.push(z);
    vals.push(fov_rad);
    vals.push(z);
    vals.push(z);
    vals.push(z);
    vals.push(z);
    vals.push(c22);
    vals.push(o);
    vals.push(z);
    vals.push(z);
    vals.push(c32);
    vals.push(z);
    let r = Mat4::<N>::from_flat(vals.as_slice(), 4, 4);
    proof {
        assert(r.model() =~~= perspective_grid::<N>(
            N::sval(fov),
            N::sval(aspect),
            N::sval(near),
            N::sval(far),
        ));
    }
    r
}


/// A sequence scaled to unit length on the model: each component
/// divided by the square root of the self dot product.
pub open spec fn norm_seq<N: CharMathNumeric<N>>(v: Seq<int>) -> Seq<int> {
    seq_div_num(v, N::sqrt_val(spec_dot(v, v)))
}

/// The forward basis vector of a look-at frame.
pub open spec fn la_fwd<N: CharMathNumeric<N>>(pos: Seq<int>, target: Seq<int>) -> Seq<int> {
    norm_seq::<N>(seq_sub(target, pos))
}

/// The re-orthogonalized up basis vector of a look-at frame.
pub open spec fn la_up<N: CharMathNumeric<N>>(
    pos: Seq<int>,
    target: Seq<int>,
    up: Seq<int>,
) -> Seq<int> {
    norm_seq::<N>(
        seq_sub(up, seq_mul_num(la_fwd::<N>(pos, target), spec_dot(up, la_fwd::<N>(pos, target)))),
    )
}

/// The right basis vector of a look-at frame.
pub open spec fn la_right<N: CharMathNumeric<N>>(
    pos: Seq<int>,
    target: Seq<int>,
    up: Seq<int>,
) -> Seq<int> {
    cross_val(la_up::<N>(pos, target, up), la_fwd::<N>(pos, target))
}

/// The 4 by 4 look-at grid: the right/up/forward basis in the first
/// three rows and the position in the last (row-vector convention).
pub open spec fn look_at_grid<N: CharMathNumeric<N>>(
    pos: Seq<int>,
    target: Seq<int>,
    up: Seq<int>,
) -> Seq<Seq<int>> {
    let f = la_fwd::<N>(pos, target);
    let u = la_up::<N>(pos, target, up);
    let r = la_right::<N>(pos, target, up);
    seq![
        seq![r[0], r[1], r[2], 0],
        seq![u[0], u[1], u[2], 0],
        seq![f[0], f[1], f[2], 0],
        seq![pos[0], pos[1], pos[2], 1],
    ]
}

/// The look-at construction stays in the scalar type's range: the
/// differences fit, both normalized vectors are of nonzero length, and
/// the dot and cross products can be computed.
pub open spec fn look_at_ok<N: CharMathNumeric<N>>(
    pos: Seq<int>,
    target: Seq<int>,
    up: Seq<int>,
) -> bool {
    let d = seq_sub(target, pos);
    let f = la_fwd::<N>(pos, target);
    let a = seq_mul_num(f, spec_dot(up, f));
    let u1 = seq_sub(up, a);
    &&& pos.len() == 3
    &&& target.len() == 3
    &&& up.len() == 3
    &&& forall|i: int| 0 <= i < 3 ==> N::in_range(#[trigger] target[i] - pos[i])
    &&& dot_ok::<N>(d, d)
    &&& N::sqrt_val(spec_dot(d, d)) != 0
    &&& forall|i: int|
        0 <= i < 3 ==> N::in_range(tdiv(#[trigger] d[i], N::sqrt_val(spec_dot(d, d))))
    &&& dot_ok::<N>(up, f)
    &&& forall|i: int| 0 <= i < 3 ==> N::in_range(#[trigger] f[i] * spec_dot(up, f))
    &&& forall|i: int| 0 <= i < 3 ==> N::in_range(#[trigger] up[i] - a[i])
    &&& dot_ok::<N>(u1, u1)
    &&& N::sqrt_val(spec_dot(u1, u1)) != 0
    &&& forall|i: int|
        0 <= i < 3 ==> N::in_range(tdiv(#[trigger] u1[i], N::sqrt_val(spec_dot(u1, u1))))
    &&& cross_ok::<N>(la_up::<N>(pos, target, up), f)
}

/// The 4 by 4 look-at matrix: a Gram-Schmidt basis about the forward
/// direction, with the position in the last row.
pub fn look_at_3d<N: CharMathNumeric<N>, V: Vec3<N, V>>(pos: &V, target: &V, up: &V) -> (r: Mat4<
    N,
>)
    requires
        look_at_ok::<N>(pos.model(), target.model(), up.model()),
    ensures
        r.model() == look_at_grid::<N>(pos.model(), target.model(), up.model()),
{
    proof {
        pos.model_len();
        target.model_len();
        up.model_len();
    }
    let d = target.sub_vec(pos);
    let new_forward = d.normalized();
    let dt = up.dot(&new_forward);
    let a = new_forward.mul_num(dt);
    let u1 = up.sub_vec(&a);
    let new_up = u1.normalized();
    let new_right = new_up.cross(&new_forward);
    let z = N::zero();
    let o = N::one();
    let mut vals: Vec<N> = Vec::new();
    vals.push(new_right.get_value(0));
    vals.push(new_right.get_value(1));
    vals.push(new_right.get_value(2));
    vals.push(z);
    vals.push(new_up.get_value(0));
    vals.push(new_up.get_value(1));
    vals.push(new_up.get_value(2));
    vals.push(z);
    vals.push(new_forward.get_value(0));
    vals.push(new_forward.get_value(1));
    vals.push(new_forward.get_value(2));
    vals.push(z);
    vals.push(pos.get_value(0));
    vals.push(pos.get_value(1));
    vals.push(pos.get_value(2));
    vals.push(o);
    let r = Mat4::<N>::from_flat(vals.as_slice(), 4, 4);
    proof {
        assert(r.model() =~~= look_at_grid::<N>(pos.model(), target.model(), up.model()));
    }
    r
}

/// The 4 by 4 rotation grid of a quaternion `(x, y, z, w)`: the
/// standard quaternion-to-matrix formula, identity-padded.
pub open spec fn rq_grid<N: CharMathNumeric<N>>(x: int, y: int, z: int, w: int) -> Seq<Seq<int>> {
    seq![
        seq![1 - (2 * y) * y - (2 * z) * z, (2 * x) * y - (2 * z) * w, (2 * x) * z + (2 * y) * w, 0],
        seq![(2 * x) * y + (2 * z) * w, 1 - (2 * x) * x - (2 * z) * z, (2 * y) * z - (2 * x) * w, 0],
        seq![(2 * x) * z - (2 * y) * w, (2 * y) * z + (2 * x) * w, 1 - (2 * x) * x - (2 * y) * y, 0],
        seq![0, 0, 0, 1],
    ]
}

/// The quaternion-to-matrix formula stays in the scalar type's range.
pub open spec fn rq_ok<N: CharMathNumeric<N>>(x: int, y: int, z: int, w: int) -> bool {
    &&& N::in_range(2 * x)
    &&& N::in_range(2 * y)
    &&& N::in_range(2 * z)
    &&& N::in_range((2 * x) * x)
    &&& N::in_range((2 * y) * y)
    &&& N::in_range((2 * z) * z)
    &&& N::in_range((2 * x) * y)
    &&& N::in_range((2 * x) * z)
    &&& N::in_range((2 * x) * w)
    &&& N::in_range((2 * y) * z)
    &&& N::in_range((2 * y) * w)
    &&& N::in_range((2 * z) * w)
    &&& N::in_range(1 - (2 * y) * y)
    &&& N::in_range(1 - (2 * y) * y - (2 * z) * z)
    &&& N::in_range(1 - (2 * x) * x)
    &&& N::in_range(1 - (2 * x) * x - (2 * z) * z)
    &&& N::in_range(1 - (2 * x) * x - (2 * y) * y)
    &&& N::in_range((2 * x) * y - (2 * z) * w)
    &&& N::in_range((2 * x) * y + (2 * z) * w)
    &&& N::in_range((2 * x) * z + (2 * y) * w)
    &&& N::in_range((2 * x) * z - (2 * y) * w)
    &&& N::in_range((2 * y) * z - (2 * x) * w)
    &&& N::in_range((2 * y) * z + (2 * x) * w)
}

/// The 4 by 4 rotation matrix of a quaternion given by components.
pub fn rotation_quaternion_num<N: CharMathNumeric<N>>(x: N, y: N, z: N, w: N) -> (r: Mat4<N>)
    requires
        rq_ok::<N>(N::sval(x), N::sval(y), N::sval(z), N::sval(w)),
    ensures
        r.model() == rq_grid::<N>(N::sval(x), N::sval(y), N::sval(z), N::sval(w)),
{
    let two = N::two();
    let one = N::one();
    let zero = N::zero();
    let tx = N::mul(two, x);
    let ty = N::mul(two, y);
    let tz = N::mul(two, z);
    let txx = N::mul(tx, x);
    let tyy = N::mul(ty, y);
    let tzz = N::mul(tz, z);
    let txy = N::mul(tx, y);
    let txz = N::mul(tx, z);
    let txw = N::mul(tx, w);
    let tyz = N::mul(ty, z);
    let tyw = N::mul(ty, w);
    let tzw = N::mul(tz, w);
    let c00 = N::sub(N::sub(one, tyy), tzz);
    let c01 = N::sub(txy, tzw);
    let c02 = N::add(txz, tyw);
    let c10 = N::add(txy, tzw);
    let c11 = N::sub(N::sub(one, txx), tzz);
    let c12 = N::sub(tyz, txw);
    let c20 = N::sub(txz, tyw);
    let c21 = N::add(tyz, txw);
    let c22 = N::sub(N::sub(one, txx), tyy);
    let mut vals: Vec<N> = Vec::new();
    vals.push(c00);
    vals.push(c01);
    vals.push(c02);
    vals.push(zero);
    vals.push(c10);
    vals.push(c11);
    vals.push(c12);
    vals.push(zero);
    vals.push(c20);
    vals.push(c21);
    vals.push(c22);
    vals.push(zero);
    vals.push(zero);
    vals.push(zero);
    vals.push(zero);
    vals.push(one);
    let r = Mat4::<N>::from_flat(vals.as_slice(), 4, 4);
    proof {
        assert(r.model() =~~= rq_grid::<N>(N::sval(x), N::sval(y), N::sval(z), N::sval(w)));
    }
    r
}

/// The 4 by 4 rotation matrix of a quaternion.
pub fn rotation_quaternion<N: CharMathNumeric<N>>(q: &Quaternion<N>) -> (r: Mat4<N>)
    requires
        rq_ok::<N>(q.model()[0], q.model()[1], q.model()[2], q.model()[3]),
    ensures
        r.model() == rq_grid::<N>(q.model()[0], q.model()[1], q.model()[2], q.model()[3]),
{
    proof {
        q.model_len();
    }
    rotation_quaternion_num(q.get_x(), q.get_y(), q.get_z(), q.get_w())
}


/// A sequence of all zeros has dot product zero with anything of the
/// same length.
proof fn lemma_dot_zero_left(u: Seq<int>, v: Seq<int>)
    requires
        u.len() == v.len(),
        forall|k: int| 0 <= k < u.len() ==> u[k] == 0,
    ensures
        spec_dot(u, v) == 0,
    decreases u.len(),
{
    if u.len() > 0 {
        lemma_dot_zero_left(u.drop_last(), v.drop_last());
        assert(u.last() == 0);
        assert(0 * v.last() == 0) by (nonlinear_arith);
    }
}

/// The dot product against a unit sequence picks out one component.
proof fn lemma_dot_unit_left(u: Seq<int>, v: Seq<int>, i: int)
    requires
        u.len() == v.len(),
        0 <= i < u.len(),
        forall|k: int|
            0 <= k < u.len() ==> u[k] == if k == i {
                1int
            } else {
                0int
            },
    ensures
        spec_dot(u, v) == v[i],
    decreases u.len(),
{
    let n = u.len() as int;
    if i == n - 1 {
        lemma_dot_zero_left(u.drop_last(), v.drop_last());
        assert(1 * v.last() == v.last()) by (nonlinear_arith);
    } else {
        lemma_dot_unit_left(u.drop_last(), v.drop_last(), i);
        assert(u.last() == 0);
        assert(0 * v.last() == 0) by (nonlinear_arith);
    }
}

/// The dot product is symmetric in its arguments.
proof fn lemma_dot_comm(a: Seq<int>, b: Seq<int>)
    requires
        a.len() == b.len(),
    ensures
        spec_dot(a, b) == spec_dot(b, a),
    decreases a.len(),
{
    if a.len() > 0 {
        lemma_dot_comm(a.drop_last(), b.drop_last());
        let x = a.last();
        let y = b.last();
        assert(x * y == y * x) by (nonlinear_arith);
    }
}

/// The identity matrix is neutral for matrix multiplication: for any
/// square grid of its size, multiplying by the identity on the left or
/// on the right gives the grid back.
pub proof fn lemma_identity_mul_neutral(m: Seq<Seq<int>>, n: nat)
    requires
        rect(m),
        m.len() == n,
        mwidth(m) == n,
    ensures
        mat_mul(mat_identity(n), m) == m,
        mat_mul(m, mat_identity(n)) == m,
{
    let id = mat_identity(n);
    assert forall|i: int, j: int| 0 <= i < n && 0 <= j < n implies mat_mul(id, m)[i][j]
        == m[i][j] by {
        assert(id[i].len() == n);
        assert(col(m, j).len() == n);
        lemma_dot_unit_left(id[i], col(m, j), i);
    }
    assert(mat_mul(id, m) =~~= m);
    assert forall|i: int, j: int| 0 <= i < n && 0 <= j < n implies mat_mul(m, id)[i][j]
        == m[i][j] by {
        assert(col(id, j).len() == n);
        assert(m[i].len() == n);
        assert forall|k: int| 0 <= k < n implies col(id, j)[k] == (if k == j {
            1int
        } else {
            0int
        }) by {
        }
        lemma_dot_comm(m[i], col(id, j));
        lemma_dot_unit_left(col(id, j), m[i], j);
    }
    assert(mat_mul(m, id) =~~= m);
}

/// The Laplace expansion of the identity: every prefix past the first
/// term stays at the first term, which is the smaller identity's
/// determinant.
proof fn lemma_lap_identity(n: nat, i: int)
    requires
        3 <= n,
        1 <= i <= n,
    ensures
        lap(mat_identity(n), n, i) == det(mat_identity((n - 1) as nat), (n - 1) as nat),
    decreases i,
{
    let id = mat_identity(n);
    let id1 = mat_identity((n - 1) as nat);
    if i == 1 {
        assert(lap(id, n, 0) == 0);
        assert(id[0][0] == 1);
        assert(pow_neg1(0) == 1);
        assert(agree(sub_del(id, 0, 0, n), id1, (n - 1) as nat)) by {
            assert forall|r: int, c: int|
                #![trigger sub_del(id, 0, 0, n)[r][c], id1[r][c]]
                0 <= r < n - 1 && 0 <= c < n - 1 implies sub_del(id, 0, 0, n)[r][c]
                == id1[r][c] by {
                assert(sub_del(id, 0, 0, n)[r][c] == id[r + 1][c + 1]);
            }
        }
        lemma_det_leading_val(sub_del(id, 0, 0, n), id1, (n - 1) as nat);
        let d = det(sub_del(id, 0, 0, n), (n - 1) as nat);
        assert(1 * 1 * d == d) by (nonlinear_arith);
    } else {
        lemma_lap_identity(n, i - 1);
        let j = i - 1;
        assert(id[0][j] == 0);
        let d = det(sub_del(id, 0, j, n), (n - 1) as nat);
        assert(pow_neg1(j) * 0 * d == 0) by (nonlinear_arith);
    }
}

/// The determinant of the identity matrix is 1, for every positive
/// size.
pub proof fn lemma_det_identity(n: nat)
    requires
        1 <= n,
    ensures
        det(mat_identity(n), n) == 1,
    decreases n,
{
    let id = mat_identity(n);
    if n == 1 {
        assert(id[0][0] == 1);
    } else if n == 2 {
        assert(id[0][0] * id[1][1] - id[0][1] * id[1][0] == 1) by (nonlinear_arith)
            requires id[0][0] == 1 && id[1][1] == 1 && id[0][1] == 0 && id[1][0] == 0;
    } else {
        lemma_det_identity((n - 1) as nat);
        lemma_lap_identity(n, n as int);
    }
}


/// The adjoint-determinant relation, shown for the 2 by 2 case: a
/// matrix times its classical adjoint is its determinant down the
/// diagonal and zero elsewhere.
pub proof fn lemma_mul_adjoint_2(m: Seq<Seq<int>>)
    requires
        rect(m),
        m.len() == 2,
        mwidth(m) == 2,
    ensures
        mat_mul(m, mat_adjoint(m, 2)) == mat_mul_num(mat_identity(2), det(m, 2)),
{
    let adj = mat_adjoint(m, 2);
    let d = det(m, 2);
    assert(adj[0][0] == m[1][1] && adj[0][1] == -m[0][1] && adj[1][0] == -m[1][0] && adj[1][1]
        == m[0][0]) by {
        assert(pow_neg1(0) == 1 && pow_neg1(1) == -1 && pow_neg1(2) == 1);
        assert(sub_del(m, 0, 0, 2)[0][0] == m[1][1]);
        assert(sub_del(m, 1, 0, 2)[0][0] == m[0][1]);
        assert(sub_del(m, 0, 1, 2)[0][0] == m[1][0]);
        assert(sub_del(m, 1, 1, 2)[0][0] == m[0][0]);
        assert(1 * m[1][1] == m[1][1]) by (nonlinear_arith);
        assert(-1 * m[0][1] == -m[0][1]) by (nonlinear_arith);
        assert(-1 * m[1][0] == -m[1][0]) by (nonlinear_arith);
        assert(1 * m[0][0] == m[0][0]) by (nonlinear_arith);
    }
    assert forall|i: int, j: int| 0 <= i < 2 && 0 <= j < 2 implies mat_mul(m, adj)[i][j]
        == mat_mul_num(mat_identity(2), d)[i][j] by {
        assert(col(adj, j).len() == 2);
        assert(m[i].len() == 2);
        lemma_spec_dot2(m[i], col(adj, j));
        assert(col(adj, j)[0] == adj[0][j] && col(adj, j)[1] == adj[1][j]);
        let a = m[0][0];
        let b = m[0][1];
        let c = m[1][0];
        let e = m[1][1];
        if i == 0 && j == 0 {
            assert(a * e + b * (-c) == a * e - b * c) by (nonlinear_arith);
            assert(1 * d == d) by (nonlinear_arith);
        } else if i == 0 && j == 1 {
            assert(a * (-b) + b * a == 0) by (nonlinear_arith);
            assert(0 * d == 0) by (nonlinear_arith);
        } else if i == 1 && j == 0 {
            assert(c * e + e * (-c) == 0) by (nonlinear_arith);
            assert(0 * d == 0) by (nonlinear_arith);
        } else {
            assert(c * (-b) + e * a == a * e - b * c) by (nonlinear_arith);
            assert(1 * d == d) by (nonlinear_arith);
        }
    }
    assert(mat_mul(m, adj) =~~= mat_mul_num(mat_identity(2), d));
}



/// The eight ring identities behind the 3 by 3 adjoint-determinant
/// relation: every row dotted against an alien cofactor column
/// vanishes, and against its own gives the same expansion as row 0.
proof fn lemma_cofactor_identities_3(
    a: int,
    b: int,
    c: int,
    d: int,
    e: int,
    f: int,
    g: int,
    h: int,
    k: int,
)
    ensures
        d * (e * k - f * h) - e * (d * k - f * g) + f * (d * h - e * g) == 0,
        g * (e * k - f * h) - h * (d * k - f * g) + k * (d * h - e * g) == 0,
        -(a * (b * k - c * h)) + b * (a * k - c * g) - c * (a * h - b * g) == 0,
        -(g * (b * k - c * h)) + h * (a * k - c * g) - k * (a * h - b * g) == 0,
        a * (b * f - c * e) - b * (a * f - c * d) + c * (a * e - b * d) == 0,
        d * (b * f - c * e) - e * (a * f - c * d) + f * (a * e - b * d) == 0,
        -(d * (b * k - c * h)) + e * (a * k - c * g) - f * (a * h - b * g) == a * (e * k - f * h)
            - b * (d * k - f * g) + c * (d * h - e * g),
        g * (b * f - c * e) - h * (a * f - c * d) + k * (a * e - b * d) == a * (e * k - f * h) - b
            * (d * k - f * g) + c * (d * h - e * g),
{
    assert(d * (e * k - f * h) - e * (d * k - f * g) + f * (d * h - e * g) == 0)
        by (nonlinear_arith);
    assert(g * (e * k - f * h) - h * (d * k - f * g) + k * (d * h - e * g) == 0)
        by (nonlinear_arith);
    assert(-(a * (b * k - c * h)) + b * (a * k - c * g) - c * (a * h - b * g) == 0)
        by (nonlinear_arith);
    assert(-(g * (b * k - c * h)) + h * (a * k - c * g) - k * (a * h - b * g) == 0)
        by (nonlinear_arith);
    assert(a * (b * f - c * e) - b * (a * f - c * d) + c * (a * e - b * d) == 0)
        by (nonlinear_arith);
    assert(d * (b * f - c * e) - e * (a * f - c * d) + f * (a * e - b * d) == 0)
        by (nonlinear_arith);
    assert(d * (b * k - c * h) == b * (d * k) - c * (d * h)) by (nonlinear_arith);
    assert(e * (a * k - c * g) == a * (e * k) - c * (e * g)) by (nonlinear_arith);
    assert(f * (a * h - b * g) == a * (f * h) - b * (f * g)) by (nonlinear_arith);
    assert(a * (e * k - f * h) == a * (e * k) - a * (f * h)) by (nonlinear_arith);
    assert(b * (d * k - f * g) == b * (d * k) - b * (f * g)) by (nonlinear_arith);
    assert(c * (d * h - e * g) == c * (d * h) - c * (e * g)) by (nonlinear_arith);
    assert(g * (b * f - c * e) == b * (f * g) - c * (e * g)) by (nonlinear_arith);
    assert(h * (a * f - c * d) == a * (f * h) - c * (d * h)) by (nonlinear_arith);
    assert(k * (a * e - b * d) == a * (e * k) - b * (d * k)) by (nonlinear_arith);
}

/// The adjoint-determinant relation, shown for the 3 by 3 case as
/// well: a matrix times its classical adjoint is its determinant down
/// the diagonal and zero elsewhere.
pub proof fn lemma_mul_adjoint_3(m: Seq<Seq<int>>)
    requires
        rect(m),
        m.len() == 3,
        mwidth(m) == 3,
    ensures
        mat_mul(m, mat_adjoint(m, 3)) == mat_mul_num(mat_identity(3), det(m, 3)),
{
    let adj = mat_adjoint(m, 3);
    let a = m[0][0];
    let b = m[0][1];
    let c = m[0][2];
    let d = m[1][0];
    let e = m[1][1];
    let f = m[1][2];
    let g = m[2][0];
    let h = m[2][1];
    let k = m[2][2];
    let a00 = e * k - f * h;
    let a01 = d * k - f * g;
    let a02 = d * h - e * g;
    let a10 = b * k - c * h;
    let a11 = a * k - c * g;
    let a12 = a * h - b * g;
    let a20 = b * f - c * e;
    let a21 = a * f - c * d;
    let a22 = a * e - b * d;
    lemma_cofactor_identities_3(a, b, c, d, e, f, g, h, k);
    assert(pow_neg1(0) == 1 && pow_neg1(1) == -1 && pow_neg1(2) == 1 && pow_neg1(3) == -1
        && pow_neg1(4) == 1);
    assert(det(sub_del(m, 0, 0, 3), 2) == a00);
    assert(det(sub_del(m, 0, 1, 3), 2) == a01);
    assert(det(sub_del(m, 0, 2, 3), 2) == a02);
    assert(det(sub_del(m, 1, 0, 3), 2) == a10);
    assert(det(sub_del(m, 1, 1, 3), 2) == a11);
    assert(det(sub_del(m, 1, 2, 3), 2) == a12);
    assert(det(sub_del(m, 2, 0, 3), 2) == a20);
    assert(det(sub_del(m, 2, 1, 3), 2) == a21);
    assert(det(sub_del(m, 2, 2, 3), 2) == a22);
    let dd = det(m, 3);
    assert(dd == a * a00 - b * a01 + c * a02) by {
        assert(lap(m, 3, 0) == 0);
        assert(lap(m, 3, 1) == lap(m, 3, 0) + pow_neg1(0) * m[0][0] * det(sub_del(m, 0, 0, 3), 2));
        assert(lap(m, 3, 2) == lap(m, 3, 1) + pow_neg1(1) * m[0][1] * det(sub_del(m, 0, 1, 3), 2));
        assert(lap(m, 3, 3) == lap(m, 3, 2) + pow_neg1(2) * m[0][2] * det(sub_del(m, 0, 2, 3), 2));
        assert(1 * a * a00 == a * a00 && (-1) * b * a01 == -(b * a01) && 1 * c * a02 == c * a02)
            by (nonlinear_arith);
    }
    assert(adj[0][0] == a00 && adj[0][1] == -a10 && adj[0][2] == a20 && adj[1][0] == -a01
        && adj[1][1] == a11 && adj[1][2] == -a21 && adj[2][0] == a02 && adj[2][1] == -a12
        && adj[2][2] == a22) by {
        assert(1 * a00 == a00 && -1 * a10 == -a10 && 1 * a20 == a20 && -1 * a01 == -a01 && 1 * a11
            == a11 && -1 * a21 == -a21 && 1 * a02 == a02 && -1 * a12 == -a12 && 1 * a22 == a22)
            by (nonlinear_arith);
    }
    assert forall|i: int, j: int| 0 <= i < 3 && 0 <= j < 3 implies mat_mul(m, adj)[i][j]
        == mat_mul_num(mat_identity(3), dd)[i][j] by {
        assert(col(adj, j).len() == 3);
        assert(m[i].len() == 3);
        lemma_spec_dot3(m[i], col(adj, j));
        assert(col(adj, j)[0] == adj[0][j] && col(adj, j)[1] == adj[1][j] && col(adj, j)[2]
            == adj[2][j]);
        assert(1 * dd == dd && 0 * dd == 0) by (nonlinear_arith);
        assert(b * -a01 == -(b * a01) && e * -a01 == -(e * a01) && h * -a01 == -(h * a01) && a
            * -a10 == -(a * a10) && d * -a10 == -(d * a10) && g * -a10 == -(g * a10) && b * -a21
            == -(b * a21) && e * -a21 == -(e * a21) && h * -a21 == -(h * a21) && c * -a12 == -(c
            * a12) && f * -a12 == -(f * a12) && k * -a12 == -(k * a12)) by (nonlinear_arith);
    }
    assert(mat_mul(m, adj) =~~= mat_mul_num(mat_identity(3), dd));
}

} // verus!
