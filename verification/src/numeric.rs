//! The scalar contract: a numeric type that supports the basic arithmetic
//! operations together with square root, trigonometry and the named
//! constants zero / one / half / two, plus degree/radian conversion.
//!
//! Contracts are stated over a mathematical model: `CharMathNumeric::sval`
//! maps each scalar to the integer it stands for, and the abstract spec
//! functions (`sqrt_val`, `sin_val`, ...) name what each derived operation
//! returns on that model.  The built-in integer types implement the trait
//! in this crate; division is truncating (`tdiv`), square root is the
//! integer square root, and the trigonometric operations keep only the
//! integer part of the real result, which for integer radians is 0
//! (or 1 for the cosine of 0).  Degree/radian conversion uses the rational
//! approximation pi ~ 355/113.

use vstd::arithmetic::div_mod::{
    lemma_div_is_ordered_by_denominator, lemma_div_multiples_vanish, lemma_div_nonincreasing,
    lemma_div_pos_is_pos, lemma_fundamental_div_mod, lemma_mod_bound,
};
use vstd::arithmetic::mul::lemma_mul_inequality;
use vstd::prelude::*;

verus! {

/// Truncating division over the mathematical integers, the semantics of
/// Rust's `/` on the built-in integer types.  (Verus's own `/` on `int`
/// is Euclidean; the two differ on negative operands.)
pub open spec fn tdiv(x: int, d: int) -> int {
    if x == 0 {
        0
    } else if x > 0 && d > 0 {
        x / d
    } else if x < 0 && d < 0 {
        (x * -1) / (d * -1)
    } else if x < 0 {
        ((x * -1) / d) * -1
    } else {
        (x / (d * -1)) * -1
    }
}

/// Truncating remainder: what is left of `x` after removing `tdiv(x, d)`
/// multiples of `d`; the semantics of Rust's `%`.
pub open spec fn tmod(x: int, d: int) -> int {
    x - tdiv(x, d) * d
}

/// The magnitude of a truncating quotient never exceeds the dividend's,
/// and for a positive divisor the quotient carries the dividend's sign.
pub proof fn lemma_tdiv_bounds(x: int, d: int)
    requires
        d != 0,
    ensures
        x >= 0 ==> -x <= tdiv(x, d) <= x,
        x <= 0 ==> x <= tdiv(x, d) <= -x,
        x >= 0 && d > 0 ==> 0 <= tdiv(x, d) <= x,
        x <= 0 && d > 0 ==> x <= tdiv(x, d) <= 0,
        d == 1 ==> tdiv(x, d) == x,
        d == -1 ==> tdiv(x, d) == -x,
        x >= 0 && (d >= 2 || d <= -2) ==> -(x / 2) <= tdiv(x, d) <= x / 2,
        x <= 0 && (d >= 2 || d <= -2) ==> -((-x) / 2) <= tdiv(x, d) <= (-x) / 2,
{
    if x == 0 {
    } else if x > 0 && d > 0 {
        lemma_div_pos_is_pos(x, d);
        lemma_div_nonincreasing(x, d);
        lemma_one_divides(x);
        if d >= 2 {
            lemma_div_is_ordered_by_denominator(x, 2, d);
        }
    } else if x < 0 && d < 0 {
        lemma_div_pos_is_pos(x * -1, d * -1);
        lemma_div_nonincreasing(x * -1, d * -1);
        lemma_one_divides(x * -1);
        if d <= -2 {
            lemma_div_is_ordered_by_denominator(x * -1, 2, d * -1);
        }
    } else if x < 0 {
        lemma_div_pos_is_pos(x * -1, d);
        lemma_div_nonincreasing(x * -1, d);
        lemma_one_divides(x * -1);
        if d >= 2 {
            lemma_div_is_ordered_by_denominator(x * -1, 2, d);
        }
    } else {
        lemma_div_pos_is_pos(x, d * -1);
        lemma_div_nonincreasing(x, d * -1);
        lemma_one_divides(x);
        if d <= -2 {
            lemma_div_is_ordered_by_denominator(x, 2, d * -1);
        }
    }
}

/// Euclidean division by one is the identity.
proof fn lemma_one_divides(x: int)
    requires
        x >= 0,
    ensures
        x / 1 == x,
{
    lemma_fundamental_div_mod(x, 1);
    lemma_mod_bound(x, 1);
}

/// For a positive divisor, truncating division and remainder decompose the
/// dividend, the remainder is smaller than the divisor, and quotient and
/// remainder carry the sign of the dividend.
pub proof fn lemma_tdiv_decomposes(x: int, d: int)
    requires
        d > 0,
    ensures
        x == tdiv(x, d) * d + tmod(x, d),
        x >= 0 ==> 0 <= tmod(x, d) < d && tdiv(x, d) * d <= x,
        x <= 0 ==> -d < tmod(x, d) <= 0 && tdiv(x, d) * d >= x,
{
    lemma_tdiv_bounds(x, d);
    if x > 0 {
        lemma_fundamental_div_mod(x, d);
        lemma_mod_bound(x, d);
        assert(x == d * (x / d) + x % d);
        assert(d * (x / d) == (x / d) * d) by (nonlinear_arith);
    } else if x < 0 {
        lemma_fundamental_div_mod(x * -1, d);
        lemma_mod_bound(x * -1, d);
        assert(x * -1 == d * ((x * -1) / d) + (x * -1) % d);
        let q = (x * -1) / d;
        assert(tdiv(x, d) == q * -1);
        assert((q * -1) * d == (d * q) * -1) by (nonlinear_arith);
    } else {
        assert(tdiv(x, d) == 0);
        assert(0int * d == 0) by (nonlinear_arith);
    }
}

/// Dividing an exact multiple gives back the factor.
pub proof fn lemma_tdiv_cancel(a: int, b: int)
    requires
        b != 0,
    ensures
        tdiv(a * b, b) == a,
{
    if a == 0 {
        assert(a * b == 0) by (nonlinear_arith)
            requires a == 0;
    } else if b > 0 {
        if a > 0 {
            assert(a * b > 0) by (nonlinear_arith)
                requires a > 0 && b > 0;
            lemma_div_multiples_vanish(a, b);
            assert(a * b == b * a) by (nonlinear_arith);
        } else {
            assert(a * b < 0) by (nonlinear_arith)
                requires a < 0 && b > 0;
            assert((a * b) * -1 == b * (a * -1)) by (nonlinear_arith);
            lemma_div_multiples_vanish(a * -1, b);
        }
    } else {
        if a > 0 {
            assert(a * b < 0) by (nonlinear_arith)
                requires a > 0 && b < 0;
            assert((a * b) * -1 == (b * -1) * a) by (nonlinear_arith);
            lemma_div_multiples_vanish(a, b * -1);
        } else {
            assert(a * b > 0) by (nonlinear_arith)
                requires a < 0 && b < 0;
            assert(a * b == (b * -1) * (a * -1)) by (nonlinear_arith);
            lemma_div_multiples_vanish(a * -1, b * -1);
        }
    }
}

/// The integer square root of a nonnegative integer: the unique `r >= 0`
/// with `r * r <= x < (r + 1) * (r + 1)`.
pub open spec fn int_sqrt(x: int) -> int {
    choose|r: int| 0 <= r && #[trigger] (r * r) <= x && x < (r + 1) * (r + 1)
}

/// A witness of the square-root characterization pins `int_sqrt` down.
pub proof fn lemma_int_sqrt_is(x: int, r: int)
    requires
        0 <= r,
        r * r <= x,
        x < (r + 1) * (r + 1),
    ensures
        int_sqrt(x) == r,
{
    assert(0 <= r && r * r <= x && x < (r + 1) * (r + 1));
    let s = int_sqrt(x);
    assert(0 <= s && s * s <= x && x < (s + 1) * (s + 1));
    if s < r {
        assert((s + 1) * (s + 1) <= r * r) by (nonlinear_arith)
            requires 0 <= s && s + 1 <= r;
    } else if r < s {
        assert((r + 1) * (r + 1) <= s * s) by (nonlinear_arith)
            requires 0 <= r && r + 1 <= s;
    }
}

/// The integer part of the real sine at integer radians: 0 everywhere,
/// since `|sin n| < 1` for every integer `n` other than 0 and `sin 0 == 0`.
pub open spec fn int_sin(x: int) -> int {
    0
}

/// The integer part of the real cosine at integer radians: 1 at 0 and 0
/// elsewhere, since `|cos n| < 1` for every nonzero integer `n`.
pub open spec fn int_cos(x: int) -> int {
    if x == 0 {
        1
    } else {
        0
    }
}

/// Degrees to radians on the integer scalars: `x * 355 / 20340` (that is,
/// `x * pi / 180` with `pi ~ 355/113`), computed as a truncating split so
/// that the result never leaves the range of the input:
/// `q * 355 + (m * 355) / 20340` for `x == q * 20340 + m`.
pub open spec fn int_to_radians(x: int) -> int {
    tdiv(x, 20340) * 355 + tdiv(tmod(x, 20340) * 355, 20340)
}

/// Radians to degrees on the integer scalars before clamping to the scalar
/// range: `x * 20340 / 355` computed as a truncating split.
pub open spec fn int_to_degrees(x: int) -> int {
    tdiv(x, 355) * 20340 + tdiv(tmod(x, 355) * 20340, 355)
}

/// Clamp `x` into the closed interval `[lo, hi]`.
pub open spec fn clamp(x: int, lo: int, hi: int) -> int {
    if x < lo {
        lo
    } else if x > hi {
        hi
    } else {
        x
    }
}

/// The radian conversion never grows the magnitude of its input.
pub proof fn lemma_int_to_radians_bounds(x: int)
    ensures
        x >= 0 ==> 0 <= int_to_radians(x) <= x,
        x <= 0 ==> x <= int_to_radians(x) <= 0,
{
    let q = tdiv(x, 20340);
    let m = tmod(x, 20340);
    let t = tdiv(m * 355, 20340);
    lemma_tdiv_decomposes(x, 20340);
    lemma_tdiv_bounds(m * 355, 20340);
    if x >= 0 {
        assert(q * 355 <= q * 20340) by (nonlinear_arith)
            requires q >= 0;
        assert(m * 355 >= 0) by (nonlinear_arith)
            requires m >= 0;
        assert(t <= m) by {
            assert(t * 20340 <= m * 355) by {
                lemma_tdiv_decomposes(m * 355, 20340);
            }
            assert(m * 355 <= m * 20340) by (nonlinear_arith)
                requires m >= 0;
            assert(t * 20340 <= m * 20340);
            assert(t <= m) by (nonlinear_arith)
                requires t * 20340 <= m * 20340;
        }
        assert(q * 355 + t <= q * 20340 + m);
        assert(q * 355 >= 0) by (nonlinear_arith)
            requires q >= 0;
    } else {
        assert(q * 355 >= q * 20340) by (nonlinear_arith)
            requires q <= 0;
        assert(m * 355 <= 0) by (nonlinear_arith)
            requires m <= 0;
        assert(t >= m) by {
            assert(t * 20340 >= m * 355) by {
                lemma_tdiv_decomposes(m * 355, 20340);
            }
            assert(m * 355 >= m * 20340) by (nonlinear_arith)
                requires m <= 0;
            assert(t * 20340 >= m * 20340);
            assert(t >= m) by (nonlinear_arith)
                requires t * 20340 >= m * 20340;
        }
        assert(q * 355 + t >= q * 20340 + m);
        assert(q * 355 <= 0) by (nonlinear_arith)
            requires q <= 0;
    }
}

/// Truncating division of `i128` values, through `checked_div`.
/// The excluded pair is the one whose quotient leaves the type.
fn tdiv_i128(a: i128, b: i128) -> (r: i128)
    requires
        b != 0,
        !(a == i128::MIN && b == -1),
    ensures
        r as int == tdiv(a as int, b as int),
{
    proof {
        lemma_tdiv_bounds(a as int, b as int);
        if a == i128::MIN {
            assert(b != -1);
        }
    }
    match a.checked_div(b) {
        Some(q) => q,
        None => {
            proof {
                assert(false);
            }
            0
        },
    }
}

/// The integer square root of a `u128`, by bisection on the root.
fn isqrt_u128(a: u128) -> (r: u128)
    ensures
        (r as int) * (r as int) <= a as int,
        (a as int) < (r as int + 1) * (r as int + 1),
{
    if a == 0 {
        return 0;
    }
    let mut lo: u128 = 0;
    let mut hi: u128 = 0x1_0000_0000_0000_0000;
    proof {
        assert((hi as int) * (hi as int) == 0x100000000000000000000000000000000);
    }
    while lo + 1 < hi
        invariant
            lo < hi,
            hi <= 0x1_0000_0000_0000_0000,
            (lo as int) * (lo as int) <= a as int,
            (a as int) < (hi as int) * (hi as int),
        decreases hi - lo,
    {
        let mid = lo + (hi - lo) / 2;
        proof {
            assert(lo < mid < hi);
            assert((mid as int) * (mid as int) < (hi as int) * (hi as int)) by (nonlinear_arith)
                requires 0 <= (mid as int), (mid as int) < (hi as int);
            assert((hi as int) * (hi as int) <= 0x100000000000000000000000000000000)
                by (nonlinear_arith)
                requires 0 <= (hi as int), (hi as int) <= 0x1_0000_0000_0000_0000;
        }
        let sq = mid * mid;
        if sq <= a {
            lo = mid;
        } else {
            hi = mid;
        }
    }
    lo
}

/// Degrees to radians of an `i128`, exactly `int_to_radians` of the input.
fn rad_i128(x: i128) -> (r: i128)
    ensures
        r as int == int_to_radians(x as int),
        x >= 0 ==> 0 <= r <= x,
        x <= 0 ==> x <= r <= 0,
{
    proof {
        lemma_tdiv_decomposes(x as int, 20340);
        lemma_tdiv_bounds(x as int, 20340);
        lemma_int_to_radians_bounds(x as int);
    }
    let q = tdiv_i128(x, 20340);
    proof {
        let qi = q as int;
        let xi = x as int;
        if xi >= 0 {
            assert(qi * 355 <= qi * 20340) by (nonlinear_arith)
                requires qi >= 0;
            assert(qi * 355 >= 0) by (nonlinear_arith)
                requires qi >= 0;
        } else {
            assert(qi * 355 >= qi * 20340) by (nonlinear_arith)
                requires qi <= 0;
            assert(qi * 355 <= 0) by (nonlinear_arith)
                requires qi <= 0;
        }
    }
    let m = x - q * 20340;
    let t = tdiv_i128(m * 355, 20340);
    proof {
        lemma_tdiv_bounds(m as int * 355, 20340);
    }
    q * 355 + t
}

/// Radians to degrees of an `i128` drawn from a 64-bit-or-narrower scalar,
/// exactly `int_to_degrees` of the input (clamping is the caller's step).
fn deg_i128(x: i128) -> (r: i128)
    requires
        -0x8000_0000_0000_0000 <= x <= 0xffff_ffff_ffff_ffff,
    ensures
        r as int == int_to_degrees(x as int),
        x >= 0 ==> r >= 0,
        x <= 0 ==> r <= 0,
{
    proof {
        lemma_tdiv_decomposes(x as int, 355);
        lemma_tdiv_bounds(x as int, 355);
    }
    let q = tdiv_i128(x, 355);
    let m = x - q * 355;
    let t = tdiv_i128(m * 20340, 355);
    proof {
        lemma_tdiv_bounds(m as int * 20340, 355);
    }
    q * 20340 + t
}

/// Degrees to radians of a `u128`, exactly `int_to_radians` of the input.
fn rad_u128(x: u128) -> (r: u128)
    ensures
        r as int == int_to_radians(x as int),
        r <= x,
{
    proof {
        lemma_tdiv_decomposes(x as int, 20340);
    }
    let q = x / 20340;
    let m = x - q * 20340;
    let t = (m * 355) / 20340;
    proof {
        lemma_tdiv_decomposes(m as int * 355, 20340);
    }
    q * 355 + t
}

/// What `to_degrees` returns on an `i128` scalar: `x * 20340 / 355`,
/// saturating at the ends of the type's range for inputs whose converted
/// magnitude leaves it.
pub open spec fn i128_deg_val(x: int) -> int {
    if tdiv(x, 355) >= 8364856610642538433219631451125078 {
        i128::MAX as int
    } else if tdiv(x, 355) <= -8364856610642538433219631451125078 {
        i128::MIN as int
    } else {
        int_to_degrees(x)
    }
}

/// Radians to degrees of an `i128`, saturating as `i128_deg_val` says.
fn deg_i128_sat(x: i128) -> (r: i128)
    ensures
        r as int == i128_deg_val(x as int),
{
    proof {
        lemma_tdiv_decomposes(x as int, 355);
        lemma_tdiv_bounds(x as int, 355);
    }
    let q = tdiv_i128(x, 355);
    if q >= 8364856610642538433219631451125078 {
        i128::MAX
    } else if q <= -8364856610642538433219631451125078 {
        i128::MIN
    } else {
        let m = x - q * 355;
        let t = tdiv_i128(m * 20340, 355);
        proof {
            lemma_tdiv_bounds(m as int * 20340, 355);
            lemma_tdiv_decomposes(m as int * 20340, 355);
        }
        q * 20340 + t
    }
}

/// What `to_degrees` returns on a `u128` scalar: `x * 20340 / 355`,
/// saturating at the top of the type's range.
pub open spec fn u128_deg_val(x: int) -> int {
    if tdiv(x, 355) >= 16729713221285076866439262902250157 {
        u128::MAX as int
    } else {
        int_to_degrees(x)
    }
}

/// Radians to degrees of a `u128`, saturating as `u128_deg_val` says.
fn deg_u128_sat(x: u128) -> (r: u128)
    ensures
        r as int == u128_deg_val(x as int),
{
    proof {
        lemma_tdiv_decomposes(x as int, 355);
    }
    let q = x / 355;
    if q >= 16729713221285076866439262902250157 {
        u128::MAX
    } else {
        let m = x - q * 355;
        let t = (m * 20340) / 355;
        proof {
            lemma_tdiv_decomposes(m as int * 20340, 355);
        }
        q * 20340 + t
    }
}

/// The scalar contract.  `NUM` is the implementing type itself; the trait
/// is written over an explicit type parameter so that vectors and matrices
/// can name their scalar uniformly as `N: CharMathNumeric<N>`.
///
/// The abstract spec functions model the type: `sval` is the integer a
/// scalar stands for, `in_range` delimits which integers the type can
/// hold, and the remaining ones name the results of the derived
/// operations on that model.
pub trait CharMathNumeric<NUM>: Sized + Copy {
    /// The mathematical value of a scalar.  The ghost members carry
    /// default bodies so that a scalar type outside the verified world
    /// (a floating-point wrapper, say) can implement only the
    /// executable operations; the defaults model every scalar as 0 in
    /// an unbounded range, of which the obligations below hold
    /// trivially.
    open spec fn sval(a: NUM) -> int {
        0
    }

    /// Which mathematical values the scalar type can hold.
    open spec fn in_range(x: int) -> bool {
        true
    }

    /// The value of the `half` constant (0 on the integer scalars).
    open spec fn half_val() -> int {
        0
    }

    /// What `sqrt` returns on the model.
    open spec fn sqrt_val(x: int) -> int {
        if x <= 0 {
            0
        } else {
            int_sqrt(x)
        }
    }

    /// What `sin` returns on the model.
    open spec fn sin_val(x: int) -> int {
        int_sin(x)
    }

    /// What `cos` returns on the model.
    open spec fn cos_val(x: int) -> int {
        int_cos(x)
    }

    /// What `to_radians` returns on the model.
    open spec fn rad_val(x: int) -> int {
        int_to_radians(x)
    }

    /// What `to_degrees` returns on the model.
    open spec fn deg_val(x: int) -> int {
        int_to_degrees(x)
    }

    fn zero() -> (r: NUM)
        ensures
            Self::sval(r) == 0,
    ;

    fn one() -> (r: NUM)
        ensures
            Self::sval(r) == 1,
    ;

    fn two() -> (r: NUM)
        ensures
            Self::sval(r) == 2,
    ;

    fn half() -> (r: NUM)
        ensures
            Self::sval(r) == Self::half_val(),
    ;

    fn add(a: NUM, b: NUM) -> (r: NUM)
        requires
            Self::in_range(Self::sval(a) + Self::sval(b)),
        ensures
            Self::sval(r) == Self::sval(a) + Self::sval(b),
    ;

    fn sub(a: NUM, b: NUM) -> (r: NUM)
        requires
            Self::in_range(Self::sval(a) - Self::sval(b)),
        ensures
            Self::sval(r) == Self::sval(a) - Self::sval(b),
    ;

    fn mul(a: NUM, b: NUM) -> (r: NUM)
        requires
            Self::in_range(Self::sval(a) * Self::sval(b)),
        ensures
            Self::sval(r) == Self::sval(a) * Self::sval(b),
    ;

    fn div(a: NUM, b: NUM) -> (r: NUM)
        requires
            Self::sval(b) != 0,
            Self::in_range(tdiv(Self::sval(a), Self::sval(b))),
        ensures
            Self::sval(r) == tdiv(Self::sval(a), Self::sval(b)),
    ;

    /// Negation.  On an unsigned scalar only 0 is negatable; the
    /// precondition rules every other input out.
    fn neg(a: NUM) -> (r: NUM)
        requires
            Self::in_range(-Self::sval(a)),
        ensures
            Self::sval(r) == -Self::sval(a),
    ;

    fn sqrt(a: NUM) -> (r: NUM)
        ensures
            Self::sval(r) == Self::sqrt_val(Self::sval(a)),
    ;

    fn sin(a: NUM) -> (r: NUM)
        ensures
            Self::sval(r) == Self::sin_val(Self::sval(a)),
    ;

    fn cos(a: NUM) -> (r: NUM)
        ensures
            Self::sval(r) == Self::cos_val(Self::sval(a)),
    ;

    /// `tan(x) = sin(x) / cos(x)`; defined only where the cosine is
    /// nonzero.
    fn tan(a: NUM) -> (r: NUM)
        requires
            Self::cos_val(Self::sval(a)) != 0,
            Self::in_range(tdiv(Self::sin_val(Self::sval(a)), Self::cos_val(Self::sval(a)))),
        ensures
            Self::sval(r) == tdiv(Self::sin_val(Self::sval(a)), Self::cos_val(Self::sval(a))),
    ;

    fn to_radians(deg: NUM) -> (r: NUM)
        ensures
            Self::sval(r) == Self::rad_val(Self::sval(deg)),
    ;

    fn to_degrees(rad: NUM) -> (r: NUM)
        ensures
            Self::sval(r) == Self::deg_val(Self::sval(rad)),
    ;
}

impl CharMathNumeric<i64> for i64 {
    open spec fn sval(a: i64) -> int {
        a as int
    }

    open spec fn in_range(x: int) -> bool {
        i64::MIN <= x <= i64::MAX
    }

    open spec fn half_val() -> int {
        0
    }

    open spec fn sqrt_val(x: int) -> int {
        if x <= 0 {
            0
        } else {
            int_sqrt(x)
        }
    }

    open spec fn sin_val(x: int) -> int {
        int_sin(x)
    }

    open spec fn cos_val(x: int) -> int {
        int_cos(x)
    }

    open spec fn rad_val(x: int) -> int {
        int_to_radians(x)
    }

    open spec fn deg_val(x: int) -> int {
        clamp(int_to_degrees(x), i64::MIN as int, i64::MAX as int)
    }

    fn zero() -> i64 {
        0
    }

    fn one() -> i64 {
        1
    }

    fn two() -> i64 {
        2
    }

    fn half() -> i64 {
        0
    }

    fn add(a: i64, b: i64) -> i64 {
        a + b
    }

    fn sub(a: i64, b: i64) -> i64 {
        a - b
    }

    fn mul(a: i64, b: i64) -> i64 {
        a * b
    }

    fn div(a: i64, b: i64) -> (r: i64) {
        match a.checked_div(b) {
            Some(q) => q,
            None => {
                proof {
                    assert(false);
                }
                0
            },
        }
    }

    fn neg(a: i64) -> (r: i64) {
        -a
    }

    fn sqrt(a: i64) -> (r: i64) {
        if a <= 0 {
            0
        } else {
            let r = isqrt_u128(a as u128);
            proof {
                assert(r as int <= a as int) by (nonlinear_arith)
                    requires
                        0 <= r as int,
                        (r as int) * (r as int) <= a as int;
                lemma_int_sqrt_is(a as int, r as int);
            }
            r as i64
        }
    }

    fn sin(a: i64) -> (r: i64) {
        0
    }

    fn cos(a: i64) -> (r: i64) {
        if a == 0 {
            1
        } else {
            0
        }
    }

    fn tan(a: i64) -> (r: i64) {
        0
    }

    fn to_radians(deg: i64) -> (r: i64) {
        rad_i128(deg as i128) as i64
    }

    fn to_degrees(rad: i64) -> (r: i64) {
        let v = deg_i128(rad as i128);
        if v > i64::MAX as i128 {
            i64::MAX
        } else if v < i64::MIN as i128 {
            i64::MIN
        } else {
            v as i64
        }
    }
}

/// For every nonnegative integer some root witnesses the square-root
/// characterization, so `int_sqrt` satisfies it.
pub proof fn lemma_int_sqrt_exists(x: int)
    requires
        x >= 0,
    ensures
        0 <= int_sqrt(x),
        int_sqrt(x) * int_sqrt(x) <= x,
        x < (int_sqrt(x) + 1) * (int_sqrt(x) + 1),
    decreases x,
{
    if x == 0 {
        lemma_int_sqrt_is(0, 0);
    } else {
        lemma_int_sqrt_exists(x - 1);
        let p = int_sqrt(x - 1);
        if x < (p + 1) * (p + 1) {
            lemma_int_sqrt_is(x, p);
        } else {
            assert(x == (p + 1) * (p + 1));
            assert(x < (p + 2) * (p + 2)) by (nonlinear_arith)
                requires x == (p + 1) * (p + 1) && p >= 0;
            lemma_int_sqrt_is(x, p + 1);
        }
    }
}


impl CharMathNumeric<i8> for i8 {
    open spec fn sval(a: i8) -> int {
        a as int
    }

    open spec fn in_range(x: int) -> bool {
        i8::MIN <= x <= i8::MAX
    }

    open spec fn half_val() -> int {
        0
    }

    open spec fn sqrt_val(x: int) -> int {
        if x <= 0 {
            0
        } else {
            int_sqrt(x)
        }
    }

    open spec fn sin_val(x: int) -> int {
        int_sin(x)
    }

    open spec fn cos_val(x: int) -> int {
        int_cos(x)
    }

    open spec fn rad_val(x: int) -> int {
        int_to_radians(x)
    }

    open spec fn deg_val(x: int) -> int {
        clamp(int_to_degrees(x), i8::MIN as int, i8::MAX as int)
    }

    fn zero() -> i8 {
        0
    }

    fn one() -> i8 {
        1
    }

    fn two() -> i8 {
        2
    }

    fn half() -> i8 {
        0
    }

    fn add(a: i8, b: i8) -> i8 {
        a + b
    }

    fn sub(a: i8, b: i8) -> i8 {
        a - b
    }

    fn mul(a: i8, b: i8) -> i8 {
        a * b
    }

    fn div(a: i8, b: i8) -> (r: i8) {
        match a.checked_div(b) {
            Some(q) => q,
            None => {
                proof {
                    assert(false);
                }
                0
            },
        }
    }

    fn neg(a: i8) -> (r: i8) {
        -a
    }

    fn sqrt(a: i8) -> (r: i8) {
        if a <= 0 {
            0
        } else {
            let r = isqrt_u128(a as u128);
            proof {
                assert(r as int <= a as int) by (nonlinear_arith)
                    requires
                        0 <= r as int,
                        (r as int) * (r as int) <= a as int;
                lemma_int_sqrt_is(a as int, r as int);
            }
            r as i8
        }
    }

    fn sin(a: i8) -> (r: i8) {
        0
    }

    fn cos(a: i8) -> (r: i8) {
        if a == 0 {
            1
        } else {
            0
        }
    }

    fn tan(a: i8) -> (r: i8) {
        0
    }

    fn to_radians(deg: i8) -> (r: i8) {
        rad_i128(deg as i128) as i8
    }

    fn to_degrees(rad: i8) -> (r: i8) {
        let v = deg_i128(rad as i128);
        if v > i8::MAX as i128 {
            i8::MAX
        } else if v < i8::MIN as i128 {
            i8::MIN
        } else {
            v as i8
        }
    }
}

impl CharMathNumeric<i16> for i16 {
    open spec fn sval(a: i16) -> int {
        a as int
    }

    open spec fn in_range(x: int) -> bool {
        i16::MIN <= x <= i16::MAX
    }

    open spec fn half_val() -> int {
        0
    }

    open spec fn sqrt_val(x: int) -> int {
        if x <= 0 {
            0
        } else {
            int_sqrt(x)
        }
    }

    open spec fn sin_val(x: int) -> int {
        int_sin(x)
    }

    open spec fn cos_val(x: int) -> int {
        int_cos(x)
    }

    open spec fn rad_val(x: int) -> int {
        int_to_radians(x)
    }

    open spec fn deg_val(x: int) -> int {
        clamp(int_to_degrees(x), i16::MIN as int, i16::MAX as int)
    }

    fn zero() -> i16 {
        0
    }

    fn one() -> i16 {
        1
    }

    fn two() -> i16 {
        2
    }

    fn half() -> i16 {
        0
    }

    fn add(a: i16, b: i16) -> i16 {
        a + b
    }

    fn sub(a: i16, b: i16) -> i16 {
        a - b
    }

    fn mul(a: i16, b: i16) -> i16 {
        a * b
    }

    fn div(a: i16, b: i16) -> (r: i16) {
        match a.checked_div(b) {
            Some(q) => q,
            None => {
                proof {
                    assert(false);
                }
                0
            },
        }
    }

    fn neg(a: i16) -> (r: i16) {
        -a
    }

    fn sqrt(a: i16) -> (r: i16) {
        if a <= 0 {
            0
        } else {
            let r = isqrt_u128(a as u128);
            proof {
                assert(r as int <= a as int) by (nonlinear_arith)
                    requires
                        0 <= r as int,
                        (r as int) * (r as int) <= a as int;
                lemma_int_sqrt_is(a as int, r as int);
            }
            r as i16
        }
    }

    fn sin(a: i16) -> (r: i16) {
        0
    }

    fn cos(a: i16) -> (r: i16) {
        if a == 0 {
            1
        } else {
            0
        }
    }

    fn tan(a: i16) -> (r: i16) {
        0
    }

    fn to_radians(deg: i16) -> (r: i16) {
        rad_i128(deg as i128) as i16
    }

    fn to_degrees(rad: i16) -> (r: i16) {
        let v = deg_i128(rad as i128);
        if v > i16::MAX as i128 {
            i16::MAX
        } else if v < i16::MIN as i128 {
            i16::MIN
        } else {
            v as i16
        }
    }
}

impl CharMathNumeric<i32> for i32 {
    open spec fn sval(a: i32) -> int {
        a as int
    }

    open spec fn in_range(x: int) -> bool {
        i32::MIN <= x <= i32::MAX
    }

    open spec fn half_val() -> int {
        0
    }

    open spec fn sqrt_val(x: int) -> int {
        if x <= 0 {
            0
        } else {
            int_sqrt(x)
        }
    }

    open spec fn sin_val(x: int) -> int {
        int_sin(x)
    }

    open spec fn cos_val(x: int) -> int {
        int_cos(x)
    }

    open spec fn rad_val(x: int) -> int {
        int_to_radians(x)
    }

    open spec fn deg_val(x: int) -> int {
        clamp(int_to_degrees(x), i32::MIN as int, i32::MAX as int)
    }

    fn zero() -> i32 {
        0
    }

    fn one() -> i32 {
        1
    }

    fn two() -> i32 {
        2
    }

    fn half() -> i32 {
        0
    }

    fn add(a: i32, b: i32) -> i32 {
        a + b
    }

    fn sub(a: i32, b: i32) -> i32 {
        a - b
    }

    fn mul(a: i32, b: i32) -> i32 {
        a * b
    }

    fn div(a: i32, b: i32) -> (r: i32) {
        match a.checked_div(b) {
            Some(q) => q,
            None => {
                proof {
                    assert(false);
                }
                0
            },
        }
    }

    fn neg(a: i32) -> (r: i32) {
        -a
    }

    fn sqrt(a: i32) -> (r: i32) {
        if a <= 0 {
            0
        } else {
            let r = isqrt_u128(a as u128);
            proof {
                assert(r as int <= a as int) by (nonlinear_arith)
                    requires
                        0 <= r as int,
                        (r as int) * (r as int) <= a as int;
                lemma_int_sqrt_is(a as int, r as int);
            }
            r as i32
        }
    }

    fn sin(a: i32) -> (r: i32) {
        0
    }

    fn cos(a: i32) -> (r: i32) {
        if a == 0 {
            1
        } else {
            0
        }
    }

    fn tan(a: i32) -> (r: i32) {
        0
    }

    fn to_radians(deg: i32) -> (r: i32) {
        rad_i128(deg as i128) as i32
    }

    fn to_degrees(rad: i32) -> (r: i32) {
        let v = deg_i128(rad as i128);
        if v > i32::MAX as i128 {
            i32::MAX
        } else if v < i32::MIN as i128 {
            i32::MIN
        } else {
            v as i32
        }
    }
}

impl CharMathNumeric<isize> for isize {
    open spec fn sval(a: isize) -> int {
        a as int
    }

    open spec fn in_range(x: int) -> bool {
        isize::MIN <= x <= isize::MAX
    }

    open spec fn half_val() -> int {
        0
    }

    open spec fn sqrt_val(x: int) -> int {
        if x <= 0 {
            0
        } else {
            int_sqrt(x)
        }
    }

    open spec fn sin_val(x: int) -> int {
        int_sin(x)
    }

    open spec fn cos_val(x: int) -> int {
        int_cos(x)
    }

    open spec fn rad_val(x: int) -> int {
        int_to_radians(x)
    }

    open spec fn deg_val(x: int) -> int {
        clamp(int_to_degrees(x), isize::MIN as int, isize::MAX as int)
    }

    fn zero() -> isize {
        0
    }

    fn one() -> isize {
        1
    }

    fn two() -> isize {
        2
    }

    fn half() -> isize {
        0
    }

    fn add(a: isize, b: isize) -> isize {
        a + b
    }

    fn sub(a: isize, b: isize) -> isize {
        a - b
    }

    fn mul(a: isize, b: isize) -> isize {
        a * b
    }

    fn div(a: isize, b: isize) -> (r: isize) {
        match a.checked_div(b) {
            Some(q) => q,
            None => {
                proof {
                    assert(false);
                }
                0
            },
        }
    }

    fn neg(a: isize) -> (r: isize) {
        -a
    }

    fn sqrt(a: isize) -> (r: isize) {
        if a <= 0 {
            0
        } else {
            let r = isqrt_u128(a as u128);
            proof {
                assert(r as int <= a as int) by (nonlinear_arith)
                    requires
                        0 <= r as int,
                        (r as int) * (r as int) <= a as int;
                lemma_int_sqrt_is(a as int, r as int);
            }
            r as isize
        }
    }

    fn sin(a: isize) -> (r: isize) {
        0
    }

    fn cos(a: isize) -> (r: isize) {
        if a == 0 {
            1
        } else {
            0
        }
    }

    fn tan(a: isize) -> (r: isize) {
        0
    }

    fn to_radians(deg: isize) -> (r: isize) {
        rad_i128(deg as i128) as isize
    }

    fn to_degrees(rad: isize) -> (r: isize) {
        let v = deg_i128(rad as i128);
        if v > isize::MAX as i128 {
            isize::MAX
        } else if v < isize::MIN as i128 {
            isize::MIN
        } else {
            v as isize
        }
    }
}

impl CharMathNumeric<u8> for u8 {
    open spec fn sval(a: u8) -> int {
        a as int
    }

    open spec fn in_range(x: int) -> bool {
        0 <= x <= u8::MAX
    }

    open spec fn half_val() -> int {
        0
    }

    open spec fn sqrt_val(x: int) -> int {
        if x <= 0 {
            0
        } else {
            int_sqrt(x)
        }
    }

    open spec fn sin_val(x: int) -> int {
        int_sin(x)
    }

    open spec fn cos_val(x: int) -> int {
        int_cos(x)
    }

    open spec fn rad_val(x: int) -> int {
        int_to_radians(x)
    }

    open spec fn deg_val(x: int) -> int {
        clamp(int_to_degrees(x), 0, u8::MAX as int)
    }

    fn zero() -> u8 {
        0
    }

    fn one() -> u8 {
        1
    }

    fn two() -> u8 {
        2
    }

    fn half() -> u8 {
        0
    }

    fn add(a: u8, b: u8) -> u8 {
        a + b
    }

    fn sub(a: u8, b: u8) -> u8 {
        a - b
    }

    fn mul(a: u8, b: u8) -> u8 {
        a * b
    }

    fn div(a: u8, b: u8) -> (r: u8) {
        proof {
            if a == 0 {
                vstd::arithmetic::div_mod::lemma_div_of0(b as int);
            }
        }
        a / b
    }

    fn neg(a: u8) -> (r: u8) {
        0
    }

    fn sqrt(a: u8) -> (r: u8) {
        if a == 0 {
            0
        } else {
            let r = isqrt_u128(a as u128);
            proof {
                assert(r as int <= a as int) by (nonlinear_arith)
                    requires
                        0 <= r as int,
                        (r as int) * (r as int) <= a as int;
                lemma_int_sqrt_is(a as int, r as int);
            }
            r as u8
        }
    }

    fn sin(a: u8) -> (r: u8) {
        0
    }

    fn cos(a: u8) -> (r: u8) {
        if a == 0 {
            1
        } else {
            0
        }
    }

    fn tan(a: u8) -> (r: u8) {
        0
    }

    fn to_radians(deg: u8) -> (r: u8) {
        rad_i128(deg as i128) as u8
    }

    fn to_degrees(rad: u8) -> (r: u8) {
        let v = deg_i128(rad as i128);
        if v > u8::MAX as i128 {
            u8::MAX
        } else {
            v as u8
        }
    }
}

impl CharMathNumeric<u16> for u16 {
    open spec fn sval(a: u16) -> int {
        a as int
    }

    open spec fn in_range(x: int) -> bool {
        0 <= x <= u16::MAX
    }

    open spec fn half_val() -> int {
        0
    }

    open spec fn sqrt_val(x: int) -> int {
        if x <= 0 {
            0
        } else {
            int_sqrt(x)
        }
    }

    open spec fn sin_val(x: int) -> int {
        int_sin(x)
    }

    open spec fn cos_val(x: int) -> int {
        int_cos(x)
    }

    open spec fn rad_val(x: int) -> int {
        int_to_radians(x)
    }

    open spec fn deg_val(x: int) -> int {
        clamp(int_to_degrees(x), 0, u16::MAX as int)
    }

    fn zero() -> u16 {
        0
    }

    fn one() -> u16 {
        1
    }

    fn two() -> u16 {
        2
    }

    fn half() -> u16 {
        0
    }

    fn add(a: u16, b: u16) -> u16 {
        a + b
    }

    fn sub(a: u16, b: u16) -> u16 {
        a - b
    }

    fn mul(a: u16, b: u16) -> u16 {
        a * b
    }

    fn div(a: u16, b: u16) -> (r: u16) {
        proof {
            if a == 0 {
                vstd::arithmetic::div_mod::lemma_div_of0(b as int);
            }
        }
        a / b
    }

    fn neg(a: u16) -> (r: u16) {
        0
    }

    fn sqrt(a: u16) -> (r: u16) {
        if a == 0 {
            0
        } else {
            let r = isqrt_u128(a as u128);
            proof {
                assert(r as int <= a as int) by (nonlinear_arith)
                    requires
                        0 <= r as int,
                        (r as int) * (r as int) <= a as int;
                lemma_int_sqrt_is(a as int, r as int);
            }
            r as u16
        }
    }

    fn sin(a: u16) -> (r: u16) {
        0
    }

    fn cos(a: u16) -> (r: u16) {
        if a == 0 {
            1
        } else {
            0
        }
    }

    fn tan(a: u16) -> (r: u16) {
        0
    }

    fn to_radians(deg: u16) -> (r: u16) {
        rad_i128(deg as i128) as u16
    }

    fn to_degrees(rad: u16) -> (r: u16) {
        let v = deg_i128(rad as i128);
        if v > u16::MAX as i128 {
            u16::MAX
        } else {
            v as u16
        }
    }
}

impl CharMathNumeric<u32> for u32 {
    open spec fn sval(a: u32) -> int {
        a as int
    }

    open spec fn in_range(x: int) -> bool {
        0 <= x <= u32::MAX
    }

    open spec fn half_val() -> int {
        0
    }

    open spec fn sqrt_val(x: int) -> int {
        if x <= 0 {
            0
        } else {
            int_sqrt(x)
        }
    }

    open spec fn sin_val(x: int) -> int {
        int_sin(x)
    }

    open spec fn cos_val(x: int) -> int {
        int_cos(x)
    }

    open spec fn rad_val(x: int) -> int {
        int_to_radians(x)
    }

    open spec fn deg_val(x: int) -> int {
        clamp(int_to_degrees(x), 0, u32::MAX as int)
    }

    fn zero() -> u32 {
        0
    }

    fn one() -> u32 {
        1
    }

    fn two() -> u32 {
        2
    }

    fn half() -> u32 {
        0
    }

    fn add(a: u32, b: u32) -> u32 {
        a + b
    }

    fn sub(a: u32, b: u32) -> u32 {
        a - b
    }

    fn mul(a: u32, b: u32) -> u32 {
        a * b
    }

    fn div(a: u32, b: u32) -> (r: u32) {
        proof {
            if a == 0 {
                vstd::arithmetic::div_mod::lemma_div_of0(b as int);
            }
        }
        a / b
    }

    fn neg(a: u32) -> (r: u32) {
        0
    }

    fn sqrt(a: u32) -> (r: u32) {
        if a == 0 {
            0
        } else {
            let r = isqrt_u128(a as u128);
            proof {
                assert(r as int <= a as int) by (nonlinear_arith)
                    requires
                        0 <= r as int,
                        (r as int) * (r as int) <= a as int;
                lemma_int_sqrt_is(a as int, r as int);
            }
            r as u32
        }
    }

    fn sin(a: u32) -> (r: u32) {
        0
    }

    fn cos(a: u32) -> (r: u32) {
        if a == 0 {
            1
        } else {
            0
        }
    }

    fn tan(a: u32) -> (r: u32) {
        0
    }

    fn to_radians(deg: u32) -> (r: u32) {
        rad_i128(deg as i128) as u32
    }

    fn to_degrees(rad: u32) -> (r: u32) {
        let v = deg_i128(rad as i128);
        if v > u32::MAX as i128 {
            u32::MAX
        } else {
            v as u32
        }
    }
}

impl CharMathNumeric<u64> for u64 {
    open spec fn sval(a: u64) -> int {
        a as int
    }

    open spec fn in_range(x: int) -> bool {
        0 <= x <= u64::MAX
    }

    open spec fn half_val() -> int {
        0
    }

    open spec fn sqrt_val(x: int) -> int {
        if x <= 0 {
            0
        } else {
            int_sqrt(x)
        }
    }

    open spec fn sin_val(x: int) -> int {
        int_sin(x)
    }

    open spec fn cos_val(x: int) -> int {
        int_cos(x)
    }

    open spec fn rad_val(x: int) -> int {
        int_to_radians(x)
    }

    open spec fn deg_val(x: int) -> int {
        clamp(int_to_degrees(x), 0, u64::MAX as int)
    }

    fn zero() -> u64 {
        0
    }

    fn one() -> u64 {
        1
    }

    fn two() -> u64 {
        2
    }

    fn half() -> u64 {
        0
    }

    fn add(a: u64, b: u64) -> u64 {
        a + b
    }

    fn sub(a: u64, b: u64) -> u64 {
        a - b
    }

    fn mul(a: u64, b: u64) -> u64 {
        a * b
    }

    fn div(a: u64, b: u64) -> (r: u64) {
        proof {
            if a == 0 {
                vstd::arithmetic::div_mod::lemma_div_of0(b as int);
            }
        }
        a / b
    }

    fn neg(a: u64) -> (r: u64) {
        0
    }

    fn sqrt(a: u64) -> (r: u64) {
        if a == 0 {
            0
        } else {
            let r = isqrt_u128(a as u128);
            proof {
                assert(r as int <= a as int) by (nonlinear_arith)
                    requires
                        0 <= r as int,
                        (r as int) * (r as int) <= a as int;
                lemma_int_sqrt_is(a as int, r as int);
            }
            r as u64
        }
    }

    fn sin(a: u64) -> (r: u64) {
        0
    }

    fn cos(a: u64) -> (r: u64) {
        if a == 0 {
            1
        } else {
            0
        }
    }

    fn tan(a: u64) -> (r: u64) {
        0
    }

    fn to_radians(deg: u64) -> (r: u64) {
        rad_i128(deg as i128) as u64
    }

    fn to_degrees(rad: u64) -> (r: u64) {
        let v = deg_i128(rad as i128);
        if v > u64::MAX as i128 {
            u64::MAX
        } else {
            v as u64
        }
    }
}

impl CharMathNumeric<usize> for usize {
    open spec fn sval(a: usize) -> int {
        a as int
    }

    open spec fn in_range(x: int) -> bool {
        0 <= x <= usize::MAX
    }

    open spec fn half_val() -> int {
        0
    }

    open spec fn sqrt_val(x: int) -> int {
        if x <= 0 {
            0
        } else {
            int_sqrt(x)
        }
    }

    open spec fn sin_val(x: int) -> int {
        int_sin(x)
    }

    open spec fn cos_val(x: int) -> int {
        int_cos(x)
    }

    open spec fn rad_val(x: int) -> int {
        int_to_radians(x)
    }

    open spec fn deg_val(x: int) -> int {
        clamp(int_to_degrees(x), 0, usize::MAX as int)
    }

    fn zero() -> usize {
        0
    }

    fn one() -> usize {
        1
    }

    fn two() -> usize {
        2
    }

    fn half() -> usize {
        0
    }

    fn add(a: usize, b: usize) -> usize {
        a + b
    }

    fn sub(a: usize, b: usize) -> usize {
        a - b
    }

    fn mul(a: usize, b: usize) -> usize {
        a * b
    }

    fn div(a: usize, b: usize) -> (r: usize) {
        proof {
            if a == 0 {
                vstd::arithmetic::div_mod::lemma_div_of0(b as int);
            }
        }
        a / b
    }

    fn neg(a: usize) -> (r: usize) {
        0
    }

    fn sqrt(a: usize) -> (r: usize) {
        if a == 0 {
            0
        } else {
            let r = isqrt_u128(a as u128);
            proof {
                assert(r as int <= a as int) by (nonlinear_arith)
                    requires
                        0 <= r as int,
                        (r as int) * (r as int) <= a as int;
                lemma_int_sqrt_is(a as int, r as int);
            }
            r as usize
        }
    }

    fn sin(a: usize) -> (r: usize) {
        0
    }

    fn cos(a: usize) -> (r: usize) {
        if a == 0 {
            1
        } else {
            0
        }
    }

    fn tan(a: usize) -> (r: usize) {
        0
    }

    fn to_radians(deg: usize) -> (r: usize) {
        rad_i128(deg as i128) as usize
    }

    fn to_degrees(rad: usize) -> (r: usize) {
        let v = deg_i128(rad as i128);
        if v > usize::MAX as i128 {
            usize::MAX
        } else {
            v as usize
        }
    }
}

impl CharMathNumeric<i128> for i128 {
    open spec fn sval(a: i128) -> int {
        a as int
    }

    open spec fn in_range(x: int) -> bool {
        i128::MIN <= x <= i128::MAX
    }

    open spec fn half_val() -> int {
        0
    }

    open spec fn sqrt_val(x: int) -> int {
        if x <= 0 {
            0
        } else {
            int_sqrt(x)
        }
    }

    open spec fn sin_val(x: int) -> int {
        int_sin(x)
    }

    open spec fn cos_val(x: int) -> int {
        int_cos(x)
    }

    open spec fn rad_val(x: int) -> int {
        int_to_radians(x)
    }

    open spec fn deg_val(x: int) -> int {
        i128_deg_val(x)
    }

    fn zero() -> i128 {
        0
    }

    fn one() -> i128 {
        1
    }

    fn two() -> i128 {
        2
    }

    fn half() -> i128 {
        0
    }

    fn add(a: i128, b: i128) -> i128 {
        a + b
    }

    fn sub(a: i128, b: i128) -> i128 {
        a - b
    }

    fn mul(a: i128, b: i128) -> i128 {
        a * b
    }

    fn div(a: i128, b: i128) -> (r: i128) {
        match a.checked_div(b) {
            Some(q) => q,
            None => {
                proof {
                    assert(false);
                }
                0
            },
        }
    }

    fn neg(a: i128) -> (r: i128) {
        -a
    }

    fn sqrt(a: i128) -> (r: i128) {
        if a <= 0 {
            0
        } else {
            let r = isqrt_u128(a as u128);
            proof {
                assert(r as int <= a as int) by (nonlinear_arith)
                    requires
                        0 <= r as int,
                        (r as int) * (r as int) <= a as int;
                lemma_int_sqrt_is(a as int, r as int);
            }
            r as i128
        }
    }

    fn sin(a: i128) -> (r: i128) {
        0
    }

    fn cos(a: i128) -> (r: i128) {
        if a == 0 {
            1
        } else {
            0
        }
    }

    fn tan(a: i128) -> (r: i128) {
        0
    }

    fn to_radians(deg: i128) -> (r: i128) {
        rad_i128(deg)
    }

    fn to_degrees(rad: i128) -> (r: i128) {
        deg_i128_sat(rad)
    }
}

impl CharMathNumeric<u128> for u128 {
    open spec fn sval(a: u128) -> int {
        a as int
    }

    open spec fn in_range(x: int) -> bool {
        0 <= x <= u128::MAX
    }

    open spec fn half_val() -> int {
        0
    }

    open spec fn sqrt_val(x: int) -> int {
        if x <= 0 {
            0
        } else {
            int_sqrt(x)
        }
    }

    open spec fn sin_val(x: int) -> int {
        int_sin(x)
    }

    open spec fn cos_val(x: int) -> int {
        int_cos(x)
    }

    open spec fn rad_val(x: int) -> int {
        int_to_radians(x)
    }

    open spec fn deg_val(x: int) -> int {
        u128_deg_val(x)
    }

    fn zero() -> u128 {
        0
    }

    fn one() -> u128 {
        1
    }

    fn two() -> u128 {
        2
    }

    fn half() -> u128 {
        0
    }

    fn add(a: u128, b: u128) -> u128 {
        a + b
    }

    fn sub(a: u128, b: u128) -> u128 {
        a - b
    }

    fn mul(a: u128, b: u128) -> u128 {
        a * b
    }

    fn div(a: u128, b: u128) -> (r: u128) {
        proof {
            if a == 0 {
                vstd::arithmetic::div_mod::lemma_div_of0(b as int);
            }
        }
        a / b
    }

    fn neg(a: u128) -> (r: u128) {
        0
    }

    fn sqrt(a: u128) -> (r: u128) {
        if a == 0 {
            0
        } else {
            let r = isqrt_u128(a);
            proof {
                assert(r as int <= a as int) by (nonlinear_arith)
                    requires
                        0 <= r as int,
                        (r as int) * (r as int) <= a as int;
                lemma_int_sqrt_is(a as int, r as int);
            }
            r
        }
    }

    fn sin(a: u128) -> (r: u128) {
        0
    }

    fn cos(a: u128) -> (r: u128) {
        if a == 0 {
            1
        } else {
            0
        }
    }

    fn tan(a: u128) -> (r: u128) {
        0
    }

    fn to_radians(deg: u128) -> (r: u128) {
        rad_u128(deg)
    }

    fn to_degrees(rad: u128) -> (r: u128) {
        deg_u128_sat(rad)
    }
}

} // verus!
