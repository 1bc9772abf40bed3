//! The scalar contract on the built-in integer types: constants,
//! arithmetic, integer square root, trigonometry and degree/radian
//! conversion.

use charmath::numeric::CharMathNumeric;

#[test]
fn constants_have_their_values() {
    assert_eq!(<i64 as CharMathNumeric<i64>>::zero(), 0);
    assert_eq!(<i64 as CharMathNumeric<i64>>::one(), 1);
    assert_eq!(<i64 as CharMathNumeric<i64>>::two(), 2);
    assert_eq!(<i64 as CharMathNumeric<i64>>::half(), 0);
    assert_eq!(<u8 as CharMathNumeric<u8>>::two(), 2);
}

#[test]
fn arithmetic_is_exact() {
    assert_eq!(<i32 as CharMathNumeric<i32>>::add(20, 22), 42);
    assert_eq!(<i32 as CharMathNumeric<i32>>::sub(20, 22), -2);
    assert_eq!(<i32 as CharMathNumeric<i32>>::mul(-6, 7), -42);
    assert_eq!(<u64 as CharMathNumeric<u64>>::div(7, 2), 3);
}

#[test]
fn division_truncates_toward_zero() {
    assert_eq!(<i64 as CharMathNumeric<i64>>::div(-7, 2), -3);
    assert_eq!(<i64 as CharMathNumeric<i64>>::div(7, -2), -3);
    assert_eq!(<i64 as CharMathNumeric<i64>>::div(-7, -2), 3);
    assert_eq!(<i128 as CharMathNumeric<i128>>::div(-100, 9), -11);
}

#[test]
fn negation_flips_sign() {
    assert_eq!(<i16 as CharMathNumeric<i16>>::neg(5), -5);
    assert_eq!(<i16 as CharMathNumeric<i16>>::neg(-5), 5);
    assert_eq!(<u32 as CharMathNumeric<u32>>::neg(0), 0);
}

#[test]
fn sqrt_is_the_integer_square_root() {
    assert_eq!(<i64 as CharMathNumeric<i64>>::sqrt(0), 0);
    assert_eq!(<i64 as CharMathNumeric<i64>>::sqrt(1), 1);
    assert_eq!(<i64 as CharMathNumeric<i64>>::sqrt(15), 3);
    assert_eq!(<i64 as CharMathNumeric<i64>>::sqrt(16), 4);
    assert_eq!(<i64 as CharMathNumeric<i64>>::sqrt(17), 4);
    assert_eq!(<i64 as CharMathNumeric<i64>>::sqrt(-9), 0);
    assert_eq!(<u128 as CharMathNumeric<u128>>::sqrt(1_000_000_000_000), 1_000_000);
    assert_eq!(<u8 as CharMathNumeric<u8>>::sqrt(255), 15);
}

#[test]
fn trig_keeps_only_the_integer_part() {
    assert_eq!(<i64 as CharMathNumeric<i64>>::sin(0), 0);
    assert_eq!(<i64 as CharMathNumeric<i64>>::sin(1), 0);
    assert_eq!(<i64 as CharMathNumeric<i64>>::cos(0), 1);
    assert_eq!(<i64 as CharMathNumeric<i64>>::cos(3), 0);
    assert_eq!(<i64 as CharMathNumeric<i64>>::tan(0), 0);
}

#[test]
fn degree_radian_conversion() {
    // 180 degrees is pi radians; with pi ~ 355/113 the integer part is 3.
    assert_eq!(<i64 as CharMathNumeric<i64>>::to_radians(180), 3);
    assert_eq!(<i64 as CharMathNumeric<i64>>::to_radians(360), 6);
    assert_eq!(<i64 as CharMathNumeric<i64>>::to_radians(-180), -3);
    assert_eq!(<i64 as CharMathNumeric<i64>>::to_radians(57), 0);
    // 3 radians is about 171.9 degrees.
    assert_eq!(<i64 as CharMathNumeric<i64>>::to_degrees(3), 171);
    assert_eq!(<i64 as CharMathNumeric<i64>>::to_degrees(-3), -171);
    // A narrow scalar saturates at its range.
    assert_eq!(<i8 as CharMathNumeric<i8>>::to_degrees(100), 127);
    assert_eq!(<i8 as CharMathNumeric<i8>>::to_degrees(-100), -128);
    assert_eq!(<u8 as CharMathNumeric<u8>>::to_degrees(100), 255);
}

#[test]
fn wide_scalars_convert_too() {
    assert_eq!(<i128 as CharMathNumeric<i128>>::to_radians(180), 3);
    assert_eq!(<u128 as CharMathNumeric<u128>>::to_radians(360), 6);
    assert_eq!(<i128 as CharMathNumeric<i128>>::to_degrees(3), 171);
    assert_eq!(<u128 as CharMathNumeric<u128>>::to_degrees(3), 171);
    assert_eq!(<u128 as CharMathNumeric<u128>>::to_degrees(u128::MAX), u128::MAX);
    assert_eq!(<i128 as CharMathNumeric<i128>>::to_degrees(i128::MIN), i128::MIN);
}
