use nana::arith::{
    i128_to_i32, i128_to_i64, i128_to_u128, u128_to_i128, u128_to_i32, u128_to_i64,
    int_to_byte, int_to_i16, int_to_i32, int_to_i8, int_to_u128, int_to_u16, int_to_u32,
    int_to_u64, int_to_u8,
    i128_divided_by, i128_negate, i16_add, i16_times, i32_add, i32_divided_by, i32_negate,
    i32_subtract, i8_divided_by, i8_negate, i8_times, int_add, int_divided_by, int_negate,
    int_subtract, int_times, u128_divided_by, u128_subtract, u16_times, u32_add, u64_add,
    u64_divided_by, u64_subtract, u8_add, u8_divided_by, u8_subtract,
};

#[test]
fn int_arithmetic_exact_values() {
    assert_eq!(int_add(40, 2), Ok(42));
    assert_eq!(int_subtract(2, 40), Ok(-38));
    assert_eq!(int_times(-6, 7), Ok(-42));
    assert_eq!(int_negate(5), Ok(-5));
}

#[test]
fn int_overflow_errors() {
    assert_eq!(int_add(i64::MAX, 1), Err("integer overflow in addition".to_string()));
    assert_eq!(int_subtract(i64::MIN, 1), Err("integer overflow in subtraction".to_string()));
    assert_eq!(int_times(i64::MAX, 2), Err("integer overflow in multiplication".to_string()));
    assert_eq!(int_negate(i64::MIN), Err("integer overflow in negation".to_string()));
}

#[test]
fn int_division_rounds_toward_zero() {
    assert_eq!(int_divided_by(7, 2), Ok(3));
    assert_eq!(int_divided_by(-7, 2), Ok(-3));
    assert_eq!(int_divided_by(7, -2), Ok(-3));
    assert_eq!(int_divided_by(-7, -2), Ok(3));
}

#[test]
fn int_division_errors() {
    assert_eq!(int_divided_by(1, 0), Err("division by zero".to_string()));
    assert_eq!(int_divided_by(i64::MIN, -1), Err("integer overflow in division".to_string()));
}

#[test]
fn sized_signed_arithmetic() {
    assert_eq!(i32_add(i32::MAX, 1), Err("integer overflow in i32 addition".to_string()));
    assert_eq!(i32_subtract(10, 3), Ok(7));
    assert_eq!(i32_divided_by(-9, 4), Ok(-2));
    assert_eq!(i32_negate(i32::MIN), Err("integer overflow in i32 negation".to_string()));
    assert_eq!(i8_times(16, 8), Err("integer overflow in i8 multiplication".to_string()));
    assert_eq!(i8_divided_by(i8::MIN, -1), Err("integer overflow in i8 division".to_string()));
    assert_eq!(i8_negate(-128), Err("integer overflow in i8 negation".to_string()));
    assert_eq!(i16_add(300, 400), Ok(700));
    assert_eq!(i16_times(300, 400), Err("integer overflow in i16 multiplication".to_string()));
    assert_eq!(i128_divided_by(-100, 7), Ok(-14));
    assert_eq!(i128_negate(3), Ok(-3));
}

#[test]
fn unsigned_arithmetic() {
    assert_eq!(u8_add(200, 55), Ok(255));
    assert_eq!(u8_add(200, 56), Err("integer overflow in u8 addition".to_string()));
    assert_eq!(u8_subtract(3, 4), Err("integer underflow in u8 subtraction".to_string()));
    assert_eq!(u8_divided_by(255, 16), Ok(15));
    assert_eq!(u8_divided_by(1, 0), Err("division by zero".to_string()));
    assert_eq!(u16_times(256, 256), Err("integer overflow in u16 multiplication".to_string()));
    assert_eq!(u32_add(1, 2), Ok(3));
    assert_eq!(u64_add(u64::MAX, 1), Err("integer overflow in u64 addition".to_string()));
    assert_eq!(u64_subtract(10, 4), Ok(6));
    assert_eq!(u64_divided_by(10, 0), Err("division by zero".to_string()));
    assert_eq!(u128_subtract(0, 1), Err("integer underflow in u128 subtraction".to_string()));
    assert_eq!(u128_divided_by(100, 7), Ok(14));
}

#[test]
fn int_conversions_in_range() {
    assert_eq!(int_to_i32(-5, "i32"), Ok(-5i32));
    assert_eq!(int_to_i8(127, "to_i8"), Ok(127i8));
    assert_eq!(int_to_i16(-32768, "i16"), Ok(i16::MIN));
    assert_eq!(int_to_u8(255, "u8"), Ok(255u8));
    assert_eq!(int_to_u16(65535, "to_u16"), Ok(u16::MAX));
    assert_eq!(int_to_u32(4_000_000_000, "u32"), Ok(4_000_000_000u32));
    assert_eq!(int_to_u64(i64::MAX, "u64"), Ok(i64::MAX as u64));
    assert_eq!(int_to_u128(7, "to_u128"), Ok(7u128));
    assert_eq!(int_to_byte(0, "byte"), Ok(0u8));
}

#[test]
fn int_conversions_out_of_range() {
    assert_eq!(int_to_i32(3_000_000_000, "to_i32"), Err("to_i32: value 3000000000 out of range".to_string()));
    assert_eq!(int_to_i8(-129, "i8"), Err("i8: value -129 out of range".to_string()));
    assert_eq!(int_to_u8(256, "u8"), Err("u8: value 256 out of range".to_string()));
    assert_eq!(int_to_u64(-1, "to_u64"), Err("to_u64: value -1 out of range".to_string()));
    assert_eq!(int_to_u128(i64::MIN, "u128"), Err("u128: value -9223372036854775808 out of range".to_string()));
    assert_eq!(int_to_byte(300, "byte"), Err("byte: value 300 out of range (0..255)".to_string()));
    assert_eq!(int_to_byte(-1, "to_byte"), Err("to_byte: value -1 out of range (0..255)".to_string()));
}

#[test]
fn wide_conversions() {
    assert_eq!(i128_to_i64(-5), Ok(-5i64));
    assert_eq!(i128_to_i64(i128::MAX), Err("to_int: value 170141183460469231731687303715884105727 out of range".to_string()));
    assert_eq!(i128_to_i32(1 << 40), Err("to_i32: value 1099511627776 out of range".to_string()));
    assert_eq!(i128_to_i32(-3), Ok(-3i32));
    assert_eq!(i128_to_u128(-1), Err("to_u128: value -1 out of range".to_string()));
    assert_eq!(i128_to_u128(12), Ok(12u128));
    assert_eq!(u128_to_i64(9), Ok(9i64));
    assert_eq!(u128_to_i64(u128::MAX), Err("to_int: value 340282366920938463463374607431768211455 out of range".to_string()));
    assert_eq!(u128_to_i32(1 << 31), Err("to_i32: value 2147483648 out of range".to_string()));
    assert_eq!(u128_to_i128(1 << 127), Err("to_i128: value 170141183460469231731687303715884105728 out of range".to_string()));
    assert_eq!(u128_to_i128(5), Ok(5i128));
}

#[test]
fn int_to_char_conversions() {
    assert_eq!(nana::arith::int_to_char(65, "char"), Ok('A'));
    assert_eq!(nana::arith::int_to_char(0x1F600, "to_char"), Ok('😀'));
    assert_eq!(
        nana::arith::int_to_char((1i64 << 32) + 66, "char"),
        Err("char: value 4294967362 is not a valid Unicode scalar value".to_string())
    );
    assert_eq!(nana::arith::int_to_char(0x10FFFF, "char"), Ok('\u{10FFFF}'));
    assert_eq!(nana::arith::int_to_char(0xE000, "char"), Ok('\u{E000}'));
    assert_eq!(nana::arith::int_to_char(-1, "char"), Err("char: negative value -1".to_string()));
    assert_eq!(
        nana::arith::int_to_char(0xD800, "to_char"),
        Err("to_char: value 55296 is not a valid Unicode scalar value".to_string())
    );
    assert_eq!(
        nana::arith::int_to_char(0x110000, "char"),
        Err("char: value 1114112 is not a valid Unicode scalar value".to_string())
    );
}
