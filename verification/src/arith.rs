//! Integer arithmetic of the language: each integer type's addition,
//! subtraction, multiplication, division and negation, with an error where
//! the exact result does not fit the type or the divisor is zero; and the
//! conversions of an `int` to the narrower integer types.
use vstd::prelude::*;

use crate::text::{
    char_from_u32, concat, decimal, i128_decimal, i64_decimal, is_scalar_value, push_str, signed_decimal, text,
    u128_decimal, u64_decimal,
};

verus! {

/// The quotient of `x` by `d` rounded toward zero.
pub open spec fn trunc_div(x: int, d: int) -> int {
    if x == 0 {
        0
    } else if x > 0 && d > 0 {
        x / d
    } else if x < 0 && d < 0 {
        (x * -1) / (d * -1)
    } else if x < 0 {
        ((x * -1) / d) * -1
    } else {
        (x / (d * -1)) * -1
    }
}

/// `int_add`: `a + b`, or an error where it does not fit.
pub fn int_add(a: i64, b: i64) -> (r: Result<i64, String>)
    ensures
        i64::MIN <= a + b <= i64::MAX ==> r == Ok::<i64, String>((a + b) as i64),
        !(i64::MIN <= a + b <= i64::MAX) ==> r is Err && r->Err_0@ == "integer overflow in addition"@,
{
    match a.checked_add(b) {
        Some(v) => Ok(v),
        None => Err(text("integer overflow in addition")),
    }
}

/// `int_subtract`: `a - b`, or an error where it does not fit.
pub fn int_subtract(a: i64, b: i64) -> (r: Result<i64, String>)
    ensures
        i64::MIN <= a - b <= i64::MAX ==> r == Ok::<i64, String>((a - b) as i64),
        !(i64::MIN <= a - b <= i64::MAX) ==> r is Err && r->Err_0@ == "integer overflow in subtraction"@,
{
    match a.checked_sub(b) {
        Some(v) => Ok(v),
        None => Err(text("integer overflow in subtraction")),
    }
}

/// `int_times`: `a * b`, or an error where it does not fit.
pub fn int_times(a: i64, b: i64) -> (r: Result<i64, String>)
    ensures
        i64::MIN <= a * b <= i64::MAX ==> r == Ok::<i64, String>((a * b) as i64),
        !(i64::MIN <= a * b <= i64::MAX) ==> r is Err && r->Err_0@ == "integer overflow in multiplication"@,
{
    match a.checked_mul(b) {
        Some(v) => Ok(v),
        None => Err(text("integer overflow in multiplication")),
    }
}

/// `int_divided_by`: `a / b` rounded toward zero; an error for a zero
/// divisor or a quotient that does not fit.
pub fn int_divided_by(a: i64, b: i64) -> (r: Result<i64, String>)
    ensures
        b == 0 ==> r is Err && r->Err_0@ == "division by zero"@,
        b != 0 && i64::MIN <= trunc_div(a as int, b as int) <= i64::MAX ==> r == Ok::<i64, String>(trunc_div(a as int, b as int) as i64),
        b != 0 && !(i64::MIN <= trunc_div(a as int, b as int) <= i64::MAX) ==> r is Err && r->Err_0@ == "integer overflow in division"@,
{
    if b == 0 {
        return Err(text("division by zero"));
    }
    match a.checked_div(b) {
        Some(v) => Ok(v),
        None => Err(text("integer overflow in division")),
    }
}

/// `int_negate`: `-a`, or an error where it does not fit.
pub fn int_negate(a: i64) -> (r: Result<i64, String>)
    ensures
        a != i64::MIN ==> r == Ok::<i64, String>((-a) as i64),
        a == i64::MIN ==> r is Err && r->Err_0@ == "integer overflow in negation"@,
{
    if a == i64::MIN {
        Err(text("integer overflow in negation"))
    } else {
        Ok(-a)
    }
}

/// `i32_add`: `a + b`, or an error where it does not fit.
pub fn i32_add(a: i32, b: i32) -> (r: Result<i32, String>)
    ensures
        i32::MIN <= a + b <= i32::MAX ==> r == Ok::<i32, String>((a + b) as i32),
        !(i32::MIN <= a + b <= i32::MAX) ==> r is Err && r->Err_0@ == "integer overflow in i32 addition"@,
{
    match a.checked_add(b) {
        Some(v) => Ok(v),
        None => Err(text("integer overflow in i32 addition")),
    }
}

/// `i32_subtract`: `a - b`, or an error where it does not fit.
pub fn i32_subtract(a: i32, b: i32) -> (r: Result<i32, String>)
    ensures
        i32::MIN <= a - b <= i32::MAX ==> r == Ok::<i32, String>((a - b) as i32),
        !(i32::MIN <= a - b <= i32::MAX) ==> r is Err && r->Err_0@ == "integer overflow in i32 subtraction"@,
{
    match a.checked_sub(b) {
        Some(v) => Ok(v),
        None => Err(text("integer overflow in i32 subtraction")),
    }
}

/// `i32_times`: `a * b`, or an error where it does not fit.
pub fn i32_times(a: i32, b: i32) -> (r: Result<i32, String>)
    ensures
        i32::MIN <= a * b <= i32::MAX ==> r == Ok::<i32, String>((a * b) as i32),
        !(i32::MIN <= a * b <= i32::MAX) ==> r is Err && r->Err_0@ == "integer overflow in i32 multiplication"@,
{
    match a.checked_mul(b) {
        Some(v) => Ok(v),
        None => Err(text("integer overflow in i32 multiplication")),
    }
}

/// `i32_divided_by`: `a / b` rounded toward zero; an error for a zero
/// divisor or a quotient that does not fit.
pub fn i32_divided_by(a: i32, b: i32) -> (r: Result<i32, String>)
    ensures
        b == 0 ==> r is Err && r->Err_0@ == "division by zero"@,
        b != 0 && i32::MIN <= trunc_div(a as int, b as int) <= i32::MAX ==> r == Ok::<i32, String>(trunc_div(a as int, b as int) as i32),
        b != 0 && !(i32::MIN <= trunc_div(a as int, b as int) <= i32::MAX) ==> r is Err && r->Err_0@ == "integer overflow in i32 division"@,
{
    if b == 0 {
        return Err(text("division by zero"));
    }
    match a.checked_div(b) {
        Some(v) => Ok(v),
        None => Err(text("integer overflow in i32 division")),
    }
}

/// `i32_negate`: `-a`, or an error where it does not fit.
pub fn i32_negate(a: i32) -> (r: Result<i32, String>)
    ensures
        a != i32::MIN ==> r == Ok::<i32, String>((-a) as i32),
        a == i32::MIN ==> r is Err && r->Err_0@ == "integer overflow in i32 negation"@,
{
    if a == i32::MIN {
        Err(text("integer overflow in i32 negation"))
    } else {
        Ok(-a)
    }
}

/// `i128_add`: `a + b`, or an error where it does not fit.
pub fn i128_add(a: i128, b: i128) -> (r: Result<i128, String>)
    ensures
        i128::MIN <= a + b <= i128::MAX ==> r == Ok::<i128, String>((a + b) as i128),
        !(i128::MIN <= a + b <= i128::MAX) ==> r is Err && r->Err_0@ == "integer overflow in i128 addition"@,
{
    match a.checked_add(b) {
        Some(v) => Ok(v),
        None => Err(text("integer overflow in i128 addition")),
    }
}

/// `i128_subtract`: `a - b`, or an error where it does not fit.
pub fn i128_subtract(a: i128, b: i128) -> (r: Result<i128, String>)
    ensures
        i128::MIN <= a - b <= i128::MAX ==> r == Ok::<i128, String>((a - b) as i128),
        !(i128::MIN <= a - b <= i128::MAX) ==> r is Err && r->Err_0@ == "integer overflow in i128 subtraction"@,
{
    match a.checked_sub(b) {
        Some(v) => Ok(v),
        None => Err(text("integer overflow in i128 subtraction")),
    }
}

/// `i128_times`: `a * b`, or an error where it does not fit.
pub fn i128_times(a: i128, b: i128) -> (r: Result<i128, String>)
    ensures
        i128::MIN <= a * b <= i128::MAX ==> r == Ok::<i128, String>((a * b) as i128),
        !(i128::MIN <= a * b <= i128::MAX) ==> r is Err && r->Err_0@ == "integer overflow in i128 multiplication"@,
{
    match a.checked_mul(b) {
        Some(v) => Ok(v),
        None => Err(text("integer overflow in i128 multiplication")),
    }
}

/// `i128_divided_by`: `a / b` rounded toward zero; an error for a zero
/// divisor or a quotient that does not fit.
pub fn i128_divided_by(a: i128, b: i128) -> (r: Result<i128, String>)
    ensures
        b == 0 ==> r is Err && r->Err_0@ == "division by zero"@,
        b != 0 && i128::MIN <= trunc_div(a as int, b as int) <= i128::MAX ==> r == Ok::<i128, String>(trunc_div(a as int, b as int) as i128),
        b != 0 && !(i128::MIN <= trunc_div(a as int, b as int) <= i128::MAX) ==> r is Err && r->Err_0@ == "integer overflow in i128 division"@,
{
    if b == 0 {
        return Err(text("division by zero"));
    }
    match a.checked_div(b) {
        Some(v) => Ok(v),
        None => Err(text("integer overflow in i128 division")),
    }
}

/// `i128_negate`: `-a`, or an error where it does not fit.
pub fn i128_negate(a: i128) -> (r: Result<i128, String>)
    ensures
        a != i128::MIN ==> r == Ok::<i128, String>((-a) as i128),
        a == i128::MIN ==> r is Err && r->Err_0@ == "integer overflow in i128 negation"@,
{
    if a == i128::MIN {
        Err(text("integer overflow in i128 negation"))
    } else {
        Ok(-a)
    }
}

/// `i8_add`: `a + b`, or an error where it does not fit.
pub fn i8_add(a: i8, b: i8) -> (r: Result<i8, String>)
    ensures
        i8::MIN <= a + b <= i8::MAX ==> r == Ok::<i8, String>((a + b) as i8),
        !(i8::MIN <= a + b <= i8::MAX) ==> r is Err && r->Err_0@ == "integer overflow in i8 addition"@,
{
    match a.checked_add(b) {
        Some(v) => Ok(v),
        None => Err(text("integer overflow in i8 addition")),
    }
}

/// `i8_subtract`: `a - b`, or an error where it does not fit.
pub fn i8_subtract(a: i8, b: i8) -> (r: Result<i8, String>)
    ensures
        i8::MIN <= a - b <= i8::MAX ==> r == Ok::<i8, String>((a - b) as i8),
        !(i8::MIN <= a - b <= i8::MAX) ==> r is Err && r->Err_0@ == "integer overflow in i8 subtraction"@,
{
    match a.checked_sub(b) {
        Some(v) => Ok(v),
        None => Err(text("integer overflow in i8 subtraction")),
    }
}

/// `i8_times`: `a * b`, or an error where it does not fit.
pub fn i8_times(a: i8, b: i8) -> (r: Result<i8, String>)
    ensures
        i8::MIN <= a * b <= i8::MAX ==> r == Ok::<i8, String>((a * b) as i8),
        !(i8::MIN <= a * b <= i8::MAX) ==> r is Err && r->Err_0@ == "integer overflow in i8 multiplication"@,
{
    match a.checked_mul(b) {
        Some(v) => Ok(v),
        None => Err(text("integer overflow in i8 multiplication")),
    }
}

/// `i8_divided_by`: `a / b` rounded toward zero; an error for a zero
/// divisor or a quotient that does not fit.
pub fn i8_divided_by(a: i8, b: i8) -> (r: Result<i8, String>)
    ensures
        b == 0 ==> r is Err && r->Err_0@ == "division by zero"@,
        b != 0 && i8::MIN <= trunc_div(a as int, b as int) <= i8::MAX ==> r == Ok::<i8, String>(trunc_div(a as int, b as int) as i8),
        b != 0 && !(i8::MIN <= trunc_div(a as int, b as int) <= i8::MAX) ==> r is Err && r->Err_0@ == "integer overflow in i8 division"@,
{
    if b == 0 {
        return Err(text("division by zero"));
    }
    match a.checked_div(b) {
        Some(v) => Ok(v),
        None => Err(text("integer overflow in i8 division")),
    }
}

/// `i8_negate`: `-a`, or an error where it does not fit.
pub fn i8_negate(a: i8) -> (r: Result<i8, String>)
    ensures
        a != i8::MIN ==> r == Ok::<i8, String>((-a) as i8),
        a == i8::MIN ==> r is Err && r->Err_0@ == "integer overflow in i8 negation"@,
{
    if a == i8::MIN {
        Err(text("integer overflow in i8 negation"))
    } else {
        Ok(-a)
    }
}

/// `i16_add`: `a + b`, or an error where it does not fit.
pub fn i16_add(a: i16, b: i16) -> (r: Result<i16, String>)
    ensures
        i16::MIN <= a + b <= i16::MAX ==> r == Ok::<i16, String>((a + b) as i16),
        !(i16::MIN <= a + b <= i16::MAX) ==> r is Err && r->Err_0@ == "integer overflow in i16 addition"@,
{
    match a.checked_add(b) {
        Some(v) => Ok(v),
        None => Err(text("integer overflow in i16 addition")),
    }
}

/// `i16_subtract`: `a - b`, or an error where it does not fit.
pub fn i16_subtract(a: i16, b: i16) -> (r: Result<i16, String>)
    ensures
        i16::MIN <= a - b <= i16::MAX ==> r == Ok::<i16, String>((a - b) as i16),
        !(i16::MIN <= a - b <= i16::MAX) ==> r is Err && r->Err_0@ == "integer overflow in i16 subtraction"@,
{
    match a.checked_sub(b) {
        Some(v) => Ok(v),
        None => Err(text("integer overflow in i16 subtraction")),
    }
}

/// `i16_times`: `a * b`, or an error where it does not fit.
pub fn i16_times(a: i16, b: i16) -> (r: Result<i16, String>)
    ensures
        i16::MIN <= a * b <= i16::MAX ==> r == Ok::<i16, String>((a * b) as i16),
        !(i16::MIN <= a * b <= i16::MAX) ==> r is Err && r->Err_0@ == "integer overflow in i16 multiplication"@,
{
    match a.checked_mul(b) {
        Some(v) => Ok(v),
        None => Err(text("integer overflow in i16 multiplication")),
    }
}

/// `i16_divided_by`: `a / b` rounded toward zero; an error for a zero
/// divisor or a quotient that does not fit.
pub fn i16_divided_by(a: i16, b: i16) -> (r: Result<i16, String>)
    ensures
        b == 0 ==> r is Err && r->Err_0@ == "division by zero"@,
        b != 0 && i16::MIN <= trunc_div(a as int, b as int) <= i16::MAX ==> r == Ok::<i16, String>(trunc_div(a as int, b as int) as i16),
        b != 0 && !(i16::MIN <= trunc_div(a as int, b as int) <= i16::MAX) ==> r is Err && r->Err_0@ == "integer overflow in i16 division"@,
{
    if b == 0 {
        return Err(text("division by zero"));
    }
    match a.checked_div(b) {
        Some(v) => Ok(v),
        None => Err(text("integer overflow in i16 division")),
    }
}

/// `i16_negate`: `-a`, or an error where it does not fit.
pub fn i16_negate(a: i16) -> (r: Result<i16, String>)
    ensures
        a != i16::MIN ==> r == Ok::<i16, String>((-a) as i16),
        a == i16::MIN ==> r is Err && r->Err_0@ == "integer overflow in i16 negation"@,
{
    if a == i16::MIN {
        Err(text("integer overflow in i16 negation"))
    } else {
        Ok(-a)
    }
}

/// `u128_add`: `a + b`, or an error where it does not fit.
pub fn u128_add(a: u128, b: u128) -> (r: Result<u128, String>)
    ensures
        u128::MIN <= a + b <= u128::MAX ==> r == Ok::<u128, String>((a + b) as u128),
        !(u128::MIN <= a + b <= u128::MAX) ==> r is Err && r->Err_0@ == "integer overflow in u128 addition"@,
{
    match a.checked_add(b) {
        Some(v) => Ok(v),
        None => Err(text("integer overflow in u128 addition")),
    }
}

/// `u128_subtract`: `a - b`, or an error where it does not fit.
pub fn u128_subtract(a: u128, b: u128) -> (r: Result<u128, String>)
    ensures
        u128::MIN <= a - b <= u128::MAX ==> r == Ok::<u128, String>((a - b) as u128),
        !(u128::MIN <= a - b <= u128::MAX) ==> r is Err && r->Err_0@ == "integer underflow in u128 subtraction"@,
{
    match a.checked_sub(b) {
        Some(v) => Ok(v),
        None => Err(text("integer underflow in u128 subtraction")),
    }
}

/// `u128_times`: `a * b`, or an error where it does not fit.
pub fn u128_times(a: u128, b: u128) -> (r: Result<u128, String>)
    ensures
        u128::MIN <= a * b <= u128::MAX ==> r == Ok::<u128, String>((a * b) as u128),
        !(u128::MIN <= a * b <= u128::MAX) ==> r is Err && r->Err_0@ == "integer overflow in u128 multiplication"@,
{
    match a.checked_mul(b) {
        Some(v) => Ok(v),
        None => Err(text("integer overflow in u128 multiplication")),
    }
}

/// `u128_divided_by`: `a / b` rounded down; an error for a zero divisor.
pub fn u128_divided_by(a: u128, b: u128) -> (r: Result<u128, String>)
    ensures
        b == 0 ==> r is Err && r->Err_0@ == "division by zero"@,
        b != 0 ==> r == Ok::<u128, String>(a / b),
{
    if b == 0 {
        Err(text("division by zero"))
    } else {
        Ok(a / b)
    }
}

/// `u8_add`: `a + b`, or an error where it does not fit.
pub fn u8_add(a: u8, b: u8) -> (r: Result<u8, String>)
    ensures
        u8::MIN <= a + b <= u8::MAX ==> r == Ok::<u8, String>((a + b) as u8),
        !(u8::MIN <= a + b <= u8::MAX) ==> r is Err && r->Err_0@ == "integer overflow in u8 addition"@,
{
    match a.checked_add(b) {
        Some(v) => Ok(v),
        None => Err(text("integer overflow in u8 addition")),
    }
}

/// `u8_subtract`: `a - b`, or an error where it does not fit.
pub fn u8_subtract(a: u8, b: u8) -> (r: Result<u8, String>)
    ensures
        u8::MIN <= a - b <= u8::MAX ==> r == Ok::<u8, String>((a - b) as u8),
        !(u8::MIN <= a - b <= u8::MAX) ==> r is Err && r->Err_0@ == "integer underflow in u8 subtraction"@,
{
    match a.checked_sub(b) {
        Some(v) => Ok(v),
        None => Err(text("integer underflow in u8 subtraction")),
    }
}

/// `u8_times`: `a * b`, or an error where it does not fit.
pub fn u8_times(a: u8, b: u8) -> (r: Result<u8, String>)
    ensures
        u8::MIN <= a * b <= u8::MAX ==> r == Ok::<u8, String>((a * b) as u8),
        !(u8::MIN <= a * b <= u8::MAX) ==> r is Err && r->Err_0@ == "integer overflow in u8 multiplication"@,
{
    match a.checked_mul(b) {
        Some(v) => Ok(v),
        None => Err(text("integer overflow in u8 multiplication")),
    }
}

/// `u8_divided_by`: `a / b` rounded down; an error for a zero divisor.
pub fn u8_divided_by(a: u8, b: u8) -> (r: Result<u8, String>)
    ensures
        b == 0 ==> r is Err && r->Err_0@ == "division by zero"@,
        b != 0 ==> r == Ok::<u8, String>(a / b),
{
    if b == 0 {
        Err(text("division by zero"))
    } else {
        Ok(a / b)
    }
}

/// `u16_add`: `a + b`, or an error where it does not fit.
pub fn u16_add(a: u16, b: u16) -> (r: Result<u16, String>)
    ensures
        u16::MIN <= a + b <= u16::MAX ==> r == Ok::<u16, String>((a + b) as u16),
        !(u16::MIN <= a + b <= u16::MAX) ==> r is Err && r->Err_0@ == "integer overflow in u16 addition"@,
{
    match a.checked_add(b) {
        Some(v) => Ok(v),
        None => Err(text("integer overflow in u16 addition")),
    }
}

/// `u16_subtract`: `a - b`, or an error where it does not fit.
pub fn u16_subtract(a: u16, b: u16) -> (r: Result<u16, String>)
    ensures
        u16::MIN <= a - b <= u16::MAX ==> r == Ok::<u16, String>((a - b) as u16),
        !(u16::MIN <= a - b <= u16::MAX) ==> r is Err && r->Err_0@ == "integer underflow in u16 subtraction"@,
{
    match a.checked_sub(b) {
        Some(v) => Ok(v),
        None => Err(text("integer underflow in u16 subtraction")),
    }
}

/// `u16_times`: `a * b`, or an error where it does not fit.
pub fn u16_times(a: u16, b: u16) -> (r: Result<u16, String>)
    ensures
        u16::MIN <= a * b <= u16::MAX ==> r == Ok::<u16, String>((a * b) as u16),
        !(u16::MIN <= a * b <= u16::MAX) ==> r is Err && r->Err_0@ == "integer overflow in u16 multiplication"@,
{
    match a.checked_mul(b) {
        Some(v) => Ok(v),
        None => Err(text("integer overflow in u16 multiplication")),
    }
}

/// `u16_divided_by`: `a / b` rounded down; an error for a zero divisor.
pub fn u16_divided_by(a: u16, b: u16) -> (r: Result<u16, String>)
    ensures
        b == 0 ==> r is Err && r->Err_0@ == "division by zero"@,
        b != 0 ==> r == Ok::<u16, String>(a / b),
{
    if b == 0 {
        Err(text("division by zero"))
    } else {
        Ok(a / b)
    }
}

/// `u32_add`: `a + b`, or an error where it does not fit.
pub fn u32_add(a: u32, b: u32) -> (r: Result<u32, String>)
    ensures
        u32::MIN <= a + b <= u32::MAX ==> r == Ok::<u32, String>((a + b) as u32),
        !(u32::MIN <= a + b <= u32::MAX) ==> r is Err && r->Err_0@ == "integer overflow in u32 addition"@,
{
    match a.checked_add(b) {
        Some(v) => Ok(v),
        None => Err(text("integer overflow in u32 addition")),
    }
}

/// `u32_subtract`: `a - b`, or an error where it does not fit.
pub fn u32_subtract(a: u32, b: u32) -> (r: Result<u32, String>)
    ensures
        u32::MIN <= a - b <= u32::MAX ==> r == Ok::<u32, String>((a - b) as u32),
        !(u32::MIN <= a - b <= u32::MAX) ==> r is Err && r->Err_0@ == "integer underflow in u32 subtraction"@,
{
    match a.checked_sub(b) {
        Some(v) => Ok(v),
        None => Err(text("integer underflow in u32 subtraction")),
    }
}

/// `u32_times`: `a * b`, or an error where it does not fit.
pub fn u32_times(a: u32, b: u32) -> (r: Result<u32, String>)
    ensures
        u32::MIN <= a * b <= u32::MAX ==> r == Ok::<u32, String>((a * b) as u32),
        !(u32::MIN <= a * b <= u32::MAX) ==> r is Err && r->Err_0@ == "integer overflow in u32 multiplication"@,
{
    match a.checked_mul(b) {
        Some(v) => Ok(v),
        None => Err(text("integer overflow in u32 multiplication")),
    }
}

/// `u32_divided_by`: `a / b` rounded down; an error for a zero divisor.
pub fn u32_divided_by(a: u32, b: u32) -> (r: Result<u32, String>)
    ensures
        b == 0 ==> r is Err && r->Err_0@ == "division by zero"@,
        b != 0 ==> r == Ok::<u32, String>(a / b),
{
    if b == 0 {
        Err(text("division by zero"))
    } else {
        Ok(a / b)
    }
}

/// `u64_add`: `a + b`, or an error where it does not fit.
pub fn u64_add(a: u64, b: u64) -> (r: Result<u64, String>)
    ensures
        u64::MIN <= a + b <= u64::MAX ==> r == Ok::<u64, String>((a + b) as u64),
        !(u64::MIN <= a + b <= u64::MAX) ==> r is Err && r->Err_0@ == "integer overflow in u64 addition"@,
{
    match a.checked_add(b) {
        Some(v) => Ok(v),
        None => Err(text("integer overflow in u64 addition")),
    }
}

/// `u64_subtract`: `a - b`, or an error where it does not fit.
pub fn u64_subtract(a: u64, b: u64) -> (r: Result<u64, String>)
    ensures
        u64::MIN <= a - b <= u64::MAX ==> r == Ok::<u64, String>((a - b) as u64),
        !(u64::MIN <= a - b <= u64::MAX) ==> r is Err && r->Err_0@ == "integer underflow in u64 subtraction"@,
{
    match a.checked_sub(b) {
        Some(v) => Ok(v),
        None => Err(text("integer underflow in u64 subtraction")),
    }
}

/// `u64_times`: `a * b`, or an error where it does not fit.
pub fn u64_times(a: u64, b: u64) -> (r: Result<u64, String>)
    ensures
        u64::MIN <= a * b <= u64::MAX ==> r == Ok::<u64, String>((a * b) as u64),
        !(u64::MIN <= a * b <= u64::MAX) ==> r is Err && r->Err_0@ == "integer overflow in u64 multiplication"@,
{
    match a.checked_mul(b) {
        Some(v) => Ok(v),
        None => Err(text("integer overflow in u64 multiplication")),
    }
}

/// `u64_divided_by`: `a / b` rounded down; an error for a zero divisor.
pub fn u64_divided_by(a: u64, b: u64) -> (r: Result<u64, String>)
    ensures
        b == 0 ==> r is Err && r->Err_0@ == "division by zero"@,
        b != 0 ==> r == Ok::<u64, String>(a / b),
{
    if b == 0 {
        Err(text("division by zero"))
    } else {
        Ok(a / b)
    }
}

/// The error of a conversion whose value does not fit the target type:
/// `what`, then ": value ", the value in decimal and " out of range".
pub open spec fn range_error(what: Seq<char>, n: int) -> Seq<char> {
    what + ": value "@ + signed_decimal(n) + " out of range"@
}

fn range_message(what: &str, n: i128) -> (r: String)
    ensures
        r@ == range_error(what@, n as int),
{
    let mut s = concat(what, ": value ");
    let digits = i128_decimal(n);
    push_str(&mut s, digits.as_str());
    push_str(&mut s, " out of range");
    s
}

/// An `int` as a `i32`, as `i32(n)` and `n.to_i32()` give it: the same value
/// where it fits, otherwise the range error that names `what`.
pub fn int_to_i32(n: i64, what: &str) -> (r: Result<i32, String>)
    ensures
        i32::MIN <= n <= i32::MAX ==> r == Ok::<i32, String>(n as i32),
        !(i32::MIN <= n <= i32::MAX) ==> r is Err && r->Err_0@ == range_error(what@, n as int),
{
    if i32::MIN as i64 <= n && n <= i32::MAX as i64 {
        Ok(n as i32)
    } else {
        Err(range_message(what, n as i128))
    }
}

/// An `int` as a `i8`, as `i8(n)` and `n.to_i8()` give it: the same value
/// where it fits, otherwise the range error that names `what`.
pub fn int_to_i8(n: i64, what: &str) -> (r: Result<i8, String>)
    ensures
        i8::MIN <= n <= i8::MAX ==> r == Ok::<i8, String>(n as i8),
        !(i8::MIN <= n <= i8::MAX) ==> r is Err && r->Err_0@ == range_error(what@, n as int),
{
    if i8::MIN as i64 <= n && n <= i8::MAX as i64 {
        Ok(n as i8)
    } else {
        Err(range_message(what, n as i128))
    }
}

/// An `int` as a `i16`, as `i16(n)` and `n.to_i16()` give it: the same value
/// where it fits, otherwise the range error that names `what`.
pub fn int_to_i16(n: i64, what: &str) -> (r: Result<i16, String>)
    ensures
        i16::MIN <= n <= i16::MAX ==> r == Ok::<i16, String>(n as i16),
        !(i16::MIN <= n <= i16::MAX) ==> r is Err && r->Err_0@ == range_error(what@, n as int),
{
    if i16::MIN as i64 <= n && n <= i16::MAX as i64 {
        Ok(n as i16)
    } else {
        Err(range_message(what, n as i128))
    }
}

/// An `int` as a `u8`, as `u8(n)` and `n.to_u8()` give it: the same value
/// where it fits, otherwise the range error that names `what`.
pub fn int_to_u8(n: i64, what: &str) -> (r: Result<u8, String>)
    ensures
        0 <= n <= u8::MAX ==> r == Ok::<u8, String>(n as u8),
        !(0 <= n <= u8::MAX) ==> r is Err && r->Err_0@ == range_error(what@, n as int),
{
    if 0 <= n && n <= u8::MAX as i64 {
        Ok(n as u8)
    } else {
        Err(range_message(what, n as i128))
    }
}

/// An `int` as a `u16`, as `u16(n)` and `n.to_u16()` give it: the same value
/// where it fits, otherwise the range error that names `what`.
pub fn int_to_u16(n: i64, what: &str) -> (r: Result<u16, String>)
    ensures
        0 <= n <= u16::MAX ==> r == Ok::<u16, String>(n as u16),
        !(0 <= n <= u16::MAX) ==> r is Err && r->Err_0@ == range_error(what@, n as int),
{
    if 0 <= n && n <= u16::MAX as i64 {
        Ok(n as u16)
    } else {
        Err(range_message(what, n as i128))
    }
}

/// An `int` as a `u32`, as `u32(n)` and `n.to_u32()` give it: the same value
/// where it fits, otherwise the range error that names `what`.
pub fn int_to_u32(n: i64, what: &str) -> (r: Result<u32, String>)
    ensures
        0 <= n <= u32::MAX ==> r == Ok::<u32, String>(n as u32),
        !(0 <= n <= u32::MAX) ==> r is Err && r->Err_0@ == range_error(what@, n as int),
{
    if 0 <= n && n <= u32::MAX as i64 {
        Ok(n as u32)
    } else {
        Err(range_message(what, n as i128))
    }
}

/// An `int` as a `u64`, as `u64(n)` and `n.to_u64()` give it: the same value
/// where it fits, otherwise the range error that names `what`.
pub fn int_to_u64(n: i64, what: &str) -> (r: Result<u64, String>)
    ensures
        0 <= n ==> r == Ok::<u64, String>(n as u64),
        !(0 <= n) ==> r is Err && r->Err_0@ == range_error(what@, n as int),
{
    if 0 <= n {
        Ok(n as u64)
    } else {
        Err(range_message(what, n as i128))
    }
}

/// An `int` as a `u128`, as `u128(n)` and `n.to_u128()` give it: the same value
/// where it fits, otherwise the range error that names `what`.
pub fn int_to_u128(n: i64, what: &str) -> (r: Result<u128, String>)
    ensures
        0 <= n ==> r == Ok::<u128, String>(n as u128),
        !(0 <= n) ==> r is Err && r->Err_0@ == range_error(what@, n as int),
{
    if 0 <= n {
        Ok(n as u128)
    } else {
        Err(range_message(what, n as i128))
    }
}

/// An `int` as a byte, as `byte(n)` and `n.to_byte()` give it: the same
/// value where it lies in 0..=255, otherwise the range error that names
/// `what`, followed by " (0..255)".
pub fn int_to_byte(n: i64, what: &str) -> (r: Result<u8, String>)
    ensures
        0 <= n <= 255 ==> r == Ok::<u8, String>(n as u8),
        !(0 <= n <= 255) ==> r is Err && r->Err_0@ == range_error(what@, n as int) + " (0..255)"@,
{
    if 0 <= n && n <= 255 {
        Ok(n as u8)
    } else {
        let mut s = range_message(what, n as i128);
        push_str(&mut s, " (0..255)");
        Err(s)
    }
}

/// The error of a conversion of an unsigned value that does not fit the
/// target type: `what`, then ": value ", the value in decimal and
/// " out of range".
pub open spec fn unsigned_range_error(what: Seq<char>, n: nat) -> Seq<char> {
    what + ": value "@ + decimal(n) + " out of range"@
}

fn unsigned_range_message(what: &str, n: u128) -> (r: String)
    ensures
        r@ == unsigned_range_error(what@, n as nat),
{
    let mut s = concat(what, ": value ");
    let digits = u128_decimal(n);
    push_str(&mut s, digits.as_str());
    push_str(&mut s, " out of range");
    s
}

/// An `i128` as an `int` (`a.to_int()`): the same value where it fits,
/// otherwise the range error of `to_int`.
pub fn i128_to_i64(a: i128) -> (r: Result<i64, String>)
    ensures
        i64::MIN <= a <= i64::MAX ==> r == Ok::<i64, String>(a as i64),
        !(i64::MIN <= a <= i64::MAX) ==> r is Err && r->Err_0@ == range_error("to_int"@, a as int),
{
    if i64::MIN as i128 <= a && a <= i64::MAX as i128 {
        Ok(a as i64)
    } else {
        Err(range_message("to_int", a))
    }
}

/// An `i128` as an `i32` (`a.to_i32()`): the same value where it fits,
/// otherwise the range error of `to_i32`.
pub fn i128_to_i32(a: i128) -> (r: Result<i32, String>)
    ensures
        i32::MIN <= a <= i32::MAX ==> r == Ok::<i32, String>(a as i32),
        !(i32::MIN <= a <= i32::MAX) ==> r is Err && r->Err_0@ == range_error("to_i32"@, a as int),
{
    if i32::MIN as i128 <= a && a <= i32::MAX as i128 {
        Ok(a as i32)
    } else {
        Err(range_message("to_i32", a))
    }
}

/// An `i128` as a `u128` (`a.to_u128()`): the same value where it fits,
/// otherwise the range error of `to_u128`.
pub fn i128_to_u128(a: i128) -> (r: Result<u128, String>)
    ensures
        0 <= a ==> r == Ok::<u128, String>(a as u128),
        !(0 <= a) ==> r is Err && r->Err_0@ == range_error("to_u128"@, a as int),
{
    if 0 <= a {
        Ok(a as u128)
    } else {
        Err(range_message("to_u128", a))
    }
}

/// An `u128` as an `int` (`a.to_int()`): the same value where it fits,
/// otherwise the range error of `to_int`.
pub fn u128_to_i64(a: u128) -> (r: Result<i64, String>)
    ensures
        a <= i64::MAX ==> r == Ok::<i64, String>(a as i64),
        !(a <= i64::MAX) ==> r is Err && r->Err_0@ == unsigned_range_error("to_int"@, a as nat),
{
    if a <= i64::MAX as u128 {
        Ok(a as i64)
    } else {
        Err(unsigned_range_message("to_int", a))
    }
}

/// An `u128` as an `i32` (`a.to_i32()`): the same value where it fits,
/// otherwise the range error of `to_i32`.
pub fn u128_to_i32(a: u128) -> (r: Result<i32, String>)
    ensures
        a <= i32::MAX ==> r == Ok::<i32, String>(a as i32),
        !(a <= i32::MAX) ==> r is Err && r->Err_0@ == unsigned_range_error("to_i32"@, a as nat),
{
    if a <= i32::MAX as u128 {
        Ok(a as i32)
    } else {
        Err(unsigned_range_message("to_i32", a))
    }
}

/// An `u128` as an `i128` (`a.to_i128()`): the same value where it fits,
/// otherwise the range error of `to_i128`.
pub fn u128_to_i128(a: u128) -> (r: Result<i128, String>)
    ensures
        a <= i128::MAX ==> r == Ok::<i128, String>(a as i128),
        !(a <= i128::MAX) ==> r is Err && r->Err_0@ == unsigned_range_error("to_i128"@, a as nat),
{
    if a <= i128::MAX as u128 {
        Ok(a as i128)
    } else {
        Err(unsigned_range_message("to_i128", a))
    }
}

/// Whether `n` is the code point of a character: a Unicode scalar value,
/// neither a surrogate nor above U+10FFFF.
pub open spec fn is_code_point(n: int) -> bool {
    (0 <= n <= 0xD7FF) || (0xE000 <= n <= 0x10FFFF)
}

/// The error of converting an `int` that is not a character's code point:
/// a negative value, or a value that is not a Unicode scalar value.
pub open spec fn char_error(what: Seq<char>, n: int) -> Seq<char> {
    if n < 0 {
        what + ": negative value "@ + signed_decimal(n)
    } else {
        what + ": value "@ + decimal(n as nat) + " is not a valid Unicode scalar value"@
    }
}

/// An `int` as a character, as `char(n)` and `n.to_char()` give it: the
/// character whose code point is `n` where `n` is a Unicode scalar value,
/// otherwise the error that names `what` and the value.
pub fn int_to_char(n: i64, what: &str) -> (r: Result<char, String>)
    ensures
        is_code_point(n as int) ==> r is Ok && r->Ok_0 as int == n as int,
        !is_code_point(n as int) ==> r is Err && r->Err_0@ == char_error(what@, n as int),
{
    if n < 0 {
        let mut s = concat(what, ": negative value ");
        let d = i64_decimal(n);
        push_str(&mut s, d.as_str());
        return Err(s);
    }
    let c = if n <= 0x10FFFF {
        char_from_u32(n as u32)
    } else {
        None
    };
    match c {
        Some(c) => Ok(c),
        None => {
            let mut s = concat(what, ": value ");
            let d = u64_decimal(n as u64);
            push_str(&mut s, d.as_str());
            push_str(&mut s, " is not a valid Unicode scalar value");
            Err(s)
        },
    }
}

} // verus!
