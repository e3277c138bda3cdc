use nana::bounds::{checked_index, checked_range, string_slice};

#[test]
fn index_within_bounds() {
    assert_eq!(checked_index(0, 3, "negative array index: ", "array index ", "len"), Ok(0));
    assert_eq!(checked_index(2, 3, "negative array index: ", "array index ", "len"), Ok(2));
}

#[test]
fn index_errors_name_the_index_and_length() {
    assert_eq!(
        checked_index(-4, 3, "negative array index: ", "array index ", "len"),
        Err("negative array index: -4".to_string())
    );
    assert_eq!(
        checked_index(3, 3, "negative array index: ", "array index ", "len"),
        Err("array index 3 out of bounds (len 3)".to_string())
    );
    assert_eq!(
        checked_index(10, 0, "byte_get: negative index: ", "byte_get: index ", "byte_len"),
        Err("byte_get: index 10 out of bounds (byte_len 0)".to_string())
    );
}

#[test]
fn ranges_within_bounds() {
    assert_eq!(checked_range(1, 3, 5, "len"), Ok((1, 3)));
    assert_eq!(checked_range(5, 5, 5, "len"), Ok((5, 5)));
}

#[test]
fn range_errors() {
    assert_eq!(checked_range(-1, 2, 5, "len"), Err("slice: negative index".to_string()));
    assert_eq!(checked_range(1, -2, 5, "len"), Err("slice: negative index".to_string()));
    assert_eq!(checked_range(3, 2, 5, "len"), Err("slice: indices 3..2 out of bounds (len 5)".to_string()));
    assert_eq!(checked_range(0, 6, 5, "len"), Err("slice: indices 0..6 out of bounds (len 5)".to_string()));
}

#[test]
fn string_slices_by_bytes() {
    assert_eq!(string_slice("hello", 1, 3), Ok("el".to_string()));
    assert_eq!(string_slice("héllo", 0, 3), Ok("hé".to_string()));
    assert_eq!(string_slice("héllo", 3, 3), Ok(String::new()));
    assert_eq!(
        string_slice("héllo", 0, 2),
        Err("slice: index is not on a UTF-8 character boundary".to_string())
    );
    assert_eq!(
        string_slice("héllo", 1, 9),
        Err("slice: indices 1..9 out of bounds (byte_len 6)".to_string())
    );
    assert_eq!(string_slice("abc", -1, 2), Err("slice: negative index".to_string()));
}
