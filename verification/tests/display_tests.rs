use nana::display::{
    byte_literal, integer_literal, quote_char, quote_str, unsigned_literal, unused_warnings,
};
use nana::text::{i128_decimal, i64_decimal, u128_decimal};

#[test]
fn strings_are_quoted_with_escapes() {
    assert_eq!(quote_str("hi"), "\"hi\"");
    assert_eq!(quote_str("a\"b\\c\n\t\r\0"), "\"a\\\"b\\\\c\\n\\t\\r\\0\"");
    assert_eq!(quote_str(""), "\"\"");
    assert_eq!(quote_str("héllo"), "\"héllo\"");
}

#[test]
fn chars_are_quoted_with_escapes() {
    assert_eq!(quote_char('a'), "'a'");
    assert_eq!(quote_char('\''), "'\\''");
    assert_eq!(quote_char('\\'), "'\\\\'");
    assert_eq!(quote_char('\n'), "'\\n'");
    assert_eq!(quote_char('"'), "'\"'");
}

#[test]
fn bytes_are_written_as_byte_literals() {
    assert_eq!(byte_literal(b'a'), "b'a'");
    assert_eq!(byte_literal(0), "b'\\0'");
    assert_eq!(byte_literal(b'\''), "b'\\''");
    assert_eq!(byte_literal(0x7f), "b'\\x7f'");
    assert_eq!(byte_literal(0xff), "b'\\xff'");
    assert_eq!(byte_literal(0x1b), "b'\\x1b'");
}

#[test]
fn only_unused_user_bindings_are_reported() {
    let bindings = vec![
        ("x".to_string(), false, false),
        ("y".to_string(), false, true),
        ("_z".to_string(), false, false),
        ("\0".to_string(), false, false),
        ("print".to_string(), true, false),
        ("w".to_string(), false, false),
    ];
    assert_eq!(
        unused_warnings(&bindings),
        vec!["warning: unused binding 'x'".to_string(), "warning: unused binding 'w'".to_string()]
    );
}

#[test]
fn integers_are_written_with_their_suffix() {
    assert_eq!(integer_literal(42, "i32"), "42i32");
    assert_eq!(integer_literal(-7, "i8"), "-7i8");
    assert_eq!(integer_literal(0, "u16"), "0u16");
    assert_eq!(integer_literal(i128::MIN, "i128"), "-170141183460469231731687303715884105728i128");
    assert_eq!(unsigned_literal(u128::MAX, "u128"), "340282366920938463463374607431768211455u128");
}

#[test]
fn decimals_match_std_formatting() {
    for n in [0i64, 9, 10, -1, 12345, i64::MIN, i64::MAX] {
        assert_eq!(i64_decimal(n), n.to_string());
    }
    for n in [0i128, -10, 99, i128::MIN, i128::MAX] {
        assert_eq!(i128_decimal(n), n.to_string());
    }
    for n in [0u128, 7, 1000, u128::MAX] {
        assert_eq!(u128_decimal(n), n.to_string());
    }
}

#[test]
fn whitespace_matches_std() {
    for c in ['\t', '\n', '\x0b', '\x0c', '\r', ' ', '\u{85}', '\u{a0}', '\u{1680}', '\u{2000}', '\u{200a}',
              '\u{2028}', '\u{2029}', '\u{202f}', '\u{205f}', '\u{3000}', 'a', '0', '\u{200b}', '\u{feff}', '\u{1f}'] {
        assert_eq!(nana::text::char_is_whitespace(c), c.is_whitespace(), "{:?}", c);
    }
    for n in 0u32..0x3100 {
        if let Some(c) = char::from_u32(n) {
            assert_eq!(nana::text::char_is_whitespace(c), c.is_whitespace(), "{:?}", c);
        }
    }
}

#[test]
fn debug_text_of_strings_and_chars() {
    assert_eq!(nana::text::str_debug_text("a'b\"c\\\n\t\u{301}"), format!("{:?}", "a'b\"c\\\n\t\u{301}"));
    for c in ['a', '\'', '"', '\n', '\0', '\u{301}', 'é'] {
        assert_eq!(nana::text::char_debug_text(c), format!("{:?}", c));
    }
}
