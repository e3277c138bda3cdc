//! Character and string helpers shared by the lexer, the parser and the
//! type checker: decimal formatting and parsing, ASCII classes, and the
//! few `std` string operations that vstd leaves unspecified.
use vstd::prelude::*;

verus! {

/// The character for a decimal digit value `d < 10`.
pub open spec fn digit_char(d: nat) -> char {
    (d + 48) as char
}

/// The decimal representation of `n`, most significant digit first,
/// without leading zeros (the representation of 0 is "0").
pub open spec fn decimal(n: nat) -> Seq<char>
    decreases n,
{
    if n < 10 {
        seq![digit_char(n)]
    } else {
        decimal(n / 10).push(digit_char(n % 10))
    }
}

proof fn lemma_decimal_len(n: nat)
    ensures
        decimal(n).len() >= 1,
        n < 10 ==> decimal(n).len() == 1,
        n >= 10 ==> decimal(n).len() >= 2,
    decreases n,
{
    if n >= 10 {
        lemma_decimal_len(n / 10);
    }
}

/// Different numbers have different decimal representations.
pub proof fn lemma_decimal_injective(a: nat, b: nat)
    requires
        decimal(a) == decimal(b),
    ensures
        a == b,
    decreases a,
{
    lemma_decimal_len(a);
    lemma_decimal_len(b);
    let da = decimal(a);
    if a < 10 && b < 10 {
        assert(da[0] == digit_char(a));
        assert(decimal(b)[0] == digit_char(b));
        assert((a + 48) as char == (b + 48) as char);
        assert(((a + 48) as char) as int == a + 48);
        assert(((b + 48) as char) as int == b + 48);
    } else if a >= 10 && b >= 10 {
        assert(da.last() == digit_char(a % 10));
        assert(decimal(b).last() == digit_char(b % 10));
        assert(((a % 10 + 48) as char) as int == a % 10 + 48);
        assert(((b % 10 + 48) as char) as int == b % 10 + 48);
        assert(da.drop_last() == decimal(a / 10));
        assert(decimal(b).drop_last() == decimal(b / 10));
        lemma_decimal_injective(a / 10, b / 10);
    }
}

/// The decimal representation of a signed integer: a `-` sign before the
/// digits of its magnitude when it is negative.
pub open spec fn signed_decimal(n: int) -> Seq<char> {
    if n < 0 {
        seq!['-'] + decimal((-n) as nat)
    } else {
        decimal(n as nat)
    }
}

pub open spec fn is_ascii_digit(c: char) -> bool {
    '0' <= c <= '9'
}

pub open spec fn is_ascii_hexdigit(c: char) -> bool {
    ||| '0' <= c <= '9'
    ||| 'a' <= c <= 'f'
    ||| 'A' <= c <= 'F'
}

/// Whether every character of `s` is an ASCII decimal digit.
pub open spec fn all_digits(s: Seq<char>) -> bool {
    forall|i: int| 0 <= i < s.len() ==> is_ascii_digit(#[trigger] s[i])
}

/// The value of a string of decimal digits.
pub open spec fn digits_value(s: Seq<char>) -> nat
    decreases s.len(),
{
    if s.len() == 0 {
        0
    } else {
        digits_value(s.drop_last()) * 10 + ((s.last() as nat) - 48) as nat
    }
}

/// What `str::parse::<u64>` yields: an optional `+` followed by at least one
/// decimal digit, whose value must fit in a `u64`.
pub open spec fn parse_u64_spec(s: Seq<char>) -> Option<u64> {
    let d = if s.len() > 0 && s[0] == '+' { s.drop_first() } else { s };
    if d.len() > 0 && all_digits(d) && digits_value(d) <= u64::MAX {
        Some(digits_value(d) as u64)
    } else {
        None
    }
}

pub fn char_is_ascii_digit(c: char) -> (r: bool)
    ensures
        r == is_ascii_digit(c),
{
    '0' <= c && c <= '9'
}

pub fn char_is_ascii_hexdigit(c: char) -> (r: bool)
    ensures
        r == is_ascii_hexdigit(c),
{
    ('0' <= c && c <= '9') || ('a' <= c && c <= 'f') || ('A' <= c && c <= 'F')
}

/// Whether a character has the Unicode `White_Space` property: the ASCII
/// tab, line feed, vertical tab, form feed, carriage return and space, and
/// U+0085, U+00A0, U+1680, U+2000 to U+200A, U+2028, U+2029, U+202F,
/// U+205F and U+3000.
pub open spec fn unicode_white_space(c: char) -> bool {
    ||| '\t' <= c <= '\r'
    ||| c == ' '
    ||| c == '\u{85}'
    ||| c == '\u{a0}'
    ||| c == '\u{1680}'
    ||| '\u{2000}' <= c <= '\u{200a}'
    ||| c == '\u{2028}'
    ||| c == '\u{2029}'
    ||| c == '\u{202f}'
    ||| c == '\u{205f}'
    ||| c == '\u{3000}'
}

/// Whether a character has the Unicode `Alphabetic` property.
pub uninterp spec fn unicode_alphabetic(c: char) -> bool;

/// Whether a character is numeric in the sense of Unicode (general
/// category `Nd`, `Nl` or `No`).
pub uninterp spec fn unicode_numeric(c: char) -> bool;

/// Whether a character is alphabetic or numeric in the sense of Unicode.
pub open spec fn unicode_alphanumeric(c: char) -> bool {
    unicode_alphabetic(c) || unicode_numeric(c)
}

pub open spec fn is_ascii_letter(c: char) -> bool {
    'a' <= c <= 'z' || 'A' <= c <= 'Z'
}

/// Whether `c` is white space, as `char::is_whitespace` decides it.
pub fn char_is_whitespace(c: char) -> (r: bool)
    ensures
        r == unicode_white_space(c),
{
    ('\t' <= c && c <= '\r') || c == ' ' || c == '\u{85}' || c == '\u{a0}' || c == '\u{1680}'
        || ('\u{2000}' <= c && c <= '\u{200a}') || c == '\u{2028}' || c == '\u{2029}'
        || c == '\u{202f}' || c == '\u{205f}' || c == '\u{3000}'
}

/// Calls `char::is_alphabetic`, whose result depends on the character only.
/// Among ASCII characters exactly the letters have the `Alphabetic`
/// property.
#[verifier::external_body]
pub(crate) fn char_is_alphabetic(c: char) -> (r: bool)
    ensures
        r == unicode_alphabetic(c),
        c < '\u{80}' ==> (r <==> is_ascii_letter(c)),
{
    c.is_alphabetic()
}

/// Calls `char::is_alphanumeric`, which is documented as
/// `is_alphabetic() || is_numeric()`; the numeric part is a function of the
/// character only. Among ASCII characters exactly the letters and the
/// decimal digits are alphabetic or numeric.
#[verifier::external_body]
pub(crate) fn char_is_alphanumeric(c: char) -> (r: bool)
    ensures
        r == (unicode_alphabetic(c) || unicode_numeric(c)),
        c < '\u{80}' ==> (r <==> (is_ascii_letter(c) || is_ascii_digit(c))),
{
    c.is_alphanumeric()
}

/// A copy of `s` as an owned `String`.
pub fn text(s: &str) -> (r: String)
    ensures
        r@ == s@,
{
    broadcast use vstd::string::to_string_from_display_ensures_for_str;

    s.to_string()
}

/// Appends a character. Calls `String::push`, which appends `c` to the end.
#[verifier::external_body]
pub(crate) fn push_char(s: &mut String, c: char)
    ensures
        final(s)@ == old(s)@.push(c),
{
    s.push(c)
}

/// Appends a string. Calls `String::push_str`, which appends `t` to the end.
#[verifier::external_body]
pub(crate) fn push_str(s: &mut String, t: &str)
    ensures
        final(s)@ == old(s)@ + t@,
{
    s.push_str(t)
}

/// The characters of a string. Calls `str::chars` and collects the
/// characters in order into a vector.
#[verifier::external_body]
pub(crate) fn chars_of(s: &str) -> (r: Vec<char>)
    ensures
        r@ == s@,
{
    s.chars().collect()
}

/// What `char::escape_debug` gives for `c`: the character itself, or the
/// escape sequence the `Debug` formats of `str` and `char` print for it.
pub uninterp spec fn char_escape_debug(c: char) -> Seq<char>;

/// Calls `char::escape_debug` and collects the characters it yields; the
/// contract claims only that they are a function of `c`.
#[verifier::external_body]
fn escape_debug_of(c: char) -> (r: String)
    ensures
        r@ == char_escape_debug(c),
{
    c.escape_debug().collect()
}

/// `c` inside the `Debug` text of a string: escaped as `char::escape_debug`
/// escapes it, except that a single quote stays as it is.
pub open spec fn str_debug_char(c: char) -> Seq<char> {
    if c == '\'' {
        seq!['\'']
    } else {
        char_escape_debug(c)
    }
}

pub open spec fn str_debug_body(s: Seq<char>) -> Seq<char>
    decreases s.len(),
{
    if s.len() == 0 {
        seq![]
    } else {
        str_debug_body(s.drop_last()) + str_debug_char(s.last())
    }
}

/// The `Debug` text of a string: in double quotes, each character escaped.
pub open spec fn str_debug(s: Seq<char>) -> Seq<char> {
    seq!['"'] + str_debug_body(s) + seq!['"']
}

/// The `Debug` text of a character: in single quotes, escaped as
/// `char::escape_debug` escapes it, except that a double quote stays as it is.
pub open spec fn char_debug(c: char) -> Seq<char> {
    seq!['\''] + (if c == '"' { seq!['"'] } else { char_escape_debug(c) }) + seq!['\'']
}

/// The `Debug` text of a string, as `format!("{:?}", s)` prints it.
pub fn str_debug_text(s: &str) -> (r: String)
    ensures
        r@ == str_debug(s@),
{
    let cs = chars_of(s);
    let mut out = String::new();
    push_char(&mut out, '"');
    let mut i: usize = 0;
    while i < cs.len()
        invariant
            i <= cs.len(),
            cs@ == s@,
            out@ == seq!['"'] + str_debug_body(cs@.take(i as int)),
        decreases cs.len() - i,
    {
        proof {
            assert(cs@.take(i + 1).drop_last() =~= cs@.take(i as int));
        }
        let c = cs[i];
        if c == '\'' {
            push_char(&mut out, c);
        } else {
            let e = escape_debug_of(c);
            push_str(&mut out, e.as_str());
        }
        i = i + 1;
        assert(out@ =~= seq!['"'] + str_debug_body(cs@.take(i as int)));
    }
    push_char(&mut out, '"');
    assert(cs@.take(cs.len() as int) =~= cs@);
    assert(out@ =~= str_debug(s@));
    out
}

/// The `Debug` text of a character, as `format!("{:?}", c)` prints it.
pub fn char_debug_text(c: char) -> (r: String)
    ensures
        r@ == char_debug(c),
{
    let mut out = String::new();
    push_char(&mut out, '\'');
    if c == '"' {
        push_char(&mut out, c);
    } else {
        let e = escape_debug_of(c);
        push_str(&mut out, e.as_str());
    }
    push_char(&mut out, '\'');
    assert(out@ =~= char_debug(c));
    out
}

/// Whether `u` is a Unicode scalar value: a code point that is neither a
/// surrogate nor above U+10FFFF.
pub open spec fn is_scalar_value(u: u32) -> bool {
    u <= 0xD7FF || (0xE000 <= u && u <= 0x10FFFF)
}

/// Calls `char::from_u32`, which gives the character whose code point is
/// `u`, or `None` where `u` is not a Unicode scalar value.
#[verifier::external_body]
pub(crate) fn char_from_u32(u: u32) -> (r: Option<char>)
    ensures
        r is Some <==> is_scalar_value(u),
        r matches Some(c) ==> c as int == u as int,
{
    char::from_u32(u)
}

/// Concatenation of two strings into a new one.
pub fn concat(a: &str, b: &str) -> (r: String)
    ensures
        r@ == a@ + b@,
{
    let mut s = text(a);
    push_str(&mut s, b);
    s
}

/// A string made of the given characters.
pub fn string_of_chars(cs: &Vec<char>) -> (r: String)
    ensures
        r@ == cs@,
{
    let mut s = String::new();
    let mut i: usize = 0;
    while i < cs.len()
        invariant
            i <= cs.len(),
            s@ == cs@.subrange(0, i as int),
        decreases cs.len() - i,
    {
        push_char(&mut s, cs[i]);
        i = i + 1;
        assert(s@ =~= cs@.subrange(0, i as int));
    }
    assert(cs@.subrange(0, cs.len() as int) =~= cs@);
    s
}

pub fn digit_to_char(d: u64) -> (c: char)
    requires
        d < 10,
    ensures
        c == digit_char(d as nat),
{
    let b: u8 = (d as u8) + 48u8;
    b as char
}

/// Decimal formatting of an unsigned integer, as `u64::to_string` gives it.
pub fn u64_decimal(n: u64) -> (r: String)
    ensures
        r@ == decimal(n as nat),
    decreases n,
{
    if n < 10 {
        let mut s = String::new();
        push_char(&mut s, digit_to_char(n));
        assert(s@ =~= seq![digit_char(n as nat)]);
        s
    } else {
        let mut s = u64_decimal(n / 10);
        push_char(&mut s, digit_to_char(n % 10));
        s
    }
}

/// Decimal formatting of a signed integer, as `i64::to_string` gives it.
pub fn i64_decimal(n: i64) -> (r: String)
    ensures
        r@ == signed_decimal(n as int),
{
    if n < 0 {
        let m: u64 = ((-(n + 1)) as u64) + 1;
        let digits = u64_decimal(m);
        let mut s = String::new();
        push_char(&mut s, '-');
        push_str(&mut s, digits.as_str());
        assert(s@ =~= seq!['-'] + decimal((-n) as nat));
        s
    } else {
        u64_decimal(n as u64)
    }
}

/// Decimal formatting of a 128-bit unsigned integer, as `u128::to_string`
/// gives it.
pub fn u128_decimal(n: u128) -> (r: String)
    ensures
        r@ == decimal(n as nat),
    decreases n,
{
    if n < 10 {
        let mut s = String::new();
        push_char(&mut s, digit_to_char(n as u64));
        assert(s@ =~= seq![digit_char(n as nat)]);
        s
    } else {
        let mut s = u128_decimal(n / 10);
        push_char(&mut s, digit_to_char((n % 10) as u64));
        s
    }
}

/// Decimal formatting of a 128-bit signed integer, as `i128::to_string`
/// gives it.
pub fn i128_decimal(n: i128) -> (r: String)
    ensures
        r@ == signed_decimal(n as int),
{
    if n < 0 {
        let m: u128 = ((-(n + 1)) as u128) + 1;
        let digits = u128_decimal(m);
        let mut s = String::new();
        push_char(&mut s, '-');
        push_str(&mut s, digits.as_str());
        assert(s@ =~= seq!['-'] + decimal((-n) as nat));
        s
    } else {
        u128_decimal(n as u128)
    }
}

/// Parses a string as `str::parse::<u64>` does (an optional `+`, then one
/// or more decimal digits, with no overflow).
pub fn parse_u64(s: &str) -> (r: Option<u64>)
    ensures
        r == parse_u64_spec(s@),
{
    let cs = chars_of(s);
    let mut start: usize = 0;
    if cs.len() > 0 && cs[0] == '+' {
        start = 1;
    }
    let ghost d = if cs@.len() > 0 && cs@[0] == '+' { cs@.drop_first() } else { cs@ };
    assert(d =~= cs@.subrange(start as int, cs@.len() as int));
    if start >= cs.len() {
        return None;
    }
    let mut acc: u64 = 0;
    let mut i: usize = start;
    while i < cs.len()
        invariant
            start <= i <= cs.len(),
            start < cs.len(),
            cs@ == s@,
            d == (if cs@.len() > 0 && cs@[0] == '+' { cs@.drop_first() } else { cs@ }),
            d == cs@.subrange(start as int, cs@.len() as int),
            all_digits(cs@.subrange(start as int, i as int)),
            acc as nat == digits_value(cs@.subrange(start as int, i as int)),
        decreases cs.len() - i,
    {
        let c = cs[i];
        let ghost pre = cs@.subrange(start as int, i as int);
        let ghost next = cs@.subrange(start as int, i + 1);
        assert(next.drop_last() =~= pre);
        assert(next.last() == c);
        if !char_is_ascii_digit(c) {
            assert(d[i - start] == c);
            assert(!all_digits(d));
            return None;
        }
        let dv: u64 = (c as u64) - 48;
        if acc > (u64::MAX - dv) / 10 {
            proof {
                // the digits so far already exceed the range: so does the whole
                lemma_digits_value_prefix_mono(d, (i + 1 - start) as int);
                assert(d.subrange(0, (i + 1 - start) as int) =~= next);
            }
            assert(digits_value(next) > u64::MAX) by (nonlinear_arith)
                requires
                    digits_value(next) == acc * 10 + dv,
                    acc > (u64::MAX - dv) / 10,
                    dv <= 9,
            ;
            return None;
        }
        assert(acc * 10 + dv <= u64::MAX) by (nonlinear_arith)
            requires
                acc <= (u64::MAX - dv) / 10,
                dv <= 9,
        ;
        acc = acc * 10 + dv;
        i = i + 1;
        assert(all_digits(next)) by {
            assert forall|k: int| 0 <= k < next.len() implies is_ascii_digit(#[trigger] next[k]) by {
                if k < pre.len() {
                    assert(next[k] == pre[k]);
                }
            }
        }
    }
    assert(cs@.subrange(start as int, i as int) =~= d);
    Some(acc)
}

/// A longer string of digits is worth at least as much as its prefix.
pub proof fn lemma_digits_value_prefix_mono(d: Seq<char>, k: int)
    requires
        0 <= k <= d.len(),
    ensures
        digits_value(d.subrange(0, k)) <= digits_value(d),
    decreases d.len(),
{
    if k < d.len() {
        lemma_digits_value_prefix_mono(d.drop_last(), k);
        assert(d.drop_last().subrange(0, k) =~= d.subrange(0, k));
        assert(digits_value(d) >= digits_value(d.drop_last())) by (nonlinear_arith)
            requires
                digits_value(d) == digits_value(d.drop_last()) * 10 + ((d.last() as nat) - 48) as nat,
        ;
    } else {
        assert(d.subrange(0, k) =~= d);
    }
}

} // verus!
