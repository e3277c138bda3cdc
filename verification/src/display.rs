//! How values are written out: string, character and byte literals with
//! their escapes, integer literals with their type suffixes, and the
//! warnings about unused bindings.
use vstd::prelude::*;

use crate::text::{chars_of, decimal, i128_decimal, push_char, push_str, signed_decimal, u128_decimal};

verus! {

/// The escape of a character inside a quoted string.
pub open spec fn str_escape(c: char) -> Seq<char> {
    if c == '\0' {
        seq!['\\', '0']
    } else if c == '\n' {
        seq!['\\', 'n']
    } else if c == '\r' {
        seq!['\\', 'r']
    } else if c == '\t' {
        seq!['\\', 't']
    } else if c == '\\' {
        seq!['\\', '\\']
    } else if c == '"' {
        seq!['\\', '"']
    } else {
        seq![c]
    }
}

/// The escapes of the characters of `s`, one after the other.
pub open spec fn escaped(s: Seq<char>) -> Seq<char>
    decreases s.len(),
{
    if s.len() == 0 {
        seq![]
    } else {
        escaped(s.drop_last()) + str_escape(s.last())
    }
}

/// A string written as a literal: in double quotes, with `\0`, newlines,
/// carriage returns, tabs, backslashes and double quotes escaped.
pub open spec fn spec_quote_str(s: Seq<char>) -> Seq<char> {
    seq!['"'] + escaped(s) + seq!['"']
}

fn push_chars(out: &mut String, cs: &[char])
    ensures
        final(out)@ == old(out)@ + cs@,
{
    let mut i: usize = 0;
    while i < cs.len()
        invariant
            i <= cs.len(),
            out@ == old(out)@ + cs@.take(i as int),
        decreases cs.len() - i,
    {
        push_char(out, cs[i]);
        i = i + 1;
        assert(out@ =~= old(out)@ + cs@.take(i as int));
    }
    assert(cs@.take(cs.len() as int) =~= cs@);
}

fn push_escape(out: &mut String, c: char)
    ensures
        final(out)@ == old(out)@ + str_escape(c),
{
    if c == '\0' {
        push_chars(out, &['\\', '0']);
    } else if c == '\n' {
        push_chars(out, &['\\', 'n']);
    } else if c == '\r' {
        push_chars(out, &['\\', 'r']);
    } else if c == '\t' {
        push_chars(out, &['\\', 't']);
    } else if c == '\\' {
        push_chars(out, &['\\', '\\']);
    } else if c == '"' {
        push_chars(out, &['\\', '"']);
    } else {
        push_char(out, c);
        assert(out@ =~= old(out)@ + seq![c]);
    }
}

/// An integer written as a literal of its type: the decimal digits of `n`,
/// with a `-` sign when it is negative, followed by `suffix`, the type's
/// name (`i32`, `u64`, ...).
pub fn integer_literal(n: i128, suffix: &str) -> (r: String)
    ensures
        r@ == signed_decimal(n as int) + suffix@,
{
    let mut s = i128_decimal(n);
    push_str(&mut s, suffix);
    s
}

/// An unsigned 128-bit integer written as a literal: its decimal digits
/// followed by `suffix`.
pub fn unsigned_literal(n: u128, suffix: &str) -> (r: String)
    ensures
        r@ == decimal(n as nat) + suffix@,
{
    let mut s = u128_decimal(n);
    push_str(&mut s, suffix);
    s
}

/// A string written as a literal, with its escapes.
pub fn quote_str(s: &str) -> (r: String)
    ensures
        r@ == spec_quote_str(s@),
{
    let cs = chars_of(s);
    let mut out = String::new();
    push_char(&mut out, '"');
    let mut i: usize = 0;
    while i < cs.len()
        invariant
            i <= cs.len(),
            cs@ == s@,
            out@ == seq!['"'] + escaped(cs@.take(i as int)),
        decreases cs.len() - i,
    {
        proof {
            assert(cs@.take(i + 1).drop_last() =~= cs@.take(i as int));
        }
        push_escape(&mut out, cs[i]);
        i = i + 1;
        assert(out@ =~= seq!['"'] + escaped(cs@.take(i as int)));
    }
    push_char(&mut out, '"');
    assert(cs@.take(cs.len() as int) =~= cs@);
    assert(out@ =~= spec_quote_str(s@));
    out
}

/// A character written as a literal: in single quotes, with `\0`,
/// newlines, carriage returns, tabs, backslashes and single quotes escaped.
pub open spec fn spec_quote_char(c: char) -> Seq<char> {
    let body = if c == '\0' {
        seq!['\\', '0']
    } else if c == '\n' {
        seq!['\\', 'n']
    } else if c == '\r' {
        seq!['\\', 'r']
    } else if c == '\t' {
        seq!['\\', 't']
    } else if c == '\\' {
        seq!['\\', '\\']
    } else if c == '\'' {
        seq!['\\', '\'']
    } else {
        seq![c]
    };
    seq!['\''] + body + seq!['\'']
}

pub fn quote_char(c: char) -> (r: String)
    ensures
        r@ == spec_quote_char(c),
{
    let mut out = String::new();
    push_char(&mut out, '\'');
    if c == '\0' {
        push_chars(&mut out, &['\\', '0']);
    } else if c == '\n' {
        push_chars(&mut out, &['\\', 'n']);
    } else if c == '\r' {
        push_chars(&mut out, &['\\', 'r']);
    } else if c == '\t' {
        push_chars(&mut out, &['\\', 't']);
    } else if c == '\\' {
        push_chars(&mut out, &['\\', '\\']);
    } else if c == '\'' {
        push_chars(&mut out, &['\\', '\'']);
    } else {
        push_char(&mut out, c);
    }
    push_char(&mut out, '\'');
    assert(out@ =~= spec_quote_char(c));
    out
}

/// The lowercase hexadecimal digit of `d < 16`.
pub open spec fn hex_char(d: u8) -> char {
    if d < 10 {
        (d + 48) as char
    } else {
        (d + 87) as char
    }
}

/// A byte written as a literal: `b'..'` with `\0`, newlines, carriage
/// returns, tabs, backslashes and single quotes escaped, a printable ASCII
/// character as itself, and any other byte as `\x` and two lowercase
/// hexadecimal digits.
pub open spec fn spec_byte_literal(b: u8) -> Seq<char> {
    let body = if b == 0 {
        seq!['\\', '0']
    } else if b == 10 {
        seq!['\\', 'n']
    } else if b == 13 {
        seq!['\\', 'r']
    } else if b == 9 {
        seq!['\\', 't']
    } else if b == 92 {
        seq!['\\', '\\']
    } else if b == 39 {
        seq!['\\', '\'']
    } else if 0x20 <= b <= 0x7e {
        seq![b as char]
    } else {
        seq!['\\', 'x', hex_char(b / 16), hex_char(b % 16)]
    };
    seq!['b', '\''] + body + seq!['\'']
}

fn hex_digit_char(d: u8) -> (c: char)
    requires
        d < 16,
    ensures
        c == hex_char(d),
{
    if d < 10 {
        (d + 48) as char
    } else {
        (d + 87) as char
    }
}

pub fn byte_literal(b: u8) -> (r: String)
    ensures
        r@ == spec_byte_literal(b),
{
    let mut out = String::new();
    push_chars(&mut out, &['b', '\'']);
    if b == 0 {
        push_chars(&mut out, &['\\', '0']);
    } else if b == 10 {
        push_chars(&mut out, &['\\', 'n']);
    } else if b == 13 {
        push_chars(&mut out, &['\\', 'r']);
    } else if b == 9 {
        push_chars(&mut out, &['\\', 't']);
    } else if b == 92 {
        push_chars(&mut out, &['\\', '\\']);
    } else if b == 39 {
        push_chars(&mut out, &['\\', '\'']);
    } else if 0x20 <= b && b <= 0x7e {
        push_char(&mut out, b as char);
    } else {
        let hi = hex_digit_char(b / 16);
        let lo = hex_digit_char(b % 16);
        push_chars(&mut out, &['\\', 'x', hi, lo]);
    }
    push_char(&mut out, '\'');
    assert(out@ =~= spec_byte_literal(b));
    out
}

// ── Unused bindings ─────────────────────────────────────────────

/// Whether a binding named `n` is warned about when unused: internal names
/// (starting with `\0`), names starting with `_`, and builtins are not.
pub open spec fn warned(n: Seq<char>, builtin: bool) -> bool {
    !(n.len() > 0 && n[0] == '\0') && !(n.len() > 0 && n[0] == '_') && !builtin
}

pub open spec fn unused_msg(n: Seq<char>) -> Seq<char> {
    "warning: unused binding '"@ + n + "'"@
}

/// The warnings for the bindings `(name, is a builtin, used)`, in order.
pub open spec fn spec_unused_warnings(bs: Seq<(Seq<char>, bool, bool)>) -> Seq<Seq<char>>
    decreases bs.len(),
{
    if bs.len() == 0 {
        seq![]
    } else {
        let (n, builtin, used) = bs.last();
        let rest = spec_unused_warnings(bs.drop_last());
        if warned(n, builtin) && !used {
            rest.push(unused_msg(n))
        } else {
            rest
        }
    }
}

pub open spec fn bindings_view(v: Seq<(String, bool, bool)>) -> Seq<(Seq<char>, bool, bool)> {
    v.map_values(|b: (String, bool, bool)| (b.0@, b.1, b.2))
}

pub open spec fn strings_view(v: Seq<String>) -> Seq<Seq<char>> {
    v.map_values(|s: String| s@)
}

/// The warnings about the bindings `(name, is a builtin, used)` that were
/// never used, in order.
pub fn unused_warnings(bindings: &Vec<(String, bool, bool)>) -> (r: Vec<String>)
    ensures
        strings_view(r@) == spec_unused_warnings(bindings_view(bindings@)),
{
    let ghost bv = bindings_view(bindings@);
    let mut out: Vec<String> = Vec::new();
    let mut i: usize = 0;
    proof {
        assert(bv.take(0) =~= Seq::<(Seq<char>, bool, bool)>::empty());
        assert(strings_view(out@) =~= seq![]);
    }
    while i < bindings.len()
        invariant
            i <= bindings.len(),
            bv == bindings_view(bindings@),
            strings_view(out@) == spec_unused_warnings(bv.take(i as int)),
        decreases bindings.len() - i,
    {
        proof {
            assert(bv.take(i + 1).drop_last() =~= bv.take(i as int));
        }
        let cs = chars_of(bindings[i].0.as_str());
        let internal = cs.len() > 0 && (cs[0] == '\0' || cs[0] == '_');
        if !internal && !bindings[i].1 && !bindings[i].2 {
            let a = crate::text::concat("warning: unused binding '", bindings[i].0.as_str());
            let m = crate::text::concat(a.as_str(), "'");
            let ghost prev = out@;
            out.push(m);
            proof {
                assert(strings_view(out@) =~= strings_view(prev).push(m@));
            }
        }
        i = i + 1;
    }
    proof {
        assert(bv.take(bindings.len() as int) =~= bv);
    }
    out
}

} // verus!
