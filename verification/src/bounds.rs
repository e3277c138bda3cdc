//! Index and range checks of the array and string methods, with their
//! error messages, and the slicing of a string by byte offsets.
use vstd::prelude::*;
use vstd::string::StringSliceAdditionalSpecFns;
use vstd::utf8::{encode_utf8, is_char_boundary, valid_utf8};

use crate::text::{concat, decimal, i64_decimal, push_str, signed_decimal, text, u64_decimal};

verus! {

/// The error of an index that is negative or not below `len`: the negative
/// index after `neg`, or the index after `oob` followed by
/// " out of bounds (", `len_word`, the length and ")".
pub open spec fn index_error(neg: Seq<char>, oob: Seq<char>, len_word: Seq<char>, idx: int, len: nat) -> Seq<char> {
    if idx < 0 {
        neg + signed_decimal(idx)
    } else {
        oob + decimal(idx as nat) + " out of bounds ("@ + len_word + " "@ + decimal(len) + ")"@
    }
}

/// An index into a sequence of `len` elements, as the `get` methods check
/// it: the index where `0 <= idx < len`, otherwise the index error.
pub fn checked_index(idx: i64, len: usize, neg: &str, oob: &str, len_word: &str) -> (r: Result<usize, String>)
    ensures
        0 <= idx < len ==> r == Ok::<usize, String>(idx as usize),
        !(0 <= idx < len) ==> r is Err && r->Err_0@ == index_error(neg@, oob@, len_word@, idx as int, len as nat),
{
    if idx < 0 {
        let d = i64_decimal(idx);
        Err(concat(neg, d.as_str()))
    } else if (idx as u64) < (len as u64) {
        Ok(idx as usize)
    } else {
        let mut s = text(oob);
        let d = u64_decimal(idx as u64);
        push_str(&mut s, d.as_str());
        push_str(&mut s, " out of bounds (");
        push_str(&mut s, len_word);
        push_str(&mut s, " ");
        let l = u64_decimal(len as u64);
        push_str(&mut s, l.as_str());
        push_str(&mut s, ")");
        Err(s)
    }
}

/// The error of a range `start..end` that does not lie within `len`
/// elements: "slice: negative index" when either end is negative, otherwise
/// both ends and the length in the message.
pub open spec fn range_error(start: int, end: int, len_word: Seq<char>, len: nat) -> Seq<char> {
    if start < 0 || end < 0 {
        "slice: negative index"@
    } else {
        "slice: indices "@ + decimal(start as nat) + ".."@ + decimal(end as nat) + " out of bounds ("@ + len_word
            + " "@ + decimal(len) + ")"@
    }
}

/// A range into a sequence of `len` elements, as the `slice` methods check
/// it: the two ends where `0 <= start <= end <= len`, otherwise the range
/// error.
pub fn checked_range(start: i64, end: i64, len: usize, len_word: &str) -> (r: Result<(usize, usize), String>)
    ensures
        0 <= start <= end <= len ==> r == Ok::<(usize, usize), String>((start as usize, end as usize)),
        !(0 <= start <= end <= len) ==> r is Err && r->Err_0@ == range_error(start as int, end as int, len_word@, len as nat),
{
    if start < 0 || end < 0 {
        return Err(text("slice: negative index"));
    }
    let s64 = start as u64;
    let e64 = end as u64;
    let l64 = len as u64;
    if s64 > l64 || e64 > l64 || s64 > e64 {
        let mut s = text("slice: indices ");
        let d1 = u64_decimal(s64);
        push_str(&mut s, d1.as_str());
        push_str(&mut s, "..");
        let d2 = u64_decimal(e64);
        push_str(&mut s, d2.as_str());
        push_str(&mut s, " out of bounds (");
        push_str(&mut s, len_word);
        push_str(&mut s, " ");
        let l = u64_decimal(l64);
        push_str(&mut s, l.as_str());
        push_str(&mut s, ")");
        Err(s)
    } else {
        Ok((start as usize, end as usize))
    }
}

/// The part of `s` between the byte offsets `start` and `end`, as the
/// string `slice` method gives it: the range error for offsets outside the
/// string's UTF-8 bytes, an error for an offset inside a character, and
/// otherwise the string whose UTF-8 bytes are those from `start` to `end`.
pub fn string_slice(s: &str, start: i64, end: i64) -> (r: Result<String, String>)
    requires
        s.spec_bytes().len() <= usize::MAX,
    ensures
        !(0 <= start <= end <= s.spec_bytes().len()) ==> r is Err && r->Err_0@ == range_error(
            start as int,
            end as int,
            "byte_len"@,
            s.spec_bytes().len(),
        ),
        0 <= start <= end <= s.spec_bytes().len() && !(is_char_boundary(s.spec_bytes(), start as int)
            && is_char_boundary(s.spec_bytes(), end as int)) ==> r is Err && r->Err_0@
            == "slice: index is not on a UTF-8 character boundary"@,
        0 <= start <= end <= s.spec_bytes().len() && is_char_boundary(s.spec_bytes(), start as int)
            && is_char_boundary(s.spec_bytes(), end as int) ==> r is Ok && encode_utf8(r->Ok_0@)
            == s.spec_bytes().subrange(start as int, end as int),
{
    broadcast use vstd::utf8::group_utf8_lib;

    let (st, en) = match checked_range(start, end, s.len(), "byte_len") {
        Ok(p) => p,
        Err(e) => return Err(e),
    };
    if !s.is_char_boundary(st) || !s.is_char_boundary(en) {
        return Err(text("slice: index is not on a UTF-8 character boundary"));
    }
    let ghost bytes = s.spec_bytes();
    let (head, _) = s.split_at(en);
    proof {
        let prefix = bytes.subrange(0, en as int);
        assert(valid_utf8(bytes));
        assert(valid_utf8(prefix));
        assert(head.spec_bytes() == prefix);
        if st < en {
            assert(prefix[st as int] == bytes[st as int]);
            vstd::utf8::is_char_boundary_iff_is_leading_byte(bytes, st as int);
            vstd::utf8::is_char_boundary_iff_is_leading_byte(prefix, st as int);
            assert(is_char_boundary(prefix, st as int));
        } else {
            assert(is_char_boundary(prefix, prefix.len() as int));
        }
    }
    let (_, mid) = head.split_at(st);
    proof {
        assert(mid.spec_bytes() =~= bytes.subrange(st as int, en as int));
    }
    let out = mid.to_owned();
    Ok(out)
}

} // verus!
