//! Method-call arguments at run time: the receiver is prepended to the
//! argument as field `0`, and a builtin takes back what follows its
//! receiver. Both are decided from the labels of the argument's fields.
use vstd::prelude::*;

use crate::text::{decimal, parse_u64, parse_u64_spec, text, u64_decimal};
use crate::types::shifted_label;

verus! {

/// What follows the receiver (field `0`) of a builtin's argument struct.
#[derive(Debug, PartialEq)]
pub enum RestArg {
    /// Nothing.
    Unit,
    /// The single field at this index (a lone positional field `1`).
    Single(usize),
    /// A struct of the fields at these indices, under these labels.
    Struct(Vec<(String, usize)>),
}

pub enum RestArgV {
    Unit,
    Single(nat),
    Struct(Seq<(Seq<char>, nat)>),
}

pub open spec fn rest_arg_view(r: RestArg) -> RestArgV {
    match r {
        RestArg::Unit => RestArgV::Unit,
        RestArg::Single(i) => RestArgV::Single(i as nat),
        RestArg::Struct(items) => RestArgV::Struct(items@.map_values(|p: (String, usize)| (p.0@, p.1 as nat))),
    }
}

pub open spec fn labels_view(v: Seq<String>) -> Seq<Seq<char>> {
    v.map_values(|s: String| s@)
}

/// The indices of the fields other than the receiver, in order, from `i` on.
pub open spec fn non_receiver(labels: Seq<Seq<char>>, i: nat) -> Seq<nat>
    decreases labels.len() - i,
{
    if i >= labels.len() {
        seq![]
    } else if labels[i as int] == "0"@ {
        non_receiver(labels, i + 1)
    } else {
        seq![i] + non_receiver(labels, i + 1)
    }
}

/// The fields other than the receiver from `i` on, positional ones
/// renumbered from `pos`; after `acc`.
pub open spec fn renumbered(labels: Seq<Seq<char>>, i: nat, pos: nat, acc: Seq<(Seq<char>, nat)>) -> Seq<(Seq<char>, nat)>
    decreases labels.len() - i,
{
    if i >= labels.len() {
        acc
    } else if labels[i as int] == "0"@ {
        renumbered(labels, i + 1, pos, acc)
    } else if parse_u64_spec(labels[i as int]) is Some {
        renumbered(labels, i + 1, pos + 1, acc.push((decimal(pos), i)))
    } else {
        renumbered(labels, i + 1, pos, acc.push((labels[i as int], i)))
    }
}

/// What follows the receiver: nothing when no other field is there; the
/// field itself when it is the lone field `1`; otherwise a struct of the
/// other fields with the positional ones renumbered from `0`.
pub open spec fn spec_rest_arg(labels: Seq<Seq<char>>) -> RestArgV {
    let rest = non_receiver(labels, 0);
    if rest.len() == 0 {
        RestArgV::Unit
    } else if rest.len() == 1 && labels[rest[0] as int] == "1"@ {
        RestArgV::Single(rest[0])
    } else {
        RestArgV::Struct(renumbered(labels, 0, 0, seq![]))
    }
}

/// What follows the receiver of a builtin's argument struct with these
/// field labels.
pub fn rest_arg_plan(labels: &Vec<String>) -> (r: RestArg)
    ensures
        rest_arg_view(r) == spec_rest_arg(labels_view(labels@)),
{
    let ghost lv = labels_view(labels@);
    let zero = text("0");
    let one = text("1");
    let mut count: usize = 0;
    let mut first: usize = 0;
    let mut i: usize = labels.len();
    while i > 0
        invariant
            i <= labels.len(),
            lv == labels_view(labels@),
            lv.len() == labels.len(),
            zero@ == "0"@,
            count == non_receiver(lv, i as nat).len(),
            count > 0 ==> first == non_receiver(lv, i as nat)[0],
            count > 0 ==> i <= first < labels.len(),
            count <= labels.len() - i,
        decreases i,
    {
        i = i - 1;
        assert(lv[i as int] == labels@[i as int]@);
        if labels[i] != zero {
            count = count + 1;
            first = i;
        }
    }
    if count == 0 {
        return RestArg::Unit;
    }
    assert(lv[first as int] == labels@[first as int]@);
    if count == 1 && labels[first] == one {
        return RestArg::Single(first);
    }
    let mut out: Vec<(String, usize)> = Vec::new();
    let mut pos: u64 = 0;
    let mut i: usize = 0;
    proof {
        assert(out@.map_values(|p: (String, usize)| (p.0@, p.1 as nat)) =~= seq![]);
    }
    while i < labels.len()
        invariant
            i <= labels.len(),
            pos <= i,
            lv == labels_view(labels@),
            lv.len() == labels.len(),
            zero@ == "0"@,
            renumbered(lv, 0, 0, seq![]) == renumbered(lv, i as nat, pos as nat, out@.map_values(|p: (String, usize)| (p.0@, p.1 as nat))),
        decreases labels.len() - i,
    {
        assert(lv[i as int] == labels@[i as int]@);
        if labels[i] != zero {
            let ghost prev = out@;
            if parse_u64(labels[i].as_str()).is_some() {
                out.push((u64_decimal(pos), i));
                pos = pos + 1;
            } else {
                out.push((labels[i].clone(), i));
            }
            proof {
                assert(out@.map_values(|p: (String, usize)| (p.0@, p.1 as nat)) =~= prev.map_values(
                    |p: (String, usize)| (p.0@, p.1 as nat),
                ).push((out@.last().0@, i as nat)));
            }
        }
        i = i + 1;
    }
    RestArg::Struct(out)
}

/// No label is the largest positional label (whose successor would
/// overflow).
pub open spec fn labels_shiftable(labels: Seq<Seq<char>>) -> bool {
    forall|i: int| 0 <= i < labels.len() ==> parse_u64_spec(#[trigger] labels[i]) != Some(u64::MAX)
}

/// The labels of an argument struct once the receiver is prepended: `0`
/// for the receiver, then each label with its positional ones shifted up
/// by one.
pub fn prepend_labels(labels: &Vec<String>) -> (r: Vec<String>)
    requires
        labels_shiftable(labels_view(labels@)),
    ensures
        labels_view(r@) == seq!["0"@] + labels_view(labels@).map_values(|l: Seq<char>| shifted_label(l)),
{
    let ghost lv = labels_view(labels@);
    let mut out: Vec<String> = Vec::new();
    out.push(text("0"));
    let mut i: usize = 0;
    proof {
        assert(labels_view(out@) =~= seq!["0"@] + lv.take(0).map_values(|l: Seq<char>| shifted_label(l)));
    }
    while i < labels.len()
        invariant
            i <= labels.len(),
            lv == labels_view(labels@),
            lv.len() == labels.len(),
            labels_shiftable(lv),
            labels_view(out@) == seq!["0"@] + lv.take(i as int).map_values(|l: Seq<char>| shifted_label(l)),
        decreases labels.len() - i,
    {
        assert(lv[i as int] == labels@[i as int]@);
        let ghost prev = out@;
        let l = match parse_u64(labels[i].as_str()) {
            Some(n) => {
                assert(parse_u64_spec(lv[i as int]) != Some(u64::MAX));
                u64_decimal(n + 1)
            },
            None => labels[i].clone(),
        };
        out.push(l);
        proof {
            assert(lv.take(i + 1) =~= lv.take(i as int).push(lv[i as int]));
            assert(labels_view(out@) =~= labels_view(prev).push(l@));
            assert(lv.take(i + 1).map_values(|l: Seq<char>| shifted_label(l)) =~= lv.take(i as int).map_values(
                |l: Seq<char>| shifted_label(l),
            ).push(shifted_label(lv[i as int])));
            assert(labels_view(out@) =~= seq!["0"@] + lv.take(i + 1).map_values(|l: Seq<char>| shifted_label(l)));
        }
        i = i + 1;
    }
    proof {
        assert(lv.take(labels.len() as int) =~= lv);
    }
    out
}

} // verus!
