//! The field labels of a struct literal: named labels may not repeat,
//! positional fields are numbered from 0 in order, and the fields of a
//! spread struct are renumbered, overridden or added.
use vstd::prelude::*;

use crate::ast::strs_view;
use crate::text::{decimal, parse_u64, parse_u64_spec, push_str, text, u64_decimal};

verus! {

/// The first label of `s` that already occurred before it, if any.
pub open spec fn first_repeat(s: Seq<Seq<char>>) -> Option<Seq<char>>
    decreases s.len(),
{
    if s.len() == 0 {
        None
    } else {
        match first_repeat(s.drop_last()) {
            Some(x) => Some(x),
            None => if s.drop_last().contains(s.last()) {
                Some(s.last())
            } else {
                None
            },
        }
    }
}

pub open spec fn duplicate_msg(l: Seq<char>) -> Seq<char> {
    "duplicate field label '"@ + l + "' in struct"@
}

fn contains_label(v: &Vec<String>, upto: usize, l: &String) -> (r: bool)
    requires
        upto <= v.len(),
    ensures
        r == strs_view(v@).take(upto as int).contains(l@),
{
    let ghost sv = strs_view(v@);
    let mut i: usize = 0;
    while i < upto
        invariant
            i <= upto <= v.len(),
            sv == strs_view(v@),
            forall|k: int| 0 <= k < i ==> sv[k] != l@,
        decreases upto - i,
    {
        if v[i] == *l {
            proof {
                assert(sv.take(upto as int)[i as int] == l@);
            }
            return true;
        }
        i = i + 1;
    }
    proof {
        assert forall|k: int| 0 <= k < upto implies sv.take(upto as int)[k] != l@ by {
            assert(sv.take(upto as int)[k] == sv[k]);
        }
    }
    false
}

/// The check of the named labels of a struct literal: an error naming the
/// first label that repeats an earlier one.
pub fn check_named_labels(labels: &Vec<String>) -> (r: Result<(), String>)
    ensures
        first_repeat(strs_view(labels@)) is None ==> r is Ok,
        first_repeat(strs_view(labels@)) matches Some(l) ==> r is Err && r->Err_0@ == duplicate_msg(l),
{
    let ghost sv = strs_view(labels@);
    let mut i: usize = 0;
    while i < labels.len()
        invariant
            i <= labels.len(),
            sv == strs_view(labels@),
            first_repeat(sv.take(i as int)) is None,
        decreases labels.len() - i,
    {
        proof {
            assert(sv.take(i + 1).drop_last() =~= sv.take(i as int));
            assert(sv.take(i + 1).last() == sv[i as int]);
        }
        if contains_label(labels, i, &labels[i]) {
            proof {
                assert(first_repeat(sv.take(i + 1)) == Some(sv[i as int]));
                lemma_first_repeat_extend(sv, i as int + 1);
            }
            let mut m = text("duplicate field label '");
            push_str(&mut m, labels[i].as_str());
            push_str(&mut m, "' in struct");
            return Err(m);
        }
        i = i + 1;
    }
    proof {
        assert(sv.take(i as int) =~= sv);
    }
    Ok(())
}

proof fn lemma_first_repeat_extend(s: Seq<Seq<char>>, k: int)
    requires
        0 <= k <= s.len(),
        first_repeat(s.take(k)) is Some,
    ensures
        first_repeat(s) == first_repeat(s.take(k)),
    decreases s.len() - k,
{
    if k < s.len() {
        assert(s.take(k + 1).drop_last() =~= s.take(k));
        lemma_first_repeat_extend(s, k + 1);
    } else {
        assert(s.take(k) =~= s);
    }
}

/// The outcome of spreading a struct with field labels `spread` into a
/// struct literal whose named labels are `named`, after the fields labelled
/// `current` and with `pos` positional fields so far: for each spread field
/// its new label, or `None` where a named field of the literal overrides it,
/// then the labels and the positional count after the spread. A positional
/// field (one whose label is a number) gets the next positional label; a
/// field that repeats a label already present is an error.
pub open spec fn spread_fold(spread: Seq<Seq<char>>, named: Seq<Seq<char>>, current: Seq<Seq<char>>, pos: nat)
    -> Result<(Seq<Option<Seq<char>>>, Seq<Seq<char>>, nat), Seq<char>>
    decreases spread.len(),
{
    if spread.len() == 0 {
        Ok((seq![], current, pos))
    } else {
        match spread_fold(spread.drop_last(), named, current, pos) {
            Err(e) => Err(e),
            Ok((outs, labels, p)) => {
                let l = spread.last();
                if parse_u64_spec(l) is Some {
                    Ok((outs.push(Some(decimal(p))), labels.push(decimal(p)), p + 1))
                } else if named.contains(l) {
                    Ok((outs.push(None), labels, p))
                } else if labels.contains(l) {
                    Err("duplicate field label '"@ + l + "' in struct (from spread)"@)
                } else {
                    Ok((outs.push(Some(l)), labels.push(l), p))
                }
            },
        }
    }
}

pub open spec fn opt_strs_view(v: Seq<Option<String>>) -> Seq<Option<Seq<char>>> {
    v.map_values(|o: Option<String>| match o {
        Some(s) => Some(s@),
        None => None,
    })
}

/// The labels of the fields of a spread struct, as the struct literal gives
/// them (see `spread_fold`), with the positional count after the spread.
pub fn spread_labels(spread: &Vec<String>, named: &Vec<String>, current: &Vec<String>, pos: u64) -> (r: Result<(Vec<Option<String>>, u64), String>)
    requires
        pos + spread.len() <= u64::MAX,
    ensures
        match spread_fold(strs_view(spread@), strs_view(named@), strs_view(current@), pos as nat) {
            Ok((outs, _, p)) => r is Ok && opt_strs_view(r->Ok_0.0@) == outs && r->Ok_0.1 == p,
            Err(m) => r is Err && r->Err_0@ == m,
        },
{
    let ghost sp = strs_view(spread@);
    let ghost nm = strs_view(named@);
    let ghost cur = strs_view(current@);
    let mut outs: Vec<Option<String>> = Vec::new();
    let mut labels: Vec<String> = current.clone();
    let mut p: u64 = pos;
    let mut i: usize = 0;
    proof {
        assert(sp.take(0) =~= Seq::<Seq<char>>::empty());
        assert(opt_strs_view(outs@) =~= Seq::<Option<Seq<char>>>::empty());
        assert(strs_view(labels@) =~= cur);
    }
    while i < spread.len()
        invariant
            i <= spread.len(),
            pos + spread.len() <= u64::MAX,
            sp == strs_view(spread@),
            nm == strs_view(named@),
            cur == strs_view(current@),
            p <= pos + i,
            spread_fold(sp.take(i as int), nm, cur, pos as nat) == Ok::<(Seq<Option<Seq<char>>>, Seq<Seq<char>>, nat), Seq<char>>(
                (opt_strs_view(outs@), strs_view(labels@), p as nat),
            ),
        decreases spread.len() - i,
    {
        proof {
            assert(sp.take(i + 1).drop_last() =~= sp.take(i as int));
            assert(sp.take(i + 1).last() == sp[i as int]);
        }
        let l = &spread[i];
        let ghost before_outs = opt_strs_view(outs@);
        let ghost before_labels = strs_view(labels@);
        if parse_u64(l.as_str()).is_some() {
            let d = u64_decimal(p);
            outs.push(Some(d.clone()));
            labels.push(d);
            p = p + 1;
            proof {
                assert(opt_strs_view(outs@) =~= before_outs.push(Some(decimal((p - 1) as nat))));
                assert(strs_view(labels@) =~= before_labels.push(decimal((p - 1) as nat)));
                assert(parse_u64_spec(sp[i as int]) is Some);
                assert(spread_fold(sp.take(i + 1), nm, cur, pos as nat) == Ok::<(Seq<Option<Seq<char>>>, Seq<Seq<char>>, nat), Seq<char>>(
                    (opt_strs_view(outs@), strs_view(labels@), p as nat)));
            }
        } else if contains_label(named, named.len(), l) {
            outs.push(None);
            proof {
                assert(nm.take(named.len() as int) =~= nm);
                assert(opt_strs_view(outs@) =~= before_outs.push(None));
                assert(spread_fold(sp.take(i + 1), nm, cur, pos as nat) == Ok::<(Seq<Option<Seq<char>>>, Seq<Seq<char>>, nat), Seq<char>>(
                    (opt_strs_view(outs@), strs_view(labels@), p as nat)));
            }
        } else if contains_label(&labels, labels.len(), l) {
            proof {
                assert(strs_view(labels@).take(labels.len() as int) =~= strs_view(labels@));
                assert(nm.take(named.len() as int) =~= nm);
                lemma_spread_fold_err(sp, nm, cur, pos as nat, i as int + 1);
            }
            let mut m = text("duplicate field label '");
            push_str(&mut m, l.as_str());
            push_str(&mut m, "' in struct (from spread)");
            return Err(m);
        } else {
            outs.push(Some(l.clone()));
            labels.push(l.clone());
            proof {
                assert(nm.take(named.len() as int) =~= nm);
                assert(before_labels.take(before_labels.len() as int) =~= before_labels);
                assert(opt_strs_view(outs@) =~= before_outs.push(Some(sp[i as int])));
                assert(strs_view(labels@) =~= before_labels.push(sp[i as int]));
                assert(spread_fold(sp.take(i + 1), nm, cur, pos as nat) == Ok::<(Seq<Option<Seq<char>>>, Seq<Seq<char>>, nat), Seq<char>>(
                    (opt_strs_view(outs@), strs_view(labels@), p as nat)));
            }
        }
        i = i + 1;
    }
    proof {
        assert(sp.take(i as int) =~= sp);
    }
    Ok((outs, p))
}

proof fn lemma_spread_fold_err(sp: Seq<Seq<char>>, nm: Seq<Seq<char>>, cur: Seq<Seq<char>>, pos: nat, k: int)
    requires
        0 <= k <= sp.len(),
        spread_fold(sp.take(k), nm, cur, pos) is Err,
    ensures
        spread_fold(sp, nm, cur, pos) == spread_fold(sp.take(k), nm, cur, pos),
    decreases sp.len() - k,
{
    if k < sp.len() {
        assert(sp.take(k + 1).drop_last() =~= sp.take(k));
        lemma_spread_fold_err(sp, nm, cur, pos, k + 1);
    } else {
        assert(sp.take(k) =~= sp);
    }
}

/// The label of the next positional field of a struct literal: its number.
pub fn positional_label(pos: u64) -> (r: String)
    ensures
        r@ == decimal(pos as nat),
{
    u64_decimal(pos)
}

} // verus!
