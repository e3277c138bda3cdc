//! Destructuring at run time: which part of a value each name of a `let`
//! pattern is bound to. A struct pattern is resolved against the labels of
//! the struct's fields, an array pattern against the number of elements;
//! the result is a plan that the evaluator applies to the values.
use vstd::prelude::*;

use crate::ast::{ArrayPat, ArrayPatV, PatField, PatFieldV, Pattern, PatternV, array_pat_view, array_pats_view, lemma_pat_fields_view, opt_str, pat_fields_view, pattern_view};
use crate::checker::{is_discard_name, is_unlabeled};
use crate::text::{concat, decimal, parse_u64, parse_u64_spec, u64_decimal};

verus! {

/// Where a bound name takes its value from.
#[derive(Debug, PartialEq)]
pub enum FieldSource {
    /// The whole value.
    Whole,
    /// The field at this index.
    Field(usize),
    /// A struct of the fields at these indices, under these labels.
    Rest(Vec<(String, usize)>),
}

/// Where a name of an array pattern takes its value from.
#[derive(Debug, PartialEq, Clone, Copy)]
pub enum ElemSource {
    /// The element at this index.
    Elem(usize),
    /// The elements from the first index up to (not including) the second.
    Slice(usize, usize),
}

pub enum SourceV {
    Whole,
    Field(nat),
    Rest(Seq<(Seq<char>, nat)>),
}

pub open spec fn source_view(s: FieldSource) -> SourceV {
    match s {
        FieldSource::Whole => SourceV::Whole,
        FieldSource::Field(i) => SourceV::Field(i as nat),
        FieldSource::Rest(items) => SourceV::Rest(items@.map_values(|p: (String, usize)| (p.0@, p.1 as nat))),
    }
}

pub open spec fn plan_view(p: Seq<(String, FieldSource)>) -> Seq<(Seq<char>, SourceV)> {
    p.map_values(|s: (String, FieldSource)| (s.0@, source_view(s.1)))
}

pub open spec fn array_plan_view(p: Seq<(String, ElemSource)>) -> Seq<(Seq<char>, ElemSource)> {
    p.map_values(|s: (String, ElemSource)| (s.0@, s.1))
}

// ── Struct patterns ─────────────────────────────────────────────

pub open spec fn has_label_match(labels: Seq<Seq<char>>, name: Seq<char>) -> bool {
    exists|j: int| 0 <= j < labels.len() && labels[j] == name
}

/// The first index of `labels` holding `name`, from index `j` on.
pub open spec fn find_label(labels: Seq<Seq<char>>, name: Seq<char>, j: nat) -> Option<nat>
    decreases labels.len() - j,
{
    if j >= labels.len() {
        None
    } else if labels[j as int] == name {
        Some(j)
    } else {
        find_label(labels, name, j + 1)
    }
}

/// The first index from `j` on that is not in `used` (and, with `want`,
/// whose label is `want`).
pub open spec fn find_unused(labels: Seq<Seq<char>>, used: Seq<nat>, want: Option<Seq<char>>, j: nat) -> Option<nat>
    decreases labels.len() - j,
{
    if j >= labels.len() {
        None
    } else if !used.contains(j) && (match want {
        Some(w) => labels[j as int] == w,
        None => true,
    }) {
        Some(j)
    } else {
        find_unused(labels, used, want, j + 1)
    }
}

/// The first unlabeled pattern field whose name labels no field.
pub open spec fn first_missing(fs: Seq<PatFieldV>, labels: Seq<Seq<char>>, i: nat) -> Option<Seq<char>>
    decreases fs.len() - i,
{
    if i >= fs.len() {
        None
    } else if is_unlabeled(fs[i as int]) && !has_label_match(labels, fs[i as int].binding) {
        Some(fs[i as int].binding)
    } else {
        first_missing(fs, labels, i + 1)
    }
}

/// An unlabeled pattern field whose name is the label of a named field.
pub open spec fn partial_match(f: PatFieldV, labels: Seq<Seq<char>>) -> bool {
    is_unlabeled(f) && exists|j: int| 0 <= j < labels.len() && #[trigger] labels[j] == f.binding && parse_u64_spec(labels[j]) is None
}

/// Whether the pattern's fields bind by name (`Ok(true)`) or by position
/// (`Ok(false)`), or why they can do neither.
pub open spec fn by_name_choice(fs: Seq<PatFieldV>, labels: Seq<Seq<char>>) -> Result<bool, Seq<char>> {
    if exists|i: int| 0 <= i < fs.len() && (#[trigger] fs[i]).label is Some {
        Ok(true)
    } else if !(exists|i: int| 0 <= i < fs.len() && is_unlabeled(#[trigger] fs[i])) {
        Ok(exists|j: int| 0 <= j < labels.len() && parse_u64_spec(#[trigger] labels[j]) is None)
    } else if forall|i: int| 0 <= i < fs.len() && is_unlabeled(#[trigger] fs[i]) ==> has_label_match(labels, fs[i].binding) {
        Ok(true)
    } else if exists|j: int| 0 <= j < labels.len() && parse_u64_spec(#[trigger] labels[j]) is Some {
        if exists|i: int| 0 <= i < fs.len() && partial_match(#[trigger] fs[i], labels) {
            Err("partial name match in destructuring: either all names must match struct fields or none"@)
        } else {
            Ok(false)
        }
    } else {
        Err("field '"@ + first_missing(fs, labels, 0)->Some_0 + "' not found in struct"@)
    }
}

/// The fields not in `used` from index `j` on, positional ones renumbered
/// from `pos`, each with its index; after `acc`.
pub open spec fn rest_items(labels: Seq<Seq<char>>, used: Seq<nat>, j: nat, pos: nat, acc: Seq<(Seq<char>, nat)>) -> Seq<(Seq<char>, nat)>
    decreases labels.len() - j,
{
    if j >= labels.len() {
        acc
    } else if used.contains(j) {
        rest_items(labels, used, j + 1, pos, acc)
    } else if parse_u64_spec(labels[j as int]) is Some {
        rest_items(labels, used, j + 1, pos + 1, acc.push((decimal(pos), j)))
    } else {
        rest_items(labels, used, j + 1, pos, acc.push((labels[j as int], j)))
    }
}

/// The plan for the pattern fields from index `i` on, given the indices
/// `used` so far and the plan `plan` so far.
pub open spec fn fields_plan(
    fs: Seq<PatFieldV>,
    labels: Seq<Seq<char>>,
    by_name: bool,
    i: nat,
    used: Seq<nat>,
    plan: Seq<(Seq<char>, SourceV)>,
) -> Result<(Seq<nat>, Seq<(Seq<char>, SourceV)>), Seq<char>>
    decreases fs.len() - i,
{
    if i >= fs.len() {
        Ok((used, plan))
    } else {
        let f = fs[i as int];
        let keep = !is_discard_name(f.binding);
        if f.is_rest {
            let items = rest_items(labels, used, 0, 0, seq![]);
            let plan2 = if keep { plan.push((f.binding, SourceV::Rest(items))) } else { plan };
            fields_plan(fs, labels, by_name, i + 1, used, plan2)
        } else if f.label is Some {
            let l = f.label->Some_0;
            match find_label(labels, l, 0) {
                Some(j) => {
                    let plan2 = if keep { plan.push((f.binding, SourceV::Field(j))) } else { plan };
                    fields_plan(fs, labels, by_name, i + 1, used.push(j), plan2)
                },
                None => Err("field '"@ + l + "' not found in struct"@),
            }
        } else if by_name {
            if !keep {
                match find_unused(labels, used, None, 0) {
                    Some(j) => fields_plan(fs, labels, by_name, i + 1, used.push(j), plan),
                    None => fields_plan(fs, labels, by_name, i + 1, used, plan),
                }
            } else {
                match find_label(labels, f.binding, 0) {
                    Some(j) => fields_plan(fs, labels, by_name, i + 1, used.push(j), plan.push((f.binding, SourceV::Field(j)))),
                    None => Err("field '"@ + f.binding + "' not found in struct"@),
                }
            }
        } else {
            let pos_label = decimal(used.len());
            match find_unused(labels, used, Some(pos_label), 0) {
                Some(j) => {
                    let plan2 = if keep { plan.push((f.binding, SourceV::Field(j))) } else { plan };
                    fields_plan(fs, labels, by_name, i + 1, used.push(j), plan2)
                },
                None => Err("positional field '"@ + pos_label + "' not found in struct"@),
            }
        }
    }
}

/// The plan for binding `pat` to a value: `labels` are the labels of the
/// value's fields when it is a struct (none for unit), `None` for any other
/// value.
pub open spec fn spec_struct_plan(pat: PatternV, labels: Option<Seq<Seq<char>>>) -> Result<Seq<(Seq<char>, SourceV)>, Seq<char>> {
    match pat {
        PatternV::Name(n) => Ok(seq![(n, SourceV::Whole)]),
        PatternV::Discard => Ok(seq![]),
        PatternV::Fields(fs) => match labels {
            None => Err("cannot destructure non-struct value with let(...)"@),
            Some(ls) => match by_name_choice(fs, ls) {
                Err(m) => Err(m),
                Ok(by_name) => match fields_plan(fs, ls, by_name, 0, seq![], seq![]) {
                    Err(m) => Err(m),
                    Ok((used, plan)) => if !(exists|i: int| 0 <= i < fs.len() && (#[trigger] fs[i]).is_rest) && used.len() < ls.len() {
                        Err(
                            "too many fields in struct: pattern expects "@ + decimal(fs.len()) + " but got "@ + decimal(ls.len()),
                        )
                    } else {
                        Ok(plan)
                    },
                },
            },
        },
    }
}

// ── Array patterns ──────────────────────────────────────────────

pub open spec fn not_enough_msg() -> Seq<char> {
    "not enough elements in array for destructuring"@
}

/// The plan for the array patterns from index `i` on, at element `pos` of
/// `n` elements.
pub open spec fn array_plan_from(ps: Seq<ArrayPatV>, n: nat, i: nat, pos: nat, plan: Seq<(Seq<char>, ElemSource)>) -> Result<
    (nat, Seq<(Seq<char>, ElemSource)>),
    Seq<char>,
>
    decreases ps.len() - i,
{
    if i >= ps.len() {
        Ok((pos, plan))
    } else {
        match ps[i as int] {
            ArrayPatV::Name(name) => if pos >= n {
                Err(not_enough_msg())
            } else {
                array_plan_from(ps, n, i + 1, pos + 1, plan.push((name, ElemSource::Elem(pos as usize))))
            },
            ArrayPatV::Discard => if pos >= n {
                Err(not_enough_msg())
            } else {
                array_plan_from(ps, n, i + 1, pos + 1, plan)
            },
            ArrayPatV::Rest(name) => {
                let remaining = ps.len() - i - 1;
                let rest_end: nat = if n >= remaining { (n - remaining) as nat } else { 0 };
                if pos > rest_end {
                    Err(not_enough_msg())
                } else {
                    let plan2 = match name {
                        Some(nm) => plan.push((nm, ElemSource::Slice(pos as usize, rest_end as usize))),
                        None => plan,
                    };
                    array_plan_from(ps, n, i + 1, rest_end, plan2)
                }
            },
        }
    }
}

/// The plan for binding the array pattern `ps` to `n` elements.
pub open spec fn spec_array_plan(ps: Seq<ArrayPatV>, n: nat) -> Result<Seq<(Seq<char>, ElemSource)>, Seq<char>> {
    match array_plan_from(ps, n, 0, 0, seq![]) {
        Err(m) => Err(m),
        Ok((pos, plan)) => if !(exists|i: int| 0 <= i < ps.len() && (#[trigger] ps[i]) is Rest) && pos < n {
            Err("too many elements in array: pattern expects "@ + decimal(ps.len()) + " but got "@ + decimal(n))
        } else {
            Ok(plan)
        },
    }
}


// ── Executable plans ────────────────────────────────────────────

pub open spec fn labels_view(v: Seq<String>) -> Seq<Seq<char>> {
    v.map_values(|s: String| s@)
}

pub open spec fn used_view(v: Seq<usize>) -> Seq<nat> {
    v.map_values(|i: usize| i as nat)
}

pub open spec fn opt_labels(o: Option<&Vec<String>>) -> Option<Seq<Seq<char>>> {
    match o {
        Some(v) => Some(labels_view(v@)),
        None => None,
    }
}

fn is_unlabeled_field(f: &PatField) -> (r: bool)
    ensures
        r == is_unlabeled(PatFieldV { label: opt_str(f.label), binding: f.binding@, is_rest: f.is_rest }),
{
    !f.is_rest && f.label.is_none() && !crate::typecheck::is_underscore(&f.binding)
}

/// The first index of a field labeled `name`.
fn label_index(labels: &Vec<String>, name: &String) -> (r: Option<usize>)
    ensures
        match r {
            Some(j) => find_label(labels_view(labels@), name@, 0) == Some(j as nat),
            None => find_label(labels_view(labels@), name@, 0) is None,
        },
        r is Some <==> has_label_match(labels_view(labels@), name@),
{
    let ghost lv = labels_view(labels@);
    let mut j: usize = 0;
    while j < labels.len()
        invariant
            j <= labels.len(),
            lv == labels_view(labels@),
            lv.len() == labels.len(),
            find_label(lv, name@, 0) == find_label(lv, name@, j as nat),
            forall|q: int| 0 <= q < j ==> lv[q] != name@,
        decreases labels.len() - j,
    {
        if labels[j] == *name {
            assert(lv[j as int] == name@);
            return Some(j);
        }
        proof {
            i_step(lv, name@, j as nat);
        }
        j = j + 1;
    }
    proof {
        assert(find_label(lv, name@, j as nat) is None);
    }
    None
}

proof fn i_step(lv: Seq<Seq<char>>, name: Seq<char>, j: nat)
    requires
        j < lv.len(),
        lv[j as int] != name,
    ensures
        find_label(lv, name, j) == find_label(lv, name, j + 1),
{
}

fn contains_index(used: &Vec<usize>, j: usize) -> (r: bool)
    ensures
        r == used_view(used@).contains(j as nat),
{
    let mut k: usize = 0;
    while k < used.len()
        invariant
            k <= used.len(),
            forall|q: int| 0 <= q < k ==> used@[q] != j,
        decreases used.len() - k,
    {
        if used[k] == j {
            assert(used_view(used@)[k as int] == j as nat);
            return true;
        }
        k = k + 1;
    }
    proof {
        if used_view(used@).contains(j as nat) {
            let q = choose|q: int| 0 <= q < used_view(used@).len() && used_view(used@)[q] == j as nat;
            assert(used@[q] == j);
        }
    }
    false
}

/// The first index not in `used` (whose label is `want`, when given).
fn unused_index(labels: &Vec<String>, used: &Vec<usize>, want: Option<&String>) -> (r: Option<usize>)
    ensures
        match r {
            Some(j) => find_unused(labels_view(labels@), used_view(used@), opt_label(want), 0) == Some(j as nat),
            None => find_unused(labels_view(labels@), used_view(used@), opt_label(want), 0) is None,
        },
{
    let ghost lv = labels_view(labels@);
    let ghost uv = used_view(used@);
    let mut j: usize = 0;
    while j < labels.len()
        invariant
            j <= labels.len(),
            lv == labels_view(labels@),
            uv == used_view(used@),
            lv.len() == labels.len(),
            find_unused(lv, uv, opt_label(want), 0) == find_unused(lv, uv, opt_label(want), j as nat),
        decreases labels.len() - j,
    {
        let ok = !contains_index(used, j) && match want {
            Some(w) => labels[j] == *w,
            None => true,
        };
        if ok {
            return Some(j);
        }
        j = j + 1;
    }
    None
}

pub open spec fn opt_label(o: Option<&String>) -> Option<Seq<char>> {
    match o {
        Some(s) => Some(s@),
        None => None,
    }
}

/// Whether the fields bind by name or by position, or why neither.
fn by_name_choice_in(fs: &Vec<PatField>, labels: &Vec<String>) -> (r: Result<bool, String>)
    ensures
        match by_name_choice(pat_fields_view(fs@), labels_view(labels@)) {
            Ok(b) => r == Ok::<bool, String>(b),
            Err(m) => r is Err && r->Err_0@ == m,
        },
{
    let ghost pv = pat_fields_view(fs@);
    let ghost lv = labels_view(labels@);
    proof {
        lemma_pat_fields_view(fs@);
    }
    let mut i: usize = 0;
    while i < fs.len()
        invariant
            i <= fs.len(),
            pv == pat_fields_view(fs@),
            pv.len() == fs.len(),
            forall|j: int| 0 <= j < fs.len() ==> #[trigger] pv[j] == (PatFieldV { label: opt_str(fs@[j].label), binding: fs@[j].binding@, is_rest: fs@[j].is_rest }),
            forall|j: int| 0 <= j < i ==> (#[trigger] pv[j]).label is None,
        decreases fs.len() - i,
    {
        if fs[i].label.is_some() {
            assert(pv[i as int].label is Some);
            return Ok(true);
        }
        i = i + 1;
    }
    let mut any_unlabeled = false;
    let mut all_found = true;
    let mut partial = false;
    let mut i: usize = 0;
    while i < fs.len()
        invariant
            i <= fs.len(),
            pv == pat_fields_view(fs@),
            lv == labels_view(labels@),
            pv.len() == fs.len(),
            lv.len() == labels.len(),
            forall|j: int| 0 <= j < fs.len() ==> #[trigger] pv[j] == (PatFieldV { label: opt_str(fs@[j].label), binding: fs@[j].binding@, is_rest: fs@[j].is_rest }),
            forall|j: int| 0 <= j < fs.len() ==> (#[trigger] pv[j]).label is None,
            any_unlabeled == exists|j: int| 0 <= j < i && is_unlabeled(#[trigger] pv[j]),
            all_found == forall|j: int| 0 <= j < i && is_unlabeled(#[trigger] pv[j]) ==> has_label_match(lv, pv[j].binding),
            partial == exists|j: int| 0 <= j < i && partial_match(#[trigger] pv[j], lv),
        decreases fs.len() - i,
    {
        if is_unlabeled_field(&fs[i]) {
            assert(is_unlabeled(pv[i as int]));
            any_unlabeled = true;
            if label_index(labels, &fs[i].binding).is_none() {
                all_found = false;
            }
            let mut found = false;
            let mut q: usize = 0;
            while q < labels.len()
                invariant
                    q <= labels.len(),
                    i < fs.len(),
                    lv == labels_view(labels@),
                    lv.len() == labels.len(),
                    pv.len() == fs.len(),
                    pv[i as int].binding == fs@[i as int].binding@,
                    found == exists|q2: int| 0 <= q2 < q && #[trigger] lv[q2] == pv[i as int].binding && parse_u64_spec(lv[q2]) is None,
                decreases labels.len() - q,
            {
                assert(lv[q as int] == labels@[q as int]@);
                if labels[q] == fs[i].binding && parse_u64(labels[q].as_str()).is_none() {
                    assert(lv[q as int] == pv[i as int].binding);
                    found = true;
                }
                q = q + 1;
            }
            assert(found == partial_match(pv[i as int], lv));
            if found {
                partial = true;
            }
        } else {
            assert(!partial_match(pv[i as int], lv));
        }
        i = i + 1;
    }
    let mut any_named = false;
    let mut any_positional = false;
    let mut q: usize = 0;
    while q < labels.len()
        invariant
            q <= labels.len(),
            lv == labels_view(labels@),
            lv.len() == labels.len(),
            any_named == exists|j: int| 0 <= j < q && parse_u64_spec(#[trigger] lv[j]) is None,
            any_positional == exists|j: int| 0 <= j < q && parse_u64_spec(#[trigger] lv[j]) is Some,
        decreases labels.len() - q,
    {
        assert(lv[q as int] == labels@[q as int]@);
        if parse_u64(labels[q].as_str()).is_none() {
            assert(parse_u64_spec(lv[q as int]) is None);
            any_named = true;
        } else {
            assert(parse_u64_spec(lv[q as int]) is Some);
            any_positional = true;
        }
        q = q + 1;
    }
    if !any_unlabeled {
        return Ok(any_named);
    }
    if all_found {
        return Ok(true);
    }
    if any_positional {
        if partial {
            return Err(crate::text::text("partial name match in destructuring: either all names must match struct fields or none"));
        }
        return Ok(false);
    }
    let mut i: usize = 0;
    while i < fs.len()
        invariant
            i <= fs.len(),
            pv == pat_fields_view(fs@),
            lv == labels_view(labels@),
            pv.len() == fs.len(),
            forall|j: int| 0 <= j < fs.len() ==> #[trigger] pv[j] == (PatFieldV { label: opt_str(fs@[j].label), binding: fs@[j].binding@, is_rest: fs@[j].is_rest }),
            lv.len() == labels.len(),
            forall|j: int| 0 <= j < fs.len() ==> (#[trigger] pv[j]).label is None,
            exists|j: int| 0 <= j < fs.len() && is_unlabeled(#[trigger] pv[j]),
            !(exists|j: int| 0 <= j < lv.len() && parse_u64_spec(#[trigger] lv[j]) is Some),
            !(forall|j: int| 0 <= j < fs.len() && is_unlabeled(#[trigger] pv[j]) ==> has_label_match(lv, pv[j].binding)),
            first_missing(pv, lv, 0) == first_missing(pv, lv, i as nat),
            forall|j: int| 0 <= j < i ==> !(is_unlabeled(#[trigger] pv[j]) && !has_label_match(lv, pv[j].binding)),
        decreases fs.len() - i,
    {
        if is_unlabeled_field(&fs[i]) && label_index(labels, &fs[i].binding).is_none() {
            let a = concat("field '", fs[i].binding.as_str());
            return Err(concat(a.as_str(), "' not found in struct"));
        }
        i = i + 1;
    }
    proof {
        let j = choose|j: int| 0 <= j < fs.len() && is_unlabeled(#[trigger] pv[j]) && !has_label_match(lv, pv[j].binding);
        assert(false);
    }
    Err(String::new())
}


/// The fields not yet used, for a rest pattern.
fn rest_items_in(labels: &Vec<String>, used: &Vec<usize>) -> (r: Vec<(String, usize)>)
    ensures
        r@.map_values(|p: (String, usize)| (p.0@, p.1 as nat)) == rest_items(labels_view(labels@), used_view(used@), 0, 0, seq![]),
{
    let ghost lv = labels_view(labels@);
    let ghost uv = used_view(used@);
    let mut out: Vec<(String, usize)> = Vec::new();
    let mut pos: u64 = 0;
    let mut j: usize = 0;
    proof {
        assert(out@.map_values(|p: (String, usize)| (p.0@, p.1 as nat)) =~= seq![]);
    }
    while j < labels.len()
        invariant
            j <= labels.len(),
            pos <= j,
            lv == labels_view(labels@),
            uv == used_view(used@),
            lv.len() == labels.len(),
            rest_items(lv, uv, 0, 0, seq![]) == rest_items(
                lv,
                uv,
                j as nat,
                pos as nat,
                out@.map_values(|p: (String, usize)| (p.0@, p.1 as nat)),
            ),
        decreases labels.len() - j,
    {
        assert(lv[j as int] == labels@[j as int]@);
        if !contains_index(used, j) {
            let ghost prev = out@;
            if parse_u64(labels[j].as_str()).is_some() {
                out.push((u64_decimal(pos), j));
                pos = pos + 1;
            } else {
                out.push((labels[j].clone(), j));
            }
            proof {
                assert(out@.map_values(|p: (String, usize)| (p.0@, p.1 as nat)) =~= prev.map_values(
                    |p: (String, usize)| (p.0@, p.1 as nat),
                ).push((out@.last().0@, j as nat)));
            }
        }
        j = j + 1;
    }
    out
}

/// The plan for a fields pattern against the labels of a struct.
fn fields_plan_in(fs: &Vec<PatField>, labels: &Vec<String>, by_name: bool) -> (r: Result<(Vec<usize>, Vec<(String, FieldSource)>), String>)
    ensures
        match fields_plan(pat_fields_view(fs@), labels_view(labels@), by_name, 0, seq![], seq![]) {
            Ok((u, p)) => r is Ok && used_view(r->Ok_0.0@) == u && plan_view(r->Ok_0.1@) == p,
            Err(m) => r is Err && r->Err_0@ == m,
        },
{
    let ghost pv = pat_fields_view(fs@);
    let ghost lv = labels_view(labels@);
    proof {
        lemma_pat_fields_view(fs@);
    }
    let mut used: Vec<usize> = Vec::new();
    let mut plan: Vec<(String, FieldSource)> = Vec::new();
    proof {
        assert(used_view(used@) =~= seq![]);
        assert(plan_view(plan@) =~= seq![]);
    }
    let mut i: usize = 0;
    while i < fs.len()
        invariant
            i <= fs.len(),
            used.len() <= i,
            pv == pat_fields_view(fs@),
            lv == labels_view(labels@),
            pv.len() == fs.len(),
            lv.len() == labels.len(),
            forall|j: int| 0 <= j < fs.len() ==> #[trigger] pv[j] == (PatFieldV { label: opt_str(fs@[j].label), binding: fs@[j].binding@, is_rest: fs@[j].is_rest }),
            fields_plan(pv, lv, by_name, 0, seq![], seq![]) == fields_plan(pv, lv, by_name, i as nat, used_view(used@), plan_view(plan@)),
        decreases fs.len() - i,
    {
        let f = &fs[i];
        let keep = !crate::typecheck::is_underscore(&f.binding);
        let ghost uv = used_view(used@);
        let ghost plv = plan_view(plan@);
        if f.is_rest {
            let items = rest_items_in(labels, &used);
            if keep {
                plan.push((f.binding.clone(), FieldSource::Rest(items)));
                proof {
                    assert(plan_view(plan@) =~= plv.push((pv[i as int].binding, SourceV::Rest(rest_items(lv, uv, 0, 0, seq![])))));
                }
            }
        } else if let Some(l) = &f.label {
            match label_index(labels, l) {
                Some(j) => {
                    used.push(j);
                    proof {
                        assert(used_view(used@) =~= uv.push(j as nat));
                    }
                    if keep {
                        plan.push((f.binding.clone(), FieldSource::Field(j)));
                        proof {
                            assert(plan_view(plan@) =~= plv.push((pv[i as int].binding, SourceV::Field(j as nat))));
                        }
                    }
                },
                None => {
                    let a = concat("field '", l.as_str());
                    return Err(concat(a.as_str(), "' not found in struct"));
                },
            }
        } else if by_name {
            if !keep {
                match unused_index(labels, &used, None) {
                    Some(j) => {
                        used.push(j);
                        proof {
                            assert(used_view(used@) =~= uv.push(j as nat));
                        }
                    },
                    None => {},
                }
            } else {
                match label_index(labels, &f.binding) {
                    Some(j) => {
                        used.push(j);
                        plan.push((f.binding.clone(), FieldSource::Field(j)));
                        proof {
                            assert(used_view(used@) =~= uv.push(j as nat));
                            assert(plan_view(plan@) =~= plv.push((pv[i as int].binding, SourceV::Field(j as nat))));
                        }
                    },
                    None => {
                        let a = concat("field '", f.binding.as_str());
                        return Err(concat(a.as_str(), "' not found in struct"));
                    },
                }
            }
        } else {
            let pos_label = u64_decimal(used.len() as u64);
            match unused_index(labels, &used, Some(&pos_label)) {
                Some(j) => {
                    used.push(j);
                    proof {
                        assert(used_view(used@) =~= uv.push(j as nat));
                    }
                    if keep {
                        plan.push((f.binding.clone(), FieldSource::Field(j)));
                        proof {
                            assert(plan_view(plan@) =~= plv.push((pv[i as int].binding, SourceV::Field(j as nat))));
                        }
                    }
                },
                None => {
                    let a = concat("positional field '", pos_label.as_str());
                    return Err(concat(a.as_str(), "' not found in struct"));
                },
            }
        }
        i = i + 1;
    }
    Ok((used, plan))
}

/// The plan for binding `pattern` to a value: which part of the value each
/// name takes. `labels` holds the labels of the value's fields when the
/// value is a struct (none for unit) and is `None` for any other value.
pub fn struct_plan(pattern: &Pattern, labels: Option<&Vec<String>>) -> (r: Result<Vec<(String, FieldSource)>, String>)
    ensures
        match spec_struct_plan(pattern_view(*pattern), opt_labels(labels)) {
            Ok(p) => r is Ok && plan_view(r->Ok_0@) == p,
            Err(m) => r is Err && r->Err_0@ == m,
        },
{
    match pattern {
        Pattern::Name(n) => {
            let mut plan: Vec<(String, FieldSource)> = Vec::new();
            plan.push((n.clone(), FieldSource::Whole));
            proof {
                assert(plan_view(plan@) =~= seq![(n@, SourceV::Whole)]);
            }
            Ok(plan)
        },
        Pattern::Discard => {
            let plan: Vec<(String, FieldSource)> = Vec::new();
            proof {
                assert(plan_view(plan@) =~= seq![]);
            }
            Ok(plan)
        },
        Pattern::Fields(fs) => match labels {
            None => Err(crate::text::text("cannot destructure non-struct value with let(...)")),
            Some(ls) => {
                let by_name = match by_name_choice_in(fs, ls) {
                    Ok(b) => b,
                    Err(m) => return Err(m),
                };
                let (used, plan) = match fields_plan_in(fs, ls, by_name) {
                    Ok(x) => x,
                    Err(m) => return Err(m),
                };
                proof {
                    lemma_pat_fields_view(fs@);
                }
                let mut has_rest = false;
                let mut i: usize = 0;
                while i < fs.len()
                    invariant
                        i <= fs.len(),
                        pat_fields_view(fs@).len() == fs.len(),
                        forall|j: int| 0 <= j < fs.len() ==> #[trigger] pat_fields_view(fs@)[j] == (PatFieldV { label: opt_str(fs@[j].label), binding: fs@[j].binding@, is_rest: fs@[j].is_rest }),
                        has_rest == exists|j: int| 0 <= j < i && (#[trigger] pat_fields_view(fs@)[j]).is_rest,
                    decreases fs.len() - i,
                {
                    if fs[i].is_rest {
                        assert(pat_fields_view(fs@)[i as int].is_rest);
                        has_rest = true;
                    }
                    i = i + 1;
                }
                if !has_rest && used.len() < ls.len() {
                    let a = concat("too many fields in struct: pattern expects ", u64_decimal(fs.len() as u64).as_str());
                    let b = concat(a.as_str(), " but got ");
                    return Err(concat(b.as_str(), u64_decimal(ls.len() as u64).as_str()));
                }
                Ok(plan)
            },
        },
    }
}

/// The plan for binding the array pattern `patterns` to `n` elements:
/// which element or which slice each name takes.
pub fn array_plan(patterns: &Vec<ArrayPat>, n: usize) -> (r: Result<Vec<(String, ElemSource)>, String>)
    ensures
        match spec_array_plan(array_pats_view(patterns@), n as nat) {
            Ok(p) => r is Ok && array_plan_view(r->Ok_0@) == p,
            Err(m) => r is Err && r->Err_0@ == m,
        },
{
    let ghost av = array_pats_view(patterns@);
    proof {
        crate::typecheck::lemma_array_pats_view(patterns@);
    }
    let mut plan: Vec<(String, ElemSource)> = Vec::new();
    proof {
        assert(array_plan_view(plan@) =~= seq![]);
    }
    let mut pos: usize = 0;
    let mut has_rest = false;
    let mut i: usize = 0;
    while i < patterns.len()
        invariant
            i <= patterns.len(),
            pos <= n,
            av == array_pats_view(patterns@),
            av.len() == patterns.len(),
            forall|j: int| 0 <= j < patterns.len() ==> #[trigger] av[j] == array_pat_view(patterns@[j]),
            array_plan_from(av, n as nat, 0, 0, seq![]) == array_plan_from(av, n as nat, i as nat, pos as nat, array_plan_view(plan@)),
            has_rest == exists|j: int| 0 <= j < i && (#[trigger] av[j]) is Rest,
        decreases patterns.len() - i,
    {
        let ghost plv = array_plan_view(plan@);
        match &patterns[i] {
            ArrayPat::Name(name) => {
                if pos >= n {
                    return Err(crate::text::text("not enough elements in array for destructuring"));
                }
                plan.push((name.clone(), ElemSource::Elem(pos)));
                proof {
                    assert(array_plan_view(plan@) =~= plv.push((name@, ElemSource::Elem(pos))));
                }
                pos = pos + 1;
            },
            ArrayPat::Discard => {
                if pos >= n {
                    return Err(crate::text::text("not enough elements in array for destructuring"));
                }
                pos = pos + 1;
            },
            ArrayPat::Rest(name) => {
                has_rest = true;
                let remaining = patterns.len() - i - 1;
                let rest_end = if n >= remaining { n - remaining } else { 0 };
                if pos > rest_end {
                    return Err(crate::text::text("not enough elements in array for destructuring"));
                }
                match name {
                    Some(nm) => {
                        plan.push((nm.clone(), ElemSource::Slice(pos, rest_end)));
                        proof {
                            assert(array_plan_view(plan@) =~= plv.push((nm@, ElemSource::Slice(pos, rest_end))));
                        }
                    },
                    None => {},
                }
                pos = rest_end;
            },
        }
        i = i + 1;
    }
    if !has_rest && pos < n {
        let a = concat("too many elements in array: pattern expects ", u64_decimal(patterns.len() as u64).as_str());
        let b = concat(a.as_str(), " but got ");
        return Err(concat(b.as_str(), u64_decimal(n as u64).as_str()));
    }
    Ok(plan)
}

} // verus!
