//! The type checker: a forward checker over the MIR with unification and
//! bidirectional inference. It gives each node a type, checks bindings,
//! calls, method dispatch through method sets, the consistency of branch
//! arms, struct and array construction, destructuring, and the creation of
//! method sets. Numeric literal types coerce to concrete types through
//! unification and default to `Int` / `Float` when bound.
//!
//! The model of the checker is `check_fuel`: given enough fuel it yields the
//! checker's result and the environment it leaves behind; `None` for every
//! fuel means the checker does not come back (it recurses forever, or
//! reaches a case it cannot handle).
use vstd::prelude::*;

use crate::ast::{ArrayPatV, BranchBindingV, PatFieldV, PatternV};
use crate::mir::{MirArmV, MirFieldV, MirPatternV, MirV};
use crate::text::{decimal, parse_u64_spec};
use crate::types::{
    TyV, default_spec, payload_for_tag, prepend_arg_ok, spec_prepend_arg_ty, spec_ty_to_tag_id,
    spec_unify, spec_unify_with_generics, subst_spec, ugen_terminates,
};

verus! {

// ── Association lists ───────────────────────────────────────────

/// The value of the last entry of `s` with key `k`.
pub open spec fn assoc_get<K, V>(s: Seq<(K, V)>, k: K) -> Option<V>
    decreases s.len(),
{
    if s.len() == 0 {
        None
    } else if s.last().0 == k {
        Some(s.last().1)
    } else {
        assoc_get(s.drop_last(), k)
    }
}

/// The method set registry answers lookups as a map does: after recording
/// the method set `id`, a lookup of `id` gives what was recorded and a
/// lookup of any other id gives what it gave before.
pub proof fn law_method_set_registry_is_a_map(e: EnvV, id: u64, tag_id: u64, methods: TyV, other: u64)
    ensures
        assoc_get(e.register(id, tag_id, methods).method_sets, id) == Some((tag_id, methods)),
        other != id ==> assoc_get(e.register(id, tag_id, methods).method_sets, other) == assoc_get(e.method_sets, other),
{
    assert(e.register(id, tag_id, methods).method_sets.drop_last() =~= e.method_sets);
}

/// `s` without its entries with key `k`.
pub open spec fn without_key<K, V>(s: Seq<(K, V)>, k: K) -> Seq<(K, V)>
    decreases s.len(),
{
    if s.len() == 0 {
        s
    } else if s.last().0 == k {
        without_key(s.drop_last(), k)
    } else {
        without_key(s.drop_last(), k).push(s.last())
    }
}

/// The value of the first entry of `s` with key `k`.
pub open spec fn first_with_key<K, V>(s: Seq<(K, V)>, k: K) -> Option<V>
    decreases s.len(),
{
    if s.len() == 0 {
        None
    } else if s[0].0 == k {
        Some(s[0].1)
    } else {
        first_with_key(s.drop_first(), k)
    }
}

// ── The environment ─────────────────────────────────────────────

/// The model of a type environment. Lookups in the association lists take
/// the last entry with the key; the bindings form a stack.
pub struct EnvV {
    pub bindings: Seq<(Seq<char>, TyV)>,
    pub modules: Seq<(Seq<char>, TyV)>,
    pub next_ms_id: u64,
    pub next_infer_id: u64,
    /// Method set id, then its tag id and its methods.
    pub method_sets: Seq<(u64, (u64, TyV))>,
    /// Block bodies stored for re-checking when the name is called.
    pub block_bodies: Seq<(Seq<char>, MirV)>,
}

/// The counter after `n`; it comes round to 0 after `u64::MAX`.
pub open spec fn next_id(n: u64) -> u64 {
    if n == u64::MAX {
        0
    } else {
        (n + 1) as u64
    }
}

/// The name under which a method set in scope is bound.
pub open spec fn ms_name() -> Seq<char> {
    seq!['\0', 'm', 's']
}

/// The name of the value piped into a `let`.
pub open spec fn passthrough_name() -> Seq<char> {
    seq!['\0']
}

pub open spec fn in_name() -> Seq<char> {
    seq!['i', 'n']
}

pub open spec fn starts_with_ms(n: Seq<char>) -> bool {
    n.len() >= 3 && n[0] == '\0' && n[1] == 'm' && n[2] == 's'
}

impl EnvV {
    pub open spec fn empty() -> EnvV {
        EnvV {
            bindings: seq![],
            modules: seq![],
            next_ms_id: 0,
            next_infer_id: 0,
            method_sets: seq![],
            block_bodies: seq![],
        }
    }

    pub open spec fn get(self, n: Seq<char>) -> Option<TyV> {
        assoc_get(self.bindings, n)
    }

    pub open spec fn bind(self, n: Seq<char>, t: TyV) -> EnvV {
        EnvV { bindings: self.bindings.push((n, t)), ..self }
    }

    /// Pops the last binding; no change on an empty stack.
    pub open spec fn pop(self) -> EnvV {
        if self.bindings.len() > 0 {
            EnvV { bindings: self.bindings.drop_last(), ..self }
        } else {
            self
        }
    }

    pub open spec fn pop_n(self, k: nat) -> EnvV
        decreases k,
    {
        if k == 0 {
            self
        } else {
            self.pop().pop_n((k - 1) as nat)
        }
    }

    pub open spec fn fresh_infer(self) -> (TyV, EnvV) {
        (TyV::Infer(self.next_infer_id), EnvV { next_infer_id: next_id(self.next_infer_id), ..self })
    }

    pub open spec fn fresh_ms(self) -> (u64, EnvV) {
        (self.next_ms_id, EnvV { next_ms_id: next_id(self.next_ms_id), ..self })
    }

    pub open spec fn register(self, id: u64, tag_id: u64, methods: TyV) -> EnvV {
        EnvV { method_sets: self.method_sets.push((id, (tag_id, methods))), ..self }
    }

    pub open spec fn store_body(self, n: Seq<char>, body: MirV) -> EnvV {
        EnvV { block_bodies: self.block_bodies.push((n, body)), ..self }
    }

    pub open spec fn forget_body(self, n: Seq<char>) -> EnvV {
        EnvV { block_bodies: without_key(self.block_bodies, n), ..self }
    }

    /// The body stored for `n` when `value` is a block, else no body.
    pub open spec fn note_body(self, n: Seq<char>, value: MirV) -> EnvV {
        if value is Block || value is BranchBlock {
            self.store_body(n, value)
        } else {
            self.forget_body(n)
        }
    }
}

/// The type of method `method` for the tag `tag_id` in the method sets in
/// scope, the most recently bound first.
pub open spec fn find_method(
    bs: Seq<(Seq<char>, TyV)>,
    sets: Seq<(u64, (u64, TyV))>,
    tag_id: u64,
    method: Seq<char>,
) -> Option<TyV>
    decreases bs.len(),
{
    if bs.len() == 0 {
        None
    } else {
        let (n, t) = bs.last();
        let found = if starts_with_ms(n) {
            match t {
                TyV::MethodSet(id, ms_tag) => if ms_tag == tag_id {
                    match assoc_get(sets, id) {
                        Some((_, TyV::Struct(fs))) => first_with_key(fs, method),
                        _ => None,
                    }
                } else {
                    None
                },
                _ => None,
            }
        } else {
            None
        };
        match found {
            Some(mt) => Some(mt),
            None => find_method(bs.drop_last(), sets, tag_id, method),
        }
    }
}

// ── Messages ────────────────────────────────────────────────────

pub open spec fn undefined_tag_msg(name: Seq<char>) -> Seq<char> {
    "type error: undefined tag '"@ + name + "' in branch pattern"@
}

pub open spec fn method_error_msg(method: Seq<char>, m: Seq<char>) -> Seq<char> {
    "type error in ."@ + method + "(): "@ + m
}

pub open spec fn is_comparison_method(m: Seq<char>) -> bool {
    m == "eq"@ || m == "not_eq"@ || m == "lt"@ || m == "gt"@ || m == "lt_eq"@ || m == "gt_eq"@
}

// ── Pieces without nested checks ────────────────────────────────

/// The type of `.field` on a value of type `t`.
pub open spec fn field_access_ty(t: TyV, field: Seq<char>) -> Result<TyV, Seq<char>> {
    match t {
        TyV::Struct(fs) => match first_with_key(fs, field) {
            Some(ft) => Ok(ft),
            None => Err("type error: field '"@ + field + "' not found in struct"@),
        },
        TyV::Infer(_) => Err("type error: field access '"@ + field + "' on value of unknown type"@),
        _ => Err("type error: field access on non-struct value"@),
    }
}

/// `acc` followed by the fields of a spread struct from index `i` on, its
/// positional ones renumbered from `pos`; also the next positional index.
pub open spec fn spread_from(
    fs: Seq<(Seq<char>, TyV)>,
    i: nat,
    acc: Seq<(Seq<char>, TyV)>,
    pos: nat,
) -> (Seq<(Seq<char>, TyV)>, nat)
    decreases fs.len() - i,
{
    if i >= fs.len() {
        (acc, pos)
    } else {
        let (l, t) = fs[i as int];
        if parse_u64_spec(l) is Some {
            spread_from(fs, i + 1, acc.push((decimal(pos), t)), pos + 1)
        } else {
            spread_from(fs, i + 1, acc.push((l, t)), pos)
        }
    }
}

/// Adds a checked field of a struct literal to `acc`, with the next
/// positional index.
pub open spec fn add_field(acc: Seq<(Seq<char>, TyV)>, pos: nat, f: MirFieldV, t: TyV) -> (Seq<(Seq<char>, TyV)>, nat) {
    if f.is_spread {
        match t {
            TyV::Struct(sfs) => spread_from(sfs, 0, acc, pos),
            TyV::Unit => (acc, pos),
            _ => (acc.push((decimal(pos), t)), pos + 1),
        }
    } else {
        match f.label {
            Some(l) => (acc.push((l, t)), pos),
            None => (acc.push((decimal(pos), t)), pos + 1),
        }
    }
}

/// Whether a branch pattern can match a value of type `input`.
pub open spec fn can_match(p: MirPatternV, input: TyV, e: EnvV) -> bool {
    match p {
        MirPatternV::Tag(name, _) => match e.get(name) {
            Some(TyV::TagConstructor(id)) => payload_for_tag(id, input) is Some,
            _ => false,
        },
        _ => true,
    }
}

pub open spec fn is_tag_constructor(o: Option<TyV>) -> bool {
    o matches Some(TyV::TagConstructor(_))
}

/// The first arm whose tag pattern names no tag constructor in scope.
pub open spec fn first_undefined_tag(arms: Seq<MirArmV>, e: EnvV) -> Option<Seq<char>>
    decreases arms.len(),
{
    if arms.len() == 0 {
        None
    } else {
        match arms[0].pattern {
            MirPatternV::Tag(name, _) => if !is_tag_constructor(e.get(name)) {
                Some(name)
            } else {
                first_undefined_tag(arms.drop_first(), e)
            },
            _ => first_undefined_tag(arms.drop_first(), e),
        }
    }
}

/// The tag name of the first arm with a tag pattern, or `?`.
pub open spec fn first_tag_name(arms: Seq<MirArmV>) -> Seq<char>
    decreases arms.len(),
{
    if arms.len() == 0 {
        "?"@
    } else {
        match arms[0].pattern {
            MirPatternV::Tag(name, _) => name,
            _ => first_tag_name(arms.drop_first()),
        }
    }
}

/// Binds what a branch pattern introduces; the number of bindings added.
pub open spec fn bind_branch_pattern(p: MirPatternV, input: TyV, e: EnvV) -> (Result<nat, Seq<char>>, EnvV) {
    match p {
        MirPatternV::Tag(name, binding) => if !(input is Infer) && !is_tag_constructor(e.get(name)) {
            (Err(undefined_tag_msg(name)), e)
        } else {
            match binding {
                Some(BranchBindingV::Name(n)) => {
                    let resolved = match e.get(name) {
                        Some(TyV::TagConstructor(id)) => payload_for_tag(id, input),
                        _ => None,
                    };
                    let (pt, e1) = match resolved {
                        Some(t) => (t, e),
                        None => e.fresh_infer(),
                    };
                    (Ok(1nat), e1.bind(n, pt))
                },
                _ => (Ok(0nat), e),
            }
        },
        MirPatternV::Binding(n) => (Ok(1nat), e.bind(n, input)),
        _ => (Ok(0nat), e),
    }
}

/// The fields of a struct type (none for any other type).
pub open spec fn struct_fields_of(t: TyV) -> Seq<(Seq<char>, TyV)> {
    match t {
        TyV::Struct(fs) => fs,
        _ => seq![],
    }
}

pub open spec fn is_discard_name(n: Seq<char>) -> bool {
    n == seq!['_']
}

/// An unlabeled field of a pattern that binds a name.
pub open spec fn is_unlabeled(f: PatFieldV) -> bool {
    !f.is_rest && f.label is None && !is_discard_name(f.binding)
}

/// Whether a fields pattern binds by field name (else by position): when a
/// field has a label; when no field is unlabeled, if the input has a named
/// field; otherwise when every unlabeled field names a field of the input.
pub open spec fn binds_by_name(fs: Seq<PatFieldV>, input: TyV) -> bool {
    let sf = struct_fields_of(input);
    if exists|i: int| 0 <= i < fs.len() && (#[trigger] fs[i]).label is Some {
        true
    } else if !(exists|i: int| 0 <= i < fs.len() && is_unlabeled(#[trigger] fs[i])) {
        exists|j: int| 0 <= j < sf.len() && parse_u64_spec((#[trigger] sf[j]).0) is None
    } else {
        forall|i: int|
            0 <= i < fs.len() && is_unlabeled(#[trigger] fs[i]) ==> exists|j: int|
                0 <= j < sf.len() && (#[trigger] sf[j]).0 == fs[i].binding
    }
}

/// `acc` followed by the fields of `fs` from index `i` on whose names are
/// not in `used`, positional ones renumbered from `pos`.
pub open spec fn rest_from(
    fs: Seq<(Seq<char>, TyV)>,
    i: nat,
    used: Seq<Seq<char>>,
    pos: nat,
    acc: Seq<(Seq<char>, TyV)>,
) -> Seq<(Seq<char>, TyV)>
    decreases fs.len() - i,
{
    if i >= fs.len() {
        acc
    } else {
        let (l, t) = fs[i as int];
        if used.contains(l) {
            rest_from(fs, i + 1, used, pos, acc)
        } else if parse_u64_spec(l) is Some {
            rest_from(fs, i + 1, used, pos + 1, acc.push((decimal(pos), t)))
        } else {
            rest_from(fs, i + 1, used, pos, acc.push((l, t)))
        }
    }
}

/// The type bound by a rest pattern after the keys `used`.
pub open spec fn rest_ty(input: TyV, used: Seq<Seq<char>>, e: EnvV) -> (TyV, EnvV) {
    match input {
        TyV::Struct(sf) => {
            let rem = rest_from(sf, 0, used, 0, seq![]);
            if rem.len() == 0 {
                (TyV::Unit, e)
            } else {
                (TyV::Struct(rem), e)
            }
        },
        TyV::Unit => (TyV::Unit, e),
        _ => e.fresh_infer(),
    }
}

/// Binds the fields of a pattern from index `i` on: the number of bindings
/// added and the environment after.
pub open spec fn bind_pat_fields(
    fs: Seq<PatFieldV>,
    i: nat,
    input: TyV,
    by_name: bool,
    k: nat,
    pos: nat,
    used: Seq<Seq<char>>,
    e: EnvV,
) -> (nat, EnvV)
    decreases fs.len() - i,
{
    if i >= fs.len() {
        (k, e)
    } else {
        let f = fs[i as int];
        if is_discard_name(f.binding) && !f.is_rest {
            if f.label is None && !by_name {
                bind_pat_fields(fs, i + 1, input, by_name, k, pos + 1, used.push(decimal(pos)), e)
            } else {
                bind_pat_fields(fs, i + 1, input, by_name, k, pos, used, e)
            }
        } else if f.is_rest {
            if !is_discard_name(f.binding) && f.binding.len() > 0 {
                let (rt, e1) = rest_ty(input, used, e);
                bind_pat_fields(fs, i + 1, input, by_name, k + 1, pos, used, e1.bind(f.binding, rt))
            } else {
                bind_pat_fields(fs, i + 1, input, by_name, k, pos, used, e)
            }
        } else {
            match input {
                TyV::Struct(sf) => {
                    let (key, pos2) = match f.label {
                        Some(l) => (l, pos),
                        None => if by_name {
                            (f.binding, pos)
                        } else {
                            (decimal(pos), pos + 1)
                        },
                    };
                    let (ft, e1) = match first_with_key(sf, key) {
                        Some(t) => (t, e),
                        None => e.fresh_infer(),
                    };
                    bind_pat_fields(fs, i + 1, input, by_name, k + 1, pos2, used.push(key), e1.bind(f.binding, ft))
                },
                _ => {
                    let pos2 = if f.label is None && !by_name {
                        pos + 1
                    } else {
                        pos
                    };
                    let (ft, e1) = e.fresh_infer();
                    bind_pat_fields(fs, i + 1, input, by_name, k + 1, pos2, used, e1.bind(f.binding, ft))
                },
            }
        }
    }
}

/// The element type and the rest type of an array pattern's input.
pub open spec fn array_pat_tys(input: TyV, e: EnvV) -> (TyV, TyV, EnvV) {
    match input {
        TyV::Array(elem) => (*elem, TyV::Array(elem), e),
        TyV::Str => (TyV::Str, TyV::Str, e),
        _ => {
            let (t, e1) = e.fresh_infer();
            (t, TyV::Array(Box::new(t)), e1)
        },
    }
}

/// Binds the names of an array pattern from index `i` on.
pub open spec fn bind_array_pats(ps: Seq<ArrayPatV>, i: nat, elem: TyV, rest: TyV, k: nat, e: EnvV) -> (nat, EnvV)
    decreases ps.len() - i,
{
    if i >= ps.len() {
        (k, e)
    } else {
        match ps[i as int] {
            ArrayPatV::Name(n) => bind_array_pats(ps, i + 1, elem, rest, k + 1, e.bind(n, elem)),
            ArrayPatV::Rest(Some(n)) => bind_array_pats(ps, i + 1, elem, rest, k + 1, e.bind(n, rest)),
            _ => bind_array_pats(ps, i + 1, elem, rest, k, e),
        }
    }
}

/// Binds each method set among the `prelude` fields of a piped struct:
/// how many, and the environment after.
pub open spec fn bind_prelude(fs: Seq<(Seq<char>, TyV)>, i: nat, c: nat, e: EnvV) -> (nat, EnvV)
    decreases fs.len() - i,
{
    if i >= fs.len() {
        (c, e)
    } else {
        let (l, t) = fs[i as int];
        if l == "prelude"@ {
            let (c2, e2) = bind_prelude_sets(struct_fields_of(t), 0, c, e);
            bind_prelude(fs, i + 1, c2, e2)
        } else {
            bind_prelude(fs, i + 1, c, e)
        }
    }
}

pub open spec fn bind_prelude_sets(fs: Seq<(Seq<char>, TyV)>, i: nat, c: nat, e: EnvV) -> (nat, EnvV)
    decreases fs.len() - i,
{
    if i >= fs.len() {
        (c, e)
    } else {
        let t = fs[i as int].1;
        if t is MethodSet {
            bind_prelude_sets(fs, i + 1, c + 1, e.bind(ms_name(), t))
        } else {
            bind_prelude_sets(fs, i + 1, c, e)
        }
    }
}

/// `acc` followed by the callback positions of a method's parameter from
/// index `i` on: its fields other than the receiver `0` whose type, once
/// substituted, is a function type.
pub open spec fn callbacks_from(
    fs: Seq<(Seq<char>, TyV)>,
    i: nat,
    s: Map<u64, TyV>,
    acc: Seq<(Seq<char>, TyV)>,
) -> Seq<(Seq<char>, TyV)>
    decreases fs.len() - i,
{
    if i >= fs.len() {
        acc
    } else {
        let (l, t) = fs[i as int];
        let rt = subst_spec(t, s);
        if l != "0"@ && rt is Fn {
            callbacks_from(fs, i + 1, s, acc.push((l, rt)))
        } else {
            callbacks_from(fs, i + 1, s, acc)
        }
    }
}

/// The unifier's result for `a` against the pattern `b` from an empty
/// substitution; `None` where it does not come back.
pub open spec fn unify_generic(a: TyV, b: TyV) -> Option<(Result<TyV, Seq<char>>, Map<u64, TyV>)> {
    if ugen_terminates(a, b, Map::empty()) {
        Some(spec_unify_with_generics(a, b, Map::empty()))
    } else {
        None
    }
}

// ── The checker ─────────────────────────────────────────────────

/// A check's outcome with the environment after it; `None` when out of fuel.
pub type Checked = Option<(Result<TyV, Seq<char>>, EnvV)>;

/// What checking `m` in `e` gives with `fuel` nested steps.
pub open spec fn check_fuel(m: MirV, e: EnvV, fuel: nat) -> Checked
    decreases fuel,
{
    if fuel == 0 {
        None
    } else {
        let f = (fuel - 1) as nat;
        match m {
            MirV::Int(_) => Some((Ok(TyV::IntLiteral), e)),
            MirV::Float(_) => Some((Ok(TyV::FloatLiteral), e)),
            MirV::Bool(_) => Some((Ok(TyV::Bool), e)),
            MirV::Str(_) => Some((Ok(TyV::Str), e)),
            MirV::Char(_) => Some((Ok(TyV::Char), e)),
            MirV::Byte(_) => Some((Ok(TyV::Byte), e)),
            MirV::Unit => Some((Ok(TyV::Unit), e)),
            MirV::Ident(n) => match e.get(n) {
                Some(t) => Some((Ok(t), e)),
                None => Some((Err("type error: undefined variable: "@ + n), e)),
            },
            MirV::Import(n) => match assoc_get(e.modules, n) {
                Some(t) => Some((Ok(t), e)),
                None => Some((Err("type error: module not provided: "@ + n), e)),
            },
            MirV::FieldAccess(x, field) => match check_fuel(*x, e, f) {
                Some((Ok(t), e2)) => Some((field_access_ty(t, field), e2)),
                other => other,
            },
            MirV::Struct(fs) => match struct_fuel(fs, 0, seq![], 0, false, e, f) {
                None => None,
                Some((Err(msg), e2)) => Some((Err(msg), e2)),
                Some((Ok(tfs), e2)) => Some((Ok(TyV::Struct(tfs)), e2)),
            },
            MirV::Bind(name, value, body) => {
                let e1 = e.note_body(name, *value);
                match check_fuel(*value, e1, f) {
                    Some((Ok(vt), e2)) => match check_fuel(*body, e2.bind(name, default_spec(vt)), f) {
                        Some((Ok(bt), e3)) => Some((Ok(bt), e3.pop())),
                        other => other,
                    },
                    other => other,
                }
            },
            MirV::Pipe(l, r) => pipe_fuel(*l, *r, e, f),
            MirV::Let(pat, body) => {
                let (input, e1) = e.fresh_infer();
                let_fuel(pat, *body, input, e1, f)
            },
            MirV::LetArray(pats, body) => {
                let (input, e1) = e.fresh_infer();
                let_array_fuel(pats, *body, input, e1, f)
            },
            MirV::Call(func, arg) => call_fuel(*func, *arg, e, f),
            MirV::Apply(x, body) => apply_fuel(*x, *body, e, f),
            MirV::NewTag(id, _) => Some((Ok(TyV::TagConstructor(id)), e)),
            MirV::Block(body) => {
                let (p, e1) = e.fresh_infer();
                match check_fuel(*body, e1.bind(in_name(), p), f) {
                    Some((Ok(bt), e2)) => Some((Ok(TyV::Fn(Box::new(p), Box::new(bt))), e2.pop())),
                    other => other,
                }
            },
            MirV::BranchBlock(arms) => {
                let (input, e1) = e.fresh_infer();
                match arms_fuel(arms, 0, None, input, e1.bind(in_name(), input), f) {
                    None => None,
                    Some((Err(msg), e2)) => Some((Err(msg), e2)),
                    Some((Ok(res), e2)) => {
                        let e3 = e2.pop();
                        match res {
                            Some(rt) => Some((Ok(TyV::Fn(Box::new(input), Box::new(rt))), e3)),
                            None => {
                                let (rt, e4) = e3.fresh_infer();
                                Some((Ok(TyV::Fn(Box::new(input), Box::new(rt))), e4))
                            },
                        }
                    },
                }
            },
            MirV::Array(elems) => match elems_fuel(elems, 0, None, e, f) {
                None => None,
                Some((Err(msg), e2)) => Some((Err(msg), e2)),
                Some((Ok(Some(t)), e2)) => Some((Ok(TyV::Array(Box::new(t))), e2)),
                Some((Ok(None), e2)) => {
                    let (t, e3) = e2.fresh_infer();
                    Some((Ok(TyV::Array(Box::new(t))), e3))
                },
            },
            MirV::MethodCall(recv, method, arg) => method_call_fuel(*recv, method, *arg, e, f),
        }
    }
}

/// The fields of a struct literal from index `i` on, after `acc`; with
/// `defer`, block fields get placeholder function types.
pub open spec fn struct_fuel(
    fs: Seq<MirFieldV>,
    i: nat,
    acc: Seq<(Seq<char>, TyV)>,
    pos: nat,
    defer: bool,
    e: EnvV,
    fuel: nat,
) -> Option<(Result<Seq<(Seq<char>, TyV)>, Seq<char>>, EnvV)>
    decreases fuel,
{
    if fuel == 0 {
        None
    } else if i >= fs.len() {
        Some((Ok(acc), e))
    } else {
        let f = (fuel - 1) as nat;
        let fld = fs[i as int];
        let r = if defer {
            defer_fuel(fld.value, e, f)
        } else {
            check_fuel(fld.value, e, f)
        };
        match r {
            None => None,
            Some((Err(msg), e2)) => Some((Err(msg), e2)),
            Some((Ok(t), e2)) => {
                let (acc2, pos2) = add_field(acc, pos, fld, t);
                struct_fuel(fs, i + 1, acc2, pos2, defer, e2, f)
            },
        }
    }
}

/// The elements of an array literal from index `i` on, unified with `acc`.
pub open spec fn elems_fuel(es: Seq<MirV>, i: nat, acc: Option<TyV>, e: EnvV, fuel: nat) -> Option<
    (Result<Option<TyV>, Seq<char>>, EnvV),
>
    decreases fuel,
{
    if fuel == 0 {
        None
    } else if i >= es.len() {
        Some((Ok(acc), e))
    } else {
        let f = (fuel - 1) as nat;
        match check_fuel(es[i as int], e, f) {
            None => None,
            Some((Err(msg), e2)) => Some((Err(msg), e2)),
            Some((Ok(t), e2)) => match acc {
                None => elems_fuel(es, i + 1, Some(t), e2, f),
                Some(prev) => match spec_unify(prev, t) {
                    Err(msg) => Some((Err(msg), e2)),
                    Ok(u) => elems_fuel(es, i + 1, Some(u), e2, f),
                },
            },
        }
    }
}

/// The arms of a branch block from index `i` on, for an input of type
/// `input`; their body types unified with `acc`.
pub open spec fn arms_fuel(arms: Seq<MirArmV>, i: nat, acc: Option<TyV>, input: TyV, e: EnvV, fuel: nat) -> Option<
    (Result<Option<TyV>, Seq<char>>, EnvV),
>
    decreases fuel,
{
    if fuel == 0 {
        None
    } else if i >= arms.len() {
        Some((Ok(acc), e))
    } else {
        let f = (fuel - 1) as nat;
        let arm = arms[i as int];
        match bind_branch_pattern(arm.pattern, input, e) {
            (Err(msg), e1) => Some((Err(msg), e1)),
            (Ok(k), e1) => {
                let guarded: Option<(Result<(), Seq<char>>, EnvV)> = match arm.guard {
                    Some(g) => match check_fuel(g, e1, f) {
                        None => None,
                        Some((Err(msg), e2)) => Some((Err(msg), e2)),
                        Some((Ok(_), e2)) => Some((Ok(()), e2)),
                    },
                    None => Some((Ok(()), e1)),
                };
                match guarded {
                    None => None,
                    Some((Err(msg), e2)) => Some((Err(msg), e2)),
                    Some((Ok(_), e2)) => match check_fuel(arm.body, e2, f) {
                        None => None,
                        Some((Err(msg), e3)) => Some((Err(msg), e3)),
                        Some((Ok(t), e3)) => {
                            let e4 = e3.pop_n(k);
                            match acc {
                                None => arms_fuel(arms, i + 1, Some(t), input, e4, f),
                                Some(prev) => match spec_unify(prev, t) {
                                    Err(msg) => Some((Err(msg), e4)),
                                    Ok(u) => arms_fuel(arms, i + 1, Some(u), input, e4, f),
                                },
                            }
                        },
                    },
                }
            },
        }
    }
}

/// What the checks of a branch block on an input of a known type report:
/// an arm naming no tag in scope, or no arm that can match.
pub open spec fn branch_precheck(arms: Seq<MirArmV>, input: TyV, e: EnvV) -> Option<Seq<char>> {
    if !(input is Infer) && first_undefined_tag(arms, e) is Some {
        Some(undefined_tag_msg(first_undefined_tag(arms, e)->Some_0))
    } else if !(input is Infer) && !(exists|j: int| 0 <= j < arms.len() && can_match(#[trigger] arms[j].pattern, input, e)) {
        Some(
            "type error: non-exhaustive branch — no arm matches input type (first tag: '"@ + first_tag_name(arms)
                + "')"@,
        )
    } else {
        None
    }
}

/// A branch block applied to an input of a known type.
pub open spec fn branch_input_fuel(arms: Seq<MirArmV>, input: TyV, e: EnvV, fuel: nat) -> Checked
    decreases fuel,
{
    if fuel == 0 {
        None
    } else {
        let f = (fuel - 1) as nat;
        if branch_precheck(arms, input, e) is Some {
            Some((Err(branch_precheck(arms, input, e)->Some_0), e))
        } else {
            match arms_fuel(arms, 0, None, input, e.bind(in_name(), input), f) {
                None => None,
                Some((Err(msg), e2)) => Some((Err(msg), e2)),
                Some((Ok(res), e2)) => {
                    let e3 = e2.pop();
                    match res {
                        Some(t) => Some((Ok(t), e3)),
                        None => {
                            let (t, e4) = e3.fresh_infer();
                            Some((Ok(t), e4))
                        },
                    }
                },
            }
        }
    }
}

/// `apply(ms); body`: the method set is in scope for the body.
pub open spec fn apply_fuel(x: MirV, body: MirV, e: EnvV, fuel: nat) -> Checked
    decreases fuel,
{
    if fuel == 0 {
        None
    } else {
        let f = (fuel - 1) as nat;
        match check_fuel(x, e, f) {
            Some((Ok(t), e2)) => if t is MethodSet {
                match check_fuel(body, e2.bind(ms_name(), t), f) {
                    None => None,
                    Some((r, e3)) => Some((r, e3.pop())),
                }
            } else {
                Some((Err("type error: apply expects a method set"@), e2))
            },
            other => other,
        }
    }
}

/// A `let` with a pattern, its input of type `input`.
pub open spec fn let_fuel(pat: PatternV, body: MirV, input: TyV, e: EnvV, fuel: nat) -> Checked
    decreases fuel,
{
    if fuel == 0 {
        None
    } else {
        let f = (fuel - 1) as nat;
        match pat {
            PatternV::Name(n) => match check_fuel(body, e.bind(n, input), f) {
                Some((Ok(t), e2)) => Some((Ok(t), e2.pop())),
                other => other,
            },
            PatternV::Discard => check_fuel(body, e, f),
            PatternV::Fields(fs) => {
                let (k, e1) = bind_pat_fields(fs, 0, input, binds_by_name(fs, input), 0, 0, seq![], e);
                match check_fuel(body, e1, f) {
                    Some((Ok(t), e2)) => Some((Ok(t), e2.pop_n(k))),
                    other => other,
                }
            },
        }
    }
}

/// A `let[..]` array pattern, its input of type `input`.
pub open spec fn let_array_fuel(pats: Seq<ArrayPatV>, body: MirV, input: TyV, e: EnvV, fuel: nat) -> Checked
    decreases fuel,
{
    if fuel == 0 {
        None
    } else {
        let f = (fuel - 1) as nat;
        let (elem, rest, e1) = array_pat_tys(input, e);
        let (k, e2) = bind_array_pats(pats, 0, elem, rest, 0, e1);
        match check_fuel(body, e2, f) {
            Some((Ok(t), e3)) => Some((Ok(t), e3.pop_n(k))),
            other => other,
        }
    }
}

/// A pipe into a `let`, a `let[..]` or an `apply`.
pub open spec fn pipe_fuel(l: MirV, r: MirV, e: EnvV, fuel: nat) -> Checked
    decreases fuel,
{
    if fuel == 0 {
        None
    } else {
        let f = (fuel - 1) as nat;
        let e1 = match r {
            MirV::Let(PatternV::Name(n), _) => e.note_body(n, l),
            _ => e,
        };
        match check_fuel(l, e1, f) {
            Some((Ok(lt0), e2)) => {
                let lt = default_spec(lt0);
                match r {
                    MirV::Let(pat, body) => {
                        let (c, e3) = bind_prelude(struct_fields_of(lt), 0, 0, e2);
                        match let_fuel(pat, *body, lt, e3.bind(passthrough_name(), lt), f) {
                            None => None,
                            Some((res, e4)) => Some((res, e4.pop().pop_n(c))),
                        }
                    },
                    MirV::LetArray(pats, body) => match let_array_fuel(pats, *body, lt, e2.bind(passthrough_name(), lt), f) {
                        None => None,
                        Some((res, e3)) => Some((res, e3.pop())),
                    },
                    MirV::Apply(x, body) => apply_fuel(*x, *body, e2, f),
                    _ => None,
                }
            },
            other => other,
        }
    }
}

/// A call of `func` on `arg`.
pub open spec fn call_fuel(func: MirV, arg: MirV, e: EnvV, fuel: nat) -> Checked
    decreases fuel,
{
    if fuel == 0 {
        None
    } else {
        let f = (fuel - 1) as nat;
        match func {
            MirV::Block(body) => match check_fuel(arg, e, f) {
                Some((Ok(at), e2)) => match check_fuel(*body, e2.bind(in_name(), at), f) {
                    Some((Ok(bt), e3)) => Some((Ok(bt), e3.pop())),
                    other => other,
                },
                other => other,
            },
            MirV::BranchBlock(arms) => match check_fuel(arg, e, f) {
                Some((Ok(at), e2)) => branch_input_fuel(arms, at, e2, f),
                other => other,
            },
            MirV::Ident(n) if assoc_get(e.block_bodies, n) is Some => {
                let stored = assoc_get(e.block_bodies, n)->Some_0;
                match check_fuel(arg, e, f) {
                    Some((Ok(at), e2)) => match stored {
                        MirV::Block(body) => match check_fuel(*body, e2.bind(in_name(), at), f) {
                            Some((Ok(bt), e3)) => Some((Ok(bt), e3.pop())),
                            other => other,
                        },
                        MirV::BranchBlock(arms) => branch_input_fuel(arms, at, e2, f),
                        _ => None,
                    },
                    other => other,
                }
            },
            _ => match check_fuel(func, e, f) {
                Some((Ok(ft), e2)) => match check_fuel(arg, e2, f) {
                    Some((Ok(at), e3)) => match ft {
                        TyV::Fn(p, r) => match unify_generic(at, *p) {
                            None => None,
                            Some((Err(msg), _)) => Some((Err(msg), e3)),
                            Some((Ok(_), s)) => Some((Ok(subst_spec(*r, s)), e3)),
                        },
                        TyV::TagConstructor(id) => Some((Ok(TyV::Tagged(id, Box::new(at))), e3)),
                        TyV::MethodSetConstructor => method_set_fuel(arg, e3, f),
                        TyV::Infer(_) => {
                            let (t, e4) = e3.fresh_infer();
                            Some((Ok(t), e4))
                        },
                        _ => Some((Err("type error: cannot call non-function"@), e3)),
                    },
                    other => other,
                },
                other => other,
            },
        }
    }
}

/// `method_set(constructor, methods)`: a new method set.
pub open spec fn method_set_fuel(arg: MirV, e: EnvV, fuel: nat) -> Checked
    decreases fuel,
{
    if fuel == 0 {
        None
    } else {
        let f = (fuel - 1) as nat;
        match check_fuel(arg, e, f) {
            Some((Ok(at), e2)) => match at {
                TyV::Struct(fs) if fs.len() == 2 => match fs[0].1 {
                    TyV::TagConstructor(tag_id) => if fs[1].1 is Struct {
                        let (id, e3) = e2.fresh_ms();
                        Some((Ok(TyV::MethodSet(id, tag_id)), e3.register(id, tag_id, fs[1].1)))
                    } else {
                        Some((Err("type error: method_set second argument must be a struct of functions"@), e2))
                    },
                    _ => Some((Err("type error: method_set first argument must be a type constructor"@), e2)),
                },
                _ => Some((Err("type error: method_set expects (constructor, struct_of_functions)"@), e2)),
            },
            other => other,
        }
    }
}

/// A method call argument with its blocks given placeholder types.
pub open spec fn defer_fuel(arg: MirV, e: EnvV, fuel: nat) -> Checked
    decreases fuel,
{
    if fuel == 0 {
        None
    } else {
        let f = (fuel - 1) as nat;
        match arg {
            MirV::Block(_) | MirV::BranchBlock(_) => {
                let (p, e1) = e.fresh_infer();
                let (r, e2) = e1.fresh_infer();
                Some((Ok(TyV::Fn(Box::new(p), Box::new(r))), e2))
            },
            MirV::Struct(fs) => match struct_fuel(fs, 0, seq![], 0, true, e, f) {
                None => None,
                Some((Err(msg), e2)) => Some((Err(msg), e2)),
                Some((Ok(tfs), e2)) => Some((Ok(TyV::Struct(tfs)), e2)),
            },
            _ => check_fuel(arg, e, f),
        }
    }
}

/// A block argument re-checked with the input type it is called with.
pub open spec fn single_fuel(m: MirV, expected: TyV, e: EnvV, fuel: nat) -> Option<(Result<Option<TyV>, Seq<char>>, EnvV)>
    decreases fuel,
{
    if fuel == 0 {
        None
    } else {
        let f = (fuel - 1) as nat;
        match m {
            MirV::Block(body) => match check_fuel(*body, e.bind(in_name(), expected), f) {
                None => None,
                Some((Err(msg), e2)) => Some((Err(msg), e2)),
                Some((Ok(bt), e2)) => Some((Ok(Some(TyV::Fn(Box::new(expected), Box::new(bt)))), e2.pop())),
            },
            MirV::BranchBlock(arms) => match branch_input_fuel(arms, expected, e, f) {
                None => None,
                Some((Err(msg), e2)) => Some((Err(msg), e2)),
                Some((Ok(t), e2)) => Some((Ok(Some(TyV::Fn(Box::new(expected), Box::new(t)))), e2)),
            },
            _ => Some((Ok(None), e)),
        }
    }
}

/// The callback fields of a struct argument from index `i` on, re-checked
/// with their expected input types; `refined` so far and whether any was.
pub open spec fn recheck_fields_fuel(
    fs: Seq<MirFieldV>,
    i: nat,
    cbs: Seq<(Seq<char>, TyV)>,
    pos: nat,
    any: bool,
    refined: Seq<(Seq<char>, TyV)>,
    e: EnvV,
    fuel: nat,
) -> Option<(Result<Option<TyV>, Seq<char>>, EnvV)>
    decreases fuel,
{
    if fuel == 0 {
        None
    } else if i >= fs.len() {
        Some((Ok(if any { Some(TyV::Struct(refined)) } else { None }), e))
    } else {
        let f = (fuel - 1) as nat;
        let fld = fs[i as int];
        let (label, pos2) = match fld.label {
            Some(l) => (l, pos),
            None => (decimal(pos), pos + 1),
        };
        match parse_u64_spec(label) {
            Some(n) if n == u64::MAX => None,
            _ => {
                let param_label = match parse_u64_spec(label) {
                    Some(n) => decimal((n + 1) as nat),
                    None => label,
                };
                let tried: Option<(Result<Option<TyV>, Seq<char>>, EnvV)> = match first_with_key(cbs, param_label) {
                    Some(TyV::Fn(cb_param, _)) => single_fuel(fld.value, *cb_param, e, f),
                    _ => Some((Ok(None), e)),
                };
                match tried {
                    None => None,
                    Some((Err(msg), e2)) => Some((Err(msg), e2)),
                    Some((Ok(Some(rt)), e2)) => recheck_fields_fuel(fs, i + 1, cbs, pos2, true, refined.push((label, rt)), e2, f),
                    Some((Ok(None), e2)) => match check_fuel(fld.value, e2, f) {
                        None => None,
                        Some((Err(msg), e3)) => Some((Err(msg), e3)),
                        Some((Ok(t), e3)) => recheck_fields_fuel(fs, i + 1, cbs, pos2, any, refined.push((label, t)), e3, f),
                    },
                }
            },
        }
    }
}

/// The argument of a method call re-checked once the method's parameter
/// type (under the substitution `s`) gives its callbacks their input types;
/// `Some` refined argument type when a callback was re-checked.
pub open spec fn recheck_fuel(arg: MirV, param: TyV, s: Map<u64, TyV>, e: EnvV, fuel: nat) -> Option<
    (Result<Option<TyV>, Seq<char>>, EnvV),
>
    decreases fuel,
{
    if fuel == 0 {
        None
    } else {
        let f = (fuel - 1) as nat;
        match param {
            TyV::Struct(pfs) => {
                let cbs = callbacks_from(pfs, 0, s, seq![]);
                if cbs.len() == 0 {
                    Some((Ok(None), e))
                } else {
                    match arg {
                        MirV::Struct(fs) => recheck_fields_fuel(fs, 0, cbs, 0, false, seq![], e, f),
                        _ => match first_with_key(cbs, "1"@) {
                            Some(TyV::Fn(cb_param, _)) => single_fuel(arg, *cb_param, e, f),
                            _ => Some((Ok(None), e)),
                        },
                    }
                }
            },
            _ => Some((Ok(None), e)),
        }
    }
}

/// A call of a method found in a method set: the argument is checked with
/// its blocks deferred, unified with the parameter type, its callbacks
/// re-checked, and the return type substituted.
pub open spec fn set_method_fuel(recv_t: TyV, method: Seq<char>, p: TyV, r: TyV, arg: MirV, e: EnvV, fuel: nat) -> Checked
    decreases fuel,
{
    if fuel == 0 {
        None
    } else {
        let f = (fuel - 1) as nat;
        match defer_fuel(arg, e, f) {
            Some((Ok(at), e2)) => if !prepend_arg_ok(at) {
                None
            } else {
                match unify_generic(spec_prepend_arg_ty(recv_t, at), p) {
                    None => None,
                    Some((Err(msg), _)) => Some((Err(method_error_msg(method, msg)), e2)),
                    Some((Ok(_), s)) => match recheck_fuel(arg, p, s, e2, f) {
                        None => None,
                        Some((Err(msg), e3)) => Some((Err(msg), e3)),
                        Some((Ok(None), e3)) => Some((Ok(subst_spec(r, s)), e3)),
                        Some((Ok(Some(rat)), e3)) => if !prepend_arg_ok(rat) {
                            None
                        } else {
                            match unify_generic(spec_prepend_arg_ty(recv_t, rat), p) {
                                None => None,
                                Some((Err(msg), _)) => Some((Err(method_error_msg(method, msg)), e3)),
                                Some((Ok(_), s2)) => Some((Ok(subst_spec(r, s2)), e3)),
                            }
                        },
                    },
                }
            },
            other => other,
        }
    }
}

/// `recv.method(arg)`: a function field of a struct, a method of a method
/// set in scope, a deferred call on an unknown receiver, or a built-in
/// comparison.
pub open spec fn method_call_fuel(recv: MirV, method: Seq<char>, arg: MirV, e: EnvV, fuel: nat) -> Checked
    decreases fuel,
{
    if fuel == 0 {
        None
    } else {
        let f = (fuel - 1) as nat;
        match check_fuel(recv, e, f) {
            Some((Ok(rt), e1)) => {
                let field = match rt {
                    TyV::Struct(fs) => first_with_key(fs, method),
                    _ => None,
                };
                let found = match spec_ty_to_tag_id(rt) {
                    Some(tag_id) => find_method(e1.bindings, e1.method_sets, tag_id, method),
                    None => None,
                };
                if field is Some {
                    let ft = field->Some_0;
                    if ft is MethodSetConstructor {
                        method_set_fuel(arg, e1, f)
                    } else {
                        match check_fuel(arg, e1, f) {
                            Some((Ok(at), e2)) => match ft {
                                TyV::Fn(p, r) => match spec_unify(at, *p) {
                                    Err(msg) => Some((Err(msg), e2)),
                                    Ok(_) => Some((Ok(*r), e2)),
                                },
                                TyV::Infer(_) => {
                                    let (t, e3) = e2.fresh_infer();
                                    Some((Ok(t), e3))
                                },
                                _ => Some((Err("type error: cannot call non-function field '"@ + method + "'"@), e2)),
                            },
                            other => other,
                        }
                    }
                } else if found is Some {
                    match found->Some_0 {
                        TyV::Fn(p, r) => set_method_fuel(rt, method, *p, *r, arg, e1, f),
                        _ => Some((Err("type error: method '"@ + method + "' is not a function"@), e1)),
                    }
                } else {
                    match check_fuel(arg, e1, f) {
                        Some((Ok(_), e2)) => if rt is Infer {
                            let (t, e3) = e2.fresh_infer();
                            Some((Ok(t), e3))
                        } else if is_comparison_method(method) {
                            Some((Ok(TyV::Bool), e2))
                        } else {
                            Some((Err("type error: no method '"@ + method + "' on type "@ + crate::types::ty_debug_text(rt)), e2))
                        },
                        other => other,
                    }
                }
            },
            other => other,
        }
    }
}

// ── What every check keeps ──────────────────────────────────────

/// `e2` comes from `e` by a check: the modules are the same and the method
/// set registry has only grown; when `ok`, the bindings are the same too.
pub open spec fn keeps(e: EnvV, e2: EnvV, ok: bool) -> bool {
    &&& e2.modules == e.modules
    &&& e.method_sets.is_prefix_of(e2.method_sets)
    &&& ok ==> e2.bindings == e.bindings
}

pub open spec fn outcome_keeps<X>(e: EnvV, c: Option<(Result<X, Seq<char>>, EnvV)>) -> bool {
    match c {
        Some((r, e2)) => keeps(e, e2, r is Ok),
        None => true,
    }
}

/// `e1` is `e` with `k` more bindings on top; the modules and the method
/// sets are the same.
pub open spec fn pushed(e: EnvV, e1: EnvV, k: nat) -> bool {
    &&& e1.bindings.len() == e.bindings.len() + k
    &&& e1.bindings.subrange(0, e.bindings.len() as int) == e.bindings
    &&& e1.modules == e.modules
    &&& e1.method_sets == e.method_sets
}

pub proof fn lemma_keeps_refl(e: EnvV)
    ensures
        keeps(e, e, true),
{
    assert(e.method_sets =~= e.method_sets.subrange(0, e.method_sets.len() as int));
}

pub proof fn lemma_keeps_trans(a: EnvV, b: EnvV, c: EnvV, ok1: bool, ok2: bool)
    requires
        keeps(a, b, ok1),
        keeps(b, c, ok2),
    ensures
        keeps(a, c, ok1 && ok2),
{
    assert(a.method_sets =~= c.method_sets.subrange(0, a.method_sets.len() as int));
}

pub proof fn lemma_pop_n(e: EnvV, k: nat)
    ensures
        e.pop_n(k).modules == e.modules,
        e.pop_n(k).method_sets == e.method_sets,
        e.bindings.len() >= k ==> e.pop_n(k).bindings == e.bindings.subrange(0, e.bindings.len() - k),
    decreases k,
{
    if k > 0 {
        lemma_pop_n(e.pop(), (k - 1) as nat);
        if e.bindings.len() >= k {
            assert(e.pop().bindings.subrange(0, e.pop().bindings.len() - (k - 1)) =~= e.bindings.subrange(
                0,
                e.bindings.len() - k,
            ));
        }
    } else {
        assert(e.bindings.subrange(0, e.bindings.len() as int) =~= e.bindings);
    }
}

pub proof fn lemma_pushed_trans(a: EnvV, b: EnvV, c: EnvV, k1: nat, k2: nat)
    requires
        pushed(a, b, k1),
        pushed(b, c, k2),
    ensures
        pushed(a, c, k1 + k2),
{
    assert(c.bindings.subrange(0, a.bindings.len() as int) =~= b.bindings.subrange(0, a.bindings.len() as int));
}

pub proof fn lemma_pushed_bind(e: EnvV, n: Seq<char>, t: TyV)
    ensures
        pushed(e, e.bind(n, t), 1),
{
    assert(e.bind(n, t).bindings.subrange(0, e.bindings.len() as int) =~= e.bindings);
}

pub proof fn lemma_pushed_refl(e: EnvV)
    ensures
        pushed(e, e, 0),
        pushed(e, e.fresh_infer().1, 0),
{
    assert(e.bindings.subrange(0, e.bindings.len() as int) =~= e.bindings);
}

/// A check inside `k` more bindings: on success the `k` pops give back the
/// outer bindings; the modules and the registry are kept either way.
pub proof fn lemma_scope(e: EnvV, e1: EnvV, k: nat, e2: EnvV, ok: bool, j: nat)
    requires
        pushed(e, e1, k),
        keeps(e1, e2, ok),
    ensures
        keeps(e, e2.pop_n(j), false),
        ok && j == k ==> keeps(e, e2.pop_n(k), true),
{
    lemma_pop_n(e2, j);
    assert(e.method_sets =~= e2.method_sets.subrange(0, e.method_sets.len() as int));
    if ok && j == k {
        assert(e2.bindings.subrange(0, e2.bindings.len() - k) =~= e.bindings);
    }
}

pub proof fn lemma_pop_one(e: EnvV)
    ensures
        e.pop_n(1) == e.pop(),
{
    assert(e.pop().pop_n(0) == e.pop());
}

pub proof fn lemma_fresh_keeps(e: EnvV)
    ensures
        keeps(e, e.fresh_infer().1, true),
        keeps(e, e, true),
{
    lemma_keeps_refl(e);
    assert(e.method_sets =~= e.fresh_infer().1.method_sets.subrange(0, e.method_sets.len() as int));
}

pub proof fn lemma_note_body_keeps(e: EnvV, n: Seq<char>, v: MirV)
    ensures
        pushed(e, e.note_body(n, v), 0),
{
    assert(e.bindings.subrange(0, e.bindings.len() as int) =~= e.bindings);
}

pub proof fn lemma_bind_branch_pattern_pushes(p: MirPatternV, input: TyV, e: EnvV)
    ensures
        match bind_branch_pattern(p, input, e) {
            (Ok(k), e1) => pushed(e, e1, k),
            (Err(_), e1) => e1 == e,
        },
{
    lemma_pushed_refl(e);
    lemma_pushed_bind(e, seq![], TyV::Unit);
    match p {
        MirPatternV::Tag(name, binding) => {
            match binding {
                Some(BranchBindingV::Name(n)) => {
                    let resolved = match e.get(name) {
                        Some(TyV::TagConstructor(id)) => payload_for_tag(id, input),
                        _ => None,
                    };
                    let (pt, e1) = match resolved {
                        Some(t) => (t, e),
                        None => e.fresh_infer(),
                    };
                    lemma_pushed_bind(e1, n, pt);
                    lemma_pushed_refl(e1);
                },
                _ => {},
            }
        },
        MirPatternV::Binding(n) => lemma_pushed_bind(e, n, input),
        _ => {},
    }
}

pub proof fn lemma_bind_pat_fields_pushes(
    fs: Seq<PatFieldV>,
    i: nat,
    input: TyV,
    by_name: bool,
    k: nat,
    pos: nat,
    used: Seq<Seq<char>>,
    e: EnvV,
)
    ensures
        bind_pat_fields(fs, i, input, by_name, k, pos, used, e).0 >= k,
        pushed(
            e,
            bind_pat_fields(fs, i, input, by_name, k, pos, used, e).1,
            (bind_pat_fields(fs, i, input, by_name, k, pos, used, e).0 - k) as nat,
        ),
    decreases fs.len() - i,
{
    lemma_pushed_refl(e);
    if i < fs.len() {
        let f = fs[i as int];
        if is_discard_name(f.binding) && !f.is_rest {
            if f.label is None && !by_name {
                lemma_bind_pat_fields_pushes(fs, i + 1, input, by_name, k, pos + 1, used.push(decimal(pos)), e);
            } else {
                lemma_bind_pat_fields_pushes(fs, i + 1, input, by_name, k, pos, used, e);
            }
        } else if f.is_rest {
            if !is_discard_name(f.binding) && f.binding.len() > 0 {
                let (rt, e1) = rest_ty(input, used, e);
                lemma_pushed_refl(e1);
                assert(pushed(e, e1, 0));
                lemma_pushed_bind(e1, f.binding, rt);
                lemma_pushed_trans(e, e1, e1.bind(f.binding, rt), 0, 1);
                lemma_bind_pat_fields_pushes(fs, i + 1, input, by_name, k + 1, pos, used, e1.bind(f.binding, rt));
                let r = bind_pat_fields(fs, i + 1, input, by_name, k + 1, pos, used, e1.bind(f.binding, rt));
                lemma_pushed_trans(e, e1.bind(f.binding, rt), r.1, 1, (r.0 - (k + 1)) as nat);
            } else {
                lemma_bind_pat_fields_pushes(fs, i + 1, input, by_name, k, pos, used, e);
            }
        } else {
            match input {
                TyV::Struct(sf) => {
                    let (key, pos2) = match f.label {
                        Some(l) => (l, pos),
                        None => if by_name {
                            (f.binding, pos)
                        } else {
                            (decimal(pos), pos + 1)
                        },
                    };
                    let (ft, e1) = match first_with_key(sf, key) {
                        Some(t) => (t, e),
                        None => e.fresh_infer(),
                    };
                    assert(pushed(e, e1, 0));
                    lemma_pushed_bind(e1, f.binding, ft);
                    lemma_pushed_trans(e, e1, e1.bind(f.binding, ft), 0, 1);
                    lemma_bind_pat_fields_pushes(fs, i + 1, input, by_name, k + 1, pos2, used.push(key), e1.bind(f.binding, ft));
                    let r = bind_pat_fields(fs, i + 1, input, by_name, k + 1, pos2, used.push(key), e1.bind(f.binding, ft));
                    lemma_pushed_trans(e, e1.bind(f.binding, ft), r.1, 1, (r.0 - (k + 1)) as nat);
                },
                _ => {
                    let pos2 = if f.label is None && !by_name {
                        pos + 1
                    } else {
                        pos
                    };
                    let (ft, e1) = e.fresh_infer();
                    lemma_pushed_bind(e1, f.binding, ft);
                    lemma_pushed_trans(e, e1, e1.bind(f.binding, ft), 0, 1);
                    lemma_bind_pat_fields_pushes(fs, i + 1, input, by_name, k + 1, pos2, used, e1.bind(f.binding, ft));
                    let r = bind_pat_fields(fs, i + 1, input, by_name, k + 1, pos2, used, e1.bind(f.binding, ft));
                    lemma_pushed_trans(e, e1.bind(f.binding, ft), r.1, 1, (r.0 - (k + 1)) as nat);
                },
            }
        }
    }
}

pub proof fn lemma_bind_array_pats_pushes(ps: Seq<ArrayPatV>, i: nat, elem: TyV, rest: TyV, k: nat, e: EnvV)
    ensures
        bind_array_pats(ps, i, elem, rest, k, e).0 >= k,
        pushed(e, bind_array_pats(ps, i, elem, rest, k, e).1, (bind_array_pats(ps, i, elem, rest, k, e).0 - k) as nat),
    decreases ps.len() - i,
{
    lemma_pushed_refl(e);
    if i < ps.len() {
        match ps[i as int] {
            ArrayPatV::Name(n) => {
                lemma_pushed_bind(e, n, elem);
                lemma_bind_array_pats_pushes(ps, i + 1, elem, rest, k + 1, e.bind(n, elem));
                let r = bind_array_pats(ps, i + 1, elem, rest, k + 1, e.bind(n, elem));
                lemma_pushed_trans(e, e.bind(n, elem), r.1, 1, (r.0 - (k + 1)) as nat);
            },
            ArrayPatV::Rest(Some(n)) => {
                lemma_pushed_bind(e, n, rest);
                lemma_bind_array_pats_pushes(ps, i + 1, elem, rest, k + 1, e.bind(n, rest));
                let r = bind_array_pats(ps, i + 1, elem, rest, k + 1, e.bind(n, rest));
                lemma_pushed_trans(e, e.bind(n, rest), r.1, 1, (r.0 - (k + 1)) as nat);
            },
            _ => lemma_bind_array_pats_pushes(ps, i + 1, elem, rest, k, e),
        }
    }
}

pub proof fn lemma_bind_prelude_sets_pushes(fs: Seq<(Seq<char>, TyV)>, i: nat, c: nat, e: EnvV)
    ensures
        bind_prelude_sets(fs, i, c, e).0 >= c,
        pushed(e, bind_prelude_sets(fs, i, c, e).1, (bind_prelude_sets(fs, i, c, e).0 - c) as nat),
    decreases fs.len() - i,
{
    lemma_pushed_refl(e);
    if i < fs.len() {
        let t = fs[i as int].1;
        if t is MethodSet {
            lemma_pushed_bind(e, ms_name(), t);
            lemma_bind_prelude_sets_pushes(fs, i + 1, c + 1, e.bind(ms_name(), t));
            let r = bind_prelude_sets(fs, i + 1, c + 1, e.bind(ms_name(), t));
            lemma_pushed_trans(e, e.bind(ms_name(), t), r.1, 1, (r.0 - (c + 1)) as nat);
        } else {
            lemma_bind_prelude_sets_pushes(fs, i + 1, c, e);
        }
    }
}

pub proof fn lemma_bind_prelude_pushes(fs: Seq<(Seq<char>, TyV)>, i: nat, c: nat, e: EnvV)
    ensures
        bind_prelude(fs, i, c, e).0 >= c,
        pushed(e, bind_prelude(fs, i, c, e).1, (bind_prelude(fs, i, c, e).0 - c) as nat),
    decreases fs.len() - i,
{
    lemma_pushed_refl(e);
    if i < fs.len() {
        let (l, t) = fs[i as int];
        if l == "prelude"@ {
            lemma_bind_prelude_sets_pushes(struct_fields_of(t), 0, c, e);
            let (c2, e2) = bind_prelude_sets(struct_fields_of(t), 0, c, e);
            lemma_bind_prelude_pushes(fs, i + 1, c2, e2);
            let r = bind_prelude(fs, i + 1, c2, e2);
            lemma_pushed_trans(e, e2, r.1, (c2 - c) as nat, (r.0 - c2) as nat);
        } else {
            lemma_bind_prelude_pushes(fs, i + 1, c, e);
        }
    }
}

/// Whether checking `m` in `e` comes back.
pub open spec fn check_terminates(m: MirV, e: EnvV) -> bool {
    exists|fuel: nat| #[trigger] check_fuel(m, e, fuel) is Some
}

/// What checking `m` in `e` gives, and the environment it leaves.
pub open spec fn spec_check(m: MirV, e: EnvV) -> (Result<TyV, Seq<char>>, EnvV) {
    check_fuel(m, e, choose|fuel: nat| #[trigger] check_fuel(m, e, fuel) is Some)->Some_0
}

pub proof fn lemma_check_keeps(m: MirV, e: EnvV, fuel: nat)
    ensures
        outcome_keeps(e, check_fuel(m, e, fuel)),
    decreases fuel,
{
    lemma_keeps_refl(e);
    if fuel > 0 {
        let f = (fuel - 1) as nat;
        match m {
            MirV::FieldAccess(x, field) => lemma_check_keeps(*x, e, f),
            MirV::Struct(fs) => lemma_struct_keeps(fs, 0, seq![], 0, false, e, f),
            MirV::Bind(name, value, body) => {
                let e1 = e.note_body(name, *value);
                lemma_note_body_keeps(e, name, *value);
                lemma_check_keeps(*value, e1, f);
                lemma_keeps_refl(e1);
                lemma_scope(e, e1, 0, e1, true, 0);
                match check_fuel(*value, e1, f) {
                    Some((r1, e2)) => {
                        lemma_scope(e, e1, 0, e2, r1 is Ok, 0);
                        if r1 is Ok {
                            let vt = r1->Ok_0;
                            let e3 = e2.bind(name, default_spec(vt));
                            lemma_pushed_bind(e2, name, default_spec(vt));
                            lemma_check_keeps(*body, e3, f);
                            match check_fuel(*body, e3, f) {
                                Some((r2, e4)) => {
                                    lemma_scope(e2, e3, 1, e4, r2 is Ok, 1);
                                    lemma_scope(e2, e3, 1, e4, r2 is Ok, 0);
                                    lemma_pop_one(e4);
                                    lemma_keeps_trans(e, e2, e4.pop(), true, r2 is Ok);
                                    lemma_keeps_trans(e, e2, e4, true, false);
                                },
                                None => {},
                            }
                        }
                    },
                    None => {},
                }
            },
            MirV::Pipe(l, r) => lemma_pipe_keeps(*l, *r, e, f),
            MirV::Let(pat, body) => {
                let (input, e1) = e.fresh_infer();
                lemma_pushed_refl(e);
                lemma_let_keeps(pat, *body, input, e1, f);
                match let_fuel(pat, *body, input, e1, f) {
                    Some((r, e2)) => lemma_scope(e, e1, 0, e2, r is Ok, 0),
                    None => {},
                }
            },
            MirV::LetArray(pats, body) => {
                let (input, e1) = e.fresh_infer();
                lemma_pushed_refl(e);
                lemma_let_array_keeps(pats, *body, input, e1, f);
                match let_array_fuel(pats, *body, input, e1, f) {
                    Some((r, e2)) => lemma_scope(e, e1, 0, e2, r is Ok, 0),
                    None => {},
                }
            },
            MirV::Call(func, arg) => lemma_call_keeps(*func, *arg, e, f),
            MirV::Apply(x, body) => lemma_apply_keeps(*x, *body, e, f),
            MirV::Block(body) => {
                let (p, e1) = e.fresh_infer();
                lemma_pushed_refl(e);
                lemma_pushed_bind(e1, in_name(), p);
                lemma_pushed_trans(e, e1, e1.bind(in_name(), p), 0, 1);
                lemma_check_keeps(*body, e1.bind(in_name(), p), f);
                match check_fuel(*body, e1.bind(in_name(), p), f) {
                    Some((r, e2)) => {
                        lemma_scope(e, e1.bind(in_name(), p), 1, e2, r is Ok, 1);
                        lemma_scope(e, e1.bind(in_name(), p), 1, e2, r is Ok, 0);
                    },
                    None => {},
                }
            },
            MirV::BranchBlock(arms) => {
                let (input, e1) = e.fresh_infer();
                let eb = e1.bind(in_name(), input);
                lemma_pushed_refl(e);
                lemma_pushed_bind(e1, in_name(), input);
                lemma_pushed_trans(e, e1, eb, 0, 1);
                lemma_arms_keeps(arms, 0, None, input, eb, f);
                match arms_fuel(arms, 0, None, input, eb, f) {
                    Some((r, e2)) => {
                        lemma_scope(e, eb, 1, e2, r is Ok, 1);
                        lemma_scope(e, eb, 1, e2, r is Ok, 0);
                        let e3 = e2.pop();
                        lemma_pop_one(e2);
                        if r is Ok {
                            lemma_fresh_keeps(e3);
                            lemma_keeps_trans(e, e3, e3.fresh_infer().1, true, true);
                        }
                    },
                    None => {},
                }
            },
            MirV::Array(elems) => {
                lemma_elems_keeps(elems, 0, None, e, f);
                match elems_fuel(elems, 0, None, e, f) {
                    Some((r, e2)) => {
                        if r is Ok {
                            lemma_fresh_keeps(e2);
                            lemma_keeps_trans(e, e2, e2.fresh_infer().1, true, true);
                        }
                    },
                    None => {},
                }
            },
            MirV::MethodCall(recv, method, arg) => lemma_method_call_keeps(*recv, method, *arg, e, f),
            _ => {},
        }
    }
}

pub proof fn lemma_struct_keeps(
    fs: Seq<MirFieldV>,
    i: nat,
    acc: Seq<(Seq<char>, TyV)>,
    pos: nat,
    defer: bool,
    e: EnvV,
    fuel: nat,
)
    ensures
        outcome_keeps(e, struct_fuel(fs, i, acc, pos, defer, e, fuel)),
    decreases fuel,
{
    lemma_keeps_refl(e);
    if fuel > 0 && i < fs.len() {
        let f = (fuel - 1) as nat;
        let fld = fs[i as int];
        let r = if defer {
            defer_fuel(fld.value, e, f)
        } else {
            check_fuel(fld.value, e, f)
        };
        lemma_defer_keeps(fld.value, e, f);
        lemma_check_keeps(fld.value, e, f);
        match r {
            Some((Ok(t), e2)) => {
                let (acc2, pos2) = add_field(acc, pos, fld, t);
                lemma_struct_keeps(fs, i + 1, acc2, pos2, defer, e2, f);
                match struct_fuel(fs, i + 1, acc2, pos2, defer, e2, f) {
                    Some((r3, e3)) => lemma_keeps_trans(e, e2, e3, true, r3 is Ok),
                    None => {},
                }
            },
            _ => {},
        }
    }
}

pub proof fn lemma_elems_keeps(es: Seq<MirV>, i: nat, acc: Option<TyV>, e: EnvV, fuel: nat)
    ensures
        outcome_keeps(e, elems_fuel(es, i, acc, e, fuel)),
    decreases fuel,
{
    lemma_keeps_refl(e);
    if fuel > 0 && i < es.len() {
        let f = (fuel - 1) as nat;
        lemma_check_keeps(es[i as int], e, f);
        match check_fuel(es[i as int], e, f) {
            Some((Ok(t), e2)) => {
                let next = match acc {
                    None => Some(t),
                    Some(prev) => match spec_unify(prev, t) {
                        Ok(u) => Some(u),
                        Err(_) => None,
                    },
                };
                if next is Some {
                    lemma_elems_keeps(es, i + 1, next, e2, f);
                    match elems_fuel(es, i + 1, next, e2, f) {
                        Some((r3, e3)) => lemma_keeps_trans(e, e2, e3, true, r3 is Ok),
                        None => {},
                    }
                }
            },
            _ => {},
        }
    }
}

pub proof fn lemma_arms_keeps(arms: Seq<MirArmV>, i: nat, acc: Option<TyV>, input: TyV, e: EnvV, fuel: nat)
    ensures
        outcome_keeps(e, arms_fuel(arms, i, acc, input, e, fuel)),
    decreases fuel,
{
    lemma_keeps_refl(e);
    if fuel > 0 && i < arms.len() {
        let f = (fuel - 1) as nat;
        let arm = arms[i as int];
        lemma_bind_branch_pattern_pushes(arm.pattern, input, e);
        match bind_branch_pattern(arm.pattern, input, e) {
            (Err(_), _) => {},
            (Ok(k), e1) => {
                lemma_keeps_refl(e1);
                lemma_scope(e, e1, k, e1, true, 0);
                let guarded: Option<(Result<(), Seq<char>>, EnvV)> = match arm.guard {
                    Some(g) => match check_fuel(g, e1, f) {
                        None => None,
                        Some((Err(msg), e2)) => Some((Err(msg), e2)),
                        Some((Ok(_), e2)) => Some((Ok(()), e2)),
                    },
                    None => Some((Ok(()), e1)),
                };
                match arm.guard {
                    Some(g) => lemma_check_keeps(g, e1, f),
                    None => {},
                }
                match guarded {
                    Some((gr, e2)) => {
                        lemma_scope(e, e1, k, e2, gr is Ok, 0);
                        if gr is Ok {
                            lemma_check_keeps(arm.body, e2, f);
                            match check_fuel(arm.body, e2, f) {
                                Some((r3, e3)) => {
                                    lemma_keeps_trans(e1, e2, e3, true, r3 is Ok);
                                    lemma_scope(e, e1, k, e3, r3 is Ok, 0);
                                    if r3 is Ok {
                                        let t = r3->Ok_0;
                                        let e4 = e3.pop_n(k);
                                        lemma_scope(e, e1, k, e3, true, k);
                                        let next = match acc {
                                            None => Some(t),
                                            Some(prev) => match spec_unify(prev, t) {
                                                Ok(u) => Some(u),
                                                Err(_) => None,
                                            },
                                        };
                                        if next is Some {
                                            lemma_arms_keeps(arms, i + 1, next, input, e4, f);
                                            match arms_fuel(arms, i + 1, next, input, e4, f) {
                                                Some((r5, e5)) => lemma_keeps_trans(e, e4, e5, true, r5 is Ok),
                                                None => {},
                                            }
                                        }
                                    }
                                },
                                None => {},
                            }
                        }
                    },
                    None => {},
                }
            },
        }
    }
}

pub proof fn lemma_branch_input_keeps(arms: Seq<MirArmV>, input: TyV, e: EnvV, fuel: nat)
    ensures
        outcome_keeps(e, branch_input_fuel(arms, input, e, fuel)),
    decreases fuel,
{
    lemma_keeps_refl(e);
    if fuel > 0 && branch_precheck(arms, input, e) is None {
        let f = (fuel - 1) as nat;
        let eb = e.bind(in_name(), input);
        lemma_pushed_bind(e, in_name(), input);
        lemma_arms_keeps(arms, 0, None, input, eb, f);
        match arms_fuel(arms, 0, None, input, eb, f) {
            Some((r, e2)) => {
                lemma_scope(e, eb, 1, e2, r is Ok, 1);
                lemma_scope(e, eb, 1, e2, r is Ok, 0);
                let e3 = e2.pop();
                lemma_pop_one(e2);
                if r is Ok {
                    lemma_fresh_keeps(e3);
                    lemma_keeps_trans(e, e3, e3.fresh_infer().1, true, true);
                }
            },
            None => {},
        }
    }
}

pub proof fn lemma_apply_keeps(x: MirV, body: MirV, e: EnvV, fuel: nat)
    ensures
        outcome_keeps(e, apply_fuel(x, body, e, fuel)),
    decreases fuel,
{
    lemma_keeps_refl(e);
    if fuel > 0 {
        let f = (fuel - 1) as nat;
        lemma_check_keeps(x, e, f);
        match check_fuel(x, e, f) {
            Some((Ok(t), e2)) => {
                lemma_keeps_refl(e2);
                lemma_pushed_refl(e2);
                if t is MethodSet {
                    let eb = e2.bind(ms_name(), t);
                    lemma_pushed_bind(e2, ms_name(), t);
                    lemma_check_keeps(body, eb, f);
                    match check_fuel(body, eb, f) {
                        Some((r, e3)) => {
                            lemma_scope(e2, eb, 1, e3, r is Ok, 1);
                            lemma_scope(e2, eb, 1, e3, r is Ok, 0);
                            lemma_pop_one(e3);
                            lemma_keeps_trans(e, e2, e3.pop(), true, r is Ok);
                        },
                        None => {},
                    }
                }
            },
            _ => {},
        }
    }
}

pub proof fn lemma_let_keeps(pat: PatternV, body: MirV, input: TyV, e: EnvV, fuel: nat)
    ensures
        outcome_keeps(e, let_fuel(pat, body, input, e, fuel)),
    decreases fuel,
{
    lemma_keeps_refl(e);
    if fuel > 0 {
        let f = (fuel - 1) as nat;
        match pat {
            PatternV::Name(n) => {
                let eb = e.bind(n, input);
                lemma_pushed_bind(e, n, input);
                lemma_check_keeps(body, eb, f);
                match check_fuel(body, eb, f) {
                    Some((r, e2)) => {
                        lemma_scope(e, eb, 1, e2, r is Ok, 1);
                        lemma_scope(e, eb, 1, e2, r is Ok, 0);
                        lemma_pop_one(e2);
                    },
                    None => {},
                }
            },
            PatternV::Discard => lemma_check_keeps(body, e, f),
            PatternV::Fields(fs) => {
                let by_name = binds_by_name(fs, input);
                lemma_bind_pat_fields_pushes(fs, 0, input, by_name, 0, 0, seq![], e);
                let (k, e1) = bind_pat_fields(fs, 0, input, by_name, 0, 0, seq![], e);
                lemma_check_keeps(body, e1, f);
                match check_fuel(body, e1, f) {
                    Some((r, e2)) => {
                        lemma_scope(e, e1, k, e2, r is Ok, k);
                        lemma_scope(e, e1, k, e2, r is Ok, 0);
                    },
                    None => {},
                }
            },
        }
    }
}

pub proof fn lemma_let_array_keeps(pats: Seq<ArrayPatV>, body: MirV, input: TyV, e: EnvV, fuel: nat)
    ensures
        outcome_keeps(e, let_array_fuel(pats, body, input, e, fuel)),
    decreases fuel,
{
    lemma_keeps_refl(e);
    if fuel > 0 {
        let f = (fuel - 1) as nat;
        let (elem, rest, e1) = array_pat_tys(input, e);
        lemma_pushed_refl(e);
        assert(pushed(e, e1, 0));
        lemma_bind_array_pats_pushes(pats, 0, elem, rest, 0, e1);
        let (k, e2) = bind_array_pats(pats, 0, elem, rest, 0, e1);
        lemma_pushed_trans(e, e1, e2, 0, k);
        lemma_check_keeps(body, e2, f);
        match check_fuel(body, e2, f) {
            Some((r, e3)) => {
                lemma_scope(e, e2, k, e3, r is Ok, k);
                lemma_scope(e, e2, k, e3, r is Ok, 0);
            },
            None => {},
        }
    }
}

pub proof fn lemma_pipe_keeps(l: MirV, r: MirV, e: EnvV, fuel: nat)
    ensures
        outcome_keeps(e, pipe_fuel(l, r, e, fuel)),
    decreases fuel,
{
    lemma_keeps_refl(e);
    if fuel > 0 {
        let f = (fuel - 1) as nat;
        let e1 = match r {
            MirV::Let(PatternV::Name(n), _) => e.note_body(n, l),
            _ => e,
        };
        lemma_pushed_refl(e);
        match r {
            MirV::Let(PatternV::Name(n), _) => lemma_note_body_keeps(e, n, l),
            _ => {},
        }
        assert(pushed(e, e1, 0));
        lemma_check_keeps(l, e1, f);
        match check_fuel(l, e1, f) {
            Some((res0, e2)) => {
                lemma_scope(e, e1, 0, e2, res0 is Ok, 0);
                if res0 is Ok {
                    let lt = default_spec(res0->Ok_0);
                    lemma_keeps_refl(e2);
                    lemma_scope(e, e1, 0, e2, true, 0);
                    match r {
                        MirV::Let(pat, body) => {
                            lemma_bind_prelude_pushes(struct_fields_of(lt), 0, 0, e2);
                            let (c, e3) = bind_prelude(struct_fields_of(lt), 0, 0, e2);
                            let e4 = e3.bind(passthrough_name(), lt);
                            lemma_pushed_bind(e3, passthrough_name(), lt);
                            lemma_pushed_trans(e2, e3, e4, c, 1);
                            lemma_let_keeps(pat, *body, lt, e4, f);
                            match let_fuel(pat, *body, lt, e4, f) {
                                Some((res, e5)) => {
                                    lemma_pop_n(e5, 1);
                                    lemma_pop_one(e5);
                                    lemma_pop_n(e5.pop(), c);
                                    lemma_scope(e2, e4, c + 1, e5, res is Ok, c + 1);
                                    lemma_scope(e2, e4, c + 1, e5, res is Ok, 0);
                                    if res is Ok {
                                        assert(e5.pop().pop_n(c).bindings == e5.pop_n(c + 1).bindings) by {
                                            lemma_pop_n(e5, c + 1);
                                            assert(e5.pop().bindings.subrange(0, e5.pop().bindings.len() - c) =~= e5.bindings.subrange(
                                                0,
                                                e5.bindings.len() - (c + 1),
                                            ));
                                        }
                                    }
                                    assert(e5.pop().pop_n(c).modules == e5.modules);
                                    assert(e5.pop().pop_n(c).method_sets == e5.method_sets);
                                    lemma_keeps_trans(e, e2, e5.pop().pop_n(c), true, res is Ok);
                                },
                                None => {},
                            }
                        },
                        MirV::LetArray(pats, body) => {
                            let e3 = e2.bind(passthrough_name(), lt);
                            lemma_pushed_bind(e2, passthrough_name(), lt);
                            lemma_let_array_keeps(pats, *body, lt, e3, f);
                            match let_array_fuel(pats, *body, lt, e3, f) {
                                Some((res, e4)) => {
                                    lemma_scope(e2, e3, 1, e4, res is Ok, 1);
                                    lemma_scope(e2, e3, 1, e4, res is Ok, 0);
                                    lemma_pop_one(e4);
                                    lemma_keeps_trans(e, e2, e4.pop(), true, res is Ok);
                                },
                                None => {},
                            }
                        },
                        MirV::Apply(x, body) => {
                            lemma_apply_keeps(*x, *body, e2, f);
                            match apply_fuel(*x, *body, e2, f) {
                                Some((res, e3)) => lemma_keeps_trans(e, e2, e3, true, res is Ok),
                                None => {},
                            }
                        },
                        _ => {},
                    }
                }
            },
            None => {},
        }
    }
}

pub proof fn lemma_call_keeps(func: MirV, arg: MirV, e: EnvV, fuel: nat)
    ensures
        outcome_keeps(e, call_fuel(func, arg, e, fuel)),
    decreases fuel,
{
    lemma_keeps_refl(e);
    if fuel > 0 {
        let f = (fuel - 1) as nat;
        lemma_check_keeps(arg, e, f);
        let stored = match func {
            MirV::Ident(n) => assoc_get(e.block_bodies, n),
            _ => None,
        };
        let body_of: Option<MirV> = match func {
            MirV::Block(b) => Some(*b),
            MirV::BranchBlock(_) => None,
            MirV::Ident(_) => match stored {
                Some(MirV::Block(b)) => Some(*b),
                _ => None,
            },
            _ => None,
        };
        let arms_of: Option<Seq<MirArmV>> = match func {
            MirV::BranchBlock(arms) => Some(arms),
            MirV::Ident(_) => match stored {
                Some(MirV::BranchBlock(arms)) => Some(arms),
                _ => None,
            },
            _ => None,
        };
        if func is Block || func is BranchBlock || stored is Some {
            match check_fuel(arg, e, f) {
                Some((Ok(at), e2)) => {
                    lemma_keeps_refl(e2);
                    match body_of {
                        Some(body) => {
                            let eb = e2.bind(in_name(), at);
                            lemma_pushed_bind(e2, in_name(), at);
                            lemma_check_keeps(body, eb, f);
                            match check_fuel(body, eb, f) {
                                Some((r, e3)) => {
                                    lemma_scope(e2, eb, 1, e3, r is Ok, 1);
                                    lemma_scope(e2, eb, 1, e3, r is Ok, 0);
                                    lemma_pop_one(e3);
                                    lemma_keeps_trans(e, e2, e3.pop(), true, r is Ok);
                                    lemma_keeps_trans(e, e2, e3, true, false);
                                },
                                None => {},
                            }
                        },
                        None => {},
                    }
                    match arms_of {
                        Some(arms) => {
                            lemma_branch_input_keeps(arms, at, e2, f);
                            match branch_input_fuel(arms, at, e2, f) {
                                Some((r, e3)) => lemma_keeps_trans(e, e2, e3, true, r is Ok),
                                None => {},
                            }
                        },
                        None => {},
                    }
                },
                _ => {},
            }
        } else {
            lemma_check_keeps(func, e, f);
            match check_fuel(func, e, f) {
                Some((Ok(ft), e2)) => {
                    lemma_check_keeps(arg, e2, f);
                    match check_fuel(arg, e2, f) {
                        Some((r2, e3)) => {
                            lemma_keeps_trans(e, e2, e3, true, r2 is Ok);
                            if r2 is Ok {
                                lemma_keeps_refl(e3);
                                lemma_method_set_keeps(arg, e3, f);
                                match method_set_fuel(arg, e3, f) {
                                    Some((r4, e4)) => lemma_keeps_trans(e, e3, e4, true, r4 is Ok),
                                    None => {},
                                }
                                lemma_fresh_keeps(e3);
                                lemma_keeps_trans(e, e3, e3.fresh_infer().1, true, true);
                                lemma_keeps_trans(e, e3, e3, true, true);
                            }
                        },
                        None => {},
                    }
                },
                _ => {},
            }
        }
    }
}

pub proof fn lemma_method_set_keeps(arg: MirV, e: EnvV, fuel: nat)
    ensures
        outcome_keeps(e, method_set_fuel(arg, e, fuel)),
    decreases fuel,
{
    lemma_keeps_refl(e);
    if fuel > 0 {
        let f = (fuel - 1) as nat;
        lemma_check_keeps(arg, e, f);
        match check_fuel(arg, e, f) {
            Some((Ok(at), e2)) => {
                let (id, e3) = e2.fresh_ms();
                match at {
                    TyV::Struct(fs) => if fs.len() == 2 {
                        match fs[0].1 {
                            TyV::TagConstructor(tag_id) => {
                                let e4 = e3.register(id, tag_id, fs[1].1);
                                assert(e2.method_sets =~= e4.method_sets.subrange(0, e2.method_sets.len() as int));
                                lemma_keeps_trans(e, e2, e4, true, true);
                            },
                            _ => {},
                        }
                    },
                    _ => {},
                }
            },
            _ => {},
        }
    }
}

pub proof fn lemma_defer_keeps(arg: MirV, e: EnvV, fuel: nat)
    ensures
        outcome_keeps(e, defer_fuel(arg, e, fuel)),
    decreases fuel,
{
    lemma_keeps_refl(e);
    if fuel > 0 {
        let f = (fuel - 1) as nat;
        match arg {
            MirV::Block(_) | MirV::BranchBlock(_) => {
                let (p, e1) = e.fresh_infer();
                let (r, e2) = e1.fresh_infer();
                assert(e.method_sets =~= e2.method_sets.subrange(0, e.method_sets.len() as int));
            },
            MirV::Struct(fs) => lemma_struct_keeps(fs, 0, seq![], 0, true, e, f),
            _ => lemma_check_keeps(arg, e, f),
        }
    }
}

pub proof fn lemma_single_keeps(m: MirV, expected: TyV, e: EnvV, fuel: nat)
    ensures
        outcome_keeps(e, single_fuel(m, expected, e, fuel)),
    decreases fuel,
{
    lemma_keeps_refl(e);
    if fuel > 0 {
        let f = (fuel - 1) as nat;
        match m {
            MirV::Block(body) => {
                let eb = e.bind(in_name(), expected);
                lemma_pushed_bind(e, in_name(), expected);
                lemma_check_keeps(*body, eb, f);
                match check_fuel(*body, eb, f) {
                    Some((r, e2)) => {
                        lemma_scope(e, eb, 1, e2, r is Ok, 1);
                        lemma_scope(e, eb, 1, e2, r is Ok, 0);
                        lemma_pop_one(e2);
                    },
                    None => {},
                }
            },
            MirV::BranchBlock(arms) => lemma_branch_input_keeps(arms, expected, e, f),
            _ => {},
        }
    }
}

pub proof fn lemma_recheck_fields_keeps(
    fs: Seq<MirFieldV>,
    i: nat,
    cbs: Seq<(Seq<char>, TyV)>,
    pos: nat,
    any: bool,
    refined: Seq<(Seq<char>, TyV)>,
    e: EnvV,
    fuel: nat,
)
    ensures
        outcome_keeps(e, recheck_fields_fuel(fs, i, cbs, pos, any, refined, e, fuel)),
    decreases fuel,
{
    lemma_keeps_refl(e);
    if fuel > 0 && i < fs.len() {
        let f = (fuel - 1) as nat;
        let fld = fs[i as int];
        let (label, pos2) = match fld.label {
            Some(l) => (l, pos),
            None => (decimal(pos), pos + 1),
        };
        let param_label = match parse_u64_spec(label) {
            Some(n) => decimal((n + 1) as nat),
            None => label,
        };
        let tried: Option<(Result<Option<TyV>, Seq<char>>, EnvV)> = match first_with_key(cbs, param_label) {
            Some(TyV::Fn(cb_param, _)) => single_fuel(fld.value, *cb_param, e, f),
            _ => Some((Ok(None), e)),
        };
        match first_with_key(cbs, param_label) {
            Some(TyV::Fn(cb_param, _)) => lemma_single_keeps(fld.value, *cb_param, e, f),
            _ => {},
        }
        match tried {
            Some((Ok(Some(rt)), e2)) => {
                lemma_recheck_fields_keeps(fs, i + 1, cbs, pos2, true, refined.push((label, rt)), e2, f);
                match recheck_fields_fuel(fs, i + 1, cbs, pos2, true, refined.push((label, rt)), e2, f) {
                    Some((r3, e3)) => lemma_keeps_trans(e, e2, e3, true, r3 is Ok),
                    None => {},
                }
            },
            Some((Ok(None), e2)) => {
                lemma_check_keeps(fld.value, e2, f);
                match check_fuel(fld.value, e2, f) {
                    Some((Ok(t), e3)) => {
                        lemma_keeps_trans(e, e2, e3, true, true);
                        lemma_recheck_fields_keeps(fs, i + 1, cbs, pos2, any, refined.push((label, t)), e3, f);
                        match recheck_fields_fuel(fs, i + 1, cbs, pos2, any, refined.push((label, t)), e3, f) {
                            Some((r4, e4)) => lemma_keeps_trans(e, e3, e4, true, r4 is Ok),
                            None => {},
                        }
                    },
                    Some((Err(_), e3)) => lemma_keeps_trans(e, e2, e3, true, false),
                    None => {},
                }
            },
            _ => {},
        }
    }
}

pub proof fn lemma_recheck_keeps(arg: MirV, param: TyV, s: Map<u64, TyV>, e: EnvV, fuel: nat)
    ensures
        outcome_keeps(e, recheck_fuel(arg, param, s, e, fuel)),
    decreases fuel,
{
    lemma_keeps_refl(e);
    if fuel > 0 {
        let f = (fuel - 1) as nat;
        match param {
            TyV::Struct(pfs) => {
                let cbs = callbacks_from(pfs, 0, s, seq![]);
                match arg {
                    MirV::Struct(fs) => lemma_recheck_fields_keeps(fs, 0, cbs, 0, false, seq![], e, f),
                    _ => match first_with_key(cbs, "1"@) {
                        Some(TyV::Fn(cb_param, _)) => lemma_single_keeps(arg, *cb_param, e, f),
                        _ => {},
                    },
                }
            },
            _ => {},
        }
    }
}

pub proof fn lemma_set_method_keeps(recv_t: TyV, method: Seq<char>, p: TyV, r: TyV, arg: MirV, e: EnvV, fuel: nat)
    ensures
        outcome_keeps(e, set_method_fuel(recv_t, method, p, r, arg, e, fuel)),
    decreases fuel,
{
    lemma_keeps_refl(e);
    if fuel > 0 {
        let f = (fuel - 1) as nat;
        lemma_defer_keeps(arg, e, f);
        match defer_fuel(arg, e, f) {
            Some((Ok(at), e2)) => {
                lemma_keeps_refl(e2);
                match unify_generic(spec_prepend_arg_ty(recv_t, at), p) {
                    Some((Ok(_), s)) => {
                        lemma_recheck_keeps(arg, p, s, e2, f);
                        match recheck_fuel(arg, p, s, e2, f) {
                            Some((r3, e3)) => lemma_keeps_trans(e, e2, e3, true, r3 is Ok),
                            None => {},
                        }
                    },
                    _ => {},
                }
            },
            _ => {},
        }
    }
}

pub proof fn lemma_method_call_keeps(recv: MirV, method: Seq<char>, arg: MirV, e: EnvV, fuel: nat)
    ensures
        outcome_keeps(e, method_call_fuel(recv, method, arg, e, fuel)),
    decreases fuel,
{
    lemma_keeps_refl(e);
    if fuel > 0 {
        let f = (fuel - 1) as nat;
        lemma_check_keeps(recv, e, f);
        match check_fuel(recv, e, f) {
            Some((Ok(rt), e1)) => {
                lemma_keeps_refl(e1);
                lemma_method_set_keeps(arg, e1, f);
                match method_set_fuel(arg, e1, f) {
                    Some((r2, e2)) => lemma_keeps_trans(e, e1, e2, true, r2 is Ok),
                    None => {},
                }
                lemma_check_keeps(arg, e1, f);
                match check_fuel(arg, e1, f) {
                    Some((r2, e2)) => {
                        lemma_keeps_trans(e, e1, e2, true, r2 is Ok);
                        lemma_fresh_keeps(e2);
                        if r2 is Ok {
                            lemma_keeps_trans(e, e2, e2.fresh_infer().1, true, true);
                            lemma_keeps_trans(e, e2, e2, true, false);
                        }
                    },
                    None => {},
                }
                let found = match spec_ty_to_tag_id(rt) {
                    Some(tag_id) => find_method(e1.bindings, e1.method_sets, tag_id, method),
                    None => None,
                };
                match found {
                    Some(TyV::Fn(p, r)) => {
                        lemma_set_method_keeps(rt, method, *p, *r, arg, e1, f);
                        match set_method_fuel(rt, method, *p, *r, arg, e1, f) {
                            Some((r3, e3)) => lemma_keeps_trans(e, e1, e3, true, r3 is Ok),
                            None => {},
                        }
                    },
                    _ => {},
                }
                lemma_keeps_trans(e, e1, e1, true, false);
            },
            _ => {},
        }
    }
}

/// Checking keeps the environment's scopes: the modules are never
/// changed, method sets are only ever added to the registry, and a check
/// that succeeds leaves the binding stack as it found it (every binding it
/// makes is popped again).
pub proof fn law_check_keeps_scopes(m: MirV, e: EnvV)
    requires
        check_terminates(m, e),
    ensures
        spec_check(m, e).1.modules == e.modules,
        e.method_sets.is_prefix_of(spec_check(m, e).1.method_sets),
        spec_check(m, e).0 is Ok ==> spec_check(m, e).1.bindings == e.bindings,
{
    let fuel = choose|fuel: nat| #[trigger] check_fuel(m, e, fuel) is Some;
    lemma_check_keeps(m, e, fuel);
}


// ── Positional patterns ─────────────────────────────────────────

/// A struct whose labels are the positions `off`, `off + 1`, ... in decimal.
pub open spec fn positional_from(sf: Seq<(Seq<char>, TyV)>, off: nat) -> bool {
    forall|j: int| 0 <= j < sf.len() ==> (#[trigger] sf[j]).0 == decimal((j + off) as nat)
}

proof fn lemma_first_with_key_positional(sf: Seq<(Seq<char>, TyV)>, off: nat, j: int)
    requires
        positional_from(sf, off),
        0 <= j < sf.len(),
    ensures
        first_with_key(sf, decimal((j + off) as nat)) == Some(sf[j].1),
    decreases j,
{
    assert(sf[0].0 == decimal(off));
    if j > 0 {
        if sf[0].0 == decimal((j + off) as nat) {
            crate::text::lemma_decimal_injective(off, (j + off) as nat);
        }
        let rest = sf.drop_first();
        assert forall|i: int| 0 <= i < rest.len() implies (#[trigger] rest[i]).0 == decimal((i + off + 1) as nat) by {
            assert(rest[i] == sf[i + 1]);
        }
        lemma_first_with_key_positional(rest, off + 1, j - 1);
        assert(rest[j - 1] == sf[j]);
    }
}

proof fn lemma_bind_positional(
    fs: Seq<PatFieldV>,
    i: nat,
    sf: Seq<(Seq<char>, TyV)>,
    k: nat,
    used: Seq<Seq<char>>,
    e: EnvV,
)
    requires
        forall|j: int| 0 <= j < fs.len() ==> is_unlabeled(#[trigger] fs[j]),
        fs.len() <= sf.len(),
        positional_from(sf, 0),
        i <= fs.len(),
    ensures
        bind_pat_fields(fs, i, TyV::Struct(sf), false, k, i, used, e) == (
            (k + fs.len() - i) as nat,
            EnvV {
                bindings: e.bindings + Seq::new((fs.len() - i) as nat, |j: int| (fs[i + j].binding, sf[i + j].1)),
                ..e
            },
        ),
    decreases fs.len() - i,
{
    let tail = Seq::new((fs.len() - i) as nat, |j: int| (fs[i + j].binding, sf[i + j].1));
    if i == fs.len() {
        assert(e.bindings + tail =~= e.bindings);
    } else {
        let f = fs[i as int];
        assert(is_unlabeled(f));
        assert(sf[i as int].0 == decimal(i));
        lemma_first_with_key_positional(sf, 0, i as int);
        let e1 = e.bind(f.binding, sf[i as int].1);
        lemma_bind_positional(fs, i + 1, sf, k + 1, used.push(decimal(i)), e1);
        let tail1 = Seq::new((fs.len() - i - 1) as nat, |j: int| (fs[i + 1 + j].binding, sf[i + 1 + j].1));
        assert(e1.bindings + tail1 =~= e.bindings + tail);
    }
}

proof fn lemma_assoc_get_appended(a: Seq<(Seq<char>, TyV)>, b: Seq<(Seq<char>, TyV)>, m: int)
    requires
        0 <= m < b.len(),
        forall|j: int| 0 <= j < b.len() && j != m ==> (#[trigger] b[j]).0 != b[m].0,
    ensures
        assoc_get(a + b, b[m].0) == Some(b[m].1),
    decreases b.len(),
{
    let ab = a + b;
    assert(ab.last() == b.last());
    if m < b.len() - 1 {
        assert(ab.drop_last() =~= a + b.drop_last());
        assert(b.drop_last()[m] == b[m]);
        assert forall|j: int| 0 <= j < b.drop_last().len() && j != m implies (#[trigger] b.drop_last()[j]).0 != b.drop_last()[m].0 by {
            assert(b.drop_last()[j] == b[j]);
        }
        lemma_assoc_get_appended(a, b.drop_last(), m);
    }
}

/// A pattern of names without labels binds by position when the names are
/// not field labels of its struct input: the `m`-th name gets the type of
/// the field labelled `m`. So `(x, y) >> let(a, b); b` has the type of `y`.
pub proof fn law_positional_names_bind_by_position(
    fs: Seq<PatFieldV>,
    sf: Seq<(Seq<char>, TyV)>,
    e: EnvV,
    m: int,
    fuel: nat,
)
    requires
        forall|j: int| 0 <= j < fs.len() ==> is_unlabeled(#[trigger] fs[j]),
        forall|i: int, j: int| 0 <= i < j < fs.len() ==> fs[i].binding != fs[j].binding,
        forall|i: int, j: int| 0 <= i < fs.len() && 0 <= j < sf.len() ==> fs[i].binding != sf[j].0,
        positional_from(sf, 0),
        fs.len() <= sf.len(),
        0 <= m < fs.len(),
        fuel >= 2,
    ensures
        let_fuel(PatternV::Fields(fs), MirV::Ident(fs[m].binding), TyV::Struct(sf), e, fuel) matches Some((Ok(t), _))
            && t == sf[m].1,
{
    let input = TyV::Struct(sf);
    assert(!binds_by_name(fs, input)) by {
        assert(is_unlabeled(fs[m]));
        assert(!(exists|j: int| 0 <= j < sf.len() && (#[trigger] sf[j]).0 == fs[m].binding));
        if exists|i: int| 0 <= i < fs.len() && (#[trigger] fs[i]).label is Some {
            let i = choose|i: int| 0 <= i < fs.len() && (#[trigger] fs[i]).label is Some;
            assert(is_unlabeled(fs[i]));
        }
    }
    lemma_bind_positional(fs, 0, sf, 0, seq![], e);
    let tail = Seq::new(fs.len(), |j: int| (fs[0 + j].binding, sf[0 + j].1));
    let e1 = EnvV { bindings: e.bindings + tail, ..e };
    assert forall|j: int| 0 <= j < tail.len() && j != m implies (#[trigger] tail[j]).0 != tail[m].0 by {
        if j < m {
            assert(fs[j].binding != fs[m].binding);
        } else {
            assert(fs[m].binding != fs[j].binding);
        }
    }
    lemma_assoc_get_appended(e.bindings, tail, m);
    assert(e1.get(fs[m].binding) == Some(sf[m].1));
}

} // verus!
