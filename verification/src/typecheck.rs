//! The type environment and the type checker over MIR, verified against the
//! model in `checker`.
use vstd::prelude::*;

use std::collections::HashMap;

use crate::ast::{
    ArrayPat, BranchBinding, PatField, PatFieldV, Pattern, PatternV, array_pat_view, array_pats_view,
    lemma_pat_fields_view, opt_str, pat_fields_view, pattern_view,
};
use crate::checker::{
    EnvV, add_field, branch_precheck, apply_fuel, arms_fuel, branch_input_fuel, call_fuel, check_fuel,
    check_terminates, defer_fuel, elems_fuel, let_array_fuel, let_fuel, method_call_fuel,
    method_set_fuel, pipe_fuel, recheck_fields_fuel, recheck_fuel, set_method_fuel, single_fuel,
    spec_check, struct_fuel, array_pat_tys, assoc_get, bind_array_pats, bind_branch_pattern,
    bind_pat_fields, bind_prelude, bind_prelude_sets, binds_by_name, callbacks_from, can_match,
    find_method, first_tag_name, first_undefined_tag, first_with_key, in_name, is_discard_name,
    is_unlabeled, ms_name, passthrough_name, rest_from, rest_ty, spread_from, starts_with_ms,
    struct_fields_of, without_key,
};
use crate::mir::{
    Mir, MirBranchArm, MirBranchPattern, MirField, MirKind, MirV, copy_mir, mir_arm_view,
    mir_arms_view, mir_field_view, mir_fields_view, mir_pattern_view, mir_view,
};
use crate::text::{chars_of, concat, parse_u64, parse_u64_spec, text, u64_decimal};
use crate::types::{
    MethodSetInfo, Ty, TyV, copy_ty, default_literals, extract_payload_for_tag, fields_view,
    lemma_fields_view, lemma_fields_view_push, map_view, prepend_arg_ty,
    result_view, substitute_generics, ty_debug, ty_to_tag_id, unify,
    unify_with_generics,
};

verus! {

/// The model of the method set registry.
pub open spec fn sets_view(s: Seq<(u64, MethodSetInfo)>) -> Seq<(u64, (u64, TyV))> {
    s.map_values(|p: (u64, MethodSetInfo)| (p.0, (p.1.tag_id, p.1.methods@)))
}

/// The model of the stored block bodies.
pub open spec fn bodies_view(s: Seq<(String, Mir)>) -> Seq<(Seq<char>, MirV)> {
    s.map_values(|p: (String, Mir)| (p.0@, mir_view(*p.1)))
}

pub open spec fn opt_ty(o: Option<Ty>) -> Option<TyV> {
    match o {
        Some(t) => Some(t@),
        None => None,
    }
}

/// The type environment of the checker: a stack of bindings, the modules
/// that `import` can name, counters for fresh method set ids and inference
/// variables, the method set registry, and the block bodies kept for
/// re-checking at call sites. The modules, the method set registry and the
/// block bodies are maps kept as association lists: a new entry goes last
/// and a lookup finds the last entry with its key, so a new entry replaces
/// an older one with the same key.
pub struct TyEnv {
    bindings: Vec<(String, Ty)>,
    modules: Vec<(String, Ty)>,
    next_ms_id: u64,
    next_infer_id: u64,
    method_sets: Vec<(u64, MethodSetInfo)>,
    block_bodies: Vec<(String, Mir)>,
}

impl View for TyEnv {
    type V = EnvV;

    closed spec fn view(&self) -> EnvV {
        EnvV {
            bindings: fields_view(self.bindings@),
            modules: fields_view(self.modules@),
            next_ms_id: self.next_ms_id,
            next_infer_id: self.next_infer_id,
            method_sets: sets_view(self.method_sets@),
            block_bodies: bodies_view(self.block_bodies@),
        }
    }
}

// ── Lemmas on association lists ──

pub proof fn lemma_assoc_get_step<K, V>(s: Seq<(K, V)>, i: int, k: K)
    requires
        0 < i <= s.len(),
    ensures
        assoc_get(s.take(i), k) == (if s[i - 1].0 == k {
            Some(s[i - 1].1)
        } else {
            assoc_get(s.take(i - 1), k)
        }),
{
    assert(s.take(i).drop_last() =~= s.take(i - 1));
}

pub proof fn lemma_first_with_key_step<K, V>(s: Seq<(K, V)>, i: int, k: K)
    requires
        0 <= i < s.len(),
    ensures
        first_with_key(s.subrange(i, s.len() as int), k) == (if s[i].0 == k {
            Some(s[i].1)
        } else {
            first_with_key(s.subrange(i + 1, s.len() as int), k)
        }),
{
    assert(s.subrange(i, s.len() as int).drop_first() =~= s.subrange(i + 1, s.len() as int));
}

pub proof fn lemma_without_key_step<K, V>(s: Seq<(K, V)>, i: int, k: K)
    requires
        0 <= i < s.len(),
    ensures
        without_key(s.take(i + 1), k) == (if s[i].0 == k {
            without_key(s.take(i), k)
        } else {
            without_key(s.take(i), k).push(s[i])
        }),
{
    assert(s.take(i + 1).drop_last() =~= s.take(i));
}

pub proof fn lemma_find_method_step(
    bs: Seq<(Seq<char>, TyV)>,
    sets: Seq<(u64, (u64, TyV))>,
    i: int,
    tag_id: u64,
    m: Seq<char>,
)
    requires
        0 < i <= bs.len(),
    ensures
        find_method(bs.take(i), sets, tag_id, m) == ({
            let (n, t) = bs[i - 1];
            let found = if starts_with_ms(n) {
                match t {
                    TyV::MethodSet(id, ms_tag) => if ms_tag == tag_id {
                        match assoc_get(sets, id) {
                            Some((_, TyV::Struct(fs))) => first_with_key(fs, m),
                            _ => None,
                        }
                    } else {
                        None
                    },
                    _ => None,
                }
            } else {
                None
            };
            match found {
                Some(mt) => Some(mt),
                None => find_method(bs.take(i - 1), sets, tag_id, m),
            }
        }),
{
    assert(bs.take(i).drop_last() =~= bs.take(i - 1));
}

/// The index of the first field of `fs` named `name`.
pub fn field_index(fs: &Vec<(String, Ty)>, name: &String) -> (r: Option<usize>)
    ensures
        match r {
            Some(j) => j < fs.len() && first_with_key(fields_view(fs@), name@) == Some(fs@[j as int].1@),
            None => first_with_key(fields_view(fs@), name@) is None,
        },
{
    let ghost vs = fields_view(fs@);
    proof {
        lemma_fields_view(fs@);
        assert(vs.subrange(0, vs.len() as int) =~= vs);
    }
    let mut i: usize = 0;
    while i < fs.len()
        invariant
            i <= fs.len(),
            vs == fields_view(fs@),
            vs.len() == fs.len(),
            forall|j: int| 0 <= j < fs.len() ==> #[trigger] vs[j] == (fs@[j].0@, fs@[j].1@),
            first_with_key(vs, name@) == first_with_key(vs.subrange(i as int, vs.len() as int), name@),
        decreases fs.len() - i,
    {
        proof {
            lemma_first_with_key_step(vs, i as int, name@);
        }
        if fs[i].0 == *name {
            return Some(i);
        }
        i = i + 1;
    }
    None
}

/// Whether a name is the marker of a method set in scope.
fn is_ms_binding(name: &String) -> (r: bool)
    ensures
        r == starts_with_ms(name@),
{
    let cs = chars_of(name.as_str());
    cs.len() >= 3 && cs[0] == '\0' && cs[1] == 'm' && cs[2] == 's'
}

impl TyEnv {
    /// An empty environment.
    pub fn new() -> (r: Self)
        ensures
            r@ == EnvV::empty(),
    {
        let r = TyEnv {
            bindings: Vec::new(),
            modules: Vec::new(),
            next_ms_id: 0,
            next_infer_id: 0,
            method_sets: Vec::new(),
            block_bodies: Vec::new(),
        };
        proof {
            assert(fields_view(r.bindings@) =~= seq![]);
            assert(sets_view(r.method_sets@) =~= seq![]);
            assert(bodies_view(r.block_bodies@) =~= seq![]);
        }
        r
    }

    /// The environment with the module `name` of type `ty`.
    pub fn with_module(self, name: &str, ty: Ty) -> (r: Self)
        ensures
            r@ == (EnvV { modules: self@.modules.push((name@, ty@)), ..self@ }),
    {
        let mut s = self;
        let n = text(name);
        proof {
            lemma_fields_view_push(s.modules@, (n, ty));
        }
        s.modules.push((n, ty));
        s
    }

    /// The environment with the method set registry and the counters of
    /// `other`.
    pub fn with_method_sets_from(self, other: &TyEnv) -> (r: Self)
        ensures
            r@ == (EnvV {
                method_sets: other@.method_sets,
                next_ms_id: other@.next_ms_id,
                next_infer_id: other@.next_infer_id,
                ..self@
            }),
    {
        let mut s = self;
        let mut sets: Vec<(u64, MethodSetInfo)> = Vec::new();
        let mut i: usize = 0;
        while i < other.method_sets.len()
            invariant
                i <= other.method_sets.len(),
                sets_view(sets@) == sets_view(other.method_sets@).take(i as int),
            decreases other.method_sets.len() - i,
        {
            let id = other.method_sets[i].0;
            let info = MethodSetInfo {
                tag_id: other.method_sets[i].1.tag_id,
                methods: copy_ty(&other.method_sets[i].1.methods),
            };
            let ghost prev = sets@;
            let ghost info_v = (info.tag_id, info.methods@);
            sets.push((id, info));
            proof {
                assert(sets_view(sets@) =~= sets_view(prev).push((id, info_v)));
                assert(sets_view(other.method_sets@).take(i + 1) =~= sets_view(other.method_sets@).take(
                    i as int,
                ).push(sets_view(other.method_sets@)[i as int]));
            }
            i = i + 1;
        }
        proof {
            assert(sets_view(other.method_sets@).take(other.method_sets.len() as int) =~= sets_view(
                other.method_sets@,
            ));
        }
        s.method_sets = sets;
        s.next_ms_id = other.next_ms_id;
        s.next_infer_id = other.next_infer_id;
        s
    }

    /// Adds a binding from outside the checker (such as a pre-bound builtin).
    pub fn bind_external(&mut self, name: String, ty: Ty)
        ensures
            final(self)@ == old(self)@.bind(name@, ty@),
    {
        self.bind(name, ty);
    }

    /// Binds `name` to `ty`, shadowing earlier bindings of the name.
    pub fn bind(&mut self, name: String, ty: Ty)
        ensures
            final(self)@ == old(self)@.bind(name@, ty@),
    {
        proof {
            lemma_fields_view_push(self.bindings@, (name, ty));
        }
        self.bindings.push((name, ty));
    }

    /// The type bound to `name` most recently.
    pub fn get(&self, name: &String) -> (r: Option<Ty>)
        ensures
            opt_ty(r) == self@.get(name@),
    {
        let ghost vs = fields_view(self.bindings@);
        proof {
            lemma_fields_view(self.bindings@);
            assert(vs.take(vs.len() as int) =~= vs);
        }
        let mut i = self.bindings.len();
        while i > 0
            invariant
                i <= self.bindings.len(),
                vs == fields_view(self.bindings@),
                vs.len() == self.bindings.len(),
                forall|j: int| 0 <= j < self.bindings.len() ==> #[trigger] vs[j] == (self.bindings@[j].0@, self.bindings@[j].1@),
                assoc_get(vs, name@) == assoc_get(vs.take(i as int), name@),
            decreases i,
        {
            proof {
                lemma_assoc_get_step(vs, i as int, name@);
            }
            if self.bindings[i - 1].0 == *name {
                return Some(copy_ty(&self.bindings[i - 1].1));
            }
            i = i - 1;
        }
        None
    }

    fn pop_binding(&mut self)
        ensures
            final(self)@ == old(self)@.pop(),
    {
        let ghost before = self.bindings@;
        let _ = self.bindings.pop();
        proof {
            if before.len() > 0 {
                assert(before.drop_last() =~= self.bindings@);
                assert(fields_view(before).drop_last() =~= fields_view(self.bindings@));
            }
        }
    }

    fn pop_n(&mut self, k: usize)
        ensures
            final(self)@ == old(self)@.pop_n(k as nat),
    {
        let mut i: usize = 0;
        while i < k
            invariant
                i <= k,
                old(self)@.pop_n(k as nat) == self@.pop_n((k - i) as nat),
            decreases k - i,
        {
            self.pop_binding();
            i = i + 1;
        }
    }

    fn fresh_infer(&mut self) -> (r: Ty)
        ensures
            (r@, final(self)@) == old(self)@.fresh_infer(),
    {
        let id = self.next_infer_id;
        self.next_infer_id = if id == u64::MAX { 0 } else { id + 1 };
        Ty::Infer(id)
    }

    /// A fresh method set id.
    pub fn fresh_method_set_id(&mut self) -> (r: u64)
        ensures
            (r, final(self)@) == old(self)@.fresh_ms(),
    {
        let id = self.next_ms_id;
        self.next_ms_id = if id == u64::MAX { 0 } else { id + 1 };
        id
    }

    /// Records the tag and the methods of the method set `id`.
    pub fn register_method_set(&mut self, id: u64, tag_id: u64, methods: Ty)
        ensures
            final(self)@ == old(self)@.register(id, tag_id, methods@),
    {
        let ghost before = self.method_sets@;
        self.method_sets.push((id, MethodSetInfo { tag_id, methods }));
        proof {
            assert(sets_view(self.method_sets@) =~= sets_view(before).push((id, (tag_id, methods@))));
        }
    }

    /// The type of the module `name`.
    fn module(&self, name: &String) -> (r: Option<Ty>)
        ensures
            opt_ty(r) == assoc_get(self@.modules, name@),
    {
        let ghost vs = fields_view(self.modules@);
        proof {
            lemma_fields_view(self.modules@);
            assert(vs.take(vs.len() as int) =~= vs);
        }
        let mut i = self.modules.len();
        while i > 0
            invariant
                i <= self.modules.len(),
                vs == fields_view(self.modules@),
                vs.len() == self.modules.len(),
                forall|j: int| 0 <= j < self.modules.len() ==> #[trigger] vs[j] == (self.modules@[j].0@, self.modules@[j].1@),
                assoc_get(vs, name@) == assoc_get(vs.take(i as int), name@),
            decreases i,
        {
            proof {
                lemma_assoc_get_step(vs, i as int, name@);
            }
            if self.modules[i - 1].0 == *name {
                return Some(copy_ty(&self.modules[i - 1].1));
            }
            i = i - 1;
        }
        None
    }

    /// The index of the registry entry of the method set `id`.
    fn method_set_index(&self, id: u64) -> (r: Option<usize>)
        ensures
            match r {
                Some(j) => j < self.method_sets.len() && assoc_get(self@.method_sets, id) == Some(
                    (self.method_sets@[j as int].1.tag_id, self.method_sets@[j as int].1.methods@),
                ),
                None => assoc_get(self@.method_sets, id) is None,
            },
    {
        let ghost vs = sets_view(self.method_sets@);
        proof {
            assert(vs.take(vs.len() as int) =~= vs);
        }
        let mut i = self.method_sets.len();
        while i > 0
            invariant
                i <= self.method_sets.len(),
                vs == sets_view(self.method_sets@),
                assoc_get(vs, id) == assoc_get(vs.take(i as int), id),
            decreases i,
        {
            proof {
                lemma_assoc_get_step(vs, i as int, id);
            }
            if self.method_sets[i - 1].0 == id {
                return Some(i - 1);
            }
            i = i - 1;
        }
        None
    }

    /// The type of `method` for the tag `tag_id` in the method sets in
    /// scope, the most recently bound first.
    fn find_method_type(&self, tag_id: u64, method: &String) -> (r: Option<Ty>)
        ensures
            opt_ty(r) == find_method(self@.bindings, self@.method_sets, tag_id, method@),
    {
        let ghost vs = fields_view(self.bindings@);
        proof {
            lemma_fields_view(self.bindings@);
            assert(vs.take(vs.len() as int) =~= vs);
        }
        let mut i = self.bindings.len();
        while i > 0
            invariant
                i <= self.bindings.len(),
                vs == fields_view(self.bindings@),
                vs.len() == self.bindings.len(),
                forall|j: int| 0 <= j < self.bindings.len() ==> #[trigger] vs[j] == (self.bindings@[j].0@, self.bindings@[j].1@),
                find_method(vs, self@.method_sets, tag_id, method@) == find_method(
                    vs.take(i as int),
                    self@.method_sets,
                    tag_id,
                    method@,
                ),
            decreases i,
        {
            proof {
                lemma_find_method_step(vs, self@.method_sets, i as int, tag_id, method@);
            }
            if is_ms_binding(&self.bindings[i - 1].0) {
                if let Ty::MethodSet { id, tag_id: ms_tag } = &self.bindings[i - 1].1 {
                    if *ms_tag == tag_id {
                        if let Some(j) = self.method_set_index(*id) {
                            if let Ty::Struct(fs) = &self.method_sets[j].1.methods {
                                if let Some(k) = field_index(fs, method) {
                                    return Some(copy_ty(&fs[k].1));
                                }
                            }
                        }
                    }
                }
            }
            i = i - 1;
        }
        None
    }

    /// The block body stored for `name`.
    fn stored_body(&self, name: &String) -> (r: Option<Mir>)
        ensures
            match r {
                Some(b) => assoc_get(self@.block_bodies, name@) == Some(mir_view(*b)),
                None => assoc_get(self@.block_bodies, name@) is None,
            },
    {
        let ghost vs = bodies_view(self.block_bodies@);
        proof {
            assert(vs.take(vs.len() as int) =~= vs);
        }
        let mut i = self.block_bodies.len();
        while i > 0
            invariant
                i <= self.block_bodies.len(),
                vs == bodies_view(self.block_bodies@),
                assoc_get(vs, name@) == assoc_get(vs.take(i as int), name@),
            decreases i,
        {
            proof {
                lemma_assoc_get_step(vs, i as int, name@);
            }
            if self.block_bodies[i - 1].0 == *name {
                return Some(Box::new(copy_mir(&self.block_bodies[i - 1].1)));
            }
            i = i - 1;
        }
        None
    }

    /// Keeps `value` as the body of `name` when it is a block, and forgets
    /// any body of `name` otherwise.
    fn note_body(&mut self, name: &String, value: &MirKind)
        ensures
            final(self)@ == old(self)@.note_body(name@, value@),
    {
        match value {
            MirKind::Block(_) | MirKind::BranchBlock(_) => {
                let ghost before = self.block_bodies@;
                let b = Box::new(copy_mir(value));
                self.block_bodies.push((name.clone(), b));
                proof {
                    assert(bodies_view(self.block_bodies@) =~= bodies_view(before).push((name@, value@)));
                }
            },
            _ => {
                let ghost vs = bodies_view(self.block_bodies@);
                let mut out: Vec<(String, Mir)> = Vec::new();
                let mut i: usize = 0;
                proof {
                    assert(vs.take(0) =~= Seq::<(Seq<char>, MirV)>::empty());
                    assert(bodies_view(out@) =~= Seq::<(Seq<char>, MirV)>::empty());
                }
                while i < self.block_bodies.len()
                    invariant
                        i <= self.block_bodies.len(),
                        vs == bodies_view(self.block_bodies@),
                        bodies_view(out@) == without_key(vs.take(i as int), name@),
                    decreases self.block_bodies.len() - i,
                {
                    proof {
                        lemma_without_key_step(vs, i as int, name@);
                    }
                    if self.block_bodies[i].0 != *name {
                        let ghost prev = out@;
                        let entry = (self.block_bodies[i].0.clone(), Box::new(copy_mir(&self.block_bodies[i].1)));
                        out.push(entry);
                        proof {
                            assert(bodies_view(out@) =~= bodies_view(prev).push(vs[i as int]));
                        }
                    }
                    i = i + 1;
                }
                proof {
                    assert(vs.take(self.block_bodies.len() as int) =~= vs);
                }
                self.block_bodies = out;
            },
        }
    }
}


// ── Views of lists ──

pub open spec fn strings_view(v: Seq<String>) -> Seq<Seq<char>> {
    v.map_values(|s: String| s@)
}

pub proof fn lemma_mir_fields_view(fs: Seq<MirField>)
    ensures
        mir_fields_view(fs).len() == fs.len(),
        forall|i: int| 0 <= i < fs.len() ==> #[trigger] mir_fields_view(fs)[i] == mir_field_view(fs[i]),
    decreases fs.len(),
{
    if fs.len() > 0 {
        lemma_mir_fields_view(fs.drop_last());
    }
}

pub proof fn lemma_mir_arms_view(arms: Seq<MirBranchArm>)
    ensures
        mir_arms_view(arms).len() == arms.len(),
        forall|i: int| 0 <= i < arms.len() ==> #[trigger] mir_arms_view(arms)[i] == mir_arm_view(arms[i]),
    decreases arms.len(),
{
    if arms.len() > 0 {
        lemma_mir_arms_view(arms.drop_last());
    }
}

pub proof fn lemma_array_pats_view(ps: Seq<ArrayPat>)
    ensures
        array_pats_view(ps).len() == ps.len(),
        forall|i: int| 0 <= i < ps.len() ==> #[trigger] array_pats_view(ps)[i] == array_pat_view(ps[i]),
    decreases ps.len(),
{
    if ps.len() > 0 {
        lemma_array_pats_view(ps.drop_last());
    }
}

// ── Names and messages ──

fn in_string() -> (r: String)
    ensures
        r@ == in_name(),
{
    proof {
        reveal_strlit("in");
    }
    let r = text("in");
    assert(r@ =~= in_name());
    r
}

fn ms_string() -> (r: String)
    ensures
        r@ == ms_name(),
{
    proof {
        reveal_strlit("\0ms");
    }
    let r = text("\0ms");
    assert(r@ =~= ms_name());
    r
}

fn passthrough_string() -> (r: String)
    ensures
        r@ == passthrough_name(),
{
    proof {
        reveal_strlit("\0");
    }
    let r = text("\0");
    assert(r@ =~= passthrough_name());
    r
}

fn msg3(a: &str, b: &str, c: &str) -> (r: String)
    ensures
        r@ == a@ + b@ + c@,
{
    let ab = concat(a, b);
    concat(ab.as_str(), c)
}

pub(crate) fn is_underscore(s: &String) -> (r: bool)
    ensures
        r == is_discard_name(s@),
{
    let cs = chars_of(s.as_str());
    let r = cs.len() == 1 && cs[0] == '_';
    proof {
        if r {
            assert(s@ =~= seq!['_']);
        }
    }
    r
}

fn is_empty_text(s: &String) -> (r: bool)
    ensures
        r == (s@.len() == 0),
{
    let cs = chars_of(s.as_str());
    cs.len() == 0
}

fn contains_string(v: &Vec<String>, s: &String) -> (r: bool)
    ensures
        r == strings_view(v@).contains(s@),
{
    let mut i: usize = 0;
    while i < v.len()
        invariant
            i <= v.len(),
            forall|j: int| 0 <= j < i ==> v@[j]@ != s@,
        decreases v.len() - i,
    {
        if v[i] == *s {
            assert(strings_view(v@)[i as int] == s@);
            return true;
        }
        i = i + 1;
    }
    proof {
        if strings_view(v@).contains(s@) {
            let j = choose|j: int| 0 <= j < strings_view(v@).len() && strings_view(v@)[j] == s@;
            assert(v@[j]@ == s@);
        }
    }
    false
}

// ── Struct literals ──

/// Appends the fields of a spread struct from index `i` on; the next
/// positional index.
fn spread_in(acc: &mut Vec<(String, Ty)>, sfs: &Vec<(String, Ty)>, pos0: u64) -> (p2: u64)
    requires
        pos0 <= old(acc).len(),
    ensures
        (fields_view(final(acc)@), p2 as nat) == spread_from(fields_view(sfs@), 0, fields_view(old(acc)@), pos0 as nat),
        p2 <= final(acc).len(),
{
    let ghost vs = fields_view(sfs@);
    proof {
        lemma_fields_view(sfs@);
    }
    let mut pos = pos0;
    let mut i: usize = 0;
    while i < sfs.len()
        invariant
            i <= sfs.len(),
            pos <= acc.len(),
            vs == fields_view(sfs@),
            vs.len() == sfs.len(),
            forall|j: int| 0 <= j < sfs.len() ==> #[trigger] vs[j] == (sfs@[j].0@, sfs@[j].1@),
            spread_from(vs, 0, fields_view(old(acc)@), pos0 as nat) == spread_from(vs, i as nat, fields_view(acc@), pos as nat),
        decreases sfs.len() - i,
    {
        let t = copy_ty(&sfs[i].1);
        if parse_u64(sfs[i].0.as_str()).is_some() {
            let label = u64_decimal(pos);
            proof {
                lemma_fields_view_push(acc@, (label, t));
            }
            acc.push((label, t));
            let n = acc.len();
            assert(pos < n);
            pos = pos + 1;
        } else {
            let label = sfs[i].0.clone();
            proof {
                lemma_fields_view_push(acc@, (label, t));
            }
            acc.push((label, t));
        }
        i = i + 1;
    }
    pos
}

/// Adds a checked field of a struct literal; the next positional index.
fn add_field_in(acc: &mut Vec<(String, Ty)>, pos: u64, f: &MirField, t: Ty) -> (p2: u64)
    requires
        pos <= old(acc).len(),
    ensures
        (fields_view(final(acc)@), p2 as nat) == add_field(fields_view(old(acc)@), pos as nat, mir_field_view(*f), t@),
        p2 <= final(acc).len(),
{
    if f.is_spread {
        match t {
            Ty::Struct(sfs) => spread_in(acc, &sfs, pos),
            Ty::Unit => pos,
            other => {
                let label = u64_decimal(pos);
                proof {
                    lemma_fields_view_push(acc@, (label, other));
                }
                acc.push((label, other));
                let n = acc.len();
                assert(pos < n);
                pos + 1
            },
        }
    } else {
        match &f.label {
            Some(l) => {
                let label = l.clone();
                proof {
                    lemma_fields_view_push(acc@, (label, t));
                }
                acc.push((label, t));
                pos
            },
            None => {
                let label = u64_decimal(pos);
                proof {
                    lemma_fields_view_push(acc@, (label, t));
                }
                acc.push((label, t));
                let n = acc.len();
                assert(pos < n);
                pos + 1
            },
        }
    }
}

// ── Branch patterns ──

fn is_tag_ctor(o: &Option<Ty>) -> (r: bool)
    ensures
        r == crate::checker::is_tag_constructor(opt_ty(*o)),
{
    match o {
        Some(Ty::TagConstructor(_)) => true,
        _ => false,
    }
}

/// Binds what a branch pattern introduces; the number of bindings added.
fn bind_branch_pattern_in(p: &MirBranchPattern, input: &Ty, env: &mut TyEnv) -> (r: Result<usize, String>)
    ensures
        bind_branch_pattern(mir_pattern_view(*p), input@, old(env)@) == (
            match r {
                Ok(k) => Ok(k as nat),
                Err(m) => Err(m@),
            },
            final(env)@,
        ),
{
    match p {
        MirBranchPattern::Tag(name, binding) => {
            let got = env.get(name);
            let is_infer = match input {
                Ty::Infer(_) => true,
                _ => false,
            };
            if !is_infer && !is_tag_ctor(&got) {
                return Err(msg3("type error: undefined tag '", name.as_str(), "' in branch pattern"));
            }
            match binding {
                Some(BranchBinding::Name(n)) => {
                    let resolved = match &got {
                        Some(Ty::TagConstructor(id)) => extract_payload_for_tag(*id, input),
                        _ => None,
                    };
                    let pt = match resolved {
                        Some(t) => t,
                        None => env.fresh_infer(),
                    };
                    env.bind(n.clone(), pt);
                    Ok(1)
                },
                _ => Ok(0),
            }
        },
        MirBranchPattern::Binding(n) => {
            env.bind(n.clone(), copy_ty(input));
            Ok(1)
        },
        _ => Ok(0),
    }
}

fn arm_pattern_can_match(p: &MirBranchPattern, input: &Ty, env: &TyEnv) -> (r: bool)
    ensures
        r == can_match(mir_pattern_view(*p), input@, env@),
{
    match p {
        MirBranchPattern::Tag(name, _) => match env.get(name) {
            Some(Ty::TagConstructor(id)) => extract_payload_for_tag(id, input).is_some(),
            _ => false,
        },
        _ => true,
    }
}

fn any_can_match_in(arms: &[MirBranchArm], input: &Ty, env: &TyEnv) -> (r: bool)
    ensures
        r == exists|j: int| 0 <= j < arms.len() && can_match(#[trigger] mir_arms_view(arms@)[j].pattern, input@, env@),
{
    proof {
        lemma_mir_arms_view(arms@);
    }
    let ghost av = mir_arms_view(arms@);
    let mut i: usize = 0;
    while i < arms.len()
        invariant
            i <= arms.len(),
            av == mir_arms_view(arms@),
            av.len() == arms.len(),
            forall|j: int| 0 <= j < arms.len() ==> #[trigger] av[j] == mir_arm_view(arms@[j]),
            forall|j: int| 0 <= j < i ==> !can_match(#[trigger] av[j].pattern, input@, env@),
        decreases arms.len() - i,
    {
        if arm_pattern_can_match(&arms[i].pattern, input, env) {
            assert(can_match(av[i as int].pattern, input@, env@));
            return true;
        }
        i = i + 1;
    }
    false
}

fn first_undefined_tag_in(arms: &[MirBranchArm], env: &TyEnv) -> (r: Option<String>)
    ensures
        match r {
            Some(n) => first_undefined_tag(mir_arms_view(arms@), env@) == Some(n@),
            None => first_undefined_tag(mir_arms_view(arms@), env@) is None,
        },
{
    proof {
        lemma_mir_arms_view(arms@);
    }
    let ghost av = mir_arms_view(arms@);
    proof {
        assert(av.subrange(0, av.len() as int) =~= av);
    }
    let mut i: usize = 0;
    while i < arms.len()
        invariant
            i <= arms.len(),
            av == mir_arms_view(arms@),
            av.len() == arms.len(),
            forall|j: int| 0 <= j < arms.len() ==> #[trigger] av[j] == mir_arm_view(arms@[j]),
            first_undefined_tag(av, env@) == first_undefined_tag(av.subrange(i as int, av.len() as int), env@),
        decreases arms.len() - i,
    {
        proof {
            assert(av.subrange(i as int, av.len() as int).drop_first() =~= av.subrange(i + 1, av.len() as int));
            assert(av.subrange(i as int, av.len() as int)[0] == av[i as int]);
        }
        if let MirBranchPattern::Tag(name, _) = &arms[i].pattern {
            let got = env.get(name);
            if !is_tag_ctor(&got) {
                return Some(name.clone());
            }
        }
        i = i + 1;
    }
    None
}

fn first_tag_name_in(arms: &[MirBranchArm]) -> (r: String)
    ensures
        r@ == first_tag_name(mir_arms_view(arms@)),
{
    proof {
        lemma_mir_arms_view(arms@);
    }
    let ghost av = mir_arms_view(arms@);
    proof {
        assert(av.subrange(0, av.len() as int) =~= av);
    }
    let mut i: usize = 0;
    while i < arms.len()
        invariant
            i <= arms.len(),
            av == mir_arms_view(arms@),
            av.len() == arms.len(),
            forall|j: int| 0 <= j < arms.len() ==> #[trigger] av[j] == mir_arm_view(arms@[j]),
            first_tag_name(av) == first_tag_name(av.subrange(i as int, av.len() as int)),
        decreases arms.len() - i,
    {
        proof {
            assert(av.subrange(i as int, av.len() as int).drop_first() =~= av.subrange(i + 1, av.len() as int));
            assert(av.subrange(i as int, av.len() as int)[0] == av[i as int]);
        }
        if let MirBranchPattern::Tag(name, _) = &arms[i].pattern {
            return name.clone();
        }
        i = i + 1;
    }
    proof {
        assert(av.subrange(i as int, av.len() as int) =~= Seq::<crate::mir::MirArmV>::empty());
    }
    text("?")
}


// ── Destructuring patterns ──

fn is_unlabeled_in(f: &PatField) -> (r: bool)
    ensures
        r == is_unlabeled(PatFieldV { label: opt_str(f.label), binding: f.binding@, is_rest: f.is_rest }),
{
    !f.is_rest && f.label.is_none() && !is_underscore(&f.binding)
}

/// Whether a fields pattern binds by field name; `sf` holds the fields of
/// the input when it is a struct.
fn binds_by_name_in(fs: &Vec<PatField>, sf: &Vec<(String, Ty)>, input: &Ty) -> (r: bool)
    requires
        fields_view(sf@) == struct_fields_of(input@),
    ensures
        r == binds_by_name(pat_fields_view(fs@), input@),
{
    let ghost pv = pat_fields_view(fs@);
    let ghost sv = fields_view(sf@);
    proof {
        lemma_pat_fields_view(fs@);
        lemma_fields_view(sf@);
    }
    let mut i: usize = 0;
    while i < fs.len()
        invariant
            i <= fs.len(),
            pv == pat_fields_view(fs@),
            pv.len() == fs.len(),
            forall|j: int| 0 <= j < fs.len() ==> #[trigger] pv[j] == (PatFieldV { label: opt_str(fs@[j].label), binding: fs@[j].binding@, is_rest: fs@[j].is_rest }),
            forall|j: int| 0 <= j < i ==> (#[trigger] pv[j]).label is None,
        decreases fs.len() - i,
    {
        if fs[i].label.is_some() {
            assert(pv[i as int].label is Some);
            return true;
        }
        i = i + 1;
    }
    let mut any_unlabeled = false;
    let mut all_found = true;
    let mut i: usize = 0;
    while i < fs.len()
        invariant
            i <= fs.len(),
            pv == pat_fields_view(fs@),
            sv == fields_view(sf@),
            pv.len() == fs.len(),
            sv.len() == sf.len(),
            forall|j: int| 0 <= j < fs.len() ==> #[trigger] pv[j] == (PatFieldV { label: opt_str(fs@[j].label), binding: fs@[j].binding@, is_rest: fs@[j].is_rest }),
            forall|j: int| 0 <= j < sf.len() ==> #[trigger] sv[j] == (sf@[j].0@, sf@[j].1@),
            forall|j: int| 0 <= j < fs.len() ==> (#[trigger] pv[j]).label is None,
            any_unlabeled == exists|j: int| 0 <= j < i && is_unlabeled(#[trigger] pv[j]),
            all_found == forall|j: int|
                0 <= j < i && is_unlabeled(#[trigger] pv[j]) ==> exists|m: int| 0 <= m < sv.len() && (#[trigger] sv[m]).0 == pv[j].binding,
        decreases fs.len() - i,
    {
        if is_unlabeled_in(&fs[i]) {
            assert(is_unlabeled(pv[i as int]));
            any_unlabeled = true;
            let mut found = false;
            let mut m: usize = 0;
            while m < sf.len()
                invariant
                    m <= sf.len(),
                    i < fs.len(),
                    sv == fields_view(sf@),
                    sv.len() == sf.len(),
                    forall|j: int| 0 <= j < sf.len() ==> #[trigger] sv[j] == (sf@[j].0@, sf@[j].1@),
                    pv.len() == fs.len(),
                    pv[i as int].binding == fs@[i as int].binding@,
                    found == exists|q: int| 0 <= q < m && (#[trigger] sv[q]).0 == pv[i as int].binding,
                decreases sf.len() - m,
            {
                if sf[m].0 == fs[i].binding {
                    assert(sv[m as int].0 == pv[i as int].binding);
                    found = true;
                }
                m = m + 1;
            }
            if !found {
                all_found = false;
            }
        }
        i = i + 1;
    }
    if any_unlabeled {
        all_found
    } else {
        let mut m: usize = 0;
        while m < sf.len()
            invariant
                m <= sf.len(),
                sv == fields_view(sf@),
                sv.len() == sf.len(),
                forall|j: int| 0 <= j < sf.len() ==> #[trigger] sv[j] == (sf@[j].0@, sf@[j].1@),
                forall|q: int| 0 <= q < m ==> parse_u64_spec((#[trigger] sv[q]).0) is Some,
                sv == struct_fields_of(input@),
                pv == pat_fields_view(fs@),
                pv.len() == fs.len(),
                forall|j: int| 0 <= j < fs.len() ==> (#[trigger] pv[j]).label is None,
                !(exists|j: int| 0 <= j < fs.len() && is_unlabeled(#[trigger] pv[j])),
            decreases sf.len() - m,
        {
            if parse_u64(sf[m].0.as_str()).is_none() {
                assert(parse_u64_spec(sv[m as int].0) is None);
                return true;
            }
            m = m + 1;
        }
        false
    }
}

/// The remaining fields of a rest pattern after the keys `used`.
fn rest_in(sf: &Vec<(String, Ty)>, used: &Vec<String>) -> (r: Vec<(String, Ty)>)
    ensures
        fields_view(r@) == rest_from(fields_view(sf@), 0, strings_view(used@), 0, seq![]),
{
    let ghost sv = fields_view(sf@);
    proof {
        lemma_fields_view(sf@);
        assert(fields_view(Seq::<(String, Ty)>::empty()) =~= seq![]);
    }
    let mut out: Vec<(String, Ty)> = Vec::new();
    let mut pos: u64 = 0;
    let mut i: usize = 0;
    while i < sf.len()
        invariant
            i <= sf.len(),
            pos <= i,
            sv == fields_view(sf@),
            sv.len() == sf.len(),
            forall|j: int| 0 <= j < sf.len() ==> #[trigger] sv[j] == (sf@[j].0@, sf@[j].1@),
            rest_from(sv, 0, strings_view(used@), 0, seq![]) == rest_from(sv, i as nat, strings_view(used@), pos as nat, fields_view(out@)),
        decreases sf.len() - i,
    {
        if !contains_string(used, &sf[i].0) {
            let t = copy_ty(&sf[i].1);
            if parse_u64(sf[i].0.as_str()).is_some() {
                let label = u64_decimal(pos);
                proof {
                    lemma_fields_view_push(out@, (label, t));
                }
                out.push((label, t));
                pos = pos + 1;
            } else {
                let label = sf[i].0.clone();
                proof {
                    lemma_fields_view_push(out@, (label, t));
                }
                out.push((label, t));
            }
        }
        i = i + 1;
    }
    out
}

fn rest_ty_in(input: &Ty, used: &Vec<String>, env: &mut TyEnv) -> (r: Ty)
    ensures
        (r@, final(env)@) == rest_ty(input@, strings_view(used@), old(env)@),
{
    match input {
        Ty::Struct(sf) => {
            let rem = rest_in(sf, used);
            proof {
                lemma_fields_view(rem@);
            }
            if rem.len() == 0 {
                Ty::Unit
            } else {
                Ty::Struct(rem)
            }
        },
        Ty::Unit => Ty::Unit,
        _ => env.fresh_infer(),
    }
}

/// Binds the fields of a destructuring pattern; the number of bindings.
fn bind_fields_in(fs: &Vec<PatField>, input: &Ty, by_name: bool, env: &mut TyEnv) -> (k: usize)
    ensures
        (k as nat, final(env)@) == bind_pat_fields(pat_fields_view(fs@), 0, input@, by_name, 0, 0, seq![], old(env)@),
{
    let ghost pv = pat_fields_view(fs@);
    proof {
        lemma_pat_fields_view(fs@);
        assert(strings_view(Seq::<String>::empty()) =~= seq![]);
    }
    let mut k: usize = 0;
    let mut pos: u64 = 0;
    let mut used: Vec<String> = Vec::new();
    let mut i: usize = 0;
    while i < fs.len()
        invariant
            i <= fs.len(),
            k <= i,
            pos <= i,
            pv == pat_fields_view(fs@),
            pv.len() == fs.len(),
            forall|j: int| 0 <= j < fs.len() ==> #[trigger] pv[j] == (PatFieldV { label: opt_str(fs@[j].label), binding: fs@[j].binding@, is_rest: fs@[j].is_rest }),
            bind_pat_fields(pv, 0, input@, by_name, 0, 0, seq![], old(env)@) == bind_pat_fields(
                pv,
                i as nat,
                input@,
                by_name,
                k as nat,
                pos as nat,
                strings_view(used@),
                env@,
            ),
        decreases fs.len() - i,
    {
        let f = &fs[i];
        let disc = is_underscore(&f.binding);
        if disc && !f.is_rest {
            if f.label.is_none() && !by_name {
                let key = u64_decimal(pos);
                proof {
                    assert(strings_view(used@.push(key)) =~= strings_view(used@).push(key@));
                }
                used.push(key);
                pos = pos + 1;
            }
        } else if f.is_rest {
            if !disc && !is_empty_text(&f.binding) {
                let rt = rest_ty_in(input, &used, env);
                env.bind(f.binding.clone(), rt);
                k = k + 1;
            }
        } else {
            match input {
                Ty::Struct(sf) => {
                    let key = match &f.label {
                        Some(l) => l.clone(),
                        None => if by_name {
                            f.binding.clone()
                        } else {
                            let s = u64_decimal(pos);
                            pos = pos + 1;
                            s
                        },
                    };
                    let ft = match field_index(sf, &key) {
                        Some(j) => copy_ty(&sf[j].1),
                        None => env.fresh_infer(),
                    };
                    proof {
                        assert(strings_view(used@.push(key)) =~= strings_view(used@).push(key@));
                    }
                    used.push(key);
                    env.bind(f.binding.clone(), ft);
                    k = k + 1;
                },
                _ => {
                    if f.label.is_none() && !by_name {
                        pos = pos + 1;
                    }
                    let ft = env.fresh_infer();
                    env.bind(f.binding.clone(), ft);
                    k = k + 1;
                },
            }
        }
        i = i + 1;
    }
    k
}

fn array_pat_tys_in(input: &Ty, env: &mut TyEnv) -> (r: (Ty, Ty))
    ensures
        (r.0@, r.1@, final(env)@) == array_pat_tys(input@, old(env)@),
{
    match input {
        Ty::Array(elem) => (copy_ty(elem), Ty::Array(Box::new(copy_ty(elem)))),
        Ty::String => (Ty::String, Ty::String),
        _ => {
            let t = env.fresh_infer();
            (copy_ty(&t), Ty::Array(Box::new(t)))
        },
    }
}

fn bind_array_pats_in(ps: &Vec<ArrayPat>, elem: &Ty, rest: &Ty, env: &mut TyEnv) -> (k: usize)
    ensures
        (k as nat, final(env)@) == bind_array_pats(array_pats_view(ps@), 0, elem@, rest@, 0, old(env)@),
{
    let ghost av = array_pats_view(ps@);
    proof {
        lemma_array_pats_view(ps@);
    }
    let mut k: usize = 0;
    let mut i: usize = 0;
    while i < ps.len()
        invariant
            i <= ps.len(),
            k <= i,
            av == array_pats_view(ps@),
            av.len() == ps.len(),
            forall|j: int| 0 <= j < ps.len() ==> #[trigger] av[j] == array_pat_view(ps@[j]),
            bind_array_pats(av, 0, elem@, rest@, 0, old(env)@) == bind_array_pats(av, i as nat, elem@, rest@, k as nat, env@),
        decreases ps.len() - i,
    {
        match &ps[i] {
            ArrayPat::Name(n) => {
                env.bind(n.clone(), copy_ty(elem));
                k = k + 1;
            },
            ArrayPat::Rest(Some(n)) => {
                env.bind(n.clone(), copy_ty(rest));
                k = k + 1;
            },
            _ => {},
        }
        i = i + 1;
    }
    k
}

// ── Prelude of a piped module ──

fn bind_sets_in(t: &Ty, c0: usize, env: &mut TyEnv) -> (c: usize)
    requires
        c0 <= old(env).bindings.len(),
    ensures
        (c as nat, final(env)@) == bind_prelude_sets(struct_fields_of(t@), 0, c0 as nat, old(env)@),
        c <= final(env).bindings.len(),
{
    match t {
        Ty::Struct(fs) => {
            let ghost sv = fields_view(fs@);
            proof {
                lemma_fields_view(fs@);
            }
            let mut c = c0;
            let mut i: usize = 0;
            while i < fs.len()
                invariant
                    i <= fs.len(),
                    c <= env.bindings.len(),
                    sv == fields_view(fs@),
                    sv.len() == fs.len(),
                    forall|j: int| 0 <= j < fs.len() ==> #[trigger] sv[j] == (fs@[j].0@, fs@[j].1@),
                    bind_prelude_sets(sv, 0, c0 as nat, old(env)@) == bind_prelude_sets(sv, i as nat, c as nat, env@),
                decreases fs.len() - i,
            {
                if let Ty::MethodSet { .. } = &fs[i].1 {
                    let ghost bv = env.bindings@;
                    env.bind(ms_string(), copy_ty(&fs[i].1));
                    proof {
                        lemma_fields_view(env.bindings@);
                        lemma_fields_view(bv);
                    }
                    let n = env.bindings.len();
                    assert(c < n);
                    c = c + 1;
                }
                i = i + 1;
            }
            c
        },
        _ => c0,
    }
}


fn bind_prelude_in(lt: &Ty, env: &mut TyEnv) -> (c: usize)
    ensures
        (c as nat, final(env)@) == bind_prelude(struct_fields_of(lt@), 0, 0, old(env)@),
{
    match lt {
        Ty::Struct(fs) => {
            let ghost sv = fields_view(fs@);
            proof {
                lemma_fields_view(fs@);
            }
            let prelude = text("prelude");
            let mut c: usize = 0;
            let mut i: usize = 0;
            while i < fs.len()
                invariant
                    i <= fs.len(),
                    c <= env.bindings.len(),
                    prelude@ == "prelude"@,
                    sv == fields_view(fs@),
                    sv.len() == fs.len(),
                    forall|j: int| 0 <= j < fs.len() ==> #[trigger] sv[j] == (fs@[j].0@, fs@[j].1@),
                    bind_prelude(sv, 0, 0, old(env)@) == bind_prelude(sv, i as nat, c as nat, env@),
                decreases fs.len() - i,
            {
                if fs[i].0 == prelude {
                    c = bind_sets_in(&fs[i].1, c, env);
                }
                i = i + 1;
            }
            c
        },
        _ => 0,
    }
}

// ── Method calls ──

/// The callback positions of a method's parameter fields.
fn callbacks_in(pfs: &Vec<(String, Ty)>, subst: &HashMap<u64, Ty>) -> (r: Vec<(String, Ty)>)
    ensures
        fields_view(r@) == callbacks_from(fields_view(pfs@), 0, map_view(subst@), seq![]),
{
    let ghost pv = fields_view(pfs@);
    proof {
        lemma_fields_view(pfs@);
        assert(fields_view(Seq::<(String, Ty)>::empty()) =~= seq![]);
    }
    let zero = text("0");
    let mut out: Vec<(String, Ty)> = Vec::new();
    let mut i: usize = 0;
    while i < pfs.len()
        invariant
            i <= pfs.len(),
            zero@ == "0"@,
            pv == fields_view(pfs@),
            pv.len() == pfs.len(),
            forall|j: int| 0 <= j < pfs.len() ==> #[trigger] pv[j] == (pfs@[j].0@, pfs@[j].1@),
            callbacks_from(pv, 0, map_view(subst@), seq![]) == callbacks_from(pv, i as nat, map_view(subst@), fields_view(out@)),
        decreases pfs.len() - i,
    {
        if pfs[i].0 != zero {
            let rt = substitute_generics(&pfs[i].1, subst);
            if let Ty::Fn { .. } = &rt {
                let label = pfs[i].0.clone();
                proof {
                    lemma_fields_view_push(out@, (label, rt));
                }
                out.push((label, rt));
            }
        }
        i = i + 1;
    }
    out
}

fn is_comparison_in(m: &String) -> (r: bool)
    ensures
        r == crate::checker::is_comparison_method(m@),
{
    *m == text("eq") || *m == text("not_eq") || *m == text("lt") || *m == text("gt") || *m == text("lt_eq")
        || *m == text("gt_eq")
}

fn field_access_in(t: Ty, field: &String) -> (r: Result<Ty, String>)
    ensures
        crate::types::result_view(r) == crate::checker::field_access_ty(t@, field@),
{
    match t {
        Ty::Struct(fs) => match field_index(&fs, field) {
            Some(j) => Ok(copy_ty(&fs[j].1)),
            None => Err(msg3("type error: field '", field.as_str(), "' not found in struct")),
        },
        Ty::Infer(_) => Err(msg3("type error: field access '", field.as_str(), "' on value of unknown type")),
        _ => Err(text("type error: field access on non-struct value")),
    }
}


// ── The checker ──

pub open spec fn fields_result(r: Result<Vec<(String, Ty)>, String>) -> Result<Seq<(Seq<char>, TyV)>, Seq<char>> {
    match r {
        Ok(v) => Ok(fields_view(v@)),
        Err(e) => Err(e@),
    }
}

pub open spec fn opt_result(r: Result<Option<Ty>, String>) -> Result<Option<TyV>, Seq<char>> {
    match r {
        Ok(o) => Ok(opt_ty(o)),
        Err(e) => Err(e@),
    }
}

fn new_subst() -> (r: HashMap<u64, Ty>)
    ensures
        map_view(r@) == Map::<u64, TyV>::empty(),
{
    let r = HashMap::new();
    assert(map_view(r@) =~= Map::<u64, TyV>::empty());
    r
}

fn check_in(m: &MirKind, env: &mut TyEnv, Ghost(fuel): Ghost<nat>) -> (r: Result<Ty, String>)
    requires
        check_fuel(m@, old(env)@, fuel) is Some,
    ensures
        check_fuel(m@, old(env)@, fuel) == Some((result_view(r), final(env)@)),
    decreases fuel,
{
    let ghost f = (fuel - 1) as nat;
    match m {
        MirKind::Int(_) => Ok(Ty::IntLiteral),
        MirKind::Float(_) => Ok(Ty::FloatLiteral),
        MirKind::Bool(_) => Ok(Ty::Bool),
        MirKind::Str(_) => Ok(Ty::String),
        MirKind::Char(_) => Ok(Ty::Char),
        MirKind::Byte(_) => Ok(Ty::Byte),
        MirKind::Unit => Ok(Ty::Unit),
        MirKind::Ident(name) => match env.get(name) {
            Some(t) => Ok(t),
            None => Err(concat("type error: undefined variable: ", name.as_str())),
        },
        MirKind::Import(name) => match env.module(name) {
            Some(t) => Ok(t),
            None => Err(concat("type error: module not provided: ", name.as_str())),
        },
        MirKind::FieldAccess(x, field) => {
            let t = match check_in(x, env, Ghost(f)) {
                Ok(t) => t,
                Err(e) => return Err(e),
            };
            field_access_in(t, field)
        },
        MirKind::Struct(fs) => {
            proof {
                assert(fields_view(Seq::<(String, Ty)>::empty()) =~= seq![]);
            }
            match check_struct_fields(fs, 0, Vec::new(), 0, false, env, Ghost(f)) {
                Ok(tfs) => Ok(Ty::Struct(tfs)),
                Err(e) => Err(e),
            }
        },
        MirKind::Bind { name, value, body } => {
            env.note_body(name, value);
            let vt = match check_in(value, env, Ghost(f)) {
                Ok(t) => t,
                Err(e) => return Err(e),
            };
            env.bind(name.clone(), default_literals(vt));
            let bt = match check_in(body, env, Ghost(f)) {
                Ok(t) => t,
                Err(e) => return Err(e),
            };
            env.pop_binding();
            Ok(bt)
        },
        MirKind::Pipe(l, r) => check_pipe(l, r, env, Ghost(f)),
        MirKind::Let { pattern, body } => {
            let input = env.fresh_infer();
            let_in(pattern, body, &input, env, Ghost(f))
        },
        MirKind::LetArray { patterns, body } => {
            let input = env.fresh_infer();
            check_let_array(patterns, body, &input, env, Ghost(f))
        },
        MirKind::Call(func, arg) => check_call(func, arg, env, Ghost(f)),
        MirKind::Apply { expr, body } => apply_in(expr, body, env, Ghost(f)),
        MirKind::NewTag(id, _) => Ok(Ty::TagConstructor(*id)),
        MirKind::Block(body) => {
            let p = env.fresh_infer();
            env.bind(in_string(), copy_ty(&p));
            let bt = match check_in(body, env, Ghost(f)) {
                Ok(t) => t,
                Err(e) => return Err(e),
            };
            env.pop_binding();
            Ok(Ty::Fn { param: Box::new(p), ret: Box::new(bt) })
        },
        MirKind::BranchBlock(arms) => {
            let input = env.fresh_infer();
            env.bind(in_string(), copy_ty(&input));
            let res = match check_arms(arms.as_slice(), 0, None, &input, env, Ghost(f)) {
                Ok(r) => r,
                Err(e) => return Err(e),
            };
            env.pop_binding();
            let rt = match res {
                Some(t) => t,
                None => env.fresh_infer(),
            };
            Ok(Ty::Fn { param: Box::new(input), ret: Box::new(rt) })
        },
        MirKind::Array(es) => {
            let res = match check_elems(es, 0, None, env, Ghost(f)) {
                Ok(r) => r,
                Err(e) => return Err(e),
            };
            let t = match res {
                Some(t) => t,
                None => env.fresh_infer(),
            };
            Ok(Ty::Array(Box::new(t)))
        },
        MirKind::MethodCall { receiver, method, arg } => check_method_call(receiver, method, arg, env, Ghost(f)),
    }
}

fn check_struct_fields(
    fs: &Vec<MirField>,
    i: usize,
    acc: Vec<(String, Ty)>,
    pos: u64,
    defer: bool,
    env: &mut TyEnv,
    Ghost(fuel): Ghost<nat>,
) -> (r: Result<Vec<(String, Ty)>, String>)
    requires
        i <= fs.len(),
        pos <= acc.len(),
        struct_fuel(mir_fields_view(fs@), i as nat, fields_view(acc@), pos as nat, defer, old(env)@, fuel) is Some,
    ensures
        struct_fuel(mir_fields_view(fs@), i as nat, fields_view(acc@), pos as nat, defer, old(env)@, fuel) == Some(
            (fields_result(r), final(env)@),
        ),
    decreases fuel,
{
    proof {
        lemma_mir_fields_view(fs@);
    }
    if i >= fs.len() {
        return Ok(acc);
    }
    let ghost f = (fuel - 1) as nat;
    let r = if defer {
        check_arg_defer_blocks(&fs[i].value, env, Ghost(f))
    } else {
        check_in(&fs[i].value, env, Ghost(f))
    };
    let t = match r {
        Ok(t) => t,
        Err(e) => return Err(e),
    };
    let mut acc = acc;
    let pos2 = add_field_in(&mut acc, pos, &fs[i], t);
    check_struct_fields(fs, i + 1, acc, pos2, defer, env, Ghost(f))
}

fn check_elems(es: &Vec<Mir>, i: usize, acc: Option<Ty>, env: &mut TyEnv, Ghost(fuel): Ghost<nat>) -> (r: Result<Option<Ty>, String>)
    requires
        i <= es.len(),
        elems_fuel(crate::mir::mirs_view(es@), i as nat, opt_ty(acc), old(env)@, fuel) is Some,
    ensures
        elems_fuel(crate::mir::mirs_view(es@), i as nat, opt_ty(acc), old(env)@, fuel) == Some((opt_result(r), final(env)@)),
    decreases fuel,
{
    proof {
        crate::mir::lemma_mirs_view(es@);
    }
    if i >= es.len() {
        return Ok(acc);
    }
    let ghost f = (fuel - 1) as nat;
    let t = match check_in(&es[i], env, Ghost(f)) {
        Ok(t) => t,
        Err(e) => return Err(e),
    };
    let next = match acc {
        None => t,
        Some(prev) => match unify(&prev, &t) {
            Ok(u) => u,
            Err(e) => return Err(e),
        },
    };
    check_elems(es, i + 1, Some(next), env, Ghost(f))
}

fn check_arms(
    arms: &[MirBranchArm],
    i: usize,
    acc: Option<Ty>,
    input: &Ty,
    env: &mut TyEnv,
    Ghost(fuel): Ghost<nat>,
) -> (r: Result<Option<Ty>, String>)
    requires
        i <= arms.len(),
        arms_fuel(mir_arms_view(arms@), i as nat, opt_ty(acc), input@, old(env)@, fuel) is Some,
    ensures
        arms_fuel(mir_arms_view(arms@), i as nat, opt_ty(acc), input@, old(env)@, fuel) == Some(
            (opt_result(r), final(env)@),
        ),
    decreases fuel,
{
    proof {
        lemma_mir_arms_view(arms@);
    }
    if i >= arms.len() {
        return Ok(acc);
    }
    let ghost f = (fuel - 1) as nat;
    let arm = &arms[i];
    let k = match bind_branch_pattern_in(&arm.pattern, input, env) {
        Ok(k) => k,
        Err(e) => return Err(e),
    };
    match &arm.guard {
        Some(g) => match check_in(g, env, Ghost(f)) {
            Ok(_) => {},
            Err(e) => return Err(e),
        },
        None => {},
    }
    let t = match check_in(&arm.body, env, Ghost(f)) {
        Ok(t) => t,
        Err(e) => return Err(e),
    };
    env.pop_n(k);
    let next = match acc {
        None => t,
        Some(prev) => match unify(&prev, &t) {
            Ok(u) => u,
            Err(e) => return Err(e),
        },
    };
    check_arms(arms, i + 1, Some(next), input, env, Ghost(f))
}

fn branch_precheck_in(arms: &[MirBranchArm], input: &Ty, env: &TyEnv) -> (r: Option<String>)
    ensures
        match r {
            Some(m) => branch_precheck(mir_arms_view(arms@), input@, env@) == Some(m@),
            None => branch_precheck(mir_arms_view(arms@), input@, env@) is None,
        },
{
    proof {
        lemma_mir_arms_view(arms@);
    }
    let is_infer = match input {
        Ty::Infer(_) => true,
        _ => false,
    };
    if !is_infer {
        match first_undefined_tag_in(arms, env) {
            Some(name) => return Some(msg3("type error: undefined tag '", name.as_str(), "' in branch pattern")),
            None => {},
        }
        if !any_can_match_in(arms, input, env) {
            let n = first_tag_name_in(arms);
            return Some(
                msg3("type error: non-exhaustive branch — no arm matches input type (first tag: '", n.as_str(), "')"),
            );
        }
    }
    None
}

fn branch_input_in(arms: &[MirBranchArm], input: &Ty, env: &mut TyEnv, Ghost(fuel): Ghost<nat>) -> (r: Result<Ty, String>)
    requires
        branch_input_fuel(mir_arms_view(arms@), input@, old(env)@, fuel) is Some,
    ensures
        branch_input_fuel(mir_arms_view(arms@), input@, old(env)@, fuel) == Some((result_view(r), final(env)@)),
    decreases fuel,
{
    let ghost f = (fuel - 1) as nat;
    match branch_precheck_in(arms, input, env) {
        Some(m) => return Err(m),
        None => {},
    }
    env.bind(in_string(), copy_ty(input));
    let res = match check_arms(arms, 0, None, input, env, Ghost(f)) {
        Ok(r) => r,
        Err(e) => return Err(e),
    };
    env.pop_binding();
    match res {
        Some(t) => Ok(t),
        None => Ok(env.fresh_infer()),
    }
}

fn apply_in(x: &MirKind, body: &MirKind, env: &mut TyEnv, Ghost(fuel): Ghost<nat>) -> (r: Result<Ty, String>)
    requires
        apply_fuel(x@, body@, old(env)@, fuel) is Some,
    ensures
        apply_fuel(x@, body@, old(env)@, fuel) == Some((result_view(r), final(env)@)),
    decreases fuel,
{
    let ghost f = (fuel - 1) as nat;
    let t = match check_in(x, env, Ghost(f)) {
        Ok(t) => t,
        Err(e) => return Err(e),
    };
    if let Ty::MethodSet { .. } = &t {
        env.bind(ms_string(), t);
        let r = check_in(body, env, Ghost(f));
        env.pop_binding();
        r
    } else {
        Err(text("type error: apply expects a method set"))
    }
}

fn let_in(pat: &Pattern, body: &MirKind, input: &Ty, env: &mut TyEnv, Ghost(fuel): Ghost<nat>) -> (r: Result<Ty, String>)
    requires
        let_fuel(pattern_view(*pat), body@, input@, old(env)@, fuel) is Some,
    ensures
        let_fuel(pattern_view(*pat), body@, input@, old(env)@, fuel) == Some((result_view(r), final(env)@)),
    decreases fuel,
{
    let ghost f = (fuel - 1) as nat;
    match pat {
        Pattern::Name(n) => {
            env.bind(n.clone(), copy_ty(input));
            let t = match check_in(body, env, Ghost(f)) {
                Ok(t) => t,
                Err(e) => return Err(e),
            };
            env.pop_binding();
            Ok(t)
        },
        Pattern::Discard => check_in(body, env, Ghost(f)),
        Pattern::Fields(fs) => {
            let empty: Vec<(String, Ty)> = Vec::new();
            proof {
                assert(fields_view(empty@) =~= seq![]);
            }
            let sf = match input {
                Ty::Struct(sf) => sf,
                _ => &empty,
            };
            let by_name = binds_by_name_in(fs, sf, input);
            let k = bind_fields_in(fs, input, by_name, env);
            let t = match check_in(body, env, Ghost(f)) {
                Ok(t) => t,
                Err(e) => return Err(e),
            };
            env.pop_n(k);
            Ok(t)
        },
    }
}

fn check_let_array(pats: &Vec<ArrayPat>, body: &MirKind, input: &Ty, env: &mut TyEnv, Ghost(fuel): Ghost<nat>) -> (r: Result<Ty, String>)
    requires
        let_array_fuel(array_pats_view(pats@), body@, input@, old(env)@, fuel) is Some,
    ensures
        let_array_fuel(array_pats_view(pats@), body@, input@, old(env)@, fuel) == Some((result_view(r), final(env)@)),
    decreases fuel,
{
    let ghost f = (fuel - 1) as nat;
    let (elem, rest) = array_pat_tys_in(input, env);
    let k = bind_array_pats_in(pats, &elem, &rest, env);
    let t = match check_in(body, env, Ghost(f)) {
        Ok(t) => t,
        Err(e) => return Err(e),
    };
    env.pop_n(k);
    Ok(t)
}

fn check_pipe(l: &MirKind, r: &MirKind, env: &mut TyEnv, Ghost(fuel): Ghost<nat>) -> (res: Result<Ty, String>)
    requires
        pipe_fuel(l@, r@, old(env)@, fuel) is Some,
    ensures
        pipe_fuel(l@, r@, old(env)@, fuel) == Some((result_view(res), final(env)@)),
    decreases fuel,
{
    let ghost f = (fuel - 1) as nat;
    if let MirKind::Let { pattern: Pattern::Name(n), .. } = r {
        env.note_body(n, l);
    }
    let lt0 = match check_in(l, env, Ghost(f)) {
        Ok(t) => t,
        Err(e) => return Err(e),
    };
    let lt = default_literals(lt0);
    match r {
        MirKind::Let { pattern, body } => {
            let c = bind_prelude_in(&lt, env);
            env.bind(passthrough_string(), copy_ty(&lt));
            let res = let_in(pattern, body, &lt, env, Ghost(f));
            env.pop_binding();
            env.pop_n(c);
            res
        },
        MirKind::LetArray { patterns, body } => {
            env.bind(passthrough_string(), copy_ty(&lt));
            let res = check_let_array(patterns, body, &lt, env, Ghost(f));
            env.pop_binding();
            res
        },
        MirKind::Apply { expr, body } => apply_in(expr, body, env, Ghost(f)),
        _ => {
            proof {
                assert(false);
            }
            Err(String::new())
        },
    }
}

fn check_call(func: &MirKind, arg: &MirKind, env: &mut TyEnv, Ghost(fuel): Ghost<nat>) -> (r: Result<Ty, String>)
    requires
        call_fuel(func@, arg@, old(env)@, fuel) is Some,
    ensures
        call_fuel(func@, arg@, old(env)@, fuel) == Some((result_view(r), final(env)@)),
    decreases fuel,
{
    let ghost f = (fuel - 1) as nat;
    match func {
        MirKind::Block(body) => {
            let at = match check_in(arg, env, Ghost(f)) {
                Ok(t) => t,
                Err(e) => return Err(e),
            };
            env.bind(in_string(), at);
            let bt = match check_in(body, env, Ghost(f)) {
                Ok(t) => t,
                Err(e) => return Err(e),
            };
            env.pop_binding();
            Ok(bt)
        },
        MirKind::BranchBlock(arms) => {
            let at = match check_in(arg, env, Ghost(f)) {
                Ok(t) => t,
                Err(e) => return Err(e),
            };
            branch_input_in(arms.as_slice(), &at, env, Ghost(f))
        },
        _ => {
            let stored = match func {
                MirKind::Ident(n) => env.stored_body(n),
                _ => None,
            };
            match stored {
                Some(sb) => {
                    let at = match check_in(arg, env, Ghost(f)) {
                        Ok(t) => t,
                        Err(e) => return Err(e),
                    };
                    match &*sb {
                        MirKind::Block(body) => {
                            env.bind(in_string(), at);
                            let bt = match check_in(body, env, Ghost(f)) {
                                Ok(t) => t,
                                Err(e) => return Err(e),
                            };
                            env.pop_binding();
                            Ok(bt)
                        },
                        MirKind::BranchBlock(arms) => branch_input_in(arms.as_slice(), &at, env, Ghost(f)),
                        _ => {
                            proof {
                                assert(false);
                            }
                            Err(String::new())
                        },
                    }
                },
                None => {
                    let ft = match check_in(func, env, Ghost(f)) {
                        Ok(t) => t,
                        Err(e) => return Err(e),
                    };
                    let at = match check_in(arg, env, Ghost(f)) {
                        Ok(t) => t,
                        Err(e) => return Err(e),
                    };
                    match ft {
                        Ty::Fn { param, ret } => {
                            let mut subst = new_subst();
                            match unify_with_generics(&at, &param, &mut subst) {
                                Ok(_) => Ok(substitute_generics(&ret, &subst)),
                                Err(e) => Err(e),
                            }
                        },
                        Ty::TagConstructor(id) => Ok(Ty::Tagged { tag_id: id, payload: Box::new(at) }),
                        Ty::MethodSetConstructor => check_method_set_call(arg, env, Ghost(f)),
                        Ty::Infer(_) => Ok(env.fresh_infer()),
                        _ => Err(text("type error: cannot call non-function")),
                    }
                },
            }
        },
    }
}

fn check_method_set_call(arg: &MirKind, env: &mut TyEnv, Ghost(fuel): Ghost<nat>) -> (r: Result<Ty, String>)
    requires
        method_set_fuel(arg@, old(env)@, fuel) is Some,
    ensures
        method_set_fuel(arg@, old(env)@, fuel) == Some((result_view(r), final(env)@)),
    decreases fuel,
{
    let ghost f = (fuel - 1) as nat;
    let at = match check_in(arg, env, Ghost(f)) {
        Ok(t) => t,
        Err(e) => return Err(e),
    };
    match &at {
        Ty::Struct(fs) => {
            proof {
                lemma_fields_view(fs@);
            }
            if fs.len() == 2 {
                match &fs[0].1 {
                    Ty::TagConstructor(tag_id) => {
                        let tag_id = *tag_id;
                        if let Ty::Struct(_) = &fs[1].1 {
                            let id = env.fresh_method_set_id();
                            env.register_method_set(id, tag_id, copy_ty(&fs[1].1));
                            Ok(Ty::MethodSet { id, tag_id })
                        } else {
                            Err(text("type error: method_set second argument must be a struct of functions"))
                        }
                    },
                    _ => Err(text("type error: method_set first argument must be a type constructor")),
                }
            } else {
                Err(text("type error: method_set expects (constructor, struct_of_functions)"))
            }
        },
        _ => Err(text("type error: method_set expects (constructor, struct_of_functions)")),
    }
}

fn check_arg_defer_blocks(arg: &MirKind, env: &mut TyEnv, Ghost(fuel): Ghost<nat>) -> (r: Result<Ty, String>)
    requires
        defer_fuel(arg@, old(env)@, fuel) is Some,
    ensures
        defer_fuel(arg@, old(env)@, fuel) == Some((result_view(r), final(env)@)),
    decreases fuel,
{
    let ghost f = (fuel - 1) as nat;
    match arg {
        MirKind::Block(_) | MirKind::BranchBlock(_) => {
            let p = env.fresh_infer();
            let r = env.fresh_infer();
            Ok(Ty::Fn { param: Box::new(p), ret: Box::new(r) })
        },
        MirKind::Struct(fs) => {
            proof {
                assert(fields_view(Seq::<(String, Ty)>::empty()) =~= seq![]);
            }
            match check_struct_fields(fs, 0, Vec::new(), 0, true, env, Ghost(f)) {
                Ok(tfs) => Ok(Ty::Struct(tfs)),
                Err(e) => Err(e),
            }
        },
        _ => check_in(arg, env, Ghost(f)),
    }
}

fn recheck_single_callback(m: &MirKind, expected: &Ty, env: &mut TyEnv, Ghost(fuel): Ghost<nat>) -> (r: Result<Option<Ty>, String>)
    requires
        single_fuel(m@, expected@, old(env)@, fuel) is Some,
    ensures
        single_fuel(m@, expected@, old(env)@, fuel) == Some((opt_result(r), final(env)@)),
    decreases fuel,
{
    let ghost f = (fuel - 1) as nat;
    match m {
        MirKind::Block(body) => {
            env.bind(in_string(), copy_ty(expected));
            let bt = match check_in(body, env, Ghost(f)) {
                Ok(t) => t,
                Err(e) => return Err(e),
            };
            env.pop_binding();
            Ok(Some(Ty::Fn { param: Box::new(copy_ty(expected)), ret: Box::new(bt) }))
        },
        MirKind::BranchBlock(arms) => {
            let t = match branch_input_in(arms.as_slice(), expected, env, Ghost(f)) {
                Ok(t) => t,
                Err(e) => return Err(e),
            };
            Ok(Some(Ty::Fn { param: Box::new(copy_ty(expected)), ret: Box::new(t) }))
        },
        _ => Ok(None),
    }
}

fn recheck_callback_fields(
    fs: &Vec<MirField>,
    i: usize,
    cbs: &Vec<(String, Ty)>,
    pos: u64,
    any: bool,
    refined: Vec<(String, Ty)>,
    env: &mut TyEnv,
    Ghost(fuel): Ghost<nat>,
) -> (r: Result<Option<Ty>, String>)
    requires
        i <= fs.len(),
        pos <= i,
        recheck_fields_fuel(mir_fields_view(fs@), i as nat, fields_view(cbs@), pos as nat, any, fields_view(refined@), old(env)@, fuel) is Some,
    ensures
        recheck_fields_fuel(mir_fields_view(fs@), i as nat, fields_view(cbs@), pos as nat, any, fields_view(refined@), old(env)@, fuel)
            == Some((opt_result(r), final(env)@)),
    decreases fuel,
{
    proof {
        lemma_mir_fields_view(fs@);
    }
    if i >= fs.len() {
        return Ok(if any { Some(Ty::Struct(refined)) } else { None });
    }
    let ghost f = (fuel - 1) as nat;
    let fld = &fs[i];
    let (label, pos2) = match &fld.label {
        Some(l) => (l.clone(), pos),
        None => (u64_decimal(pos), pos + 1),
    };
    let param_label = match parse_u64(label.as_str()) {
        Some(n) => {
            assert(n < u64::MAX);
            u64_decimal(n + 1)
        },
        None => label.clone(),
    };
    let tried = match field_index(cbs, &param_label) {
        Some(j) => match &cbs[j].1 {
            Ty::Fn { param, .. } => match recheck_single_callback(&fld.value, param, env, Ghost(f)) {
                Ok(o) => o,
                Err(e) => return Err(e),
            },
            _ => None,
        },
        None => None,
    };
    let mut refined = refined;
    match tried {
        Some(rt) => {
            proof {
                lemma_fields_view_push(refined@, (label, rt));
            }
            refined.push((label, rt));
            recheck_callback_fields(fs, i + 1, cbs, pos2, true, refined, env, Ghost(f))
        },
        None => {
            let t = match check_in(&fld.value, env, Ghost(f)) {
                Ok(t) => t,
                Err(e) => return Err(e),
            };
            proof {
                lemma_fields_view_push(refined@, (label, t));
            }
            refined.push((label, t));
            recheck_callback_fields(fs, i + 1, cbs, pos2, any, refined, env, Ghost(f))
        },
    }
}

fn recheck_callback_args(arg: &MirKind, param: &Ty, subst: &HashMap<u64, Ty>, env: &mut TyEnv, Ghost(fuel): Ghost<nat>) -> (r: Result<Option<Ty>, String>)
    requires
        recheck_fuel(arg@, param@, map_view(subst@), old(env)@, fuel) is Some,
    ensures
        recheck_fuel(arg@, param@, map_view(subst@), old(env)@, fuel) == Some((opt_result(r), final(env)@)),
    decreases fuel,
{
    let ghost f = (fuel - 1) as nat;
    match param {
        Ty::Struct(pfs) => {
            let cbs = callbacks_in(pfs, subst);
            proof {
                lemma_fields_view(cbs@);
            }
            if cbs.len() == 0 {
                return Ok(None);
            }
            match arg {
                MirKind::Struct(fs) => {
                    proof {
                        assert(fields_view(Seq::<(String, Ty)>::empty()) =~= seq![]);
                    }
                    recheck_callback_fields(fs, 0, &cbs, 0, false, Vec::new(), env, Ghost(f))
                },
                _ => {
                    let one = text("1");
                    match field_index(&cbs, &one) {
                        Some(j) => match &cbs[j].1 {
                            Ty::Fn { param: cbp, .. } => recheck_single_callback(arg, cbp, env, Ghost(f)),
                            _ => Ok(None),
                        },
                        None => Ok(None),
                    }
                },
            }
        },
        _ => Ok(None),
    }
}

fn method_error(method: &String, e: String) -> (r: String)
    ensures
        r@ == crate::checker::method_error_msg(method@, e@),
{
    let a = msg3("type error in .", method.as_str(), "(): ");
    concat(a.as_str(), e.as_str())
}

fn check_set_method_call(
    recv_t: &Ty,
    method: &String,
    p: &Ty,
    ret: &Ty,
    arg: &MirKind,
    env: &mut TyEnv,
    Ghost(fuel): Ghost<nat>,
) -> (r: Result<Ty, String>)
    requires
        set_method_fuel(recv_t@, method@, p@, ret@, arg@, old(env)@, fuel) is Some,
    ensures
        set_method_fuel(recv_t@, method@, p@, ret@, arg@, old(env)@, fuel) == Some((result_view(r), final(env)@)),
    decreases fuel,
{
    let ghost f = (fuel - 1) as nat;
    let at = match check_arg_defer_blocks(arg, env, Ghost(f)) {
        Ok(t) => t,
        Err(e) => return Err(e),
    };
    let ap = prepend_arg_ty(recv_t, &at);
    let mut subst = new_subst();
    match unify_with_generics(&ap, p, &mut subst) {
        Ok(_) => {},
        Err(e) => return Err(method_error(method, e)),
    }
    let refined = match recheck_callback_args(arg, p, &subst, env, Ghost(f)) {
        Ok(o) => o,
        Err(e) => return Err(e),
    };
    match refined {
        None => Ok(substitute_generics(ret, &subst)),
        Some(rat) => {
            let ap2 = prepend_arg_ty(recv_t, &rat);
            let mut s2 = new_subst();
            match unify_with_generics(&ap2, p, &mut s2) {
                Ok(_) => Ok(substitute_generics(ret, &s2)),
                Err(e) => Err(method_error(method, e)),
            }
        },
    }
}

fn check_method_call(recv: &MirKind, method: &String, arg: &MirKind, env: &mut TyEnv, Ghost(fuel): Ghost<nat>) -> (r: Result<Ty, String>)
    requires
        method_call_fuel(recv@, method@, arg@, old(env)@, fuel) is Some,
    ensures
        method_call_fuel(recv@, method@, arg@, old(env)@, fuel) == Some((result_view(r), final(env)@)),
    decreases fuel,
{
    let ghost f = (fuel - 1) as nat;
    let rt = match check_in(recv, env, Ghost(f)) {
        Ok(t) => t,
        Err(e) => return Err(e),
    };
    let field_ty = match &rt {
        Ty::Struct(fs) => match field_index(fs, method) {
            Some(j) => Some(copy_ty(&fs[j].1)),
            None => None,
        },
        _ => None,
    };
    match field_ty {
        Some(ft) => {
            if let Ty::MethodSetConstructor = &ft {
                return check_method_set_call(arg, env, Ghost(f));
            }
            let at = match check_in(arg, env, Ghost(f)) {
                Ok(t) => t,
                Err(e) => return Err(e),
            };
            match ft {
                Ty::Fn { param, ret } => match unify(&at, &param) {
                    Ok(_) => Ok(*ret),
                    Err(e) => Err(e),
                },
                Ty::Infer(_) => Ok(env.fresh_infer()),
                _ => Err(msg3("type error: cannot call non-function field '", method.as_str(), "'")),
            }
        },
        None => {
            let found = match ty_to_tag_id(&rt) {
                Some(tag_id) => env.find_method_type(tag_id, method),
                None => None,
            };
            match found {
                Some(mt) => match mt {
                    Ty::Fn { param, ret } => check_set_method_call(&rt, method, &param, &ret, arg, env, Ghost(f)),
                    _ => Err(msg3("type error: method '", method.as_str(), "' is not a function")),
                },
                None => {
                    match check_in(arg, env, Ghost(f)) {
                        Ok(_) => {},
                        Err(e) => return Err(e),
                    }
                    if let Ty::Infer(_) = &rt {
                        Ok(env.fresh_infer())
                    } else if is_comparison_in(method) {
                        Ok(Ty::Bool)
                    } else {
                        let a = msg3("type error: no method '", method.as_str(), "' on type ");
                        let d = ty_debug(&rt);
                        Err(concat(a.as_str(), d.as_str()))
                    }
                },
            }
        },
    }
}

/// Type-checks a MIR node in an environment: its type, or a type error.
/// The environment keeps what the check leaves in it (method sets created,
/// counters advanced, and on an error the bindings in force where it
/// arose). Defined where the checker comes back: it recurses forever on a
/// block that calls itself through its own name, for instance.
pub fn check(mir: &Mir, env: &mut TyEnv) -> (r: Result<Ty, String>)
    requires
        check_terminates(mir_view(**mir), old(env)@),
    ensures
        spec_check(mir_view(**mir), old(env)@) == (result_view(r), final(env)@),
{
    let ghost fuel = choose|fuel: nat| #[trigger] check_fuel(mir_view(**mir), env@, fuel) is Some;
    check_in(mir, env, Ghost(fuel))
}


/// Whether checking a branch block on an input of type `input` comes back.
pub open spec fn branch_input_terminates(arms: Seq<crate::mir::MirArmV>, input: TyV, e: EnvV) -> bool {
    exists|fuel: nat| #[trigger] branch_input_fuel(arms, input, e, fuel) is Some
}

/// Type-checks a branch block applied to an input of a known type: the
/// tags its patterns name must be in scope and some arm must be able to
/// match; `in` and each arm's bindings are in scope for the arm, and the
/// arms' types are unified.
pub fn check_branch_block_with_input(arms: &[MirBranchArm], input_ty: &Ty, env: &mut TyEnv) -> (r: Result<Ty, String>)
    requires
        branch_input_terminates(mir_arms_view(arms@), input_ty@, old(env)@),
    ensures
        branch_input_fuel(
            mir_arms_view(arms@),
            input_ty@,
            old(env)@,
            choose|fuel: nat| #[trigger] branch_input_fuel(mir_arms_view(arms@), input_ty@, old(env)@, fuel) is Some,
        ) == Some((result_view(r), final(env)@)),
{
    let ghost fuel = choose|fuel: nat| #[trigger] branch_input_fuel(mir_arms_view(arms@), input_ty@, env@, fuel) is Some;
    branch_input_in(arms, input_ty, env, Ghost(fuel))
}


/// Whether checking `body` under a `let` with the pattern `pat`, its input
/// of type `input`, comes back.
pub open spec fn let_terminates(pat: PatternV, body: MirV, input: TyV, e: EnvV) -> bool {
    exists|fuel: nat| #[trigger] let_fuel(pat, body, input, e, fuel) is Some
}

/// Type-checks `body` under a `let` whose pattern binds parts of an input
/// of type `input_ty`: a name binds the whole input; a fields pattern binds
/// by label, by name, or by position, with a rest pattern binding the
/// remaining fields.
pub fn check_let(pattern: &Pattern, body: &Mir, input_ty: &Ty, env: &mut TyEnv) -> (r: Result<Ty, String>)
    requires
        let_terminates(pattern_view(*pattern), mir_view(**body), input_ty@, old(env)@),
    ensures
        let_fuel(
            pattern_view(*pattern),
            mir_view(**body),
            input_ty@,
            old(env)@,
            choose|fuel: nat| #[trigger] let_fuel(pattern_view(*pattern), mir_view(**body), input_ty@, old(env)@, fuel) is Some,
        ) == Some((result_view(r), final(env)@)),
{
    let ghost fuel = choose|fuel: nat| #[trigger] let_fuel(pattern_view(*pattern), mir_view(**body), input_ty@, env@, fuel) is Some;
    let_in(pattern, body, input_ty, env, Ghost(fuel))
}

} // verus!
