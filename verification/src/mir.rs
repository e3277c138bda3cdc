//! MIR (mid-level intermediate representation): the syntax tree with its
//! sugar expanded.
//!
//! - Binary operators become method calls (`.add`, `.subtract`, `.times`,
//!   `.divided_by`), comparisons too (`.eq`, `.not_eq`, `.lt`, `.gt`,
//!   `.lt_eq`, `.gt_eq`), and unary minus becomes `.negate`.
//! - Pipes are inlined into calls; pipes into `let`, `let[..]` and `apply`
//!   stay pipes.
//! - String interpolation becomes a chain of `.add` and `.to_string` calls.
//! - A range becomes the struct `(start=a, end=b)`.
//! - Grouping parentheses disappear.
use vstd::prelude::*;

use crate::ast::{
    ArmV, ArrayPat, ArrayPatV, BinOp, BranchArm, BranchBinding, BranchBindingV, BranchPattern,
    BranchPatternV, CmpOp, Expr, ExprKind, ExprV, Field, FieldV, InterpPartV, Pattern, PatternV,
    StringInterpPart, arm_view, array_pats_view, binding_view, branch_pattern_view, copy_array_pats,
    copy_binding, copy_opt_str, expr_view, exprs_view, field_view, fields_view, arms_view,
    interp_part_view, interp_parts_view, lemma_arms_view, lemma_exprs_view, lemma_fields_view,
    lemma_interp_parts_view, opt_str, pattern_view,
};
use crate::text::text;

verus! {

pub type Mir = Box<MirKind>;

#[derive(Debug, PartialEq)]
pub enum MirKind {
    Int(i64),
    /// A float literal, kept as its decimal text.
    Float(String),
    Bool(bool),
    Str(String),
    Char(char),
    Byte(u8),
    Unit,
    Ident(String),
    Block(Mir),
    BranchBlock(Vec<MirBranchArm>),
    Array(Vec<Mir>),
    Struct(Vec<MirField>),
    FieldAccess(Mir, String),
    Call(Mir, Mir),
    MethodCall { receiver: Mir, method: String, arg: Mir },
    /// A binding of a single name, carrying its own value.
    Bind { name: String, value: Mir, body: Mir },
    /// A let with a pattern (destructured at run time).
    Let { pattern: Pattern, body: Mir },
    /// Array destructuring (done at run time).
    LetArray { patterns: Vec<ArrayPat>, body: Mir },
    /// A pipe into `let`, `let[..]` or `apply`, which need the piped input.
    Pipe(Mir, Mir),
    NewTag(u64, Option<String>),
    Import(String),
    /// A method set in scope for a body.
    Apply { expr: Mir, body: Mir },
}

#[derive(Debug, PartialEq)]
pub struct MirField {
    pub label: Option<String>,
    pub value: Mir,
    pub is_spread: bool,
}

#[derive(Debug, PartialEq)]
pub struct MirBranchArm {
    pub pattern: MirBranchPattern,
    pub guard: Option<Mir>,
    pub body: Mir,
}

#[derive(Debug, PartialEq)]
pub enum MirBranchPattern {
    Literal(Mir),
    Tag(String, Option<BranchBinding>),
    Binding(String),
    Discard,
}

// ── The model ───────────────────────────────────────────────────

pub enum MirV {
    Int(i64),
    Float(Seq<char>),
    Bool(bool),
    Str(Seq<char>),
    Char(char),
    Byte(u8),
    Unit,
    Ident(Seq<char>),
    Block(Box<MirV>),
    BranchBlock(Seq<MirArmV>),
    Array(Seq<MirV>),
    Struct(Seq<MirFieldV>),
    FieldAccess(Box<MirV>, Seq<char>),
    Call(Box<MirV>, Box<MirV>),
    MethodCall(Box<MirV>, Seq<char>, Box<MirV>),
    Bind(Seq<char>, Box<MirV>, Box<MirV>),
    Let(PatternV, Box<MirV>),
    LetArray(Seq<ArrayPatV>, Box<MirV>),
    Pipe(Box<MirV>, Box<MirV>),
    NewTag(u64, Option<Seq<char>>),
    Import(Seq<char>),
    Apply(Box<MirV>, Box<MirV>),
}

pub struct MirFieldV {
    pub label: Option<Seq<char>>,
    pub value: MirV,
    pub is_spread: bool,
}

pub struct MirArmV {
    pub pattern: MirPatternV,
    pub guard: Option<MirV>,
    pub body: MirV,
}

pub enum MirPatternV {
    Literal(MirV),
    Tag(Seq<char>, Option<BranchBindingV>),
    Binding(Seq<char>),
    Discard,
}

pub open spec fn mir_view(m: MirKind) -> MirV
    decreases m,
{
    match m {
        MirKind::Int(n) => MirV::Int(n),
        MirKind::Float(s) => MirV::Float(s@),
        MirKind::Bool(b) => MirV::Bool(b),
        MirKind::Str(s) => MirV::Str(s@),
        MirKind::Char(c) => MirV::Char(c),
        MirKind::Byte(b) => MirV::Byte(b),
        MirKind::Unit => MirV::Unit,
        MirKind::Ident(s) => MirV::Ident(s@),
        MirKind::Block(b) => MirV::Block(Box::new(mir_view(*b))),
        MirKind::BranchBlock(arms) => MirV::BranchBlock(mir_arms_view(arms@)),
        MirKind::Array(es) => MirV::Array(mirs_view(es@)),
        MirKind::Struct(fs) => MirV::Struct(mir_fields_view(fs@)),
        MirKind::FieldAccess(a, f) => MirV::FieldAccess(Box::new(mir_view(*a)), f@),
        MirKind::Call(f, a) => MirV::Call(Box::new(mir_view(*f)), Box::new(mir_view(*a))),
        MirKind::MethodCall { receiver, method, arg } => MirV::MethodCall(
            Box::new(mir_view(*receiver)),
            method@,
            Box::new(mir_view(*arg)),
        ),
        MirKind::Bind { name, value, body } => MirV::Bind(name@, Box::new(mir_view(*value)), Box::new(mir_view(*body))),
        MirKind::Let { pattern, body } => MirV::Let(pattern_view(pattern), Box::new(mir_view(*body))),
        MirKind::LetArray { patterns, body } => MirV::LetArray(array_pats_view(patterns@), Box::new(mir_view(*body))),
        MirKind::Pipe(a, b) => MirV::Pipe(Box::new(mir_view(*a)), Box::new(mir_view(*b))),
        MirKind::NewTag(id, name) => MirV::NewTag(id, opt_str(name)),
        MirKind::Import(s) => MirV::Import(s@),
        MirKind::Apply { expr, body } => MirV::Apply(Box::new(mir_view(*expr)), Box::new(mir_view(*body))),
    }
}

pub open spec fn mirs_view(es: Seq<Mir>) -> Seq<MirV>
    decreases es,
{
    if es.len() == 0 {
        seq![]
    } else {
        mirs_view(es.drop_last()).push(mir_view(*es.last()))
    }
}

pub open spec fn mir_fields_view(fs: Seq<MirField>) -> Seq<MirFieldV>
    decreases fs,
{
    if fs.len() == 0 {
        seq![]
    } else {
        let f = fs.last();
        mir_fields_view(fs.drop_last()).push(
            MirFieldV { label: opt_str(f.label), value: mir_view(*f.value), is_spread: f.is_spread },
        )
    }
}

pub open spec fn mir_arms_view(arms: Seq<MirBranchArm>) -> Seq<MirArmV>
    decreases arms,
{
    if arms.len() == 0 {
        seq![]
    } else {
        let a = arms.last();
        let pat = match a.pattern {
            MirBranchPattern::Literal(e) => MirPatternV::Literal(mir_view(*e)),
            MirBranchPattern::Tag(n, b) => MirPatternV::Tag(n@, binding_view(b)),
            MirBranchPattern::Binding(n) => MirPatternV::Binding(n@),
            MirBranchPattern::Discard => MirPatternV::Discard,
        };
        let guard = match a.guard {
            Some(g) => Some(mir_view(*g)),
            None => None,
        };
        mir_arms_view(arms.drop_last()).push(MirArmV { pattern: pat, guard, body: mir_view(*a.body) })
    }
}

impl View for MirKind {
    type V = MirV;

    open spec fn view(&self) -> MirV {
        mir_view(*self)
    }
}

pub open spec fn mir_field_view(f: MirField) -> MirFieldV {
    MirFieldV { label: opt_str(f.label), value: mir_view(*f.value), is_spread: f.is_spread }
}

pub open spec fn mir_arm_view(a: MirBranchArm) -> MirArmV {
    MirArmV {
        pattern: match a.pattern {
            MirBranchPattern::Literal(e) => MirPatternV::Literal(mir_view(*e)),
            MirBranchPattern::Tag(n, b) => MirPatternV::Tag(n@, binding_view(b)),
            MirBranchPattern::Binding(n) => MirPatternV::Binding(n@),
            MirBranchPattern::Discard => MirPatternV::Discard,
        },
        guard: match a.guard {
            Some(g) => Some(mir_view(*g)),
            None => None,
        },
        body: mir_view(*a.body),
    }
}

pub proof fn lemma_mirs_view_push(es: Seq<Mir>, e: Mir)
    ensures
        mirs_view(es.push(e)) == mirs_view(es).push(mir_view(*e)),
{
    assert(es.push(e).drop_last() =~= es);
}

pub proof fn lemma_mir_fields_view_push(fs: Seq<MirField>, f: MirField)
    ensures
        mir_fields_view(fs.push(f)) == mir_fields_view(fs).push(mir_field_view(f)),
{
    assert(fs.push(f).drop_last() =~= fs);
}

pub proof fn lemma_mir_arms_view_push(arms: Seq<MirBranchArm>, a: MirBranchArm)
    ensures
        mir_arms_view(arms.push(a)) == mir_arms_view(arms).push(mir_arm_view(a)),
{
    assert(arms.push(a).drop_last() =~= arms);
}

pub proof fn lemma_empty_mir_views()
    ensures
        mirs_view(Seq::<Mir>::empty()) == Seq::<MirV>::empty(),
        mir_fields_view(Seq::<MirField>::empty()) == Seq::<MirFieldV>::empty(),
        mir_arms_view(Seq::<MirBranchArm>::empty()) == Seq::<MirArmV>::empty(),
{
}

// ── Lowering in the model ──

/// The method a binary operator becomes.
pub open spec fn binop_method(op: BinOp) -> Seq<char> {
    match op {
        BinOp::Add => "add"@,
        BinOp::Sub => "subtract"@,
        BinOp::Mul => "times"@,
        BinOp::Div => "divided_by"@,
    }
}

/// The method a comparison becomes.
pub open spec fn comparison_method(op: CmpOp) -> Seq<char> {
    match op {
        CmpOp::Eq => "eq"@,
        CmpOp::NotEq => "not_eq"@,
        CmpOp::Lt => "lt"@,
        CmpOp::Gt => "gt"@,
        CmpOp::LtEq => "lt_eq"@,
        CmpOp::GtEq => "gt_eq"@,
    }
}

pub open spec fn positional(v: MirV) -> MirFieldV {
    MirFieldV { label: None, value: v, is_spread: false }
}

/// A value put in front of an argument: `()` gives the value alone, a struct
/// gets it as its first positional field, anything else makes a pair.
pub open spec fn prepend(val: MirV, arg: MirV) -> MirV {
    match arg {
        MirV::Unit => val,
        MirV::Struct(fs) => MirV::Struct(seq![positional(val)] + fs),
        _ => MirV::Struct(seq![positional(val), positional(arg)]),
    }
}

/// `lhs >> rhs`: a call or method call on the right gets `lhs` in front of
/// its argument; a `let`, `let[..]` or `apply` keeps the pipe; anything
/// else is called with `lhs`.
pub open spec fn lower_pipe_spec(e: ExprV) -> MirV
    decreases e, 0nat,
{
    match e {
        ExprV::Pipe(l, r) => match *r {
            ExprV::Call(f, a) => MirV::Call(Box::new(lower_expr(*f)), Box::new(prepend(lower_expr(*l), lower_expr(*a)))),
            ExprV::MethodCall(rc, m, a) => MirV::MethodCall(
                Box::new(lower_expr(*rc)),
                m,
                Box::new(prepend(lower_expr(*l), lower_expr(*a))),
            ),
            ExprV::Let(_, _) => MirV::Pipe(Box::new(lower_expr(*l)), Box::new(lower_expr(*r))),
            ExprV::LetArray(_, _) => MirV::Pipe(Box::new(lower_expr(*l)), Box::new(lower_expr(*r))),
            ExprV::Apply(_, _) => MirV::Pipe(Box::new(lower_expr(*l)), Box::new(lower_expr(*r))),
            _ => MirV::Call(Box::new(lower_expr(*r)), Box::new(lower_expr(*l))),
        },
        _ => MirV::Unit,
    }
}

/// The MIR of an expression.
pub open spec fn lower_expr(e: ExprV) -> MirV
    decreases e, 1nat,
{
    match e {
        ExprV::Int(n) => MirV::Int(n),
        ExprV::Float(f) => MirV::Float(f),
        ExprV::Bool(b) => MirV::Bool(b),
        ExprV::Str(s) => MirV::Str(s),
        ExprV::Char(c) => MirV::Char(c),
        ExprV::Byte(b) => MirV::Byte(b),
        ExprV::Unit => MirV::Unit,
        ExprV::Ident(n) => MirV::Ident(n),
        ExprV::NewTag(id, n) => MirV::NewTag(id, n),
        ExprV::Import(n) => MirV::Import(n),
        ExprV::Block(b) => MirV::Block(Box::new(lower_expr(*b))),
        ExprV::BranchBlock(arms) => MirV::BranchBlock(lower_arms(arms)),
        ExprV::Array(es) => MirV::Array(lower_exprs(es)),
        ExprV::Struct(fs) => MirV::Struct(lower_fields(fs)),
        ExprV::FieldAccess(a, f) => MirV::FieldAccess(Box::new(lower_expr(*a)), f),
        ExprV::Call(f, a) => MirV::Call(Box::new(lower_expr(*f)), Box::new(lower_expr(*a))),
        ExprV::MethodCall(r, m, a) => MirV::MethodCall(Box::new(lower_expr(*r)), m, Box::new(lower_expr(*a))),
        ExprV::BinOp(op, l, r) => MirV::MethodCall(Box::new(lower_expr(*l)), binop_method(op), Box::new(lower_expr(*r))),
        ExprV::Compare(op, l, r) => MirV::MethodCall(
            Box::new(lower_expr(*l)),
            comparison_method(op),
            Box::new(lower_expr(*r)),
        ),
        ExprV::UnaryMinus(a) => MirV::MethodCall(Box::new(lower_expr(*a)), "negate"@, Box::new(MirV::Unit)),
        ExprV::Pipe(_, _) => lower_pipe_spec(e),
        ExprV::Let(p, b) => MirV::Let(p, Box::new(lower_expr(*b))),
        ExprV::LetArray(ps, b) => MirV::LetArray(ps, Box::new(lower_expr(*b))),
        ExprV::StringInterp(parts) => match interp_chain(parts) {
            Some(m) => m,
            None => MirV::Str(seq![]),
        },
        ExprV::Range(a, b) => MirV::Struct(seq![
            MirFieldV { label: Some("start"@), value: lower_expr(*a), is_spread: false },
            MirFieldV { label: Some("end"@), value: lower_expr(*b), is_spread: false },
        ]),
        ExprV::Group(a) => lower_expr(*a),
        ExprV::Apply(a, b) => MirV::Apply(Box::new(lower_expr(*a)), Box::new(lower_expr(*b))),
    }
}

pub open spec fn lower_exprs(es: Seq<ExprV>) -> Seq<MirV>
    decreases es, 1nat,
{
    if es.len() == 0 {
        seq![]
    } else {
        lower_exprs(es.drop_last()).push(lower_expr(es.last()))
    }
}

pub open spec fn lower_fields(fs: Seq<FieldV>) -> Seq<MirFieldV>
    decreases fs, 1nat,
{
    if fs.len() == 0 {
        seq![]
    } else {
        let f = fs.last();
        lower_fields(fs.drop_last()).push(MirFieldV { label: f.label, value: lower_expr(f.value), is_spread: f.is_spread })
    }
}

pub open spec fn lower_arms(arms: Seq<ArmV>) -> Seq<MirArmV>
    decreases arms, 1nat,
{
    if arms.len() == 0 {
        seq![]
    } else {
        let a = arms.last();
        let pat = match a.pattern {
            BranchPatternV::Literal(e) => MirPatternV::Literal(lower_expr(e)),
            BranchPatternV::Tag(n, b) => MirPatternV::Tag(n, b),
            BranchPatternV::Binding(n) => MirPatternV::Binding(n),
            BranchPatternV::Discard => MirPatternV::Discard,
        };
        let guard = match a.guard {
            Some(g) => Some(lower_expr(g)),
            None => None,
        };
        lower_arms(arms.drop_last()).push(MirArmV { pattern: pat, guard, body: lower_expr(a.body) })
    }
}

/// The pieces of an interpolated string joined by `.add`: a literal piece is
/// a string, an expression piece is its `.to_string()`. `None` when there
/// are no pieces.
pub open spec fn interp_chain(parts: Seq<InterpPartV>) -> Option<MirV>
    decreases parts, 1nat,
{
    if parts.len() == 0 {
        None
    } else {
        let piece = match parts.last() {
            InterpPartV::Literal(s) => MirV::Str(s),
            InterpPartV::Expr(e) => MirV::MethodCall(Box::new(lower_expr(e)), "to_string"@, Box::new(MirV::Unit)),
        };
        match interp_chain(parts.drop_last()) {
            None => Some(piece),
            Some(acc) => Some(MirV::MethodCall(Box::new(acc), "add"@, Box::new(piece))),
        }
    }
}


pub open spec fn lower_pattern(p: BranchPatternV) -> MirPatternV {
    match p {
        BranchPatternV::Literal(e) => MirPatternV::Literal(lower_expr(e)),
        BranchPatternV::Tag(n, b) => MirPatternV::Tag(n, b),
        BranchPatternV::Binding(n) => MirPatternV::Binding(n),
        BranchPatternV::Discard => MirPatternV::Discard,
    }
}

pub open spec fn lower_arm(a: ArmV) -> MirArmV {
    MirArmV {
        pattern: lower_pattern(a.pattern),
        guard: match a.guard {
            Some(g) => Some(lower_expr(g)),
            None => None,
        },
        body: lower_expr(a.body),
    }
}

pub open spec fn mir_pattern_view(p: MirBranchPattern) -> MirPatternV {
    match p {
        MirBranchPattern::Literal(e) => MirPatternV::Literal(mir_view(*e)),
        MirBranchPattern::Tag(n, b) => MirPatternV::Tag(n@, binding_view(b)),
        MirBranchPattern::Binding(n) => MirPatternV::Binding(n@),
        MirBranchPattern::Discard => MirPatternV::Discard,
    }
}

pub open spec fn chain_or_empty(c: Option<MirV>) -> MirV {
    match c {
        Some(m) => m,
        None => MirV::Str(seq![]),
    }
}

pub open spec fn opt_mir_view(o: Option<Mir>) -> Option<MirV> {
    match o {
        Some(m) => Some(mir_view(*m)),
        None => None,
    }
}

pub proof fn lemma_mir_fields_view_concat(a: Seq<MirField>, b: Seq<MirField>)
    ensures
        mir_fields_view(a + b) == mir_fields_view(a) + mir_fields_view(b),
    decreases b.len(),
{
    if b.len() == 0 {
        assert(a + b =~= a);
        assert(mir_fields_view(a) + mir_fields_view(b) =~= mir_fields_view(a));
    } else {
        lemma_mir_fields_view_concat(a, b.drop_last());
        assert((a + b).drop_last() =~= a + b.drop_last());
        assert((a + b).last() == b.last());
        assert(mir_fields_view(a + b) =~= mir_fields_view(a) + mir_fields_view(b));
    }
}

// ── Lowering ────────────────────────────────────────────────────

/// Lower an AST expression to MIR.
pub fn lower(expr: &Expr) -> (r: Mir)
    ensures
        mir_view(*r) == lower_expr(expr_view(**expr)),
    decreases expr, 1nat,
{
    proof {
        reveal_with_fuel(mir_view, 2);
    }
    match &**expr {
        ExprKind::Int(n) => Box::new(MirKind::Int(*n)),
        ExprKind::Float(f) => Box::new(MirKind::Float(f.clone())),
        ExprKind::Bool(b) => Box::new(MirKind::Bool(*b)),
        ExprKind::Str(s) => Box::new(MirKind::Str(s.clone())),
        ExprKind::Char(c) => Box::new(MirKind::Char(*c)),
        ExprKind::Byte(b) => Box::new(MirKind::Byte(*b)),
        ExprKind::Unit => Box::new(MirKind::Unit),
        ExprKind::Ident(name) => Box::new(MirKind::Ident(name.clone())),
        ExprKind::NewTag(id, name) => Box::new(MirKind::NewTag(*id, copy_opt_str(name))),
        ExprKind::Import(name) => Box::new(MirKind::Import(name.clone())),
        ExprKind::Block(body) => Box::new(MirKind::Block(lower(body))),
        ExprKind::BranchBlock(arms) => {
            let mut out: Vec<MirBranchArm> = Vec::new();
            let mut i: usize = 0;
            proof {
                lemma_arms_view(arms@);
                lemma_empty_mir_views();
                assert(arms_view(arms@).take(0) =~= Seq::<ArmV>::empty());
            }
            while i < arms.len()
                invariant
                    i <= arms.len(),
                    **expr == ExprKind::BranchBlock(*arms),
                    arms_view(arms@).len() == arms.len(),
                    forall|k: int| 0 <= k < arms.len() ==> #[trigger] arms_view(arms@)[k] == arm_view(arms@[k]),
                    mir_arms_view(out@) == lower_arms(arms_view(arms@).take(i as int)),
                decreases arms.len() - i,
            {
                proof {
                    assert(decreases_to!(**expr => (**expr)->BranchBlock_0));
                    assert(decreases_to!(*arms => arms@));
                    assert(decreases_to!(arms@ => arms@[i as int]));
                    assert(arms_view(arms@).take(i + 1).drop_last() =~= arms_view(arms@).take(i as int));
                }
                let a = lower_branch_arm(&arms[i]);
                let ghost prev = out@;
                proof {
                    lemma_mir_arms_view_push(prev, a);
                }
                out.push(a);
                i = i + 1;
            }
            proof {
                assert(arms_view(arms@).take(arms.len() as int) =~= arms_view(arms@));
            }
            Box::new(MirKind::BranchBlock(out))
        },
        ExprKind::Array(elems) => {
            let mut out: Vec<Mir> = Vec::new();
            let mut i: usize = 0;
            proof {
                lemma_exprs_view(elems@);
                lemma_empty_mir_views();
                assert(exprs_view(elems@).take(0) =~= Seq::<ExprV>::empty());
            }
            while i < elems.len()
                invariant
                    i <= elems.len(),
                    **expr == ExprKind::Array(*elems),
                    exprs_view(elems@).len() == elems.len(),
                    forall|k: int| 0 <= k < elems.len() ==> #[trigger] exprs_view(elems@)[k] == expr_view(*elems@[k]),
                    mirs_view(out@) == lower_exprs(exprs_view(elems@).take(i as int)),
                decreases elems.len() - i,
            {
                proof {
                    assert(decreases_to!(**expr => (**expr)->Array_0));
                    assert(decreases_to!(*elems => elems@));
                    assert(decreases_to!(elems@ => elems@[i as int]));
                    assert(exprs_view(elems@).take(i + 1).drop_last() =~= exprs_view(elems@).take(i as int));
                }
                let m = lower(&elems[i]);
                let ghost prev = out@;
                proof {
                    lemma_mirs_view_push(prev, m);
                }
                out.push(m);
                i = i + 1;
            }
            proof {
                assert(exprs_view(elems@).take(elems.len() as int) =~= exprs_view(elems@));
            }
            Box::new(MirKind::Array(out))
        },
        ExprKind::Struct(fields) => {
            let mut out: Vec<MirField> = Vec::new();
            let mut i: usize = 0;
            proof {
                lemma_fields_view(fields@);
                lemma_empty_mir_views();
                assert(fields_view(fields@).take(0) =~= Seq::<FieldV>::empty());
            }
            while i < fields.len()
                invariant
                    i <= fields.len(),
                    **expr == ExprKind::Struct(*fields),
                    fields_view(fields@).len() == fields.len(),
                    forall|k: int| 0 <= k < fields.len() ==> #[trigger] fields_view(fields@)[k] == field_view(fields@[k]),
                    mir_fields_view(out@) == lower_fields(fields_view(fields@).take(i as int)),
                decreases fields.len() - i,
            {
                proof {
                    assert(decreases_to!(**expr => (**expr)->Struct_0));
                    assert(decreases_to!(*fields => fields@));
                    assert(decreases_to!(fields@ => fields@[i as int]));
                    assert(fields_view(fields@).take(i + 1).drop_last() =~= fields_view(fields@).take(i as int));
                }
                let f = lower_field(&fields[i]);
                let ghost prev = out@;
                proof {
                    lemma_mir_fields_view_push(prev, f);
                }
                out.push(f);
                i = i + 1;
            }
            proof {
                assert(fields_view(fields@).take(fields.len() as int) =~= fields_view(fields@));
            }
            Box::new(MirKind::Struct(out))
        },
        ExprKind::FieldAccess(e, field) => Box::new(MirKind::FieldAccess(lower(e), field.clone())),
        ExprKind::Call(func, arg) => Box::new(MirKind::Call(lower(func), lower(arg))),
        ExprKind::MethodCall { receiver, method, arg } => Box::new(MirKind::MethodCall {
            receiver: lower(receiver),
            method: method.clone(),
            arg: lower(arg),
        }),
        ExprKind::BinOp(op, lhs, rhs) => {
            let method = match op {
                BinOp::Add => text("add"),
                BinOp::Sub => text("subtract"),
                BinOp::Mul => text("times"),
                BinOp::Div => text("divided_by"),
            };
            Box::new(MirKind::MethodCall { receiver: lower(lhs), method, arg: lower(rhs) })
        },
        ExprKind::Compare(op, lhs, rhs) => {
            let method = match op {
                CmpOp::Eq => text("eq"),
                CmpOp::NotEq => text("not_eq"),
                CmpOp::Lt => text("lt"),
                CmpOp::Gt => text("gt"),
                CmpOp::LtEq => text("lt_eq"),
                CmpOp::GtEq => text("gt_eq"),
            };
            Box::new(MirKind::MethodCall { receiver: lower(lhs), method, arg: lower(rhs) })
        },
        ExprKind::UnaryMinus(e) => Box::new(MirKind::MethodCall {
            receiver: lower(e),
            method: text("negate"),
            arg: Box::new(MirKind::Unit),
        }),
        ExprKind::Pipe(_, _) => lower_pipe(expr),
        ExprKind::Let { pattern, body } => Box::new(MirKind::Let { pattern: pattern.clone(), body: lower(body) }),
        ExprKind::LetArray { patterns, body } => Box::new(MirKind::LetArray {
            patterns: copy_array_pats(patterns),
            body: lower(body),
        }),
        ExprKind::StringInterp(parts) => lower_string_interp(parts),
        ExprKind::Range(start, end) => {
            let f1 = MirField { label: Some(text("start")), value: lower(start), is_spread: false };
            let f2 = MirField { label: Some(text("end")), value: lower(end), is_spread: false };
            let ghost v1 = mir_field_view(f1);
            let ghost v2 = mir_field_view(f2);
            let mut fields: Vec<MirField> = Vec::new();
            proof {
                lemma_empty_mir_views();
                lemma_mir_fields_view_push(Seq::<MirField>::empty(), f1);
                lemma_mir_fields_view_push(Seq::<MirField>::empty().push(f1), f2);
                assert(Seq::<MirField>::empty().push(f1).push(f2) =~= seq![f1, f2]);
            }
            fields.push(f1);
            fields.push(f2);
            assert(fields@ =~= seq![f1, f2]);
            assert(mir_fields_view(fields@) =~= seq![v1, v2]);
            Box::new(MirKind::Struct(fields))
        },
        ExprKind::Group(inner) => lower(inner),
        ExprKind::Apply { expr: e, body } => Box::new(MirKind::Apply { expr: lower(e), body: lower(body) }),
    }
}

/// `lhs >> rhs`: a call or method call on the right gets `lhs` in front of
/// its argument; a `let`, `let[..]` or `apply` keeps the pipe; anything
/// else is called with `lhs`.
fn lower_pipe(expr: &Expr) -> (r: Mir)
    requires
        expr_view(**expr) is Pipe,
    ensures
        mir_view(*r) == lower_pipe_spec(expr_view(**expr)),
    decreases expr, 0nat,
{
    proof {
        reveal_with_fuel(mir_view, 2);
        reveal_with_fuel(expr_view, 2);
    }
    match &**expr {
        ExprKind::Pipe(lhs, rhs) => {
            proof {
                assert(decreases_to!(**expr => (**expr)->Pipe_1));
                assert(decreases_to!(**expr => (**expr)->Pipe_0));
            }
            match &**rhs {
                ExprKind::Call(func, arg) => {
                    proof {
                        assert(decreases_to!(**rhs => (**rhs)->Call_0));
                        assert(decreases_to!(**rhs => (**rhs)->Call_1));
                    }
                    Box::new(MirKind::Call(lower(func), prepend_to_struct(lower(lhs), lower(arg))))
                },
                ExprKind::Let { .. } => Box::new(MirKind::Pipe(lower(lhs), lower(rhs))),
                ExprKind::LetArray { .. } => Box::new(MirKind::Pipe(lower(lhs), lower(rhs))),
                ExprKind::MethodCall { receiver, method, arg } => {
                    proof {
                        assert(decreases_to!(**rhs => (**rhs)->receiver));
                        assert(decreases_to!(**rhs => (**rhs)->arg));
                    }
                    Box::new(MirKind::MethodCall {
                        receiver: lower(receiver),
                        method: method.clone(),
                        arg: prepend_to_struct(lower(lhs), lower(arg)),
                    })
                },
                ExprKind::Apply { .. } => Box::new(MirKind::Pipe(lower(lhs), lower(rhs))),
                _ => Box::new(MirKind::Call(lower(rhs), lower(lhs))),
            }
        },
        _ => Box::new(MirKind::Unit),
    }
}

/// Puts `val` in front of the argument `arg`.
fn prepend_to_struct(val: Mir, arg: Mir) -> (r: Mir)
    ensures
        mir_view(*r) == prepend(mir_view(*val), mir_view(*arg)),
{
    proof {
        reveal_with_fuel(mir_view, 2);
        lemma_empty_mir_views();
    }
    match *arg {
        MirKind::Unit => val,
        MirKind::Struct(fields) => {
            let mut fields = fields;
            let first = MirField { label: None, value: val, is_spread: false };
            let ghost fv = mir_field_view(first);
            let mut new_fields: Vec<MirField> = Vec::new();
            proof {
                lemma_mir_fields_view_push(Seq::<MirField>::empty(), first);
            }
            new_fields.push(first);
            let ghost a = new_fields@;
            let ghost b = fields@;
            new_fields.append(&mut fields);
            proof {
                lemma_mir_fields_view_concat(a, b);
                assert(mir_fields_view(a) =~= seq![fv]);
            }
            Box::new(MirKind::Struct(new_fields))
        },
        other => {
            let f1 = MirField { label: None, value: val, is_spread: false };
            let f2 = MirField { label: None, value: Box::new(other), is_spread: false };
            let ghost v1 = mir_field_view(f1);
            let ghost v2 = mir_field_view(f2);
            let mut fields: Vec<MirField> = Vec::new();
            proof {
                lemma_mir_fields_view_push(Seq::<MirField>::empty(), f1);
                lemma_mir_fields_view_push(Seq::<MirField>::empty().push(f1), f2);
                assert(Seq::<MirField>::empty().push(f1).push(f2) =~= seq![f1, f2]);
            }
            fields.push(f1);
            fields.push(f2);
            assert(fields@ =~= seq![f1, f2]);
            assert(mir_fields_view(fields@) =~= seq![v1, v2]);
            Box::new(MirKind::Struct(fields))
        },
    }
}

/// `"a{x}b"` becomes `"a".add(x.to_string()).add("b")`; no parts give `""`.
fn lower_string_interp(parts: &Vec<StringInterpPart>) -> (r: Mir)
    ensures
        mir_view(*r) == chain_or_empty(interp_chain(interp_parts_view(parts@))),
    decreases parts, 0nat,
{
    proof {
        reveal_with_fuel(mir_view, 2);
        lemma_interp_parts_view(parts@);
    }
    let ghost pv = interp_parts_view(parts@);
    let mut result: Option<Mir> = None;
    let mut i: usize = 0;
    assert(pv.take(0) =~= Seq::<InterpPartV>::empty());
    while i < parts.len()
        invariant
            i <= parts.len(),
            pv == interp_parts_view(parts@),
            pv.len() == parts.len(),
            forall|k: int| 0 <= k < parts.len() ==> #[trigger] pv[k] == interp_part_view(parts@[k]),
            opt_mir_view(result) == interp_chain(pv.take(i as int)),
        decreases parts.len() - i,
    {
        proof {
            assert(pv.take(i + 1).drop_last() =~= pv.take(i as int));
            assert(decreases_to!(*parts => parts@));
            assert(decreases_to!(parts@ => parts@[i as int]));
        }
        let piece = lower_interp_piece(&parts[i]);
        result = Some(
            match result {
                None => piece,
                Some(acc) => Box::new(MirKind::MethodCall { receiver: acc, method: text("add"), arg: piece }),
            },
        );
        i = i + 1;
    }
    proof {
        assert(pv.take(parts.len() as int) =~= pv);
    }
    match result {
        Some(m) => m,
        None => Box::new(MirKind::Str(String::new())),
    }
}

pub open spec fn interp_piece(p: InterpPartV) -> MirV {
    match p {
        InterpPartV::Literal(s) => MirV::Str(s),
        InterpPartV::Expr(e) => MirV::MethodCall(Box::new(lower_expr(e)), "to_string"@, Box::new(MirV::Unit)),
    }
}

/// One piece of an interpolated string: a literal, or `.to_string()` of an
/// expression.
fn lower_interp_piece(part: &StringInterpPart) -> (r: Mir)
    ensures
        mir_view(*r) == interp_piece(interp_part_view(*part)),
    decreases part, 0nat,
{
    proof {
        reveal_with_fuel(mir_view, 2);
    }
    match part {
        StringInterpPart::Literal(s) => Box::new(MirKind::Str(s.clone())),
        StringInterpPart::Expr(e) => Box::new(MirKind::MethodCall {
            receiver: lower(e),
            method: text("to_string"),
            arg: Box::new(MirKind::Unit),
        }),
    }
}

fn lower_branch_arm(arm: &BranchArm) -> (r: MirBranchArm)
    ensures
        mir_arm_view(r) == lower_arm(arm_view(*arm)),
    decreases arm, 0nat,
{
    proof {
        assert(decreases_to!(*arm => arm.body));
    }
    let guard = match &arm.guard {
        Some(g) => {
            proof {
                assert(decreases_to!(*arm => arm.guard));
                assert(decreases_to!(arm.guard => arm.guard->Some_0));
            }
            Some(lower(g))
        },
        None => None,
    };
    MirBranchArm { pattern: lower_branch_pattern(&arm.pattern), guard, body: lower(&arm.body) }
}

fn lower_branch_pattern(pat: &BranchPattern) -> (r: MirBranchPattern)
    ensures
        mir_pattern_view(r) == lower_pattern(branch_pattern_view(*pat)),
    decreases pat, 0nat,
{
    match pat {
        BranchPattern::Literal(e) => MirBranchPattern::Literal(lower(e)),
        BranchPattern::Tag(name, binding) => MirBranchPattern::Tag(name.clone(), copy_binding(binding)),
        BranchPattern::Binding(name) => MirBranchPattern::Binding(name.clone()),
        BranchPattern::Discard => MirBranchPattern::Discard,
    }
}

fn lower_field(field: &Field) -> (r: MirField)
    ensures
        mir_field_view(r) == (MirFieldV {
            label: field_view(*field).label,
            value: lower_expr(field_view(*field).value),
            is_spread: field.is_spread,
        }),
    decreases field, 0nat,
{
    MirField { label: copy_opt_str(&field.label), value: lower(&field.value), is_spread: field.is_spread }
}


// ── Copies ──

pub proof fn lemma_mirs_view(es: Seq<Mir>)
    ensures
        mirs_view(es).len() == es.len(),
        forall|i: int| 0 <= i < es.len() ==> #[trigger] mirs_view(es)[i] == mir_view(*es[i]),
    decreases es.len(),
{
    if es.len() > 0 {
        lemma_mirs_view(es.drop_last());
    }
}

fn copy_mir_arm(a: &MirBranchArm) -> (r: MirBranchArm)
    ensures
        mir_arm_view(r) == mir_arm_view(*a),
    decreases a, 0nat,
{
    proof {
        assert(decreases_to!(*a => a.body));
    }
    let pattern = match &a.pattern {
        MirBranchPattern::Literal(e) => {
            proof {
                assert(decreases_to!(*a => a.pattern));
                assert(decreases_to!(a.pattern => a.pattern->Literal_0));
            }
            MirBranchPattern::Literal(Box::new(copy_mir(e)))
        },
        MirBranchPattern::Tag(n, b) => MirBranchPattern::Tag(n.clone(), copy_binding(b)),
        MirBranchPattern::Binding(n) => MirBranchPattern::Binding(n.clone()),
        MirBranchPattern::Discard => MirBranchPattern::Discard,
    };
    let guard = match &a.guard {
        Some(g) => {
            proof {
                assert(decreases_to!(*a => a.guard));
                assert(decreases_to!(a.guard => a.guard->Some_0));
            }
            Some(Box::new(copy_mir(g)))
        },
        None => None,
    };
    MirBranchArm { pattern, guard, body: Box::new(copy_mir(&a.body)) }
}

/// A copy of a MIR node.
pub fn copy_mir(m: &MirKind) -> (r: MirKind)
    ensures
        mir_view(r) == mir_view(*m),
    decreases m, 1nat,
{
    match m {
        MirKind::Int(n) => MirKind::Int(*n),
        MirKind::Float(f) => MirKind::Float(f.clone()),
        MirKind::Bool(b) => MirKind::Bool(*b),
        MirKind::Str(s) => MirKind::Str(s.clone()),
        MirKind::Char(c) => MirKind::Char(*c),
        MirKind::Byte(b) => MirKind::Byte(*b),
        MirKind::Unit => MirKind::Unit,
        MirKind::Ident(n) => MirKind::Ident(n.clone()),
        MirKind::Block(b) => MirKind::Block(Box::new(copy_mir(b))),
        MirKind::BranchBlock(arms) => {
            let mut out: Vec<MirBranchArm> = Vec::new();
            let mut i: usize = 0;
            proof {
                lemma_empty_mir_views();
                assert(arms@.take(0) =~= Seq::<MirBranchArm>::empty());
            }
            while i < arms.len()
                invariant
                    i <= arms.len(),
                    *m == MirKind::BranchBlock(*arms),
                    mir_arms_view(out@) == mir_arms_view(arms@.take(i as int)),
                decreases arms.len() - i,
            {
                proof {
                    assert(decreases_to!(*m => (*m)->BranchBlock_0));
                    assert(decreases_to!(*arms => arms@));
                    assert(decreases_to!(arms@ => arms@[i as int]));
                    assert(arms@.take(i + 1).drop_last() =~= arms@.take(i as int));
                    lemma_mir_arms_view_push(arms@.take(i as int), arms@[i as int]);
                    assert(arms@.take(i + 1) =~= arms@.take(i as int).push(arms@[i as int]));
                }
                let a = copy_mir_arm(&arms[i]);
                let ghost prev = out@;
                proof {
                    lemma_mir_arms_view_push(prev, a);
                }
                out.push(a);
                i = i + 1;
            }
            proof {
                assert(arms@.take(arms.len() as int) =~= arms@);
            }
            MirKind::BranchBlock(out)
        },
        MirKind::Array(es) => {
            let mut out: Vec<Mir> = Vec::new();
            let mut i: usize = 0;
            proof {
                lemma_empty_mir_views();
                assert(es@.take(0) =~= Seq::<Mir>::empty());
            }
            while i < es.len()
                invariant
                    i <= es.len(),
                    *m == MirKind::Array(*es),
                    mirs_view(out@) == mirs_view(es@.take(i as int)),
                decreases es.len() - i,
            {
                proof {
                    assert(decreases_to!(*m => (*m)->Array_0));
                    assert(decreases_to!(*es => es@));
                    assert(decreases_to!(es@ => es@[i as int]));
                    lemma_mirs_view_push(es@.take(i as int), es@[i as int]);
                    assert(es@.take(i + 1) =~= es@.take(i as int).push(es@[i as int]));
                }
                let c = Box::new(copy_mir(&es[i]));
                let ghost prev = out@;
                proof {
                    lemma_mirs_view_push(prev, c);
                }
                out.push(c);
                i = i + 1;
            }
            proof {
                assert(es@.take(es.len() as int) =~= es@);
            }
            MirKind::Array(out)
        },
        MirKind::Struct(fs) => {
            let mut out: Vec<MirField> = Vec::new();
            let mut i: usize = 0;
            proof {
                lemma_empty_mir_views();
                assert(fs@.take(0) =~= Seq::<MirField>::empty());
            }
            while i < fs.len()
                invariant
                    i <= fs.len(),
                    *m == MirKind::Struct(*fs),
                    mir_fields_view(out@) == mir_fields_view(fs@.take(i as int)),
                decreases fs.len() - i,
            {
                proof {
                    assert(decreases_to!(*m => (*m)->Struct_0));
                    assert(decreases_to!(*fs => fs@));
                    assert(decreases_to!(fs@ => fs@[i as int]));
                    assert(decreases_to!(fs@[i as int] => fs@[i as int].value));
                    lemma_mir_fields_view_push(fs@.take(i as int), fs@[i as int]);
                    assert(fs@.take(i + 1) =~= fs@.take(i as int).push(fs@[i as int]));
                }
                let f = MirField {
                    label: copy_opt_str(&fs[i].label),
                    value: Box::new(copy_mir(&fs[i].value)),
                    is_spread: fs[i].is_spread,
                };
                let ghost prev = out@;
                proof {
                    lemma_mir_fields_view_push(prev, f);
                }
                out.push(f);
                i = i + 1;
            }
            proof {
                assert(fs@.take(fs.len() as int) =~= fs@);
            }
            MirKind::Struct(out)
        },
        MirKind::FieldAccess(a, f) => MirKind::FieldAccess(Box::new(copy_mir(a)), f.clone()),
        MirKind::Call(f, a) => MirKind::Call(Box::new(copy_mir(f)), Box::new(copy_mir(a))),
        MirKind::MethodCall { receiver, method, arg } => MirKind::MethodCall {
            receiver: Box::new(copy_mir(receiver)),
            method: method.clone(),
            arg: Box::new(copy_mir(arg)),
        },
        MirKind::Bind { name, value, body } => MirKind::Bind {
            name: name.clone(),
            value: Box::new(copy_mir(value)),
            body: Box::new(copy_mir(body)),
        },
        MirKind::Let { pattern, body } => MirKind::Let { pattern: pattern.clone(), body: Box::new(copy_mir(body)) },
        MirKind::LetArray { patterns, body } => MirKind::LetArray {
            patterns: copy_array_pats(patterns),
            body: Box::new(copy_mir(body)),
        },
        MirKind::Pipe(a, b) => MirKind::Pipe(Box::new(copy_mir(a)), Box::new(copy_mir(b))),
        MirKind::NewTag(id, n) => MirKind::NewTag(*id, copy_opt_str(n)),
        MirKind::Import(n) => MirKind::Import(n.clone()),
        MirKind::Apply { expr, body } => MirKind::Apply { expr: Box::new(copy_mir(expr)), body: Box::new(copy_mir(body)) },
    }
}

impl Clone for MirKind {
    fn clone(&self) -> (r: Self)
        ensures
            mir_view(r) == mir_view(*self),
    {
        copy_mir(self)
    }
}

impl Clone for MirBranchArm {
    fn clone(&self) -> (r: Self)
        ensures
            mir_arm_view(r) == mir_arm_view(*self),
    {
        copy_mir_arm(self)
    }
}

impl Clone for MirField {
    fn clone(&self) -> (r: Self)
        ensures
            mir_field_view(r) == mir_field_view(*self),
    {
        MirField { label: copy_opt_str(&self.label), value: Box::new(copy_mir(&self.value)), is_spread: self.is_spread }
    }
}

/// Lowering turns each arithmetic operator into a call of its own method on
/// the lowered left operand, with the lowered right operand as argument:
/// `+` calls "add", `-` "subtract", `*` "times" and `/` "divided_by". Two
/// different operators never lower to the same method.
pub proof fn law_lower_arithmetic(op: BinOp, l: ExprV, r: ExprV)
    ensures
        lower_expr(ExprV::BinOp(op, Box::new(l), Box::new(r))) == MirV::MethodCall(
            Box::new(lower_expr(l)),
            match op {
                BinOp::Add => "add"@,
                BinOp::Sub => "subtract"@,
                BinOp::Mul => "times"@,
                BinOp::Div => "divided_by"@,
            },
            Box::new(lower_expr(r)),
        ),
        forall|op2: BinOp|
            op2 != op ==> lower_expr(ExprV::BinOp(op, Box::new(l), Box::new(r)))
                != #[trigger] lower_expr(ExprV::BinOp(op2, Box::new(l), Box::new(r))),
{
    reveal_strlit("add");
    reveal_strlit("subtract");
    reveal_strlit("times");
    reveal_strlit("divided_by");
    assert forall|op2: BinOp|
        op2 != op implies lower_expr(ExprV::BinOp(op, Box::new(l), Box::new(r)))
            != #[trigger] lower_expr(ExprV::BinOp(op2, Box::new(l), Box::new(r))) by {
        let m1 = binop_method(op);
        let m2 = binop_method(op2);
        assert(m1 != m2) by {
            if m1.len() == m2.len() {
                assert(m1[0] != m2[0]);
            }
        }
    }
}

/// Lowering turns each comparison into a call of its own method on the
/// lowered left operand, with the lowered right operand as argument: `==`
/// calls "eq", `!=` "not_eq", `<` "lt", `>` "gt", `<=` "lt_eq" and `>=`
/// "gt_eq"; two different comparisons never lower to the same method. A
/// unary minus calls "negate" on its lowered operand, with `()`.
pub proof fn law_lower_comparisons_and_negation(op: CmpOp, l: ExprV, r: ExprV)
    ensures
        lower_expr(ExprV::Compare(op, Box::new(l), Box::new(r))) == MirV::MethodCall(
            Box::new(lower_expr(l)),
            match op {
                CmpOp::Eq => "eq"@,
                CmpOp::NotEq => "not_eq"@,
                CmpOp::Lt => "lt"@,
                CmpOp::Gt => "gt"@,
                CmpOp::LtEq => "lt_eq"@,
                CmpOp::GtEq => "gt_eq"@,
            },
            Box::new(lower_expr(r)),
        ),
        forall|op2: CmpOp|
            op2 != op ==> lower_expr(ExprV::Compare(op, Box::new(l), Box::new(r)))
                != #[trigger] lower_expr(ExprV::Compare(op2, Box::new(l), Box::new(r))),
        lower_expr(ExprV::UnaryMinus(Box::new(l))) == MirV::MethodCall(Box::new(lower_expr(l)), "negate"@, Box::new(MirV::Unit)),
{
    reveal_strlit("eq");
    reveal_strlit("not_eq");
    reveal_strlit("lt");
    reveal_strlit("gt");
    reveal_strlit("lt_eq");
    reveal_strlit("gt_eq");
    assert forall|op2: CmpOp|
        op2 != op implies lower_expr(ExprV::Compare(op, Box::new(l), Box::new(r)))
            != #[trigger] lower_expr(ExprV::Compare(op2, Box::new(l), Box::new(r))) by {
        let m1 = comparison_method(op);
        let m2 = comparison_method(op2);
        assert(m1 != m2) by {
            if m1.len() == m2.len() {
                assert(m1[0] != m2[0]);
            }
        }
    }
}

} // verus!
