//! The syntax tree produced by the parser, its mathematical model, and the
//! collection of imported module names.
use vstd::prelude::*;

verus! {

pub type Expr = Box<ExprKind>;

#[derive(Debug, PartialEq)]
pub enum StringInterpPart {
    Literal(String),
    Expr(Expr),
}

#[derive(Debug, PartialEq)]
pub enum ExprKind {
    Int(i64),
    /// A float literal, kept as its decimal text (digits, point, digits).
    Float(String),
    Bool(bool),
    Str(String),
    Char(char),
    Byte(u8),
    Unit,
    /// String interpolation: "hello, {name}!"
    StringInterp(Vec<StringInterpPart>),
    Ident(String),
    /// Block / lambda: { body } — `in` refers to the block's input
    Block(Expr),
    /// Branching block: { pattern -> expr, ... }
    BranchBlock(Vec<BranchArm>),
    Array(Vec<Expr>),
    Struct(Vec<Field>),
    FieldAccess(Expr, String),
    /// Function call: f(arg), f{block}, f[array]
    Call(Expr, Expr),
    /// Method call: value.method(arg)
    MethodCall { receiver: Expr, method: String, arg: Expr },
    UnaryMinus(Expr),
    BinOp(BinOp, Expr, Expr),
    Compare(CmpOp, Expr, Expr),
    /// Pipe: lhs >> rhs
    Pipe(Expr, Expr),
    /// Bind the input to a pattern, then evaluate the body.
    Let { pattern: Pattern, body: Expr },
    /// Array destructuring: value >> let[a, b, ...rest]; body
    LetArray { patterns: Vec<ArrayPat>, body: Expr },
    /// Tag constructor: its id, and the name from `tag(Name)` sugar.
    NewTag(u64, Option<String>),
    /// Range sugar: a..b
    Range(Expr, Expr),
    Import(String),
    /// apply(ms); body
    Apply { expr: Expr, body: Expr },
    /// Grouping: `(expr)`; it stops `let x = (expr)` from nesting into the
    /// inner expression's let chain.
    Group(Expr),
}

#[derive(Debug, PartialEq)]
pub struct Field {
    pub label: Option<String>,
    pub value: Expr,
    pub is_spread: bool,
}

#[derive(Debug, Clone, Copy, PartialEq, Eq)]
pub enum BinOp {
    Add,
    Sub,
    Mul,
    Div,
}

#[derive(Debug, Clone, Copy, PartialEq, Eq)]
pub enum CmpOp {
    Eq,
    NotEq,
    Lt,
    Gt,
    LtEq,
    GtEq,
}

#[derive(Debug, PartialEq)]
pub enum Pattern {
    Name(String),
    Discard,
    Fields(Vec<PatField>),
}

#[derive(Debug, PartialEq)]
pub struct PatField {
    pub label: Option<String>,
    pub binding: String,
    pub is_rest: bool,
}

#[derive(Debug, PartialEq)]
pub enum ArrayPat {
    Name(String),
    Discard,
    Rest(Option<String>),
}

/// An arm in a branching block: { pattern -> expr, ... }
#[derive(Debug, PartialEq)]
pub struct BranchArm {
    pub pattern: BranchPattern,
    pub guard: Option<Expr>,
    pub body: Expr,
}

/// Pattern in a branching arm.
#[derive(Debug, PartialEq)]
pub enum BranchPattern {
    /// Match a literal value: true, false, 0, "hello", etc.
    Literal(Expr),
    /// Match a tag constructor: Ok(x), Err(msg)
    Tag(String, Option<BranchBinding>),
    /// Catch-all binding: x (binds the whole value)
    Binding(String),
    Discard,
}

#[derive(Debug, PartialEq)]
pub enum BranchBinding {
    Name(String),
    Discard,
}

// ── The model ───────────────────────────────────────────────────

/// The model of an expression: strings as character sequences, lists as
/// sequences.
pub enum ExprV {
    Int(i64),
    Float(Seq<char>),
    Bool(bool),
    Str(Seq<char>),
    Char(char),
    Byte(u8),
    Unit,
    StringInterp(Seq<InterpPartV>),
    Ident(Seq<char>),
    Block(Box<ExprV>),
    BranchBlock(Seq<ArmV>),
    Array(Seq<ExprV>),
    Struct(Seq<FieldV>),
    FieldAccess(Box<ExprV>, Seq<char>),
    Call(Box<ExprV>, Box<ExprV>),
    MethodCall(Box<ExprV>, Seq<char>, Box<ExprV>),
    UnaryMinus(Box<ExprV>),
    BinOp(BinOp, Box<ExprV>, Box<ExprV>),
    Compare(CmpOp, Box<ExprV>, Box<ExprV>),
    Pipe(Box<ExprV>, Box<ExprV>),
    Let(PatternV, Box<ExprV>),
    LetArray(Seq<ArrayPatV>, Box<ExprV>),
    NewTag(u64, Option<Seq<char>>),
    Range(Box<ExprV>, Box<ExprV>),
    Import(Seq<char>),
    Apply(Box<ExprV>, Box<ExprV>),
    Group(Box<ExprV>),
}

pub enum InterpPartV {
    Literal(Seq<char>),
    Expr(ExprV),
}

pub struct FieldV {
    pub label: Option<Seq<char>>,
    pub value: ExprV,
    pub is_spread: bool,
}

pub struct ArmV {
    pub pattern: BranchPatternV,
    pub guard: Option<ExprV>,
    pub body: ExprV,
}

pub enum BranchPatternV {
    Literal(ExprV),
    Tag(Seq<char>, Option<BranchBindingV>),
    Binding(Seq<char>),
    Discard,
}

pub enum BranchBindingV {
    Name(Seq<char>),
    Discard,
}

pub enum PatternV {
    Name(Seq<char>),
    Discard,
    Fields(Seq<PatFieldV>),
}

pub struct PatFieldV {
    pub label: Option<Seq<char>>,
    pub binding: Seq<char>,
    pub is_rest: bool,
}

pub enum ArrayPatV {
    Name(Seq<char>),
    Discard,
    Rest(Option<Seq<char>>),
}

pub open spec fn opt_str(o: Option<String>) -> Option<Seq<char>> {
    match o {
        Some(s) => Some(s@),
        None => None,
    }
}

pub open spec fn expr_view(e: ExprKind) -> ExprV
    decreases e,
{
    match e {
        ExprKind::Int(n) => ExprV::Int(n),
        ExprKind::Float(s) => ExprV::Float(s@),
        ExprKind::Bool(b) => ExprV::Bool(b),
        ExprKind::Str(s) => ExprV::Str(s@),
        ExprKind::Char(c) => ExprV::Char(c),
        ExprKind::Byte(b) => ExprV::Byte(b),
        ExprKind::Unit => ExprV::Unit,
        ExprKind::StringInterp(ps) => ExprV::StringInterp(interp_parts_view(ps@)),
        ExprKind::Ident(s) => ExprV::Ident(s@),
        ExprKind::Block(b) => ExprV::Block(Box::new(expr_view(*b))),
        ExprKind::BranchBlock(arms) => ExprV::BranchBlock(arms_view(arms@)),
        ExprKind::Array(es) => ExprV::Array(exprs_view(es@)),
        ExprKind::Struct(fs) => ExprV::Struct(fields_view(fs@)),
        ExprKind::FieldAccess(a, f) => ExprV::FieldAccess(Box::new(expr_view(*a)), f@),
        ExprKind::Call(f, a) => ExprV::Call(Box::new(expr_view(*f)), Box::new(expr_view(*a))),
        ExprKind::MethodCall { receiver, method, arg } => ExprV::MethodCall(
            Box::new(expr_view(*receiver)),
            method@,
            Box::new(expr_view(*arg)),
        ),
        ExprKind::UnaryMinus(a) => ExprV::UnaryMinus(Box::new(expr_view(*a))),
        ExprKind::BinOp(op, a, b) => ExprV::BinOp(op, Box::new(expr_view(*a)), Box::new(expr_view(*b))),
        ExprKind::Compare(op, a, b) => ExprV::Compare(op, Box::new(expr_view(*a)), Box::new(expr_view(*b))),
        ExprKind::Pipe(a, b) => ExprV::Pipe(Box::new(expr_view(*a)), Box::new(expr_view(*b))),
        ExprKind::Let { pattern, body } => ExprV::Let(pattern_view(pattern), Box::new(expr_view(*body))),
        ExprKind::LetArray { patterns, body } => ExprV::LetArray(
            array_pats_view(patterns@),
            Box::new(expr_view(*body)),
        ),
        ExprKind::NewTag(id, name) => ExprV::NewTag(id, opt_str(name)),
        ExprKind::Range(a, b) => ExprV::Range(Box::new(expr_view(*a)), Box::new(expr_view(*b))),
        ExprKind::Import(s) => ExprV::Import(s@),
        ExprKind::Apply { expr, body } => ExprV::Apply(Box::new(expr_view(*expr)), Box::new(expr_view(*body))),
        ExprKind::Group(a) => ExprV::Group(Box::new(expr_view(*a))),
    }
}

pub open spec fn exprs_view(es: Seq<Expr>) -> Seq<ExprV>
    decreases es,
{
    if es.len() == 0 {
        seq![]
    } else {
        exprs_view(es.drop_last()).push(expr_view(*es.last()))
    }
}

pub open spec fn interp_parts_view(ps: Seq<StringInterpPart>) -> Seq<InterpPartV>
    decreases ps,
{
    if ps.len() == 0 {
        seq![]
    } else {
        let p = ps.last();
        let pv = match p {
            StringInterpPart::Literal(s) => InterpPartV::Literal(s@),
            StringInterpPart::Expr(e) => InterpPartV::Expr(expr_view(*e)),
        };
        interp_parts_view(ps.drop_last()).push(pv)
    }
}

pub open spec fn fields_view(fs: Seq<Field>) -> Seq<FieldV>
    decreases fs,
{
    if fs.len() == 0 {
        seq![]
    } else {
        let f = fs.last();
        fields_view(fs.drop_last()).push(
            FieldV { label: opt_str(f.label), value: expr_view(*f.value), is_spread: f.is_spread },
        )
    }
}

pub open spec fn arms_view(arms: Seq<BranchArm>) -> Seq<ArmV>
    decreases arms,
{
    if arms.len() == 0 {
        seq![]
    } else {
        let a = arms.last();
        let pat = match a.pattern {
            BranchPattern::Literal(e) => BranchPatternV::Literal(expr_view(*e)),
            BranchPattern::Tag(n, b) => BranchPatternV::Tag(n@, binding_view(b)),
            BranchPattern::Binding(n) => BranchPatternV::Binding(n@),
            BranchPattern::Discard => BranchPatternV::Discard,
        };
        let guard = match a.guard {
            Some(g) => Some(expr_view(*g)),
            None => None,
        };
        arms_view(arms.drop_last()).push(ArmV { pattern: pat, guard, body: expr_view(*a.body) })
    }
}

pub open spec fn branch_pattern_view(p: BranchPattern) -> BranchPatternV {
    match p {
        BranchPattern::Literal(e) => BranchPatternV::Literal(expr_view(*e)),
        BranchPattern::Tag(n, b) => BranchPatternV::Tag(n@, binding_view(b)),
        BranchPattern::Binding(n) => BranchPatternV::Binding(n@),
        BranchPattern::Discard => BranchPatternV::Discard,
    }
}

pub open spec fn binding_view(b: Option<BranchBinding>) -> Option<BranchBindingV> {
    match b {
        Some(BranchBinding::Name(n)) => Some(BranchBindingV::Name(n@)),
        Some(BranchBinding::Discard) => Some(BranchBindingV::Discard),
        None => None,
    }
}

pub open spec fn pat_fields_view(fs: Seq<PatField>) -> Seq<PatFieldV>
    decreases fs.len(),
{
    if fs.len() == 0 {
        seq![]
    } else {
        let f = fs.last();
        pat_fields_view(fs.drop_last()).push(
            PatFieldV { label: opt_str(f.label), binding: f.binding@, is_rest: f.is_rest },
        )
    }
}

pub open spec fn pattern_view(p: Pattern) -> PatternV {
    match p {
        Pattern::Name(n) => PatternV::Name(n@),
        Pattern::Discard => PatternV::Discard,
        Pattern::Fields(fs) => PatternV::Fields(pat_fields_view(fs@)),
    }
}

pub open spec fn array_pat_view(p: ArrayPat) -> ArrayPatV {
    match p {
        ArrayPat::Name(n) => ArrayPatV::Name(n@),
        ArrayPat::Discard => ArrayPatV::Discard,
        ArrayPat::Rest(o) => ArrayPatV::Rest(opt_str(o)),
    }
}

pub open spec fn array_pats_view(ps: Seq<ArrayPat>) -> Seq<ArrayPatV>
    decreases ps.len(),
{
    if ps.len() == 0 {
        seq![]
    } else {
        array_pats_view(ps.drop_last()).push(array_pat_view(ps.last()))
    }
}

impl View for ExprKind {
    type V = ExprV;

    open spec fn view(&self) -> ExprV {
        expr_view(*self)
    }
}

impl View for Pattern {
    type V = PatternV;

    open spec fn view(&self) -> PatternV {
        pattern_view(*self)
    }
}

pub proof fn lemma_exprs_view(es: Seq<Expr>)
    ensures
        exprs_view(es).len() == es.len(),
        forall|i: int| 0 <= i < es.len() ==> #[trigger] exprs_view(es)[i] == expr_view(*es[i]),
    decreases es.len(),
{
    if es.len() > 0 {
        lemma_exprs_view(es.drop_last());
    }
}

pub proof fn lemma_fields_view(fs: Seq<Field>)
    ensures
        fields_view(fs).len() == fs.len(),
        forall|i: int| 0 <= i < fs.len() ==> (#[trigger] fields_view(fs)[i]).value == expr_view(*fs[i].value),
        forall|i: int| 0 <= i < fs.len() ==> #[trigger] fields_view(fs)[i] == field_view(fs[i]),
    decreases fs.len(),
{
    if fs.len() > 0 {
        lemma_fields_view(fs.drop_last());
    }
}

pub proof fn lemma_interp_parts_view(ps: Seq<StringInterpPart>)
    ensures
        interp_parts_view(ps).len() == ps.len(),
        forall|i: int| 0 <= i < ps.len() ==> #[trigger] interp_parts_view(ps)[i] == match ps[i] {
            StringInterpPart::Literal(s) => InterpPartV::Literal(s@),
            StringInterpPart::Expr(e) => InterpPartV::Expr(expr_view(*e)),
        },
    decreases ps.len(),
{
    if ps.len() > 0 {
        lemma_interp_parts_view(ps.drop_last());
    }
}

pub proof fn lemma_arms_view(arms: Seq<BranchArm>)
    ensures
        arms_view(arms).len() == arms.len(),
        forall|i: int| 0 <= i < arms.len() ==> (#[trigger] arms_view(arms)[i]).body == expr_view(*arms[i].body),
        forall|i: int| 0 <= i < arms.len() ==> (#[trigger] arms_view(arms)[i]).guard == match arms[i].guard {
            Some(g) => Some(expr_view(*g)),
            None => None,
        },
        forall|i: int| 0 <= i < arms.len() ==> (#[trigger] arms_view(arms)[i]).pattern == match arms[i].pattern {
            BranchPattern::Literal(e) => BranchPatternV::Literal(expr_view(*e)),
            BranchPattern::Tag(n, b) => BranchPatternV::Tag(n@, binding_view(b)),
            BranchPattern::Binding(n) => BranchPatternV::Binding(n@),
            BranchPattern::Discard => BranchPatternV::Discard,
        },
    decreases arms.len(),
{
    if arms.len() > 0 {
        lemma_arms_view(arms.drop_last());
    }
}


pub open spec fn arm_view(a: BranchArm) -> ArmV {
    ArmV {
        pattern: branch_pattern_view(a.pattern),
        guard: match a.guard {
            Some(g) => Some(expr_view(*g)),
            None => None,
        },
        body: expr_view(*a.body),
    }
}

pub open spec fn field_view(f: Field) -> FieldV {
    FieldV { label: opt_str(f.label), value: expr_view(*f.value), is_spread: f.is_spread }
}

pub open spec fn interp_part_view(p: StringInterpPart) -> InterpPartV {
    match p {
        StringInterpPart::Literal(s) => InterpPartV::Literal(s@),
        StringInterpPart::Expr(e) => InterpPartV::Expr(expr_view(*e)),
    }
}

pub proof fn lemma_exprs_view_push(es: Seq<Expr>, e: Expr)
    ensures
        exprs_view(es.push(e)) == exprs_view(es).push(expr_view(*e)),
{
    assert(es.push(e).drop_last() =~= es);
}

pub proof fn lemma_fields_view_push(fs: Seq<Field>, f: Field)
    ensures
        fields_view(fs.push(f)) == fields_view(fs).push(field_view(f)),
{
    assert(fs.push(f).drop_last() =~= fs);
}

pub proof fn lemma_arms_view_push(arms: Seq<BranchArm>, a: BranchArm)
    ensures
        arms_view(arms.push(a)) == arms_view(arms).push(arm_view(a)),
{
    assert(arms.push(a).drop_last() =~= arms);
}

pub proof fn lemma_interp_parts_view_push(ps: Seq<StringInterpPart>, p: StringInterpPart)
    ensures
        interp_parts_view(ps.push(p)) == interp_parts_view(ps).push(interp_part_view(p)),
{
    assert(ps.push(p).drop_last() =~= ps);
}

pub proof fn lemma_empty_views()
    ensures
        exprs_view(Seq::<Expr>::empty()) == Seq::<ExprV>::empty(),
        fields_view(Seq::<Field>::empty()) == Seq::<FieldV>::empty(),
        arms_view(Seq::<BranchArm>::empty()) == Seq::<ArmV>::empty(),
        interp_parts_view(Seq::<StringInterpPart>::empty()) == Seq::<InterpPartV>::empty(),
{
}

// ── Copies ──

pub fn copy_opt_str(o: &Option<String>) -> (r: Option<String>)
    ensures
        opt_str(r) == opt_str(*o),
{
    match o {
        Some(s) => Some(s.clone()),
        None => None,
    }
}

impl Clone for PatField {
    fn clone(&self) -> (r: Self)
        ensures
            opt_str(r.label) == opt_str(self.label),
            r.binding@ == self.binding@,
            r.is_rest == self.is_rest,
    {
        PatField { label: copy_opt_str(&self.label), binding: self.binding.clone(), is_rest: self.is_rest }
    }
}

impl Clone for Pattern {
    fn clone(&self) -> (r: Self)
        ensures
            pattern_view(r) == pattern_view(*self),
    {
        match self {
            Pattern::Name(n) => Pattern::Name(n.clone()),
            Pattern::Discard => Pattern::Discard,
            Pattern::Fields(fs) => {
                let mut out: Vec<PatField> = Vec::new();
                let mut i: usize = 0;
                proof {
                    lemma_pat_fields_view(fs@);
                }
                while i < fs.len()
                    invariant
                        i <= fs.len(),
                        *self == Pattern::Fields(*fs),
                        pat_fields_view(fs@).len() == fs.len(),
                        forall|k: int| 0 <= k < fs.len() ==> #[trigger] pat_fields_view(fs@)[k] == (PatFieldV {
                            label: opt_str(fs@[k].label),
                            binding: fs@[k].binding@,
                            is_rest: fs@[k].is_rest,
                        }),
                        pat_fields_view(out@) == pat_fields_view(fs@).take(i as int),
                    decreases fs.len() - i,
                {
                    let f = fs[i].clone();
                    let ghost prev = out@;
                    out.push(f);
                    proof {
                        assert(out@.drop_last() =~= prev);
                        assert(pat_fields_view(fs@).take(i + 1) =~= pat_fields_view(fs@).take(i as int).push(pat_fields_view(fs@)[i as int]));
                    }
                    i = i + 1;
                }
                proof {
                    assert(pat_fields_view(fs@).take(fs.len() as int) =~= pat_fields_view(fs@));
                }
                Pattern::Fields(out)
            },
        }
    }
}

impl Clone for ArrayPat {
    fn clone(&self) -> (r: Self)
        ensures
            array_pat_view(r) == array_pat_view(*self),
    {
        match self {
            ArrayPat::Name(n) => ArrayPat::Name(n.clone()),
            ArrayPat::Discard => ArrayPat::Discard,
            ArrayPat::Rest(o) => ArrayPat::Rest(copy_opt_str(o)),
        }
    }
}

pub fn copy_array_pats(ps: &Vec<ArrayPat>) -> (r: Vec<ArrayPat>)
    ensures
        array_pats_view(r@) == array_pats_view(ps@),
{
    let mut out: Vec<ArrayPat> = Vec::new();
    let mut i: usize = 0;
    assert(array_pats_view(out@) =~= array_pats_view(ps@.take(0))) by {
        assert(ps@.take(0) =~= Seq::<ArrayPat>::empty());
    }
    while i < ps.len()
        invariant
            i <= ps.len(),
            array_pats_view(out@) == array_pats_view(ps@.take(i as int)),
        decreases ps.len() - i,
    {
        let a = ps[i].clone();
        let ghost prev = out@;
        out.push(a);
        proof {
            assert(out@.drop_last() =~= prev);
            assert(ps@.take(i + 1).drop_last() =~= ps@.take(i as int));
        }
        i = i + 1;
    }
    assert(ps@.take(ps.len() as int) =~= ps@);
    out
}

impl Clone for BranchBinding {
    fn clone(&self) -> (r: Self)
        ensures
            binding_view(Some(r)) == binding_view(Some(*self)),
    {
        match self {
            BranchBinding::Name(n) => BranchBinding::Name(n.clone()),
            BranchBinding::Discard => BranchBinding::Discard,
        }
    }
}

pub fn copy_binding(b: &Option<BranchBinding>) -> (r: Option<BranchBinding>)
    ensures
        binding_view(r) == binding_view(*b),
{
    match b {
        Some(x) => Some(x.clone()),
        None => None,
    }
}

// ── Imports ─────────────────────────────────────────────────────

/// The names of all `import(..)` expressions, in traversal order, with
/// repetitions. In a branching block each arm contributes its guard, then
/// its body, then its literal pattern.
pub open spec fn import_names(e: ExprV) -> Seq<Seq<char>>
    decreases e,
{
    match e {
        ExprV::Import(n) => seq![n],
        ExprV::Block(b) => import_names(*b),
        ExprV::BranchBlock(arms) => arms_import_names(arms),
        ExprV::Array(es) => exprs_import_names(es),
        ExprV::Struct(fs) => fields_import_names(fs),
        ExprV::StringInterp(ps) => parts_import_names(ps),
        ExprV::FieldAccess(a, _) => import_names(*a),
        ExprV::Call(f, a) => import_names(*f) + import_names(*a),
        ExprV::MethodCall(r, _, a) => import_names(*r) + import_names(*a),
        ExprV::UnaryMinus(a) => import_names(*a),
        ExprV::BinOp(_, a, b) => import_names(*a) + import_names(*b),
        ExprV::Compare(_, a, b) => import_names(*a) + import_names(*b),
        ExprV::Pipe(a, b) => import_names(*a) + import_names(*b),
        ExprV::Let(_, b) => import_names(*b),
        ExprV::LetArray(_, b) => import_names(*b),
        ExprV::Apply(a, b) => import_names(*a) + import_names(*b),
        ExprV::Range(a, b) => import_names(*a) + import_names(*b),
        ExprV::Group(a) => import_names(*a),
        _ => seq![],
    }
}

pub open spec fn exprs_import_names(es: Seq<ExprV>) -> Seq<Seq<char>>
    decreases es,
{
    if es.len() == 0 {
        seq![]
    } else {
        exprs_import_names(es.drop_last()) + import_names(es.last())
    }
}

pub open spec fn fields_import_names(fs: Seq<FieldV>) -> Seq<Seq<char>>
    decreases fs,
{
    if fs.len() == 0 {
        seq![]
    } else {
        fields_import_names(fs.drop_last()) + import_names(fs.last().value)
    }
}

pub open spec fn parts_import_names(ps: Seq<InterpPartV>) -> Seq<Seq<char>>
    decreases ps,
{
    if ps.len() == 0 {
        seq![]
    } else {
        let last = match ps.last() {
            InterpPartV::Expr(e) => import_names(e),
            InterpPartV::Literal(_) => seq![],
        };
        parts_import_names(ps.drop_last()) + last
    }
}

pub open spec fn arms_import_names(arms: Seq<ArmV>) -> Seq<Seq<char>>
    decreases arms,
{
    if arms.len() == 0 {
        seq![]
    } else {
        let a = arms.last();
        let g = match a.guard {
            Some(g) => import_names(g),
            None => seq![],
        };
        let l = match a.pattern {
            BranchPatternV::Literal(lit) => import_names(lit),
            _ => seq![],
        };
        arms_import_names(arms.drop_last()) + g + import_names(a.body) + l
    }
}

/// `acc` with `x` appended, unless it already holds `x`.
pub open spec fn add_unique(acc: Seq<Seq<char>>, x: Seq<char>) -> Seq<Seq<char>> {
    if acc.contains(x) {
        acc
    } else {
        acc.push(x)
    }
}

/// `acc` followed by the elements of `s` that are neither in `acc` nor
/// earlier in `s`, in order of first occurrence.
pub open spec fn dedup_into(acc: Seq<Seq<char>>, s: Seq<Seq<char>>) -> Seq<Seq<char>>
    decreases s.len(),
{
    if s.len() == 0 {
        acc
    } else {
        dedup_into(add_unique(acc, s[0]), s.drop_first())
    }
}

/// The distinct elements of `s` in order of first occurrence.
pub open spec fn dedup(s: Seq<Seq<char>>) -> Seq<Seq<char>> {
    dedup_into(seq![], s)
}

pub open spec fn strs_view(v: Seq<String>) -> Seq<Seq<char>> {
    v.map_values(|s: String| s@)
}

pub proof fn lemma_dedup_concat(acc: Seq<Seq<char>>, a: Seq<Seq<char>>, b: Seq<Seq<char>>)
    ensures
        dedup_into(acc, a + b) == dedup_into(dedup_into(acc, a), b),
    decreases a.len(),
{
    if a.len() == 0 {
        assert(a + b =~= b);
    } else {
        assert((a + b)[0] == a[0]);
        assert((a + b).drop_first() =~= a.drop_first() + b);
        lemma_dedup_concat(add_unique(acc, a[0]), a.drop_first(), b);
    }
}

pub proof fn lemma_dedup_single(acc: Seq<Seq<char>>, x: Seq<char>)
    ensures
        dedup_into(acc, seq![x]) == add_unique(acc, x),
{
    let s = seq![x];
    assert(s[0] == x);
    assert(s.drop_first() =~= Seq::<Seq<char>>::empty());
    assert(dedup_into(add_unique(acc, x), s.drop_first()) == add_unique(acc, x));
}

fn push_unique(names: &mut Vec<String>, name: &String)
    ensures
        strs_view(final(names)@) == add_unique(strs_view(old(names)@), name@),
{
    let mut i: usize = 0;
    let ghost v = strs_view(names@);
    while i < names.len()
        invariant
            i <= names.len(),
            names@ == old(names)@,
            v == strs_view(names@),
            forall|k: int| 0 <= k < i ==> v[k] != name@,
        decreases names.len() - i,
    {
        if names[i] == *name {
            proof {
                assert(v[i as int] == name@);
                assert(v.contains(name@));
            }
            return;
        }
        i = i + 1;
    }
    proof {
        assert(!v.contains(name@));
    }
    names.push(name.clone());
    assert(strs_view(names@) =~= v.push(name@));
}

fn collect_imports_inner(expr: &Expr, names: &mut Vec<String>)
    ensures
        strs_view(final(names)@) == dedup_into(strs_view(old(names)@), import_names(expr_view(**expr))),
    decreases expr,
{
    let ghost before = strs_view(names@);
    match &**expr {
        ExprKind::Import(name) => {
            push_unique(names, name);
            proof {
                lemma_dedup_single(before, name@);
            }
        },
        ExprKind::Block(body) => collect_imports_inner(body, names),
        ExprKind::BranchBlock(arms) => {
            let mut i: usize = 0;
            proof {
                lemma_arms_view(arms@);
                assert(arms_view(arms@).take(0) =~= Seq::<ArmV>::empty());
            }
            while i < arms.len()
                invariant
                    i <= arms.len(),
                    **expr == ExprKind::BranchBlock(*arms),
                    arms_view(arms@).len() == arms.len(),
                    forall|k: int| 0 <= k < arms.len() ==> (#[trigger] arms_view(arms@)[k]).body == expr_view(*arms@[k].body),
                    forall|k: int| 0 <= k < arms.len() ==> (#[trigger] arms_view(arms@)[k]).guard == match arms@[k].guard {
                        Some(g) => Some(expr_view(*g)),
                        None => None,
                    },
                    forall|k: int| 0 <= k < arms.len() ==> (#[trigger] arms_view(arms@)[k]).pattern == match arms@[k].pattern {
                        BranchPattern::Literal(e) => BranchPatternV::Literal(expr_view(*e)),
                        BranchPattern::Tag(n, b) => BranchPatternV::Tag(n@, binding_view(b)),
                        BranchPattern::Binding(n) => BranchPatternV::Binding(n@),
                        BranchPattern::Discard => BranchPatternV::Discard,
                    },
                    strs_view(names@) == dedup_into(before, arms_import_names(arms_view(arms@).take(i as int))),
                decreases arms.len() - i,
            {
                let arm = &arms[i];
                let ghost av = arms_view(arms@)[i as int];
                let ghost s0 = strs_view(names@);
                proof {
                    assert(decreases_to!(**expr => (**expr)->BranchBlock_0));
                    assert(decreases_to!(*arms => arms@));
                    assert(decreases_to!(arms@ => arms@[i as int]));
                    assert(decreases_to!(arms@[i as int] => arms@[i as int].body));
                    assert(decreases_to!(arms@[i as int] => arms@[i as int].guard));
                    assert(decreases_to!(arms@[i as int] => arms@[i as int].pattern));
                }
                let ghost g_names: Seq<Seq<char>> = match av.guard {
                    Some(g) => import_names(g),
                    None => seq![],
                };
                match &arm.guard {
                    Some(guard) => {
                        proof {
                            assert(decreases_to!(arms@[i as int].guard => arms@[i as int].guard->Some_0));
                        }
                        collect_imports_inner(guard, names);
                    },
                    None => {
                        assert(dedup_into(s0, g_names) == s0);
                    },
                }
                let ghost s1 = strs_view(names@);
                collect_imports_inner(&arm.body, names);
                let ghost s2 = strs_view(names@);
                let ghost l_names: Seq<Seq<char>> = match av.pattern {
                    BranchPatternV::Literal(lit) => import_names(lit),
                    _ => seq![],
                };
                match &arm.pattern {
                    BranchPattern::Literal(lit) => {
                        proof {
                            assert(decreases_to!(arms@[i as int].pattern => arms@[i as int].pattern->Literal_0));
                        }
                        collect_imports_inner(lit, names);
                    },
                    _ => {
                        assert(dedup_into(s2, l_names) == s2);
                    },
                }
                proof {
                    let prev = arms_view(arms@).take(i as int);
                    let next = arms_view(arms@).take(i + 1);
                    assert(next.drop_last() =~= prev);
                    assert(next.last() == av);
                    lemma_dedup_concat(before, arms_import_names(prev), g_names);
                    lemma_dedup_concat(before, arms_import_names(prev) + g_names, import_names(av.body));
                    lemma_dedup_concat(before, arms_import_names(prev) + g_names + import_names(av.body), l_names);
                }
                i = i + 1;
            }
            proof {
                assert(arms_view(arms@).take(arms.len() as int) =~= arms_view(arms@));
            }
        },
        ExprKind::Array(elems) => {
            let mut i: usize = 0;
            proof {
                lemma_exprs_view(elems@);
                assert(exprs_view(elems@).take(0) =~= Seq::<ExprV>::empty());
            }
            while i < elems.len()
                invariant
                    i <= elems.len(),
                    **expr == ExprKind::Array(*elems),
                    exprs_view(elems@).len() == elems.len(),
                    forall|k: int| 0 <= k < elems.len() ==> #[trigger] exprs_view(elems@)[k] == expr_view(*elems@[k]),
                    strs_view(names@) == dedup_into(before, exprs_import_names(exprs_view(elems@).take(i as int))),
                decreases elems.len() - i,
            {
                proof {
                    assert(decreases_to!(**expr => (**expr)->Array_0));
                    assert(decreases_to!(*elems => elems@));
                    assert(decreases_to!(elems@ => elems@[i as int]));
                    let prev = exprs_view(elems@).take(i as int);
                    let next = exprs_view(elems@).take(i + 1);
                    assert(next.drop_last() =~= prev);
                    lemma_dedup_concat(before, exprs_import_names(prev), import_names(expr_view(*elems@[i as int])));
                }
                collect_imports_inner(&elems[i], names);
                i = i + 1;
            }
            proof {
                assert(exprs_view(elems@).take(elems.len() as int) =~= exprs_view(elems@));
            }
        },
        ExprKind::Struct(fields) => {
            let mut i: usize = 0;
            proof {
                lemma_fields_view(fields@);
                assert(fields_view(fields@).take(0) =~= Seq::<FieldV>::empty());
            }
            while i < fields.len()
                invariant
                    i <= fields.len(),
                    **expr == ExprKind::Struct(*fields),
                    fields_view(fields@).len() == fields.len(),
                    forall|k: int| 0 <= k < fields.len() ==> (#[trigger] fields_view(fields@)[k]).value == expr_view(*fields@[k].value),
                    strs_view(names@) == dedup_into(before, fields_import_names(fields_view(fields@).take(i as int))),
                decreases fields.len() - i,
            {
                proof {
                    assert(decreases_to!(**expr => (**expr)->Struct_0));
                    assert(decreases_to!(*fields => fields@));
                    assert(decreases_to!(fields@ => fields@[i as int]));
                    assert(decreases_to!(fields@[i as int] => fields@[i as int].value));
                    let prev = fields_view(fields@).take(i as int);
                    let next = fields_view(fields@).take(i + 1);
                    assert(next.drop_last() =~= prev);
                    lemma_dedup_concat(before, fields_import_names(prev), import_names(expr_view(*fields@[i as int].value)));
                }
                collect_imports_inner(&fields[i].value, names);
                i = i + 1;
            }
            proof {
                assert(fields_view(fields@).take(fields.len() as int) =~= fields_view(fields@));
            }
        },
        ExprKind::StringInterp(parts) => {
            let mut i: usize = 0;
            proof {
                lemma_interp_parts_view(parts@);
                assert(interp_parts_view(parts@).take(0) =~= Seq::<InterpPartV>::empty());
            }
            while i < parts.len()
                invariant
                    i <= parts.len(),
                    **expr == ExprKind::StringInterp(*parts),
                    interp_parts_view(parts@).len() == parts.len(),
                    forall|k: int| 0 <= k < parts.len() ==> #[trigger] interp_parts_view(parts@)[k] == match parts@[k] {
                        StringInterpPart::Literal(s) => InterpPartV::Literal(s@),
                        StringInterpPart::Expr(e) => InterpPartV::Expr(expr_view(*e)),
                    },
                    strs_view(names@) == dedup_into(before, parts_import_names(interp_parts_view(parts@).take(i as int))),
                decreases parts.len() - i,
            {
                let ghost s0 = strs_view(names@);
                let ghost pv = interp_parts_view(parts@)[i as int];
                let ghost last: Seq<Seq<char>> = match pv {
                    InterpPartV::Expr(e) => import_names(e),
                    InterpPartV::Literal(_) => seq![],
                };
                proof {
                    let prev = interp_parts_view(parts@).take(i as int);
                    let next = interp_parts_view(parts@).take(i + 1);
                    assert(next.drop_last() =~= prev);
                    lemma_dedup_concat(before, parts_import_names(prev), last);
                    assert(decreases_to!(**expr => (**expr)->StringInterp_0));
                    assert(decreases_to!(*parts => parts@));
                    assert(decreases_to!(parts@ => parts@[i as int]));
                }
                match &parts[i] {
                    StringInterpPart::Expr(e) => {
                        proof {
                            assert(decreases_to!(parts@[i as int] => parts@[i as int]->Expr_0));
                        }
                        collect_imports_inner(e, names);
                    },
                    StringInterpPart::Literal(_) => {
                        assert(dedup_into(s0, last) == s0);
                    },
                }
                i = i + 1;
            }
            proof {
                assert(interp_parts_view(parts@).take(parts.len() as int) =~= interp_parts_view(parts@));
            }
        },
        ExprKind::FieldAccess(e, _) => collect_imports_inner(e, names),
        ExprKind::Call(func, arg) => {
            collect_imports_inner(func, names);
            collect_imports_inner(arg, names);
            proof {
                lemma_dedup_concat(before, import_names(expr_view(**func)), import_names(expr_view(**arg)));
            }
        },
        ExprKind::MethodCall { receiver, arg, .. } => {
            collect_imports_inner(receiver, names);
            collect_imports_inner(arg, names);
            proof {
                lemma_dedup_concat(before, import_names(expr_view(**receiver)), import_names(expr_view(**arg)));
            }
        },
        ExprKind::UnaryMinus(e) => collect_imports_inner(e, names),
        ExprKind::BinOp(_, lhs, rhs) => {
            collect_imports_inner(lhs, names);
            collect_imports_inner(rhs, names);
            proof {
                lemma_dedup_concat(before, import_names(expr_view(**lhs)), import_names(expr_view(**rhs)));
            }
        },
        ExprKind::Compare(_, lhs, rhs) => {
            collect_imports_inner(lhs, names);
            collect_imports_inner(rhs, names);
            proof {
                lemma_dedup_concat(before, import_names(expr_view(**lhs)), import_names(expr_view(**rhs)));
            }
        },
        ExprKind::Pipe(lhs, rhs) => {
            collect_imports_inner(lhs, names);
            collect_imports_inner(rhs, names);
            proof {
                lemma_dedup_concat(before, import_names(expr_view(**lhs)), import_names(expr_view(**rhs)));
            }
        },
        ExprKind::Let { body, .. } => collect_imports_inner(body, names),
        ExprKind::LetArray { body, .. } => collect_imports_inner(body, names),
        ExprKind::Apply { expr: e, body } => {
            collect_imports_inner(e, names);
            collect_imports_inner(body, names);
            proof {
                lemma_dedup_concat(before, import_names(expr_view(**e)), import_names(expr_view(**body)));
            }
        },
        ExprKind::Range(start, end) => {
            collect_imports_inner(start, names);
            collect_imports_inner(end, names);
            proof {
                lemma_dedup_concat(before, import_names(expr_view(**start)), import_names(expr_view(**end)));
            }
        },
        ExprKind::Group(inner) => collect_imports_inner(inner, names),
        _ => {},
    }
}

/// Collect all module names referenced by `import(name)` in an AST.
/// Returns a deduplicated list in first-occurrence order.
pub fn collect_imports(expr: &Expr) -> (r: Vec<String>)
    ensures
        strs_view(r@) == dedup(import_names(expr_view(**expr))),
{
    let mut names: Vec<String> = Vec::new();
    assert(strs_view(names@) =~= Seq::<Seq<char>>::empty());
    collect_imports_inner(expr, &mut names);
    names
}


pub open spec fn no_repeats(s: Seq<Seq<char>>) -> bool {
    forall|i: int, j: int| 0 <= i < j < s.len() ==> s[i] != s[j]
}

pub proof fn lemma_dedup_into(acc: Seq<Seq<char>>, s: Seq<Seq<char>>)
    requires
        no_repeats(acc),
    ensures
        no_repeats(dedup_into(acc, s)),
        forall|x: Seq<char>| #[trigger] dedup_into(acc, s).contains(x) <==> (acc.contains(x) || s.contains(x)),
        dedup_into(acc, s).take(acc.len() as int) == acc,
        dedup_into(acc, s).len() >= acc.len(),
    decreases s.len(),
{
    if s.len() > 0 {
        let a1 = add_unique(acc, s[0]);
        if !acc.contains(s[0]) {
            assert forall|i: int, j: int| 0 <= i < j < a1.len() implies a1[i] != a1[j] by {
                if j == acc.len() {
                    assert(acc[i] == a1[i]);
                }
            }
        }
        lemma_dedup_into(a1, s.drop_first());
        assert forall|x: Seq<char>| #[trigger] s.contains(x) <==> (x == s[0] || s.drop_first().contains(x)) by {
            if s.contains(x) && x != s[0] {
                let k = choose|k: int| 0 <= k < s.len() && s[k] == x;
                assert(s.drop_first()[k - 1] == x);
            }
            if s.drop_first().contains(x) {
                let k = choose|k: int| 0 <= k < s.drop_first().len() && s.drop_first()[k] == x;
                assert(s[k + 1] == x);
            }
            if x == s[0] {
                assert(s.contains(s[0]));
            }
        }
        assert forall|x: Seq<char>| #[trigger] a1.contains(x) <==> (acc.contains(x) || x == s[0]) by {
            if !acc.contains(s[0]) {
                if a1.contains(x) && x != s[0] {
                    let k = choose|k: int| 0 <= k < a1.len() && a1[k] == x;
                    assert(acc[k] == x);
                }
                if acc.contains(x) {
                    let k = choose|k: int| 0 <= k < acc.len() && acc[k] == x;
                    assert(a1[k] == x);
                }
                assert(a1[acc.len() as int] == s[0]);
            }
        }
        assert(a1.take(acc.len() as int) =~= acc);
        let r = dedup_into(acc, s);
        assert(r.take(acc.len() as int) =~= r.take(a1.len() as int).take(acc.len() as int));
    } else {
        assert(acc.take(acc.len() as int) =~= acc);
    }
}

/// The module names that `collect_imports` reports are all different, are
/// exactly the names of the `import(..)` expressions in the tree, and come in
/// the order in which each is first met.
pub proof fn law_collect_imports_distinct_complete(e: ExprV)
    ensures
        no_repeats(dedup(import_names(e))),
        forall|x: Seq<char>| #[trigger] dedup(import_names(e)).contains(x) <==> import_names(e).contains(x),
        forall|i: int| 0 <= i < dedup(import_names(e)).len() ==> exists|j: int| 0 <= j < import_names(e).len()
            && import_names(e)[j] == #[trigger] dedup(import_names(e))[i]
            && forall|k: int| 0 <= k < j ==> import_names(e)[k] != dedup(import_names(e))[i],
{
    lemma_dedup_into(seq![], import_names(e));
    lemma_dedup_first_occurrence(seq![], import_names(e));
}

/// The position of the first occurrence of `x` in `s` (the length of `s`
/// where `x` does not occur).
pub open spec fn first_index(s: Seq<Seq<char>>, x: Seq<char>) -> nat
    decreases s.len(),
{
    if s.len() == 0 {
        0
    } else if s[0] == x {
        0
    } else {
        1 + first_index(s.drop_first(), x)
    }
}

/// What `dedup_into` adds after `acc` comes in the order of first
/// occurrence in `s`.
proof fn lemma_dedup_order(acc: Seq<Seq<char>>, s: Seq<Seq<char>>)
    requires
        no_repeats(acc),
    ensures
        forall|i1: int, i2: int|
            acc.len() <= i1 < i2 < dedup_into(acc, s).len() ==> first_index(s, #[trigger] dedup_into(acc, s)[i1])
                < first_index(s, #[trigger] dedup_into(acc, s)[i2]),
    decreases s.len(),
{
    if s.len() > 0 {
        let s0 = s[0];
        let a1 = add_unique(acc, s0);
        let rest = s.drop_first();
        let r = dedup_into(acc, s);
        if !acc.contains(s0) {
            assert forall|i: int, j: int| 0 <= i < j < a1.len() implies a1[i] != a1[j] by {
                if j == acc.len() {
                    assert(acc[i] == a1[i]);
                }
            }
        }
        lemma_dedup_into(acc, s);
        lemma_dedup_into(a1, rest);
        lemma_dedup_order(a1, rest);
        assert(r == dedup_into(a1, rest));
        assert(a1.contains(s0)) by {
            if acc.contains(s0) {
            } else {
                assert(a1[acc.len() as int] == s0);
            }
        }
        assert forall|i: int| a1.len() <= i < r.len() implies #[trigger] r[i] != s0 by {
            let k = choose|k: int| 0 <= k < a1.len() && a1[k] == s0;
            assert(r.take(a1.len() as int)[k] == r[k]);
            assert(r[k] == s0);
        }
        assert forall|i1: int, i2: int| acc.len() <= i1 < i2 < r.len() implies first_index(s, #[trigger] r[i1])
            < first_index(s, #[trigger] r[i2]) by {
            assert(r[i2] != s0);
            if i1 >= a1.len() {
                assert(r[i1] != s0);
            } else {
                assert(r.take(a1.len() as int)[i1] == r[i1]);
                assert(r[i1] == s0);
            }
        }
    }
}

/// Whether `c` is an immediate sub-expression of `e`: an operand, a
/// receiver, an argument, a body, an element, a field value, an
/// interpolated expression, or a guard, body or literal pattern of an arm.
pub open spec fn is_child(e: ExprV, c: ExprV) -> bool {
    match e {
        ExprV::Block(b) => c == *b,
        ExprV::BranchBlock(arms) => exists|i: int|
            0 <= i < arms.len() && (arms[i].body == c || arms[i].guard == Some(c)
                || arms[i].pattern == BranchPatternV::Literal(c)),
        ExprV::Array(es) => es.contains(c),
        ExprV::Struct(fs) => exists|i: int| 0 <= i < fs.len() && fs[i].value == c,
        ExprV::StringInterp(ps) => ps.contains(InterpPartV::Expr(c)),
        ExprV::FieldAccess(a, _) => c == *a,
        ExprV::Call(a, b) => c == *a || c == *b,
        ExprV::MethodCall(a, _, b) => c == *a || c == *b,
        ExprV::UnaryMinus(a) => c == *a,
        ExprV::BinOp(_, a, b) => c == *a || c == *b,
        ExprV::Compare(_, a, b) => c == *a || c == *b,
        ExprV::Pipe(a, b) => c == *a || c == *b,
        ExprV::Let(_, a) => c == *a,
        ExprV::LetArray(_, a) => c == *a,
        ExprV::Range(a, b) => c == *a || c == *b,
        ExprV::Apply(a, b) => c == *a || c == *b,
        ExprV::Group(a) => c == *a,
        _ => false,
    }
}

proof fn lemma_exprs_import_names(es: Seq<ExprV>, i: int)
    requires
        0 <= i < es.len(),
    ensures
        forall|n: Seq<char>| import_names(es[i]).contains(n) ==> #[trigger] exprs_import_names(es).contains(n),
    decreases es.len(),
{
    if i == es.len() - 1 {
        assert forall|n: Seq<char>| import_names(es[i]).contains(n) implies #[trigger] exprs_import_names(es).contains(n) by {
            let k = choose|k: int| 0 <= k < import_names(es[i]).len() && import_names(es[i])[k] == n;
            assert((exprs_import_names(es.drop_last()) + import_names(es.last()))[exprs_import_names(es.drop_last()).len() + k] == n);
        }
    } else {
        lemma_exprs_import_names(es.drop_last(), i);
        assert(es.drop_last()[i] == es[i]);
        assert forall|n: Seq<char>| import_names(es[i]).contains(n) implies #[trigger] exprs_import_names(es).contains(n) by {
            let a = exprs_import_names(es.drop_last());
            assert(a.contains(n));
            let k = choose|k: int| 0 <= k < a.len() && a[k] == n;
            assert((a + import_names(es.last()))[k] == n);
        }
    }
}

proof fn lemma_fields_import_names(fs: Seq<FieldV>, i: int)
    requires
        0 <= i < fs.len(),
    ensures
        forall|n: Seq<char>| import_names(fs[i].value).contains(n) ==> #[trigger] fields_import_names(fs).contains(n),
    decreases fs.len(),
{
    if i == fs.len() - 1 {
        assert forall|n: Seq<char>| import_names(fs[i].value).contains(n) implies #[trigger] fields_import_names(fs).contains(n) by {
            let b = import_names(fs.last().value);
            let k = choose|k: int| 0 <= k < b.len() && b[k] == n;
            assert((fields_import_names(fs.drop_last()) + b)[fields_import_names(fs.drop_last()).len() + k] == n);
        }
    } else {
        lemma_fields_import_names(fs.drop_last(), i);
        assert(fs.drop_last()[i] == fs[i]);
        assert forall|n: Seq<char>| import_names(fs[i].value).contains(n) implies #[trigger] fields_import_names(fs).contains(n) by {
            let a = fields_import_names(fs.drop_last());
            assert(a.contains(n));
            let k = choose|k: int| 0 <= k < a.len() && a[k] == n;
            assert((a + import_names(fs.last().value))[k] == n);
        }
    }
}

proof fn lemma_parts_import_names(ps: Seq<InterpPartV>, i: int, c: ExprV)
    requires
        0 <= i < ps.len(),
        ps[i] == InterpPartV::Expr(c),
    ensures
        forall|n: Seq<char>| import_names(c).contains(n) ==> #[trigger] parts_import_names(ps).contains(n),
    decreases ps.len(),
{
    if i == ps.len() - 1 {
        assert forall|n: Seq<char>| import_names(c).contains(n) implies #[trigger] parts_import_names(ps).contains(n) by {
            let b = import_names(c);
            let k = choose|k: int| 0 <= k < b.len() && b[k] == n;
            assert((parts_import_names(ps.drop_last()) + b)[parts_import_names(ps.drop_last()).len() + k] == n);
        }
    } else {
        lemma_parts_import_names(ps.drop_last(), i, c);
        assert(ps.drop_last()[i] == ps[i]);
        assert forall|n: Seq<char>| import_names(c).contains(n) implies #[trigger] parts_import_names(ps).contains(n) by {
            let a = parts_import_names(ps.drop_last());
            assert(a.contains(n));
            let k = choose|k: int| 0 <= k < a.len() && a[k] == n;
            let last = match ps.last() {
                InterpPartV::Expr(e) => import_names(e),
                InterpPartV::Literal(_) => seq![],
            };
            assert((a + last)[k] == n);
        }
    }
}

proof fn lemma_arms_import_names(arms: Seq<ArmV>, i: int, c: ExprV)
    requires
        0 <= i < arms.len(),
        arms[i].body == c || arms[i].guard == Some(c) || arms[i].pattern == BranchPatternV::Literal(c),
    ensures
        forall|n: Seq<char>| import_names(c).contains(n) ==> #[trigger] arms_import_names(arms).contains(n),
    decreases arms.len(),
{
    let a = arms.last();
    let g = match a.guard {
        Some(g) => import_names(g),
        None => seq![],
    };
    let l = match a.pattern {
        BranchPatternV::Literal(lit) => import_names(lit),
        _ => seq![],
    };
    let prev = arms_import_names(arms.drop_last());
    let b = import_names(a.body);
    assert(arms_import_names(arms) == prev + g + b + l);
    if i == arms.len() - 1 {
        assert forall|n: Seq<char>| import_names(c).contains(n) implies #[trigger] arms_import_names(arms).contains(n) by {
            let ic = import_names(c);
            let k = choose|k: int| 0 <= k < ic.len() && ic[k] == n;
            if a.body == c {
                assert((prev + g + b + l)[prev.len() + g.len() + k] == n);
            } else if a.guard == Some(c) {
                assert((prev + g + b + l)[prev.len() + k] == n);
            } else {
                assert((prev + g + b + l)[prev.len() + g.len() + b.len() + k] == n);
            }
        }
    } else {
        lemma_arms_import_names(arms.drop_last(), i, c);
        assert(arms.drop_last()[i] == arms[i]);
        assert forall|n: Seq<char>| import_names(c).contains(n) implies #[trigger] arms_import_names(arms).contains(n) by {
            assert(prev.contains(n));
            let k = choose|k: int| 0 <= k < prev.len() && prev[k] == n;
            assert((prev + g + b + l)[k] == n);
        }
    }
}

proof fn lemma_concat_contains(a: Seq<Seq<char>>, b: Seq<Seq<char>>, n: Seq<char>)
    ensures
        a.contains(n) ==> (a + b).contains(n),
        b.contains(n) ==> (a + b).contains(n),
{
    if a.contains(n) {
        let k = choose|k: int| 0 <= k < a.len() && a[k] == n;
        assert((a + b)[k] == n);
    }
    if b.contains(n) {
        let k = choose|k: int| 0 <= k < b.len() && b[k] == n;
        assert((a + b)[a.len() + k] == n);
    }
}

/// Every import is found, wherever it stands: `collect_imports` reports the
/// module of an `import(..)` expression, and every module it reports for a
/// sub-expression it also reports for the expression around it. So the
/// module of each `import(..)` anywhere in the tree is reported.
pub proof fn law_collect_imports_finds_every_import(e: ExprV, c: ExprV, n: Seq<char>)
    ensures
        e == ExprV::Import(n) ==> dedup(import_names(e)).contains(n),
        is_child(e, c) && dedup(import_names(c)).contains(n) ==> dedup(import_names(e)).contains(n),
{
    lemma_dedup_into(seq![], import_names(e));
    lemma_dedup_into(seq![], import_names(c));
    if e == ExprV::Import(n) {
        assert(import_names(e)[0] == n);
    }
    if is_child(e, c) && import_names(c).contains(n) {
        match e {
            ExprV::BranchBlock(arms) => {
                let i = choose|i: int|
                    0 <= i < arms.len() && (arms[i].body == c || arms[i].guard == Some(c)
                        || arms[i].pattern == BranchPatternV::Literal(c));
                lemma_arms_import_names(arms, i, c);
                assert(arms_import_names(arms).contains(n));
            },
            ExprV::Array(es) => {
                let i = choose|i: int| 0 <= i < es.len() && es[i] == c;
                lemma_exprs_import_names(es, i);
                assert(exprs_import_names(es).contains(n));
            },
            ExprV::Struct(fs) => {
                let i = choose|i: int| 0 <= i < fs.len() && fs[i].value == c;
                lemma_fields_import_names(fs, i);
                assert(fields_import_names(fs).contains(n));
            },
            ExprV::StringInterp(ps) => {
                let i = choose|i: int| 0 <= i < ps.len() && ps[i] == InterpPartV::Expr(c);
                lemma_parts_import_names(ps, i, c);
                assert(parts_import_names(ps).contains(n));
            },
            ExprV::Call(a, b) => { lemma_concat_contains(import_names(*a), import_names(*b), n); },
            ExprV::MethodCall(a, _, b) => { lemma_concat_contains(import_names(*a), import_names(*b), n); },
            ExprV::BinOp(_, a, b) => { lemma_concat_contains(import_names(*a), import_names(*b), n); },
            ExprV::Compare(_, a, b) => { lemma_concat_contains(import_names(*a), import_names(*b), n); },
            ExprV::Pipe(a, b) => { lemma_concat_contains(import_names(*a), import_names(*b), n); },
            ExprV::Range(a, b) => { lemma_concat_contains(import_names(*a), import_names(*b), n); },
            ExprV::Apply(a, b) => { lemma_concat_contains(import_names(*a), import_names(*b), n); },
            ExprV::Block(b) => { assert(import_names(e) == import_names(*b)); },
            ExprV::FieldAccess(a, _) => { assert(import_names(e) == import_names(*a)); },
            ExprV::UnaryMinus(a) => { assert(import_names(e) == import_names(*a)); },
            ExprV::Let(_, a) => { assert(import_names(e) == import_names(*a)); },
            ExprV::LetArray(_, a) => { assert(import_names(e) == import_names(*a)); },
            ExprV::Group(a) => { assert(import_names(e) == import_names(*a)); },
            _ => {},
        }
        assert(import_names(e).contains(n));
    }
}

/// Of two module names that `collect_imports` reports, the earlier one is
/// first met earlier in the tree.
pub proof fn law_collect_imports_first_occurrence_order(e: ExprV)
    ensures
        forall|i1: int, i2: int|
            0 <= i1 < i2 < dedup(import_names(e)).len() ==> first_index(import_names(e), #[trigger] dedup(import_names(e))[i1])
                < first_index(import_names(e), #[trigger] dedup(import_names(e))[i2]),
{
    lemma_dedup_order(seq![], import_names(e));
}

/// Each element that `dedup_into` adds after `acc` is met in `s` before any
/// other occurrence.
pub proof fn lemma_dedup_first_occurrence(acc: Seq<Seq<char>>, s: Seq<Seq<char>>)
    requires
        no_repeats(acc),
    ensures
        forall|i: int| acc.len() <= i < dedup_into(acc, s).len() ==> exists|j: int| 0 <= j < s.len()
            && s[j] == #[trigger] dedup_into(acc, s)[i]
            && forall|k: int| 0 <= k < j ==> s[k] != dedup_into(acc, s)[i],
    decreases s.len(),
{
    if s.len() > 0 {
        let a1 = add_unique(acc, s[0]);
        let r = dedup_into(acc, s);
        let rest = s.drop_first();
        lemma_dedup_into(acc, s);
        if !acc.contains(s[0]) {
            assert forall|i: int, j: int| 0 <= i < j < a1.len() implies a1[i] != a1[j] by {
                if j == acc.len() {
                    assert(acc[i] == a1[i]);
                }
            }
        }
        lemma_dedup_into(a1, rest);
        lemma_dedup_first_occurrence(a1, rest);
        assert forall|i: int| acc.len() <= i < r.len() implies exists|j: int| 0 <= j < s.len()
            && s[j] == #[trigger] r[i]
            && forall|k: int| 0 <= k < j ==> s[k] != r[i] by {
            if i < a1.len() {
                assert(r.take(a1.len() as int)[i] == a1[i]);
                assert(a1[i] == s[0]);
                assert(s[0] == r[i]);
            } else {
                let j = choose|j: int| 0 <= j < rest.len() && rest[j] == r[i]
                    && forall|k: int| 0 <= k < j ==> rest[k] != r[i];
                assert(s[j + 1] == r[i]);
                assert(r[i] != s[0]) by {
                    assert(a1.contains(s[0])) by {
                        if acc.contains(s[0]) {
                            let k0 = choose|k0: int| 0 <= k0 < acc.len() && acc[k0] == s[0];
                            assert(a1[k0] == s[0]);
                        } else {
                            assert(a1[acc.len() as int] == s[0]);
                        }
                    }
                    let k1 = choose|k1: int| 0 <= k1 < a1.len() && a1[k1] == s[0];
                    assert(r.take(a1.len() as int)[k1] == a1[k1]);
                    assert(r[k1] == s[0]);
                }
                assert forall|k: int| 0 <= k < j + 1 implies s[k] != r[i] by {
                    if k > 0 {
                        assert(s[k] == rest[k - 1]);
                    }
                }
            }
        }
    }
}


pub proof fn lemma_pat_fields_view(fs: Seq<PatField>)
    ensures
        pat_fields_view(fs).len() == fs.len(),
        forall|i: int| 0 <= i < fs.len() ==> #[trigger] pat_fields_view(fs)[i] == (PatFieldV {
            label: opt_str(fs[i].label),
            binding: fs[i].binding@,
            is_rest: fs[i].is_rest,
        }),
    decreases fs.len(),
{
    if fs.len() > 0 {
        lemma_pat_fields_view(fs.drop_last());
    }
}

} // verus!
