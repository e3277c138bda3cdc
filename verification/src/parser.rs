//! The parser: a Pratt parser from tokens to syntax trees.
//!
//! Every function of the parser has a counterpart here in the model: a spec
//! function from the token list, a position and the next fresh tag id to
//! the result, the position after it and the next fresh tag id. The model's
//! recursion checks that each step consumes tokens; the parser proves that
//! it always does.
use vstd::prelude::*;

use crate::ast::{
    arm_view, interp_part_view, lemma_exprs_view_push, lemma_fields_view_push,
    lemma_arms_view_push, lemma_interp_parts_view_push, lemma_empty_views, ArmV, ArrayPat, ArrayPatV, BinOp, BranchArm, BranchBinding, BranchBindingV, BranchPattern,
    BranchPatternV, CmpOp, Expr, ExprKind, ExprV, Field, FieldV, InterpPartV, PatField, PatFieldV,
    Pattern, PatternV, StringInterpPart, expr_view, exprs_view, fields_view, arms_view,
    interp_parts_view, pattern_view, pat_fields_view, array_pats_view, opt_str,
    branch_pattern_view,
};
use crate::lexer::{
    Lexer, PartV, StringPart, Token, TokenV, interp_bound, token_debug, token_debug_text,
    tokens_view, spec_tokenize, parts_bound, part_bound, };
use crate::text::{signed_decimal, text, push_str, i64_decimal, concat};

verus! {

// Binding powers for Pratt parsing: an infix operator is consumed when
// `min_bp <= left_bp`; left-associative operators parse their right side
// at `left_bp + 1`, right-associative ones at `left_bp`.
pub const SEMI_L: u8 = 2;
pub const SEMI_R: u8 = 2;
/// Just above `;`: list elements and field values stop before a `;`.
pub const NO_SEMI: u8 = 3;
pub const PIPE_L: u8 = 6;
pub const PIPE_R: u8 = 7;
pub const CMP_L: u8 = 8;
pub const CMP_R: u8 = 9;
pub const ADD_L: u8 = 10;
pub const ADD_R: u8 = 11;
pub const RANGE_L: u8 = 12;
pub const RANGE_R: u8 = 13;
pub const MUL_L: u8 = 14;
pub const MUL_R: u8 = 15;
pub const POSTFIX: u8 = 19;
/// The operand of unary minus takes no postfix operator.
pub const UNARY_OPERAND: u8 = 20;

// ── The model ───────────────────────────────────────────────────

/// The token at `p`, or `Eof` past either end.
pub open spec fn tok(ts: Seq<TokenV>, p: int) -> TokenV {
    if 0 <= p < ts.len() {
        ts[p]
    } else {
        TokenV::Eof
    }
}

/// The number of tokens left from `p`.
pub open spec fn remaining(ts: Seq<TokenV>, p: int) -> nat {
    if p < ts.len() {
        (ts.len() - p) as nat
    } else {
        0
    }
}

/// The tag id after `g`: tag ids count up, wrapping around.
pub open spec fn next_tag(g: u64) -> u64 {
    if g == u64::MAX {
        0
    } else {
        (g + 1) as u64
    }
}

/// A parse result: the tree, the position after it, the next tag id.
pub type PRes = Result<(ExprV, int, u64), Seq<char>>;

pub open spec fn expect_msg(expected: TokenV, got: TokenV) -> Seq<char> {
    "expected "@ + token_debug_text(expected) + ", got "@ + token_debug_text(got)
}

pub open spec fn is_comparison_tok(t: TokenV) -> bool {
    t is EqEq || t is NotEq || t is Lt || t is Gt || t is LtEq || t is GtEq
}

pub open spec fn comparison_op(t: TokenV) -> CmpOp {
    if t is EqEq {
        CmpOp::Eq
    } else if t is NotEq {
        CmpOp::NotEq
    } else if t is Lt {
        CmpOp::Lt
    } else if t is Gt {
        CmpOp::Gt
    } else if t is LtEq {
        CmpOp::LtEq
    } else {
        CmpOp::GtEq
    }
}

/// Tokens that start a block body with an implicit `in` on the left.
pub open spec fn is_binop_tok(t: TokenV) -> bool {
    t is Plus || t is Star || t is Slash || t is DotDot || is_comparison_tok(t)
}

pub open spec fn is_arrow_or_if(t: TokenV) -> bool {
    t is Arrow || t is If
}

/// A labeled field or pattern field: `name = ...`.
pub open spec fn is_labeled(ts: Seq<TokenV>, p: int) -> bool {
    tok(ts, p) is Ident && tok(ts, p + 1) is Assign
}

/// The offset after the `)` that closes `depth` open parentheses, scanning
/// from `o`; `None` if the input ends first.
pub open spec fn paren_scan(ts: Seq<TokenV>, o: int, depth: nat) -> Option<int>
    decreases ts.len() - o,
{
    if depth == 0 {
        Some(o)
    } else {
        let t = tok(ts, o);
        if t is LParen {
            paren_scan(ts, o + 1, depth + 1)
        } else if t is RParen {
            paren_scan(ts, o + 1, (depth - 1) as nat)
        } else if t is Eof {
            None
        } else {
            paren_scan(ts, o + 1, depth)
        }
    }
}

/// Whether the tokens at `p` start a branching block `{ pattern -> ... }`.
pub open spec fn branch_start(ts: Seq<TokenV>, p: int) -> bool {
    let t = tok(ts, p);
    let t1 = tok(ts, p + 1);
    if t is Ident {
        if t1 is Arrow || t1 is If {
            true
        } else if t1 is LParen {
            match paren_scan(ts, p + 2, 1) {
                Some(o) => is_arrow_or_if(tok(ts, o)),
                None => false,
            }
        } else {
            false
        }
    } else if t is True || t is False || t is Underscore {
        is_arrow_or_if(t1)
    } else if t is Minus {
        (t1 is Int || t1 is Float) && is_arrow_or_if(tok(ts, p + 2))
    } else if t is Int || t is Float || t is Str || t is Char || t is Byte {
        is_arrow_or_if(t1)
    } else if t is LParen {
        t1 is RParen && is_arrow_or_if(tok(ts, p + 2))
    } else {
        false
    }
}

// ── Let chains ──

/// A let body that a continuation may replace: the `()` placeholder, or the
/// bound name itself.
pub open spec fn replaceable(pat: PatternV, body: ExprV) -> bool {
    body is Unit || (pat is Name && body is Ident && pat->Name_0 == body->Ident_0)
}

pub open spec fn ends_in_replaceable_let(e: ExprV) -> bool
    decreases e,
{
    match e {
        ExprV::Let(pat, body) => replaceable(pat, *body) || ends_in_replaceable_let(*body),
        ExprV::LetArray(_, body) => *body is Unit || ends_in_replaceable_let(*body),
        ExprV::Pipe(_, rhs) => ends_in_replaceable_let(*rhs),
        _ => false,
    }
}

pub open spec fn ends_in_nestable_binding(e: ExprV) -> bool
    decreases e,
{
    match e {
        ExprV::Let(pat, body) => replaceable(pat, *body) || ends_in_nestable_binding(*body),
        ExprV::LetArray(_, _) => true,
        ExprV::Pipe(_, rhs) => ends_in_nestable_binding(*rhs),
        _ => false,
    }
}

/// `lhs; rhs` as a sequence: the value of `lhs` is discarded.
pub open spec fn sequence(lhs: ExprV, rhs: ExprV) -> ExprV {
    ExprV::Pipe(Box::new(lhs), Box::new(ExprV::Let(PatternV::Discard, Box::new(rhs))))
}

/// `lhs; rhs`: the continuation becomes the body of the innermost
/// replaceable let of `lhs`, or else follows `lhs` in sequence.
pub open spec fn attach(lhs: ExprV, rhs: ExprV) -> ExprV
    decreases lhs,
{
    match lhs {
        ExprV::Let(pat, body) => if replaceable(pat, *body) {
            ExprV::Let(pat, Box::new(rhs))
        } else if ends_in_replaceable_let(*body) {
            ExprV::Let(pat, Box::new(attach(*body, rhs)))
        } else {
            sequence(lhs, rhs)
        },
        ExprV::LetArray(ps, body) => if *body is Unit {
            ExprV::LetArray(ps, Box::new(rhs))
        } else if ends_in_replaceable_let(*body) {
            ExprV::LetArray(ps, Box::new(attach(*body, rhs)))
        } else {
            sequence(lhs, rhs)
        },
        ExprV::Pipe(a, b) => if ends_in_replaceable_let(*b) {
            ExprV::Pipe(a, Box::new(attach(*b, rhs)))
        } else {
            sequence(lhs, rhs)
        },
        _ => sequence(lhs, rhs),
    }
}

/// Nests `new_let` inside the innermost nestable binding of `e`.
pub open spec fn nest_in_let(e: ExprV, new_let: ExprV) -> ExprV
    decreases e,
{
    match e {
        ExprV::Let(pat, body) => if replaceable(pat, *body) {
            ExprV::Let(pat, Box::new(ExprV::Pipe(body, Box::new(new_let))))
        } else if ends_in_nestable_binding(*body) {
            ExprV::Let(pat, Box::new(nest_in_let(*body, new_let)))
        } else {
            ExprV::Pipe(Box::new(e), Box::new(new_let))
        },
        ExprV::LetArray(ps, body) => ExprV::LetArray(ps, Box::new(ExprV::Pipe(body, Box::new(new_let)))),
        ExprV::Pipe(a, b) => if ends_in_nestable_binding(*b) {
            ExprV::Pipe(a, Box::new(nest_in_let(*b, new_let)))
        } else {
            ExprV::Pipe(Box::new(e), Box::new(new_let))
        },
        _ => ExprV::Pipe(Box::new(e), Box::new(new_let)),
    }
}

pub open spec fn nest_in_pipe(e: ExprV, new_let: ExprV) -> ExprV {
    match e {
        ExprV::Pipe(a, b) => ExprV::Pipe(a, Box::new(nest_in_let(*b, new_let))),
        _ => ExprV::Pipe(Box::new(e), Box::new(new_let)),
    }
}

/// `let x = e`: `e` piped into the new let, nested inside `e`'s own
/// bindings so that they stay in scope.
pub open spec fn nest_in_expr(e: ExprV, new_let: ExprV) -> ExprV {
    match e {
        ExprV::Pipe(_, b) => if ends_in_nestable_binding(*b) {
            nest_in_pipe(e, new_let)
        } else {
            ExprV::Pipe(Box::new(e), Box::new(new_let))
        },
        _ => ExprV::Pipe(Box::new(e), Box::new(new_let)),
    }
}

/// The name under which a multi-field let passes its input through.
pub open spec fn let_input_name() -> Seq<char> {
    "\0"@
}

/// The expression that gives back what a pattern bound.
pub open spec fn identity_for(pat: PatternV) -> ExprV {
    match pat {
        PatternV::Name(n) => ExprV::Ident(n),
        PatternV::Discard => ExprV::Unit,
        PatternV::Fields(_) => ExprV::Ident(let_input_name()),
    }
}

pub open spec fn array_pat_of(f: PatFieldV) -> ArrayPatV {
    if f.is_rest {
        if f.binding == "_"@ {
            ArrayPatV::Rest(None)
        } else {
            ArrayPatV::Rest(Some(f.binding))
        }
    } else if f.binding == "_"@ {
        ArrayPatV::Discard
    } else {
        ArrayPatV::Name(f.binding)
    }
}

pub open spec fn array_pats_of(pat: PatternV) -> Seq<ArrayPatV> {
    match pat {
        PatternV::Fields(fs) => fs.map_values(|f: PatFieldV| array_pat_of(f)),
        PatternV::Name(n) => seq![ArrayPatV::Name(n)],
        PatternV::Discard => seq![ArrayPatV::Discard],
    }
}

/// The let for a pattern with a placeholder body.
pub open spec fn placeholder_let(pat: PatternV, is_array: bool) -> ExprV {
    if is_array {
        ExprV::LetArray(array_pats_of(pat), Box::new(ExprV::Unit))
    } else {
        ExprV::Let(pat, Box::new(ExprV::Unit))
    }
}

// ── Patterns ──

pub open spec fn pat_field(label: Option<Seq<char>>, binding: Seq<char>, is_rest: bool) -> PatFieldV {
    PatFieldV { label, binding, is_rest }
}

pub open spec fn has_rest(fs: Seq<PatFieldV>) -> bool {
    exists|i: int| 0 <= i < fs.len() && fs[i].is_rest
}

/// The name after `...`, if any, and the position after it.
pub open spec fn rest_name(ts: Seq<TokenV>, p: int) -> (Seq<char>, int) {
    if tok(ts, p) is Ident {
        (tok(ts, p)->Ident_0, p + 1)
    } else {
        ("_"@, p)
    }
}

/// The fields of a destructuring pattern from `p`, after `fields`.
pub open spec fn rem_pat_fields(ts: Seq<TokenV>, p: int, fields: Seq<PatFieldV>) -> Result<(Seq<PatFieldV>, int), Seq<char>>
    decreases remaining(ts, p),
{
    let t = tok(ts, p);
    let step: Result<(Seq<PatFieldV>, int), Seq<char>> = if t is Spread {
        if has_rest(fields) {
            Err("multiple rest patterns (...) in one destructuring"@)
        } else {
            let (name, q) = rest_name(ts, p + 1);
            Ok((fields.push(pat_field(None, name, true)), q))
        }
    } else if t is Underscore {
        Ok((fields.push(pat_field(None, "_"@, false)), p + 1))
    } else if is_labeled(ts, p) {
        let b = tok(ts, p + 2);
        if b is Ident {
            Ok((fields.push(pat_field(Some(t->Ident_0), b->Ident_0, false)), p + 3))
        } else if b is Underscore {
            Ok((fields.push(pat_field(Some(t->Ident_0), "_"@, false)), p + 3))
        } else {
            Err("expected binding name after '=' in pattern"@)
        }
    } else {
        Ok((fields.push(pat_field(None, t->Ident_0, false)), p + 1))
    };
    if t is RParen || t is RBracket {
        Ok((fields, p))
    } else if !(t is Spread || t is Underscore || t is Ident) {
        Ok((fields, p))
    } else {
        match step {
            Err(e) => Err(e),
            Ok((fs, q)) => if tok(ts, q) is Comma {
                if p < q {
                    rem_pat_fields(ts, q + 1, fs)
                } else {
                    Err(seq![])
                }
            } else {
                Ok((fs, q))
            },
        }
    }
}

pub open spec fn fields_from(r: Result<(Seq<PatFieldV>, int), Seq<char>>) -> Result<(PatternV, int), Seq<char>> {
    match r {
        Err(e) => Err(e),
        Ok((fs, q)) => Ok((PatternV::Fields(fs), q)),
    }
}

/// A destructuring pattern from `p`, inside `(..)` or `[..]`.
pub open spec fn destructure(ts: Seq<TokenV>, p: int) -> Result<(PatternV, int), Seq<char>> {
    let t = tok(ts, p);
    if t is Underscore {
        let q = p + 1;
        let f0 = seq![pat_field(None, "_"@, false)];
        if tok(ts, q) is RParen || tok(ts, q) is RBracket {
            Ok((PatternV::Discard, q))
        } else if tok(ts, q) is Comma {
            fields_from(rem_pat_fields(ts, q + 1, f0))
        } else {
            Ok((PatternV::Fields(f0), q))
        }
    } else if t is Spread {
        let (name, q) = rest_name(ts, p + 1);
        let f0 = seq![pat_field(None, name, true)];
        if tok(ts, q) is Comma {
            fields_from(rem_pat_fields(ts, q + 1, f0))
        } else {
            Ok((PatternV::Fields(f0), q))
        }
    } else if is_labeled(ts, p) {
        fields_from(rem_pat_fields(ts, p, seq![]))
    } else if t is Ident {
        if tok(ts, p + 1) is Comma {
            fields_from(rem_pat_fields(ts, p + 2, seq![pat_field(None, t->Ident_0, false)]))
        } else {
            Ok((PatternV::Name(t->Ident_0), p + 1))
        }
    } else {
        Err("expected pattern in let, got "@ + token_debug_text(t))
    }
}

/// `(pattern)` or `[pattern]` after `let`: the pattern, whether it is an
/// array pattern, and the position after it.
pub open spec fn let_pattern(ts: Seq<TokenV>, p: int) -> Result<(PatternV, bool, int), Seq<char>> {
    let t = tok(ts, p);
    if t is LParen || t is LBracket {
        match destructure(ts, p + 1) {
            Err(e) => Err(e),
            Ok((pat, q)) => {
                let close = if t is LParen { TokenV::RParen } else { TokenV::RBracket };
                if tok(ts, q) == close {
                    Ok((pat, t is LBracket, q + 1))
                } else {
                    Err(expect_msg(close, tok(ts, q)))
                }
            },
        }
    } else {
        Err("expected '(' or '[' after 'let', got "@ + token_debug_text(t))
    }
}

pub open spec fn lit(e: ExprV, q: int) -> Result<(BranchPatternV, int), Seq<char>> {
    Ok((BranchPatternV::Literal(e), q))
}

/// A pattern of a branch arm.
pub open spec fn branch_pattern(ts: Seq<TokenV>, p: int) -> Result<(BranchPatternV, int), Seq<char>> {
    let t = tok(ts, p);
    if t is Underscore {
        Ok((BranchPatternV::Discard, p + 1))
    } else if t is LParen && tok(ts, p + 1) is RParen {
        lit(ExprV::Unit, p + 2)
    } else if t is True {
        lit(ExprV::Bool(true), p + 1)
    } else if t is False {
        lit(ExprV::Bool(false), p + 1)
    } else if t is Minus {
        let t1 = tok(ts, p + 1);
        if t1 is Int {
            lit(ExprV::UnaryMinus(Box::new(ExprV::Int(t1->Int_0))), p + 2)
        } else if t1 is Float {
            lit(ExprV::UnaryMinus(Box::new(ExprV::Float(t1->Float_0))), p + 2)
        } else if t1 == TokenV::BigInt(MIN_INT_MAGNITUDE) {
            lit(ExprV::Int(i64::MIN), p + 2)
        } else {
            Err("expected number after '-' in pattern, got "@ + token_debug_text(t1))
        }
    } else if t is Int {
        lit(ExprV::Int(t->Int_0), p + 1)
    } else if t is Float {
        lit(ExprV::Float(t->Float_0), p + 1)
    } else if t is Str {
        lit(ExprV::Str(t->Str_0), p + 1)
    } else if t is Char {
        lit(ExprV::Char(t->Char_0), p + 1)
    } else if t is Byte {
        lit(ExprV::Byte(t->Byte_0), p + 1)
    } else if t is Ident {
        if tok(ts, p + 1) is LParen {
            let q = p + 2;
            let b = tok(ts, q);
            let binding: Result<(Option<BranchBindingV>, int), Seq<char>> = if b is Underscore {
                Ok((Some(BranchBindingV::Discard), q + 1))
            } else if b is Ident {
                Ok((Some(BranchBindingV::Name(b->Ident_0)), q + 1))
            } else if b is RParen {
                Ok((None, q))
            } else {
                Err("expected binding in tag pattern, got "@ + token_debug_text(b))
            };
            match binding {
                Err(e) => Err(e),
                Ok((bd, q2)) => if tok(ts, q2) is RParen {
                    Ok((BranchPatternV::Tag(t->Ident_0, bd), q2 + 1))
                } else {
                    Err(expect_msg(TokenV::RParen, tok(ts, q2)))
                },
            }
        } else {
            Ok((BranchPatternV::Binding(t->Ident_0), p + 1))
        }
    } else {
        Err("expected pattern in branch arm, got "@ + token_debug_text(t))
    }
}

// ── Keyword forms ──

/// `tag(Name)` at `p`: a fresh tag bound to `Name`.
pub open spec fn tag_sugar(ts: Seq<TokenV>, p: int, g: u64) -> PRes {
    if !(tok(ts, p + 1) is LParen) {
        Err(expect_msg(TokenV::LParen, tok(ts, p + 1)))
    } else if !(tok(ts, p + 2) is Ident) {
        Err("expected identifier in tag(), got "@ + token_debug_text(tok(ts, p + 2)))
    } else if !(tok(ts, p + 3) is RParen) {
        Err(expect_msg(TokenV::RParen, tok(ts, p + 3)))
    } else {
        let name = tok(ts, p + 2)->Ident_0;
        Ok((
            ExprV::Pipe(
                Box::new(ExprV::NewTag(g, Some(name))),
                Box::new(ExprV::Let(PatternV::Name(name), Box::new(ExprV::Ident(name)))),
            ),
            p + 4,
            next_tag(g),
        ))
    }
}

/// `import("name")` at `p`.
pub open spec fn import_form(ts: Seq<TokenV>, p: int, g: u64) -> PRes {
    if !(tok(ts, p + 1) is LParen) {
        Err(expect_msg(TokenV::LParen, tok(ts, p + 1)))
    } else if !(tok(ts, p + 2) is Str) {
        Err("expected string in import(), got "@ + token_debug_text(tok(ts, p + 2)))
    } else if !(tok(ts, p + 3) is RParen) {
        Err(expect_msg(TokenV::RParen, tok(ts, p + 3)))
    } else {
        Ok((ExprV::Import(tok(ts, p + 2)->Str_0), p + 4, g))
    }
}

/// `use(name)` at `p`: the module imported and bound to `name`.
pub open spec fn use_form(ts: Seq<TokenV>, p: int, g: u64) -> PRes {
    if !(tok(ts, p + 1) is LParen) {
        Err(expect_msg(TokenV::LParen, tok(ts, p + 1)))
    } else if !(tok(ts, p + 2) is Ident) {
        Err("expected identifier in use(), got "@ + token_debug_text(tok(ts, p + 2)))
    } else if !(tok(ts, p + 3) is RParen) {
        Err(expect_msg(TokenV::RParen, tok(ts, p + 3)))
    } else {
        let name = tok(ts, p + 2)->Ident_0;
        Ok((
            ExprV::Pipe(
                Box::new(ExprV::Import(name)),
                Box::new(ExprV::Let(PatternV::Name(name), Box::new(ExprV::Ident(name)))),
            ),
            p + 4,
            g,
        ))
    }
}


// ── The recursive part of the model ──
//
// Each function decreases (interpolation bound, tokens left, rank, parts
// left): a call at the same position goes to a lower rank, and parsing an
// interpolated source goes to tokens with a smaller bound.

/// A whole program from `p`: `Eof` alone is `()`.
pub open spec fn program(ts: Seq<TokenV>, p: int, g: u64) -> PRes
    decreases interp_bound(ts), remaining(ts, p), 10nat, 0nat,
{
    if tok(ts, p) is Eof {
        Ok((ExprV::Unit, p, g))
    } else {
        match expr(ts, p, 0, g) {
            Err(e) => Err(e),
            Ok((e, q, g2)) => if tok(ts, q) is Eof {
                Ok((e, q, g2))
            } else {
                Err("unexpected token after expression: "@ + token_debug_text(tok(ts, q)))
            },
        }
    }
}

/// An expression whose operators bind at least `min_bp`.
pub open spec fn expr(ts: Seq<TokenV>, p: int, min_bp: u8, g: u64) -> PRes
    decreases interp_bound(ts), remaining(ts, p), 6nat, 0nat,
{
    match prefix(ts, p, g) {
        Err(e) => Err(e),
        Ok((lhs, q, g2)) => if p < q <= ts.len() {
            expr_loop(ts, q, lhs, min_bp, g2)
        } else {
            Err(seq![])
        },
    }
}

/// Postfix and infix operators after `lhs`, while they bind at least `min_bp`.
pub open spec fn expr_loop(ts: Seq<TokenV>, p: int, lhs: ExprV, min_bp: u8, g: u64) -> PRes
    decreases interp_bound(ts), remaining(ts, p), 7nat, 0nat,
{
    match step(ts, p, lhs, min_bp, g) {
        Err(e) => Err(e),
        Ok((l2, q, g2, more)) => if !more {
            Ok((l2, q, g2))
        } else if p < q <= ts.len() {
            expr_loop(ts, q, l2, min_bp, g2)
        } else {
            Err(seq![])
        },
    }
}

pub open spec fn method_call(lhs: ExprV, method: Seq<char>, r: PRes) -> Result<(ExprV, int, u64, bool), Seq<char>> {
    match r {
        Err(e) => Err(e),
        Ok((arg, q, g)) => Ok((ExprV::MethodCall(Box::new(lhs), method, Box::new(arg)), q, g, true)),
    }
}

pub open spec fn more(r: PRes) -> Result<(ExprV, int, u64, bool), Seq<char>> {
    match r {
        Err(e) => Err(e),
        Ok((e, q, g)) => Ok((e, q, g, true)),
    }
}

pub open spec fn binop_after(ts: Seq<TokenV>, p: int, op: BinOp, lhs: ExprV, rbp: u8, g: u64) -> Result<(ExprV, int, u64, bool), Seq<char>>
    decreases interp_bound(ts), remaining(ts, p), 4nat, 0nat,
{
    if 0 <= p < ts.len() {
        match expr(ts, p + 1, rbp, g) {
            Err(e) => Err(e),
            Ok((rhs, q, g2)) => if op is Div && (tok(ts, q) is Star || tok(ts, q) is Slash) {
                Err("ambiguous precedence: use parentheses around division"@)
            } else {
                Ok((ExprV::BinOp(op, Box::new(lhs), Box::new(rhs)), q, g2, true))
            },
        }
    } else {
        Err(seq![])
    }
}

/// One postfix or infix operator after `lhs` at `p`; `false` when none
/// applies (the loop stops).
pub open spec fn step(ts: Seq<TokenV>, p: int, lhs: ExprV, min_bp: u8, g: u64) -> Result<(ExprV, int, u64, bool), Seq<char>>
    decreases interp_bound(ts), remaining(ts, p), 6nat, 0nat,
{
    let t = tok(ts, p);
    if (t is LParen || t is LBrace || t is LBracket || t is Dot) && min_bp <= POSTFIX {
        postfix_step(ts, p, lhs, g)
    } else {
        infix_step(ts, p, lhs, min_bp, g)
    }
}

/// A call `lhs(..)`, `lhs{..}`, `lhs[..]`, a method call or a field access.
pub open spec fn postfix_step(ts: Seq<TokenV>, p: int, lhs: ExprV, g: u64) -> Result<(ExprV, int, u64, bool), Seq<char>>
    decreases interp_bound(ts), remaining(ts, p), 5nat, 0nat,
{
    let t = tok(ts, p);
    if t is LParen {
        match call_args(ts, p + 1, g) {
            Err(e) => Err(e),
            Ok((arg, q, g2)) => Ok((ExprV::Call(Box::new(lhs), Box::new(arg)), q, g2, true)),
        }
    } else if t is LBrace {
        match block(ts, p, g) {
            Err(e) => Err(e),
            Ok((b, q, g2)) => Ok((ExprV::Call(Box::new(lhs), Box::new(b)), q, g2, true)),
        }
    } else if t is LBracket {
        match array(ts, p, g) {
            Err(e) => Err(e),
            Ok((a, q, g2)) => Ok((ExprV::Call(Box::new(lhs), Box::new(a)), q, g2, true)),
        }
    } else if t is Dot {
        let ft = tok(ts, p + 1);
        if !(ft is Ident || ft is Int) {
            Err("expected field name after '.', got "@ + token_debug_text(ft))
        } else {
            let f = if ft is Ident { ft->Ident_0 } else { signed_decimal(ft->Int_0 as int) };
            let q = p + 2;
            let t2 = tok(ts, q);
            if t2 is LParen {
                method_call(lhs, f, call_args(ts, q + 1, g))
            } else if t2 is LBrace {
                method_call(lhs, f, block(ts, q, g))
            } else if t2 is LBracket {
                method_call(lhs, f, array(ts, q, g))
            } else {
                Ok((ExprV::FieldAccess(Box::new(lhs), f), q, g, true))
            }
        }
    } else {
        Ok((lhs, p, g, false))
    }
}

/// An infix operator after `lhs` that binds at least `min_bp`.
pub open spec fn infix_step(ts: Seq<TokenV>, p: int, lhs: ExprV, min_bp: u8, g: u64) -> Result<(ExprV, int, u64, bool), Seq<char>>
    decreases interp_bound(ts), remaining(ts, p), 5nat, 0nat,
{
    let t = tok(ts, p);
    if t is Star && min_bp <= MUL_L {
        binop_after(ts, p, BinOp::Mul, lhs, MUL_R, g)
    } else if t is Slash && min_bp <= MUL_L {
        binop_after(ts, p, BinOp::Div, lhs, MUL_R, g)
    } else if t is Plus && min_bp <= ADD_L {
        binop_after(ts, p, BinOp::Add, lhs, ADD_R, g)
    } else if t is Minus && min_bp <= ADD_L {
        binop_after(ts, p, BinOp::Sub, lhs, ADD_R, g)
    } else if is_comparison_tok(t) && min_bp <= CMP_L {
        match expr(ts, p + 1, CMP_R, g) {
            Err(e) => Err(e),
            Ok((rhs, q, g2)) => if is_comparison_tok(tok(ts, q)) {
                Err("non-associative: chained comparisons require parentheses"@)
            } else {
                Ok((ExprV::Compare(comparison_op(t), Box::new(lhs), Box::new(rhs)), q, g2, true))
            },
        }
    } else if t is DotDot && min_bp <= RANGE_L {
        match expr(ts, p + 1, RANGE_R, g) {
            Err(e) => Err(e),
            Ok((rhs, q, g2)) => if tok(ts, q) is DotDot {
                Err("non-associative: chained ranges require parentheses"@)
            } else {
                Ok((ExprV::Range(Box::new(lhs), Box::new(rhs)), q, g2, true))
            },
        }
    } else if t is Pipe && min_bp <= PIPE_L {
        more(pipe_rhs(ts, p + 1, lhs, min_bp, g))
    } else if t is Semicolon && min_bp <= SEMI_L {
        more(semicolon_rhs(ts, p + 1, lhs, g))
    } else {
        Ok((lhs, p, g, false))
    }
}

/// What follows `>>`: a `let(..)` binding, or an expression.
pub open spec fn pipe_rhs(ts: Seq<TokenV>, p: int, lhs: ExprV, min_bp: u8, g: u64) -> PRes
    decreases interp_bound(ts), remaining(ts, p), 8nat, 0nat,
{
    if tok(ts, p) is Let {
        pipe_let(ts, p + 1, lhs, min_bp, g)
    } else {
        match expr(ts, p, PIPE_R, g) {
            Err(e) => Err(e),
            Ok((rhs, q, g2)) => Ok((ExprV::Pipe(Box::new(lhs), Box::new(rhs)), q, g2)),
        }
    }
}

/// `lhs >> let(pattern)` and its body, from the pattern at `p`.
pub open spec fn pipe_let(ts: Seq<TokenV>, p: int, lhs: ExprV, min_bp: u8, g: u64) -> PRes
    decreases interp_bound(ts), remaining(ts, p), 3nat, 0nat,
{
    match let_pattern(ts, p) {
        Err(e) => Err(e),
        Ok((pat, is_array, q)) => if p < q <= ts.len() {
            match let_body(ts, q, pat, min_bp, g) {
                Err(e) => Err(e),
                Ok((body, q2, g2)) => {
                    let binder = if is_array {
                        ExprV::LetArray(array_pats_of(pat), Box::new(body))
                    } else {
                        ExprV::Let(pat, Box::new(body))
                    };
                    Ok((ExprV::Pipe(Box::new(lhs), Box::new(binder)), q2, g2))
                },
            }
        } else {
            Err(seq![])
        },
    }
}

/// The body after `let(pattern)`: further pipes, or `;` and the rest.
pub open spec fn let_body(ts: Seq<TokenV>, p: int, pat: PatternV, min_bp: u8, g: u64) -> PRes
    decreases interp_bound(ts), remaining(ts, p), 2nat, 0nat,
{
    let t = tok(ts, p);
    if t is Pipe {
        let_pipes(ts, p, identity_for(pat), min_bp, g)
    } else if t is Semicolon && min_bp <= SEMI_L {
        expr(ts, p + 1, SEMI_R, g)
    } else {
        Ok((identity_for(pat), p, g))
    }
}

/// The pipes after `let(pattern)`, then an optional `;` continuation.
pub open spec fn let_pipes(ts: Seq<TokenV>, p: int, cur: ExprV, min_bp: u8, g: u64) -> PRes
    decreases interp_bound(ts), remaining(ts, p), 1nat, 0nat,
{
    let t = tok(ts, p);
    if t is Pipe {
        match pipe_rhs(ts, p + 1, cur, min_bp, g) {
            Err(e) => Err(e),
            Ok((c2, q, g2)) => if p < q <= ts.len() {
                let_pipes(ts, q, c2, min_bp, g2)
            } else {
                Err(seq![])
            },
        }
    } else if min_bp <= SEMI_L && t is Semicolon {
        match expr(ts, p + 1, SEMI_R, g) {
            Err(e) => Err(e),
            Ok((rest, q, g2)) => Ok((sequence(cur, rest), q, g2)),
        }
    } else {
        Ok((cur, p, g))
    }
}

/// What follows `;` after `lhs`; a trailing `;` continues with `()`.
pub open spec fn semicolon_rhs(ts: Seq<TokenV>, p: int, lhs: ExprV, g: u64) -> PRes
    decreases interp_bound(ts), remaining(ts, p), 8nat, 0nat,
{
    let t = tok(ts, p);
    if t is Eof || t is RBrace || t is RParen || t is RBracket {
        Ok((attach(lhs, ExprV::Unit), p, g))
    } else {
        match expr(ts, p, SEMI_R, g) {
            Err(e) => Err(e),
            Ok((rhs, q, g2)) => Ok((attach(lhs, rhs), q, g2)),
        }
    }
}

/// The magnitude of the least `int`, 2^63: as a literal it only fits after
/// a unary minus, where the two together denote `i64::MIN`.
pub const MIN_INT_MAGNITUDE: u64 = 9223372036854775808;

/// A prefix expression at `p`.
pub open spec fn prefix(ts: Seq<TokenV>, p: int, g: u64) -> PRes
    decreases interp_bound(ts), remaining(ts, p), 5nat, 0nat,
{
    let t = tok(ts, p);
    match t {
        TokenV::Int(n) => Ok((ExprV::Int(n), p + 1, g)),
        TokenV::Float(f) => Ok((ExprV::Float(f), p + 1, g)),
        TokenV::True => Ok((ExprV::Bool(true), p + 1, g)),
        TokenV::False => Ok((ExprV::Bool(false), p + 1, g)),
        TokenV::Str(s) => Ok((ExprV::Str(s), p + 1, g)),
        TokenV::InterpStr(parts) => match interp(ts, p, parts, g) {
            Err(e) => Err(e),
            Ok((ps, g2)) => Ok((ExprV::StringInterp(ps), p + 1, g2)),
        },
        TokenV::Char(c) => Ok((ExprV::Char(c), p + 1, g)),
        TokenV::Byte(b) => Ok((ExprV::Byte(b), p + 1, g)),
        TokenV::In => Ok((ExprV::Ident("in"@), p + 1, g)),
        TokenV::NewTag => Ok((ExprV::NewTag(g, None), p + 1, next_tag(g))),
        TokenV::Ident(n) => Ok((ExprV::Ident(n), p + 1, g)),
        TokenV::Underscore => Ok((ExprV::Ident("_"@), p + 1, g)),
        TokenV::Minus => if tok(ts, p + 1) == TokenV::BigInt(MIN_INT_MAGNITUDE) {
            Ok((ExprV::Int(i64::MIN), p + 2, g))
        } else if 0 <= p < ts.len() {
            match expr(ts, p + 1, UNARY_OPERAND, g) {
                Err(e) => Err(e),
                Ok((operand, q, g2)) => {
                    let t2 = tok(ts, q);
                    if t2 is Dot || t2 is LParen || t2 is LBrace || t2 is LBracket {
                        Err("ambiguous: `-x.f()` is a syntax error; write `(-x).f()` or `-(x.f())`"@)
                    } else {
                        Ok((ExprV::UnaryMinus(Box::new(operand)), q, g2))
                    }
                },
            }
        } else {
            Err(seq![])
        },
        TokenV::LBrace => block(ts, p, g),
        TokenV::LBracket => array(ts, p, g),
        TokenV::LParen => paren(ts, p, g),
        TokenV::Let => standalone_let(ts, p, g),
        TokenV::Tag => tag_sugar(ts, p, g),
        TokenV::Import => import_form(ts, p, g),
        TokenV::Use => use_form(ts, p, g),
        _ => Err("unexpected token in expression: "@ + token_debug_text(t)),
    }
}

/// One part of an interpolated string: an expression part is lexed and
/// parsed as a program of its own.
pub open spec fn interp_one(ts: Seq<TokenV>, p: int, part: PartV, g: u64) -> Result<(InterpPartV, u64), Seq<char>>
    decreases interp_bound(ts), remaining(ts, p), 4nat, 0nat,
{
    match part {
        PartV::Literal(s) => Ok((InterpPartV::Literal(s), g)),
        PartV::Expr(src) => match spec_tokenize(src) {
            Err(e) => Err("error in string interpolation: "@ + e),
            Ok(sub) => if interp_bound(sub) < interp_bound(ts) {
                match program(sub, 0, g) {
                    Err(e) => Err("error in string interpolation: "@ + e),
                    Ok((ex, _, g2)) => Ok((InterpPartV::Expr(ex), g2)),
                }
            } else {
                Err(seq![])
            },
        },
    }
}

/// The parts of an interpolated string, in order.
pub open spec fn interp(ts: Seq<TokenV>, p: int, parts: Seq<PartV>, g: u64) -> Result<(Seq<InterpPartV>, u64), Seq<char>>
    decreases interp_bound(ts), remaining(ts, p), 4nat, parts.len(),
{
    if parts.len() == 0 {
        Ok((seq![], g))
    } else {
        match interp(ts, p, parts.drop_last(), g) {
            Err(e) => Err(e),
            Ok((acc, g1)) => match interp_one(ts, p, parts.last(), g1) {
                Err(e) => Err(e),
                Ok((pv, g2)) => Ok((acc.push(pv), g2)),
            },
        }
    }
}

pub open spec fn in_ident() -> ExprV {
    ExprV::Ident("in"@)
}

/// A block `{ .. }` at `p`: a plain block, a branching block, or the
/// ternary sugar `{ a | b }`.
pub open spec fn block(ts: Seq<TokenV>, p: int, g: u64) -> PRes
    decreases interp_bound(ts), remaining(ts, p), 4nat, 0nat,
{
    let q = p + 1;
    let t = tok(ts, q);
    if !(0 <= p < ts.len()) {
        Err(seq![])
    } else if t is RBrace {
        Ok((ExprV::Block(Box::new(ExprV::Unit)), q + 1, g))
    } else if branch_start(ts, q) {
        branch_arms(ts, q, seq![], g)
    } else if t is Minus {
        Err("ambiguous: `{ -expr }` could be subtraction or negation; write `{ in - expr }` or `{ (-expr) }`"@)
    } else {
        let body_r = if is_binop_tok(t) || t is Pipe {
            expr_loop(ts, q, in_ident(), 0, g)
        } else {
            expr(ts, q, 0, g)
        };
        match body_r {
            Err(e) => Err(e),
            Ok((body, q2, g2)) => if p < q2 <= ts.len() {
                block_end(ts, q2, body, g2)
            } else {
                Err(seq![])
            },
        }
    }
}

/// The end of a block after its body: `}`, or `| other }` for the ternary
/// sugar `{ a | b }`, which is `{ true -> a, false -> b }`.
pub open spec fn block_end(ts: Seq<TokenV>, p: int, body: ExprV, g: u64) -> PRes
    decreases interp_bound(ts), remaining(ts, p), 3nat, 0nat,
{
    if tok(ts, p) is Bar {
        match expr(ts, p + 1, 0, g) {
            Err(e) => Err(e),
            Ok((fb, q, g2)) => if tok(ts, q) is RBrace {
                Ok((
                    ExprV::BranchBlock(seq![
                        ArmV { pattern: BranchPatternV::Literal(ExprV::Bool(true)), guard: None, body },
                        ArmV { pattern: BranchPatternV::Literal(ExprV::Bool(false)), guard: None, body: fb },
                    ]),
                    q + 1,
                    g2,
                ))
            } else {
                Err(expect_msg(TokenV::RBrace, tok(ts, q)))
            },
        }
    } else if tok(ts, p) is RBrace {
        Ok((ExprV::Block(Box::new(body)), p + 1, g))
    } else {
        Err(expect_msg(TokenV::RBrace, tok(ts, p)))
    }
}

/// The arms of a branching block from `p`, after `arms`, up to its `}`.
pub open spec fn branch_arms(ts: Seq<TokenV>, p: int, arms: Seq<ArmV>, g: u64) -> PRes
    decreases interp_bound(ts), remaining(ts, p), 3nat, 0nat,
{
    if tok(ts, p) is RBrace {
        Ok((ExprV::BranchBlock(arms), p + 1, g))
    } else {
        match branch_pattern(ts, p) {
            Err(e) => Err(e),
            Ok((pat, p1)) => if p < p1 <= ts.len() {
                let gr: Result<(Option<ExprV>, int, u64), Seq<char>> = if tok(ts, p1) is If {
                    match expr(ts, p1 + 1, PIPE_R, g) {
                        Err(e) => Err(e),
                        Ok((ge, p2, g2)) => Ok((Some(ge), p2, g2)),
                    }
                } else {
                    Ok((None, p1, g))
                };
                match gr {
                    Err(e) => Err(e),
                    Ok((guard, p2, g2)) => if !(p < p2 <= ts.len()) {
                        Err(seq![])
                    } else if tok(ts, p2) is Arrow {
                        match expr(ts, p2 + 1, SEMI_R, g2) {
                            Err(e) => Err(e),
                            Ok((body, p3, g3)) => {
                                let arms2 = arms.push(ArmV { pattern: pat, guard, body });
                                if tok(ts, p3) is Comma {
                                    if p < p3 <= ts.len() {
                                        branch_arms(ts, p3 + 1, arms2, g3)
                                    } else {
                                        Err(seq![])
                                    }
                                } else if tok(ts, p3) is RBrace {
                                    Ok((ExprV::BranchBlock(arms2), p3 + 1, g3))
                                } else {
                                    Err(expect_msg(TokenV::RBrace, tok(ts, p3)))
                                }
                            },
                        }
                    } else {
                        Err(expect_msg(TokenV::Arrow, tok(ts, p2)))
                    },
                }
            } else {
                Err(seq![])
            },
        }
    }
}

/// An array `[ .. ]` at `p`.
pub open spec fn array(ts: Seq<TokenV>, p: int, g: u64) -> PRes
    decreases interp_bound(ts), remaining(ts, p), 4nat, 0nat,
{
    let q = p + 1;
    if !(0 <= p < ts.len()) {
        Err(seq![])
    } else if tok(ts, q) is RBracket {
        Ok((ExprV::Array(seq![]), q + 1, g))
    } else {
        match expr(ts, q, NO_SEMI, g) {
            Err(e) => Err(e),
            Ok((e, q2, g2)) => if p < q2 <= ts.len() {
                array_rest(ts, q2, seq![e], g2)
            } else {
                Err(seq![])
            },
        }
    }
}

/// The rest of an array from `p`, after the elements `elems`.
pub open spec fn array_rest(ts: Seq<TokenV>, p: int, elems: Seq<ExprV>, g: u64) -> PRes
    decreases interp_bound(ts), remaining(ts, p), 3nat, 0nat,
{
    if tok(ts, p) is Comma {
        if tok(ts, p + 1) is RBracket {
            Ok((ExprV::Array(elems), p + 2, g))
        } else {
            match expr(ts, p + 1, NO_SEMI, g) {
                Err(e) => Err(e),
                Ok((e, q, g2)) => if p < q <= ts.len() {
                    array_rest(ts, q, elems.push(e), g2)
                } else {
                    Err(seq![])
                },
            }
        }
    } else if tok(ts, p) is RBracket {
        Ok((ExprV::Array(elems), p + 1, g))
    } else {
        Err(expect_msg(TokenV::RBracket, tok(ts, p)))
    }
}

pub open spec fn positional(e: ExprV) -> FieldV {
    FieldV { label: None, value: e, is_spread: false }
}

/// `( .. )` at `p`: unit, a group, or a struct.
pub open spec fn paren(ts: Seq<TokenV>, p: int, g: u64) -> PRes
    decreases interp_bound(ts), remaining(ts, p), 4nat, 0nat,
{
    let q = p + 1;
    let t = tok(ts, q);
    if !(0 <= p < ts.len()) {
        Err(seq![])
    } else if t is RParen {
        Ok((ExprV::Unit, q + 1, g))
    } else if t is Spread || is_labeled(ts, q) {
        struct_fields(ts, q, seq![], g)
    } else {
        match expr(ts, q, 0, g) {
            Err(e) => Err(e),
            Ok((first, q2, g2)) => {
                let t2 = tok(ts, q2);
                if t2 is RParen {
                    Ok((ExprV::Group(Box::new(first)), q2 + 1, g2))
                } else if t2 is Comma {
                    if tok(ts, q2 + 1) is RParen {
                        Ok((ExprV::Group(Box::new(first)), q2 + 2, g2))
                    } else if p < q2 <= ts.len() {
                        struct_fields(ts, q2 + 1, seq![positional(first)], g2)
                    } else {
                        Err(seq![])
                    }
                } else {
                    Err("expected ')', ',', or ';' in parenthesized expression, got "@ + token_debug_text(t2))
                }
            },
        }
    }
}

/// Struct fields from `p`, after `fields`, and the closing `)`.
pub open spec fn struct_fields(ts: Seq<TokenV>, p: int, fields: Seq<FieldV>, g: u64) -> PRes
    decreases interp_bound(ts), remaining(ts, p), 8nat, 0nat,
{
    match rem_fields(ts, p, fields, g) {
        Err(e) => Err(e),
        Ok((fs, q, g2)) => if tok(ts, q) is RParen {
            Ok((ExprV::Struct(fs), q + 1, g2))
        } else {
            Err(expect_msg(TokenV::RParen, tok(ts, q)))
        },
    }
}

/// Struct fields from `p`, after `fields`, up to (not including) `)`.
pub open spec fn rem_fields(ts: Seq<TokenV>, p: int, fields: Seq<FieldV>, g: u64) -> Result<(Seq<FieldV>, int, u64), Seq<char>>
    decreases interp_bound(ts), remaining(ts, p), 7nat, 0nat,
{
    let t = tok(ts, p);
    if t is RParen {
        Ok((fields, p, g))
    } else {
        let r: Result<(FieldV, int, u64), Seq<char>> = if t is Spread {
            if 0 <= p < ts.len() {
                match expr(ts, p + 1, NO_SEMI, g) {
                    Err(e) => Err(e),
                    Ok((e, q, g2)) => Ok((FieldV { label: None, value: e, is_spread: true }, q, g2)),
                }
            } else {
                Err(seq![])
            }
        } else if is_labeled(ts, p) {
            match labeled_field(ts, p, g) {
                Err(e) => Err(e),
                Ok((l, v, q, g2)) => Ok((FieldV { label: Some(l), value: v, is_spread: false }, q, g2)),
            }
        } else {
            match expr(ts, p, NO_SEMI, g) {
                Err(e) => Err(e),
                Ok((e, q, g2)) => Ok((positional(e), q, g2)),
            }
        };
        match r {
            Err(e) => Err(e),
            Ok((f, q, g2)) => {
                let fs = fields.push(f);
                if tok(ts, q) is Comma {
                    if p < q <= ts.len() {
                        rem_fields(ts, q + 1, fs, g2)
                    } else {
                        Err(seq![])
                    }
                } else {
                    Ok((fs, q, g2))
                }
            },
        }
    }
}

/// `label = value` at `p`.
pub open spec fn labeled_field(ts: Seq<TokenV>, p: int, g: u64) -> Result<(Seq<char>, ExprV, int, u64), Seq<char>>
    decreases interp_bound(ts), remaining(ts, p), 6nat, 0nat,
{
    if !(tok(ts, p) is Ident) {
        Err("expected identifier for field label"@)
    } else if !(tok(ts, p + 1) is Assign) {
        Err(expect_msg(TokenV::Assign, tok(ts, p + 1)))
    } else {
        match expr(ts, p + 2, NO_SEMI, g) {
            Err(e) => Err(e),
            Ok((v, q, g2)) => Ok((tok(ts, p)->Ident_0, v, q, g2)),
        }
    }
}

/// `let` at `p`: `let _ = e`, `let x = e`, `let (..) = e`, `let [..] = e`,
/// or a let with a placeholder body that a following `;` fills.
pub open spec fn standalone_let(ts: Seq<TokenV>, p: int, g: u64) -> PRes
    decreases interp_bound(ts), remaining(ts, p), 4nat, 0nat,
{
    let q = p + 1;
    if !(0 <= p < ts.len()) {
        Err(seq![])
    } else if tok(ts, q) is Underscore && tok(ts, q + 1) is Assign {
        match expr(ts, q + 2, NO_SEMI, g) {
            Err(e) => Err(e),
            Ok((v, q2, g2)) => Ok((nest_in_expr(v, ExprV::Let(PatternV::Discard, Box::new(ExprV::Unit))), q2, g2)),
        }
    } else if tok(ts, q) is Ident && tok(ts, q + 1) is Assign {
        let name = tok(ts, q)->Ident_0;
        match expr(ts, q + 2, NO_SEMI, g) {
            Err(e) => Err(e),
            Ok((v, q2, g2)) => Ok((
                nest_in_expr(v, ExprV::Let(PatternV::Name(name), Box::new(ExprV::Ident(name)))),
                q2,
                g2,
            )),
        }
    } else {
        match let_pattern(ts, q) {
            Err(e) => Err(e),
            Ok((pat, is_array, q2)) => if tok(ts, q2) is Assign {
                if p < q2 <= ts.len() {
                    match expr(ts, q2 + 1, NO_SEMI, g) {
                        Err(e) => Err(e),
                        Ok((v, q3, g3)) => Ok((nest_in_expr(v, placeholder_let(pat, is_array)), q3, g3)),
                    }
                } else {
                    Err(seq![])
                }
            } else {
                Ok((placeholder_let(pat, is_array), q2, g))
            },
        }
    }
}

/// The argument of a call from `p` (after its `(`): `()`, one expression,
/// or a struct of several fields.
pub open spec fn call_args(ts: Seq<TokenV>, p: int, g: u64) -> PRes
    decreases interp_bound(ts), remaining(ts, p), 9nat, 0nat,
{
    let t = tok(ts, p);
    if t is RParen {
        Ok((ExprV::Unit, p + 1, g))
    } else if is_labeled(ts, p) || t is Spread {
        struct_fields(ts, p, seq![], g)
    } else {
        match expr(ts, p, NO_SEMI, g) {
            Err(e) => Err(e),
            Ok((first, q, g2)) => {
                let t2 = tok(ts, q);
                if t2 is RParen {
                    Ok((first, q + 1, g2))
                } else if t2 is Comma {
                    if tok(ts, q + 1) is RParen {
                        Ok((first, q + 2, g2))
                    } else if p < q <= ts.len() {
                        struct_fields(ts, q + 1, seq![positional(first)], g2)
                    } else {
                        Err(seq![])
                    }
                } else {
                    Err("expected ')' or ',' in function call, got "@ + token_debug_text(t2))
                }
            },
        }
    }
}


// ── The parser ──────────────────────────────────────────────────

/// The first tag id that `new_tag` and `tag(..)` hand out: the ids below
/// it belong to the built-in types.
pub const FIRST_USER_TAG: u64 = 18;

pub struct Parser {
    tokens: Vec<Token>,
    pos: usize,
    next_tag: u64,
}

impl View for Parser {
    /// The tokens, the position, and the next fresh tag id.
    type V = (Seq<TokenV>, int, u64);

    closed spec fn view(&self) -> (Seq<TokenV>, int, u64) {
        (tokens_view(self.tokens@), self.pos as int, self.next_tag)
    }
}

/// How a parse function's outcome reflects its model: on success the tree,
/// the position and the next tag id; on failure the message.
pub open spec fn parsed(r: Result<Expr, String>, before: (Seq<TokenV>, int, u64), after: (Seq<TokenV>, int, u64), spec: PRes) -> bool {
    &&& after.0 == before.0
    &&& match spec {
        Ok((e, q, g)) => r is Ok && expr_view(*r->Ok_0) == e && after.1 == q && after.2 == g,
        Err(m) => r is Err && r->Err_0@ == m,
    }
}

/// Success consumes tokens and stays within them.
pub open spec fn advanced(ok: bool, before: (Seq<TokenV>, int, u64), after: (Seq<TokenV>, int, u64)) -> bool {
    ok ==> before.1 < after.1 <= after.0.len()
}

impl Parser {
    /// Invariant: the token list and its interpolated sources are not near
    /// the limit of addressable memory, and the position is at most one
    /// past the end.
    pub closed spec fn wf(&self) -> bool {
        &&& self.tokens.len() + 4 < usize::MAX
        &&& interp_bound(tokens_view(self.tokens@)) + 8 < usize::MAX
        &&& self.pos <= self.tokens.len() + 1
    }

    pub open spec fn ready(&self) -> bool {
        self.wf() && self@.1 <= self@.0.len()
    }

    /// A parser at the start of `tokens`, whose fresh tag ids start at
    /// `first_tag`.
    pub fn with_first_tag(tokens: Vec<Token>, first_tag: u64) -> (r: Self)
        requires
            tokens@.len() + 4 < usize::MAX,
            interp_bound(tokens_view(tokens@)) + 8 < usize::MAX,
        ensures
            r@ == (tokens_view(tokens@), 0int, first_tag),
            r.wf(),
    {
        Parser { tokens, pos: 0, next_tag: first_tag }
    }

    /// A parser at the start of `tokens`, whose fresh tag ids start at
    /// `FIRST_USER_TAG`.
    pub fn new(tokens: Vec<Token>) -> (r: Self)
        requires
            tokens@.len() + 4 < usize::MAX,
            interp_bound(tokens_view(tokens@)) + 8 < usize::MAX,
        ensures
            r@ == (tokens_view(tokens@), 0int, FIRST_USER_TAG),
            r.wf(),
    {
        Parser::with_first_tag(tokens, FIRST_USER_TAG)
    }

    /// The next tag id that the parser would hand out.
    pub fn next_tag_id(&self) -> (r: u64)
        ensures
            r == self@.2,
    {
        self.next_tag
    }

    fn fresh_tag(&mut self) -> (r: u64)
        ensures
            r == old(self)@.2,
            final(self)@ == (old(self)@.0, old(self)@.1, next_tag(old(self)@.2)),
            final(self).wf() == old(self).wf(),
    {
        let t = self.next_tag;
        self.next_tag = if t == u64::MAX { 0 } else { t + 1 };
        t
    }

    fn peek(&self) -> (r: Token)
        ensures
            r@ == tok(self@.0, self@.1),
    {
        if self.pos < self.tokens.len() {
            proof {
                crate::lexer::lemma_tokens_view_index(self.tokens@, self.pos as int);
            }
            self.tokens[self.pos].clone()
        } else {
            Token::Eof
        }
    }

    fn peek_at(&self, offset: usize) -> (r: Token)
        requires
            self.pos + offset < usize::MAX,
        ensures
            r@ == tok(self@.0, self@.1 + offset),
    {
        let p = self.pos + offset;
        if p < self.tokens.len() {
            proof {
                crate::lexer::lemma_tokens_view_index(self.tokens@, p as int);
            }
            self.tokens[p].clone()
        } else {
            Token::Eof
        }
    }

    fn advance(&mut self) -> (r: Token)
        requires
            old(self).wf(),
            old(self)@.1 <= old(self)@.0.len(),
        ensures
            r@ == tok(old(self)@.0, old(self)@.1),
            final(self)@ == (old(self)@.0, old(self)@.1 + 1, old(self)@.2),
            final(self).wf(),
    {
        let t = self.peek();
        self.pos = self.pos + 1;
        t
    }

    /// Consumes the next token, which must be `expected` (a token without
    /// a payload).
    fn expect(&mut self, expected: Token) -> (r: Result<(), String>)
        requires
            old(self).wf(),
            old(self)@.1 <= old(self)@.0.len(),
            simple_token(expected@),
        ensures
            final(self)@ == (old(self)@.0, old(self)@.1 + 1, old(self)@.2),
            final(self).wf(),
            tok(old(self)@.0, old(self)@.1) == expected@ ==> r is Ok,
            tok(old(self)@.0, old(self)@.1) != expected@ ==> r is Err && r->Err_0@ == expect_msg(expected@, tok(old(self)@.0, old(self)@.1)),
    {
        let t = self.advance();
        if same_simple_token(&t, &expected) {
            Ok(())
        } else {
            let mut m = text("expected ");
            let e = token_debug(&expected);
            push_str(&mut m, e.as_str());
            push_str(&mut m, ", got ");
            let g = token_debug(&t);
            push_str(&mut m, g.as_str());
            proof {
                reveal_strlit(", got ");
            }
            Err(m)
        }
    }
}

/// Tokens without a payload.
pub open spec fn simple_token(t: TokenV) -> bool {
    !(t is Int || t is BigInt || t is Float || t is Str || t is Char || t is Byte || t is InterpStr || t is Ident)
}

/// Whether `a` is the payload-free token `b`.
fn same_simple_token(a: &Token, b: &Token) -> (r: bool)
    requires
        simple_token(b@),
    ensures
        r == (a@ == b@),
{
    match (a, b) {
        (Token::LParen, Token::LParen) => true,
        (Token::RParen, Token::RParen) => true,
        (Token::LBracket, Token::LBracket) => true,
        (Token::RBracket, Token::RBracket) => true,
        (Token::LBrace, Token::LBrace) => true,
        (Token::RBrace, Token::RBrace) => true,
        (Token::Plus, Token::Plus) => true,
        (Token::Minus, Token::Minus) => true,
        (Token::Star, Token::Star) => true,
        (Token::Slash, Token::Slash) => true,
        (Token::EqEq, Token::EqEq) => true,
        (Token::NotEq, Token::NotEq) => true,
        (Token::Lt, Token::Lt) => true,
        (Token::Gt, Token::Gt) => true,
        (Token::LtEq, Token::LtEq) => true,
        (Token::GtEq, Token::GtEq) => true,
        (Token::Pipe, Token::Pipe) => true,
        (Token::Bar, Token::Bar) => true,
        (Token::Arrow, Token::Arrow) => true,
        (Token::DotDot, Token::DotDot) => true,
        (Token::Dot, Token::Dot) => true,
        (Token::Spread, Token::Spread) => true,
        (Token::Comma, Token::Comma) => true,
        (Token::Semicolon, Token::Semicolon) => true,
        (Token::Assign, Token::Assign) => true,
        (Token::Underscore, Token::Underscore) => true,
        (Token::Let, Token::Let) => true,
        (Token::In, Token::In) => true,
        (Token::If, Token::If) => true,
        (Token::Tag, Token::Tag) => true,
        (Token::NewTag, Token::NewTag) => true,
        (Token::True, Token::True) => true,
        (Token::False, Token::False) => true,
        (Token::Import, Token::Import) => true,
        (Token::Use, Token::Use) => true,
        (Token::Eof, Token::Eof) => true,
        _ => false,
    }
}


// ── Let chains ──

fn is_replaceable_body(pattern: &Pattern, body: &Expr) -> (r: bool)
    ensures
        r == replaceable(pattern_view(*pattern), expr_view(**body)),
{
    if let ExprKind::Unit = &**body {
        return true;
    }
    if let Pattern::Name(name) = pattern {
        if let ExprKind::Ident(body_name) = &**body {
            return *name == *body_name;
        }
    }
    false
}

fn has_replaceable_let(expr: &Expr) -> (r: bool)
    ensures
        r == ends_in_replaceable_let(expr_view(**expr)),
    decreases expr,
{
    match &**expr {
        ExprKind::Let { pattern, body } => {
            if is_replaceable_body(pattern, body) {
                true
            } else {
                has_replaceable_let(body)
            }
        },
        ExprKind::LetArray { body, .. } => {
            if let ExprKind::Unit = &**body {
                true
            } else {
                has_replaceable_let(body)
            }
        },
        ExprKind::Pipe(_, rhs) => has_replaceable_let(rhs),
        _ => false,
    }
}

fn has_nestable_binding(expr: &Expr) -> (r: bool)
    ensures
        r == ends_in_nestable_binding(expr_view(**expr)),
    decreases expr,
{
    match &**expr {
        ExprKind::Let { pattern, body } => {
            if is_replaceable_body(pattern, body) {
                true
            } else {
                has_nestable_binding(body)
            }
        },
        ExprKind::LetArray { .. } => true,
        ExprKind::Pipe(_, rhs) => has_nestable_binding(rhs),
        _ => false,
    }
}

fn sequence_of(lhs: Expr, rhs: Expr) -> (r: Expr)
    ensures
        expr_view(*r) == sequence(expr_view(*lhs), expr_view(*rhs)),
{
    proof {
        reveal_with_fuel(expr_view, 2);
    }
    Box::new(ExprKind::Pipe(lhs, Box::new(ExprKind::Let { pattern: Pattern::Discard, body: rhs })))
}

/// `lhs; rhs`: attaches `rhs` as the body of the innermost replaceable let
/// of `lhs`, or else sequences the two.
fn attach_body(lhs: Expr, rhs: Expr) -> (r: Expr)
    ensures
        expr_view(*r) == attach(expr_view(*lhs), expr_view(*rhs)),
    decreases lhs,
{
    proof {
        reveal_with_fuel(expr_view, 2);
    }
    match *lhs {
        ExprKind::Let { pattern, body } => {
            if is_replaceable_body(&pattern, &body) {
                Box::new(ExprKind::Let { pattern, body: rhs })
            } else if has_replaceable_let(&body) {
                let new_body = attach_body(body, rhs);
                Box::new(ExprKind::Let { pattern, body: new_body })
            } else {
                sequence_of(Box::new(ExprKind::Let { pattern, body }), rhs)
            }
        },
        ExprKind::LetArray { patterns, body } => {
            let is_unit = if let ExprKind::Unit = &*body { true } else { false };
            if is_unit {
                Box::new(ExprKind::LetArray { patterns, body: rhs })
            } else if has_replaceable_let(&body) {
                let new_body = attach_body(body, rhs);
                Box::new(ExprKind::LetArray { patterns, body: new_body })
            } else {
                sequence_of(Box::new(ExprKind::LetArray { patterns, body }), rhs)
            }
        },
        ExprKind::Pipe(pipe_lhs, pipe_rhs) => {
            if has_replaceable_let(&pipe_rhs) {
                let new_rhs = attach_body(pipe_rhs, rhs);
                Box::new(ExprKind::Pipe(pipe_lhs, new_rhs))
            } else {
                sequence_of(Box::new(ExprKind::Pipe(pipe_lhs, pipe_rhs)), rhs)
            }
        },
        other => sequence_of(Box::new(other), rhs),
    }
}

/// Replaces the innermost nestable binding's body `b` with `b >> new_let`.
fn nest_let_in_let(expr: Expr, new_let: Expr) -> (r: Expr)
    ensures
        expr_view(*r) == nest_in_let(expr_view(*expr), expr_view(*new_let)),
    decreases expr,
{
    proof {
        reveal_with_fuel(expr_view, 2);
    }
    match *expr {
        ExprKind::Let { pattern, body } => {
            if is_replaceable_body(&pattern, &body) {
                Box::new(ExprKind::Let { pattern, body: Box::new(ExprKind::Pipe(body, new_let)) })
            } else if has_nestable_binding(&body) {
                let new_body = nest_let_in_let(body, new_let);
                Box::new(ExprKind::Let { pattern, body: new_body })
            } else {
                Box::new(ExprKind::Pipe(Box::new(ExprKind::Let { pattern, body }), new_let))
            }
        },
        ExprKind::LetArray { patterns, body } => {
            Box::new(ExprKind::LetArray { patterns, body: Box::new(ExprKind::Pipe(body, new_let)) })
        },
        ExprKind::Pipe(pipe_lhs, pipe_rhs) => {
            if has_nestable_binding(&pipe_rhs) {
                let new_rhs = nest_let_in_let(pipe_rhs, new_let);
                Box::new(ExprKind::Pipe(pipe_lhs, new_rhs))
            } else {
                Box::new(ExprKind::Pipe(Box::new(ExprKind::Pipe(pipe_lhs, pipe_rhs)), new_let))
            }
        },
        other => Box::new(ExprKind::Pipe(Box::new(other), new_let)),
    }
}

fn nest_let_in_pipe(expr: Expr, new_let: Expr) -> (r: Expr)
    ensures
        expr_view(*r) == nest_in_pipe(expr_view(*expr), expr_view(*new_let)),
{
    match *expr {
        ExprKind::Pipe(pipe_lhs, pipe_rhs) => {
            let new_rhs = nest_let_in_let(pipe_rhs, new_let);
            Box::new(ExprKind::Pipe(pipe_lhs, new_rhs))
        },
        other => Box::new(ExprKind::Pipe(Box::new(other), new_let)),
    }
}

/// `let x = expr`: pipes `expr` into `new_let`, nested inside `expr`'s own
/// trailing binding so that both bindings stay in scope.
fn nest_let_in_expr(expr: Expr, new_let: Expr) -> (r: Expr)
    ensures
        expr_view(*r) == nest_in_expr(expr_view(*expr), expr_view(*new_let)),
{
    let nestable = match &*expr {
        ExprKind::Pipe(_, rhs) => has_nestable_binding(rhs),
        _ => false,
    };
    if nestable {
        nest_let_in_pipe(expr, new_let)
    } else {
        Box::new(ExprKind::Pipe(expr, new_let))
    }
}

/// The expression that gives back what `pattern` bound: the name itself,
/// `()` for a discard, or the hidden input of a multi-field pattern.
fn identity_expr_for_pattern(pattern: &Pattern) -> (r: Expr)
    ensures
        expr_view(*r) == identity_for(pattern_view(*pattern)),
{
    match pattern {
        Pattern::Name(name) => Box::new(ExprKind::Ident(name.clone())),
        Pattern::Discard => Box::new(ExprKind::Unit),
        Pattern::Fields(_) => Box::new(ExprKind::Ident(text("\0"))),
    }
}

fn is_underscore(s: &String) -> (r: bool)
    ensures
        r == (s@ == "_"@),
{
    *s == text("_")
}

fn pattern_to_array_pats(pattern: Pattern) -> (r: Vec<ArrayPat>)
    ensures
        array_pats_view(r@) == array_pats_of(pattern_view(pattern)),
{
    match pattern {
        Pattern::Fields(fields) => {
            let ghost fv = pat_fields_view(fields@);
            proof {
                crate::ast::lemma_pat_fields_view(fields@);
            }
            let mut out: Vec<ArrayPat> = Vec::new();
            let mut i: usize = 0;
            assert(array_pats_view(out@) =~= fv.take(0).map_values(|f: PatFieldV| array_pat_of(f)));
            while i < fields.len()
                invariant
                    i <= fields.len(),
                    fv == pat_fields_view(fields@),
                    fv.len() == fields.len(),
                    forall|k: int| 0 <= k < fields.len() ==> #[trigger] fv[k] == (PatFieldV {
                        label: opt_str(fields@[k].label),
                        binding: fields@[k].binding@,
                        is_rest: fields@[k].is_rest,
                    }),
                    array_pats_view(out@) == fv.take(i as int).map_values(|f: PatFieldV| array_pat_of(f)),
                decreases fields.len() - i,
            {
                let f = &fields[i];
                let ap = if f.is_rest {
                    if is_underscore(&f.binding) {
                        ArrayPat::Rest(None)
                    } else {
                        ArrayPat::Rest(Some(f.binding.clone()))
                    }
                } else if is_underscore(&f.binding) {
                    ArrayPat::Discard
                } else {
                    ArrayPat::Name(f.binding.clone())
                };
                let ghost prev = out@;
                out.push(ap);
                proof {
                    assert(out@.drop_last() =~= prev);
                    assert(fv.take(i + 1).map_values(|f: PatFieldV| array_pat_of(f)) =~= fv.take(i as int).map_values(|f: PatFieldV| array_pat_of(f)).push(array_pat_of(fv[i as int])));
                }
                i = i + 1;
            }
            assert(fv.take(fields.len() as int) =~= fv);
            out
        },
        Pattern::Name(name) => {
            let ghost nv = name@;
            let mut v: Vec<ArrayPat> = Vec::new();
            v.push(ArrayPat::Name(name));
            assert(v@.drop_last() =~= Seq::<ArrayPat>::empty());
            assert(array_pats_view(Seq::<ArrayPat>::empty()) =~= Seq::<ArrayPatV>::empty());
            assert(array_pats_view(v@) =~= seq![ArrayPatV::Name(nv)]);
            v
        },
        Pattern::Discard => {
            let mut v: Vec<ArrayPat> = Vec::new();
            v.push(ArrayPat::Discard);
            assert(v@.drop_last() =~= Seq::<ArrayPat>::empty());
            assert(array_pats_view(Seq::<ArrayPat>::empty()) =~= Seq::<ArrayPatV>::empty());
            assert(array_pats_view(v@) =~= seq![ArrayPatV::Discard]);
            v
        },
    }
}


/// `prefix` followed by the debug text of `t`.
fn msg_with_token(prefix: &str, t: &Token) -> (r: String)
    ensures
        r@ == prefix@ + token_debug_text(t@),
{
    let mut m = text(prefix);
    let d = token_debug(t);
    push_str(&mut m, d.as_str());
    m
}

pub open spec fn pattern_parsed(r: Result<Pattern, String>, before: (Seq<TokenV>, int, u64), after: (Seq<TokenV>, int, u64), spec: Result<(PatternV, int), Seq<char>>) -> bool {
    &&& after.0 == before.0
    &&& after.2 == before.2
    &&& match spec {
        Ok((pat, q)) => r is Ok && pattern_view(r->Ok_0) == pat && after.1 == q,
        Err(m) => r is Err && r->Err_0@ == m,
    }
}

impl Parser {
    /// Whether a pattern field at the current position has a label
    /// (`name = binding`).
    fn is_labeled_pat_field(&self) -> (r: bool)
        requires
            self.ready(),
        ensures
            r == is_labeled(self@.0, self@.1),
    {
        let a = self.peek();
        let b = self.peek_at(1);
        match (a, b) {
            (Token::Ident(_), Token::Assign) => true,
            _ => false,
        }
    }

    fn is_labeled_field(&self) -> (r: bool)
        requires
            self.ready(),
        ensures
            r == is_labeled(self@.0, self@.1),
    {
        let a = self.peek();
        let b = self.peek_at(1);
        match (a, b) {
            (Token::Ident(_), Token::Assign) => true,
            _ => false,
        }
    }

    fn is_comparison_token(&self) -> (r: bool)
        ensures
            r == is_comparison_tok(tok(self@.0, self@.1)),
    {
        match self.peek() {
            Token::EqEq | Token::NotEq | Token::Lt | Token::Gt | Token::LtEq | Token::GtEq => true,
            _ => false,
        }
    }

    fn is_binary_op_token(&self) -> (r: bool)
        ensures
            r == is_binop_tok(tok(self@.0, self@.1)),
    {
        match self.peek() {
            Token::Plus | Token::Star | Token::Slash | Token::DotDot | Token::EqEq | Token::NotEq
            | Token::Lt | Token::Gt | Token::LtEq | Token::GtEq => true,
            _ => false,
        }
    }

    /// Whether the block body at the current position is a branching block:
    /// a pattern (a name, a tag pattern, a literal or `_`) followed by `->`
    /// or by an `if` guard.
    fn is_branch_block_start(&self) -> (r: bool)
        requires
            self.ready(),
        ensures
            r == branch_start(self@.0, self@.1),
    {
        let ghost ts = self@.0;
        let ghost p = self@.1;
        let t = self.peek();
        let t1 = self.peek_at(1);
        match t {
            Token::Ident(_) => {
                match t1 {
                    Token::Arrow | Token::If => true,
                    Token::LParen => {
                        let mut offset: usize = 2;
                        let mut depth: usize = 1;
                        while depth > 0
                            invariant
                                self.ready(),
                                self@.0 == ts,
                                self@.1 == p,
                                tok(ts, p) is Ident,
                                tok(ts, p + 1) is LParen,
                                2 <= offset,
                                p + offset <= ts.len() + 2,
                                depth <= offset,
                                paren_scan(ts, p + offset, depth as nat) == paren_scan(ts, p + 2, 1),
                            decreases ts.len() + 2 - (p + offset),
                        {
                            match self.peek_at(offset) {
                                Token::LParen => {
                                    depth = depth + 1;
                                },
                                Token::RParen => {
                                    depth = depth - 1;
                                },
                                Token::Eof => {
                                    return false;
                                },
                                _ => {},
                            }
                            offset = offset + 1;
                        }
                        match self.peek_at(offset) {
                            Token::Arrow | Token::If => true,
                            _ => false,
                        }
                    },
                    _ => false,
                }
            },
            Token::True | Token::False | Token::Underscore => {
                match t1 {
                    Token::Arrow | Token::If => true,
                    _ => false,
                }
            },
            Token::Minus => {
                match t1 {
                    Token::Int(_) | Token::Float(_) => {
                        match self.peek_at(2) {
                            Token::Arrow | Token::If => true,
                            _ => false,
                        }
                    },
                    _ => false,
                }
            },
            Token::Int(_) | Token::Float(_) | Token::Str(_) | Token::Char(_) | Token::Byte(_) => {
                match t1 {
                    Token::Arrow | Token::If => true,
                    _ => false,
                }
            },
            Token::LParen => {
                match t1 {
                    Token::RParen => {
                        match self.peek_at(2) {
                            Token::Arrow | Token::If => true,
                            _ => false,
                        }
                    },
                    _ => false,
                }
            },
            _ => false,
        }
    }

    fn check_no_chained_comparison(&self) -> (r: Result<(), String>)
        ensures
            r is Err <==> is_comparison_tok(tok(self@.0, self@.1)),
            r is Err ==> r->Err_0@ == "non-associative: chained comparisons require parentheses"@,
    {
        if self.is_comparison_token() {
            Err(text("non-associative: chained comparisons require parentheses"))
        } else {
            Ok(())
        }
    }

    // ── Keyword forms ──

    /// `tag(Name)`: sugar for `new_tag >> let(Name)`.
    fn parse_tag_sugar(&mut self) -> (r: Result<Expr, String>)
        requires
            old(self).ready(),
            tok(old(self)@.0, old(self)@.1) is Tag,
        ensures
            parsed(r, old(self)@, final(self)@, tag_sugar(old(self)@.0, old(self)@.1, old(self)@.2)),
            advanced(r is Ok, old(self)@, final(self)@),
            final(self).wf(),
    {
        proof {
            reveal_with_fuel(expr_view, 3);
        }
        self.advance();
        self.expect(Token::LParen)?;
        let name = match self.advance() {
            Token::Ident(n) => n,
            t => {
                return Err(msg_with_token("expected identifier in tag(), got ", &t));
            },
        };
        self.expect(Token::RParen)?;
        let tag_id = self.fresh_tag();
        let body = Box::new(ExprKind::Ident(name.clone()));
        Ok(Box::new(ExprKind::Pipe(
            Box::new(ExprKind::NewTag(tag_id, Some(name.clone()))),
            Box::new(ExprKind::Let { pattern: Pattern::Name(name), body }),
        )))
    }

    /// `import("name")`.
    fn parse_import(&mut self) -> (r: Result<Expr, String>)
        requires
            old(self).ready(),
            tok(old(self)@.0, old(self)@.1) is Import,
        ensures
            parsed(r, old(self)@, final(self)@, import_form(old(self)@.0, old(self)@.1, old(self)@.2)),
            advanced(r is Ok, old(self)@, final(self)@),
            final(self).wf(),
    {
        self.advance();
        self.expect(Token::LParen)?;
        let name = match self.advance() {
            Token::Str(s) => s,
            t => {
                return Err(msg_with_token("expected string in import(), got ", &t));
            },
        };
        self.expect(Token::RParen)?;
        Ok(Box::new(ExprKind::Import(name)))
    }

    /// `use(name)`: sugar for `import("name") >> let(name)`.
    fn parse_use(&mut self) -> (r: Result<Expr, String>)
        requires
            old(self).ready(),
            tok(old(self)@.0, old(self)@.1) is Use,
        ensures
            parsed(r, old(self)@, final(self)@, use_form(old(self)@.0, old(self)@.1, old(self)@.2)),
            advanced(r is Ok, old(self)@, final(self)@),
            final(self).wf(),
    {
        proof {
            reveal_with_fuel(expr_view, 3);
        }
        self.advance();
        self.expect(Token::LParen)?;
        let name = match self.advance() {
            Token::Ident(n) => n,
            t => {
                return Err(msg_with_token("expected identifier in use(), got ", &t));
            },
        };
        self.expect(Token::RParen)?;
        let body = Box::new(ExprKind::Ident(name.clone()));
        Ok(Box::new(ExprKind::Pipe(
            Box::new(ExprKind::Import(name.clone())),
            Box::new(ExprKind::Let { pattern: Pattern::Name(name), body }),
        )))
    }
}


impl Parser {
    // ── Let patterns ──

    /// The name after `...` in a pattern, or `_`.
    fn parse_rest_name(&mut self) -> (r: String)
        requires
            old(self).ready(),
        ensures
            (r@, final(self)@.1) == rest_name(old(self)@.0, old(self)@.1),
            final(self)@.0 == old(self)@.0,
            final(self)@.2 == old(self)@.2,
            final(self).ready(),
    {
        match self.peek() {
            Token::Ident(n) => {
                self.advance();
                n
            },
            _ => text("_"),
        }
    }

    fn parse_remaining_pat_fields(&mut self, fields: &mut Vec<PatField>) -> (r: Result<(), String>)
        requires
            old(self).ready(),
        ensures
            final(self)@.0 == old(self)@.0,
            final(self)@.2 == old(self)@.2,
            final(self).wf(),
            match rem_pat_fields(old(self)@.0, old(self)@.1, pat_fields_view(old(fields)@)) {
                Ok((fs, q)) => r is Ok && pat_fields_view(final(fields)@) == fs && final(self)@.1 == q,
                Err(m) => r is Err && r->Err_0@ == m,
            },
            r is Ok ==> old(self)@.1 <= final(self)@.1 <= final(self)@.0.len(),
    {
        let ghost ts = self@.0;
        let ghost p = self@.1;
        let ghost f0 = pat_fields_view(fields@);
        loop
            invariant
                self.ready(),
                self@.0 == ts,
                ts == old(self)@.0,
                p == old(self)@.1,
                self@.2 == old(self)@.2,
                f0 == pat_fields_view(old(fields)@),
                p <= self@.1,
                rem_pat_fields(ts, self@.1, pat_fields_view(fields@)) == rem_pat_fields(ts, p, f0),
            decreases remaining(ts, self@.1),
        {
            let ghost q0 = self@.1;
            let ghost fv = pat_fields_view(fields@);
            proof {
                crate::ast::lemma_pat_fields_view(fields@);
            }
            let t = self.peek();
            let field = match t {
                Token::RParen | Token::RBracket => {
                    return Ok(());
                },
                Token::Spread => {
                    if has_rest_field(fields) {
                        return Err(text("multiple rest patterns (...) in one destructuring"));
                    }
                    self.advance();
                    let name = self.parse_rest_name();
                    PatField { label: None, binding: name, is_rest: true }
                },
                Token::Underscore => {
                    self.advance();
                    PatField { label: None, binding: text("_"), is_rest: false }
                },
                Token::Ident(name) => {
                    if self.is_labeled_pat_field() {
                        self.advance();
                        self.advance();
                        let binding = match self.peek() {
                            Token::Ident(b) => {
                                self.advance();
                                b
                            },
                            Token::Underscore => {
                                self.advance();
                                text("_")
                            },
                            _ => {
                                return Err(text("expected binding name after '=' in pattern"));
                            },
                        };
                        PatField { label: Some(name), binding, is_rest: false }
                    } else {
                        self.advance();
                        PatField { label: None, binding: name, is_rest: false }
                    }
                },
                _ => {
                    return Ok(());
                },
            };
            let ghost fdv = PatFieldV { label: opt_str(field.label), binding: field.binding@, is_rest: field.is_rest };
            let ghost prev = fields@;
            fields.push(field);
            proof {
                assert(fields@.drop_last() =~= prev);
                assert(pat_fields_view(fields@) =~= fv.push(fdv));
            }
            match self.peek() {
                Token::Comma => {
                    self.advance();
                },
                _ => {
                    return Ok(());
                },
            }
        }
    }
}

fn has_rest_field(fields: &Vec<PatField>) -> (r: bool)
    ensures
        r == has_rest(pat_fields_view(fields@)),
{
    let ghost fv = pat_fields_view(fields@);
    proof {
        crate::ast::lemma_pat_fields_view(fields@);
    }
    let mut k: usize = 0;
    while k < fields.len()
        invariant
            k <= fields.len(),
            fv == pat_fields_view(fields@),
            fv.len() == fields.len(),
            forall|j: int| 0 <= j < fields.len() ==> #[trigger] fv[j].is_rest == fields@[j].is_rest,
            forall|j: int| 0 <= j < k ==> !(#[trigger] fv[j]).is_rest,
        decreases fields.len() - k,
    {
        if fields[k].is_rest {
            assert(fv[k as int].is_rest);
            return true;
        }
        k = k + 1;
    }
    false
}


impl Parser {
    /// The fields after the first ones in `fields`, as a `Fields` pattern.
    fn finish_fields(&mut self, fields: Vec<PatField>) -> (r: Result<Pattern, String>)
        requires
            old(self).ready(),
        ensures
            pattern_parsed(r, old(self)@, final(self)@, fields_from(rem_pat_fields(old(self)@.0, old(self)@.1, pat_fields_view(fields@)))),
            final(self).wf(),
            r is Ok ==> old(self)@.1 <= final(self)@.1 <= final(self)@.0.len(),
    {
        let mut fields = fields;
        self.parse_remaining_pat_fields(&mut fields)?;
        Ok(Pattern::Fields(fields))
    }

    fn one_field(binding: String, is_rest: bool) -> (r: Vec<PatField>)
        ensures
            pat_fields_view(r@) == seq![pat_field(None, binding@, is_rest)],
    {
        let ghost b = binding@;
        let mut v: Vec<PatField> = Vec::new();
        v.push(PatField { label: None, binding, is_rest });
        assert(v@.drop_last() =~= Seq::<PatField>::empty());
        assert(pat_fields_view(Seq::<PatField>::empty()) =~= Seq::<PatFieldV>::empty());
        assert(pat_fields_view(v@) =~= seq![pat_field(None, b, is_rest)]);
        v
    }

    fn parse_destructure_pattern(&mut self) -> (r: Result<Pattern, String>)
        requires
            old(self).ready(),
        ensures
            pattern_parsed(r, old(self)@, final(self)@, destructure(old(self)@.0, old(self)@.1)),
            final(self).wf(),
            r is Ok ==> old(self)@.1 <= final(self)@.1 <= final(self)@.0.len(),
    {
        let ghost ts = self@.0;
        let ghost p = self@.1;
        let t = self.peek();
        match t {
            Token::Underscore => {
                self.advance();
                match self.peek() {
                    Token::RParen | Token::RBracket => {
                        return Ok(Pattern::Discard);
                    },
                    Token::Comma => {
                        self.advance();
                        let fields = Parser::one_field(text("_"), false);
                        return self.finish_fields(fields);
                    },
                    _ => {
                        let fields = Parser::one_field(text("_"), false);
                        return Ok(Pattern::Fields(fields));
                    },
                }
            },
            Token::Spread => {
                self.advance();
                let name = self.parse_rest_name();
                let fields = Parser::one_field(name, true);
                match self.peek() {
                    Token::Comma => {
                        self.advance();
                        return self.finish_fields(fields);
                    },
                    _ => {
                        return Ok(Pattern::Fields(fields));
                    },
                }
            },
            _ => {},
        }
        if self.is_labeled_pat_field() {
            return self.finish_fields(Vec::new());
        }
        match t {
            Token::Ident(name) => {
                self.advance();
                match self.peek() {
                    Token::Comma => {
                        self.advance();
                        let fields = Parser::one_field(name, false);
                        self.finish_fields(fields)
                    },
                    _ => Ok(Pattern::Name(name)),
                }
            },
            _ => Err(msg_with_token("expected pattern in let, got ", &t)),
        }
    }

    /// `(pattern)` or `[pattern]` after `let`; `true` for an array pattern.
    fn parse_let_pattern(&mut self) -> (r: Result<(Pattern, bool), String>)
        requires
            old(self).ready(),
        ensures
            final(self)@.0 == old(self)@.0,
            final(self)@.2 == old(self)@.2,
            final(self).wf(),
            match let_pattern(old(self)@.0, old(self)@.1) {
                Ok((pat, is_array, q)) => r is Ok && pattern_view(r->Ok_0.0) == pat && r->Ok_0.1 == is_array
                    && final(self)@.1 == q,
                Err(m) => r is Err && r->Err_0@ == m,
            },
            r is Ok ==> old(self)@.1 < final(self)@.1 <= final(self)@.0.len(),
    {
        let t = self.peek();
        match t {
            Token::LParen => {
                self.advance();
                let pat = self.parse_destructure_pattern()?;
                self.expect(Token::RParen)?;
                Ok((pat, false))
            },
            Token::LBracket => {
                self.advance();
                let pat = self.parse_destructure_pattern()?;
                self.expect(Token::RBracket)?;
                Ok((pat, true))
            },
            _ => Err(msg_with_token("expected '(' or '[' after 'let', got ", &t)),
        }
    }

    // ── Branch patterns ──

    fn parse_branch_pattern(&mut self) -> (r: Result<BranchPattern, String>)
        requires
            old(self).ready(),
        ensures
            final(self)@.0 == old(self)@.0,
            final(self)@.2 == old(self)@.2,
            final(self).wf(),
            match branch_pattern(old(self)@.0, old(self)@.1) {
                Ok((pat, q)) => r is Ok && branch_pattern_view(r->Ok_0) == pat && final(self)@.1 == q,
                Err(m) => r is Err && r->Err_0@ == m,
            },
            r is Ok ==> old(self)@.1 < final(self)@.1 <= final(self)@.0.len(),
    {
        proof {
            reveal_with_fuel(expr_view, 2);
        }
        let t = self.peek();
        match t {
            Token::Underscore => {
                self.advance();
                Ok(BranchPattern::Discard)
            },
            Token::LParen => {
                match self.peek_at(1) {
                    Token::RParen => {
                        self.advance();
                        self.advance();
                        Ok(BranchPattern::Literal(Box::new(ExprKind::Unit)))
                    },
                    _ => Err(msg_with_token("expected pattern in branch arm, got ", &t)),
                }
            },
            Token::True => {
                self.advance();
                Ok(BranchPattern::Literal(Box::new(ExprKind::Bool(true))))
            },
            Token::False => {
                self.advance();
                Ok(BranchPattern::Literal(Box::new(ExprKind::Bool(false))))
            },
            Token::Minus => {
                self.advance();
                match self.peek() {
                    Token::Int(n) => {
                        self.advance();
                        Ok(BranchPattern::Literal(Box::new(ExprKind::UnaryMinus(Box::new(ExprKind::Int(n))))))
                    },
                    Token::Float(f) => {
                        self.advance();
                        Ok(BranchPattern::Literal(Box::new(ExprKind::UnaryMinus(Box::new(ExprKind::Float(f))))))
                    },
                    Token::BigInt(n) => {
                        if n == MIN_INT_MAGNITUDE {
                            self.advance();
                            Ok(BranchPattern::Literal(Box::new(ExprKind::Int(i64::MIN))))
                        } else {
                            Err(msg_with_token("expected number after '-' in pattern, got ", &Token::BigInt(n)))
                        }
                    },
                    t1 => Err(msg_with_token("expected number after '-' in pattern, got ", &t1)),
                }
            },
            Token::Int(n) => {
                self.advance();
                Ok(BranchPattern::Literal(Box::new(ExprKind::Int(n))))
            },
            Token::Float(f) => {
                self.advance();
                Ok(BranchPattern::Literal(Box::new(ExprKind::Float(f))))
            },
            Token::Str(s) => {
                self.advance();
                Ok(BranchPattern::Literal(Box::new(ExprKind::Str(s))))
            },
            Token::Char(c) => {
                self.advance();
                Ok(BranchPattern::Literal(Box::new(ExprKind::Char(c))))
            },
            Token::Byte(b) => {
                self.advance();
                Ok(BranchPattern::Literal(Box::new(ExprKind::Byte(b))))
            },
            Token::Ident(name) => {
                self.advance();
                match self.peek() {
                    Token::LParen => {
                        self.advance();
                        let binding = match self.peek() {
                            Token::Underscore => {
                                self.advance();
                                Some(BranchBinding::Discard)
                            },
                            Token::Ident(bname) => {
                                self.advance();
                                Some(BranchBinding::Name(bname))
                            },
                            Token::RParen => None,
                            other => {
                                return Err(msg_with_token("expected binding in tag pattern, got ", &other));
                            },
                        };
                        self.expect(Token::RParen)?;
                        Ok(BranchPattern::Tag(name, binding))
                    },
                    _ => Ok(BranchPattern::Binding(name)),
                }
            },
            _ => Err(msg_with_token("expected pattern in branch arm, got ", &t)),
        }
    }
}


/// Success stays within the tokens and does not move back.
pub open spec fn kept(ok: bool, before: (Seq<TokenV>, int, u64), after: (Seq<TokenV>, int, u64)) -> bool {
    ok ==> before.1 <= after.1 <= after.0.len()
}

pub open spec fn step_parsed(r: Result<(Expr, bool), String>, before: (Seq<TokenV>, int, u64), after: (Seq<TokenV>, int, u64), spec: Result<(ExprV, int, u64, bool), Seq<char>>) -> bool {
    &&& after.0 == before.0
    &&& match spec {
        Ok((e, q, g, m)) => r is Ok && expr_view(*r->Ok_0.0) == e && r->Ok_0.1 == m && after.1 == q && after.2 == g,
        Err(msg) => r is Err && r->Err_0@ == msg,
    }
}

pub proof fn lemma_interp_err_extends(ts: Seq<TokenV>, p: int, parts: Seq<PartV>, k: int, g: u64)
    requires
        0 <= k <= parts.len(),
        interp(ts, p, parts.take(k), g) is Err,
    ensures
        interp(ts, p, parts, g) == interp(ts, p, parts.take(k), g),
    decreases parts.len() - k,
{
    if k < parts.len() {
        assert(parts.take(k + 1).drop_last() =~= parts.take(k));
        lemma_interp_err_extends(ts, p, parts, k + 1, g);
    } else {
        assert(parts.take(k) =~= parts);
    }
}

fn comparison_op_of(t: &Token) -> (r: CmpOp)
    requires
        is_comparison_tok(t@),
    ensures
        r == comparison_op(t@),
{
    match t {
        Token::EqEq => CmpOp::Eq,
        Token::NotEq => CmpOp::NotEq,
        Token::Lt => CmpOp::Lt,
        Token::Gt => CmpOp::Gt,
        Token::LtEq => CmpOp::LtEq,
        _ => CmpOp::GtEq,
    }
}

fn placeholder_let_expr(pattern: Pattern, is_array: bool) -> (r: Expr)
    ensures
        expr_view(*r) == placeholder_let(pattern_view(pattern), is_array),
{
    proof {
        reveal_with_fuel(expr_view, 2);
    }
    if is_array {
        let patterns = pattern_to_array_pats(pattern);
        Box::new(ExprKind::LetArray { patterns, body: Box::new(ExprKind::Unit) })
    } else {
        Box::new(ExprKind::Let { pattern, body: Box::new(ExprKind::Unit) })
    }
}

impl Parser {
    /// Parses a whole program: an expression followed by the end of input.
    pub fn parse_program(&mut self) -> (r: Result<Expr, String>)
        requires
            old(self).wf(),
        ensures
            parsed(r, old(self)@, final(self)@, program(old(self)@.0, old(self)@.1, old(self)@.2)),
            final(self).wf(),
        decreases interp_bound(self@.0), remaining(self@.0, self@.1), 10nat, 0nat,
    {
        if matches!(self.peek(), Token::Eof) {
            return Ok(Box::new(ExprKind::Unit));
        }
        let expr = self.parse_expr(0)?;
        let t = self.peek();
        if !matches!(t, Token::Eof) {
            return Err(msg_with_token("unexpected token after expression: ", &t));
        }
        Ok(expr)
    }

    // ── The Pratt loop ──

    fn parse_expr(&mut self, min_bp: u8) -> (r: Result<Expr, String>)
        requires
            old(self).ready(),
        ensures
            parsed(r, old(self)@, final(self)@, expr(old(self)@.0, old(self)@.1, min_bp, old(self)@.2)),
            advanced(r is Ok, old(self)@, final(self)@),
            final(self).wf(),
        decreases interp_bound(self@.0), remaining(self@.0, self@.1), 6nat, 0nat,
    {
        let lhs = self.parse_prefix()?;
        self.parse_expr_with_lhs(lhs, min_bp)
    }

    /// Resumes Pratt parsing with an already-parsed `lhs`.
    fn parse_expr_with_lhs(&mut self, lhs: Expr, min_bp: u8) -> (r: Result<Expr, String>)
        requires
            old(self).ready(),
        ensures
            parsed(r, old(self)@, final(self)@, expr_loop(old(self)@.0, old(self)@.1, expr_view(*lhs), min_bp, old(self)@.2)),
            kept(r is Ok, old(self)@, final(self)@),
            final(self).wf(),
        decreases interp_bound(self@.0), remaining(self@.0, self@.1), 7nat, 0nat,
    {
        let (next, more) = self.parse_step(lhs, min_bp)?;
        if !more {
            return Ok(next);
        }
        self.parse_expr_with_lhs(next, min_bp)
    }

    /// A block body that starts with an operator: `in` is its left side.
    fn parse_sugar_body(&mut self, lhs: Expr) -> (r: Result<Expr, String>)
        requires
            old(self).ready(),
        ensures
            parsed(r, old(self)@, final(self)@, expr_loop(old(self)@.0, old(self)@.1, expr_view(*lhs), 0, old(self)@.2)),
            kept(r is Ok, old(self)@, final(self)@),
            final(self).wf(),
        decreases interp_bound(self@.0), remaining(self@.0, self@.1), 8nat, 0nat,
    {
        self.parse_expr_with_lhs(lhs, 0)
    }

    /// The right operand of `op` and the operation.
    fn parse_binop_rhs(&mut self, lhs: Expr, op: BinOp, rbp: u8) -> (r: Result<(Expr, bool), String>)
        requires
            old(self).ready(),
            old(self)@.1 < old(self)@.0.len(),
        ensures
            step_parsed(r, old(self)@, final(self)@, binop_after(old(self)@.0, old(self)@.1, op, expr_view(*lhs), rbp, old(self)@.2)),
            advanced(r is Ok, old(self)@, final(self)@),
            final(self).wf(),
        decreases interp_bound(self@.0), remaining(self@.0, self@.1), 4nat, 0nat,
    {
        self.advance();
        let rhs = self.parse_expr(rbp)?;
        if matches!(op, BinOp::Div) && matches!(self.peek(), Token::Star | Token::Slash) {
            return Err(text("ambiguous precedence: use parentheses around division"));
        }
        Ok((Box::new(ExprKind::BinOp(op, lhs, rhs)), true))
    }

    /// One postfix or infix operator after `lhs`; `false` when none applies.
    fn parse_step(&mut self, lhs: Expr, min_bp: u8) -> (r: Result<(Expr, bool), String>)
        requires
            old(self).ready(),
        ensures
            step_parsed(r, old(self)@, final(self)@, step(old(self)@.0, old(self)@.1, expr_view(*lhs), min_bp, old(self)@.2)),
            r is Ok && r->Ok_0.1 ==> old(self)@.1 < final(self)@.1 <= final(self)@.0.len(),
            r is Ok && !r->Ok_0.1 ==> final(self)@.1 == old(self)@.1,
            final(self).wf(),
        decreases interp_bound(self@.0), remaining(self@.0, self@.1), 6nat, 0nat,
    {
        if matches!(self.peek(), Token::LParen | Token::LBrace | Token::LBracket | Token::Dot) && min_bp <= POSTFIX {
            self.parse_postfix(lhs)
        } else {
            self.parse_infix(lhs, min_bp)
        }
    }

    /// A call, method call or field access on `lhs`.
    fn parse_postfix(&mut self, lhs: Expr) -> (r: Result<(Expr, bool), String>)
        requires
            old(self).ready(),
        ensures
            step_parsed(r, old(self)@, final(self)@, postfix_step(old(self)@.0, old(self)@.1, expr_view(*lhs), old(self)@.2)),
            r is Ok && r->Ok_0.1 ==> old(self)@.1 < final(self)@.1 <= final(self)@.0.len(),
            r is Ok && !r->Ok_0.1 ==> final(self)@.1 == old(self)@.1,
            final(self).wf(),
        decreases interp_bound(self@.0), remaining(self@.0, self@.1), 5nat, 0nat,
    {
        let t = self.peek();
        if matches!(t, Token::LParen) {
            self.advance();
            let arg = self.parse_call_args()?;
            return Ok((Box::new(ExprKind::Call(lhs, arg)), true));
        }
        if matches!(t, Token::LBrace) {
            let block = self.parse_block()?;
            return Ok((Box::new(ExprKind::Call(lhs, block)), true));
        }
        if matches!(t, Token::LBracket) {
            let arr = self.parse_array()?;
            return Ok((Box::new(ExprKind::Call(lhs, arr)), true));
        }
        if matches!(t, Token::Dot) {
            self.advance();
            let field = match self.advance() {
                Token::Ident(name) => name,
                Token::Int(n) => i64_decimal(n),
                other => {
                    return Err(msg_with_token("expected field name after '.', got ", &other));
                },
            };
            let t2 = self.peek();
            if matches!(t2, Token::LParen) {
                self.advance();
                let arg = self.parse_call_args()?;
                return Ok((Box::new(ExprKind::MethodCall { receiver: lhs, method: field, arg }), true));
            }
            if matches!(t2, Token::LBrace) {
                let block = self.parse_block()?;
                return Ok((Box::new(ExprKind::MethodCall { receiver: lhs, method: field, arg: block }), true));
            }
            if matches!(t2, Token::LBracket) {
                let arr = self.parse_array()?;
                return Ok((Box::new(ExprKind::MethodCall { receiver: lhs, method: field, arg: arr }), true));
            }
            return Ok((Box::new(ExprKind::FieldAccess(lhs, field)), true));
        }
        Ok((lhs, false))
    }

    /// An infix operator after `lhs` that binds at least `min_bp`.
    fn parse_infix(&mut self, lhs: Expr, min_bp: u8) -> (r: Result<(Expr, bool), String>)
        requires
            old(self).ready(),
        ensures
            step_parsed(r, old(self)@, final(self)@, infix_step(old(self)@.0, old(self)@.1, expr_view(*lhs), min_bp, old(self)@.2)),
            r is Ok && r->Ok_0.1 ==> old(self)@.1 < final(self)@.1 <= final(self)@.0.len(),
            r is Ok && !r->Ok_0.1 ==> final(self)@.1 == old(self)@.1,
            final(self).wf(),
        decreases interp_bound(self@.0), remaining(self@.0, self@.1), 5nat, 0nat,
    {
        let t = self.peek();
        if matches!(t, Token::Star) && min_bp <= MUL_L {
            return self.parse_binop_rhs(lhs, BinOp::Mul, MUL_R);
        }
        if matches!(t, Token::Slash) && min_bp <= MUL_L {
            return self.parse_binop_rhs(lhs, BinOp::Div, MUL_R);
        }
        if matches!(t, Token::Plus) && min_bp <= ADD_L {
            return self.parse_binop_rhs(lhs, BinOp::Add, ADD_R);
        }
        if matches!(t, Token::Minus) && min_bp <= ADD_L {
            return self.parse_binop_rhs(lhs, BinOp::Sub, ADD_R);
        }
        if self.is_comparison_token() && min_bp <= CMP_L {
            let op = comparison_op_of(&t);
            self.advance();
            let rhs = self.parse_expr(CMP_R)?;
            self.check_no_chained_comparison()?;
            return Ok((Box::new(ExprKind::Compare(op, lhs, rhs)), true));
        }
        if matches!(t, Token::DotDot) && min_bp <= RANGE_L {
            self.advance();
            let rhs = self.parse_expr(RANGE_R)?;
            if matches!(self.peek(), Token::DotDot) {
                return Err(text("non-associative: chained ranges require parentheses"));
            }
            return Ok((Box::new(ExprKind::Range(lhs, rhs)), true));
        }
        if matches!(t, Token::Pipe) && min_bp <= PIPE_L {
            self.advance();
            let e = self.parse_pipe_rhs(lhs, min_bp)?;
            return Ok((e, true));
        }
        if matches!(t, Token::Semicolon) && min_bp <= SEMI_L {
            self.advance();
            let e = self.parse_semicolon_rhs(lhs)?;
            return Ok((e, true));
        }
        Ok((lhs, false))
    }

    // ── Pipes and lets ──

    fn parse_pipe_rhs(&mut self, lhs: Expr, min_bp: u8) -> (r: Result<Expr, String>)
        requires
            old(self).ready(),
        ensures
            parsed(r, old(self)@, final(self)@, pipe_rhs(old(self)@.0, old(self)@.1, expr_view(*lhs), min_bp, old(self)@.2)),
            advanced(r is Ok, old(self)@, final(self)@),
            final(self).wf(),
        decreases interp_bound(self@.0), remaining(self@.0, self@.1), 8nat, 0nat,
    {
        proof {
            reveal_with_fuel(expr_view, 2);
        }
        match self.peek() {
            Token::Let => {
                self.advance();
                self.parse_pipe_let(lhs, min_bp)
            },
            _ => {
                let rhs = self.parse_expr(PIPE_R)?;
                Ok(Box::new(ExprKind::Pipe(lhs, rhs)))
            },
        }
    }

    /// `let(pattern)` after `>>`, and its body; `lhs` is the bound value.
    fn parse_pipe_let(&mut self, lhs: Expr, min_bp: u8) -> (r: Result<Expr, String>)
        requires
            old(self).ready(),
        ensures
            parsed(r, old(self)@, final(self)@, pipe_let(old(self)@.0, old(self)@.1, expr_view(*lhs), min_bp, old(self)@.2)),
            advanced(r is Ok, old(self)@, final(self)@),
            final(self).wf(),
        decreases interp_bound(self@.0), remaining(self@.0, self@.1), 3nat, 0nat,
    {
        proof {
            reveal_with_fuel(expr_view, 2);
        }
        let (pattern, is_array) = self.parse_let_pattern()?;
        let body = self.parse_let_body(&pattern, min_bp)?;
        if is_array {
            let patterns = pattern_to_array_pats(pattern);
            Ok(Box::new(ExprKind::Pipe(lhs, Box::new(ExprKind::LetArray { patterns, body }))))
        } else {
            Ok(Box::new(ExprKind::Pipe(lhs, Box::new(ExprKind::Let { pattern, body }))))
        }
    }

    /// The body after `let(pattern)`. When `min_bp` is above `;`, a `;`
    /// belongs to an outer context and is left alone.
    fn parse_let_body(&mut self, pattern: &Pattern, min_bp: u8) -> (r: Result<Expr, String>)
        requires
            old(self).ready(),
        ensures
            parsed(r, old(self)@, final(self)@, let_body(old(self)@.0, old(self)@.1, pattern_view(*pattern), min_bp, old(self)@.2)),
            kept(r is Ok, old(self)@, final(self)@),
            final(self).wf(),
        decreases interp_bound(self@.0), remaining(self@.0, self@.1), 2nat, 0nat,
    {
        let ghost ts = self@.0;
        let ghost p = self@.1;
        let ghost g = self@.2;
        let t = self.peek();
        if matches!(t, Token::Pipe) {
            let mut current = identity_expr_for_pattern(pattern);
            loop
                invariant
                    self.ready(),
                    self@.0 == ts,
                    ts == old(self)@.0,
                    p == old(self)@.1,
                    g == old(self)@.2,
                    p <= self@.1,
                    tok(ts, p) is Pipe,
                    let_pipes(ts, self@.1, expr_view(*current), min_bp, self@.2)
                        == let_pipes(ts, p, identity_for(pattern_view(*pattern)), min_bp, g),
                decreases remaining(ts, self@.1),
            {
                if matches!(self.peek(), Token::Pipe) {
                    self.advance();
                    current = self.parse_pipe_rhs(current, min_bp)?;
                } else if min_bp <= SEMI_L && matches!(self.peek(), Token::Semicolon) {
                    self.advance();
                    let rest = self.parse_expr(SEMI_R)?;
                    return Ok(sequence_of(current, rest));
                } else {
                    return Ok(current);
                }
            }
        } else if matches!(t, Token::Semicolon) && min_bp <= SEMI_L {
            self.advance();
            self.parse_expr(SEMI_R)
        } else {
            Ok(identity_expr_for_pattern(pattern))
        }
    }

    /// What follows `;`: the continuation is attached to `lhs`'s let chain.
    fn parse_semicolon_rhs(&mut self, lhs: Expr) -> (r: Result<Expr, String>)
        requires
            old(self).ready(),
        ensures
            parsed(r, old(self)@, final(self)@, semicolon_rhs(old(self)@.0, old(self)@.1, expr_view(*lhs), old(self)@.2)),
            kept(r is Ok, old(self)@, final(self)@),
            final(self).wf(),
        decreases interp_bound(self@.0), remaining(self@.0, self@.1), 8nat, 0nat,
    {
        if matches!(self.peek(), Token::Eof | Token::RBrace | Token::RParen | Token::RBracket) {
            return Ok(attach_body(lhs, Box::new(ExprKind::Unit)));
        }
        let rhs = self.parse_expr(SEMI_R)?;
        Ok(attach_body(lhs, rhs))
    }
}


impl Parser {
    // ── Prefix expressions ──

    fn parse_prefix(&mut self) -> (r: Result<Expr, String>)
        requires
            old(self).ready(),
        ensures
            parsed(r, old(self)@, final(self)@, prefix(old(self)@.0, old(self)@.1, old(self)@.2)),
            advanced(r is Ok, old(self)@, final(self)@),
            final(self).wf(),
        decreases interp_bound(self@.0), remaining(self@.0, self@.1), 5nat, 0nat,
    {
        let ghost ts = self@.0;
        let ghost p = self@.1;
        let t = self.peek();
        match t {
            Token::Int(n) => {
                self.advance();
                Ok(Box::new(ExprKind::Int(n)))
            },
            Token::Float(f) => {
                self.advance();
                Ok(Box::new(ExprKind::Float(f)))
            },
            Token::True => {
                self.advance();
                Ok(Box::new(ExprKind::Bool(true)))
            },
            Token::False => {
                self.advance();
                Ok(Box::new(ExprKind::Bool(false)))
            },
            Token::Str(s) => {
                self.advance();
                Ok(Box::new(ExprKind::Str(s)))
            },
            Token::InterpStr(parts) => {
                proof {
                    crate::lexer::lemma_interp_bound_elem(ts, p);
                }
                self.advance();
                self.parse_interp_string(parts)
            },
            Token::Char(c) => {
                self.advance();
                Ok(Box::new(ExprKind::Char(c)))
            },
            Token::Byte(b) => {
                self.advance();
                Ok(Box::new(ExprKind::Byte(b)))
            },
            Token::In => {
                self.advance();
                Ok(Box::new(ExprKind::Ident(text("in"))))
            },
            Token::NewTag => {
                self.advance();
                let id = self.fresh_tag();
                Ok(Box::new(ExprKind::NewTag(id, None)))
            },
            Token::Ident(name) => {
                self.advance();
                Ok(Box::new(ExprKind::Ident(name)))
            },
            Token::Underscore => {
                self.advance();
                Ok(Box::new(ExprKind::Ident(text("_"))))
            },
            Token::Minus => {
                self.advance();
                if let Token::BigInt(n) = self.peek() {
                    if n == MIN_INT_MAGNITUDE {
                        self.advance();
                        return Ok(Box::new(ExprKind::Int(i64::MIN)));
                    }
                }
                let operand = self.parse_expr(UNARY_OPERAND)?;
                if matches!(self.peek(), Token::Dot | Token::LParen | Token::LBrace | Token::LBracket) {
                    return Err(text("ambiguous: `-x.f()` is a syntax error; write `(-x).f()` or `-(x.f())`"));
                }
                Ok(Box::new(ExprKind::UnaryMinus(operand)))
            },
            Token::LBrace => self.parse_block(),
            Token::LBracket => self.parse_array(),
            Token::LParen => self.parse_paren(),
            Token::Let => self.parse_standalone_let(),
            Token::Tag => self.parse_tag_sugar(),
            Token::Import => self.parse_import(),
            Token::Use => self.parse_use(),
            _ => Err(msg_with_token("unexpected token in expression: ", &t)),
        }
    }

    /// One part of an interpolated string: an expression part is lexed and
    /// parsed as a program of its own, with the tag ids continuing.
    fn parse_interp_part(&mut self, part: &StringPart) -> (r: Result<StringInterpPart, String>)
        requires
            old(self).wf(),
            1 <= old(self)@.1,
            part_bound(part@) <= interp_bound(old(self)@.0),
        ensures
            final(self)@.0 == old(self)@.0,
            final(self)@.1 == old(self)@.1,
            final(self).wf(),
            match interp_one(old(self)@.0, old(self)@.1 - 1, part@, old(self)@.2) {
                Ok((pv, g2)) => r is Ok && interp_part_view(r->Ok_0) == pv && final(self)@.2 == g2,
                Err(m) => r is Err && r->Err_0@ == m,
            },
        decreases interp_bound(self@.0), remaining(self@.0, self@.1), 4nat, 0nat,
    {
        match part {
            StringPart::Literal(s) => Ok(StringInterpPart::Literal(s.clone())),
            StringPart::Expr(src) => {
                let mut lexer = Lexer::new(src.as_str());
                let tokens = match lexer.tokenize() {
                    Ok(t) => t,
                    Err(e) => {
                        return Err(concat("error in string interpolation: ", e.as_str()));
                    },
                };
                proof {
                    crate::lexer::lemma_tokens_from_bound(src@, 0, seq![]);
                    crate::lexer::lemma_tokens_from_len(src@, 0, seq![]);
                }
                let mut sub = Parser::with_first_tag(tokens, self.next_tag);
                let expr = match sub.parse_program() {
                    Ok(e) => e,
                    Err(e) => {
                        return Err(concat("error in string interpolation: ", e.as_str()));
                    },
                };
                self.next_tag = sub.next_tag;
                Ok(StringInterpPart::Expr(expr))
            },
        }
    }

    /// The parts of an interpolated string, after its token.
    fn parse_interp_string(&mut self, parts: Vec<StringPart>) -> (r: Result<Expr, String>)
        requires
            old(self).wf(),
            1 <= old(self)@.1,
            parts_bound(crate::lexer::parts_view(parts@)) <= interp_bound(old(self)@.0),
        ensures
            final(self)@.0 == old(self)@.0,
            final(self)@.1 == old(self)@.1,
            final(self).wf(),
            match interp(old(self)@.0, old(self)@.1 - 1, crate::lexer::parts_view(parts@), old(self)@.2) {
                Ok((ps, g2)) => r is Ok && expr_view(*r->Ok_0) == ExprV::StringInterp(ps) && final(self)@.2 == g2,
                Err(m) => r is Err && r->Err_0@ == m,
            },
        decreases interp_bound(self@.0), remaining(self@.0, self@.1), 5nat, 0nat,
    {
        let ghost ts = self@.0;
        let ghost p = self@.1 - 1;
        let ghost g0 = self@.2;
        let ghost pv = crate::lexer::parts_view(parts@);
        let mut ast_parts: Vec<StringInterpPart> = Vec::new();
        let mut i: usize = 0;
        proof {
            lemma_empty_views();
            assert(pv.take(0) =~= Seq::<PartV>::empty());
        }
        while i < parts.len()
            invariant
                self.wf(),
                self@.0 == ts,
                ts == old(self)@.0,
                self@.1 == p + 1,
                p + 1 == old(self)@.1,
                g0 == old(self)@.2,
                1 <= p + 1,
                i <= parts.len(),
                pv == crate::lexer::parts_view(parts@),
                parts_bound(pv) <= interp_bound(ts),
                interp(ts, p, pv.take(i as int), g0) == Ok::<(Seq<InterpPartV>, u64), Seq<char>>((interp_parts_view(ast_parts@), self@.2)),
            decreases parts.len() - i,
        {
            proof {
                assert(pv.take(i + 1).drop_last() =~= pv.take(i as int));
                assert(pv.take(i + 1).last() == pv[i as int]);
                assert(pv[i as int] == parts@[i as int]@);
                crate::lexer::lemma_parts_bound_elem(pv, i as int);
            }
            let part = match self.parse_interp_part(&parts[i]) {
                Ok(part) => part,
                Err(e) => {
                    proof {
                        lemma_interp_err_extends(ts, p, pv, i + 1, g0);
                    }
                    return Err(e);
                },
            };
            let ghost prev = ast_parts@;
            proof {
                lemma_interp_parts_view_push(prev, part);
            }
            ast_parts.push(part);
            i = i + 1;
        }
        proof {
            assert(pv.take(parts.len() as int) =~= pv);
        }
        Ok(Box::new(ExprKind::StringInterp(ast_parts)))
    }

    // ── Blocks ──

    fn parse_block(&mut self) -> (r: Result<Expr, String>)
        requires
            old(self).ready(),
            tok(old(self)@.0, old(self)@.1) is LBrace,
        ensures
            parsed(r, old(self)@, final(self)@, block(old(self)@.0, old(self)@.1, old(self)@.2)),
            advanced(r is Ok, old(self)@, final(self)@),
            final(self).wf(),
        decreases interp_bound(self@.0), remaining(self@.0, self@.1), 4nat, 0nat,
    {
        proof {
            reveal_with_fuel(expr_view, 2);
        }
        self.advance();
        if matches!(self.peek(), Token::RBrace) {
            self.advance();
            return Ok(Box::new(ExprKind::Block(Box::new(ExprKind::Unit))));
        }
        if self.is_branch_block_start() {
            return self.parse_branch_block();
        }
        if matches!(self.peek(), Token::Minus) {
            return Err(text("ambiguous: `{ -expr }` could be subtraction or negation; write `{ in - expr }` or `{ (-expr) }`"));
        }
        let body = if self.is_binary_op_token() || matches!(self.peek(), Token::Pipe) {
            let in_expr = Box::new(ExprKind::Ident(text("in")));
            self.parse_sugar_body(in_expr)?
        } else {
            self.parse_expr(0)?
        };
        self.parse_block_end(body)
    }

    /// `}` after a block's body, or the ternary sugar `{ a | b }`.
    fn parse_block_end(&mut self, body: Expr) -> (r: Result<Expr, String>)
        requires
            old(self).ready(),
        ensures
            parsed(r, old(self)@, final(self)@, block_end(old(self)@.0, old(self)@.1, expr_view(*body), old(self)@.2)),
            advanced(r is Ok, old(self)@, final(self)@),
            final(self).wf(),
        decreases interp_bound(self@.0), remaining(self@.0, self@.1), 3nat, 0nat,
    {
        proof {
            reveal_with_fuel(expr_view, 2);
        }
        if matches!(self.peek(), Token::Bar) {
            self.advance();
            let false_branch = self.parse_expr(0)?;
            self.expect(Token::RBrace)?;
            let mut arms: Vec<BranchArm> = Vec::new();
            let a1 = BranchArm {
                pattern: BranchPattern::Literal(Box::new(ExprKind::Bool(true))),
                guard: None,
                body,
            };
            let ghost a1v = arm_view(a1);
            let a2 = BranchArm {
                pattern: BranchPattern::Literal(Box::new(ExprKind::Bool(false))),
                guard: None,
                body: false_branch,
            };
            let ghost a2v = arm_view(a2);
            proof {
                lemma_empty_views();
                lemma_arms_view_push(Seq::<BranchArm>::empty(), a1);
                lemma_arms_view_push(Seq::<BranchArm>::empty().push(a1), a2);
                assert(Seq::<BranchArm>::empty().push(a1).push(a2) =~= seq![a1, a2]);
                assert(arms_view(seq![a1, a2]) =~= seq![a1v, a2v]);
            }
            arms.push(a1);
            arms.push(a2);
            assert(arms@ =~= seq![a1, a2]);
            return Ok(Box::new(ExprKind::BranchBlock(arms)));
        }
        self.expect(Token::RBrace)?;
        Ok(Box::new(ExprKind::Block(body)))
    }

    /// The arms of a branching block, up to and including its `}`.
    fn parse_branch_block(&mut self) -> (r: Result<Expr, String>)
        requires
            old(self).ready(),
        ensures
            parsed(r, old(self)@, final(self)@, branch_arms(old(self)@.0, old(self)@.1, seq![], old(self)@.2)),
            advanced(r is Ok, old(self)@, final(self)@),
            final(self).wf(),
        decreases interp_bound(self@.0), remaining(self@.0, self@.1), 3nat, 0nat,
    {
        let ghost ts = self@.0;
        let ghost p = self@.1;
        let ghost g = self@.2;
        let mut arms: Vec<BranchArm> = Vec::new();
        proof {
            lemma_empty_views();
        }
        loop
            invariant
                self.ready(),
                self@.0 == ts,
                ts == old(self)@.0,
                p == old(self)@.1,
                g == old(self)@.2,
                p <= self@.1,
                branch_arms(ts, self@.1, arms_view(arms@), self@.2) == branch_arms(ts, p, seq![], g),
            decreases remaining(ts, self@.1),
        {
            if matches!(self.peek(), Token::RBrace) {
                self.advance();
                return Ok(Box::new(ExprKind::BranchBlock(arms)));
            }
            let pattern = self.parse_branch_pattern()?;
            let guard = if matches!(self.peek(), Token::If) {
                self.advance();
                Some(self.parse_expr(PIPE_R)?)
            } else {
                None
            };
            self.expect(Token::Arrow)?;
            let body = self.parse_expr(SEMI_R)?;
            let arm = BranchArm { pattern, guard, body };
            let ghost prev = arms@;
            proof {
                lemma_arms_view_push(prev, arm);
            }
            arms.push(arm);
            if matches!(self.peek(), Token::Comma) {
                self.advance();
            } else {
                self.expect(Token::RBrace)?;
                return Ok(Box::new(ExprKind::BranchBlock(arms)));
            }
        }
    }

    // ── Arrays, parentheses and structs ──

    fn parse_array(&mut self) -> (r: Result<Expr, String>)
        requires
            old(self).ready(),
            tok(old(self)@.0, old(self)@.1) is LBracket,
        ensures
            parsed(r, old(self)@, final(self)@, array(old(self)@.0, old(self)@.1, old(self)@.2)),
            advanced(r is Ok, old(self)@, final(self)@),
            final(self).wf(),
        decreases interp_bound(self@.0), remaining(self@.0, self@.1), 4nat, 0nat,
    {
        let ghost ts = self@.0;
        let ghost p = self@.1;
        let ghost g = self@.2;
        proof {
            lemma_empty_views();
        }
        self.advance();
        if matches!(self.peek(), Token::RBracket) {
            self.advance();
            return Ok(Box::new(ExprKind::Array(Vec::new())));
        }
        let mut elems: Vec<Expr> = Vec::new();
        let first = self.parse_expr(NO_SEMI)?;
        proof {
            lemma_exprs_view_push(elems@, first);
        }
        elems.push(first);
        loop
            invariant
                self.ready(),
                self@.0 == ts,
                ts == old(self)@.0,
                p == old(self)@.1,
                g == old(self)@.2,
                p < self@.1,
                tok(ts, p) is LBracket,
                array_rest(ts, self@.1, exprs_view(elems@), self@.2) == array(ts, p, g),
            decreases remaining(ts, self@.1),
        {
            if matches!(self.peek(), Token::Comma) {
                self.advance();
                if matches!(self.peek(), Token::RBracket) {
                    self.advance();
                    return Ok(Box::new(ExprKind::Array(elems)));
                }
                let e = self.parse_expr(NO_SEMI)?;
                proof {
                    lemma_exprs_view_push(elems@, e);
                }
                elems.push(e);
            } else {
                self.expect(Token::RBracket)?;
                return Ok(Box::new(ExprKind::Array(elems)));
            }
        }
    }

    fn parse_paren(&mut self) -> (r: Result<Expr, String>)
        requires
            old(self).ready(),
            tok(old(self)@.0, old(self)@.1) is LParen,
        ensures
            parsed(r, old(self)@, final(self)@, paren(old(self)@.0, old(self)@.1, old(self)@.2)),
            advanced(r is Ok, old(self)@, final(self)@),
            final(self).wf(),
        decreases interp_bound(self@.0), remaining(self@.0, self@.1), 4nat, 0nat,
    {
        proof {
            lemma_empty_views();
        }
        self.advance();
        if matches!(self.peek(), Token::RParen) {
            self.advance();
            return Ok(Box::new(ExprKind::Unit));
        }
        if matches!(self.peek(), Token::Spread) {
            return self.parse_struct_fields(Vec::new());
        }
        if self.is_labeled_field() {
            return self.parse_struct_fields(Vec::new());
        }
        let first = self.parse_expr(0)?;
        let t = self.peek();
        match t {
            Token::RParen => {
                self.advance();
                Ok(Box::new(ExprKind::Group(first)))
            },
            Token::Comma => {
                self.advance();
                if matches!(self.peek(), Token::RParen) {
                    self.advance();
                    return Ok(Box::new(ExprKind::Group(first)));
                }
                let mut fields: Vec<Field> = Vec::new();
                let f = Field { label: None, value: first, is_spread: false };
                proof {
                    lemma_fields_view_push(fields@, f);
                }
                fields.push(f);
                self.parse_struct_fields(fields)
            },
            _ => Err(msg_with_token("expected ')', ',', or ';' in parenthesized expression, got ", &t)),
        }
    }

    fn parse_struct_fields(&mut self, fields: Vec<Field>) -> (r: Result<Expr, String>)
        requires
            old(self).ready(),
        ensures
            parsed(r, old(self)@, final(self)@, struct_fields(old(self)@.0, old(self)@.1, fields_view(fields@), old(self)@.2)),
            advanced(r is Ok, old(self)@, final(self)@),
            final(self).wf(),
        decreases interp_bound(self@.0), remaining(self@.0, self@.1), 8nat, 0nat,
    {
        let mut fields = fields;
        self.parse_remaining_struct_fields(&mut fields)?;
        self.expect(Token::RParen)?;
        Ok(Box::new(ExprKind::Struct(fields)))
    }

    fn parse_remaining_struct_fields(&mut self, fields: &mut Vec<Field>) -> (r: Result<(), String>)
        requires
            old(self).ready(),
        ensures
            final(self)@.0 == old(self)@.0,
            final(self).wf(),
            match rem_fields(old(self)@.0, old(self)@.1, fields_view(old(fields)@), old(self)@.2) {
                Ok((fs, q, g2)) => r is Ok && fields_view(final(fields)@) == fs && final(self)@.1 == q && final(self)@.2 == g2,
                Err(m) => r is Err && r->Err_0@ == m,
            },
            kept(r is Ok, old(self)@, final(self)@),
        decreases interp_bound(self@.0), remaining(self@.0, self@.1), 7nat, 0nat,
    {
        let ghost ts = self@.0;
        let ghost p = self@.1;
        let ghost g = self@.2;
        let ghost f0 = fields_view(fields@);
        loop
            invariant
                self.ready(),
                self@.0 == ts,
                ts == old(self)@.0,
                p == old(self)@.1,
                g == old(self)@.2,
                f0 == fields_view(old(fields)@),
                p <= self@.1,
                rem_fields(ts, self@.1, fields_view(fields@), self@.2) == rem_fields(ts, p, f0, g),
            decreases remaining(ts, self@.1),
        {
            let t = self.peek();
            if matches!(t, Token::RParen) {
                return Ok(());
            }
            let f = if matches!(t, Token::Spread) {
                self.advance();
                let e = self.parse_expr(NO_SEMI)?;
                Field { label: None, value: e, is_spread: true }
            } else if self.is_labeled_field() {
                let (label, value) = self.parse_labeled_field()?;
                Field { label: Some(label), value, is_spread: false }
            } else {
                let e = self.parse_expr(NO_SEMI)?;
                Field { label: None, value: e, is_spread: false }
            };
            let ghost prev = fields@;
            proof {
                lemma_fields_view_push(prev, f);
            }
            fields.push(f);
            if matches!(self.peek(), Token::Comma) {
                self.advance();
            } else {
                return Ok(());
            }
        }
    }

    fn parse_labeled_field(&mut self) -> (r: Result<(String, Expr), String>)
        requires
            old(self).ready(),
        ensures
            final(self)@.0 == old(self)@.0,
            final(self).wf(),
            match labeled_field(old(self)@.0, old(self)@.1, old(self)@.2) {
                Ok((l, v, q, g2)) => r is Ok && r->Ok_0.0@ == l && expr_view(*r->Ok_0.1) == v && final(self)@.1 == q
                    && final(self)@.2 == g2,
                Err(m) => r is Err && r->Err_0@ == m,
            },
            advanced(r is Ok, old(self)@, final(self)@),
        decreases interp_bound(self@.0), remaining(self@.0, self@.1), 6nat, 0nat,
    {
        let label = match self.advance() {
            Token::Ident(l) => l,
            _ => {
                return Err(text("expected identifier for field label"));
            },
        };
        self.expect(Token::Assign)?;
        let value = self.parse_expr(NO_SEMI)?;
        Ok((label, value))
    }

    // ── Standalone let ──

    fn parse_standalone_let(&mut self) -> (r: Result<Expr, String>)
        requires
            old(self).ready(),
            tok(old(self)@.0, old(self)@.1) is Let,
        ensures
            parsed(r, old(self)@, final(self)@, standalone_let(old(self)@.0, old(self)@.1, old(self)@.2)),
            advanced(r is Ok, old(self)@, final(self)@),
            final(self).wf(),
        decreases interp_bound(self@.0), remaining(self@.0, self@.1), 4nat, 0nat,
    {
        proof {
            reveal_with_fuel(expr_view, 2);
        }
        self.advance();
        let t = self.peek();
        let t1 = self.peek_at(1);
        if matches!(t, Token::Underscore) && matches!(t1, Token::Assign) {
            self.advance();
            self.expect(Token::Assign)?;
            let value_expr = self.parse_expr(NO_SEMI)?;
            let new_let = Box::new(ExprKind::Let { pattern: Pattern::Discard, body: Box::new(ExprKind::Unit) });
            return Ok(nest_let_in_expr(value_expr, new_let));
        }
        if let Token::Ident(name) = t {
            if matches!(t1, Token::Assign) {
                self.advance();
                self.expect(Token::Assign)?;
                let value_expr = self.parse_expr(NO_SEMI)?;
                let new_let = Box::new(ExprKind::Let {
                    pattern: Pattern::Name(name.clone()),
                    body: Box::new(ExprKind::Ident(name)),
                });
                return Ok(nest_let_in_expr(value_expr, new_let));
            }
        }
        let (pattern, is_array) = self.parse_let_pattern()?;
        if matches!(self.peek(), Token::Assign) {
            self.advance();
            let value_expr = self.parse_expr(NO_SEMI)?;
            let new_let = placeholder_let_expr(pattern, is_array);
            return Ok(nest_let_in_expr(value_expr, new_let));
        }
        Ok(placeholder_let_expr(pattern, is_array))
    }

    // ── Call arguments ──

    fn parse_call_args(&mut self) -> (r: Result<Expr, String>)
        requires
            old(self).ready(),
        ensures
            parsed(r, old(self)@, final(self)@, call_args(old(self)@.0, old(self)@.1, old(self)@.2)),
            advanced(r is Ok, old(self)@, final(self)@),
            final(self).wf(),
        decreases interp_bound(self@.0), remaining(self@.0, self@.1), 9nat, 0nat,
    {
        proof {
            lemma_empty_views();
        }
        if matches!(self.peek(), Token::RParen) {
            self.advance();
            return Ok(Box::new(ExprKind::Unit));
        }
        if self.is_labeled_field() || matches!(self.peek(), Token::Spread) {
            return self.parse_struct_fields(Vec::new());
        }
        let first = self.parse_expr(NO_SEMI)?;
        let t = self.peek();
        match t {
            Token::RParen => {
                self.advance();
                Ok(first)
            },
            Token::Comma => {
                self.advance();
                if matches!(self.peek(), Token::RParen) {
                    self.advance();
                    return Ok(first);
                }
                let mut fields: Vec<Field> = Vec::new();
                let f = Field { label: None, value: first, is_spread: false };
                proof {
                    lemma_fields_view_push(fields@, f);
                }
                fields.push(f);
                self.parse_struct_fields(fields)
            },
            _ => Err(msg_with_token("expected ')' or ',' in function call, got ", &t)),
        }
    }
}


/// The token of `+` or `-`.
pub open spec fn additive_tok(plus: bool) -> TokenV {
    if plus {
        TokenV::Plus
    } else {
        TokenV::Minus
    }
}

/// The operator of `+` or `-`.
pub open spec fn additive_op(plus: bool) -> BinOp {
    if plus {
        BinOp::Add
    } else {
        BinOp::Sub
    }
}

/// `+` and `-` associate to the left: of two additions or subtractions in
/// a row, the left one is applied first, so `a - b - c` is `(a - b) - c`
/// and `a - b + c` is `(a - b) + c`.
pub proof fn law_additive_operators_associate_left(a: i64, b: i64, c: i64, plus1: bool, plus2: bool, g: u64)
    ensures
        program(
            seq![TokenV::Int(a), additive_tok(plus1), TokenV::Int(b), additive_tok(plus2), TokenV::Int(c), TokenV::Eof],
            0,
            g,
        ) == Ok::<(ExprV, int, u64), Seq<char>>(
            (
                ExprV::BinOp(
                    additive_op(plus2),
                    Box::new(ExprV::BinOp(additive_op(plus1), Box::new(ExprV::Int(a)), Box::new(ExprV::Int(b)))),
                    Box::new(ExprV::Int(c)),
                ),
                5,
                g,
            ),
        ),
{
    let ts = seq![TokenV::Int(a), additive_tok(plus1), TokenV::Int(b), additive_tok(plus2), TokenV::Int(c), TokenV::Eof];
    let ea = ExprV::Int(a);
    let eb = ExprV::Int(b);
    let ec = ExprV::Int(c);
    let ab = ExprV::BinOp(additive_op(plus1), Box::new(ea), Box::new(eb));
    let abc = ExprV::BinOp(additive_op(plus2), Box::new(ab), Box::new(ec));
    assert(tok(ts, 0) == TokenV::Int(a));
    assert(tok(ts, 2) == TokenV::Int(b));
    assert(tok(ts, 4) == TokenV::Int(c));
    assert(tok(ts, 5) == TokenV::Eof);
    assert(tok(ts, 1) == additive_tok(plus1));
    assert(tok(ts, 3) == additive_tok(plus2));
    // `c`, then the end.
    assert(prefix(ts, 4, g) == Ok::<(ExprV, int, u64), Seq<char>>((ec, 5, g)));
    assert(infix_step(ts, 5, ec, ADD_R, g) == Ok::<(ExprV, int, u64, bool), Seq<char>>((ec, 5, g, false)));
    assert(step(ts, 5, ec, ADD_R, g) == Ok::<(ExprV, int, u64, bool), Seq<char>>((ec, 5, g, false)));
    assert(expr_loop(ts, 5, ec, ADD_R, g) == Ok::<(ExprV, int, u64), Seq<char>>((ec, 5, g)));
    assert(expr(ts, 4, ADD_R, g) == Ok::<(ExprV, int, u64), Seq<char>>((ec, 5, g)));
    // `b` stops before the second operator, which binds less than `ADD_R`.
    assert(prefix(ts, 2, g) == Ok::<(ExprV, int, u64), Seq<char>>((eb, 3, g)));
    assert(infix_step(ts, 3, eb, ADD_R, g) == Ok::<(ExprV, int, u64, bool), Seq<char>>((eb, 3, g, false)));
    assert(step(ts, 3, eb, ADD_R, g) == Ok::<(ExprV, int, u64, bool), Seq<char>>((eb, 3, g, false)));
    assert(expr_loop(ts, 3, eb, ADD_R, g) == Ok::<(ExprV, int, u64), Seq<char>>((eb, 3, g)));
    assert(expr(ts, 2, ADD_R, g) == Ok::<(ExprV, int, u64), Seq<char>>((eb, 3, g)));
    // The left operator, then the right one.
    assert(binop_after(ts, 1, additive_op(plus1), ea, ADD_R, g) == Ok::<(ExprV, int, u64, bool), Seq<char>>((ab, 3, g, true)));
    assert(step(ts, 1, ea, 0, g) == Ok::<(ExprV, int, u64, bool), Seq<char>>((ab, 3, g, true)));
    assert(binop_after(ts, 3, additive_op(plus2), ab, ADD_R, g) == Ok::<(ExprV, int, u64, bool), Seq<char>>((abc, 5, g, true)));
    assert(step(ts, 3, ab, 0, g) == Ok::<(ExprV, int, u64, bool), Seq<char>>((abc, 5, g, true)));
    assert(infix_step(ts, 5, abc, 0, g) == Ok::<(ExprV, int, u64, bool), Seq<char>>((abc, 5, g, false)));
    assert(step(ts, 5, abc, 0, g) == Ok::<(ExprV, int, u64, bool), Seq<char>>((abc, 5, g, false)));
    assert(expr_loop(ts, 5, abc, 0, g) == Ok::<(ExprV, int, u64), Seq<char>>((abc, 5, g)));
    assert(expr_loop(ts, 3, ab, 0, g) == Ok::<(ExprV, int, u64), Seq<char>>((abc, 5, g)));
    assert(expr_loop(ts, 1, ea, 0, g) == Ok::<(ExprV, int, u64), Seq<char>>((abc, 5, g)));
    assert(prefix(ts, 0, g) == Ok::<(ExprV, int, u64), Seq<char>>((ea, 1, g)));
    assert(expr(ts, 0, 0, g) == Ok::<(ExprV, int, u64), Seq<char>>((abc, 5, g)));
}

} // verus!
