//! Fresh tag ids: each `new_tag` and `tag(..)` of a program gets an id of
//! its own, counting up from the first fresh id.
use vstd::prelude::*;
use vstd::multiset::Multiset;

use crate::ast::{ArmV, BranchPatternV, ExprV, FieldV, InterpPartV, PatternV};
use crate::lexer::{PartV, TokenV, interp_bound, spec_tokenize};
use crate::spec_parse;
use crate::parser::{
    FIRST_USER_TAG, PRes, array, array_rest, attach, binop_after, block, block_end, branch_arms, branch_pattern,
    branch_start, call_args, ends_in_nestable_binding, ends_in_replaceable_let, expr, expr_loop,
    identity_for, in_ident, infix_step, interp, interp_one, is_labeled, labeled_field,
    let_body, let_pattern, let_pipes, more, nest_in_expr, nest_in_let, nest_in_pipe,
    next_tag, paren, pipe_let, pipe_rhs, placeholder_let, positional, postfix_step, prefix, program,
    rem_fields, remaining, replaceable, semicolon_rhs, sequence, standalone_let, step, struct_fields,
    tag_sugar, tok, use_form,
};

verus! {

broadcast use vstd::multiset::group_multiset_axioms;

/// The tag ids of the `NewTag` nodes of an expression, with repetitions.
pub open spec fn tag_ms(e: ExprV) -> Multiset<u64>
    decreases e,
{
    match e {
        ExprV::NewTag(id, _) => Multiset::singleton(id),
        ExprV::Block(b) => tag_ms(*b),
        ExprV::BranchBlock(arms) => arms_tag_ms(arms),
        ExprV::Array(es) => exprs_tag_ms(es),
        ExprV::Struct(fs) => fields_tag_ms(fs),
        ExprV::StringInterp(ps) => parts_tag_ms(ps),
        ExprV::FieldAccess(a, _) => tag_ms(*a),
        ExprV::Call(f, a) => tag_ms(*f).add(tag_ms(*a)),
        ExprV::MethodCall(r, _, a) => tag_ms(*r).add(tag_ms(*a)),
        ExprV::UnaryMinus(a) => tag_ms(*a),
        ExprV::BinOp(_, a, b) => tag_ms(*a).add(tag_ms(*b)),
        ExprV::Compare(_, a, b) => tag_ms(*a).add(tag_ms(*b)),
        ExprV::Pipe(a, b) => tag_ms(*a).add(tag_ms(*b)),
        ExprV::Let(_, b) => tag_ms(*b),
        ExprV::LetArray(_, b) => tag_ms(*b),
        ExprV::Range(a, b) => tag_ms(*a).add(tag_ms(*b)),
        ExprV::Apply(a, b) => tag_ms(*a).add(tag_ms(*b)),
        ExprV::Group(a) => tag_ms(*a),
        _ => Multiset::empty(),
    }
}

pub open spec fn exprs_tag_ms(es: Seq<ExprV>) -> Multiset<u64>
    decreases es,
{
    if es.len() == 0 {
        Multiset::empty()
    } else {
        exprs_tag_ms(es.drop_last()).add(tag_ms(es.last()))
    }
}

pub open spec fn fields_tag_ms(fs: Seq<FieldV>) -> Multiset<u64>
    decreases fs,
{
    if fs.len() == 0 {
        Multiset::empty()
    } else {
        fields_tag_ms(fs.drop_last()).add(tag_ms(fs.last().value))
    }
}

pub open spec fn parts_tag_ms(ps: Seq<InterpPartV>) -> Multiset<u64>
    decreases ps,
{
    if ps.len() == 0 {
        Multiset::empty()
    } else {
        let last = match ps.last() {
            InterpPartV::Expr(e) => tag_ms(e),
            InterpPartV::Literal(_) => Multiset::empty(),
        };
        parts_tag_ms(ps.drop_last()).add(last)
    }
}

pub open spec fn arms_tag_ms(arms: Seq<ArmV>) -> Multiset<u64>
    decreases arms,
{
    if arms.len() == 0 {
        Multiset::empty()
    } else {
        let a = arms.last();
        let g = match a.guard {
            Some(g) => tag_ms(g),
            None => Multiset::empty(),
        };
        let l = match a.pattern {
            BranchPatternV::Literal(lit) => tag_ms(lit),
            _ => Multiset::empty(),
        };
        arms_tag_ms(arms.drop_last()).add(g.add(tag_ms(a.body)).add(l))
    }
}

/// The tag id `k` steps after `g`.
pub open spec fn tag_after(g: u64, k: nat) -> u64
    decreases k,
{
    if k == 0 {
        g
    } else {
        next_tag(tag_after(g, (k - 1) as nat))
    }
}

/// The `k` tag ids from `g` on: `g`, the one after it, and so on.
pub open spec fn tag_range(g: u64, k: nat) -> Multiset<u64>
    decreases k,
{
    if k == 0 {
        Multiset::empty()
    } else {
        tag_range(g, (k - 1) as nat).insert(tag_after(g, (k - 1) as nat))
    }
}

/// `after` is `before` with the next fresh ids from `g` added, and `g2` is
/// the id after them.
pub open spec fn grows(before: Multiset<u64>, after: Multiset<u64>, g: u64, g2: u64) -> bool {
    exists|k: nat| after == before.add(#[trigger] tag_range(g, k)) && g2 == tag_after(g, k)
}

// ── Counting ──

pub proof fn lemma_tag_after_add(g: u64, a: nat, b: nat)
    ensures
        tag_after(tag_after(g, a), b) == tag_after(g, a + b),
    decreases b,
{
    if b > 0 {
        lemma_tag_after_add(g, a, (b - 1) as nat);
    }
}

pub proof fn lemma_tag_range_add(g: u64, a: nat, b: nat)
    ensures
        tag_range(g, a).add(tag_range(tag_after(g, a), b)) == tag_range(g, a + b),
    decreases b,
{
    if b == 0 {
        assert(tag_range(g, a).add(Multiset::empty()) =~= tag_range(g, a));
    } else {
        lemma_tag_range_add(g, a, (b - 1) as nat);
        lemma_tag_after_add(g, a, (b - 1) as nat);
        let x = tag_after(g, (a + b - 1) as nat);
        assert(tag_range(g, a).add(tag_range(tag_after(g, a), (b - 1) as nat).insert(x)) =~= tag_range(g, a).add(
            tag_range(tag_after(g, a), (b - 1) as nat),
        ).insert(x));
    }
}

pub proof fn lemma_grows_refl(a: Multiset<u64>, g: u64)
    ensures
        grows(a, a, g, g),
{
    assert(a == a.add(tag_range(g, 0)));
}

pub proof fn lemma_grows_trans(a: Multiset<u64>, b: Multiset<u64>, c: Multiset<u64>, g: u64, g1: u64, g2: u64)
    requires
        grows(a, b, g, g1),
        grows(b, c, g1, g2),
    ensures
        grows(a, c, g, g2),
{
    let k1 = choose|k: nat| b == a.add(#[trigger] tag_range(g, k)) && g1 == tag_after(g, k);
    let k2 = choose|k: nat| c == b.add(#[trigger] tag_range(g1, k)) && g2 == tag_after(g1, k);
    lemma_tag_range_add(g, k1, k2);
    lemma_tag_after_add(g, k1, k2);
    assert(c =~= a.add(tag_range(g, k1 + k2)));
}

/// Framing: tags that are there before and after do not matter.
pub proof fn lemma_grows_frame(a: Multiset<u64>, b: Multiset<u64>, x: Multiset<u64>, g: u64, g2: u64)
    requires
        grows(a, b, g, g2),
    ensures
        grows(x.add(a), x.add(b), g, g2),
        grows(a.add(x), b.add(x), g, g2),
{
    let k = choose|k: nat| b == a.add(#[trigger] tag_range(g, k)) && g2 == tag_after(g, k);
    assert(x.add(b) =~= x.add(a).add(tag_range(g, k)));
    assert(b.add(x) =~= a.add(x).add(tag_range(g, k)));
}

/// A tree made of fresh parts in order.
pub proof fn lemma_grows_fresh_pair(a: Multiset<u64>, b: Multiset<u64>, g: u64, g1: u64, g2: u64)
    requires
        grows(Multiset::empty(), a, g, g1),
        grows(Multiset::empty(), b, g1, g2),
    ensures
        grows(Multiset::empty(), a.add(b), g, g2),
{
    lemma_grows_frame(Multiset::empty(), b, a, g1, g2);
    assert(a.add(Multiset::empty()) =~= a);
    lemma_grows_trans(Multiset::empty(), a, a.add(b), g, g1, g2);
}

pub proof fn lemma_tag_after_value(g: u64, k: nat)
    requires
        (g as int) + (k as int) <= u64::MAX,
    ensures
        tag_after(g, k) == g + k,
    decreases k,
{
    if k > 0 {
        lemma_tag_after_value(g, (k - 1) as nat);
    }
}

pub proof fn lemma_tag_range_counts(g: u64, k: nat, x: u64)
    requires
        (g as int) + (k as int) <= u64::MAX,
    ensures
        tag_range(g, k).count(x) == (if g <= x < g + k { 1nat } else { 0nat }),
    decreases k,
{
    if k > 0 {
        lemma_tag_range_counts(g, (k - 1) as nat, x);
        lemma_tag_after_value(g, (k - 1) as nat);
    }
}

// ── Rewrites of let chains keep the tags ──

pub proof fn lemma_attach_tags(lhs: ExprV, rhs: ExprV)
    ensures
        tag_ms(attach(lhs, rhs)) == tag_ms(lhs).add(tag_ms(rhs)),
    decreases lhs,
{
    reveal_with_fuel(tag_ms, 3);
    match lhs {
        ExprV::Let(pat, body) => {
            if replaceable(pat, *body) {
                assert(tag_ms(lhs).add(tag_ms(rhs)) =~= tag_ms(rhs));
            } else if ends_in_replaceable_let(*body) {
                lemma_attach_tags(*body, rhs);
            } else {
                assert(tag_ms(sequence(lhs, rhs)) =~= tag_ms(lhs).add(tag_ms(rhs)));
            }
        },
        ExprV::LetArray(ps, body) => {
            if *body is Unit {
                assert(tag_ms(lhs).add(tag_ms(rhs)) =~= tag_ms(rhs));
            } else if ends_in_replaceable_let(*body) {
                lemma_attach_tags(*body, rhs);
            } else {
                assert(tag_ms(sequence(lhs, rhs)) =~= tag_ms(lhs).add(tag_ms(rhs)));
            }
        },
        ExprV::Pipe(a, b) => {
            if ends_in_replaceable_let(*b) {
                lemma_attach_tags(*b, rhs);
                assert(tag_ms(*a).add(tag_ms(*b).add(tag_ms(rhs))) =~= tag_ms(*a).add(tag_ms(*b)).add(tag_ms(rhs)));
            } else {
                assert(tag_ms(sequence(lhs, rhs)) =~= tag_ms(lhs).add(tag_ms(rhs)));
            }
        },
        _ => {
            assert(tag_ms(sequence(lhs, rhs)) =~= tag_ms(lhs).add(tag_ms(rhs)));
        },
    }
}

pub proof fn lemma_nest_in_let_tags(e: ExprV, new_let: ExprV)
    ensures
        tag_ms(nest_in_let(e, new_let)) == tag_ms(e).add(tag_ms(new_let)),
    decreases e,
{
    reveal_with_fuel(tag_ms, 3);
    match e {
        ExprV::Let(pat, body) => {
            if replaceable(pat, *body) {
            } else if ends_in_nestable_binding(*body) {
                lemma_nest_in_let_tags(*body, new_let);
            }
        },
        ExprV::Pipe(a, b) => {
            if ends_in_nestable_binding(*b) {
                lemma_nest_in_let_tags(*b, new_let);
                assert(tag_ms(*a).add(tag_ms(*b).add(tag_ms(new_let))) =~= tag_ms(*a).add(tag_ms(*b)).add(
                    tag_ms(new_let),
                ));
            }
        },
        _ => {},
    }
}

pub proof fn lemma_nest_in_expr_tags(e: ExprV, new_let: ExprV)
    ensures
        tag_ms(nest_in_expr(e, new_let)) == tag_ms(e).add(tag_ms(new_let)),
{
    reveal_with_fuel(tag_ms, 3);
    match e {
        ExprV::Pipe(a, b) => {
            if ends_in_nestable_binding(*b) {
                lemma_nest_in_let_tags(*b, new_let);
                assert(tag_ms(*a).add(tag_ms(*b).add(tag_ms(new_let))) =~= tag_ms(*a).add(tag_ms(*b)).add(
                    tag_ms(new_let),
                ));
                assert(nest_in_expr(e, new_let) == nest_in_pipe(e, new_let));
            }
        },
        _ => {},
    }
}


// ── Every parse adds fresh ids only ──

/// A successful parse result whose tags are those of `base` and then fresh
/// ones from `g` up to the next tag id it reports.
pub open spec fn adds_fresh(r: PRes, base: Multiset<u64>, g: u64) -> bool {
    match r {
        Ok((e, _, g2)) => grows(base, tag_ms(e), g, g2),
        Err(_) => true,
    }
}

pub open spec fn step_adds_fresh(r: Result<(ExprV, int, u64, bool), Seq<char>>, base: Multiset<u64>, g: u64) -> bool {
    match r {
        Ok((e, _, g2, _)) => grows(base, tag_ms(e), g, g2),
        Err(_) => true,
    }
}

pub open spec fn part_tag_ms(p: InterpPartV) -> Multiset<u64> {
    match p {
        InterpPartV::Expr(e) => tag_ms(e),
        InterpPartV::Literal(_) => Multiset::empty(),
    }
}

pub proof fn lemma_grows_after(base: Multiset<u64>, sub: Multiset<u64>, g: u64, g2: u64)
    requires
        grows(Multiset::empty(), sub, g, g2),
    ensures
        grows(base, base.add(sub), g, g2),
{
    lemma_grows_frame(Multiset::empty(), sub, base, g, g2);
    assert(base.add(Multiset::empty()) =~= base);
}

pub proof fn lemma_no_tags(base: Multiset<u64>, e: ExprV, g: u64)
    requires
        tag_ms(e) == Multiset::<u64>::empty(),
    ensures
        grows(base, base.add(tag_ms(e)), g, g),
        grows(Multiset::empty(), tag_ms(e), g, g),
{
    lemma_grows_refl(base, g);
    lemma_grows_refl(Multiset::empty(), g);
    assert(base.add(tag_ms(e)) =~= base);
}

pub proof fn lemma_one_tag(g: u64)
    ensures
        grows(Multiset::empty(), Multiset::singleton(g), g, next_tag(g)),
{
    assert(tag_after(g, 0) == g);
    assert(tag_after(g, 1) == next_tag(g));
    assert(tag_range(g, 0) =~= Multiset::<u64>::empty());
    assert(tag_range(g, 1) == tag_range(g, 0).insert(g));
    assert(Multiset::singleton(g) =~= Multiset::<u64>::empty().add(tag_range(g, 1)));
}

/// The tags of one-element lists are those of the element.
pub proof fn lemma_singletons_tags(e: ExprV, f: FieldV)
    ensures
        exprs_tag_ms(seq![e]) == tag_ms(e),
        fields_tag_ms(seq![f]) == tag_ms(f.value),
        tag_ms(ExprV::Array(seq![])) == Multiset::<u64>::empty(),
{
    assert(seq![e].drop_last() =~= Seq::<ExprV>::empty());
    assert(seq![f].drop_last() =~= Seq::<FieldV>::empty());
    assert(exprs_tag_ms(Seq::<ExprV>::empty()) == Multiset::<u64>::empty());
    assert(fields_tag_ms(Seq::<FieldV>::empty()) == Multiset::<u64>::empty());
    assert(Multiset::<u64>::empty().add(tag_ms(e)) =~= tag_ms(e));
    assert(Multiset::<u64>::empty().add(tag_ms(f.value)) =~= tag_ms(f.value));
    assert(exprs_tag_ms(seq![]) == Multiset::<u64>::empty());
}

pub proof fn lemma_branch_pattern_no_tags(ts: Seq<TokenV>, p: int)
    ensures
        branch_pattern(ts, p) matches Ok((BranchPatternV::Literal(e), _)) ==> tag_ms(e) == Multiset::<u64>::empty(),
{
    reveal_with_fuel(tag_ms, 2);
}

pub proof fn lemma_program_tags(ts: Seq<TokenV>, p: int, g: u64)
    ensures
        adds_fresh(program(ts, p, g), Multiset::empty(), g),
    decreases interp_bound(ts), remaining(ts, p), 10nat, 0nat,
{
    if tok(ts, p) is Eof {
        lemma_grows_refl(Multiset::empty(), g);
    } else {
        lemma_expr_tags(ts, p, 0, g);
    }
}

pub proof fn lemma_expr_tags(ts: Seq<TokenV>, p: int, min_bp: u8, g: u64)
    ensures
        adds_fresh(expr(ts, p, min_bp, g), Multiset::empty(), g),
    decreases interp_bound(ts), remaining(ts, p), 6nat, 0nat,
{
    lemma_prefix_tags(ts, p, g);
    match prefix(ts, p, g) {
        Ok((lhs, q, g2)) => if p < q <= ts.len() {
            lemma_expr_loop_tags(ts, q, lhs, min_bp, g2);
            match expr_loop(ts, q, lhs, min_bp, g2) {
                Ok((e, _, g3)) => lemma_grows_trans(Multiset::empty(), tag_ms(lhs), tag_ms(e), g, g2, g3),
                Err(_) => {},
            }
        },
        Err(_) => {},
    }
}

pub proof fn lemma_expr_loop_tags(ts: Seq<TokenV>, p: int, lhs: ExprV, min_bp: u8, g: u64)
    ensures
        adds_fresh(expr_loop(ts, p, lhs, min_bp, g), tag_ms(lhs), g),
    decreases interp_bound(ts), remaining(ts, p), 7nat, 0nat,
{
    lemma_step_tags(ts, p, lhs, min_bp, g);
    match step(ts, p, lhs, min_bp, g) {
        Ok((l2, q, g2, more)) => if more && p < q <= ts.len() {
            lemma_expr_loop_tags(ts, q, l2, min_bp, g2);
            match expr_loop(ts, q, l2, min_bp, g2) {
                Ok((e, _, g3)) => lemma_grows_trans(tag_ms(lhs), tag_ms(l2), tag_ms(e), g, g2, g3),
                Err(_) => {},
            }
        },
        Err(_) => {},
    }
}

pub proof fn lemma_step_tags(ts: Seq<TokenV>, p: int, lhs: ExprV, min_bp: u8, g: u64)
    ensures
        step_adds_fresh(step(ts, p, lhs, min_bp, g), tag_ms(lhs), g),
    decreases interp_bound(ts), remaining(ts, p), 6nat, 0nat,
{
    lemma_postfix_tags(ts, p, lhs, g);
    lemma_infix_tags(ts, p, lhs, min_bp, g);
}

/// `lhs` combined with a fresh sub-result into `e` whose tags are both.
pub proof fn lemma_combine(lhs: ExprV, r: PRes, g: u64)
    requires
        adds_fresh(r, Multiset::empty(), g),
    ensures
        r matches Ok((sub, _, g2)) ==> grows(tag_ms(lhs), tag_ms(lhs).add(tag_ms(sub)), g, g2),
{
    match r {
        Ok((sub, _, g2)) => lemma_grows_after(tag_ms(lhs), tag_ms(sub), g, g2),
        Err(_) => {},
    }
}

pub proof fn lemma_postfix_tags(ts: Seq<TokenV>, p: int, lhs: ExprV, g: u64)
    ensures
        step_adds_fresh(postfix_step(ts, p, lhs, g), tag_ms(lhs), g),
    decreases interp_bound(ts), remaining(ts, p), 5nat, 0nat,
{
    let t = tok(ts, p);
    if t is LParen {
        lemma_call_args_tags(ts, p + 1, g);
        lemma_combine(lhs, call_args(ts, p + 1, g), g);
    } else if t is LBrace {
        lemma_block_tags(ts, p, g);
        lemma_combine(lhs, block(ts, p, g), g);
    } else if t is LBracket {
        lemma_array_tags(ts, p, g);
        lemma_combine(lhs, array(ts, p, g), g);
    } else if t is Dot {
        let ft = tok(ts, p + 1);
        if ft is Ident || ft is Int {
            let q = p + 2;
            let t2 = tok(ts, q);
            if t2 is LParen {
                lemma_call_args_tags(ts, q + 1, g);
                lemma_combine(lhs, call_args(ts, q + 1, g), g);
            } else if t2 is LBrace {
                lemma_block_tags(ts, q, g);
                lemma_combine(lhs, block(ts, q, g), g);
            } else if t2 is LBracket {
                lemma_array_tags(ts, q, g);
                lemma_combine(lhs, array(ts, q, g), g);
            } else {
                lemma_grows_refl(tag_ms(lhs), g);
            }
        }
    } else {
        lemma_grows_refl(tag_ms(lhs), g);
    }
}

pub proof fn lemma_binop_after_tags(ts: Seq<TokenV>, p: int, op: crate::ast::BinOp, lhs: ExprV, rbp: u8, g: u64)
    ensures
        step_adds_fresh(binop_after(ts, p, op, lhs, rbp, g), tag_ms(lhs), g),
    decreases interp_bound(ts), remaining(ts, p), 4nat, 0nat,
{
    if 0 <= p < ts.len() {
        lemma_expr_tags(ts, p + 1, rbp, g);
        lemma_combine(lhs, expr(ts, p + 1, rbp, g), g);
    }
}

pub proof fn lemma_infix_tags(ts: Seq<TokenV>, p: int, lhs: ExprV, min_bp: u8, g: u64)
    ensures
        step_adds_fresh(infix_step(ts, p, lhs, min_bp, g), tag_ms(lhs), g),
    decreases interp_bound(ts), remaining(ts, p), 5nat, 0nat,
{
    let t = tok(ts, p);
    if t is Star || t is Slash || t is Plus || t is Minus {
        lemma_binop_after_tags(ts, p, crate::ast::BinOp::Mul, lhs, crate::parser::MUL_R, g);
        lemma_binop_after_tags(ts, p, crate::ast::BinOp::Div, lhs, crate::parser::MUL_R, g);
        lemma_binop_after_tags(ts, p, crate::ast::BinOp::Add, lhs, crate::parser::ADD_R, g);
        lemma_binop_after_tags(ts, p, crate::ast::BinOp::Sub, lhs, crate::parser::ADD_R, g);
    }
    if 0 <= p < ts.len() {
        lemma_expr_tags(ts, p + 1, crate::parser::CMP_R, g);
        lemma_combine(lhs, expr(ts, p + 1, crate::parser::CMP_R, g), g);
        lemma_expr_tags(ts, p + 1, crate::parser::RANGE_R, g);
        lemma_combine(lhs, expr(ts, p + 1, crate::parser::RANGE_R, g), g);
        lemma_pipe_rhs_tags(ts, p + 1, lhs, min_bp, g);
        lemma_semicolon_rhs_tags(ts, p + 1, lhs, g);
    }
    lemma_grows_refl(tag_ms(lhs), g);
}

pub proof fn lemma_pipe_rhs_tags(ts: Seq<TokenV>, p: int, lhs: ExprV, min_bp: u8, g: u64)
    ensures
        adds_fresh(pipe_rhs(ts, p, lhs, min_bp, g), tag_ms(lhs), g),
    decreases interp_bound(ts), remaining(ts, p), 8nat, 0nat,
{
    if tok(ts, p) is Let {
        lemma_pipe_let_tags(ts, p + 1, lhs, min_bp, g);
    } else {
        lemma_expr_tags(ts, p, crate::parser::PIPE_R, g);
        lemma_combine(lhs, expr(ts, p, crate::parser::PIPE_R, g), g);
    }
}

pub proof fn lemma_pipe_let_tags(ts: Seq<TokenV>, p: int, lhs: ExprV, min_bp: u8, g: u64)
    ensures
        adds_fresh(pipe_let(ts, p, lhs, min_bp, g), tag_ms(lhs), g),
    decreases interp_bound(ts), remaining(ts, p), 3nat, 0nat,
{
    match let_pattern(ts, p) {
        Ok((pat, is_array, q)) => if p < q <= ts.len() {
            lemma_let_body_tags(ts, q, pat, min_bp, g);
            lemma_combine(lhs, let_body(ts, q, pat, min_bp, g), g);
            match let_body(ts, q, pat, min_bp, g) {
                Ok((body, _, _)) => {
                    let la = ExprV::LetArray(crate::parser::array_pats_of(pat), Box::new(body));
                    let l = ExprV::Let(pat, Box::new(body));
                    assert(tag_ms(la) == tag_ms(body));
                    assert(tag_ms(l) == tag_ms(body));
                    assert(tag_ms(ExprV::Pipe(Box::new(lhs), Box::new(la))) == tag_ms(lhs).add(tag_ms(body)));
                    assert(tag_ms(ExprV::Pipe(Box::new(lhs), Box::new(l))) == tag_ms(lhs).add(tag_ms(body)));
                },
                Err(_) => {},
            }
        },
        Err(_) => {},
    }
}

pub proof fn lemma_let_body_tags(ts: Seq<TokenV>, p: int, pat: PatternV, min_bp: u8, g: u64)
    ensures
        adds_fresh(let_body(ts, p, pat, min_bp, g), Multiset::empty(), g),
    decreases interp_bound(ts), remaining(ts, p), 2nat, 0nat,
{
    let t = tok(ts, p);
    assert(tag_ms(identity_for(pat)) =~= Multiset::<u64>::empty());
    if t is Pipe {
        lemma_let_pipes_tags(ts, p, identity_for(pat), min_bp, g);
    } else if t is Semicolon && min_bp <= crate::parser::SEMI_L {
        lemma_expr_tags(ts, p + 1, crate::parser::SEMI_R, g);
    } else {
        lemma_grows_refl(Multiset::empty(), g);
    }
}

pub proof fn lemma_let_pipes_tags(ts: Seq<TokenV>, p: int, cur: ExprV, min_bp: u8, g: u64)
    ensures
        adds_fresh(let_pipes(ts, p, cur, min_bp, g), tag_ms(cur), g),
    decreases interp_bound(ts), remaining(ts, p), 1nat, 0nat,
{
    reveal_with_fuel(tag_ms, 2);
    let t = tok(ts, p);
    if t is Pipe {
        lemma_pipe_rhs_tags(ts, p + 1, cur, min_bp, g);
        match pipe_rhs(ts, p + 1, cur, min_bp, g) {
            Ok((c2, q, g2)) => if p < q <= ts.len() {
                lemma_let_pipes_tags(ts, q, c2, min_bp, g2);
                match let_pipes(ts, q, c2, min_bp, g2) {
                    Ok((e, _, g3)) => lemma_grows_trans(tag_ms(cur), tag_ms(c2), tag_ms(e), g, g2, g3),
                    Err(_) => {},
                }
            },
            Err(_) => {},
        }
    } else if min_bp <= crate::parser::SEMI_L && t is Semicolon {
        lemma_expr_tags(ts, p + 1, crate::parser::SEMI_R, g);
        lemma_combine(cur, expr(ts, p + 1, crate::parser::SEMI_R, g), g);
    } else {
        lemma_grows_refl(tag_ms(cur), g);
    }
}

pub proof fn lemma_semicolon_rhs_tags(ts: Seq<TokenV>, p: int, lhs: ExprV, g: u64)
    ensures
        adds_fresh(semicolon_rhs(ts, p, lhs, g), tag_ms(lhs), g),
    decreases interp_bound(ts), remaining(ts, p), 8nat, 0nat,
{
    let t = tok(ts, p);
    if t is Eof || t is RBrace || t is RParen || t is RBracket {
        lemma_attach_tags(lhs, ExprV::Unit);
        lemma_no_tags(tag_ms(lhs), ExprV::Unit, g);
    } else {
        lemma_expr_tags(ts, p, crate::parser::SEMI_R, g);
        match expr(ts, p, crate::parser::SEMI_R, g) {
            Ok((rhs, _, g2)) => {
                lemma_attach_tags(lhs, rhs);
                lemma_grows_after(tag_ms(lhs), tag_ms(rhs), g, g2);
            },
            Err(_) => {},
        }
    }
}

pub proof fn lemma_prefix_tags(ts: Seq<TokenV>, p: int, g: u64)
    ensures
        adds_fresh(prefix(ts, p, g), Multiset::empty(), g),
    decreases interp_bound(ts), remaining(ts, p), 5nat, 0nat,
{
    reveal_with_fuel(tag_ms, 3);
    lemma_grows_refl(Multiset::empty(), g);
    let t = tok(ts, p);
    match t {
        TokenV::InterpStr(parts) => {
            lemma_interp_tags(ts, p, parts, g);
            match interp(ts, p, parts, g) {
                Ok((ps, _)) => assert(tag_ms(ExprV::StringInterp(ps)) == parts_tag_ms(ps)),
                Err(_) => {},
            }
        },
        TokenV::NewTag => {
            lemma_one_tag(g);
        },
        TokenV::Minus => if 0 <= p < ts.len() {
            lemma_expr_tags(ts, p + 1, crate::parser::UNARY_OPERAND, g);
        },
        TokenV::LBrace => lemma_block_tags(ts, p, g),
        TokenV::LBracket => lemma_array_tags(ts, p, g),
        TokenV::LParen => lemma_paren_tags(ts, p, g),
        TokenV::Let => lemma_standalone_let_tags(ts, p, g),
        TokenV::Tag => {
            lemma_one_tag(g);
            match tag_sugar(ts, p, g) {
                Ok((e, _, _)) => assert(tag_ms(e) =~= Multiset::singleton(g)),
                Err(_) => {},
            }
        },
        TokenV::Use => match use_form(ts, p, g) {
            Ok((e, _, _)) => assert(tag_ms(e) =~= Multiset::<u64>::empty()),
            Err(_) => {},
        },
        _ => {},
    }
}

pub proof fn lemma_interp_tags(ts: Seq<TokenV>, p: int, parts: Seq<PartV>, g: u64)
    ensures
        interp(ts, p, parts, g) matches Ok((ps, g2)) ==> grows(Multiset::empty(), parts_tag_ms(ps), g, g2),
    decreases interp_bound(ts), remaining(ts, p), 4nat, parts.len(),
{
    if parts.len() == 0 {
        lemma_grows_refl(Multiset::empty(), g);
    } else {
        lemma_interp_tags(ts, p, parts.drop_last(), g);
        match interp(ts, p, parts.drop_last(), g) {
            Ok((acc, g1)) => {
                lemma_interp_one_tags(ts, p, parts.last(), g1);
                match interp_one(ts, p, parts.last(), g1) {
                    Ok((pv, g2)) => {
                        assert(acc.push(pv).drop_last() =~= acc);
                        assert(parts_tag_ms(acc.push(pv)) == parts_tag_ms(acc).add(part_tag_ms(pv)));
                        lemma_grows_fresh_pair(parts_tag_ms(acc), part_tag_ms(pv), g, g1, g2);
                    },
                    Err(_) => {},
                }
            },
            Err(_) => {},
        }
    }
}

pub proof fn lemma_interp_one_tags(ts: Seq<TokenV>, p: int, part: PartV, g: u64)
    ensures
        interp_one(ts, p, part, g) matches Ok((pv, g2)) ==> grows(Multiset::empty(), part_tag_ms(pv), g, g2),
    decreases interp_bound(ts), remaining(ts, p), 4nat, 0nat,
{
    lemma_grows_refl(Multiset::empty(), g);
    match part {
        PartV::Expr(src) => match spec_tokenize(src) {
            Ok(sub) => if interp_bound(sub) < interp_bound(ts) {
                lemma_program_tags(sub, 0, g);
            },
            Err(_) => {},
        },
        PartV::Literal(_) => {},
    }
}

pub proof fn lemma_block_tags(ts: Seq<TokenV>, p: int, g: u64)
    ensures
        adds_fresh(block(ts, p, g), Multiset::empty(), g),
    decreases interp_bound(ts), remaining(ts, p), 4nat, 0nat,
{
    reveal_with_fuel(tag_ms, 2);
    lemma_grows_refl(Multiset::empty(), g);
    let q = p + 1;
    let t = tok(ts, q);
    if 0 <= p < ts.len() && !(t is RBrace) {
        if branch_start(ts, q) {
            lemma_branch_arms_tags(ts, q, seq![], g);
        } else if !(t is Minus) {
            lemma_expr_loop_tags(ts, q, in_ident(), 0, g);
            lemma_expr_tags(ts, q, 0, g);
            let body_r = if crate::parser::is_binop_tok(t) || t is Pipe {
                expr_loop(ts, q, in_ident(), 0, g)
            } else {
                expr(ts, q, 0, g)
            };
            match body_r {
                Ok((body, q2, g2)) => if p < q2 <= ts.len() {
                    lemma_block_end_tags(ts, q2, body, g2);
                    match block_end(ts, q2, body, g2) {
                        Ok((e, _, g3)) => lemma_grows_trans(Multiset::empty(), tag_ms(body), tag_ms(e), g, g2, g3),
                        Err(_) => {},
                    }
                },
                Err(_) => {},
            }
        }
    }
}

pub proof fn lemma_block_end_tags(ts: Seq<TokenV>, p: int, body: ExprV, g: u64)
    ensures
        adds_fresh(block_end(ts, p, body, g), tag_ms(body), g),
    decreases interp_bound(ts), remaining(ts, p), 3nat, 0nat,
{
    reveal_with_fuel(tag_ms, 2);
    if tok(ts, p) is Bar {
        lemma_expr_tags(ts, p + 1, 0, g);
        match expr(ts, p + 1, 0, g) {
            Ok((fb, q, g2)) => {
                let arms = seq![
                    ArmV { pattern: BranchPatternV::Literal(ExprV::Bool(true)), guard: None, body },
                    ArmV { pattern: BranchPatternV::Literal(ExprV::Bool(false)), guard: None, body: fb },
                ];
                reveal_with_fuel(arms_tag_ms, 3);
                assert(arms.drop_last().drop_last() =~= Seq::<ArmV>::empty());
                assert(arms_tag_ms(arms) =~= tag_ms(body).add(tag_ms(fb)));
                lemma_grows_after(tag_ms(body), tag_ms(fb), g, g2);
            },
            Err(_) => {},
        }
    } else {
        lemma_grows_refl(tag_ms(body), g);
    }
}

pub proof fn lemma_branch_arms_tags(ts: Seq<TokenV>, p: int, arms: Seq<ArmV>, g: u64)
    ensures
        adds_fresh(branch_arms(ts, p, arms, g), arms_tag_ms(arms), g),
    decreases interp_bound(ts), remaining(ts, p), 3nat, 0nat,
{
    lemma_grows_refl(arms_tag_ms(arms), g);
    if !(tok(ts, p) is RBrace) {
        lemma_branch_pattern_no_tags(ts, p);
        match branch_pattern(ts, p) {
            Ok((pat, p1)) => if p < p1 <= ts.len() {
                let gr: Result<(Option<ExprV>, int, u64), Seq<char>> = if tok(ts, p1) is If {
                    match expr(ts, p1 + 1, crate::parser::PIPE_R, g) {
                        Err(e) => Err(e),
                        Ok((ge, p2, g2)) => Ok((Some(ge), p2, g2)),
                    }
                } else {
                    Ok((None, p1, g))
                };
                lemma_expr_tags(ts, p1 + 1, crate::parser::PIPE_R, g);
                match gr {
                    Ok((guard, p2, g2)) => if p < p2 <= ts.len() && tok(ts, p2) is Arrow {
                        let gms: Multiset<u64> = match guard {
                            Some(ge) => tag_ms(ge),
                            None => Multiset::empty(),
                        };
                        assert(grows(Multiset::empty(), gms, g, g2)) by {
                            if tok(ts, p1) is If {
                                match expr(ts, p1 + 1, crate::parser::PIPE_R, g) {
                                    Ok((ge, _, g2x)) => {
                                        assert(guard == Some(ge));
                                        assert(g2x == g2);
                                    },
                                    Err(_) => {},
                                }
                            } else {
                                lemma_grows_refl(Multiset::empty(), g);
                            }
                        }
                        lemma_expr_tags(ts, p2 + 1, crate::parser::SEMI_R, g2);
                        match expr(ts, p2 + 1, crate::parser::SEMI_R, g2) {
                            Ok((body, p3, g3)) => {
                                let arm = ArmV { pattern: pat, guard, body };
                                let arms2 = arms.push(arm);
                                let lms: Multiset<u64> = match pat {
                                    BranchPatternV::Literal(lit) => tag_ms(lit),
                                    _ => Multiset::empty(),
                                };
                                assert(lms =~= Multiset::<u64>::empty());
                                assert(arms2.drop_last() =~= arms);
                                assert(arms_tag_ms(arms2) == arms_tag_ms(arms).add(gms.add(tag_ms(body)).add(lms)));
                                lemma_grows_fresh_pair(gms, tag_ms(body), g, g2, g3);
                                assert(gms.add(tag_ms(body)).add(lms) =~= gms.add(tag_ms(body)));
                                lemma_grows_after(arms_tag_ms(arms), gms.add(tag_ms(body)), g, g3);
                                if tok(ts, p3) is Comma && p < p3 <= ts.len() {
                                    lemma_branch_arms_tags(ts, p3 + 1, arms2, g3);
                                    match branch_arms(ts, p3 + 1, arms2, g3) {
                                        Ok((e, _, g4)) => lemma_grows_trans(
                                            arms_tag_ms(arms),
                                            arms_tag_ms(arms2),
                                            tag_ms(e),
                                            g,
                                            g3,
                                            g4,
                                        ),
                                        Err(_) => {},
                                    }
                                }
                            },
                            Err(_) => {},
                        }
                    },
                    Err(_) => {},
                }
            },
            Err(_) => {},
        }
    }
}

pub proof fn lemma_array_tags(ts: Seq<TokenV>, p: int, g: u64)
    ensures
        adds_fresh(array(ts, p, g), Multiset::empty(), g),
    decreases interp_bound(ts), remaining(ts, p), 4nat, 0nat,
{
    lemma_grows_refl(Multiset::empty(), g);
    lemma_singletons_tags(ExprV::Unit, positional(ExprV::Unit));
    let q = p + 1;
    if 0 <= p < ts.len() && !(tok(ts, q) is RBracket) {
        lemma_expr_tags(ts, q, crate::parser::NO_SEMI, g);
        match expr(ts, q, crate::parser::NO_SEMI, g) {
            Ok((e, q2, g2)) => if p < q2 <= ts.len() {
                lemma_singletons_tags(e, positional(e));
                lemma_array_rest_tags(ts, q2, seq![e], g2);
                match array_rest(ts, q2, seq![e], g2) {
                    Ok((a, _, g3)) => lemma_grows_trans(Multiset::empty(), tag_ms(e), tag_ms(a), g, g2, g3),
                    Err(_) => {},
                }
            },
            Err(_) => {},
        }
    }
}

pub proof fn lemma_array_rest_tags(ts: Seq<TokenV>, p: int, elems: Seq<ExprV>, g: u64)
    ensures
        adds_fresh(array_rest(ts, p, elems, g), exprs_tag_ms(elems), g),
    decreases interp_bound(ts), remaining(ts, p), 3nat, 0nat,
{
    lemma_grows_refl(exprs_tag_ms(elems), g);
    if tok(ts, p) is Comma && !(tok(ts, p + 1) is RBracket) {
        lemma_expr_tags(ts, p + 1, crate::parser::NO_SEMI, g);
        match expr(ts, p + 1, crate::parser::NO_SEMI, g) {
            Ok((e, q, g2)) => if p < q <= ts.len() {
                assert(elems.push(e).drop_last() =~= elems);
                lemma_grows_after(exprs_tag_ms(elems), tag_ms(e), g, g2);
                lemma_array_rest_tags(ts, q, elems.push(e), g2);
                match array_rest(ts, q, elems.push(e), g2) {
                    Ok((a, _, g3)) => lemma_grows_trans(
                        exprs_tag_ms(elems),
                        exprs_tag_ms(elems.push(e)),
                        tag_ms(a),
                        g,
                        g2,
                        g3,
                    ),
                    Err(_) => {},
                }
            },
            Err(_) => {},
        }
    }
}

pub proof fn lemma_paren_tags(ts: Seq<TokenV>, p: int, g: u64)
    ensures
        adds_fresh(paren(ts, p, g), Multiset::empty(), g),
    decreases interp_bound(ts), remaining(ts, p), 4nat, 0nat,
{
    lemma_grows_refl(Multiset::empty(), g);
    let q = p + 1;
    let t = tok(ts, q);
    if 0 <= p < ts.len() && !(t is RParen) {
        if t is Spread || is_labeled(ts, q) {
            lemma_struct_fields_tags(ts, q, seq![], g);
        } else {
            lemma_expr_tags(ts, q, 0, g);
            match expr(ts, q, 0, g) {
                Ok((first, q2, g2)) => {
                    if tok(ts, q2) is Comma && !(tok(ts, q2 + 1) is RParen) && p < q2 <= ts.len() {
                        let f0 = seq![positional(first)];
                        lemma_singletons_tags(first, positional(first));
                        lemma_struct_fields_tags(ts, q2 + 1, f0, g2);
                        match struct_fields(ts, q2 + 1, f0, g2) {
                            Ok((st, _, g3)) => lemma_grows_trans(Multiset::empty(), tag_ms(first), tag_ms(st), g, g2, g3),
                            Err(_) => {},
                        }
                    }
                },
                Err(_) => {},
            }
        }
    }
}

pub proof fn lemma_struct_fields_tags(ts: Seq<TokenV>, p: int, fields: Seq<FieldV>, g: u64)
    ensures
        adds_fresh(struct_fields(ts, p, fields, g), fields_tag_ms(fields), g),
    decreases interp_bound(ts), remaining(ts, p), 8nat, 0nat,
{
    lemma_rem_fields_tags(ts, p, fields, g);
}

pub proof fn lemma_rem_fields_tags(ts: Seq<TokenV>, p: int, fields: Seq<FieldV>, g: u64)
    ensures
        rem_fields(ts, p, fields, g) matches Ok((fs, _, g2)) ==> grows(fields_tag_ms(fields), fields_tag_ms(fs), g, g2),
    decreases interp_bound(ts), remaining(ts, p), 7nat, 0nat,
{
    lemma_grows_refl(fields_tag_ms(fields), g);
    let t = tok(ts, p);
    if !(t is RParen) {
        let r: Result<(FieldV, int, u64), Seq<char>> = if t is Spread {
            if 0 <= p < ts.len() {
                match expr(ts, p + 1, crate::parser::NO_SEMI, g) {
                    Err(e) => Err(e),
                    Ok((e, q, g2)) => Ok((FieldV { label: None, value: e, is_spread: true }, q, g2)),
                }
            } else {
                Err(seq![])
            }
        } else if is_labeled(ts, p) {
            match labeled_field(ts, p, g) {
                Err(e) => Err(e),
                Ok((l, v, q, g2)) => Ok((FieldV { label: Some(l), value: v, is_spread: false }, q, g2)),
            }
        } else {
            match expr(ts, p, crate::parser::NO_SEMI, g) {
                Err(e) => Err(e),
                Ok((e, q, g2)) => Ok((positional(e), q, g2)),
            }
        };
        if 0 <= p < ts.len() {
            lemma_expr_tags(ts, p + 1, crate::parser::NO_SEMI, g);
        }
        lemma_labeled_field_tags(ts, p, g);
        lemma_expr_tags(ts, p, crate::parser::NO_SEMI, g);
        match r {
            Ok((f, q, g2)) => {
                assert(grows(Multiset::empty(), tag_ms(f.value), g, g2));
                let fs = fields.push(f);
                assert(fs.drop_last() =~= fields);
                lemma_grows_after(fields_tag_ms(fields), tag_ms(f.value), g, g2);
                if tok(ts, q) is Comma && p < q <= ts.len() {
                    lemma_rem_fields_tags(ts, q + 1, fs, g2);
                    match rem_fields(ts, q + 1, fs, g2) {
                        Ok((fs2, _, g3)) => lemma_grows_trans(
                            fields_tag_ms(fields),
                            fields_tag_ms(fs),
                            fields_tag_ms(fs2),
                            g,
                            g2,
                            g3,
                        ),
                        Err(_) => {},
                    }
                }
            },
            Err(_) => {},
        }
    }
}

pub proof fn lemma_labeled_field_tags(ts: Seq<TokenV>, p: int, g: u64)
    ensures
        labeled_field(ts, p, g) matches Ok((_, v, _, g2)) ==> grows(Multiset::empty(), tag_ms(v), g, g2),
    decreases interp_bound(ts), remaining(ts, p), 6nat, 0nat,
{
    if tok(ts, p) is Ident && tok(ts, p + 1) is Assign {
        lemma_expr_tags(ts, p + 2, crate::parser::NO_SEMI, g);
    }
}

pub proof fn lemma_standalone_let_tags(ts: Seq<TokenV>, p: int, g: u64)
    ensures
        adds_fresh(standalone_let(ts, p, g), Multiset::empty(), g),
    decreases interp_bound(ts), remaining(ts, p), 4nat, 0nat,
{
    reveal_with_fuel(tag_ms, 2);
    lemma_grows_refl(Multiset::empty(), g);
    let q = p + 1;
    if 0 <= p < ts.len() {
        if tok(ts, q) is Underscore && tok(ts, q + 1) is Assign {
            lemma_expr_tags(ts, q + 2, crate::parser::NO_SEMI, g);
            match expr(ts, q + 2, crate::parser::NO_SEMI, g) {
                Ok((v, _, _)) => {
                    let nl = ExprV::Let(PatternV::Discard, Box::new(ExprV::Unit));
                    lemma_nest_in_expr_tags(v, nl);
                    assert(tag_ms(v).add(tag_ms(nl)) =~= tag_ms(v));
                },
                Err(_) => {},
            }
        } else if tok(ts, q) is Ident && tok(ts, q + 1) is Assign {
            let name = tok(ts, q)->Ident_0;
            lemma_expr_tags(ts, q + 2, crate::parser::NO_SEMI, g);
            match expr(ts, q + 2, crate::parser::NO_SEMI, g) {
                Ok((v, _, _)) => {
                    let nl = ExprV::Let(PatternV::Name(name), Box::new(ExprV::Ident(name)));
                    lemma_nest_in_expr_tags(v, nl);
                    assert(tag_ms(v).add(tag_ms(nl)) =~= tag_ms(v));
                },
                Err(_) => {},
            }
        } else {
            match let_pattern(ts, q) {
                Ok((pat, is_array, q2)) => {
                    let nl = placeholder_let(pat, is_array);
                    assert(tag_ms(nl) =~= Multiset::<u64>::empty());
                    if tok(ts, q2) is Assign && p < q2 <= ts.len() {
                        lemma_expr_tags(ts, q2 + 1, crate::parser::NO_SEMI, g);
                        match expr(ts, q2 + 1, crate::parser::NO_SEMI, g) {
                            Ok((v, _, _)) => {
                                lemma_nest_in_expr_tags(v, nl);
                                assert(tag_ms(v).add(tag_ms(nl)) =~= tag_ms(v));
                            },
                            Err(_) => {},
                        }
                    }
                },
                Err(_) => {},
            }
        }
    }
}

pub proof fn lemma_call_args_tags(ts: Seq<TokenV>, p: int, g: u64)
    ensures
        adds_fresh(call_args(ts, p, g), Multiset::empty(), g),
    decreases interp_bound(ts), remaining(ts, p), 9nat, 0nat,
{
    lemma_grows_refl(Multiset::empty(), g);
    let t = tok(ts, p);
    if !(t is RParen) {
        if is_labeled(ts, p) || t is Spread {
            lemma_struct_fields_tags(ts, p, seq![], g);
        } else {
            lemma_expr_tags(ts, p, crate::parser::NO_SEMI, g);
            match expr(ts, p, crate::parser::NO_SEMI, g) {
                Ok((first, q, g2)) => {
                    if tok(ts, q) is Comma && !(tok(ts, q + 1) is RParen) && p < q <= ts.len() {
                        let f0 = seq![positional(first)];
                        lemma_singletons_tags(first, positional(first));
                        lemma_struct_fields_tags(ts, q + 1, f0, g2);
                        match struct_fields(ts, q + 1, f0, g2) {
                            Ok((st, _, g3)) => lemma_grows_trans(Multiset::empty(), tag_ms(first), tag_ms(st), g, g2, g3),
                            Err(_) => {},
                        }
                    }
                },
                Err(_) => {},
            }
        }
    }
}

pub proof fn lemma_tag_range_len(g: u64, k: nat)
    ensures
        tag_range(g, k).len() == k,
    decreases k,
{
    if k > 0 {
        lemma_tag_range_len(g, (k - 1) as nat);
    }
}

/// The `new_tag` and `tag(..)` nodes of a parsed program carry the fresh
/// ids counted from `first_tag`, one each, and the parse reports the id
/// after them as the next fresh one. While the ids do not run past
/// `u64::MAX`, every id in `[first_tag, next)` occurs exactly once and no
/// other id occurs.
pub proof fn law_parse_tags_fresh(s: Seq<char>, first_tag: u64)
    ensures
        spec_parse(s, first_tag) matches Ok((e, next)) ==> {
            let n = tag_ms(e).len();
            &&& tag_ms(e) == tag_range(first_tag, n)
            &&& next == tag_after(first_tag, n)
            &&& first_tag + n <= u64::MAX ==> {
                &&& next == first_tag + n
                &&& forall|x: u64| #[trigger] tag_ms(e).count(x) == (if first_tag <= x < next { 1nat } else { 0nat })
            }
        },
{
    match spec_tokenize(s) {
        Ok(ts) => {
            lemma_program_tags(ts, 0, first_tag);
            match program(ts, 0, first_tag) {
                Ok((e, _, next)) => {
                    let k = choose|k: nat| tag_ms(e) == Multiset::<u64>::empty().add(#[trigger] tag_range(first_tag, k))
                        && next == tag_after(first_tag, k);
                    assert(tag_ms(e) =~= tag_range(first_tag, k));
                    lemma_tag_range_len(first_tag, k);
                    if first_tag + k <= u64::MAX {
                        lemma_tag_after_value(first_tag, k);
                        assert forall|x: u64| #[trigger] tag_ms(e).count(x) == (if first_tag <= x < next { 1nat } else { 0nat }) by {
                            lemma_tag_range_counts(first_tag, k, x);
                        }
                    }
                },
                Err(_) => {},
            }
        },
        Err(_) => {},
    }
}

/// The tag ids of a program parsed as `parse` parses it are user ids: while
/// they do not run past `u64::MAX`, the `k`-th fresh id handed out is
/// `FIRST_USER_TAG + k`, so the ids increase within the parse, every id in
/// the tree is at least `FIRST_USER_TAG` (above the reserved ids of the
/// primitive types), and the next fresh id is above all of them.
pub proof fn law_parse_tags_are_user_ids(s: Seq<char>)
    ensures
        spec_parse(s, FIRST_USER_TAG) matches Ok((e, next)) ==> {
            let n = tag_ms(e).len();
            FIRST_USER_TAG + n <= u64::MAX ==> {
                &&& forall|k: nat| k <= n ==> #[trigger] tag_after(FIRST_USER_TAG, k) == FIRST_USER_TAG + k
                &&& forall|x: u64| tag_ms(e).count(x) > 0 ==> FIRST_USER_TAG <= x < next
                &&& next == FIRST_USER_TAG + n
            }
        },
{
    law_parse_tags_fresh(s, FIRST_USER_TAG);
    match spec_parse(s, FIRST_USER_TAG) {
        Ok((e, next)) => {
            let n = tag_ms(e).len();
            if FIRST_USER_TAG + n <= u64::MAX {
                assert forall|k: nat| k <= n implies #[trigger] tag_after(FIRST_USER_TAG, k) == FIRST_USER_TAG + k by {
                    lemma_tag_after_value(FIRST_USER_TAG, k);
                }
                assert forall|x: u64| tag_ms(e).count(x) > 0 implies FIRST_USER_TAG <= x < next by {
                    assert(tag_ms(e).count(x) == (if FIRST_USER_TAG <= x < next { 1nat } else { 0nat }));
                }
            }
        },
        Err(_) => {},
    }
}

} // verus!
