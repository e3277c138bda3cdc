//! nana: the front end of a small expression language — lexer, parser,
//! lowering to MIR — and its type checker with unification.
use vstd::prelude::*;

pub mod text;
pub mod types;
pub mod lexer;
pub mod ast;
pub mod parser;
pub mod mir;
pub mod methods;
pub mod tags;
pub mod checker;
pub mod typecheck;
pub mod destructure;
pub mod args;
pub mod display;
pub mod arith;
pub mod bounds;
pub mod labels;

use crate::ast::{Expr, ExprV, collect_imports, dedup, expr_view, import_names, strs_view};
use crate::lexer::{Lexer, spec_tokenize};
use crate::mir::{Mir, lower, lower_expr, mir_view};
use crate::parser::{FIRST_USER_TAG, Parser, program};
use crate::text::concat;

verus! {

/// What parsing a source text gives: its tree and the next fresh tag id, or
/// the lexer's or the parser's message with its prefix.
pub open spec fn spec_parse(s: Seq<char>, first_tag: u64) -> Result<(ExprV, u64), Seq<char>> {
    match spec_tokenize(s) {
        Err(e) => Err("lexer error: "@ + e),
        Ok(ts) => match program(ts, 0, first_tag) {
            Err(e) => Err("parse error: "@ + e),
            Ok((ex, _, g)) => Ok((ex, g)),
        },
    }
}

/// Parses source code whose fresh tag ids start at `first_tag`; also
/// returns the next fresh tag id.
pub fn parse_from(source: &str, first_tag: u64) -> (r: Result<(Expr, u64), String>)
    requires
        source@.len() + 8 < usize::MAX,
    ensures
        match spec_parse(source@, first_tag) {
            Ok((e, g)) => r is Ok && expr_view(*r->Ok_0.0) == e && r->Ok_0.1 == g,
            Err(m) => r is Err && r->Err_0@ == m,
        },
{
    let mut lex = Lexer::new(source);
    let tokens = match lex.tokenize() {
        Ok(t) => t,
        Err(e) => {
            return Err(concat("lexer error: ", e.as_str()));
        },
    };
    proof {
        crate::lexer::lemma_tokens_from_bound(source@, 0, seq![]);
        crate::lexer::lemma_tokens_from_len(source@, 0, seq![]);
    }
    let mut par = Parser::with_first_tag(tokens, first_tag);
    match par.parse_program() {
        Ok(e) => Ok((e, par.next_tag_id())),
        Err(e) => Err(concat("parse error: ", e.as_str())),
    }
}

/// Parses source code into an AST; fresh tag ids start at `FIRST_USER_TAG`.
pub fn parse(source: &str) -> (r: Result<Expr, String>)
    requires
        source@.len() + 8 < usize::MAX,
    ensures
        match spec_parse(source@, FIRST_USER_TAG) {
            Ok((e, _)) => r is Ok && expr_view(*r->Ok_0) == e,
            Err(m) => r is Err && r->Err_0@ == m,
        },
{
    match parse_from(source, FIRST_USER_TAG) {
        Ok((e, _)) => Ok(e),
        Err(m) => Err(m),
    }
}

/// Parses and lowers source code into MIR.
pub fn parse_and_lower(source: &str) -> (r: Result<Mir, String>)
    requires
        source@.len() + 8 < usize::MAX,
    ensures
        match spec_parse(source@, FIRST_USER_TAG) {
            Ok((e, _)) => r is Ok && mir_view(*r->Ok_0) == lower_expr(e),
            Err(m) => r is Err && r->Err_0@ == m,
        },
{
    let ast = parse(source)?;
    Ok(lower(&ast))
}

/// Parses source code and returns the names of the modules that `import()`
/// refers to, each once, in order of first occurrence.
pub fn imports(source: &str) -> (r: Result<Vec<String>, String>)
    requires
        source@.len() + 8 < usize::MAX,
    ensures
        match spec_parse(source@, FIRST_USER_TAG) {
            Ok((e, _)) => r is Ok && strs_view(r->Ok_0@) == dedup(import_names(e)),
            Err(m) => r is Err && r->Err_0@ == m,
        },
{
    let ast = parse(source)?;
    Ok(collect_imports(&ast))
}

} // verus!
