use nana::ast::{
    ArrayPat, BinOp, BranchArm, BranchPattern, CmpOp, ExprKind, Field, PatField, Pattern,
    StringInterpPart,
};
use nana::lexer::{Lexer, StringPart, Token};
use nana::methods::{compare_ord, compare_partial, method_to_cmp_op, Order};
use nana::mir::{MirField, MirKind};
use nana::parser::{Parser, FIRST_USER_TAG};
use nana::{imports, parse, parse_and_lower, parse_from};

fn lex(src: &str) -> Result<Vec<Token>, String> {
    Lexer::new(src).tokenize()
}

fn e(k: ExprKind) -> Box<ExprKind> {
    Box::new(k)
}

fn ident(n: &str) -> Box<ExprKind> {
    e(ExprKind::Ident(n.to_string()))
}

fn m(k: MirKind) -> Box<MirKind> {
    Box::new(k)
}

fn mident(n: &str) -> Box<MirKind> {
    m(MirKind::Ident(n.to_string()))
}

fn positional(v: Box<MirKind>) -> MirField {
    MirField { label: None, value: v, is_spread: false }
}

// ── Lexer ──

#[test]
fn lex_simple_tokens() {
    assert_eq!(
        lex("let x = 1 >> f").unwrap(),
        vec![
            Token::Let,
            Token::Ident("x".to_string()),
            Token::Assign,
            Token::Int(1),
            Token::Pipe,
            Token::Ident("f".to_string()),
            Token::Eof,
        ]
    );
}

#[test]
fn lex_operators_longest_match() {
    assert_eq!(
        lex("-> >= <= == != ... .. . >").unwrap(),
        vec![
            Token::Arrow,
            Token::GtEq,
            Token::LtEq,
            Token::EqEq,
            Token::NotEq,
            Token::Spread,
            Token::DotDot,
            Token::Dot,
            Token::Gt,
            Token::Eof,
        ]
    );
}

#[test]
fn lex_skips_comments() {
    assert_eq!(
        lex("1 # a comment\n+ 2 # another").unwrap(),
        vec![Token::Int(1), Token::Plus, Token::Int(2), Token::Eof]
    );
}

#[test]
fn lex_empty_input_is_eof() {
    assert_eq!(lex("  \n\t ").unwrap(), vec![Token::Eof]);
}

#[test]
fn lex_numbers() {
    assert_eq!(
        lex("0xff 0b101 1_000 3.14 1..2").unwrap(),
        vec![
            Token::Int(255),
            Token::Int(5),
            Token::Int(1000),
            Token::Float("3.14".to_string()),
            Token::Int(1),
            Token::DotDot,
            Token::Int(2),
            Token::Eof,
        ]
    );
}

#[test]
fn lex_big_int_and_too_large() {
    assert_eq!(
        lex("9223372036854775808").unwrap(),
        vec![Token::BigInt(9223372036854775808), Token::Eof]
    );
    assert_eq!(
        lex("99999999999999999999").unwrap_err(),
        "integer literal too large: 99999999999999999999"
    );
}

#[test]
fn lex_number_errors() {
    assert_eq!(lex("0x").unwrap_err(), "expected hex digits after 0x");
    assert_eq!(lex("0b").unwrap_err(), "expected binary digits after 0b");
    assert_eq!(
        lex("0xffffffffffffffff").unwrap_err(),
        "invalid hex literal: number too large to fit in target type"
    );
}

#[test]
fn lex_strings_and_escapes() {
    assert_eq!(
        lex(r#""a\tb\x41\"""#).unwrap(),
        vec![Token::Str("a\tbA\"".to_string()), Token::Eof]
    );
    assert_eq!(lex(r#""abc"#).unwrap_err(), "unterminated string literal");
    assert_eq!(lex(r#""\q""#).unwrap_err(), "unknown escape sequence: \\q");
    assert_eq!(lex(r#""\xzz""#).unwrap_err(), "invalid hex escape: \\xzz");
}

#[test]
fn lex_interpolated_string() {
    assert_eq!(
        lex(r#""a{x + "}"}b""#).unwrap(),
        vec![
            Token::InterpStr(vec![
                StringPart::Literal("a".to_string()),
                StringPart::Expr("x + \"}\"".to_string()),
                StringPart::Literal("b".to_string()),
            ]),
            Token::Eof,
        ]
    );
    assert_eq!(lex(r#""{x"#).unwrap_err(), "unterminated interpolation in string");
    assert_eq!(lex(r#""{x""#).unwrap_err(), "unterminated string inside interpolation");
}

#[test]
fn lex_multiline_string() {
    assert_eq!(
        lex("\\\\hello\n   \\\\world\n").unwrap(),
        vec![Token::Str("hello\nworld".to_string()), Token::Eof]
    );
}

#[test]
fn lex_chars_and_bytes() {
    assert_eq!(
        lex(r"'a' '\n' b'A' b'\x7f'").unwrap(),
        vec![Token::Char('a'), Token::Char('\n'), Token::Byte(65), Token::Byte(127), Token::Eof]
    );
    assert_eq!(lex("b'é'").unwrap_err(), "non-ASCII character in byte literal: 'é'");
    assert_eq!(lex("'ab'").unwrap_err(), "expected closing ' in char literal");
}

#[test]
fn lex_unexpected_characters() {
    assert_eq!(lex("a ! b").unwrap_err(), "unexpected '!', did you mean '!='?");
    assert_eq!(lex("@").unwrap_err(), "unexpected character: '@'");
}

#[test]
fn lex_underscore_names() {
    assert_eq!(
        lex("_ _x").unwrap(),
        vec![Token::Underscore, Token::Ident("_x".to_string()), Token::Eof]
    );
}

// ── Parser ──

#[test]
fn parse_precedence() {
    assert_eq!(
        parse("1 + 2 * 3").unwrap(),
        e(ExprKind::BinOp(
            BinOp::Add,
            e(ExprKind::Int(1)),
            e(ExprKind::BinOp(BinOp::Mul, e(ExprKind::Int(2)), e(ExprKind::Int(3)))),
        ))
    );
}

#[test]
fn parse_empty_program_is_unit() {
    assert_eq!(parse("").unwrap(), e(ExprKind::Unit));
}

#[test]
fn parse_ambiguous_division_error() {
    assert_eq!(
        parse("1 / 2 * 3").unwrap_err(),
        "parse error: ambiguous precedence: use parentheses around division"
    );
}

#[test]
fn parse_chained_comparison_error() {
    assert_eq!(
        parse("1 < 2 < 3").unwrap_err(),
        "parse error: non-associative: chained comparisons require parentheses"
    );
}

#[test]
fn parse_chained_range_error() {
    assert_eq!(
        parse("1..2..3").unwrap_err(),
        "parse error: non-associative: chained ranges require parentheses"
    );
}

#[test]
fn parse_lexer_error_prefix() {
    assert_eq!(parse("a ! b").unwrap_err(), "lexer error: unexpected '!', did you mean '!='?");
}

#[test]
fn parse_trailing_tokens_error() {
    assert_eq!(
        parse("1 )").unwrap_err(),
        "parse error: unexpected token after expression: RParen"
    );
}

#[test]
fn parse_parentheses() {
    assert_eq!(parse("()").unwrap(), e(ExprKind::Unit));
    assert_eq!(parse("(1)").unwrap(), e(ExprKind::Group(e(ExprKind::Int(1)))));
    assert_eq!(parse("(1,)").unwrap(), e(ExprKind::Group(e(ExprKind::Int(1)))));
    assert_eq!(
        parse("(1, a=2)").unwrap(),
        e(ExprKind::Struct(vec![
            Field { label: None, value: e(ExprKind::Int(1)), is_spread: false },
            Field { label: Some("a".to_string()), value: e(ExprKind::Int(2)), is_spread: false },
        ]))
    );
}

#[test]
fn parse_array_with_trailing_comma() {
    assert_eq!(
        parse("[1, 2,]").unwrap(),
        e(ExprKind::Array(vec![e(ExprKind::Int(1)), e(ExprKind::Int(2))]))
    );
}

#[test]
fn parse_block_sugar() {
    let expected = e(ExprKind::Block(e(ExprKind::BinOp(BinOp::Add, ident("in"), e(ExprKind::Int(1))))));
    assert_eq!(parse("{ in + 1 }").unwrap(), expected);
    assert_eq!(parse("{ + 1 }").unwrap(), expected);
    assert_eq!(parse("{}").unwrap(), e(ExprKind::Block(e(ExprKind::Unit))));
}

#[test]
fn parse_branch_block() {
    assert_eq!(
        parse("{ x -> 1, _ -> 2 }").unwrap(),
        e(ExprKind::BranchBlock(vec![
            BranchArm { pattern: BranchPattern::Binding("x".to_string()), guard: None, body: e(ExprKind::Int(1)) },
            BranchArm { pattern: BranchPattern::Discard, guard: None, body: e(ExprKind::Int(2)) },
        ]))
    );
}

#[test]
fn parse_ternary_sugar() {
    assert_eq!(
        parse("{ a | b }").unwrap(),
        e(ExprKind::BranchBlock(vec![
            BranchArm {
                pattern: BranchPattern::Literal(e(ExprKind::Bool(true))),
                guard: None,
                body: ident("a"),
            },
            BranchArm {
                pattern: BranchPattern::Literal(e(ExprKind::Bool(false))),
                guard: None,
                body: ident("b"),
            },
        ]))
    );
}

#[test]
fn parse_ambiguous_minus_errors() {
    assert_eq!(
        parse("{ -1 }").unwrap_err(),
        "parse error: ambiguous: `{ -expr }` could be subtraction or negation; write `{ in - expr }` or `{ (-expr) }`"
    );
    assert_eq!(
        parse("-x.f()").unwrap_err(),
        "parse error: ambiguous: `-x.f()` is a syntax error; write `(-x).f()` or `-(x.f())`"
    );
}

#[test]
fn parse_field_and_method_access() {
    assert_eq!(parse("a.b").unwrap(), e(ExprKind::FieldAccess(ident("a"), "b".to_string())));
    assert_eq!(parse("a.0").unwrap(), e(ExprKind::FieldAccess(ident("a"), "0".to_string())));
    assert_eq!(
        parse("a.f(1)").unwrap(),
        e(ExprKind::MethodCall { receiver: ident("a"), method: "f".to_string(), arg: e(ExprKind::Int(1)) })
    );
}

#[test]
fn parse_let_sugar() {
    assert_eq!(
        parse("let x = 1; x").unwrap(),
        e(ExprKind::Pipe(
            e(ExprKind::Int(1)),
            e(ExprKind::Let { pattern: Pattern::Name("x".to_string()), body: ident("x") }),
        ))
    );
}

#[test]
fn parse_let_destructuring() {
    let fields = vec![
        PatField { label: None, binding: "a".to_string(), is_rest: false },
        PatField { label: None, binding: "b".to_string(), is_rest: false },
    ];
    assert_eq!(
        parse("let (a, b) = p; a").unwrap(),
        e(ExprKind::Pipe(
            ident("p"),
            e(ExprKind::Let { pattern: Pattern::Fields(fields), body: ident("a") }),
        ))
    );
    assert_eq!(
        parse("p >> let[x, ...rest]").unwrap(),
        e(ExprKind::Pipe(
            ident("p"),
            e(ExprKind::LetArray {
                patterns: vec![ArrayPat::Name("x".to_string()), ArrayPat::Rest(Some("rest".to_string()))],
                body: ident("\0"),
            }),
        ))
    );
}

#[test]
fn parse_pattern_errors() {
    assert_eq!(
        parse("p >> let(...a, ...b)").unwrap_err(),
        "parse error: multiple rest patterns (...) in one destructuring"
    );
    assert_eq!(parse("p >> let x").unwrap_err(), "parse error: expected '(' or '[' after 'let', got Ident(\"x\")");
}

#[test]
fn parse_pipe_let() {
    assert_eq!(
        parse("x >> let(y); y").unwrap(),
        e(ExprKind::Pipe(
            ident("x"),
            e(ExprKind::Let { pattern: Pattern::Name("y".to_string()), body: ident("y") }),
        ))
    );
}

#[test]
fn parse_import_and_use() {
    assert_eq!(parse("import(\"m\")").unwrap(), e(ExprKind::Import("m".to_string())));
    assert_eq!(
        parse("use(m)").unwrap(),
        e(ExprKind::Pipe(
            e(ExprKind::Import("m".to_string())),
            e(ExprKind::Let { pattern: Pattern::Name("m".to_string()), body: ident("m") }),
        ))
    );
    assert_eq!(parse("import(m)").unwrap_err(), "parse error: expected string in import(), got Ident(\"m\")");
}

#[test]
fn parse_interpolation() {
    assert_eq!(
        parse("\"a{x}b\"").unwrap(),
        e(ExprKind::StringInterp(vec![
            StringInterpPart::Literal("a".to_string()),
            StringInterpPart::Expr(ident("x")),
            StringInterpPart::Literal("b".to_string()),
        ]))
    );
    assert_eq!(
        parse("\"{1 / 2 * 3}\"").unwrap_err(),
        "parse error: error in string interpolation: ambiguous precedence: use parentheses around division"
    );
}

#[test]
fn parse_tags_are_fresh_in_order() {
    let (ast, next) = parse_from("new_tag; tag(A); new_tag", 18).unwrap();
    assert_eq!(next, 21);
    assert_eq!(
        ast,
        e(ExprKind::Pipe(
            e(ExprKind::NewTag(18, None)),
            e(ExprKind::Let {
                pattern: Pattern::Discard,
                body: e(ExprKind::Pipe(
                    e(ExprKind::NewTag(19, Some("A".to_string()))),
                    e(ExprKind::Let { pattern: Pattern::Name("A".to_string()), body: e(ExprKind::NewTag(20, None)) }),
                )),
            }),
        ))
    );
}

#[test]
fn parse_tags_inside_interpolation_continue_numbering() {
    let (_, next) = parse_from("\"{new_tag}{new_tag}\"", 40).unwrap();
    assert_eq!(next, 42);
}

#[test]
fn parser_counts_tags_from_first_user_tag() {
    let mut p = Parser::new(lex("new_tag").unwrap());
    assert_eq!(p.parse_program().unwrap(), e(ExprKind::NewTag(FIRST_USER_TAG, None)));
    assert_eq!(p.next_tag_id(), FIRST_USER_TAG + 1);
}

// ── Lowering ──

#[test]
fn lower_operators_to_method_calls() {
    assert_eq!(
        parse_and_lower("1 + 2 * 3").unwrap(),
        m(MirKind::MethodCall {
            receiver: m(MirKind::Int(1)),
            method: "add".to_string(),
            arg: m(MirKind::MethodCall {
                receiver: m(MirKind::Int(2)),
                method: "times".to_string(),
                arg: m(MirKind::Int(3)),
            }),
        })
    );
    assert_eq!(
        parse_and_lower("1 == 2").unwrap(),
        m(MirKind::MethodCall { receiver: m(MirKind::Int(1)), method: "eq".to_string(), arg: m(MirKind::Int(2)) })
    );
    assert_eq!(
        parse_and_lower("-x").unwrap(),
        m(MirKind::MethodCall { receiver: mident("x"), method: "negate".to_string(), arg: m(MirKind::Unit) })
    );
}

#[test]
fn lower_strips_groups_and_expands_ranges() {
    assert_eq!(parse_and_lower("((x))").unwrap(), mident("x"));
    assert_eq!(
        parse_and_lower("1..2").unwrap(),
        m(MirKind::Struct(vec![
            MirField { label: Some("start".to_string()), value: m(MirKind::Int(1)), is_spread: false },
            MirField { label: Some("end".to_string()), value: m(MirKind::Int(2)), is_spread: false },
        ]))
    );
}

#[test]
fn lower_pipes_into_calls() {
    assert_eq!(
        parse_and_lower("x >> f(y)").unwrap(),
        m(MirKind::Call(mident("f"), m(MirKind::Struct(vec![positional(mident("x")), positional(mident("y"))]))))
    );
    assert_eq!(parse_and_lower("x >> f").unwrap(), m(MirKind::Call(mident("f"), mident("x"))));
    assert_eq!(parse_and_lower("x >> f()").unwrap(), m(MirKind::Call(mident("f"), mident("x"))));
    assert_eq!(
        parse_and_lower("x >> o.m(1, 2)").unwrap(),
        m(MirKind::MethodCall {
            receiver: mident("o"),
            method: "m".to_string(),
            arg: m(MirKind::Struct(vec![
                positional(mident("x")),
                positional(m(MirKind::Int(1))),
                positional(m(MirKind::Int(2))),
            ])),
        })
    );
}

#[test]
fn lower_interpolation_to_add_chain() {
    assert_eq!(
        parse_and_lower("\"a{x}b\"").unwrap(),
        m(MirKind::MethodCall {
            receiver: m(MirKind::MethodCall {
                receiver: m(MirKind::Str("a".to_string())),
                method: "add".to_string(),
                arg: m(MirKind::MethodCall {
                    receiver: mident("x"),
                    method: "to_string".to_string(),
                    arg: m(MirKind::Unit),
                }),
            }),
            method: "add".to_string(),
            arg: m(MirKind::Str("b".to_string())),
        })
    );
}

#[test]
fn lower_keeps_pipe_into_let() {
    assert_eq!(
        parse_and_lower("x >> let(y); y").unwrap(),
        m(MirKind::Pipe(
            mident("x"),
            m(MirKind::Let { pattern: Pattern::Name("y".to_string()), body: mident("y") }),
        ))
    );
}

// ── Imports ──

#[test]
fn imports_deduplicated_in_first_occurrence_order() {
    assert_eq!(
        imports("import(\"b\"); import(\"a\"); { import(\"b\") }; use(c)").unwrap(),
        vec!["b".to_string(), "a".to_string(), "c".to_string()]
    );
    assert_eq!(imports("1 + 2").unwrap(), Vec::<String>::new());
    assert_eq!(imports("import(").unwrap_err(), "parse error: expected string in import(), got Eof");
}

// ── Method names ──

#[test]
fn comparison_methods_round_trip() {
    for (name, op) in [
        ("eq", CmpOp::Eq),
        ("not_eq", CmpOp::NotEq),
        ("lt", CmpOp::Lt),
        ("gt", CmpOp::Gt),
        ("lt_eq", CmpOp::LtEq),
        ("gt_eq", CmpOp::GtEq),
    ] {
        assert_eq!(method_to_cmp_op(name), Some(op));
    }
    assert_eq!(method_to_cmp_op("add"), None);
}

#[test]
fn comparisons_from_orderings() {
    assert!(compare_ord(CmpOp::Lt, Order::Less));
    assert!(!compare_ord(CmpOp::Lt, Order::Equal));
    assert!(compare_ord(CmpOp::LtEq, Order::Equal));
    assert!(compare_ord(CmpOp::GtEq, Order::Greater));
    assert!(compare_ord(CmpOp::NotEq, Order::Greater));
    assert!(!compare_ord(CmpOp::Eq, Order::Less));
    assert_eq!(compare_partial(CmpOp::Gt, Some(Order::Greater)), Ok(true));
    assert_eq!(compare_partial(CmpOp::Eq, None), Ok(false));
    assert_eq!(compare_partial(CmpOp::NotEq, None), Ok(true));
    assert_eq!(compare_partial(CmpOp::Lt, None), Err("NaN comparison".to_string()));
}

#[test]
fn parse_least_int_after_minus() {
    assert_eq!(*parse("-9223372036854775808").unwrap(), ExprKind::Int(i64::MIN));
    assert_eq!(
        *parse("-9223372036854775808 + 1").unwrap(),
        ExprKind::BinOp(BinOp::Add, e(ExprKind::Int(i64::MIN)), e(ExprKind::Int(1)))
    );
    assert_eq!(
        parse("-9223372036854775809").unwrap_err(),
        "parse error: unexpected token in expression: BigInt(9223372036854775809)"
    );
    assert_eq!(
        parse("9223372036854775808").unwrap_err(),
        "parse error: unexpected token in expression: BigInt(9223372036854775808)"
    );
}

#[test]
fn token_debug_matches_derived_debug() {
    let tokens = vec![
        Token::Int(-5),
        Token::BigInt(9223372036854775808),
        Token::Str("a\"b\n'c".to_string()),
        Token::Char('\''),
        Token::Char('"'),
        Token::Byte(97),
        Token::InterpStr(vec![StringPart::Literal("x".to_string()), StringPart::Expr("y + 1".to_string())]),
        Token::InterpStr(vec![]),
        Token::LParen,
        Token::Spread,
        Token::NewTag,
        Token::Ident("héllo".to_string()),
        Token::Eof,
    ];
    for t in &tokens {
        assert_eq!(nana::lexer::token_debug(t), format!("{:?}", t));
    }
    assert_eq!(nana::lexer::token_debug(&Token::Float("1.5".to_string())), "Float(1.5)");
}

#[test]
fn every_token_consumes_input() {
    let src = "let x = [1, 2.5, \"s{x}\", 'c', b'a', _y, ->, >>, ..., \\\\ line\n] ";
    let tokens = lex(src).unwrap();
    assert!(tokens.len() <= src.chars().count() + 1);
    assert_eq!(tokens.last(), Some(&Token::Eof));
}

#[test]
fn parse_and_lower_is_parse_then_lower() {
    for src in ["1 + 2", "let x = 3; x * x", "[1, 2] >> f", "-9223372036854775808", "(1"] {
        let direct = parse_and_lower(src);
        let staged = parse(src).map(|ast| nana::mir::lower(&ast));
        assert_eq!(direct, staged);
    }
}

#[test]
fn parse_hands_out_increasing_user_tags() {
    let (_, next) = parse_from("new_tag; new_tag; new_tag", FIRST_USER_TAG).unwrap();
    assert_eq!(next, FIRST_USER_TAG + 3);
    assert!(FIRST_USER_TAG >= 18);
}

#[test]
fn parse_least_int_in_branch_pattern() {
    assert_eq!(
        parse("{ 0 -> 0, -9223372036854775808 -> 1, _ -> 2 }").unwrap(),
        e(ExprKind::BranchBlock(vec![
            BranchArm { pattern: BranchPattern::Literal(e(ExprKind::Int(0))), guard: None, body: e(ExprKind::Int(0)) },
            BranchArm {
                pattern: BranchPattern::Literal(e(ExprKind::Int(i64::MIN))),
                guard: None,
                body: e(ExprKind::Int(1)),
            },
            BranchArm { pattern: BranchPattern::Discard, guard: None, body: e(ExprKind::Int(2)) },
        ]))
    );
    assert_eq!(
        parse("{ 0 -> 0, -9223372036854775809 -> 1 }").unwrap_err(),
        "parse error: expected number after '-' in pattern, got BigInt(9223372036854775809)"
    );
}

#[test]
fn next_token_consumes_its_characters() {
    let mut lx = Lexer::new("abc + 1");
    assert_eq!(lx.next_token(), Ok(Token::Ident("abc".to_string())));
    let mut lx = Lexer::new(">>=");
    assert_eq!(lx.next_token(), Ok(Token::Pipe));
    assert_eq!(lx.next_token(), Ok(Token::Assign));
}
