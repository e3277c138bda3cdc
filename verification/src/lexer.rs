//! The lexer: turns source text into tokens.
use vstd::prelude::*;

use crate::text::{
    char_debug, char_debug_text, char_is_alphabetic, char_is_alphanumeric, char_is_ascii_digit,
    char_is_ascii_hexdigit, char_is_whitespace, chars_of, decimal, i64_decimal, is_ascii_digit,
    is_ascii_hexdigit, push_char, push_str, signed_decimal, str_debug, str_debug_text, text,
    u64_decimal, unicode_alphabetic, unicode_alphanumeric, unicode_white_space,
};

verus! {

#[derive(Debug, PartialEq)]
pub enum StringPart {
    Literal(String),
    Expr(String),
}

#[derive(Debug, PartialEq)]
pub enum Token {
    Int(i64),
    /// Integer literal that overflowed i64 but fits in u64.
    /// Only valid when preceded by unary minus (e.g., -9223372036854775808).
    BigInt(u64),
    /// Float literal: its decimal digits and point, underscores removed.
    Float(String),
    Str(String),
    Char(char),
    Byte(u8),
    InterpStr(Vec<StringPart>),
    LParen,
    RParen,
    LBracket,
    RBracket,
    LBrace,
    RBrace,
    Plus,
    Minus,
    Star,
    Slash,
    EqEq,
    NotEq,
    Lt,
    Gt,
    LtEq,
    GtEq,
    Pipe,
    Bar,
    Arrow,
    DotDot,
    Dot,
    Spread,
    Comma,
    Semicolon,
    Assign,
    Underscore,
    Let,
    In,
    If,
    Tag,
    NewTag,
    True,
    False,
    Import,
    Use,
    Ident(String),
    Eof,
}

pub enum PartV {
    Literal(Seq<char>),
    Expr(Seq<char>),
}

/// The model of a token: its strings as character sequences.
pub enum TokenV {
    Int(i64),
    BigInt(u64),
    Float(Seq<char>),
    Str(Seq<char>),
    Char(char),
    Byte(u8),
    InterpStr(Seq<PartV>),
    LParen,
    RParen,
    LBracket,
    RBracket,
    LBrace,
    RBrace,
    Plus,
    Minus,
    Star,
    Slash,
    EqEq,
    NotEq,
    Lt,
    Gt,
    LtEq,
    GtEq,
    Pipe,
    Bar,
    Arrow,
    DotDot,
    Dot,
    Spread,
    Comma,
    Semicolon,
    Assign,
    Underscore,
    Let,
    In,
    If,
    Tag,
    NewTag,
    True,
    False,
    Import,
    Use,
    Ident(Seq<char>),
    Eof,
}

impl View for StringPart {
    type V = PartV;

    open spec fn view(&self) -> PartV {
        match self {
            StringPart::Literal(s) => PartV::Literal(s@),
            StringPart::Expr(s) => PartV::Expr(s@),
        }
    }
}

pub open spec fn parts_view(ps: Seq<StringPart>) -> Seq<PartV> {
    ps.map_values(|p: StringPart| p@)
}

impl View for Token {
    type V = TokenV;

    open spec fn view(&self) -> TokenV {
        match self {
            Token::Int(n) => TokenV::Int(*n),
            Token::BigInt(n) => TokenV::BigInt(*n),
            Token::Float(s) => TokenV::Float(s@),
            Token::Str(s) => TokenV::Str(s@),
            Token::Char(c) => TokenV::Char(*c),
            Token::Byte(b) => TokenV::Byte(*b),
            Token::InterpStr(ps) => TokenV::InterpStr(parts_view(ps@)),
            Token::LParen => TokenV::LParen,
            Token::RParen => TokenV::RParen,
            Token::LBracket => TokenV::LBracket,
            Token::RBracket => TokenV::RBracket,
            Token::LBrace => TokenV::LBrace,
            Token::RBrace => TokenV::RBrace,
            Token::Plus => TokenV::Plus,
            Token::Minus => TokenV::Minus,
            Token::Star => TokenV::Star,
            Token::Slash => TokenV::Slash,
            Token::EqEq => TokenV::EqEq,
            Token::NotEq => TokenV::NotEq,
            Token::Lt => TokenV::Lt,
            Token::Gt => TokenV::Gt,
            Token::LtEq => TokenV::LtEq,
            Token::GtEq => TokenV::GtEq,
            Token::Pipe => TokenV::Pipe,
            Token::Bar => TokenV::Bar,
            Token::Arrow => TokenV::Arrow,
            Token::DotDot => TokenV::DotDot,
            Token::Dot => TokenV::Dot,
            Token::Spread => TokenV::Spread,
            Token::Comma => TokenV::Comma,
            Token::Semicolon => TokenV::Semicolon,
            Token::Assign => TokenV::Assign,
            Token::Underscore => TokenV::Underscore,
            Token::Let => TokenV::Let,
            Token::In => TokenV::In,
            Token::If => TokenV::If,
            Token::Tag => TokenV::Tag,
            Token::NewTag => TokenV::NewTag,
            Token::True => TokenV::True,
            Token::False => TokenV::False,
            Token::Import => TokenV::Import,
            Token::Use => TokenV::Use,
            Token::Ident(s) => TokenV::Ident(s@),
            Token::Eof => TokenV::Eof,
        }
    }
}

pub open spec fn tokens_view(ts: Seq<Token>) -> Seq<TokenV> {
    ts.map_values(|t: Token| t@)
}

/// The `Debug` text of a string part, as derived: `Literal("..")` or
/// `Expr("..")`.
pub open spec fn part_debug(p: PartV) -> Seq<char> {
    match p {
        PartV::Literal(t) => "Literal("@ + str_debug(t) + ")"@,
        PartV::Expr(t) => "Expr("@ + str_debug(t) + ")"@,
    }
}

/// The `Debug` texts of string parts, separated by ", ".
pub open spec fn parts_debug(ps: Seq<PartV>) -> Seq<char>
    decreases ps.len(),
{
    if ps.len() == 0 {
        seq![]
    } else if ps.len() == 1 {
        part_debug(ps.last())
    } else {
        parts_debug(ps.drop_last()) + ", "@ + part_debug(ps.last())
    }
}

/// The `Debug` text of a token, as derived: the variant's name, followed by
/// its field in parentheses where it has one (a float by its digits).
pub open spec fn token_debug_text(t: TokenV) -> Seq<char> {
    match t {
        TokenV::Int(n) => "Int("@ + signed_decimal(n as int) + ")"@,
        TokenV::BigInt(n) => "BigInt("@ + decimal(n as nat) + ")"@,
        TokenV::Float(f) => "Float("@ + f + ")"@,
        TokenV::Str(t) => "Str("@ + str_debug(t) + ")"@,
        TokenV::Char(c) => "Char("@ + char_debug(c) + ")"@,
        TokenV::Byte(b) => "Byte("@ + decimal(b as nat) + ")"@,
        TokenV::InterpStr(ps) => "InterpStr(["@ + parts_debug(ps) + "])"@,
        TokenV::Ident(n) => "Ident("@ + str_debug(n) + ")"@,
        TokenV::LParen => "LParen"@,
        TokenV::RParen => "RParen"@,
        TokenV::LBracket => "LBracket"@,
        TokenV::RBracket => "RBracket"@,
        TokenV::LBrace => "LBrace"@,
        TokenV::RBrace => "RBrace"@,
        TokenV::Plus => "Plus"@,
        TokenV::Minus => "Minus"@,
        TokenV::Star => "Star"@,
        TokenV::Slash => "Slash"@,
        TokenV::EqEq => "EqEq"@,
        TokenV::NotEq => "NotEq"@,
        TokenV::Lt => "Lt"@,
        TokenV::Gt => "Gt"@,
        TokenV::LtEq => "LtEq"@,
        TokenV::GtEq => "GtEq"@,
        TokenV::Pipe => "Pipe"@,
        TokenV::Bar => "Bar"@,
        TokenV::Arrow => "Arrow"@,
        TokenV::DotDot => "DotDot"@,
        TokenV::Dot => "Dot"@,
        TokenV::Spread => "Spread"@,
        TokenV::Comma => "Comma"@,
        TokenV::Semicolon => "Semicolon"@,
        TokenV::Assign => "Assign"@,
        TokenV::Underscore => "Underscore"@,
        TokenV::Let => "Let"@,
        TokenV::In => "In"@,
        TokenV::If => "If"@,
        TokenV::Tag => "Tag"@,
        TokenV::NewTag => "NewTag"@,
        TokenV::True => "True"@,
        TokenV::False => "False"@,
        TokenV::Import => "Import"@,
        TokenV::Use => "Use"@,
        TokenV::Eof => "Eof"@,
    }
}

fn part_debug_of(p: &StringPart) -> (r: String)
    ensures
        r@ == part_debug(p@),
{
    match p {
        StringPart::Literal(t) => {
            let mut s = text("Literal(");
            let d = str_debug_text(t.as_str());
            push_str(&mut s, d.as_str());
            push_str(&mut s, ")");
            s
        },
        StringPart::Expr(t) => {
            let mut s = text("Expr(");
            let d = str_debug_text(t.as_str());
            push_str(&mut s, d.as_str());
            push_str(&mut s, ")");
            s
        },
    }
}

fn parts_debug_of(ps: &Vec<StringPart>) -> (r: String)
    ensures
        r@ == parts_debug(parts_view(ps@)),
{
    let ghost vs = parts_view(ps@);
    let mut s = String::new();
    let mut i: usize = 0;
    while i < ps.len()
        invariant
            i <= ps.len(),
            vs == parts_view(ps@),
            s@ == parts_debug(vs.take(i as int)),
        decreases ps.len() - i,
    {
        proof {
            assert(vs.take(i + 1).drop_last() =~= vs.take(i as int));
            assert(vs.take(i + 1).last() == ps@[i as int]@);
        }
        if i > 0 {
            push_str(&mut s, ", ");
        }
        let d = part_debug_of(&ps[i]);
        push_str(&mut s, d.as_str());
        i = i + 1;
        assert(s@ =~= parts_debug(vs.take(i as int)));
    }
    assert(vs.take(ps.len() as int) =~= vs);
    s
}

/// The `Debug` text of a token, as `format!("{:?}", t)` prints it (with a
/// float shown by its digits).
pub fn token_debug(t: &Token) -> (r: String)
    ensures
        r@ == token_debug_text(t@),
{
    match t {
        Token::Int(n) => {
            let mut s = text("Int(");
            let d = i64_decimal(*n);
            push_str(&mut s, d.as_str());
            push_str(&mut s, ")");
            s
        },
        Token::BigInt(n) => {
            let mut s = text("BigInt(");
            let d = u64_decimal(*n);
            push_str(&mut s, d.as_str());
            push_str(&mut s, ")");
            s
        },
        Token::Float(f) => {
            let mut s = text("Float(");
            let d = f.clone();
            push_str(&mut s, d.as_str());
            push_str(&mut s, ")");
            s
        },
        Token::Str(x) => {
            let mut s = text("Str(");
            let d = str_debug_text(x.as_str());
            push_str(&mut s, d.as_str());
            push_str(&mut s, ")");
            s
        },
        Token::Char(c) => {
            let mut s = text("Char(");
            let d = char_debug_text(*c);
            push_str(&mut s, d.as_str());
            push_str(&mut s, ")");
            s
        },
        Token::Byte(b) => {
            let mut s = text("Byte(");
            let d = u64_decimal(*b as u64);
            push_str(&mut s, d.as_str());
            push_str(&mut s, ")");
            s
        },
        Token::InterpStr(ps) => {
            let mut s = text("InterpStr([");
            let d = parts_debug_of(ps);
            push_str(&mut s, d.as_str());
            push_str(&mut s, "])");
            s
        },
        Token::Ident(n) => {
            let mut s = text("Ident(");
            let d = str_debug_text(n.as_str());
            push_str(&mut s, d.as_str());
            push_str(&mut s, ")");
            s
        },
        Token::LParen => text("LParen"),
        Token::RParen => text("RParen"),
        Token::LBracket => text("LBracket"),
        Token::RBracket => text("RBracket"),
        Token::LBrace => text("LBrace"),
        Token::RBrace => text("RBrace"),
        Token::Plus => text("Plus"),
        Token::Minus => text("Minus"),
        Token::Star => text("Star"),
        Token::Slash => text("Slash"),
        Token::EqEq => text("EqEq"),
        Token::NotEq => text("NotEq"),
        Token::Lt => text("Lt"),
        Token::Gt => text("Gt"),
        Token::LtEq => text("LtEq"),
        Token::GtEq => text("GtEq"),
        Token::Pipe => text("Pipe"),
        Token::Bar => text("Bar"),
        Token::Arrow => text("Arrow"),
        Token::DotDot => text("DotDot"),
        Token::Dot => text("Dot"),
        Token::Spread => text("Spread"),
        Token::Comma => text("Comma"),
        Token::Semicolon => text("Semicolon"),
        Token::Assign => text("Assign"),
        Token::Underscore => text("Underscore"),
        Token::Let => text("Let"),
        Token::In => text("In"),
        Token::If => text("If"),
        Token::Tag => text("Tag"),
        Token::NewTag => text("NewTag"),
        Token::True => text("True"),
        Token::False => text("False"),
        Token::Import => text("Import"),
        Token::Use => text("Use"),
        Token::Eof => text("Eof"),
    }
}

pub fn copy_part(p: &StringPart) -> (r: StringPart)
    ensures
        r@ == p@,
{
    match p {
        StringPart::Literal(s) => StringPart::Literal(s.clone()),
        StringPart::Expr(s) => StringPart::Expr(s.clone()),
    }
}

pub fn copy_parts(ps: &Vec<StringPart>) -> (r: Vec<StringPart>)
    ensures
        parts_view(r@) == parts_view(ps@),
{
    let mut out: Vec<StringPart> = Vec::new();
    let mut i: usize = 0;
    while i < ps.len()
        invariant
            i <= ps.len(),
            parts_view(out@) == parts_view(ps@).take(i as int),
        decreases ps.len() - i,
    {
        let c = copy_part(&ps[i]);
        let ghost before = out@;
        out.push(c);
        assert(parts_view(out@) =~= parts_view(before).push(c@));
        assert(parts_view(ps@).take(i + 1) =~= parts_view(ps@).take(i as int).push(ps@[i as int]@));
        i = i + 1;
    }
    assert(parts_view(ps@).take(i as int) =~= parts_view(ps@));
    out
}

impl Clone for Token {
    fn clone(&self) -> (r: Self)
        ensures
            r@ == self@,
    {
        match self {
            Token::Int(n) => Token::Int(*n),
            Token::BigInt(n) => Token::BigInt(*n),
            Token::Float(s) => Token::Float(s.clone()),
            Token::Str(s) => Token::Str(s.clone()),
            Token::Char(c) => Token::Char(*c),
            Token::Byte(b) => Token::Byte(*b),
            Token::InterpStr(ps) => Token::InterpStr(copy_parts(ps)),
            Token::LParen => Token::LParen,
            Token::RParen => Token::RParen,
            Token::LBracket => Token::LBracket,
            Token::RBracket => Token::RBracket,
            Token::LBrace => Token::LBrace,
            Token::RBrace => Token::RBrace,
            Token::Plus => Token::Plus,
            Token::Minus => Token::Minus,
            Token::Star => Token::Star,
            Token::Slash => Token::Slash,
            Token::EqEq => Token::EqEq,
            Token::NotEq => Token::NotEq,
            Token::Lt => Token::Lt,
            Token::Gt => Token::Gt,
            Token::LtEq => Token::LtEq,
            Token::GtEq => Token::GtEq,
            Token::Pipe => Token::Pipe,
            Token::Bar => Token::Bar,
            Token::Arrow => Token::Arrow,
            Token::DotDot => Token::DotDot,
            Token::Dot => Token::Dot,
            Token::Spread => Token::Spread,
            Token::Comma => Token::Comma,
            Token::Semicolon => Token::Semicolon,
            Token::Assign => Token::Assign,
            Token::Underscore => Token::Underscore,
            Token::Let => Token::Let,
            Token::In => Token::In,
            Token::If => Token::If,
            Token::Tag => Token::Tag,
            Token::NewTag => Token::NewTag,
            Token::True => Token::True,
            Token::False => Token::False,
            Token::Import => Token::Import,
            Token::Use => Token::Use,
            Token::Ident(s) => Token::Ident(s.clone()),
            Token::Eof => Token::Eof,
        }
    }
}

// ── The model of lexing ─────────────────────────────────────────

/// Whether `c` may continue an identifier.
pub open spec fn is_ident_char(c: char) -> bool {
    unicode_alphanumeric(c) || c == '_'
}

/// The first position at or after `p` that is not whitespace.
pub open spec fn skip_white(s: Seq<char>, p: int) -> int
    decreases s.len() - p,
{
    if 0 <= p < s.len() && unicode_white_space(s[p]) {
        skip_white(s, p + 1)
    } else {
        p
    }
}

/// The position of the end of the line at or after `p` (of its newline,
/// or the end of input).
pub open spec fn line_end(s: Seq<char>, p: int) -> int
    decreases s.len() - p,
{
    if 0 <= p < s.len() && s[p] != '\n' {
        line_end(s, p + 1)
    } else {
        p
    }
}

/// The position after whitespace and `#` comments, starting at `p >= 0`.
pub open spec fn skip_trivia(s: Seq<char>, p: int) -> int
    decreases s.len() - p,
{
    let q = skip_white(s, p);
    if 0 <= p && 0 <= q < s.len() && s[q] == '#' {
        proof {
            lemma_skip_white_ge(s, p);
            lemma_line_end_bounds(s, q);
        }
        skip_trivia(s, line_end(s, q))
    } else {
        q
    }
}

pub proof fn lemma_skip_white_ge(s: Seq<char>, p: int)
    ensures
        skip_white(s, p) >= p,
        0 <= p <= s.len() ==> skip_white(s, p) <= s.len(),
    decreases s.len() - p,
{
    if 0 <= p < s.len() && unicode_white_space(s[p]) {
        lemma_skip_white_ge(s, p + 1);
    }
}

pub proof fn lemma_line_end_bounds(s: Seq<char>, q: int)
    requires
        0 <= q < s.len(),
        s[q] != '\n',
    ensures
        q < line_end(s, q) <= s.len(),
    decreases s.len() - q,
{
    if q + 1 < s.len() && s[q + 1] != '\n' {
        lemma_line_end_bounds(s, q + 1);
    } else {
        assert(line_end(s, q + 1) == q + 1);
    }
}

/// The end of the run of identifier characters starting at `p`.
pub open spec fn ident_end(s: Seq<char>, p: int) -> int
    decreases s.len() - p,
{
    if 0 <= p < s.len() && is_ident_char(s[p]) {
        ident_end(s, p + 1)
    } else {
        p
    }
}

/// The token for a word: a keyword, or an identifier.
pub open spec fn word_token(w: Seq<char>) -> TokenV {
    if w == "let"@ {
        TokenV::Let
    } else if w == "in"@ {
        TokenV::In
    } else if w == "if"@ {
        TokenV::If
    } else if w == "tag"@ {
        TokenV::Tag
    } else if w == "new_tag"@ {
        TokenV::NewTag
    } else if w == "true"@ {
        TokenV::True
    } else if w == "false"@ {
        TokenV::False
    } else if w == "import"@ {
        TokenV::Import
    } else if w == "use"@ {
        TokenV::Use
    } else {
        TokenV::Ident(w)
    }
}

/// The value of a hexadecimal digit.
pub open spec fn hex_value(c: char) -> nat {
    if '0' <= c <= '9' {
        (c as nat - '0' as nat) as nat
    } else if 'a' <= c <= 'f' {
        (c as nat - 'a' as nat + 10) as nat
    } else {
        (c as nat - 'A' as nat + 10) as nat
    }
}

pub open spec fn char_at(s: Seq<char>, p: int) -> Option<char> {
    if 0 <= p < s.len() {
        Some(s[p])
    } else {
        None
    }
}

/// The byte of a `\x` escape whose two digits start at `p`.
pub open spec fn hex_byte(s: Seq<char>, p: int) -> Result<u8, Seq<char>> {
    match (char_at(s, p), char_at(s, p + 1)) {
        (Some(hi), Some(lo)) => if is_ascii_hexdigit(hi) && is_ascii_hexdigit(lo) {
            Ok((hex_value(hi) * 16 + hex_value(lo)) as u8)
        } else {
            Err("invalid hex escape: \\x"@ + seq![hi, lo])
        },
        _ => Err("unterminated \\x escape"@),
    }
}

} // verus!

verus! {

/// A run of characters: the end of the run starting at `p` of characters
/// that are ASCII digits (`Dec`), hex digits (`Hex`), binary digits (`Bin`),
/// each also allowing `_`, or spaces and tabs (`Blank`).
#[derive(Clone, Copy)]
pub enum RunKind {
    Dec,
    Hex,
    Bin,
    Blank,
}

pub open spec fn in_run(k: RunKind, c: char) -> bool {
    match k {
        RunKind::Dec => is_ascii_digit(c) || c == '_',
        RunKind::Hex => is_ascii_hexdigit(c) || c == '_',
        RunKind::Bin => c == '0' || c == '1' || c == '_',
        RunKind::Blank => c == ' ' || c == '\t',
    }
}

pub open spec fn run_end(s: Seq<char>, p: int, k: RunKind) -> int
    decreases s.len() - p,
{
    if 0 <= p < s.len() && in_run(k, s[p]) {
        run_end(s, p + 1, k)
    } else {
        p
    }
}

/// The characters of `s` other than `_`, in order.
pub open spec fn strip_underscores(s: Seq<char>) -> Seq<char>
    decreases s.len(),
{
    if s.len() == 0 {
        s
    } else if s.last() == '_' {
        strip_underscores(s.drop_last())
    } else {
        strip_underscores(s.drop_last()).push(s.last())
    }
}

/// The value of a string of digits in the given base (2 or 16).
pub open spec fn radix_value(d: Seq<char>, base: nat) -> nat
    decreases d.len(),
{
    if d.len() == 0 {
        0
    } else {
        radix_value(d.drop_last(), base) * base + hex_value(d.last())
    }
}

/// A number literal starting at `p`, which holds a decimal digit.
pub open spec fn lex_number_spec(s: Seq<char>, p: int) -> Result<(TokenV, int), Seq<char>> {
    if char_at(s, p) == Some('0') && char_at(s, p + 1) == Some('x') {
        let e = run_end(s, p + 2, RunKind::Hex);
        let h = strip_underscores(s.subrange(p + 2, e));
        if h.len() == 0 {
            Err("expected hex digits after 0x"@)
        } else if radix_value(h, 16) <= i64::MAX {
            Ok((TokenV::Int(radix_value(h, 16) as i64), e))
        } else {
            Err("invalid hex literal: number too large to fit in target type"@)
        }
    } else if char_at(s, p) == Some('0') && char_at(s, p + 1) == Some('b') {
        let e = run_end(s, p + 2, RunKind::Bin);
        let h = strip_underscores(s.subrange(p + 2, e));
        if h.len() == 0 {
            Err("expected binary digits after 0b"@)
        } else if radix_value(h, 2) <= i64::MAX {
            Ok((TokenV::Int(radix_value(h, 2) as i64), e))
        } else {
            Err("invalid binary literal: number too large to fit in target type"@)
        }
    } else {
        let e = run_end(s, p, RunKind::Dec);
        let n = strip_underscores(s.subrange(p, e));
        if char_at(s, e) == Some('.') && e + 1 < s.len() && is_ascii_digit(s[e + 1]) {
            let e2 = run_end(s, e + 1, RunKind::Dec);
            Ok((TokenV::Float(n.push('.') + strip_underscores(s.subrange(e + 1, e2))), e2))
        } else if radix_value(n, 10) <= i64::MAX {
            Ok((TokenV::Int(radix_value(n, 10) as i64), e))
        } else if radix_value(n, 10) <= u64::MAX {
            Ok((TokenV::BigInt(radix_value(n, 10) as u64), e))
        } else {
            Err("integer literal too large: "@ + n)
        }
    }
}

/// The character a simple escape `\c` stands for in strings.
pub open spec fn string_escape(c: char) -> Option<char> {
    if c == 'n' {
        Some('\n')
    } else if c == 't' {
        Some('\t')
    } else if c == 'r' {
        Some('\r')
    } else if c == '\\' {
        Some('\\')
    } else if c == '"' {
        Some('"')
    } else if c == '0' {
        Some('\0')
    } else if c == '{' {
        Some('{')
    } else if c == '}' {
        Some('}')
    } else {
        None
    }
}

/// The character a simple escape `\c` stands for in char and byte literals.
pub open spec fn char_escape(c: char) -> Option<char> {
    if c == 'n' {
        Some('\n')
    } else if c == 't' {
        Some('\t')
    } else if c == 'r' {
        Some('\r')
    } else if c == '\\' {
        Some('\\')
    } else if c == '\'' {
        Some('\'')
    } else if c == '0' {
        Some('\0')
    } else {
        None
    }
}

pub open spec fn with_part(parts: Seq<PartV>, cur: Seq<char>) -> Seq<PartV> {
    if cur.len() > 0 {
        parts.push(PartV::Literal(cur))
    } else {
        parts
    }
}

/// The rest of a string literal from `q`: `cur` is the literal text since
/// the last interpolation, `parts` the parts so far, `hi` whether an
/// interpolation was seen.
pub open spec fn string_rest(s: Seq<char>, q: int, cur: Seq<char>, parts: Seq<PartV>, hi: bool) -> Result<(TokenV, int), Seq<char>>
    decreases s.len() - q,
{
    if q < 0 || q >= s.len() {
        Err("unterminated string literal"@)
    } else {
        let c = s[q];
        if c == '"' {
            if hi {
                Ok((TokenV::InterpStr(with_part(parts, cur)), q + 1))
            } else {
                Ok((TokenV::Str(cur), q + 1))
            }
        } else if c == '{' {
            match interp_rest(s, q + 1, seq![], 1) {
                Err(e) => Err(e),
                Ok((src, q2)) => if q < q2 <= s.len() {
                    string_rest(s, q2, seq![], with_part(parts, cur).push(PartV::Expr(src)), true)
                } else {
                    Err(seq![])
                },
            }
        } else if c == '\\' {
            match char_at(s, q + 1) {
                None => Err("unterminated escape in string"@),
                Some(c2) => if c2 == 'x' {
                    match hex_byte(s, q + 2) {
                        Err(e) => Err(e),
                        Ok(b) => string_rest(s, q + 4, cur.push(b as char), parts, hi),
                    }
                } else {
                    match string_escape(c2) {
                        Some(e) => string_rest(s, q + 2, cur.push(e), parts, hi),
                        None => Err("unknown escape sequence: \\"@ + seq![c2]),
                    }
                },
            }
        } else {
            string_rest(s, q + 1, cur.push(c), parts, hi)
        }
    }
}

/// The rest of an interpolated expression's source from `q`, inside `depth`
/// open braces: the source up to the matching `}` and the position after it.
pub open spec fn interp_rest(s: Seq<char>, q: int, expr: Seq<char>, depth: int) -> Result<(Seq<char>, int), Seq<char>>
    decreases s.len() - q,
{
    if q < 0 || q >= s.len() {
        Err("unterminated interpolation in string"@)
    } else {
        let c = s[q];
        if c == '{' {
            interp_rest(s, q + 1, expr.push('{'), depth + 1)
        } else if c == '}' {
            if depth - 1 == 0 {
                Ok((expr, q + 1))
            } else {
                interp_rest(s, q + 1, expr.push('}'), depth - 1)
            }
        } else if c == '"' {
            match nested_string(s, q + 1, expr.push('"')) {
                Err(e) => Err(e),
                Ok((e2, q2)) => if q < q2 <= s.len() {
                    interp_rest(s, q2, e2, depth)
                } else {
                    Err(seq![])
                },
            }
        } else if c == '\'' {
            match char_at(s, q + 1) {
                None => Err("unterminated char inside interpolation"@),
                Some(c1) => {
                    let (e1, q3) = if c1 == '\\' {
                        if q + 2 < s.len() {
                            (expr.push('\'').push('\\').push(s[q + 2]), q + 3)
                        } else {
                            (expr.push('\'').push('\\'), q + 3)
                        }
                    } else {
                        (expr.push('\'').push(c1), q + 2)
                    };
                    if char_at(s, q3) == Some('\'') {
                        interp_rest(s, q3 + 1, e1.push('\''), depth)
                    } else {
                        Err("expected closing ' in char literal inside interpolation"@)
                    }
                },
            }
        } else if c == '#' {
            let e = line_end(s, q + 1);
            if q < e <= s.len() {
                interp_rest(s, e, expr.push('#') + s.subrange(q + 1, e), depth)
            } else {
                interp_rest(s, q + 1, expr.push('#'), depth)
            }
        } else {
            interp_rest(s, q + 1, expr.push(c), depth)
        }
    }
}

/// A string literal nested inside an interpolation, copied verbatim with
/// its escapes: the copy and the position after its closing quote.
pub open spec fn nested_string(s: Seq<char>, q: int, expr: Seq<char>) -> Result<(Seq<char>, int), Seq<char>>
    decreases s.len() - q,
{
    if q < 0 || q >= s.len() {
        Err("unterminated string inside interpolation"@)
    } else {
        let c = s[q];
        if c == '\\' {
            if q + 1 < s.len() {
                nested_string(s, q + 2, expr.push('\\').push(s[q + 1]))
            } else {
                Err("unterminated string inside interpolation"@)
            }
        } else if c == '"' {
            Ok((expr.push('"'), q + 1))
        } else {
            nested_string(s, q + 1, expr.push(c))
        }
    }
}

/// The rest of a multi-line string from `q`, each line starting with `\\`.
pub open spec fn multiline_rest(s: Seq<char>, q: int, acc: Seq<char>) -> (Seq<char>, int)
    decreases s.len() - q,
{
    if 0 <= q && char_at(s, q) == Some('\\') && char_at(s, q + 1) == Some('\\') {
        let e = line_end(s, q + 2);
        let acc1 = acc + s.subrange(q + 2, e);
        let (acc2, q2) = if char_at(s, e) == Some('\n') {
            (acc1.push('\n'), e + 1)
        } else {
            (acc1, e)
        };
        let q3 = run_end(s, q2, RunKind::Blank);
        if q < q3 <= s.len() {
            multiline_rest(s, q3, acc2)
        } else {
            (acc2, q3)
        }
    } else {
        (acc, q)
    }
}

/// A multi-line string starting at `p`; the final newline is dropped.
pub open spec fn lex_multiline_spec(s: Seq<char>, p: int) -> (TokenV, int) {
    let (acc, q) = multiline_rest(s, p, seq![]);
    let text = if acc.len() > 0 && acc.last() == '\n' {
        acc.drop_last()
    } else {
        acc
    };
    (TokenV::Str(text), q)
}

/// A char literal starting at its opening quote `p`.
pub open spec fn lex_char_spec(s: Seq<char>, p: int) -> Result<(TokenV, int), Seq<char>> {
    let q = p + 1;
    let body: Result<(char, int), Seq<char>> = match char_at(s, q) {
        None => Err("unterminated char literal"@),
        Some(c) => if c == '\\' {
            match char_at(s, q + 1) {
                None => Err("unterminated char literal"@),
                Some(c2) => if c2 == 'x' {
                    match hex_byte(s, q + 2) {
                        Err(e) => Err(e),
                        Ok(b) => Ok((b as char, q + 4)),
                    }
                } else {
                    match char_escape(c2) {
                        Some(e) => Ok((e, q + 2)),
                        None => Err("unknown escape in char literal: \\"@ + seq![c2]),
                    }
                },
            }
        } else {
            Ok((c, q + 1))
        },
    };
    match body {
        Err(e) => Err(e),
        Ok((c, q2)) => if char_at(s, q2) == Some('\'') {
            Ok((TokenV::Char(c), q2 + 1))
        } else {
            Err("expected closing ' in char literal"@)
        },
    }
}

/// A byte literal `b'..'` starting at its `b` at `p`.
pub open spec fn lex_byte_spec(s: Seq<char>, p: int) -> Result<(TokenV, int), Seq<char>> {
    let q = p + 2;
    let body: Result<(u8, int), Seq<char>> = match char_at(s, q) {
        None => Err("unterminated byte literal"@),
        Some(c) => if c == '\\' {
            match char_at(s, q + 1) {
                None => Err("unterminated byte literal"@),
                Some(c2) => if c2 == 'x' {
                    match hex_byte(s, q + 2) {
                        Err(e) => Err(e),
                        Ok(b) => Ok((b, q + 4)),
                    }
                } else {
                    match char_escape(c2) {
                        Some(e) => Ok((e as u8, q + 2)),
                        None => Err("unknown escape in byte literal: \\"@ + seq![c2]),
                    }
                },
            }
        } else if (c as u32) < 128 {
            Ok((c as u8, q + 1))
        } else {
            Err("non-ASCII character in byte literal: '"@ + seq![c, '\''])
        },
    };
    match body {
        Err(e) => Err(e),
        Ok((b, q2)) => if char_at(s, q2) == Some('\'') {
            Ok((TokenV::Byte(b), q2 + 1))
        } else {
            Err("expected closing ' in byte literal"@)
        },
    }
}

/// The token starting at `p` (which is not whitespace or a comment).
pub open spec fn next_token_spec(s: Seq<char>, p: int) -> Result<(TokenV, int), Seq<char>> {
    let c = s[p];
    let n = char_at(s, p + 1);
    if c == '(' {
        Ok((TokenV::LParen, p + 1))
    } else if c == ')' {
        Ok((TokenV::RParen, p + 1))
    } else if c == '[' {
        Ok((TokenV::LBracket, p + 1))
    } else if c == ']' {
        Ok((TokenV::RBracket, p + 1))
    } else if c == '{' {
        Ok((TokenV::LBrace, p + 1))
    } else if c == '}' {
        Ok((TokenV::RBrace, p + 1))
    } else if c == '+' {
        Ok((TokenV::Plus, p + 1))
    } else if c == '*' {
        Ok((TokenV::Star, p + 1))
    } else if c == '/' {
        Ok((TokenV::Slash, p + 1))
    } else if c == '-' {
        if n == Some('>') {
            Ok((TokenV::Arrow, p + 2))
        } else {
            Ok((TokenV::Minus, p + 1))
        }
    } else if c == '>' {
        if n == Some('>') {
            Ok((TokenV::Pipe, p + 2))
        } else if n == Some('=') {
            Ok((TokenV::GtEq, p + 2))
        } else {
            Ok((TokenV::Gt, p + 1))
        }
    } else if c == '<' {
        if n == Some('=') {
            Ok((TokenV::LtEq, p + 2))
        } else {
            Ok((TokenV::Lt, p + 1))
        }
    } else if c == '=' {
        if n == Some('=') {
            Ok((TokenV::EqEq, p + 2))
        } else {
            Ok((TokenV::Assign, p + 1))
        }
    } else if c == '!' {
        if n == Some('=') {
            Ok((TokenV::NotEq, p + 2))
        } else {
            Err("unexpected '!', did you mean '!='?"@)
        }
    } else if c == '.' {
        if n == Some('.') {
            if char_at(s, p + 2) == Some('.') {
                Ok((TokenV::Spread, p + 3))
            } else {
                Ok((TokenV::DotDot, p + 2))
            }
        } else {
            Ok((TokenV::Dot, p + 1))
        }
    } else if c == '|' {
        Ok((TokenV::Bar, p + 1))
    } else if c == ',' {
        Ok((TokenV::Comma, p + 1))
    } else if c == ';' {
        Ok((TokenV::Semicolon, p + 1))
    } else if c == '"' {
        string_rest(s, p + 1, seq![], seq![], false)
    } else if c == '\'' {
        lex_char_spec(s, p)
    } else if c == 'b' && n == Some('\'') {
        lex_byte_spec(s, p)
    } else if is_ascii_digit(c) {
        lex_number_spec(s, p)
    } else if c == '_' {
        if n is Some && is_ident_char(n->Some_0) {
            let e = ident_end(s, p + 1);
            Ok((TokenV::Ident(s.subrange(p, e)), e))
        } else {
            Ok((TokenV::Underscore, p + 1))
        }
    } else if c == '\\' && n == Some('\\') {
        Ok(lex_multiline_spec(s, p))
    } else if unicode_alphabetic(c) {
        let e = ident_end(s, p);
        Ok((word_token(s.subrange(p, e)), e))
    } else {
        Err("unexpected character: '"@ + seq![c, '\''])
    }
}

/// The tokens of `s` from position `p`, after the tokens `acc`: each token
/// is lexed after skipping whitespace and comments, and `Eof` ends the list.
/// A token always consumes input (`law_next_token_advances`), so the last
/// case only guards against a token that would end past the text.
pub open spec fn tokens_from(s: Seq<char>, p: int, acc: Seq<TokenV>) -> Result<Seq<TokenV>, Seq<char>>
    decreases s.len() - p,
{
    let q = skip_trivia(s, p);
    if q < 0 || q >= s.len() {
        Ok(acc.push(TokenV::Eof))
    } else {
        match next_token_spec(s, q) {
            Err(e) => Err(e),
            Ok((t, q2)) => if p <= q < q2 <= s.len() {
                tokens_from(s, q2, acc.push(t))
            } else {
                Err(seq![])
            },
        }
    }
}

/// No string literal lexed from position `q` on is an `Eof` token.
pub open spec fn no_eof_from(s: Seq<char>, q: int) -> bool {
    forall|cur: Seq<char>, parts: Seq<PartV>, hi: bool|
        #[trigger] string_rest(s, q, cur, parts, hi) matches Ok((t, _)) ==> !(t is Eof)
}

pub proof fn lemma_string_rest_not_eof(s: Seq<char>, q: int)
    ensures
        no_eof_from(s, q),
    decreases s.len() - q,
{
    if 0 <= q < s.len() {
        assert forall|k: int| 1 <= k <= 4 implies #[trigger] no_eof_from(s, q + k) by {
            if q + k < s.len() {
                lemma_string_rest_not_eof(s, q + k);
            }
        }
        let ir = interp_rest(s, q + 1, seq![], 1);
        if ir is Ok && q < ir->Ok_0.1 < s.len() {
            lemma_string_rest_not_eof(s, ir->Ok_0.1);
        }
        assert forall|cur: Seq<char>, parts: Seq<PartV>, hi: bool|
            #[trigger] string_rest(s, q, cur, parts, hi) is Ok implies !(string_rest(s, q, cur, parts, hi)->Ok_0.0 is Eof) by {
            assert(no_eof_from(s, q + 1));
            assert(no_eof_from(s, q + 2));
            assert(no_eof_from(s, q + 4));
            let c = s[q];
            if c == '"' {
            } else if c == '{' {
                match ir {
                    Ok((src, q2)) => if q < q2 <= s.len() {
                        assert(no_eof_from(s, q2));
                        let r2 = string_rest(s, q2, seq![], with_part(parts, cur).push(PartV::Expr(src)), true);
                        assert(string_rest(s, q, cur, parts, hi) == r2);
                    },
                    Err(_) => {},
                }
            } else if c == '\\' {
                match char_at(s, q + 1) {
                    Some(c2) => if c2 == 'x' {
                        match hex_byte(s, q + 2) {
                            Ok(b) => {
                                let r2 = string_rest(s, q + 4, cur.push(b as char), parts, hi);
                                assert(string_rest(s, q, cur, parts, hi) == r2);
                            },
                            Err(_) => {},
                        }
                    } else {
                        match string_escape(c2) {
                            Some(e) => {
                                let r2 = string_rest(s, q + 2, cur.push(e), parts, hi);
                                assert(string_rest(s, q, cur, parts, hi) == r2);
                            },
                            None => {},
                        }
                    },
                    None => {},
                }
            } else {
                let r2 = string_rest(s, q + 1, cur.push(c), parts, hi);
                assert(string_rest(s, q, cur, parts, hi) == r2);
            }
        }
    }
}

/// A token lexed at a position of the input is never `Eof`.
pub proof fn lemma_next_token_not_eof(s: Seq<char>, q: int)
    ensures
        next_token_spec(s, q) matches Ok((t, _)) ==> !(t is Eof),
{
    lemma_string_rest_not_eof(s, q + 1);
    assert(no_eof_from(s, q + 1));
}

/// The tokens end with one `Eof`, and no other token is `Eof`.
pub proof fn lemma_tokens_from_eof(s: Seq<char>, p: int, acc: Seq<TokenV>)
    requires
        forall|i: int| 0 <= i < acc.len() ==> !(#[trigger] acc[i] is Eof),
    ensures
        tokens_from(s, p, acc) matches Ok(ts) ==> {
            &&& ts.len() >= 1
            &&& ts.last() is Eof
            &&& forall|i: int| 0 <= i < ts.len() - 1 ==> !(#[trigger] ts[i] is Eof)
        },
    decreases s.len() - p,
{
    let q = skip_trivia(s, p);
    if !(q < 0 || q >= s.len()) {
        lemma_next_token_not_eof(s, q);
        match next_token_spec(s, q) {
            Ok((t, q2)) => if p <= q < q2 <= s.len() {
                assert forall|i: int| 0 <= i < acc.push(t).len() implies !(#[trigger] acc.push(t)[i] is Eof) by {
                    if i < acc.len() {
                        assert(acc.push(t)[i] == acc[i]);
                    }
                }
                lemma_tokens_from_eof(s, q2, acc.push(t));
            },
            Err(_) => {},
        }
    } else {
        assert forall|i: int| 0 <= i < acc.push(TokenV::Eof).len() - 1 implies !(#[trigger] acc.push(TokenV::Eof)[i] is Eof) by {
            assert(acc.push(TokenV::Eof)[i] == acc[i]);
        }
    }
}

/// The tokens of any source text that lexes end with exactly one `Eof`:
/// the last token is `Eof` and no other is.
pub proof fn law_tokens_end_with_one_eof(s: Seq<char>)
    ensures
        spec_tokenize(s) matches Ok(ts) ==> {
            &&& ts.len() >= 1
            &&& ts.last() is Eof
            &&& forall|i: int| 0 <= i < ts.len() - 1 ==> !(#[trigger] ts[i] is Eof)
        },
{
    lemma_tokens_from_eof(s, 0, seq![]);
}

proof fn lemma_string_rest_advances(s: Seq<char>, q: int, cur: Seq<char>, parts: Seq<PartV>, hi: bool)
    ensures
        string_rest(s, q, cur, parts, hi) matches Ok((_, e)) ==> e > q,
    decreases s.len() - q,
{
    if 0 <= q < s.len() {
        let c = s[q];
        if c == '{' {
            match interp_rest(s, q + 1, seq![], 1) {
                Err(_) => {},
                Ok((src, q2)) => if q < q2 <= s.len() {
                    lemma_string_rest_advances(s, q2, seq![], with_part(parts, cur).push(PartV::Expr(src)), true);
                },
            }
        } else if c == '\\' {
            match char_at(s, q + 1) {
                None => {},
                Some(c2) => if c2 == 'x' {
                    match hex_byte(s, q + 2) {
                        Err(_) => {},
                        Ok(b) => lemma_string_rest_advances(s, q + 4, cur.push(b as char), parts, hi),
                    }
                } else {
                    match string_escape(c2) {
                        Some(e) => lemma_string_rest_advances(s, q + 2, cur.push(e), parts, hi),
                        None => {},
                    }
                },
            }
        } else if c != '"' {
            lemma_string_rest_advances(s, q + 1, cur.push(c), parts, hi);
        }
    }
}

/// Every token consumes input: lexing a token at `p` ends after `p`.
pub proof fn law_next_token_advances(s: Seq<char>, p: int)
    requires
        0 <= p < s.len(),
    ensures
        next_token_spec(s, p) matches Ok((_, q)) ==> p < q,
{
    let c = s[p];
    if c == '"' {
        lemma_string_rest_advances(s, p + 1, seq![], seq![], false);
    }
    lemma_run_end_ge(s, p, RunKind::Dec);
    lemma_run_end_ge(s, p + 2, RunKind::Hex);
    lemma_run_end_ge(s, p + 2, RunKind::Bin);
    let e = run_end(s, p, RunKind::Dec);
    lemma_run_end_ge(s, e + 1, RunKind::Dec);
    lemma_ident_end_ge(s, p);
    lemma_ident_end_ge(s, p + 1);
    lemma_multiline_advances(s, p, seq![]);
}

/// Whether `x` can stand inside a string literal as it is: no quote, brace
/// or backslash.
pub open spec fn plain_text(x: Seq<char>) -> bool {
    forall|i: int| 0 <= i < x.len() ==> x[i] != '"' && x[i] != '{' && x[i] != '\\'
}

proof fn lemma_string_rest_plain(s: Seq<char>, q: int, k: int, cur: Seq<char>, parts: Seq<PartV>, hi: bool)
    requires
        0 <= q,
        0 <= k,
        q + k <= s.len(),
        forall|i: int| q <= i < q + k ==> s[i] != '"' && s[i] != '{' && s[i] != '\\',
    ensures
        string_rest(s, q, cur, parts, hi) == string_rest(s, q + k, cur + s.subrange(q, q + k), parts, hi),
    decreases k,
{
    if k == 0 {
        assert(cur + s.subrange(q, q) =~= cur);
    } else {
        lemma_string_rest_plain(s, q + 1, k - 1, cur.push(s[q]), parts, hi);
        assert(cur.push(s[q]) + s.subrange(q + 1, q + k) =~= cur + s.subrange(q, q + k));
    }
}

/// The escapes of a string literal: `\n` stands for a newline, `\t` for a
/// tab, `\r` for a carriage return, `\0` for the NUL character, and `\\`,
/// `\"`, `\{`, `\}` for the backslash, the quote and the braces. Lexing a
/// literal made of plain text `x`, one escape and plain text `y` gives the
/// string `x`, the escaped character, `y`, and nothing more.
pub proof fn law_string_escapes(x: Seq<char>, y: Seq<char>, c: char, meant: char)
    requires
        plain_text(x),
        plain_text(y),
        (c == 'n' && meant == '\n') || (c == 't' && meant == '\t') || (c == 'r' && meant == '\r')
            || (c == '0' && meant == '\0') || (c == '\\' && meant == '\\') || (c == '"' && meant == '"')
            || (c == '{' && meant == '{') || (c == '}' && meant == '}'),
    ensures
        spec_tokenize(seq!['"'] + x + seq!['\\', c] + y + seq!['"']) == Ok::<Seq<TokenV>, Seq<char>>(
            seq![TokenV::Str(x.push(meant) + y), TokenV::Eof],
        ),
{
    let s = seq!['"'] + x + seq!['\\', c] + y + seq!['"'];
    let n = s.len() as int;
    let e: int = x.len() as int + 1;
    assert(s[0] == '"');
    assert(s[e] == '\\');
    assert(s[e + 1] == c);
    assert(s[n - 1] == '"');
    assert forall|i: int| 1 <= i < e implies s[i] != '"' && s[i] != '{' && s[i] != '\\' by {
        assert(s[i] == x[i - 1]);
    }
    assert forall|i: int| e + 2 <= i < n - 1 implies s[i] != '"' && s[i] != '{' && s[i] != '\\' by {
        assert(s[i] == y[i - e - 2]);
    }
    lemma_string_rest_plain(s, 1, x.len() as int, seq![], seq![], false);
    assert(seq![] + s.subrange(1, e) =~= x);
    assert(char_at(s, e + 1) == Some(c));
    assert(string_escape(c) == Some(meant));
    let cur = x.push(meant);
    assert(string_rest(s, e, x, seq![], false) == string_rest(s, e + 2, cur, seq![], false));
    lemma_string_rest_plain(s, e + 2, y.len() as int, cur, seq![], false);
    assert(cur + s.subrange(e + 2, e + 2 + y.len()) =~= x.push(meant) + y);
    assert(e + 2 + y.len() == n - 1);
    assert(string_rest(s, n - 1, x.push(meant) + y, seq![], false) == Ok::<(TokenV, int), Seq<char>>(
        (TokenV::Str(x.push(meant) + y), n),
    ));
    assert(skip_white(s, 0) == 0);
    assert(skip_trivia(s, 0) == 0);
    assert(next_token_spec(s, 0) == string_rest(s, 1, seq![], seq![], false));
    assert(skip_white(s, n) == n);
    assert(skip_trivia(s, n) == n);
    let t = TokenV::Str(x.push(meant) + y);
    assert(seq![t].push(TokenV::Eof) =~= seq![t, TokenV::Eof]);
    assert(Seq::<TokenV>::empty().push(t) =~= seq![t]);
    assert(tokens_from(s, n, seq![t]) == Ok::<Seq<TokenV>, Seq<char>>(seq![t, TokenV::Eof]));
}

/// The escapes of a character literal: `'\n'` is a newline, `'\t'` a tab,
/// `'\r'` a carriage return, `'\0'` the NUL character, and `'\\'`, `'\''`
/// the backslash and the single quote. Lexing such a literal gives that one
/// character, and a byte literal `b'..'` with the same escape gives its code.
pub proof fn law_char_escapes(c: char, meant: char)
    requires
        (c == 'n' && meant == '\n') || (c == 't' && meant == '\t') || (c == 'r' && meant == '\r')
            || (c == '0' && meant == '\0') || (c == '\\' && meant == '\\') || (c == '\'' && meant == '\''),
    ensures
        spec_tokenize(seq!['\'', '\\', c, '\'']) == Ok::<Seq<TokenV>, Seq<char>>(seq![TokenV::Char(meant), TokenV::Eof]),
        spec_tokenize(seq!['b', '\'', '\\', c, '\'']) == Ok::<Seq<TokenV>, Seq<char>>(
            seq![TokenV::Byte(meant as u8), TokenV::Eof],
        ),
{
    let s = seq!['\'', '\\', c, '\''];
    assert(char_at(s, 1) == Some('\\'));
    assert(char_at(s, 2) == Some(c));
    assert(char_at(s, 3) == Some('\''));
    assert(skip_white(s, 0) == 0);
    assert(skip_trivia(s, 0) == 0);
    assert(lex_char_spec(s, 0) == Ok::<(TokenV, int), Seq<char>>((TokenV::Char(meant), 4)));
    assert(next_token_spec(s, 0) == Ok::<(TokenV, int), Seq<char>>((TokenV::Char(meant), 4)));
    assert(skip_white(s, 4) == 4);
    assert(skip_trivia(s, 4) == 4);
    let t = TokenV::Char(meant);
    assert(seq![t].push(TokenV::Eof) =~= seq![t, TokenV::Eof]);
    assert(Seq::<TokenV>::empty().push(t) =~= seq![t]);
    assert(tokens_from(s, 4, seq![t]) == Ok::<Seq<TokenV>, Seq<char>>(seq![t, TokenV::Eof]));
    let sb = seq!['b', '\'', '\\', c, '\''];
    assert(char_at(sb, 1) == Some('\''));
    assert(char_at(sb, 2) == Some('\\'));
    assert(char_at(sb, 3) == Some(c));
    assert(char_at(sb, 4) == Some('\''));
    assert(skip_white(sb, 0) == 0);
    assert(skip_trivia(sb, 0) == 0);
    assert(lex_byte_spec(sb, 0) == Ok::<(TokenV, int), Seq<char>>((TokenV::Byte(meant as u8), 5)));
    assert(next_token_spec(sb, 0) == Ok::<(TokenV, int), Seq<char>>((TokenV::Byte(meant as u8), 5)));
    assert(skip_white(sb, 5) == 5);
    assert(skip_trivia(sb, 5) == 5);
    let tb = TokenV::Byte(meant as u8);
    assert(seq![tb].push(TokenV::Eof) =~= seq![tb, TokenV::Eof]);
    assert(Seq::<TokenV>::empty().push(tb) =~= seq![tb]);
    assert(tokens_from(sb, 5, seq![tb]) == Ok::<Seq<TokenV>, Seq<char>>(seq![tb, TokenV::Eof]));
}

/// The tokens of a whole source text.
pub open spec fn spec_tokenize(s: Seq<char>) -> Result<Seq<TokenV>, Seq<char>> {
    tokens_from(s, 0, seq![])
}

} // verus!

verus! {

// ── The lexer ───────────────────────────────────────────────────

pub struct Lexer {
    input: Vec<char>,
    pos: usize,
}

impl View for Lexer {
    /// The input characters and the current position.
    type V = (Seq<char>, int);

    closed spec fn view(&self) -> (Seq<char>, int) {
        (self.input@, self.pos as int)
    }
}

/// How a sub-lexer's outcome is reflected: on success the token and the new
/// position, with the input unchanged; on failure the message.
pub open spec fn lexed(r: Result<Token, String>, before: (Seq<char>, int), after: (Seq<char>, int), spec: Result<(TokenV, int), Seq<char>>) -> bool {
    &&& after.0 == before.0
    &&& match spec {
        Ok((t, q)) => r is Ok && r->Ok_0@ == t && after.1 == q,
        Err(e) => r is Err && r->Err_0@ == e,
    }
}

fn in_run_exec(k: RunKind, c: char) -> (r: bool)
    ensures
        r == in_run(k, c),
{
    match k {
        RunKind::Dec => char_is_ascii_digit(c) || c == '_',
        RunKind::Hex => char_is_ascii_hexdigit(c) || c == '_',
        RunKind::Bin => c == '0' || c == '1' || c == '_',
        RunKind::Blank => c == ' ' || c == '\t',
    }
}

/// The value of a hexadecimal digit.
fn hex_digit(c: char) -> (r: u8)
    requires
        is_ascii_hexdigit(c),
    ensures
        r == hex_value(c),
{
    let v: u32 = c as u32;
    if '0' <= c && c <= '9' {
        (v - 48) as u8
    } else if 'a' <= c && c <= 'f' {
        (v - 97 + 10) as u8
    } else {
        (v - 65 + 10) as u8
    }
}

/// The value of digits in the given base, if it fits in 64 bits.
fn digits_to_u64(d: &Vec<char>, base: u64) -> (r: Option<u64>)
    requires
        base == 2 || base == 10 || base == 16,
        forall|i: int| 0 <= i < d.len() ==> is_ascii_hexdigit(#[trigger] d@[i]) && hex_value(d@[i]) < base,
    ensures
        match r {
            Some(v) => v == radix_value(d@, base as nat),
            None => radix_value(d@, base as nat) > u64::MAX,
        },
{
    let mut acc: u64 = 0;
    let mut i: usize = 0;
    while i < d.len()
        invariant
            i <= d.len(),
            base == 2 || base == 10 || base == 16,
            forall|k: int| 0 <= k < d.len() ==> is_ascii_hexdigit(#[trigger] d@[k]) && hex_value(d@[k]) < base,
            acc == radix_value(d@.take(i as int), base as nat),
        decreases d.len() - i,
    {
        let dv: u64 = hex_digit(d[i]) as u64;
        proof {
            assert(d@.take(i + 1).drop_last() =~= d@.take(i as int));
        }
        if acc > (u64::MAX - dv) / base {
            proof {
                assert(radix_value(d@.take(i + 1), base as nat) > u64::MAX) by (nonlinear_arith)
                    requires
                        radix_value(d@.take(i + 1), base as nat) == acc * base + dv,
                        acc > (u64::MAX - dv) / (base as int),
                        base > 0,
                ;
                lemma_radix_prefix_mono(d@, i + 1, base as nat);
            }
            return None;
        }
        assert(acc * base + dv <= u64::MAX) by (nonlinear_arith)
            requires
                acc <= (u64::MAX - dv) / (base as int),
                base > 0,
        ;
        acc = acc * base + dv;
        i = i + 1;
    }
    assert(d@.take(i as int) =~= d@);
    Some(acc)
}

pub proof fn lemma_radix_prefix_mono(d: Seq<char>, k: int, base: nat)
    requires
        0 <= k <= d.len(),
        base > 0,
    ensures
        radix_value(d.take(k), base) <= radix_value(d, base),
    decreases d.len(),
{
    if k < d.len() {
        assert(d.drop_last().take(k) =~= d.take(k));
        lemma_radix_prefix_mono(d.drop_last(), k, base);
        assert(radix_value(d, base) >= radix_value(d.drop_last(), base)) by (nonlinear_arith)
            requires
                radix_value(d, base) == radix_value(d.drop_last(), base) * base + hex_value(d.last()),
                base > 0,
        ;
    } else {
        assert(d.take(k) =~= d);
    }
}

impl Lexer {
    /// Invariant of a lexer: the position stays a little past the input at
    /// most, and the input is not near the limit of addressable memory.
    pub closed spec fn wf(&self) -> bool {
        &&& self.input.len() + 8 < usize::MAX
        &&& self.pos <= self.input.len() + 3
    }

    pub fn new(input: &str) -> (r: Self)
        requires
            input@.len() + 8 < usize::MAX,
        ensures
            r@ == (input@, 0int),
            r.wf(),
    {
        Lexer { input: chars_of(input), pos: 0 }
    }

    fn peek(&self) -> (r: Option<char>)
        ensures
            r == char_at(self@.0, self@.1),
    {
        if self.pos < self.input.len() {
            Some(self.input[self.pos])
        } else {
            None
        }
    }

    fn peek_at(&self, offset: usize) -> (r: Option<char>)
        requires
            self.wf(),
            offset <= 4,
        ensures
            r == char_at(self@.0, self@.1 + offset),
    {
        let p = self.pos + offset;
        if p < self.input.len() {
            Some(self.input[p])
        } else {
            None
        }
    }

    fn advance(&mut self) -> (r: Option<char>)
        requires
            old(self).pos < usize::MAX,
        ensures
            r == char_at(old(self)@.0, old(self)@.1),
            final(self)@ == (old(self)@.0, old(self)@.1 + 1),
            final(self).input.len() == old(self).input.len(),
    {
        let ch = self.peek();
        self.pos = self.pos + 1;
        ch
    }

    fn skip_whitespace_and_comments(&mut self)
        requires
            old(self).wf(),
        ensures
            final(self)@ == (old(self)@.0, skip_trivia(old(self)@.0, old(self)@.1)),
            final(self).wf(),
            final(self)@.1 >= old(self)@.1,
            old(self)@.1 <= old(self)@.0.len() ==> final(self)@.1 <= final(self)@.0.len(),
    {
        let ghost s = self@.0;
        let ghost p = self@.1;
        let ghost target = skip_trivia(s, self@.1);
        if self.pos > self.input.len() {
            return;
        }
        loop
            invariant
                self.wf(),
                self@.0 == s,
                p <= self@.1 <= s.len(),
                skip_trivia(s, self@.1) == target,
            ensures
                self@ == (s, target),
                self.wf(),
                p <= self@.1 <= s.len(),
            decreases s.len() - self@.1,
        {
            let ghost p0 = self@.1;
            while self.pos < self.input.len() && char_is_whitespace(self.input[self.pos])
                invariant
                    self.wf(),
                    self@.0 == s,
                    p0 <= self@.1 <= s.len(),
                    skip_white(s, self@.1) == skip_white(s, p0),
                decreases s.len() - self@.1,
            {
                self.pos = self.pos + 1;
            }
            if self.peek() == Some('#') {
                let ghost q = self@.1;
                while self.pos < self.input.len() && self.input[self.pos] != '\n'
                    invariant
                        self.wf(),
                        self@.0 == s,
                        q <= self@.1 <= s.len(),
                        line_end(s, self@.1) == line_end(s, q),
                    decreases s.len() - self@.1,
                {
                    self.pos = self.pos + 1;
                }
                proof {
                    lemma_line_end_bounds(s, q);
                }
            } else {
                break;
            }
        }
    }

    /// Two hex digits after `\x`: the byte they spell.
    fn lex_hex_byte(&mut self) -> (r: Result<u8, String>)
        requires
            old(self).wf(),
            old(self)@.1 <= old(self)@.0.len(),
        ensures
            final(self)@.0 == old(self)@.0,
            match hex_byte(old(self)@.0, old(self)@.1) {
                Ok(b) => r == Ok::<u8, String>(b) && final(self)@.1 == old(self)@.1 + 2,
                Err(e) => r is Err && r->Err_0@ == e,
            },
            final(self).wf(),
    {
        let hi = self.advance();
        let lo = self.advance();
        match (hi, lo) {
            (Some(h), Some(l)) => {
                if !char_is_ascii_hexdigit(h) || !char_is_ascii_hexdigit(l) {
                    let mut m = text("invalid hex escape: \\x");
                    push_char(&mut m, h);
                    push_char(&mut m, l);
                    return Err(m);
                }
                let v = hex_digit(h) * 16 + hex_digit(l);
                Ok(v)
            },
            _ => Err(text("unterminated \\x escape")),
        }
    }

    fn lex_ident_or_keyword(&mut self) -> (r: Result<Token, String>)
        requires
            old(self).wf(),
            old(self)@.1 <= old(self)@.0.len(),
        ensures
            lexed(r, old(self)@, final(self)@, Ok((word_token(old(self)@.0.subrange(old(self)@.1, ident_end(old(self)@.0, old(self)@.1))), ident_end(old(self)@.0, old(self)@.1)))),
            final(self).wf(),
            final(self)@.1 <= final(self)@.0.len(),
    {
        let ghost s = self@.0;
        let ghost p = self@.1;
        let mut name = String::new();
        while self.pos < self.input.len() && char_is_alphanumeric_or_underscore(self.input[self.pos])
            invariant
                self.wf(),
                self@.0 == s,
                0 <= p <= self@.1 <= s.len(),
                ident_end(s, self@.1) == ident_end(s, p),
                name@ == s.subrange(p, self@.1),
            decreases s.len() - self@.1,
        {
            let c = self.input[self.pos];
            let ghost old_pos = self@.1;
            assert(c == s[old_pos]);
            push_char(&mut name, c);
            self.pos = self.pos + 1;
            assert(self@.1 == old_pos + 1);
            assert(s.subrange(p, old_pos + 1) =~= s.subrange(p, old_pos).push(c));
        }
        let tok = if name == text("let") {
            Token::Let
        } else if name == text("in") {
            Token::In
        } else if name == text("if") {
            Token::If
        } else if name == text("tag") {
            Token::Tag
        } else if name == text("new_tag") {
            Token::NewTag
        } else if name == text("true") {
            Token::True
        } else if name == text("false") {
            Token::False
        } else if name == text("import") {
            Token::Import
        } else if name == text("use") {
            Token::Use
        } else {
            Token::Ident(name)
        };
        Ok(tok)
    }
}

fn char_is_alphanumeric_or_underscore(c: char) -> (r: bool)
    ensures
        r == is_ident_char(c),
{
    char_is_alphanumeric(c) || c == '_'
}

} // verus!

verus! {

pub proof fn lemma_run_end_ge(s: Seq<char>, p: int, k: RunKind)
    ensures
        run_end(s, p, k) >= p,
        0 <= p < s.len() && in_run(k, s[p]) ==> run_end(s, p, k) > p,
    decreases s.len() - p,
{
    if 0 <= p < s.len() && in_run(k, s[p]) {
        lemma_run_end_ge(s, p + 1, k);
    }
}

pub proof fn lemma_strip_push(x: Seq<char>, c: char)
    ensures
        strip_underscores(x.push(c)) == if c == '_' {
            strip_underscores(x)
        } else {
            strip_underscores(x).push(c)
        },
{
    assert(x.push(c).drop_last() =~= x);
}

impl Lexer {
    /// Consumes the run of `k` characters at the current position and
    /// returns its characters other than `_`.
    fn take_run(&mut self, k: RunKind) -> (r: Vec<char>)
        requires
            old(self).wf(),
            old(self)@.1 <= old(self)@.0.len(),
        ensures
            final(self)@ == (old(self)@.0, run_end(old(self)@.0, old(self)@.1, k)),
            final(self).wf(),
            final(self)@.1 <= final(self)@.0.len(),
            r@ == strip_underscores(old(self)@.0.subrange(old(self)@.1, final(self)@.1)),
            forall|i: int| 0 <= i < r.len() ==> #[trigger] r@[i] != '_' && in_run(k, r@[i]),
    {
        let ghost s = self@.0;
        let ghost p = self@.1;
        let mut out: Vec<char> = Vec::new();
        proof {
            assert(s.subrange(p, p) =~= Seq::<char>::empty());
        }
        while self.pos < self.input.len() && in_run_exec(k, self.input[self.pos])
            invariant
                self.wf(),
                self@.0 == s,
                0 <= p <= self@.1 <= s.len(),
                run_end(s, self@.1, k) == run_end(s, p, k),
                out@ == strip_underscores(s.subrange(p, self@.1)),
                forall|i: int| 0 <= i < out.len() ==> #[trigger] out@[i] != '_' && in_run(k, out@[i]),
            decreases s.len() - self@.1,
        {
            let c = self.input[self.pos];
            let ghost old_pos = self@.1;
            proof {
                assert(s.subrange(p, old_pos + 1) =~= s.subrange(p, old_pos).push(c));
                lemma_strip_push(s.subrange(p, old_pos), c);
            }
            if c != '_' {
                out.push(c);
            }
            self.pos = self.pos + 1;
        }
        out
    }

    fn lex_number(&mut self) -> (r: Result<Token, String>)
        requires
            old(self).wf(),
            old(self)@.1 < old(self)@.0.len(),
            is_ascii_digit(old(self)@.0[old(self)@.1]),
        ensures
            lexed(r, old(self)@, final(self)@, lex_number_spec(old(self)@.0, old(self)@.1)),
            final(self).wf(),
            r is Ok ==> old(self)@.1 < final(self)@.1 <= final(self)@.0.len(),
    {
        let ghost s = self@.0;
        let ghost p = self@.1;
        proof {
            lemma_run_end_ge(s, p, RunKind::Dec);
            lemma_run_end_ge(s, p + 2, RunKind::Hex);
            lemma_run_end_ge(s, p + 2, RunKind::Bin);
        }
        if self.peek() == Some('0') && self.peek_at(1) == Some('x') {
            self.advance();
            self.advance();
            let hex = self.take_run(RunKind::Hex);
            if hex.len() == 0 {
                return Err(text("expected hex digits after 0x"));
            }
            return match digits_to_u64(&hex, 16) {
                Some(v) => if v <= 0x7fff_ffff_ffff_ffffu64 {
                    Ok(Token::Int(v as i64))
                } else {
                    Err(text("invalid hex literal: number too large to fit in target type"))
                },
                None => Err(text("invalid hex literal: number too large to fit in target type")),
            };
        }
        if self.peek() == Some('0') && self.peek_at(1) == Some('b') {
            self.advance();
            self.advance();
            let bin = self.take_run(RunKind::Bin);
            if bin.len() == 0 {
                return Err(text("expected binary digits after 0b"));
            }
            return match digits_to_u64(&bin, 2) {
                Some(v) => if v <= 0x7fff_ffff_ffff_ffffu64 {
                    Ok(Token::Int(v as i64))
                } else {
                    Err(text("invalid binary literal: number too large to fit in target type"))
                },
                None => Err(text("invalid binary literal: number too large to fit in target type")),
            };
        }
        let num = self.take_run(RunKind::Dec);
        let ghost e = self@.1;
        let is_float = match (self.peek(), self.peek_at(1)) {
            (Some(d), Some(f)) => d == '.' && char_is_ascii_digit(f),
            _ => false,
        };
        if is_float {
            self.advance();
            proof {
                lemma_run_end_ge(s, e + 1, RunKind::Dec);
            }
            let frac = self.take_run(RunKind::Dec);
            let mut num_str = crate::text::string_of_chars(&num);
            push_char(&mut num_str, '.');
            let frac_str = crate::text::string_of_chars(&frac);
            crate::text::push_str(&mut num_str, frac_str.as_str());
            return Ok(Token::Float(num_str));
        }
        match digits_to_u64(&num, 10) {
            Some(v) => if v <= 0x7fff_ffff_ffff_ffffu64 {
                Ok(Token::Int(v as i64))
            } else {
                Ok(Token::BigInt(v))
            },
            None => {
                let mut m = text("integer literal too large: ");
                let digits = crate::text::string_of_chars(&num);
                crate::text::push_str(&mut m, digits.as_str());
                Err(m)
            },
        }
    }
}

} // verus!

verus! {

pub proof fn lemma_line_end_range(s: Seq<char>, p: int)
    requires
        0 <= p <= s.len(),
    ensures
        p <= line_end(s, p) <= s.len(),
    decreases s.len() - p,
{
    if p < s.len() && s[p] != '\n' {
        lemma_line_end_range(s, p + 1);
    }
}

impl Lexer {
    /// Copies a string literal nested in an interpolation, after its opening
    /// quote, up to and including its closing quote.
    fn copy_nested_string(&mut self, expr: &mut String) -> (r: Result<(), String>)
        requires
            old(self).wf(),
            old(self)@.1 <= old(self)@.0.len(),
        ensures
            final(self)@.0 == old(self)@.0,
            final(self).wf(),
            match nested_string(old(self)@.0, old(self)@.1, old(expr)@) {
                Ok((e2, q)) => r is Ok && final(expr)@ == e2 && final(self)@.1 == q,
                Err(e) => r is Err && r->Err_0@ == e,
            },
            r is Ok ==> old(self)@.1 < final(self)@.1 <= final(self)@.0.len(),
    {
        let ghost s = self@.0;
        let ghost p = self@.1;
        let ghost e0 = expr@;
        loop
            invariant
                self.wf(),
                self@.0 == s,
                0 <= p <= self@.1 <= s.len(),
                s == old(self)@.0,
                p == old(self)@.1,
                e0 == old(expr)@,
                nested_string(s, self@.1, expr@) == nested_string(s, p, e0),
            decreases s.len() - self@.1,
        {
            match self.advance() {
                None => {
                    return Err(text("unterminated string inside interpolation"));
                },
                Some(c) => {
                    if c == '\\' {
                        push_char(expr, '\\');
                        match self.advance() {
                            Some(c2) => push_char(expr, c2),
                            None => {
                                return Err(text("unterminated string inside interpolation"));
                            },
                        }
                    } else if c == '"' {
                        push_char(expr, '"');
                        return Ok(());
                    } else {
                        push_char(expr, c);
                    }
                },
            }
        }
    }

    /// The source of an interpolated expression, after its opening `{`, up
    /// to the matching `}`, which is consumed.
    fn lex_interp_expr(&mut self) -> (r: Result<String, String>)
        requires
            old(self).wf(),
            old(self)@.1 <= old(self)@.0.len(),
        ensures
            final(self)@.0 == old(self)@.0,
            final(self).wf(),
            match interp_rest(old(self)@.0, old(self)@.1, seq![], 1) {
                Ok((src, q)) => r is Ok && r->Ok_0@ == src && final(self)@.1 == q,
                Err(e) => r is Err && r->Err_0@ == e,
            },
            r is Ok ==> old(self)@.1 < final(self)@.1 <= final(self)@.0.len(),
    {
        let ghost s = self@.0;
        let ghost p = self@.1;
        let mut expr = String::new();
        let mut depth: usize = 1;
        loop
            invariant
                self.wf(),
                self@.0 == s,
                0 <= p <= self@.1 <= s.len(),
                s == old(self)@.0,
                p == old(self)@.1,
                1 <= depth <= self@.1 - p + 1,
                interp_rest(s, self@.1, expr@, depth as int) == interp_rest(s, p, seq![], 1),
            decreases s.len() - self@.1,
        {
            let ghost q = self@.1;
            match self.advance() {
                None => {
                    return Err(text("unterminated interpolation in string"));
                },
                Some(c) => {
                    if c == '{' {
                        depth = depth + 1;
                        push_char(&mut expr, '{');
                    } else if c == '}' {
                        depth = depth - 1;
                        if depth == 0 {
                            return Ok(expr);
                        }
                        push_char(&mut expr, '}');
                    } else if c == '"' {
                        push_char(&mut expr, '"');
                        self.copy_nested_string(&mut expr)?;
                    } else if c == '\'' {
                        push_char(&mut expr, '\'');
                        match self.advance() {
                            None => {
                                return Err(text("unterminated char inside interpolation"));
                            },
                            Some(c1) => {
                                if c1 == '\\' {
                                    push_char(&mut expr, '\\');
                                    match self.advance() {
                                        Some(c2) => push_char(&mut expr, c2),
                                        None => {},
                                    }
                                } else {
                                    push_char(&mut expr, c1);
                                }
                            },
                        }
                        match self.advance() {
                            Some(c3) => {
                                if c3 == '\'' {
                                    push_char(&mut expr, '\'');
                                } else {
                                    return Err(text("expected closing ' in char literal inside interpolation"));
                                }
                            },
                            None => {
                                return Err(text("expected closing ' in char literal inside interpolation"));
                            },
                        }
                    } else if c == '#' {
                        push_char(&mut expr, '#');
                        let ghost e_before = expr@;
                        proof {
                            lemma_line_end_range(s, q + 1);
                        }
                        while self.pos < self.input.len() && self.input[self.pos] != '\n'
                            invariant
                                self.wf(),
                                self@.0 == s,
                                0 <= q,
                                q + 1 <= self@.1 <= s.len(),
                                line_end(s, self@.1) == line_end(s, q + 1),
                                expr@ == e_before + s.subrange(q + 1, self@.1),
                            decreases s.len() - self@.1,
                        {
                            let ghost k = self@.1;
                            let ch = self.input[self.pos];
                            push_char(&mut expr, ch);
                            self.pos = self.pos + 1;
                            assert(s.subrange(q + 1, k + 1) =~= s.subrange(q + 1, k).push(ch));
                        }
                    } else {
                        push_char(&mut expr, c);
                    }
                },
            }
        }
    }
}


pub proof fn lemma_multiline_advances(s: Seq<char>, q: int, acc: Seq<char>)
    requires
        0 <= q,
    ensures
        multiline_rest(s, q, acc).1 >= q,
        char_at(s, q) == Some('\\') && char_at(s, q + 1) == Some('\\') ==> multiline_rest(s, q, acc).1 > q,
    decreases s.len() - q,
{
    if char_at(s, q) == Some('\\') && char_at(s, q + 1) == Some('\\') {
        lemma_line_end_range(s, q + 2);
        let e = line_end(s, q + 2);
        let acc1 = acc + s.subrange(q + 2, e);
        let (acc2, q2) = if char_at(s, e) == Some('\n') {
            (acc1.push('\n'), e + 1)
        } else {
            (acc1, e)
        };
        lemma_run_end_ge(s, q2, RunKind::Blank);
        let q3 = run_end(s, q2, RunKind::Blank);
        if q < q3 <= s.len() {
            lemma_multiline_advances(s, q3, acc2);
        }
    }
}

pub proof fn lemma_ident_end_ge(s: Seq<char>, p: int)
    ensures
        ident_end(s, p) >= p,
    decreases s.len() - p,
{
    if 0 <= p < s.len() && is_ident_char(s[p]) {
        lemma_ident_end_ge(s, p + 1);
    }
}

impl Lexer {
    /// A string literal, from its opening quote; with `{..}` interpolations
    /// it becomes an `InterpStr`.
    fn lex_string(&mut self) -> (r: Result<Token, String>)
        requires
            old(self).wf(),
            old(self)@.1 < old(self)@.0.len(),
        ensures
            lexed(r, old(self)@, final(self)@, string_rest(old(self)@.0, old(self)@.1 + 1, seq![], seq![], false)),
            final(self).wf(),
            r is Ok ==> old(self)@.1 < final(self)@.1 <= final(self)@.0.len(),
    {
        let ghost s = self@.0;
        let ghost p = self@.1;
        self.advance();
        let mut current = String::new();
        let mut parts: Vec<StringPart> = Vec::new();
        let mut has_interp = false;
        assert(parts_view(parts@) =~= Seq::<PartV>::empty());
        assert(current@ =~= Seq::<char>::empty());
        loop
            invariant
                self.wf(),
                self@.0 == s,
                s == old(self)@.0,
                p == old(self)@.1,
                0 <= p < self@.1 <= s.len(),
                string_rest(s, self@.1, current@, parts_view(parts@), has_interp)
                    == string_rest(s, p + 1, seq![], seq![], false),
            decreases s.len() - self@.1,
        {
            let ghost q = self@.1;
            match self.advance() {
                None => {
                    return Err(text("unterminated string literal"));
                },
                Some(c) => {
                    if c == '"' {
                        if has_interp {
                            if !current.as_str().is_empty() {
                                let ghost pv = parts_view(parts@);
                                parts.push(StringPart::Literal(current));
                                assert(parts_view(parts@) =~= pv.push(PartV::Literal(current@)));
                            } else {
                                assert(current@ =~= Seq::<char>::empty());
                            }
                            return Ok(Token::InterpStr(parts));
                        } else {
                            return Ok(Token::Str(current));
                        }
                    } else if c == '{' {
                        has_interp = true;
                        let ghost pv = parts_view(parts@);
                        let ghost cur0 = current@;
                        if !current.as_str().is_empty() {
                            parts.push(StringPart::Literal(current));
                            current = String::new();
                            assert(parts_view(parts@) =~= pv.push(PartV::Literal(cur0)));
                        }
                        assert(parts_view(parts@) == with_part(pv, cur0));
                        let expr_src = self.lex_interp_expr()?;
                        let ghost pv2 = parts_view(parts@);
                        parts.push(StringPart::Expr(expr_src));
                        assert(parts_view(parts@) =~= pv2.push(PartV::Expr(expr_src@)));
                        assert(current@ =~= Seq::<char>::empty());
                    } else if c == '\\' {
                        match self.advance() {
                            None => {
                                return Err(text("unterminated escape in string"));
                            },
                            Some(c2) => {
                                if c2 == 'n' {
                                    push_char(&mut current, '\n');
                                } else if c2 == 't' {
                                    push_char(&mut current, '\t');
                                } else if c2 == 'r' {
                                    push_char(&mut current, '\r');
                                } else if c2 == '\\' {
                                    push_char(&mut current, '\\');
                                } else if c2 == '"' {
                                    push_char(&mut current, '"');
                                } else if c2 == '0' {
                                    push_char(&mut current, '\0');
                                } else if c2 == '{' {
                                    push_char(&mut current, '{');
                                } else if c2 == '}' {
                                    push_char(&mut current, '}');
                                } else if c2 == 'x' {
                                    let b = self.lex_hex_byte()?;
                                    push_char(&mut current, b as char);
                                } else {
                                    let mut m = text("unknown escape sequence: \\");
                                    push_char(&mut m, c2);
                                    assert(m@ =~= "unknown escape sequence: \\"@ + seq![c2]);
                                    return Err(m);
                                }
                            },
                        }
                    } else {
                        push_char(&mut current, c);
                    }
                },
            }
        }
    }

    /// A multi-line string: consecutive lines that each start with `\\`
    /// (after blanks), joined by newlines.
    fn lex_multiline_string(&mut self) -> (r: Token)
        requires
            old(self).wf(),
            old(self)@.1 <= old(self)@.0.len(),
        ensures
            (r@, final(self)@.1) == lex_multiline_spec(old(self)@.0, old(self)@.1),
            final(self)@.0 == old(self)@.0,
            final(self).wf(),
            final(self)@.1 <= final(self)@.0.len(),
    {
        let ghost s = self@.0;
        let ghost p = self@.1;
        let mut acc: Vec<char> = Vec::new();
        loop
            invariant
                self.wf(),
                self@.0 == s,
                0 <= p <= self@.1 <= s.len(),
                multiline_rest(s, self@.1, acc@) == multiline_rest(s, p, seq![]),
            ensures
                self.wf(),
                self@.0 == s,
                self@.1 <= s.len(),
                (acc@, self@.1) == multiline_rest(s, p, seq![]),
            decreases s.len() - self@.1,
        {
            let ghost q = self@.1;
            if self.peek() == Some('\\') && self.peek_at(1) == Some('\\') {
                self.advance();
                self.advance();
            } else {
                break;
            }
            let ghost a0 = acc@;
            proof {
                lemma_line_end_range(s, q + 2);
            }
            while self.pos < self.input.len() && self.input[self.pos] != '\n'
                invariant
                    self.wf(),
                    self@.0 == s,
                    0 <= q,
                    q + 2 <= self@.1 <= s.len(),
                    line_end(s, self@.1) == line_end(s, q + 2),
                    acc@ == a0 + s.subrange(q + 2, self@.1),
                decreases s.len() - self@.1,
            {
                let ghost k = self@.1;
                let ch = self.input[self.pos];
                acc.push(ch);
                self.pos = self.pos + 1;
                assert(s.subrange(q + 2, k + 1) =~= s.subrange(q + 2, k).push(ch));
            }
            if self.peek() == Some('\n') {
                self.advance();
                acc.push('\n');
            }
            let ghost q2 = self@.1;
            while self.pos < self.input.len() && (self.input[self.pos] == ' ' || self.input[self.pos] == '\t')
                invariant
                    self.wf(),
                    self@.0 == s,
                    q2 <= self@.1 <= s.len(),
                    run_end(s, self@.1, RunKind::Blank) == run_end(s, q2, RunKind::Blank),
                decreases s.len() - self@.1,
            {
                self.pos = self.pos + 1;
            }
        }
        if acc.len() > 0 && acc[acc.len() - 1] == '\n' {
            acc.pop();
        }
        Token::Str(crate::text::string_of_chars(&acc))
    }

    /// A char literal, from its opening quote.
    fn lex_char(&mut self) -> (r: Result<Token, String>)
        requires
            old(self).wf(),
            old(self)@.1 < old(self)@.0.len(),
        ensures
            lexed(r, old(self)@, final(self)@, lex_char_spec(old(self)@.0, old(self)@.1)),
            final(self).wf(),
            r is Ok ==> old(self)@.1 < final(self)@.1 <= final(self)@.0.len(),
    {
        self.advance();
        let c = match self.advance() {
            Some(c1) => if c1 == '\\' {
                match self.advance() {
                    Some(c2) => if c2 == 'n' {
                        '\n'
                    } else if c2 == 't' {
                        '\t'
                    } else if c2 == 'r' {
                        '\r'
                    } else if c2 == '\\' {
                        '\\'
                    } else if c2 == '\'' {
                        '\''
                    } else if c2 == '0' {
                        '\0'
                    } else if c2 == 'x' {
                        let b = self.lex_hex_byte()?;
                        b as char
                    } else {
                        let mut m = text("unknown escape in char literal: \\");
                        push_char(&mut m, c2);
                        assert(m@ =~= "unknown escape in char literal: \\"@ + seq![c2]);
                        return Err(m);
                    },
                    None => {
                        return Err(text("unterminated char literal"));
                    },
                }
            } else {
                c1
            },
            None => {
                return Err(text("unterminated char literal"));
            },
        };
        match self.advance() {
            Some(q) => if q == '\'' {
                Ok(Token::Char(c))
            } else {
                Err(text("expected closing ' in char literal"))
            },
            None => Err(text("expected closing ' in char literal")),
        }
    }

    /// A byte literal, from its `b`.
    fn lex_byte(&mut self) -> (r: Result<Token, String>)
        requires
            old(self).wf(),
            old(self)@.1 < old(self)@.0.len(),
        ensures
            lexed(r, old(self)@, final(self)@, lex_byte_spec(old(self)@.0, old(self)@.1)),
            final(self).wf(),
            r is Ok ==> old(self)@.1 < final(self)@.1 <= final(self)@.0.len(),
    {
        self.advance();
        self.advance();
        let b: u8 = match self.advance() {
            Some(c1) => if c1 == '\\' {
                match self.advance() {
                    Some(c2) => if c2 == 'n' {
                        10u8
                    } else if c2 == 't' {
                        9u8
                    } else if c2 == 'r' {
                        13u8
                    } else if c2 == '\\' {
                        92u8
                    } else if c2 == '\'' {
                        39u8
                    } else if c2 == '0' {
                        0u8
                    } else if c2 == 'x' {
                        self.lex_hex_byte()?
                    } else {
                        let mut m = text("unknown escape in byte literal: \\");
                        push_char(&mut m, c2);
                        assert(m@ =~= "unknown escape in byte literal: \\"@ + seq![c2]);
                        return Err(m);
                    },
                    None => {
                        return Err(text("unterminated byte literal"));
                    },
                }
            } else if (c1 as u32) < 128 {
                c1 as u8
            } else {
                let mut m = text("non-ASCII character in byte literal: '");
                push_char(&mut m, c1);
                push_char(&mut m, '\'');
                assert(m@ =~= "non-ASCII character in byte literal: '"@ + seq![c1, '\'']);
                return Err(m);
            },
            None => {
                return Err(text("unterminated byte literal"));
            },
        };
        match self.advance() {
            Some(q) => if q == '\'' {
                Ok(Token::Byte(b))
            } else {
                Err(text("expected closing ' in byte literal"))
            },
            None => Err(text("expected closing ' in byte literal")),
        }
    }
}


impl Lexer {
    /// The token at the current position, which holds a character that is
    /// neither whitespace nor the start of a comment. The input stays as it
    /// is, and a token always consumes at least one character.
    pub fn next_token(&mut self) -> (r: Result<Token, String>)
        requires
            old(self).wf(),
            old(self)@.1 < old(self)@.0.len(),
        ensures
            lexed(r, old(self)@, final(self)@, next_token_spec(old(self)@.0, old(self)@.1)),
            final(self).wf(),
            r is Ok ==> old(self)@.1 < final(self)@.1 <= final(self)@.0.len(),
    {
        let ghost s = self@.0;
        let ghost p = self@.1;
        let ch = self.input[self.pos];
        let next = self.peek_at(1);
        if ch == '(' {
            self.advance();
            Ok(Token::LParen)
        } else if ch == ')' {
            self.advance();
            Ok(Token::RParen)
        } else if ch == '[' {
            self.advance();
            Ok(Token::LBracket)
        } else if ch == ']' {
            self.advance();
            Ok(Token::RBracket)
        } else if ch == '{' {
            self.advance();
            Ok(Token::LBrace)
        } else if ch == '}' {
            self.advance();
            Ok(Token::RBrace)
        } else if ch == '+' {
            self.advance();
            Ok(Token::Plus)
        } else if ch == '*' {
            self.advance();
            Ok(Token::Star)
        } else if ch == '/' {
            self.advance();
            Ok(Token::Slash)
        } else if ch == '-' {
            self.advance();
            if next == Some('>') {
                self.advance();
                Ok(Token::Arrow)
            } else {
                Ok(Token::Minus)
            }
        } else if ch == '>' {
            self.advance();
            if next == Some('>') {
                self.advance();
                Ok(Token::Pipe)
            } else if next == Some('=') {
                self.advance();
                Ok(Token::GtEq)
            } else {
                Ok(Token::Gt)
            }
        } else if ch == '<' {
            self.advance();
            if next == Some('=') {
                self.advance();
                Ok(Token::LtEq)
            } else {
                Ok(Token::Lt)
            }
        } else if ch == '=' {
            self.advance();
            if next == Some('=') {
                self.advance();
                Ok(Token::EqEq)
            } else {
                Ok(Token::Assign)
            }
        } else if ch == '!' {
            self.advance();
            if next == Some('=') {
                self.advance();
                Ok(Token::NotEq)
            } else {
                Err(text("unexpected '!', did you mean '!='?"))
            }
        } else if ch == '.' {
            self.advance();
            if next == Some('.') {
                self.advance();
                if self.peek() == Some('.') {
                    self.advance();
                    Ok(Token::Spread)
                } else {
                    Ok(Token::DotDot)
                }
            } else {
                Ok(Token::Dot)
            }
        } else if ch == '|' {
            self.advance();
            Ok(Token::Bar)
        } else if ch == ',' {
            self.advance();
            Ok(Token::Comma)
        } else if ch == ';' {
            self.advance();
            Ok(Token::Semicolon)
        } else if ch == '"' {
            self.lex_string()
        } else if ch == '\'' {
            self.lex_char()
        } else if ch == 'b' && next == Some('\'') {
            self.lex_byte()
        } else if char_is_ascii_digit(ch) {
            self.lex_number()
        } else if ch == '_' {
            self.advance();
            let starts_name = match next {
                Some(c) => char_is_alphanumeric_or_underscore(c),
                None => false,
            };
            if starts_name {
                let mut name = String::new();
                push_char(&mut name, '_');
                assert(name@ =~= s.subrange(p, p + 1));
                while self.pos < self.input.len() && char_is_alphanumeric_or_underscore(self.input[self.pos])
                    invariant
                        self.wf(),
                        self@.0 == s,
                        0 <= p < self@.1 <= s.len(),
                        ident_end(s, self@.1) == ident_end(s, p + 1),
                        name@ == s.subrange(p, self@.1),
                    decreases s.len() - self@.1,
                {
                    let c = self.input[self.pos];
                    let ghost k = self@.1;
                    push_char(&mut name, c);
                    self.pos = self.pos + 1;
                    assert(s.subrange(p, k + 1) =~= s.subrange(p, k).push(c));
                }
                Ok(Token::Ident(name))
            } else {
                Ok(Token::Underscore)
            }
        } else if ch == '\\' && next == Some('\\') {
            proof {
                lemma_multiline_advances(s, p, seq![]);
            }
            Ok(self.lex_multiline_string())
        } else if char_is_alphabetic(ch) {
            proof {
                lemma_ident_end_ge(s, p + 1);
            }
            self.lex_ident_or_keyword()
        } else {
            let mut m = text("unexpected character: '");
            push_char(&mut m, ch);
            push_char(&mut m, '\'');
            assert(m@ =~= "unexpected character: '"@ + seq![ch, '\'']);
            Err(m)
        }
    }

    /// The tokens of the rest of the input, ending with `Eof`.
    pub fn tokenize(&mut self) -> (r: Result<Vec<Token>, String>)
        requires
            old(self).wf(),
        ensures
            final(self)@.0 == old(self)@.0,
            final(self).wf(),
            match tokens_from(old(self)@.0, old(self)@.1, seq![]) {
                Ok(ts) => r is Ok && tokens_view(r->Ok_0@) == ts,
                Err(e) => r is Err && r->Err_0@ == e,
            },
    {
        let ghost s = self@.0;
        let ghost p = self@.1;
        let mut tokens: Vec<Token> = Vec::new();
        assert(tokens_view(tokens@) =~= Seq::<TokenV>::empty());
        loop
            invariant
                self.wf(),
                self@.0 == s,
                s == old(self)@.0,
                p == old(self)@.1,
                p <= self@.1,
                tokens@.len() > 0 ==> self@.1 <= s.len(),
                tokens_from(s, self@.1, tokens_view(tokens@)) == tokens_from(s, p, seq![]),
            decreases s.len() + 3 - self@.1,
        {
            let ghost p1 = self@.1;
            self.skip_whitespace_and_comments();
            if self.pos >= self.input.len() {
                let ghost tv = tokens_view(tokens@);
                tokens.push(Token::Eof);
                assert(tokens_view(tokens@) =~= tv.push(TokenV::Eof));
                return Ok(tokens);
            }
            let ghost tv = tokens_view(tokens@);
            let tok = self.next_token()?;
            let ghost tokv = tok@;
            tokens.push(tok);
            assert(tokens_view(tokens@) =~= tv.push(tokv));
        }
    }
}


// ── The length of interpolated sources ──────────────────────────

/// One more than the length of an interpolated expression's source.
pub open spec fn part_bound(p: PartV) -> nat {
    match p {
        PartV::Expr(src) => src.len() + 1,
        PartV::Literal(_) => 0,
    }
}

pub open spec fn parts_bound(ps: Seq<PartV>) -> nat
    decreases ps.len(),
{
    if ps.len() == 0 {
        0
    } else {
        let a = parts_bound(ps.drop_last());
        let b = part_bound(ps.last());
        if a >= b { a } else { b }
    }
}

pub open spec fn token_bound(t: TokenV) -> nat {
    match t {
        TokenV::InterpStr(ps) => parts_bound(ps),
        _ => 0,
    }
}

/// A bound on the interpolated sources in a token list: each is shorter
/// than this. Parsing an interpolation lexes and parses its source, whose
/// tokens have a smaller bound.
pub open spec fn interp_bound(ts: Seq<TokenV>) -> nat
    decreases ts.len(),
{
    if ts.len() == 0 {
        0
    } else {
        let a = interp_bound(ts.drop_last());
        let b = token_bound(ts.last());
        if a >= b { a } else { b }
    }
}

pub proof fn lemma_interp_bound_push(ts: Seq<TokenV>, t: TokenV)
    ensures
        interp_bound(ts.push(t)) == if interp_bound(ts) >= token_bound(t) { interp_bound(ts) } else { token_bound(t) },
{
    assert(ts.push(t).drop_last() =~= ts);
}

pub proof fn lemma_interp_bound_elem(ts: Seq<TokenV>, i: int)
    requires
        0 <= i < ts.len(),
    ensures
        token_bound(ts[i]) <= interp_bound(ts),
    decreases ts.len(),
{
    if i < ts.len() - 1 {
        lemma_interp_bound_elem(ts.drop_last(), i);
    }
}

pub proof fn lemma_parts_bound_elem(ps: Seq<PartV>, i: int)
    requires
        0 <= i < ps.len(),
    ensures
        part_bound(ps[i]) <= parts_bound(ps),
    decreases ps.len(),
{
    if i < ps.len() - 1 {
        lemma_parts_bound_elem(ps.drop_last(), i);
    }
}

pub proof fn lemma_parts_bound_push(ps: Seq<PartV>, p: PartV)
    ensures
        parts_bound(ps.push(p)) == if parts_bound(ps) >= part_bound(p) { parts_bound(ps) } else { part_bound(p) },
{
    assert(ps.push(p).drop_last() =~= ps);
}

pub proof fn lemma_nested_string_len(s: Seq<char>, q: int, expr: Seq<char>)
    ensures
        nested_string(s, q, expr) matches Ok((e2, q2)) ==> e2.len() + q <= expr.len() + q2,
    decreases s.len() - q,
{
    if 0 <= q < s.len() {
        let c = s[q];
        if c == '\\' {
            if q + 1 < s.len() {
                lemma_nested_string_len(s, q + 2, expr.push('\\').push(s[q + 1]));
            }
        } else if c != '"' {
            lemma_nested_string_len(s, q + 1, expr.push(c));
        }
    }
}

pub proof fn lemma_interp_rest_len(s: Seq<char>, q: int, expr: Seq<char>, depth: int)
    ensures
        interp_rest(s, q, expr, depth) matches Ok((src, q2)) ==> src.len() + q + 1 <= expr.len() + q2,
    decreases s.len() - q,
{
    if 0 <= q < s.len() {
        let c = s[q];
        if c == '{' {
            lemma_interp_rest_len(s, q + 1, expr.push('{'), depth + 1);
        } else if c == '}' {
            if depth - 1 != 0 {
                lemma_interp_rest_len(s, q + 1, expr.push('}'), depth - 1);
            }
        } else if c == '"' {
            lemma_nested_string_len(s, q + 1, expr.push('"'));
            match nested_string(s, q + 1, expr.push('"')) {
                Ok((e2, q2)) => if q < q2 <= s.len() {
                    lemma_interp_rest_len(s, q2, e2, depth);
                },
                Err(_) => {},
            }
        } else if c == '\'' {
            match char_at(s, q + 1) {
                None => {},
                Some(c1) => {
                    let (e1, q3) = if c1 == '\\' {
                        if q + 2 < s.len() {
                            (expr.push('\'').push('\\').push(s[q + 2]), q + 3)
                        } else {
                            (expr.push('\'').push('\\'), q + 3)
                        }
                    } else {
                        (expr.push('\'').push(c1), q + 2)
                    };
                    if char_at(s, q3) == Some('\'') {
                        lemma_interp_rest_len(s, q3 + 1, e1.push('\''), depth);
                    }
                },
            }
        } else if c == '#' {
            let e = line_end(s, q + 1);
            if q < e <= s.len() {
                lemma_interp_rest_len(s, e, expr.push('#') + s.subrange(q + 1, e), depth);
            } else {
                lemma_interp_rest_len(s, q + 1, expr.push('#'), depth);
            }
        } else {
            lemma_interp_rest_len(s, q + 1, expr.push(c), depth);
        }
    }
}

pub proof fn lemma_string_rest_bound(s: Seq<char>, q: int, cur: Seq<char>, parts: Seq<PartV>, hi: bool)
    requires
        0 <= q,
        parts_bound(parts) <= s.len(),
    ensures
        string_rest(s, q, cur, parts, hi) matches Ok((TokenV::InterpStr(ps), _)) ==> parts_bound(ps) <= s.len(),
    decreases s.len() - q,
{
    if 0 <= q < s.len() {
        let c = s[q];
        if c == '"' {
            if hi && cur.len() > 0 {
                lemma_parts_bound_push(parts, PartV::Literal(cur));
            }
        } else if c == '{' {
            lemma_interp_rest_len(s, q + 1, seq![], 1);
            match interp_rest(s, q + 1, seq![], 1) {
                Err(_) => {},
                Ok((src, q2)) => if q < q2 <= s.len() {
                    let wp = with_part(parts, cur);
                    if cur.len() > 0 {
                        lemma_parts_bound_push(parts, PartV::Literal(cur));
                    }
                    lemma_parts_bound_push(wp, PartV::Expr(src));
                    lemma_string_rest_bound(s, q2, seq![], wp.push(PartV::Expr(src)), true);
                },
            }
        } else if c == '\\' {
            match char_at(s, q + 1) {
                None => {},
                Some(c2) => if c2 == 'x' {
                    match hex_byte(s, q + 2) {
                        Err(_) => {},
                        Ok(b) => lemma_string_rest_bound(s, q + 4, cur.push(b as char), parts, hi),
                    }
                } else {
                    match string_escape(c2) {
                        Some(e) => lemma_string_rest_bound(s, q + 2, cur.push(e), parts, hi),
                        None => {},
                    }
                },
            }
        } else {
            lemma_string_rest_bound(s, q + 1, cur.push(c), parts, hi);
        }
    }
}

pub proof fn lemma_next_token_bound(s: Seq<char>, p: int)
    requires
        0 <= p < s.len(),
    ensures
        next_token_spec(s, p) matches Ok((t, _)) ==> token_bound(t) <= s.len(),
{
    if s[p] == '"' {
        lemma_string_rest_bound(s, p + 1, seq![], seq![], false);
    }
}

pub proof fn lemma_tokens_from_bound(s: Seq<char>, p: int, acc: Seq<TokenV>)
    requires
        0 <= p,
        interp_bound(acc) <= s.len(),
    ensures
        tokens_from(s, p, acc) matches Ok(ts) ==> interp_bound(ts) <= s.len(),
    decreases s.len() - p,
{
    let q = skip_trivia(s, p);
    if q < 0 || q >= s.len() {
        lemma_interp_bound_push(acc, TokenV::Eof);
    } else {
        lemma_next_token_bound(s, q);
        match next_token_spec(s, q) {
            Err(_) => {},
            Ok((t, q2)) => if p <= q < q2 <= s.len() {
                lemma_interp_bound_push(acc, t);
                lemma_tokens_from_bound(s, q2, acc.push(t));
            },
        }
    }
}


pub proof fn lemma_tokens_view_index(ts: Seq<Token>, i: int)
    requires
        0 <= i < ts.len(),
    ensures
        tokens_view(ts).len() == ts.len(),
        tokens_view(ts)[i] == ts[i]@,
{
}


pub proof fn lemma_tokens_from_len(s: Seq<char>, p: int, acc: Seq<TokenV>)
    requires
        0 <= p <= s.len(),
    ensures
        tokens_from(s, p, acc) matches Ok(ts) ==> ts.len() <= acc.len() + s.len() - p + 1,
    decreases s.len() - p,
{
    let q = skip_trivia(s, p);
    if !(q < 0 || q >= s.len()) {
        match next_token_spec(s, q) {
            Err(_) => {},
            Ok((t, q2)) => if p <= q < q2 <= s.len() {
                lemma_tokens_from_len(s, q2, acc.push(t));
            },
        }
    }
}

} // verus!
