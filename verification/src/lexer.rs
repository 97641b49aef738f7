//! The lexer: from source text to a token stream that ends in `Eof`.
use vstd::prelude::*;

use crate::text::{
    char_is_whitespace, digit_value, digits_value, is_ascii_alpha, is_ascii_digit, is_white_space,
    render_error, rendered, text, SpecError,
};

verus! {

#[derive(Debug, Clone, PartialEq)]
pub struct Token {
    pub kind: TokenKind,
    pub line: usize,
    pub column: usize,
}

#[derive(Debug, Clone, PartialEq)]
pub enum TokenKind {
    Identifier(String),
    IntLiteral(i64),
    StringLiteral(String),
    Let,
    Mut,
    Fn,
    If,
    Else,
    While,
    Return,
    True,
    False,
    Match,
    TypeI64,
    TypeBool,
    TypeString,
    LParen,
    RParen,
    LBrace,
    RBrace,
    Comma,
    Semicolon,
    Colon,
    Arrow,
    Assign,
    EqEq,
    NotEq,
    Less,
    LessEq,
    Greater,
    GreaterEq,
    AndAnd,
    OrOr,
    Plus,
    Minus,
    Star,
    Slash,
    Bang,
    Eof,
}

#[derive(Debug, Clone, PartialEq, Eq)]
pub struct LexerError {
    pub message: String,
    pub line: usize,
    pub column: usize,
}

/// The model of a token kind: its text payloads as character sequences.
pub enum SpecTokenKind {
    Identifier(Seq<char>),
    IntLiteral(i64),
    StringLiteral(Seq<char>),
    Let,
    Mut,
    Fn,
    If,
    Else,
    While,
    Return,
    True,
    False,
    Match,
    TypeI64,
    TypeBool,
    TypeString,
    LParen,
    RParen,
    LBrace,
    RBrace,
    Comma,
    Semicolon,
    Colon,
    Arrow,
    Assign,
    EqEq,
    NotEq,
    Less,
    LessEq,
    Greater,
    GreaterEq,
    AndAnd,
    OrOr,
    Plus,
    Minus,
    Star,
    Slash,
    Bang,
    Eof,
}

pub struct SpecToken {
    pub kind: SpecTokenKind,
    pub line: usize,
    pub column: usize,
}

impl View for TokenKind {
    type V = SpecTokenKind;

    open spec fn view(&self) -> SpecTokenKind {
        match self {
            TokenKind::Identifier(s) => SpecTokenKind::Identifier(s@),
            TokenKind::IntLiteral(v) => SpecTokenKind::IntLiteral(*v),
            TokenKind::StringLiteral(s) => SpecTokenKind::StringLiteral(s@),
            TokenKind::Let => SpecTokenKind::Let,
            TokenKind::Mut => SpecTokenKind::Mut,
            TokenKind::Fn => SpecTokenKind::Fn,
            TokenKind::If => SpecTokenKind::If,
            TokenKind::Else => SpecTokenKind::Else,
            TokenKind::While => SpecTokenKind::While,
            TokenKind::Return => SpecTokenKind::Return,
            TokenKind::True => SpecTokenKind::True,
            TokenKind::False => SpecTokenKind::False,
            TokenKind::Match => SpecTokenKind::Match,
            TokenKind::TypeI64 => SpecTokenKind::TypeI64,
            TokenKind::TypeBool => SpecTokenKind::TypeBool,
            TokenKind::TypeString => SpecTokenKind::TypeString,
            TokenKind::LParen => SpecTokenKind::LParen,
            TokenKind::RParen => SpecTokenKind::RParen,
            TokenKind::LBrace => SpecTokenKind::LBrace,
            TokenKind::RBrace => SpecTokenKind::RBrace,
            TokenKind::Comma => SpecTokenKind::Comma,
            TokenKind::Semicolon => SpecTokenKind::Semicolon,
            TokenKind::Colon => SpecTokenKind::Colon,
            TokenKind::Arrow => SpecTokenKind::Arrow,
            TokenKind::Assign => SpecTokenKind::Assign,
            TokenKind::EqEq => SpecTokenKind::EqEq,
            TokenKind::NotEq => SpecTokenKind::NotEq,
            TokenKind::Less => SpecTokenKind::Less,
            TokenKind::LessEq => SpecTokenKind::LessEq,
            TokenKind::Greater => SpecTokenKind::Greater,
            TokenKind::GreaterEq => SpecTokenKind::GreaterEq,
            TokenKind::AndAnd => SpecTokenKind::AndAnd,
            TokenKind::OrOr => SpecTokenKind::OrOr,
            TokenKind::Plus => SpecTokenKind::Plus,
            TokenKind::Minus => SpecTokenKind::Minus,
            TokenKind::Star => SpecTokenKind::Star,
            TokenKind::Slash => SpecTokenKind::Slash,
            TokenKind::Bang => SpecTokenKind::Bang,
            TokenKind::Eof => SpecTokenKind::Eof,
        }
    }
}

impl View for Token {
    type V = SpecToken;

    open spec fn view(&self) -> SpecToken {
        SpecToken { kind: self.kind@, line: self.line, column: self.column }
    }
}

impl View for LexerError {
    type V = SpecError;

    open spec fn view(&self) -> SpecError {
        SpecError { message: self.message@, line: self.line, column: self.column }
    }
}

pub open spec fn tokens_view(s: Seq<Token>) -> Seq<SpecToken> {
    s.map_values(|t: Token| t@)
}

// ----------------------------------------------------------------------
// The lexical grammar
// ----------------------------------------------------------------------

/// A position in the source: the index of the next character and the line
/// and column at which it stands.
pub struct LexPos {
    pub index: int,
    pub line: int,
    pub column: int,
}

pub open spec fn start_pos() -> LexPos {
    LexPos { index: 0, line: 1, column: 1 }
}

/// Positions that the lexer can reach in a source of a size that fits the
/// machine.
pub open spec fn pos_ok(cs: Seq<char>, p: LexPos) -> bool {
    &&& cs.len() < usize::MAX
    &&& 0 <= p.index <= cs.len()
    &&& 1 <= p.line <= p.index + 1
    &&& 1 <= p.column <= p.index + 1
}

pub open spec fn char_at(cs: Seq<char>, i: int) -> Option<char> {
    if 0 <= i < cs.len() {
        Some(cs[i])
    } else {
        None
    }
}

/// Moving past one character: a newline starts the next line.
pub open spec fn adv(cs: Seq<char>, p: LexPos) -> LexPos {
    if 0 <= p.index < cs.len() {
        if cs[p.index] == '\n' {
            LexPos { index: p.index + 1, line: p.line + 1, column: 1 }
        } else {
            LexPos { index: p.index + 1, line: p.line, column: p.column + 1 }
        }
    } else {
        p
    }
}

pub open spec fn is_ident_start(c: char) -> bool {
    is_ascii_alpha(c) || c == '_'
}

pub open spec fn is_ident_continue(c: char) -> bool {
    is_ascii_alpha(c) || is_ascii_digit(c) || c == '_'
}

pub open spec fn lex_error(message: Seq<char>, p: LexPos) -> SpecError {
    SpecError { message, line: p.line as usize, column: p.column as usize }
}

/// The position after a `//` comment: past the next newline, or at the end.
pub open spec fn comment_end(cs: Seq<char>, p: LexPos) -> LexPos
    decreases cs.len() - p.index,
{
    if 0 <= p.index < cs.len() {
        if cs[p.index] == '\n' {
            adv(cs, p)
        } else {
            comment_end(cs, adv(cs, p))
        }
    } else {
        p
    }
}

/// The end of the run of identifier characters that starts at `i`.
pub open spec fn ident_end(cs: Seq<char>, i: int) -> int
    decreases cs.len() - i,
{
    if 0 <= i < cs.len() && is_ident_continue(cs[i]) {
        ident_end(cs, i + 1)
    } else {
        i
    }
}

/// The end of the run of decimal digits that starts at `i`.
pub open spec fn digits_end(cs: Seq<char>, i: int) -> int
    decreases cs.len() - i,
{
    if 0 <= i < cs.len() && is_ascii_digit(cs[i]) {
        digits_end(cs, i + 1)
    } else {
        i
    }
}

/// The position after the characters `p.index .. end` of one line.
pub open spec fn skip_to(p: LexPos, end: int) -> LexPos {
    LexPos { index: end, line: p.line, column: p.column + (end - p.index) }
}

pub open spec fn keyword_kind(s: Seq<char>) -> SpecTokenKind {
    if s == "let"@ {
        SpecTokenKind::Let
    } else if s == "mut"@ {
        SpecTokenKind::Mut
    } else if s == "fn"@ {
        SpecTokenKind::Fn
    } else if s == "if"@ {
        SpecTokenKind::If
    } else if s == "else"@ {
        SpecTokenKind::Else
    } else if s == "while"@ {
        SpecTokenKind::While
    } else if s == "return"@ {
        SpecTokenKind::Return
    } else if s == "true"@ {
        SpecTokenKind::True
    } else if s == "false"@ {
        SpecTokenKind::False
    } else if s == "match"@ {
        SpecTokenKind::Match
    } else if s == "i64"@ {
        SpecTokenKind::TypeI64
    } else if s == "bool"@ {
        SpecTokenKind::TypeBool
    } else if s == "string"@ {
        SpecTokenKind::TypeString
    } else {
        SpecTokenKind::Identifier(s)
    }
}

pub open spec fn unescape(e: char) -> char {
    if e == 'n' {
        '\n'
    } else {
        e
    }
}

/// The body of a string literal from `p` on, `acc` being what was read so
/// far; `start` is where the literal's opening quote stands.
pub open spec fn string_body(cs: Seq<char>, start: LexPos, p: LexPos, acc: Seq<char>) -> Result<
    (Seq<char>, LexPos),
    SpecError,
>
    decreases cs.len() - p.index,
{
    if !(0 <= p.index < cs.len()) {
        Err(lex_error("unterminated string literal"@, start))
    } else {
        let c = cs[p.index];
        if c == '"' {
            Ok((acc, adv(cs, p)))
        } else if c == '\\' {
            let p1 = adv(cs, p);
            if !(0 <= p1.index < cs.len()) {
                Err(lex_error("unterminated string literal"@, start))
            } else {
                let e = cs[p1.index];
                if e == '"' || e == '\\' || e == 'n' {
                    string_body(cs, start, adv(cs, p1), acc.push(unescape(e)))
                } else {
                    Err(lex_error("unsupported escape `\\"@ + seq![e] + "`"@, p1))
                }
            }
        } else if c == '\n' {
            Err(lex_error("unterminated string literal"@, start))
        } else {
            string_body(cs, start, adv(cs, p), acc.push(c))
        }
    }
}

pub open spec fn one(cs: Seq<char>, p: LexPos, k: SpecTokenKind) -> Result<
    (SpecTokenKind, LexPos),
    SpecError,
> {
    Ok((k, adv(cs, p)))
}

pub open spec fn two(cs: Seq<char>, p: LexPos, k: SpecTokenKind) -> Result<
    (SpecTokenKind, LexPos),
    SpecError,
> {
    Ok((k, adv(cs, adv(cs, p))))
}

/// A string literal whose opening quote stands at `p`.
pub open spec fn scan_string(cs: Seq<char>, p: LexPos) -> Result<(SpecTokenKind, LexPos), SpecError> {
    match string_body(cs, p, adv(cs, p), Seq::empty()) {
        Ok((s, q)) => Ok((SpecTokenKind::StringLiteral(s), q)),
        Err(e) => Err(e),
    }
}

/// An integer literal: the run of digits from `p`, which must fit an `i64`.
pub open spec fn scan_number(cs: Seq<char>, p: LexPos) -> Result<(SpecTokenKind, LexPos), SpecError> {
    let e = digits_end(cs, p.index);
    let digits = cs.subrange(p.index, e);
    if digits_value(digits) <= i64::MAX {
        Ok((SpecTokenKind::IntLiteral(digits_value(digits) as i64), skip_to(p, e)))
    } else {
        Err(lex_error("invalid i64 literal `"@ + digits + "`"@, p))
    }
}

/// A keyword or an identifier: the run of identifier characters from `p`.
pub open spec fn scan_word(cs: Seq<char>, p: LexPos) -> Result<(SpecTokenKind, LexPos), SpecError> {
    let e = ident_end(cs, p.index);
    Ok((keyword_kind(cs.subrange(p.index, e)), skip_to(p, e)))
}

/// The token that starts at `p` (not a blank, not a comment) and the
/// position after it.
pub open spec fn scan_token(cs: Seq<char>, p: LexPos) -> Result<(SpecTokenKind, LexPos), SpecError> {
    let c = cs[p.index];
    let next = char_at(cs, p.index + 1);
    if c == '(' {
        one(cs, p, SpecTokenKind::LParen)
    } else if c == ')' {
        one(cs, p, SpecTokenKind::RParen)
    } else if c == '{' {
        one(cs, p, SpecTokenKind::LBrace)
    } else if c == '}' {
        one(cs, p, SpecTokenKind::RBrace)
    } else if c == ',' {
        one(cs, p, SpecTokenKind::Comma)
    } else if c == ';' {
        one(cs, p, SpecTokenKind::Semicolon)
    } else if c == ':' {
        if next == Some(':') {
            Err(lex_error("`::` is not supported in dokusy"@, p))
        } else {
            one(cs, p, SpecTokenKind::Colon)
        }
    } else if c == '+' {
        one(cs, p, SpecTokenKind::Plus)
    } else if c == '-' {
        if next == Some('>') {
            two(cs, p, SpecTokenKind::Arrow)
        } else {
            one(cs, p, SpecTokenKind::Minus)
        }
    } else if c == '*' {
        one(cs, p, SpecTokenKind::Star)
    } else if c == '/' {
        one(cs, p, SpecTokenKind::Slash)
    } else if c == '!' {
        if next == Some('=') {
            two(cs, p, SpecTokenKind::NotEq)
        } else {
            one(cs, p, SpecTokenKind::Bang)
        }
    } else if c == '=' {
        if next == Some('=') {
            two(cs, p, SpecTokenKind::EqEq)
        } else {
            one(cs, p, SpecTokenKind::Assign)
        }
    } else if c == '<' {
        if next == Some('=') {
            two(cs, p, SpecTokenKind::LessEq)
        } else {
            one(cs, p, SpecTokenKind::Less)
        }
    } else if c == '>' {
        if next == Some('=') {
            two(cs, p, SpecTokenKind::GreaterEq)
        } else {
            one(cs, p, SpecTokenKind::Greater)
        }
    } else if c == '&' {
        if next == Some('&') {
            two(cs, p, SpecTokenKind::AndAnd)
        } else {
            Err(lex_error("`&` is not supported in dokusy"@, p))
        }
    } else if c == '|' {
        if next == Some('|') {
            two(cs, p, SpecTokenKind::OrOr)
        } else {
            Err(lex_error("unexpected `|`"@, p))
        }
    } else if c == '"' {
        scan_string(cs, p)
    } else if is_ascii_digit(c) {
        scan_number(cs, p)
    } else if is_ident_start(c) {
        scan_word(cs, p)
    } else {
        Err(lex_error("unexpected character `"@ + seq![c] + "`"@, p))
    }
}

pub open spec fn token_at(k: SpecTokenKind, p: LexPos) -> SpecToken {
    SpecToken { kind: k, line: p.line as usize, column: p.column as usize }
}

/// A `//` comment starts at `p`.
pub open spec fn comment_starts(cs: Seq<char>, p: LexPos) -> bool {
    cs[p.index] == '/' && char_at(cs, p.index + 1) == Some('/')
}

/// Tokenizing from `p` on, `acc` being the tokens found before `p`.
pub open spec fn lex_from(cs: Seq<char>, p: LexPos, acc: Seq<SpecToken>) -> Result<
    Seq<SpecToken>,
    SpecError,
>
    decreases cs.len() - p.index,
{
    if !(0 <= p.index < cs.len()) {
        Ok(acc.push(token_at(SpecTokenKind::Eof, p)))
    } else if is_white_space(cs[p.index]) {
        lex_from(cs, adv(cs, p), acc)
    } else if comment_starts(cs, p) {
        proof {
            lemma_comment_end(cs, p);
        }
        lex_from(cs, comment_end(cs, p), acc)
    } else {
        proof {
            lemma_scan_token_progress(cs, p);
        }
        match scan_token(cs, p) {
            Ok((k, q)) => lex_from(cs, q, acc.push(token_at(k, p))),
            Err(e) => Err(e),
        }
    }
}

/// What `Lexer::new(source).tokenize()` returns for a source of these
/// characters.
pub open spec fn tokenize_spec(cs: Seq<char>) -> Result<Seq<SpecToken>, SpecError> {
    lex_from(cs, start_pos(), Seq::empty())
}

// ----------------------------------------------------------------------
// The lexer
// ----------------------------------------------------------------------

impl LexerError {
    fn new(message: String, line: usize, column: usize) -> (e: Self)
        ensures
            e@ == (SpecError { message: message@, line, column }),
    {
        LexerError { message, line, column }
    }

    /// The text `[lexer] <message> at line <line>, column <column>`.
    pub fn render(&self) -> (s: String)
        ensures
            s@ == rendered("[lexer] "@, self@),
    {
        render_error("[lexer] ", &self.message, self.line, self.column)
    }
}

pub struct Lexer<'a> {
    chars: Vec<char>,
    index: usize,
    line: usize,
    column: usize,
    _source: &'a str,
}

/// Whether a character may start an identifier.
fn is_identifier_start(c: char) -> (r: bool)
    ensures
        r == is_ident_start(c),
{
    ('a' <= c && c <= 'z') || ('A' <= c && c <= 'Z') || c == '_'
}

/// Whether a character may continue an identifier.
fn is_identifier_continue(c: char) -> (r: bool)
    ensures
        r == is_ident_continue(c),
{
    ('a' <= c && c <= 'z') || ('A' <= c && c <= 'Z') || ('0' <= c && c <= '9') || c == '_'
}

fn is_digit(c: char) -> (r: bool)
    ensures
        r == is_ascii_digit(c),
{
    '0' <= c && c <= '9'
}

fn keyword_or_identifier(value: String) -> (k: TokenKind)
    ensures
        k@ == keyword_kind(value@),
{
    if value == text("let") {
        TokenKind::Let
    } else if value == text("mut") {
        TokenKind::Mut
    } else if value == text("fn") {
        TokenKind::Fn
    } else if value == text("if") {
        TokenKind::If
    } else if value == text("else") {
        TokenKind::Else
    } else if value == text("while") {
        TokenKind::While
    } else if value == text("return") {
        TokenKind::Return
    } else if value == text("true") {
        TokenKind::True
    } else if value == text("false") {
        TokenKind::False
    } else if value == text("match") {
        TokenKind::Match
    } else if value == text("i64") {
        TokenKind::TypeI64
    } else if value == text("bool") {
        TokenKind::TypeBool
    } else if value == text("string") {
        TokenKind::TypeString
    } else {
        TokenKind::Identifier(value)
    }
}

impl<'a> Lexer<'a> {
    /// The characters of the source.
    pub closed spec fn source_chars(&self) -> Seq<char> {
        self.chars@
    }

    /// Where the lexer stands in the source.
    pub closed spec fn pos(&self) -> LexPos {
        LexPos { index: self.index as int, line: self.line as int, column: self.column as int }
    }

    pub closed spec fn wf(&self) -> bool {
        pos_ok(self.chars@, self.pos())
    }

    /// A lexer at the start of `source` (line 1, column 1).
    pub fn new(source: &'a str) -> (l: Self)
        requires
            source@.len() < usize::MAX,
        ensures
            l.source_chars() == source@,
            l.pos() == start_pos(),
            l.wf(),
    {
        Lexer { chars: collect_chars(source), index: 0, line: 1, column: 1, _source: source }
    }

    /// Splits the source into tokens, the last of them `Eof`.
    pub fn tokenize(self) -> (res: Result<Vec<Token>, LexerError>)
        requires
            self.wf(),
        ensures
            match res {
                Ok(ts) => lex_from(self.source_chars(), self.pos(), Seq::empty()) == Ok::<
                    Seq<SpecToken>,
                    SpecError,
                >(tokens_view(ts@)),
                Err(e) => lex_from(self.source_chars(), self.pos(), Seq::empty()) == Err::<
                    Seq<SpecToken>,
                    SpecError,
                >(e@),
            },
            res matches Ok(ts) ==> ends_with_single_eof(tokens_view(ts@)),
    {
        proof {
            lemma_lex_from_single_eof(self.source_chars(), self.pos(), Seq::empty());
        }
        let mut lexer = self;
        let ghost cs = lexer.chars@;
        let ghost p0 = lexer.pos();
        let mut tokens: Vec<Token> = Vec::new();
        assert(tokens_view(tokens@) =~= Seq::<SpecToken>::empty());
        loop
            invariant
                lexer.wf(),
                lexer.chars@ == cs,
                cs == self.source_chars(),
                p0 == self.pos(),
                lex_from(cs, p0, Seq::empty()) == lex_from(cs, lexer.pos(), tokens_view(tokens@)),
            ensures
                lexer.wf(),
                lexer.index == cs.len(),
                lex_from(cs, p0, Seq::empty()) == lex_from(cs, lexer.pos(), tokens_view(tokens@)),
            decreases cs.len() - lexer.index,
        {
            let c = match lexer.current_char() {
                Some(c) => c,
                None => break,
            };
            let ghost p = lexer.pos();
            if char_is_whitespace(c) {
                lexer.advance();
                continue;
            }
            if c == '/' {
                if let Some(n) = lexer.peek_char() {
                    if n == '/' {
                        proof {
                            lemma_comment_end(cs, p);
                        }
                        lexer.skip_comment();
                        continue;
                    }
                }
            }
            assert(!comment_starts(cs, p));
            proof {
                lemma_scan_token_progress(cs, p);
            }
            let line = lexer.line;
            let column = lexer.column;
            let kind = match c {
                '(' => {
                    lexer.advance();
                    TokenKind::LParen
                },
                ')' => {
                    lexer.advance();
                    TokenKind::RParen
                },
                '{' => {
                    lexer.advance();
                    TokenKind::LBrace
                },
                '}' => {
                    lexer.advance();
                    TokenKind::RBrace
                },
                ',' => {
                    lexer.advance();
                    TokenKind::Comma
                },
                ';' => {
                    lexer.advance();
                    TokenKind::Semicolon
                },
                ':' => {
                    if lexer.peek_char() == Some(':') {
                        return Err(
                            LexerError::new(text("`::` is not supported in dokusy"), line, column),
                        );
                    }
                    lexer.advance();
                    TokenKind::Colon
                },
                '+' => {
                    lexer.advance();
                    TokenKind::Plus
                },
                '-' => {
                    if lexer.peek_char() == Some('>') {
                        lexer.advance();
                        lexer.advance();
                        TokenKind::Arrow
                    } else {
                        lexer.advance();
                        TokenKind::Minus
                    }
                },
                '*' => {
                    lexer.advance();
                    TokenKind::Star
                },
                '/' => {
                    lexer.advance();
                    TokenKind::Slash
                },
                '!' => {
                    if lexer.peek_char() == Some('=') {
                        lexer.advance();
                        lexer.advance();
                        TokenKind::NotEq
                    } else {
                        lexer.advance();
                        TokenKind::Bang
                    }
                },
                '=' => {
                    if lexer.peek_char() == Some('=') {
                        lexer.advance();
                        lexer.advance();
                        TokenKind::EqEq
                    } else {
                        lexer.advance();
                        TokenKind::Assign
                    }
                },
                '<' => {
                    if lexer.peek_char() == Some('=') {
                        lexer.advance();
                        lexer.advance();
                        TokenKind::LessEq
                    } else {
                        lexer.advance();
                        TokenKind::Less
                    }
                },
                '>' => {
                    if lexer.peek_char() == Some('=') {
                        lexer.advance();
                        lexer.advance();
                        TokenKind::GreaterEq
                    } else {
                        lexer.advance();
                        TokenKind::Greater
                    }
                },
                '&' => {
                    if lexer.peek_char() == Some('&') {
                        lexer.advance();
                        lexer.advance();
                        TokenKind::AndAnd
                    } else {
                        return Err(
                            LexerError::new(text("`&` is not supported in dokusy"), line, column),
                        );
                    }
                },
                '|' => {
                    if lexer.peek_char() == Some('|') {
                        lexer.advance();
                        lexer.advance();
                        TokenKind::OrOr
                    } else {
                        return Err(LexerError::new(text("unexpected `|`"), line, column));
                    }
                },
                '"' => {
                    match lexer.lex_string() {
                        Ok(value) => TokenKind::StringLiteral(value),
                        Err(e) => {
                            return Err(e);
                        },
                    }
                },
                _ => {
                    if is_digit(c) {
                        match lexer.lex_number() {
                            Ok(value) => TokenKind::IntLiteral(value),
                            Err(e) => {
                                return Err(e);
                            },
                        }
                    } else if is_identifier_start(c) {
                        let ident = lexer.lex_identifier();
                        keyword_or_identifier(ident)
                    } else {
                        let mut message = text("unexpected character `");
                        message.push(c);
                        message.append("`");
                        assert(message@ =~= "unexpected character `"@ + seq![c] + "`"@);
                        return Err(LexerError::new(message, line, column));
                    }
                },
            };
            assert(scan_token(cs, p) == Ok::<(SpecTokenKind, LexPos), SpecError>((kind@, lexer.pos())));
            let ghost before = tokens@;
            let token = Token { kind, line, column };
            tokens.push(token);
            assert(tokens_view(tokens@) =~= tokens_view(before).push(token_at(kind@, p)));
        }
        let ghost before = tokens@;
        let eof = Token { kind: TokenKind::Eof, line: lexer.line, column: lexer.column };
        tokens.push(eof);
        assert(tokens_view(tokens@) =~= tokens_view(before).push(
            token_at(SpecTokenKind::Eof, lexer.pos()),
        ));
        Ok(tokens)
    }

    fn current_char(&self) -> (r: Option<char>)
        requires
            self.wf(),
        ensures
            r == char_at(self.chars@, self.index as int),
    {
        if self.index < self.chars.len() {
            Some(self.chars[self.index])
        } else {
            None
        }
    }

    fn peek_char(&self) -> (r: Option<char>)
        requires
            self.wf(),
        ensures
            r == char_at(self.chars@, self.index + 1),
    {
        let i = self.index + 1;
        if i < self.chars.len() {
            Some(self.chars[i])
        } else {
            None
        }
    }

    fn advance(&mut self)
        requires
            old(self).wf(),
        ensures
            final(self).wf(),
            final(self).chars@ == old(self).chars@,
            final(self).pos() == adv(old(self).chars@, old(self).pos()),
    {
        if let Some(c) = self.current_char() {
            self.index = self.index + 1;
            if c == '\n' {
                self.line = self.line + 1;
                self.column = 1;
            } else {
                self.column = self.column + 1;
            }
        }
    }

    fn skip_comment(&mut self)
        requires
            old(self).wf(),
            old(self).index < old(self).chars.len(),
        ensures
            final(self).wf(),
            final(self).chars@ == old(self).chars@,
            final(self).pos() == comment_end(old(self).chars@, old(self).pos()),
    {
        let ghost cs = self.chars@;
        let ghost p0 = self.pos();
        loop
            invariant_except_break
                self.wf(),
                self.chars@ == cs,
                comment_end(cs, p0) == comment_end(cs, self.pos()),
            ensures
                self.wf(),
                self.chars@ == cs,
                self.pos() == comment_end(cs, p0),
            decreases cs.len() - self.index,
        {
            match self.current_char() {
                Some(c) => {
                    self.advance();
                    if c == '\n' {
                        break;
                    }
                },
                None => {
                    break;
                },
            }
        }
    }

    fn lex_identifier(&mut self) -> (ident: String)
        requires
            old(self).wf(),
        ensures
            final(self).wf(),
            final(self).chars@ == old(self).chars@,
            ident@ == old(self).chars@.subrange(
                old(self).index as int,
                ident_end(old(self).chars@, old(self).index as int),
            ),
            final(self).pos() == skip_to(
                old(self).pos(),
                ident_end(old(self).chars@, old(self).index as int),
            ),
    {
        let ghost cs = self.chars@;
        let ghost p0 = self.pos();
        let mut ident = String::new();
        loop
            invariant
                self.wf(),
                self.chars@ == cs,
                pos_ok(cs, p0),
                cs == old(self).chars@,
                p0 == old(self).pos(),
                p0.index <= self.index,
                ident_end(cs, p0.index) == ident_end(cs, self.index as int),
                ident@ == cs.subrange(p0.index, self.index as int),
                self.pos() == skip_to(p0, self.index as int),
            ensures
                self.index == ident_end(cs, p0.index),
            decreases cs.len() - self.index,
        {
            match self.current_char() {
                Some(c) => {
                    if is_identifier_continue(c) {
                        ident.push(c);
                        self.advance();
                        assert(ident@ =~= cs.subrange(p0.index, self.index as int));
                    } else {
                        break;
                    }
                },
                None => {
                    break;
                },
            }
        }
        ident
    }

    fn lex_number(&mut self) -> (res: Result<i64, LexerError>)
        requires
            old(self).wf(),
            old(self).index < old(self).chars.len(),
            is_ascii_digit(old(self).chars@[old(self).index as int]),
        ensures
            final(self).wf(),
            final(self).chars@ == old(self).chars@,
            match res {
                Ok(v) => scan_number(old(self).chars@, old(self).pos()) == Ok::<
                    (SpecTokenKind, LexPos),
                    SpecError,
                >((SpecTokenKind::IntLiteral(v), final(self).pos())),
                Err(e) => scan_number(old(self).chars@, old(self).pos()) == Err::<
                    (SpecTokenKind, LexPos),
                    SpecError,
                >(e@),
            },
    {
        let ghost cs = self.chars@;
        let ghost p0 = self.pos();
        let start_line = self.line;
        let start_col = self.column;
        let mut value = String::new();
        let mut digits: Vec<char> = Vec::new();
        loop
            invariant
                self.wf(),
                self.chars@ == cs,
                pos_ok(cs, p0),
                cs == old(self).chars@,
                p0 == old(self).pos(),
                p0.index <= self.index,
                digits_end(cs, p0.index) == digits_end(cs, self.index as int),
                value@ == cs.subrange(p0.index, self.index as int),
                digits@ == value@,
                self.pos() == skip_to(p0, self.index as int),
            ensures
                self.index == digits_end(cs, p0.index),
            decreases cs.len() - self.index,
        {
            match self.current_char() {
                Some(c) => {
                    if is_digit(c) {
                        value.push(c);
                        digits.push(c);
                        self.advance();
                        assert(value@ =~= cs.subrange(p0.index, self.index as int));
                    } else {
                        break;
                    }
                },
                None => {
                    break;
                },
            }
        }
        proof {
            lemma_digits_end(cs, p0.index);
        }
        match parse_i64(&digits) {
            Some(v) => Ok(v),
            None => {
                let mut message = text("invalid i64 literal `");
                message.append(value.as_str());
                message.append("`");
                Err(LexerError::new(message, start_line, start_col))
            },
        }
    }

    fn lex_string(&mut self) -> (res: Result<String, LexerError>)
        requires
            old(self).wf(),
            old(self).index < old(self).chars.len(),
        ensures
            final(self).wf(),
            final(self).chars@ == old(self).chars@,
            match res {
                Ok(s) => scan_string(old(self).chars@, old(self).pos()) == Ok::<
                    (SpecTokenKind, LexPos),
                    SpecError,
                >((SpecTokenKind::StringLiteral(s@), final(self).pos())),
                Err(e) => scan_string(old(self).chars@, old(self).pos()) == Err::<
                    (SpecTokenKind, LexPos),
                    SpecError,
                >(e@),
            },
    {
        let ghost cs = self.chars@;
        let ghost p0 = self.pos();
        let start_line = self.line;
        let start_col = self.column;
        // the opening quote
        self.advance();
        let mut value = String::new();
        loop
            invariant
                self.wf(),
                self.chars@ == cs,
                cs == old(self).chars@,
                p0 == old(self).pos(),
                start_line == p0.line,
                start_col == p0.column,
                string_body(cs, p0, adv(cs, p0), Seq::empty()) == string_body(
                    cs,
                    p0,
                    self.pos(),
                    value@,
                ),
            decreases cs.len() - self.index,
        {
            let c = match self.current_char() {
                Some(c) => c,
                None => {
                    return Err(
                        LexerError::new(text("unterminated string literal"), start_line, start_col),
                    );
                },
            };
            if c == '"' {
                self.advance();
                return Ok(value);
            } else if c == '\\' {
                self.advance();
                let escaped = match self.current_char() {
                    Some(e) => e,
                    None => {
                        return Err(
                            LexerError::new(text("unterminated string literal"), start_line, start_col),
                        );
                    },
                };
                if escaped == '"' {
                    value.push('"');
                } else if escaped == '\\' {
                    value.push('\\');
                } else if escaped == 'n' {
                    value.push('\n');
                } else {
                    let mut message = text("unsupported escape `\\");
                    message.push(escaped);
                    message.append("`");
                    assert(message@ =~= "unsupported escape `\\"@ + seq![escaped] + "`"@);
                    return Err(LexerError::new(message, self.line, self.column));
                }
                self.advance();
            } else if c == '\n' {
                return Err(
                    LexerError::new(text("unterminated string literal"), start_line, start_col),
                );
            } else {
                value.push(c);
                self.advance();
            }
        }
    }
}

/// The value of a string of decimal digits, when it fits an `i64`.
fn parse_i64(digits: &Vec<char>) -> (r: Option<i64>)
    requires
        forall|i: int| 0 <= i < digits@.len() ==> #[trigger] is_ascii_digit(digits@[i]),
    ensures
        match r {
            Some(v) => digits_value(digits@) <= i64::MAX && v == digits_value(digits@),
            None => digits_value(digits@) > i64::MAX,
        },
{
    let ghost ds = digits@;
    let mut acc: i64 = 0;
    let mut i: usize = 0;
    while i < digits.len()
        invariant
            ds == digits@,
            forall|j: int| 0 <= j < ds.len() ==> #[trigger] is_ascii_digit(ds[j]),
            i <= ds.len(),
            acc == digits_value(ds.take(i as int)),
        decreases ds.len() - i,
    {
        proof {
            assert(ds.take(i + 1).drop_last() =~= ds.take(i as int));
        }
        let d = digit_of(digits[i]);
        match acc.checked_mul(10) {
            Some(m) => match m.checked_add(d) {
                Some(n) => {
                    acc = n;
                },
                None => {
                    proof {
                        lemma_digits_value_prefix(ds, i + 1);
                    }
                    return None;
                },
            },
            None => {
                proof {
                    lemma_digits_value_prefix(ds, i + 1);
                }
                return None;
            },
        }
        i = i + 1;
    }
    assert(ds.take(i as int) =~= ds);
    Some(acc)
}

fn digit_of(c: char) -> (d: i64)
    requires
        is_ascii_digit(c),
    ensures
        d == digit_value(c),
{
    (c as u32 - '0' as u32) as i64
}

/// The characters of `source`, in order.
fn collect_chars(source: &str) -> (v: Vec<char>)
    ensures
        v@ == source@,
{
    let mut v: Vec<char> = Vec::new();
    for c in it: source.chars()
        invariant
            v@ == it.seq().take(it.index() as int),
    {
        v.push(c);
    }
    v
}

// ----------------------------------------------------------------------
// Facts about the lexical grammar
// ----------------------------------------------------------------------

/// Appending digits never makes a number smaller.
pub proof fn lemma_digits_value_prefix(ds: Seq<char>, k: int)
    requires
        0 <= k <= ds.len(),
    ensures
        digits_value(ds.take(k)) <= digits_value(ds),
    decreases ds.len() - k,
{
    if k < ds.len() {
        lemma_digits_value_prefix(ds, k + 1);
        assert(ds.take(k + 1).drop_last() =~= ds.take(k));
    } else {
        assert(ds.take(k) =~= ds);
    }
}

pub proof fn lemma_comment_end(cs: Seq<char>, p: LexPos)
    requires
        0 <= p.index < cs.len(),
    ensures
        p.index < comment_end(cs, p).index <= cs.len(),
        pos_ok(cs, p) ==> pos_ok(cs, comment_end(cs, p)),
    decreases cs.len() - p.index,
{
    let q = adv(cs, p);
    if cs[p.index] != '\n' {
        if q.index < cs.len() {
            lemma_comment_end(cs, q);
        } else {
            assert(comment_end(cs, q) == q);
        }
    }
}

pub proof fn lemma_ident_end(cs: Seq<char>, i: int)
    requires
        0 <= i <= cs.len(),
    ensures
        i <= ident_end(cs, i) <= cs.len(),
        forall|j: int| i <= j < ident_end(cs, i) ==> #[trigger] is_ident_continue(cs[j]),
    decreases cs.len() - i,
{
    if i < cs.len() && is_ident_continue(cs[i]) {
        lemma_ident_end(cs, i + 1);
    }
}

pub proof fn lemma_digits_end(cs: Seq<char>, i: int)
    requires
        0 <= i <= cs.len(),
    ensures
        i <= digits_end(cs, i) <= cs.len(),
        forall|j: int| i <= j < digits_end(cs, i) ==> #[trigger] is_ascii_digit(cs[j]),
    decreases cs.len() - i,
{
    if i < cs.len() && is_ascii_digit(cs[i]) {
        lemma_digits_end(cs, i + 1);
    }
}

pub proof fn lemma_string_body_progress(cs: Seq<char>, start: LexPos, p: LexPos, acc: Seq<char>)
    requires
        0 <= p.index,
    ensures
        string_body(cs, start, p, acc) matches Ok((s, q)) ==> p.index < q.index <= cs.len() && (
        pos_ok(cs, p) ==> pos_ok(cs, q)),
    decreases cs.len() - p.index,
{
    if 0 <= p.index < cs.len() {
        let c = cs[p.index];
        if c == '\\' {
            let p1 = adv(cs, p);
            if 0 <= p1.index < cs.len() {
                lemma_string_body_progress(cs, start, adv(cs, p1), acc.push(unescape(cs[p1.index])));
            }
        } else if c != '"' && c != '\n' {
            lemma_string_body_progress(cs, start, adv(cs, p), acc.push(c));
        }
    }
}

pub proof fn lemma_scan_token_progress(cs: Seq<char>, p: LexPos)
    requires
        0 <= p.index < cs.len(),
    ensures
        scan_token(cs, p) matches Ok((k, q)) ==> p.index < q.index <= cs.len() && (pos_ok(cs, p)
            ==> pos_ok(cs, q)),
{
    let c = cs[p.index];
    if c == '"' {
        lemma_string_body_progress(cs, p, adv(cs, p), Seq::empty());
    } else if is_ascii_digit(c) {
        lemma_digits_end(cs, p.index + 1);
    } else if is_ident_start(c) {
        lemma_ident_end(cs, p.index + 1);
    }
}

/// The token sequence ends with `Eof`, and no earlier token is `Eof`.
pub open spec fn ends_with_single_eof(ts: Seq<SpecToken>) -> bool {
    &&& ts.len() > 0
    &&& ts.last().kind is Eof
    &&& forall|i: int| 0 <= i < ts.len() - 1 ==> !((#[trigger] ts[i]).kind is Eof)
}

/// No token of `ts` is `Eof`.
pub open spec fn no_eof(ts: Seq<SpecToken>) -> bool {
    forall|i: int| 0 <= i < ts.len() ==> !((#[trigger] ts[i]).kind is Eof)
}

/// A scanned token is never `Eof`.
pub proof fn lemma_scan_token_not_eof(cs: Seq<char>, p: LexPos)
    requires
        0 <= p.index < cs.len(),
    ensures
        scan_token(cs, p) matches Ok((k, q)) ==> !(k is Eof),
{
    let e = ident_end(cs, p.index);
    let w = cs.subrange(p.index, e);
    assert(!(keyword_kind(w) is Eof));
}

/// Tokenizing ends with one `Eof`, after the tokens found before.
pub proof fn lemma_lex_from_single_eof(cs: Seq<char>, p: LexPos, acc: Seq<SpecToken>)
    requires
        no_eof(acc),
    ensures
        lex_from(cs, p, acc) matches Ok(ts) ==> ends_with_single_eof(ts),
    decreases cs.len() - p.index,
{
    if !(0 <= p.index < cs.len()) {
        let ts = acc.push(token_at(SpecTokenKind::Eof, p));
        assert forall|i: int| 0 <= i < ts.len() - 1 implies !((#[trigger] ts[i]).kind is Eof) by {
            assert(ts[i] == acc[i]);
        }
    } else if is_white_space(cs[p.index]) {
        lemma_lex_from_single_eof(cs, adv(cs, p), acc);
    } else if comment_starts(cs, p) {
        lemma_comment_end(cs, p);
        lemma_lex_from_single_eof(cs, comment_end(cs, p), acc);
    } else {
        lemma_scan_token_progress(cs, p);
        lemma_scan_token_not_eof(cs, p);
        match scan_token(cs, p) {
            Ok((k, q)) => {
                let acc1 = acc.push(token_at(k, p));
                assert forall|i: int| 0 <= i < acc1.len() implies !((#[trigger] acc1[i]).kind is Eof) by {
                    if i < acc.len() {
                        assert(acc1[i] == acc[i]);
                    }
                }
                lemma_lex_from_single_eof(cs, q, acc1);
            },
            Err(_) => {},
        }
    }
}

/// Where tokenizing reaches a `&` that does not start `&&`, or a `::`, it
/// stops with an error at that position: dokusy has neither.
pub proof fn lemma_unsupported_operators(cs: Seq<char>, p: LexPos, acc: Seq<SpecToken>)
    requires
        0 <= p.index < cs.len(),
        (cs[p.index] == '&' && char_at(cs, p.index + 1) != Some('&')) || (cs[p.index] == ':'
            && char_at(cs, p.index + 1) == Some(':')),
    ensures
        lex_from(cs, p, acc) == Err::<Seq<SpecToken>, SpecError>(
            lex_error(
                if cs[p.index] == '&' {
                    "`&` is not supported in dokusy"@
                } else {
                    "`::` is not supported in dokusy"@
                },
                p,
            ),
        ),
{
    lemma_scan_token_progress(cs, p);
}


/// How a character is written inside a string literal: `\\`, `\"` and a
/// newline as `\n` are escaped; every other character stands for itself.
pub open spec fn escape_char(c: char) -> Seq<char> {
    if c == '\\' {
        seq!['\\', '\\']
    } else if c == '"' {
        seq!['\\', '"']
    } else if c == '\n' {
        seq!['\\', 'n']
    } else {
        seq![c]
    }
}

/// A string written with escapes, character by character.
pub open spec fn escaped(s: Seq<char>) -> Seq<char>
    decreases s.len(),
{
    if s.len() == 0 {
        Seq::empty()
    } else {
        escape_char(s[0]) + escaped(s.subrange(1, s.len() as int))
    }
}

/// The string literal that denotes `s`.
pub open spec fn string_literal(s: Seq<char>) -> Seq<char> {
    seq!['"'] + escaped(s) + seq!['"']
}

/// Reading the body of a literal written as `escaped(s)` and a closing quote
/// gives back `s`, and ends past the quote, on the same line.
proof fn lemma_string_body_escaped(
    cs: Seq<char>,
    start: LexPos,
    p: LexPos,
    acc: Seq<char>,
    s: Seq<char>,
)
    requires
        0 <= p.index,
        p.index + escaped(s).len() < cs.len(),
        cs.subrange(p.index, p.index + escaped(s).len()) == escaped(s),
        cs[p.index + escaped(s).len()] == '"',
    ensures
        string_body(cs, start, p, acc) == Ok::<(Seq<char>, LexPos), SpecError>(
            (
                acc + s,
                LexPos {
                    index: p.index + escaped(s).len() + 1,
                    line: p.line,
                    column: p.column + escaped(s).len() + 1,
                },
            ),
        ),
    decreases s.len(),
{
    let e = escaped(s);
    assert(forall|i: int| 0 <= i < e.len() ==> cs[p.index + i] == #[trigger] e[i]) by {
        assert forall|i: int| 0 <= i < e.len() implies cs[p.index + i] == #[trigger] e[i] by {
            assert(cs.subrange(p.index, p.index + e.len())[i] == cs[p.index + i]);
        }
    }
    if s.len() == 0 {
        assert(acc + s =~= acc);
    } else {
        let c = s[0];
        let rest = s.subrange(1, s.len() as int);
        let k = escape_char(c).len() as int;
        assert(e == escape_char(c) + escaped(rest));
        assert(e[0] == escape_char(c)[0]);
        let q = LexPos { index: p.index + k, line: p.line, column: p.column + k };
        assert(cs.subrange(q.index, q.index + escaped(rest).len()) =~= escaped(rest)) by {
            assert forall|i: int| 0 <= i < escaped(rest).len() implies cs.subrange(
                q.index,
                q.index + escaped(rest).len(),
            )[i] == #[trigger] escaped(rest)[i] by {
                assert(e[k + i] == escaped(rest)[i]);
            }
        }
        lemma_string_body_escaped(cs, start, q, acc.push(c), rest);
        assert(acc.push(c) + rest =~= acc + s);
        if k == 2 {
            assert(e[1] == escape_char(c)[1]);
        }
    }
}

/// A string literal reads back as the string it was written from: the
/// source `string_literal(s)` is one string token holding `s`, then `Eof`.
pub proof fn lemma_string_literal_round_trip(s: Seq<char>)
    ensures
        tokenize_spec(string_literal(s)) == Ok::<Seq<SpecToken>, SpecError>(
            seq![
                token_at(SpecTokenKind::StringLiteral(s), start_pos()),
                token_at(
                    SpecTokenKind::Eof,
                    LexPos {
                        index: string_literal(s).len() as int,
                        line: 1,
                        column: string_literal(s).len() + 1int,
                    },
                ),
            ],
        ),
{
    let q = string_literal(s);
    let e = escaped(s);
    assert(q[0] == '"');
    assert(q.subrange(1, 1 + e.len() as int) =~= e);
    assert(q[1 + e.len() as int] == '"');
    let p1 = LexPos { index: 1, line: 1, column: 2 };
    assert(adv(q, start_pos()) == p1);
    lemma_string_body_escaped(q, start_pos(), p1, Seq::empty(), s);
    assert(Seq::<char>::empty() + s =~= s);
    lemma_scan_token_progress(q, start_pos());
    let end = LexPos { index: q.len() as int, line: 1, column: q.len() + 1int };
    assert(scan_token(q, start_pos()) == Ok::<(SpecTokenKind, LexPos), SpecError>(
        (SpecTokenKind::StringLiteral(s), end),
    ));
    let toks = seq![token_at(SpecTokenKind::StringLiteral(s), start_pos())];
    assert(Seq::<SpecToken>::empty().push(token_at(SpecTokenKind::StringLiteral(s), start_pos()))
        =~= toks);
    assert(lex_from(q, end, toks) == Ok::<Seq<SpecToken>, SpecError>(
        toks.push(token_at(SpecTokenKind::Eof, end)),
    ));
    assert(toks.push(token_at(SpecTokenKind::Eof, end)) =~= seq![
        token_at(SpecTokenKind::StringLiteral(s), start_pos()),
        token_at(SpecTokenKind::Eof, end),
    ]);
}


/// `cs2` is `cs` followed by a newline and a `//` comment: the characters
/// of `cs`, then `\n//`, then no further newline.
pub open spec fn followed_by_line_comment(cs: Seq<char>, cs2: Seq<char>) -> bool {
    &&& cs2.len() >= cs.len() + 3
    &&& forall|i: int| 0 <= i < cs.len() ==> #[trigger] cs2[i] == cs[i]
    &&& cs2[cs.len() as int] == '\n'
    &&& cs2[cs.len() + 1int] == '/'
    &&& cs2[cs.len() + 2int] == '/'
    &&& forall|i: int| cs.len() + 1 <= i < cs2.len() ==> #[trigger] cs2[i] != '\n'
}

/// The tokens `ts2` are those of `ts` but for the position of the final `Eof`.
pub open spec fn same_tokens_but_eof(ts: Seq<SpecToken>, ts2: Seq<SpecToken>) -> bool {
    &&& ts2.len() == ts.len()
    &&& ts.len() > 0
    &&& ts2.drop_last() == ts.drop_last()
    &&& ts2.last().kind is Eof
}

proof fn lemma_comment_runs_to_end(cs2: Seq<char>, q: LexPos, from: int)
    requires
        0 <= from <= q.index <= cs2.len(),
        forall|i: int| from <= i < cs2.len() ==> #[trigger] cs2[i] != '\n',
    ensures
        comment_end(cs2, q).index == cs2.len(),
    decreases cs2.len() - q.index,
{
    if q.index < cs2.len() {
        lemma_comment_runs_to_end(cs2, adv(cs2, q), from);
    }
}

/// From the start of the trailing `//` comment (or the newline before it),
/// only `Eof` follows.
proof fn lemma_lex_trailing(cs: Seq<char>, cs2: Seq<char>, p: LexPos, acc: Seq<SpecToken>)
    requires
        followed_by_line_comment(cs, cs2),
        p.index == cs.len() || p.index == cs.len() + 1,
    ensures
        lex_from(cs2, p, acc) matches Ok(ts2) && ts2.len() == acc.len() + 1 && ts2.drop_last()
            == acc && ts2.last().kind is Eof,
    decreases cs2.len() - p.index,
{
    if p.index == cs.len() {
        assert(is_white_space(cs2[p.index]));
        lemma_lex_trailing(cs, cs2, adv(cs2, p), acc);
    } else {
        assert(!is_white_space(cs2[p.index]));
        assert(comment_starts(cs2, p));
        lemma_comment_runs_to_end(cs2, p, cs.len() + 1int);
        lemma_comment_end(cs2, p);
        let q = comment_end(cs2, p);
        let ts2 = acc.push(token_at(SpecTokenKind::Eof, q));
        assert(lex_from(cs2, q, acc) == Ok::<Seq<SpecToken>, SpecError>(ts2));
        assert(lex_from(cs2, p, acc) == lex_from(cs2, q, acc));
        assert(ts2.drop_last() =~= acc);
    }
}

proof fn lemma_ident_end_ext(cs: Seq<char>, cs2: Seq<char>, i: int)
    requires
        followed_by_line_comment(cs, cs2),
        0 <= i <= cs.len(),
    ensures
        ident_end(cs2, i) == ident_end(cs, i),
        digits_end(cs2, i) == digits_end(cs, i),
    decreases cs.len() - i,
{
    if i < cs.len() {
        lemma_ident_end_ext(cs, cs2, i + 1);
    } else {
        assert(cs2[i] == '\n');
    }
}

proof fn lemma_string_body_ext(
    cs: Seq<char>,
    cs2: Seq<char>,
    start: LexPos,
    p: LexPos,
    acc: Seq<char>,
)
    requires
        followed_by_line_comment(cs, cs2),
        0 <= p.index <= cs.len(),
        string_body(cs, start, p, acc) is Ok,
    ensures
        string_body(cs2, start, p, acc) == string_body(cs, start, p, acc),
    decreases cs.len() - p.index,
{
    if p.index < cs.len() {
        let c = cs[p.index];
        assert(cs2[p.index] == c);
        if c == '\\' {
            let p1 = adv(cs, p);
            if p1.index < cs.len() {
                assert(cs2[p1.index] == cs[p1.index]);
                let e = cs[p1.index];
                if e == '"' || e == '\\' || e == 'n' {
                    lemma_string_body_ext(cs, cs2, start, adv(cs, p1), acc.push(unescape(e)));
                }
            }
        } else if c != '"' && c != '\n' {
            lemma_string_body_ext(cs, cs2, start, adv(cs, p), acc.push(c));
        }
    }
}

proof fn lemma_comment_end_ext(cs: Seq<char>, cs2: Seq<char>, p: LexPos)
    requires
        followed_by_line_comment(cs, cs2),
        0 <= p.index < cs.len(),
    ensures
        comment_end(cs2, p) == comment_end(cs, p) || (comment_end(cs, p).index == cs.len()
            && comment_end(cs2, p).index == cs.len() + 1),
    decreases cs.len() - p.index,
{
    assert(cs2[p.index] == cs[p.index]);
    if cs[p.index] != '\n' {
        let q = adv(cs, p);
        if q.index < cs.len() {
            lemma_comment_end_ext(cs, cs2, q);
        } else {
            assert(cs2[q.index] == '\n');
        }
    }
}

proof fn lemma_scan_token_ext(cs: Seq<char>, cs2: Seq<char>, p: LexPos)
    requires
        followed_by_line_comment(cs, cs2),
        0 <= p.index < cs.len(),
        scan_token(cs, p) is Ok,
    ensures
        scan_token(cs2, p) == scan_token(cs, p),
{
    let i = p.index;
    assert(cs2[i] == cs[i]);
    if i + 1 < cs.len() {
        assert(cs2[i + 1] == cs[i + 1]);
    } else {
        assert(cs2[i + 1] == '\n');
    }
    assert(adv(cs2, p) == adv(cs, p));
    if i + 1 < cs.len() {
        assert(adv(cs2, adv(cs, p)) == adv(cs, adv(cs, p)));
    }
    lemma_ident_end_ext(cs, cs2, i);
    lemma_digits_end(cs, i);
    lemma_ident_end(cs, i);
    assert(cs2.subrange(i, digits_end(cs, i)) =~= cs.subrange(i, digits_end(cs, i)));
    assert(cs2.subrange(i, ident_end(cs, i)) =~= cs.subrange(i, ident_end(cs, i)));
    if cs[i] == '"' {
        lemma_string_body_ext(cs, cs2, p, adv(cs, p), Seq::empty());
    }
}

proof fn lemma_lex_from_ext(cs: Seq<char>, cs2: Seq<char>, p: LexPos, acc: Seq<SpecToken>)
    requires
        followed_by_line_comment(cs, cs2),
        0 <= p.index <= cs.len(),
        lex_from(cs, p, acc) is Ok,
    ensures
        lex_from(cs2, p, acc) matches Ok(ts2) && same_tokens_but_eof(
            lex_from(cs, p, acc)->Ok_0,
            ts2,
        ),
    decreases cs.len() - p.index,
{
    let ts = lex_from(cs, p, acc)->Ok_0;
    if p.index == cs.len() {
        lemma_lex_trailing(cs, cs2, p, acc);
        assert(ts.drop_last() =~= acc);
    } else {
        let i = p.index;
        assert(cs2[i] == cs[i]);
        if i + 1 < cs.len() {
            assert(cs2[i + 1] == cs[i + 1]);
        } else {
            assert(cs2[i + 1] == '\n');
        }
        assert(comment_starts(cs2, p) == comment_starts(cs, p));
        assert(adv(cs2, p) == adv(cs, p));
        if is_white_space(cs[i]) {
            lemma_lex_from_ext(cs, cs2, adv(cs, p), acc);
        } else if comment_starts(cs, p) {
            lemma_comment_end(cs, p);
            lemma_comment_end_ext(cs, cs2, p);
            if comment_end(cs2, p) == comment_end(cs, p) {
                lemma_lex_from_ext(cs, cs2, comment_end(cs, p), acc);
            } else {
                lemma_lex_trailing(cs, cs2, comment_end(cs2, p), acc);
                assert(ts.drop_last() =~= acc);
            }
        } else {
            lemma_scan_token_progress(cs, p);
            lemma_scan_token_ext(cs, cs2, p);
            match scan_token(cs, p) {
                Ok((k, q)) => {
                    lemma_lex_from_ext(cs, cs2, q, acc.push(token_at(k, p)));
                },
                Err(_) => {},
            }
        }
    }
}

/// Appending a newline and a `//` comment to a source that tokenizes adds no
/// token and moves none: only the final `Eof` moves.
pub proof fn lemma_trailing_line_comment(cs: Seq<char>, c: Seq<char>)
    requires
        forall|i: int| 0 <= i < c.len() ==> #[trigger] c[i] != '\n',
        tokenize_spec(cs) is Ok,
    ensures
        tokenize_spec(cs + seq!['\n', '/', '/'] + c) matches Ok(ts2) && same_tokens_but_eof(
            tokenize_spec(cs)->Ok_0,
            ts2,
        ),
{
    let cs2 = cs + seq!['\n', '/', '/'] + c;
    assert forall|i: int| cs.len() + 1 <= i < cs2.len() implies #[trigger] cs2[i] != '\n' by {
        if i >= cs.len() + 3 {
            assert(cs2[i] == c[i - cs.len() - 3]);
        }
    }
    assert(followed_by_line_comment(cs, cs2));
    lemma_lex_from_ext(cs, cs2, start_pos(), Seq::empty());
}


/// An ASCII letter, upper or lower case.
pub open spec fn ascii_letter(c: char) -> bool {
    ('a' <= c && c <= 'z') || ('A' <= c && c <= 'Z')
}

/// A word that may name a variable: an ASCII letter or `_`, then ASCII
/// letters, digits and `_`, and none of the language's keywords.
pub open spec fn plain_word(w: Seq<char>) -> bool {
    &&& w.len() > 0
    &&& (ascii_letter(w[0]) || w[0] == '_')
    &&& forall|i: int|
        0 <= i < w.len() ==> ascii_letter(#[trigger] w[i]) || ('0' <= w[i] && w[i] <= '9') || w[i]
            == '_'
    &&& w != "let"@ && w != "mut"@ && w != "fn"@ && w != "if"@ && w != "else"@ && w != "while"@
    &&& w != "return"@ && w != "true"@ && w != "false"@ && w != "match"@
    &&& w != "i64"@ && w != "bool"@ && w != "string"@
}

proof fn lemma_ident_end_word(w: Seq<char>, i: int)
    requires
        plain_word(w),
        0 <= i <= w.len(),
    ensures
        ident_end(w, i) == w.len(),
    decreases w.len() - i,
{
    if i < w.len() {
        assert(ascii_letter(w[i]) || ('0' <= w[i] && w[i] <= '9') || w[i] == '_');
        lemma_ident_end_word(w, i + 1);
    }
}

/// A source that is one plain word is one identifier token for that word,
/// then `Eof`: every ASCII letter (either case) and `_` may start a name.
pub proof fn lemma_word_is_identifier(w: Seq<char>)
    requires
        plain_word(w),
    ensures
        tokenize_spec(w) == Ok::<Seq<SpecToken>, SpecError>(
            seq![
                token_at(SpecTokenKind::Identifier(w), start_pos()),
                token_at(
                    SpecTokenKind::Eof,
                    LexPos { index: w.len() as int, line: 1, column: w.len() + 1int },
                ),
            ],
        ),
{
    let c = w[0];
    assert(!is_white_space(c));
    assert(!comment_starts(w, start_pos()));
    lemma_ident_end_word(w, 0);
    assert(w.subrange(0, w.len() as int) =~= w);
    assert(keyword_kind(w) == SpecTokenKind::Identifier(w));
    let end = LexPos { index: w.len() as int, line: 1, column: w.len() + 1int };
    assert(scan_token(w, start_pos()) == Ok::<(SpecTokenKind, LexPos), SpecError>(
        (SpecTokenKind::Identifier(w), end),
    ));
    lemma_scan_token_progress(w, start_pos());
    let toks = seq![token_at(SpecTokenKind::Identifier(w), start_pos())];
    assert(Seq::<SpecToken>::empty().push(token_at(SpecTokenKind::Identifier(w), start_pos()))
        =~= toks);
    assert(lex_from(w, end, toks) == Ok::<Seq<SpecToken>, SpecError>(
        toks.push(token_at(SpecTokenKind::Eof, end)),
    ));
    assert(toks.push(token_at(SpecTokenKind::Eof, end)) =~= seq![
        token_at(SpecTokenKind::Identifier(w), start_pos()),
        token_at(SpecTokenKind::Eof, end),
    ]);
}


/// The operator and punctuation tokens, wherever they stand: a character
/// that may begin a two-character operator forms one with the next
/// character when it can, and otherwise stands alone; the position moves
/// past what was read.
pub proof fn lemma_operator_tokens(cs: Seq<char>, p: LexPos)
    requires
        0 <= p.index < cs.len(),
    ensures
        ({
            let c = cs[p.index];
            let next = char_at(cs, p.index + 1);
            let one = adv(cs, p);
            let two = adv(cs, adv(cs, p));
            &&& c == '(' ==> scan_token(cs, p) == Ok::<(SpecTokenKind, LexPos), SpecError>((SpecTokenKind::LParen, one))
            &&& c == ')' ==> scan_token(cs, p) == Ok::<(SpecTokenKind, LexPos), SpecError>((SpecTokenKind::RParen, one))
            &&& c == '{' ==> scan_token(cs, p) == Ok::<(SpecTokenKind, LexPos), SpecError>((SpecTokenKind::LBrace, one))
            &&& c == '}' ==> scan_token(cs, p) == Ok::<(SpecTokenKind, LexPos), SpecError>((SpecTokenKind::RBrace, one))
            &&& c == ',' ==> scan_token(cs, p) == Ok::<(SpecTokenKind, LexPos), SpecError>((SpecTokenKind::Comma, one))
            &&& c == ';' ==> scan_token(cs, p) == Ok::<(SpecTokenKind, LexPos), SpecError>((SpecTokenKind::Semicolon, one))
            &&& c == '+' ==> scan_token(cs, p) == Ok::<(SpecTokenKind, LexPos), SpecError>((SpecTokenKind::Plus, one))
            &&& c == '*' ==> scan_token(cs, p) == Ok::<(SpecTokenKind, LexPos), SpecError>((SpecTokenKind::Star, one))
            &&& c == '/' ==> scan_token(cs, p) == Ok::<(SpecTokenKind, LexPos), SpecError>((SpecTokenKind::Slash, one))
            &&& c == ':' && next != Some(':') ==> scan_token(cs, p) == Ok::<(SpecTokenKind, LexPos), SpecError>((SpecTokenKind::Colon, one))
            &&& c == '-' && next == Some('>') ==> scan_token(cs, p) == Ok::<(SpecTokenKind, LexPos), SpecError>((SpecTokenKind::Arrow, two))
            &&& c == '-' && next != Some('>') ==> scan_token(cs, p) == Ok::<(SpecTokenKind, LexPos), SpecError>((SpecTokenKind::Minus, one))
            &&& c == '!' && next == Some('=') ==> scan_token(cs, p) == Ok::<(SpecTokenKind, LexPos), SpecError>((SpecTokenKind::NotEq, two))
            &&& c == '!' && next != Some('=') ==> scan_token(cs, p) == Ok::<(SpecTokenKind, LexPos), SpecError>((SpecTokenKind::Bang, one))
            &&& c == '=' && next == Some('=') ==> scan_token(cs, p) == Ok::<(SpecTokenKind, LexPos), SpecError>((SpecTokenKind::EqEq, two))
            &&& c == '=' && next != Some('=') ==> scan_token(cs, p) == Ok::<(SpecTokenKind, LexPos), SpecError>((SpecTokenKind::Assign, one))
            &&& c == '<' && next == Some('=') ==> scan_token(cs, p) == Ok::<(SpecTokenKind, LexPos), SpecError>((SpecTokenKind::LessEq, two))
            &&& c == '<' && next != Some('=') ==> scan_token(cs, p) == Ok::<(SpecTokenKind, LexPos), SpecError>((SpecTokenKind::Less, one))
            &&& c == '>' && next == Some('=') ==> scan_token(cs, p) == Ok::<(SpecTokenKind, LexPos), SpecError>((SpecTokenKind::GreaterEq, two))
            &&& c == '>' && next != Some('=') ==> scan_token(cs, p) == Ok::<(SpecTokenKind, LexPos), SpecError>((SpecTokenKind::Greater, one))
            &&& c == '&' && next == Some('&') ==> scan_token(cs, p) == Ok::<(SpecTokenKind, LexPos), SpecError>((SpecTokenKind::AndAnd, two))
            &&& c == '|' && next == Some('|') ==> scan_token(cs, p) == Ok::<(SpecTokenKind, LexPos), SpecError>((SpecTokenKind::OrOr, two))
        }),
{
}

/// A source of decimal digits whose value fits an `i64` is one integer
/// token with that value, then `Eof`.
pub proof fn lemma_digits_are_integer(w: Seq<char>)
    requires
        w.len() > 0,
        forall|i: int| 0 <= i < w.len() ==> '0' <= #[trigger] w[i] && w[i] <= '9',
        digits_value(w) <= i64::MAX,
    ensures
        tokenize_spec(w) == Ok::<Seq<SpecToken>, SpecError>(
            seq![
                token_at(SpecTokenKind::IntLiteral(digits_value(w) as i64), start_pos()),
                token_at(
                    SpecTokenKind::Eof,
                    LexPos { index: w.len() as int, line: 1, column: w.len() + 1int },
                ),
            ],
        ),
{
    assert(is_ascii_digit(w[0]));
    assert(!is_white_space(w[0]));
    assert(!comment_starts(w, start_pos()));
    lemma_digits_end_all(w, 0);
    assert(w.subrange(0, w.len() as int) =~= w);
    let end = LexPos { index: w.len() as int, line: 1, column: w.len() + 1int };
    let k = SpecTokenKind::IntLiteral(digits_value(w) as i64);
    assert(scan_token(w, start_pos()) == Ok::<(SpecTokenKind, LexPos), SpecError>((k, end)));
    lemma_scan_token_progress(w, start_pos());
    let toks = seq![token_at(k, start_pos())];
    assert(Seq::<SpecToken>::empty().push(token_at(k, start_pos())) =~= toks);
    assert(lex_from(w, end, toks) == Ok::<Seq<SpecToken>, SpecError>(
        toks.push(token_at(SpecTokenKind::Eof, end)),
    ));
    assert(toks.push(token_at(SpecTokenKind::Eof, end)) =~= seq![
        token_at(k, start_pos()),
        token_at(SpecTokenKind::Eof, end),
    ]);
}

proof fn lemma_digits_end_all(w: Seq<char>, i: int)
    requires
        0 <= i <= w.len(),
        forall|j: int| 0 <= j < w.len() ==> '0' <= #[trigger] w[j] && w[j] <= '9',
    ensures
        digits_end(w, i) == w.len(),
    decreases w.len() - i,
{
    if i < w.len() {
        assert('0' <= w[i] && w[i] <= '9');
        lemma_digits_end_all(w, i + 1);
    }
}

} // verus!
