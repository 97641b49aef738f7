use dokusy::lexer::{Lexer, Token, TokenKind};

fn kinds(src: &str) -> Vec<TokenKind> {
    let tokens: Vec<Token> = Lexer::new(src).tokenize().expect("lex failed");
    tokens.into_iter().map(|t| t.kind).collect()
}

#[test]
fn tokenizes_let_and_math() {
    let src = "let mut x = 1 + 2; // comment\n";
    let tokens = Lexer::new(src).tokenize().expect("lex failed");
    let kinds: Vec<TokenKind> = tokens.into_iter().map(|t| t.kind).collect();
    assert_eq!(
        kinds,
        vec![
            TokenKind::Let,
            TokenKind::Mut,
            TokenKind::Identifier("x".to_string()),
            TokenKind::Assign,
            TokenKind::IntLiteral(1),
            TokenKind::Plus,
            TokenKind::IntLiteral(2),
            TokenKind::Semicolon,
            TokenKind::Eof,
        ]
    );
}

#[test]
fn tokenizes_string_escape() {
    let src = "let s = \"a\\n\\\"b\\\\\";";
    let tokens = Lexer::new(src).tokenize().expect("lex failed");
    assert_eq!(tokens[3].kind, TokenKind::StringLiteral("a\n\"b\\".to_string()));
}

#[test]
fn rejects_ampersand() {
    let src = "let x = &1;";
    let err = Lexer::new(src).tokenize().expect_err("must fail");
    assert!(err.message.contains("`&` is not supported"));
}

#[test]
fn rejects_double_colon_at_its_position() {
    let err = Lexer::new("let a\n  = b::c;").tokenize().expect_err("must fail");
    assert_eq!(err.message, "`::` is not supported in dokusy");
    assert_eq!((err.line, err.column), (2, 6));
    assert_eq!(err.render(), "[lexer] `::` is not supported in dokusy at line 2, column 6");
}

#[test]
fn ampersand_pair_is_a_token() {
    assert_eq!(
        kinds("a && b || c"),
        vec![
            TokenKind::Identifier("a".to_string()),
            TokenKind::AndAnd,
            TokenKind::Identifier("b".to_string()),
            TokenKind::OrOr,
            TokenKind::Identifier("c".to_string()),
            TokenKind::Eof,
        ]
    );
}

#[test]
fn tokens_end_with_a_single_eof() {
    for src in ["", "   // only a comment", "fn main() -> i64 { return 0; }"] {
        let tokens = Lexer::new(src).tokenize().expect("lex failed");
        assert_eq!(tokens.last().map(|t| t.kind.clone()), Some(TokenKind::Eof));
        let eofs = tokens.iter().filter(|t| t.kind == TokenKind::Eof).count();
        assert_eq!(eofs, 1);
    }
}

#[test]
fn eof_of_empty_source_is_at_line_one_column_one() {
    let tokens = Lexer::new("").tokenize().expect("lex failed");
    assert_eq!(tokens, vec![Token { kind: TokenKind::Eof, line: 1, column: 1 }]);
}

#[test]
fn unicode_white_space_separates_tokens() {
    assert_eq!(
        kinds("let\u{3000}x\u{a0}=\u{2028}1;"),
        vec![
            TokenKind::Let,
            TokenKind::Identifier("x".to_string()),
            TokenKind::Assign,
            TokenKind::IntLiteral(1),
            TokenKind::Semicolon,
            TokenKind::Eof,
        ]
    );
}

#[test]
fn tracks_lines_and_columns() {
    let tokens = Lexer::new("fn\n  main").tokenize().expect("lex failed");
    assert_eq!((tokens[0].line, tokens[0].column), (1, 1));
    assert_eq!((tokens[1].line, tokens[1].column), (2, 3));
    assert_eq!((tokens[2].line, tokens[2].column), (2, 7));
}

#[test]
fn keywords_types_and_punctuation() {
    assert_eq!(
        kinds("fn if else while return true false match i64 bool string ( ) { } , : -> == != <= >= < > ! - * /"),
        vec![
            TokenKind::Fn,
            TokenKind::If,
            TokenKind::Else,
            TokenKind::While,
            TokenKind::Return,
            TokenKind::True,
            TokenKind::False,
            TokenKind::Match,
            TokenKind::TypeI64,
            TokenKind::TypeBool,
            TokenKind::TypeString,
            TokenKind::LParen,
            TokenKind::RParen,
            TokenKind::LBrace,
            TokenKind::RBrace,
            TokenKind::Comma,
            TokenKind::Colon,
            TokenKind::Arrow,
            TokenKind::EqEq,
            TokenKind::NotEq,
            TokenKind::LessEq,
            TokenKind::GreaterEq,
            TokenKind::Less,
            TokenKind::Greater,
            TokenKind::Bang,
            TokenKind::Minus,
            TokenKind::Star,
            TokenKind::Slash,
            TokenKind::Eof,
        ]
    );
}

#[test]
fn largest_integer_literal_is_accepted() {
    assert_eq!(
        kinds("9223372036854775807"),
        vec![TokenKind::IntLiteral(i64::MAX), TokenKind::Eof]
    );
}

#[test]
fn integer_literal_beyond_i64_is_rejected() {
    let err = Lexer::new("x = 9223372036854775808;").tokenize().expect_err("must fail");
    assert_eq!(err.message, "invalid i64 literal `9223372036854775808`");
    assert_eq!((err.line, err.column), (1, 5));
}

#[test]
fn rejects_single_bar() {
    let err = Lexer::new("a | b").tokenize().expect_err("must fail");
    assert_eq!(err.message, "unexpected `|`");
    assert_eq!((err.line, err.column), (1, 3));
}

#[test]
fn rejects_unexpected_character() {
    let err = Lexer::new("let x = 1 % 2;").tokenize().expect_err("must fail");
    assert_eq!(err.message, "unexpected character `%`");
    assert_eq!((err.line, err.column), (1, 11));
}

#[test]
fn rejects_unterminated_string() {
    let err = Lexer::new("let s = \"abc").tokenize().expect_err("must fail");
    assert_eq!(err.message, "unterminated string literal");
    assert_eq!((err.line, err.column), (1, 9));
    let err = Lexer::new("let s = \"ab\ncd\";").tokenize().expect_err("must fail");
    assert_eq!(err.message, "unterminated string literal");
    assert_eq!((err.line, err.column), (1, 9));
}

#[test]
fn rejects_unsupported_escape() {
    let err = Lexer::new("\"a\\tb\"").tokenize().expect_err("must fail");
    assert_eq!(err.message, "unsupported escape `\\t`");
    assert_eq!((err.line, err.column), (1, 4));
}

#[test]
fn identifiers_take_underscores_and_digits() {
    assert_eq!(
        kinds("_a1 b_2"),
        vec![
            TokenKind::Identifier("_a1".to_string()),
            TokenKind::Identifier("b_2".to_string()),
            TokenKind::Eof,
        ]
    );
}

#[test]
fn whitespace_test_agrees_with_std_on_every_char() {
    for c in (0u32..=0x10FFFF).filter_map(char::from_u32) {
        assert_eq!(dokusy::text::char_is_whitespace(c), c.is_whitespace(), "{:?}", c);
    }
}

#[test]
fn escaped_string_literal_reads_back() {
    let s = "tab\there \\ \"quoted\"\nnext é/";
    let mut q = String::from("\"");
    for c in s.chars() {
        match c {
            '\\' => q.push_str("\\\\"),
            '"' => q.push_str("\\\""),
            '\n' => q.push_str("\\n"),
            other => q.push(other),
        }
    }
    q.push('"');
    let tokens = Lexer::new(&q).tokenize().expect("lex failed");
    assert_eq!(
        tokens,
        vec![
            Token { kind: TokenKind::StringLiteral(s.to_string()), line: 1, column: 1 },
            Token { kind: TokenKind::Eof, line: 1, column: q.chars().count() + 1 },
        ]
    );
}

#[test]
fn trailing_line_comment_adds_no_token() {
    let src = "fn main() -> i64 { return \"a//b\"; } // done";
    let ts = Lexer::new(src).tokenize().expect("lex failed");
    let src2 = format!("{}\n// more: {{ \"x\" }}", src);
    let ts2 = Lexer::new(&src2).tokenize().expect("lex failed");
    assert_eq!(ts2.len(), ts.len());
    assert_eq!(ts2[..ts.len() - 1], ts[..ts.len() - 1]);
    assert_eq!(ts2.last().map(|t| t.kind.clone()), Some(TokenKind::Eof));
    assert_eq!(ts2.last().map(|t| t.line), Some(2));
}
