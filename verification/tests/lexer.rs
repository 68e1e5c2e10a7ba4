use rustviz::lexer::lex;
use rustviz::span::{FileId, SourceMap, Span};
use rustviz::token::TokenKind;
use rustviz::typeck::{FloatKind, IntKind};

fn kinds(src: &str) -> Vec<TokenKind> {
    let mut sm = SourceMap::new();
    let f = sm.add("t.rs".to_owned(), src.to_owned());
    lex(f, &sm).unwrap().into_iter().map(|t| t.kind).collect()
}

fn err(src: &str) -> (String, u32, u32) {
    let mut sm = SourceMap::new();
    let f = sm.add("t.rs".to_owned(), src.to_owned());
    let e = lex(f, &sm).unwrap_err();
    (e.message, e.span.start, e.span.end)
}

#[test]
fn lexes_a_let_statement() {
    let mut sm = SourceMap::new();
    let f = sm.add("t.rs".to_owned(), "let x = 5;".to_owned());
    let toks = lex(f, &sm).unwrap();
    let k: Vec<TokenKind> = toks.iter().map(|t| t.kind.clone()).collect();
    assert_eq!(
        k,
        vec![
            TokenKind::Let,
            TokenKind::Ident("x".to_owned()),
            TokenKind::Eq,
            TokenKind::Int(5, None),
            TokenKind::Semi,
            TokenKind::Eof
        ]
    );
    assert_eq!(toks[1].span, Span::new(4, 5, f));
    assert_eq!(toks[5].span, Span::new(10, 10, f));
}

#[test]
fn numeric_suffixes() {
    assert_eq!(kinds("5u8")[0], TokenKind::Int(5, Some(IntKind::U8)));
    assert_eq!(kinds("5_i64")[0], TokenKind::Int(5, Some(IntKind::I64)));
    assert_eq!(kinds("2.5f32")[0], TokenKind::Float("2.5".to_owned(), Some(FloatKind::F32)));
    assert_eq!(kinds("2.5")[0], TokenKind::Float("2.5".to_owned(), None));
    assert_eq!(kinds("007")[0], TokenKind::Int(7, None));
    assert_eq!(kinds("9223372036854775807")[0], TokenKind::Int(i64::MAX, None));
}

#[test]
fn numeric_errors() {
    assert_eq!(err("5u7"), ("invalid suffix `u7` after numeric literal".to_owned(), 1, 3));
    assert_eq!(err("2.5u8"), ("integer-type suffix `u8` on a float literal".to_owned(), 3, 5));
    assert_eq!(err("5f64"), ("float-type suffix `f64` on an integer literal".to_owned(), 1, 4));
    assert_eq!(err("5u8_"), ("invalid suffix after numeric literal".to_owned(), 3, 4));
    assert_eq!(
        err("9223372036854775808"),
        ("integer literal `9223372036854775808` does not fit in i64".to_owned(), 0, 19)
    );
}

#[test]
fn range_and_method_dots() {
    assert_eq!(
        kinds("1..3"),
        vec![TokenKind::Int(1, None), TokenKind::DotDot, TokenKind::Int(3, None), TokenKind::Eof]
    );
    assert_eq!(
        kinds("v.len()"),
        vec![
            TokenKind::Ident("v".to_owned()),
            TokenKind::Dot,
            TokenKind::Ident("len".to_owned()),
            TokenKind::LParen,
            TokenKind::RParen,
            TokenKind::Eof
        ]
    );
}

#[test]
fn keywords_and_booleans() {
    assert_eq!(
        kinds("fn if else return true false struct impl self mut lettuce"),
        vec![
            TokenKind::Fn,
            TokenKind::If,
            TokenKind::Else,
            TokenKind::Return,
            TokenKind::Bool(true),
            TokenKind::Bool(false),
            TokenKind::Struct,
            TokenKind::Impl,
            TokenKind::SelfKw,
            TokenKind::Mut,
            TokenKind::Ident("lettuce".to_owned()),
            TokenKind::Eof
        ]
    );
}

#[test]
fn ampersands() {
    assert_eq!(
        kinds("&mut x &x &mutable && &"),
        vec![
            TokenKind::AmpMut,
            TokenKind::Ident("x".to_owned()),
            TokenKind::Amp,
            TokenKind::Ident("x".to_owned()),
            TokenKind::Amp,
            TokenKind::Ident("mutable".to_owned()),
            TokenKind::AndAnd,
            TokenKind::Amp,
            TokenKind::Eof
        ]
    );
}

#[test]
fn operators_longest_match() {
    assert_eq!(
        kinds("== != <= >= -> :: || = ! < > - :"),
        vec![
            TokenKind::EqEq,
            TokenKind::BangEq,
            TokenKind::Le,
            TokenKind::Ge,
            TokenKind::Arrow,
            TokenKind::ColonColon,
            TokenKind::OrOr,
            TokenKind::Eq,
            TokenKind::Bang,
            TokenKind::Lt,
            TokenKind::Gt,
            TokenKind::Minus,
            TokenKind::Colon,
            TokenKind::Eof
        ]
    );
}

#[test]
fn comments_are_skipped() {
    assert_eq!(
        kinds("a // comment ; ;\nb"),
        vec![TokenKind::Ident("a".to_owned()), TokenKind::Ident("b".to_owned()), TokenKind::Eof]
    );
    assert_eq!(kinds("// only"), vec![TokenKind::Eof]);
}

#[test]
fn string_literals() {
    assert_eq!(kinds("\"hi\"")[0], TokenKind::Str("hi".to_owned()));
    assert_eq!(kinds("\"a\\nb\\t\\\\\\\"\"")[0], TokenKind::Str("a\nb\t\\\"".to_owned()));
    assert_eq!(kinds("\"héllo\"")[0], TokenKind::Str("héllo".to_owned()));
    assert_eq!(err("\"abc"), ("unterminated string literal".to_owned(), 0, 4));
    assert_eq!(err("\"ab\\"), ("unterminated string literal".to_owned(), 0, 4));
    assert_eq!(err("\"a\\qb\""), ("invalid escape sequence `\\q`".to_owned(), 2, 4));
}

#[test]
fn unexpected_characters() {
    assert_eq!(err("a # b"), ("unexpected character `#`".to_owned(), 2, 3));
    assert_eq!(err("|x"), ("unexpected character `|`".to_owned(), 0, 1));
    assert_eq!(err("é"), ("unexpected character `\\xc3`".to_owned(), 0, 2));
}

#[test]
fn missing_file() {
    let sm = SourceMap::new();
    let e = lex(FileId(4), &sm).unwrap_err();
    assert_eq!(e.message, "file id 4 not found in source map");
    assert_eq!(e.span, Span::point(0, FileId(4)));
}

#[test]
fn describe_names_tokens() {
    assert_eq!(TokenKind::Semi.describe(), "`;`");
    assert_eq!(TokenKind::Ident("x".to_owned()).describe(), "identifier");
    assert_eq!(TokenKind::Eof.describe(), "end of input");
    assert_eq!(TokenKind::Int(1, None).describe(), "integer literal");
}

#[test]
fn token_spans_are_nonempty_and_in_order() {
    let src = "fn add(a: i32) -> i32 { a + 1 } // done\nstruct P { x: u8 }";
    let mut sm = SourceMap::new();
    let f = sm.add("t.rs".to_owned(), src.to_owned());
    let toks = lex(f, &sm).unwrap();
    let (last, rest) = toks.split_last().unwrap();
    assert_eq!(last.kind, TokenKind::Eof);
    assert_eq!(last.span, Span::new(src.len() as u32, src.len() as u32, f));
    for t in rest {
        assert!(t.span.start < t.span.end);
        assert!(t.span.end as usize <= src.len());
    }
    for w in rest.windows(2) {
        assert!(w[0].span.end <= w[1].span.start);
    }
}
