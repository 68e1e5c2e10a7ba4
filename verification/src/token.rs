//! Tokens produced by the lexer.

use vstd::prelude::*;

use crate::span::Span;
use crate::typeck::{FloatKind, IntKind};

verus! {

/// A lexed token: kind and source span.
#[derive(Debug, Clone, PartialEq)]
pub struct Token {
    /// Lexical kind.
    pub kind: TokenKind,
    /// Source span the token covers.
    pub span: Span,
}

/// All token kinds the lexer produces.
#[derive(Debug, Clone, PartialEq)]
pub enum TokenKind {
    /// Integer literal with its optional kind suffix (`5u8`, `5_i64`).
    Int(i64, Option<IntKind>),
    /// Float literal `digits.digits` with its optional `f32` / `f64`
    /// suffix. The literal is kept as its decimal text; turning it into a
    /// machine float is left to the consumer.
    Float(String, Option<FloatKind>),
    /// `true` or `false`.
    Bool(bool),
    /// Identifier (non-keyword).
    Ident(String),
    /// String literal, escapes resolved.
    Str(String),
    /// `let`
    Let,
    /// `mut`
    Mut,
    /// `fn`
    Fn,
    /// `if`
    If,
    /// `else`
    Else,
    /// `return`
    Return,
    /// `struct`
    Struct,
    /// `impl`
    Impl,
    /// `self`
    SelfKw,
    /// `+`
    Plus,
    /// `-`
    Minus,
    /// `*`
    Star,
    /// `/`
    Slash,
    /// `%`
    Percent,
    /// `=`
    Eq,
    /// `==`
    EqEq,
    /// `!=`
    BangEq,
    /// `<`
    Lt,
    /// `<=`
    Le,
    /// `>`
    Gt,
    /// `>=`
    Ge,
    /// `&&`
    AndAnd,
    /// `||`
    OrOr,
    /// `!`
    Bang,
    /// `->`
    Arrow,
    /// `&`
    Amp,
    /// `&mut` (no whitespace between `&` and `mut`)
    AmpMut,
    /// `(`
    LParen,
    /// `)`
    RParen,
    /// `{`
    LBrace,
    /// `}`
    RBrace,
    /// `[`
    LBracket,
    /// `]`
    RBracket,
    /// `,`
    Comma,
    /// `;`
    Semi,
    /// `:`
    Colon,
    /// `::`
    ColonColon,
    /// `.`
    Dot,
    /// `..`
    DotDot,
    /// End of input.
    Eof,
}

/// A token kind as the specification sees it: text payloads by their
/// characters, every other kind as itself.
pub enum SpecTok {
    /// A kind without text payload.
    Fixed(TokenKind),
    /// Float literal text and suffix.
    Float(Seq<char>, Option<FloatKind>),
    /// Identifier.
    Ident(Seq<char>),
    /// String literal contents.
    Str(Seq<char>),
}

/// Whether a token kind is the one the specification describes.
pub open spec fn tok_is(k: TokenKind, d: SpecTok) -> bool {
    match d {
        SpecTok::Fixed(f) => k == f && !(f is Float) && !(f is Ident) && !(f is Str),
        SpecTok::Float(text, suffix) => k matches TokenKind::Float(t, s) && t@ == text && s
            == suffix,
        SpecTok::Ident(name) => k matches TokenKind::Ident(n) && n@ == name,
        SpecTok::Str(text) => k matches TokenKind::Str(t) && t@ == text,
    }
}

impl TokenKind {
    /// Human-readable name for error messages.
    pub open spec fn spec_describe(self) -> Seq<char> {
        match self {
            TokenKind::Int(_, _) => "integer literal"@,
            TokenKind::Float(_, _) => "float literal"@,
            TokenKind::Bool(_) => "boolean literal"@,
            TokenKind::Ident(_) => "identifier"@,
            TokenKind::Str(_) => "string literal"@,
            TokenKind::Let => "`let`"@,
            TokenKind::Mut => "`mut`"@,
            TokenKind::Fn => "`fn`"@,
            TokenKind::If => "`if`"@,
            TokenKind::Else => "`else`"@,
            TokenKind::Return => "`return`"@,
            TokenKind::Struct => "`struct`"@,
            TokenKind::Impl => "`impl`"@,
            TokenKind::SelfKw => "`self`"@,
            TokenKind::Plus => "`+`"@,
            TokenKind::Minus => "`-`"@,
            TokenKind::Star => "`*`"@,
            TokenKind::Slash => "`/`"@,
            TokenKind::Percent => "`%`"@,
            TokenKind::Eq => "`=`"@,
            TokenKind::EqEq => "`==`"@,
            TokenKind::BangEq => "`!=`"@,
            TokenKind::Lt => "`<`"@,
            TokenKind::Le => "`<=`"@,
            TokenKind::Gt => "`>`"@,
            TokenKind::Ge => "`>=`"@,
            TokenKind::AndAnd => "`&&`"@,
            TokenKind::OrOr => "`||`"@,
            TokenKind::Bang => "`!`"@,
            TokenKind::Arrow => "`->`"@,
            TokenKind::Amp => "`&`"@,
            TokenKind::AmpMut => "`&mut`"@,
            TokenKind::LParen => "`(`"@,
            TokenKind::RParen => "`)`"@,
            TokenKind::LBrace => "`{`"@,
            TokenKind::RBrace => "`}`"@,
            TokenKind::LBracket => "`[`"@,
            TokenKind::RBracket => "`]`"@,
            TokenKind::Comma => "`,`"@,
            TokenKind::Semi => "`;`"@,
            TokenKind::Colon => "`:`"@,
            TokenKind::ColonColon => "`::`"@,
            TokenKind::Dot => "`.`"@,
            TokenKind::DotDot => "`..`"@,
            TokenKind::Eof => "end of input"@,
        }
    }

    /// Human-readable name suitable for error messages (e.g. "`;`",
    /// "identifier").
    pub fn describe(&self) -> (s: &'static str)
        ensures
            s@ == self.spec_describe(),
    {
        match self {
            TokenKind::Int(_, _) => "integer literal",
            TokenKind::Float(_, _) => "float literal",
            TokenKind::Bool(_) => "boolean literal",
            TokenKind::Ident(_) => "identifier",
            TokenKind::Str(_) => "string literal",
            TokenKind::Let => "`let`",
            TokenKind::Mut => "`mut`",
            TokenKind::Fn => "`fn`",
            TokenKind::If => "`if`",
            TokenKind::Else => "`else`",
            TokenKind::Return => "`return`",
            TokenKind::Struct => "`struct`",
            TokenKind::Impl => "`impl`",
            TokenKind::SelfKw => "`self`",
            TokenKind::Plus => "`+`",
            TokenKind::Minus => "`-`",
            TokenKind::Star => "`*`",
            TokenKind::Slash => "`/`",
            TokenKind::Percent => "`%`",
            TokenKind::Eq => "`=`",
            TokenKind::EqEq => "`==`",
            TokenKind::BangEq => "`!=`",
            TokenKind::Lt => "`<`",
            TokenKind::Le => "`<=`",
            TokenKind::Gt => "`>`",
            TokenKind::Ge => "`>=`",
            TokenKind::AndAnd => "`&&`",
            TokenKind::OrOr => "`||`",
            TokenKind::Bang => "`!`",
            TokenKind::Arrow => "`->`",
            TokenKind::Amp => "`&`",
            TokenKind::AmpMut => "`&mut`",
            TokenKind::LParen => "`(`",
            TokenKind::RParen => "`)`",
            TokenKind::LBrace => "`{`",
            TokenKind::RBrace => "`}`",
            TokenKind::LBracket => "`[`",
            TokenKind::RBracket => "`]`",
            TokenKind::Comma => "`,`",
            TokenKind::Semi => "`;`",
            TokenKind::Colon => "`:`",
            TokenKind::ColonColon => "`::`",
            TokenKind::Dot => "`.`",
            TokenKind::DotDot => "`..`",
            TokenKind::Eof => "end of input",
        }
    }
}


/// A number per token kind, ignoring payloads: two kinds share a tag iff
/// they are the same variant.
pub open spec fn tag(k: TokenKind) -> int {
    match k {
        TokenKind::Int(_, _) => 0,
        TokenKind::Float(_, _) => 1,
        TokenKind::Bool(_) => 2,
        TokenKind::Ident(_) => 3,
        TokenKind::Str(_) => 4,
        TokenKind::Let => 5,
        TokenKind::Mut => 6,
        TokenKind::Fn => 7,
        TokenKind::If => 8,
        TokenKind::Else => 9,
        TokenKind::Return => 10,
        TokenKind::Struct => 11,
        TokenKind::Impl => 12,
        TokenKind::SelfKw => 13,
        TokenKind::Plus => 14,
        TokenKind::Minus => 15,
        TokenKind::Star => 16,
        TokenKind::Slash => 17,
        TokenKind::Percent => 18,
        TokenKind::Eq => 19,
        TokenKind::EqEq => 20,
        TokenKind::BangEq => 21,
        TokenKind::Lt => 22,
        TokenKind::Le => 23,
        TokenKind::Gt => 24,
        TokenKind::Ge => 25,
        TokenKind::AndAnd => 26,
        TokenKind::OrOr => 27,
        TokenKind::Bang => 28,
        TokenKind::Arrow => 29,
        TokenKind::Amp => 30,
        TokenKind::AmpMut => 31,
        TokenKind::LParen => 32,
        TokenKind::RParen => 33,
        TokenKind::LBrace => 34,
        TokenKind::RBrace => 35,
        TokenKind::LBracket => 36,
        TokenKind::RBracket => 37,
        TokenKind::Comma => 38,
        TokenKind::Semi => 39,
        TokenKind::Colon => 40,
        TokenKind::ColonColon => 41,
        TokenKind::Dot => 42,
        TokenKind::DotDot => 43,
        TokenKind::Eof => 44,
    }
}

/// Whether two token kinds are the same variant.
pub fn same_variant(a: &TokenKind, b: &TokenKind) -> (r: bool)
    ensures
        r == (tag(*a) == tag(*b)),
{
    kind_tag(a) == kind_tag(b)
}

fn kind_tag(k: &TokenKind) -> (r: u8)
    ensures
        r == tag(*k),
{
    match k {
        TokenKind::Int(_, _) => 0,
        TokenKind::Float(_, _) => 1,
        TokenKind::Bool(_) => 2,
        TokenKind::Ident(_) => 3,
        TokenKind::Str(_) => 4,
        TokenKind::Let => 5,
        TokenKind::Mut => 6,
        TokenKind::Fn => 7,
        TokenKind::If => 8,
        TokenKind::Else => 9,
        TokenKind::Return => 10,
        TokenKind::Struct => 11,
        TokenKind::Impl => 12,
        TokenKind::SelfKw => 13,
        TokenKind::Plus => 14,
        TokenKind::Minus => 15,
        TokenKind::Star => 16,
        TokenKind::Slash => 17,
        TokenKind::Percent => 18,
        TokenKind::Eq => 19,
        TokenKind::EqEq => 20,
        TokenKind::BangEq => 21,
        TokenKind::Lt => 22,
        TokenKind::Le => 23,
        TokenKind::Gt => 24,
        TokenKind::Ge => 25,
        TokenKind::AndAnd => 26,
        TokenKind::OrOr => 27,
        TokenKind::Bang => 28,
        TokenKind::Arrow => 29,
        TokenKind::Amp => 30,
        TokenKind::AmpMut => 31,
        TokenKind::LParen => 32,
        TokenKind::RParen => 33,
        TokenKind::LBrace => 34,
        TokenKind::RBrace => 35,
        TokenKind::LBracket => 36,
        TokenKind::RBracket => 37,
        TokenKind::Comma => 38,
        TokenKind::Semi => 39,
        TokenKind::Colon => 40,
        TokenKind::ColonColon => 41,
        TokenKind::Dot => 42,
        TokenKind::DotDot => 43,
        TokenKind::Eof => 44,
    }
}

} // verus!
