//! The lexer: turns the bytes of a registered source file into tokens.
//!
//! The token grammar is stated here as specification functions over the
//! source bytes (maximal munch from the current position), and the
//! executable lexer is proved to produce exactly the tokens, spans and
//! errors the specification describes.

use vstd::prelude::*;
use vstd::string::*;
use vstd::utf8::{decode_utf8, valid_utf8};

use crate::error::ParseError;
use crate::span::{text_bytes, FileId, SourceMap, Span};
use crate::text::{
    all_ascii, ascii_chars, ascii_substring, concat_str, decimal, decimal_string, utf8_string,
};
use crate::token::{tok_is, SpecTok, Token, TokenKind};
use crate::typeck::{FloatKind, IntKind};

verus! {

// ─── Byte classes ──────────────────────────────────────────────────────────

/// `0-9`
pub open spec fn is_digit(b: u8) -> bool {
    0x30 <= b <= 0x39
}

/// `A-Z` or `a-z`
pub open spec fn is_alpha(b: u8) -> bool {
    (0x41 <= b <= 0x5a) || (0x61 <= b <= 0x7a)
}

/// ASCII letter or digit.
pub open spec fn is_alnum(b: u8) -> bool {
    is_digit(b) || is_alpha(b)
}

/// ASCII letter, digit or `_`.
pub open spec fn is_ident_char(b: u8) -> bool {
    is_alnum(b) || b == 0x5f
}

/// Space, tab, newline or carriage return.
pub open spec fn is_space(b: u8) -> bool {
    b == 0x20 || b == 0x09 || b == 0x0a || b == 0x0d
}

// ─── Scanners (maximal runs) ───────────────────────────────────────────────

/// End of the run of digits starting at `p`.
pub open spec fn digits_end(s: Seq<u8>, p: int) -> int
    decreases s.len() - p,
{
    if 0 <= p < s.len() && is_digit(s[p]) {
        digits_end(s, p + 1)
    } else {
        p
    }
}

/// End of the run of ASCII letters and digits starting at `p`.
pub open spec fn alnum_end(s: Seq<u8>, p: int) -> int
    decreases s.len() - p,
{
    if 0 <= p < s.len() && is_alnum(s[p]) {
        alnum_end(s, p + 1)
    } else {
        p
    }
}

/// End of the run of identifier characters starting at `p`.
pub open spec fn ident_end(s: Seq<u8>, p: int) -> int
    decreases s.len() - p,
{
    if 0 <= p < s.len() && is_ident_char(s[p]) {
        ident_end(s, p + 1)
    } else {
        p
    }
}

/// Position of the first newline at or after `p`, or the end of input.
pub open spec fn line_end(s: Seq<u8>, p: int) -> int
    decreases s.len() - p,
{
    if 0 <= p < s.len() && s[p] != 0x0a {
        line_end(s, p + 1)
    } else {
        p
    }
}

/// Value of a run of decimal digits (leading zeros allowed).
pub open spec fn digits_value(d: Seq<u8>) -> nat
    decreases d.len(),
{
    if d.len() == 0 {
        0
    } else {
        digits_value(d.drop_last()) * 10 + (d.last() - 0x30) as nat
    }
}

// ─── Words ─────────────────────────────────────────────────────────────────

/// The integer kind a literal suffix names (`i8` ... `usize`), if any.
pub open spec fn int_suffix(w: Seq<u8>) -> Option<IntKind> {
    if w == seq![0x69u8, 0x38] {
        Some(IntKind::I8)  // i8

    } else if w == seq![0x69u8, 0x31, 0x36] {
        Some(IntKind::I16)  // i16

    } else if w == seq![0x69u8, 0x33, 0x32] {
        Some(IntKind::I32)  // i32

    } else if w == seq![0x69u8, 0x36, 0x34] {
        Some(IntKind::I64)  // i64

    } else if w == seq![0x69u8, 0x31, 0x32, 0x38] {
        Some(IntKind::I128)  // i128

    } else if w == seq![0x75u8, 0x38] {
        Some(IntKind::U8)  // u8

    } else if w == seq![0x75u8, 0x31, 0x36] {
        Some(IntKind::U16)  // u16

    } else if w == seq![0x75u8, 0x33, 0x32] {
        Some(IntKind::U32)  // u32

    } else if w == seq![0x75u8, 0x36, 0x34] {
        Some(IntKind::U64)  // u64

    } else if w == seq![0x75u8, 0x31, 0x32, 0x38] {
        Some(IntKind::U128)  // u128

    } else if w == seq![0x69u8, 0x73, 0x69, 0x7a, 0x65] {
        Some(IntKind::ISize)  // isize

    } else if w == seq![0x75u8, 0x73, 0x69, 0x7a, 0x65] {
        Some(IntKind::USize)  // usize

    } else {
        None
    }
}

/// The float kind a literal suffix names (`f32`, `f64`), if any.
pub open spec fn float_suffix(w: Seq<u8>) -> Option<FloatKind> {
    if w == seq![0x66u8, 0x33, 0x32] {
        Some(FloatKind::F32)
    } else if w == seq![0x66u8, 0x36, 0x34] {
        Some(FloatKind::F64)
    } else {
        None
    }
}

/// The token a reserved word stands for, if the word is reserved.
pub open spec fn keyword(w: Seq<u8>) -> Option<TokenKind> {
    if w == seq![0x6cu8, 0x65, 0x74] {
        Some(TokenKind::Let)  // let

    } else if w == seq![0x6du8, 0x75, 0x74] {
        Some(TokenKind::Mut)  // mut

    } else if w == seq![0x66u8, 0x6e] {
        Some(TokenKind::Fn)  // fn

    } else if w == seq![0x69u8, 0x66] {
        Some(TokenKind::If)  // if

    } else if w == seq![0x65u8, 0x6c, 0x73, 0x65] {
        Some(TokenKind::Else)  // else

    } else if w == seq![0x72u8, 0x65, 0x74, 0x75, 0x72, 0x6e] {
        Some(TokenKind::Return)  // return

    } else if w == seq![0x74u8, 0x72, 0x75, 0x65] {
        Some(TokenKind::Bool(true))  // true

    } else if w == seq![0x66u8, 0x61, 0x6c, 0x73, 0x65] {
        Some(TokenKind::Bool(false))  // false

    } else if w == seq![0x73u8, 0x74, 0x72, 0x75, 0x63, 0x74] {
        Some(TokenKind::Struct)  // struct

    } else if w == seq![0x69u8, 0x6d, 0x70, 0x6c] {
        Some(TokenKind::Impl)  // impl

    } else if w == seq![0x73u8, 0x65, 0x6c, 0x66] {
        Some(TokenKind::SelfKw)  // self

    } else {
        None
    }
}

// ─── One lexing step ───────────────────────────────────────────────────────

/// What the lexer does at one position: skip input, emit a token ending at
/// the given position, or fail with a message and span.
pub enum Step {
    /// Skip to the position.
    Skip(int),
    /// Emit a token that ends at the position.
    Emit(SpecTok, int),
    /// Fail with a message and a byte range.
    Fail(Seq<char>, int, int),
}

/// `&mut` with no whitespace, where `mut` is a whole word.
pub open spec fn amp_mut_at(s: Seq<u8>, pos: int) -> bool {
    &&& pos + 3 < s.len()
    &&& s[pos + 1] == 0x6d && s[pos + 2] == 0x75 && s[pos + 3] == 0x74
    &&& (pos + 4 >= s.len() || !is_ident_char(s[pos + 4]))
}

/// Operator or punctuation at `pos` with its width, longest match first.
pub open spec fn punct(s: Seq<u8>, pos: int) -> Option<(TokenKind, int)> {
    let b = s[pos];
    let two = pos + 1 < s.len();
    let nx = s[pos + 1];
    if b == 0x3d && two && nx == 0x3d {
        Some((TokenKind::EqEq, 2))
    } else if b == 0x21 && two && nx == 0x3d {
        Some((TokenKind::BangEq, 2))
    } else if b == 0x3c && two && nx == 0x3d {
        Some((TokenKind::Le, 2))
    } else if b == 0x3e && two && nx == 0x3d {
        Some((TokenKind::Ge, 2))
    } else if b == 0x26 && two && nx == 0x26 {
        Some((TokenKind::AndAnd, 2))
    } else if b == 0x26 {
        if amp_mut_at(s, pos) {
            Some((TokenKind::AmpMut, 4))
        } else {
            Some((TokenKind::Amp, 1))
        }
    } else if b == 0x7c && two && nx == 0x7c {
        Some((TokenKind::OrOr, 2))
    } else if b == 0x2d && two && nx == 0x3e {
        Some((TokenKind::Arrow, 2))
    } else if b == 0x2b {
        Some((TokenKind::Plus, 1))
    } else if b == 0x2d {
        Some((TokenKind::Minus, 1))
    } else if b == 0x2a {
        Some((TokenKind::Star, 1))
    } else if b == 0x2f {
        Some((TokenKind::Slash, 1))
    } else if b == 0x25 {
        Some((TokenKind::Percent, 1))
    } else if b == 0x3d {
        Some((TokenKind::Eq, 1))
    } else if b == 0x21 {
        Some((TokenKind::Bang, 1))
    } else if b == 0x3c {
        Some((TokenKind::Lt, 1))
    } else if b == 0x3e {
        Some((TokenKind::Gt, 1))
    } else if b == 0x28 {
        Some((TokenKind::LParen, 1))
    } else if b == 0x29 {
        Some((TokenKind::RParen, 1))
    } else if b == 0x7b {
        Some((TokenKind::LBrace, 1))
    } else if b == 0x7d {
        Some((TokenKind::RBrace, 1))
    } else if b == 0x2c {
        Some((TokenKind::Comma, 1))
    } else if b == 0x3b {
        Some((TokenKind::Semi, 1))
    } else if b == 0x3a && two && nx == 0x3a {
        Some((TokenKind::ColonColon, 2))
    } else if b == 0x3a {
        Some((TokenKind::Colon, 1))
    } else if b == 0x2e && two && nx == 0x2e {
        Some((TokenKind::DotDot, 2))
    } else if b == 0x2e {
        Some((TokenKind::Dot, 1))
    } else if b == 0x5b {
        Some((TokenKind::LBracket, 1))
    } else if b == 0x5d {
        Some((TokenKind::RBracket, 1))
    } else {
        None
    }
}

/// Lowercase hexadecimal digit byte for `0 <= d < 16`.
pub open spec fn hex_byte(d: u8) -> u8 {
    if d < 10 {
        (d + 0x30) as u8
    } else {
        (d - 10 + 0x61) as u8
    }
}

/// How an unexpected byte is shown: itself when printable ASCII or space,
/// otherwise as `\xNN` in lowercase hexadecimal.
pub open spec fn shown_byte(b: u8) -> Seq<char> {
    if (0x21 <= b <= 0x7e) || b == 0x20 {
        seq![b as char]
    } else {
        ascii_chars(seq![0x5cu8, 0x78u8, hex_byte(b / 16), hex_byte(b % 16)])
    }
}

/// Index just after the UTF-8 character whose leading byte is at `i`,
/// capped at the end of input. A stray continuation byte counts as one.
pub open spec fn next_boundary(s: Seq<u8>, i: int) -> int {
    let b = s[i];
    let w: int = if b < 0x80 {
        1
    } else if b < 0xc0 {
        1
    } else if b < 0xe0 {
        2
    } else if b < 0xf0 {
        3
    } else {
        4
    };
    if i + w <= s.len() {
        i + w
    } else {
        s.len() as int
    }
}

/// The byte an escape letter stands for (`\n`, `\t`, `\\`, `\"`).
pub open spec fn escape_byte(e: u8) -> Option<u8> {
    if e == 0x6e {
        Some(0x0au8)
    } else if e == 0x74 {
        Some(0x09u8)
    } else if e == 0x5c {
        Some(0x5cu8)
    } else if e == 0x22 {
        Some(0x22u8)
    } else {
        None
    }
}

/// Scanning the inside of a string literal that opened at `start`: either
/// the decoded bytes and the position after the closing quote, or an error.
pub enum StrScan {
    /// Contents and end position.
    Done(Seq<u8>, int),
    /// Error message and byte range.
    Fail(Seq<char>, int, int),
}

/// Scan string-literal contents from `p`, having collected `acc`.
pub open spec fn scan_str(s: Seq<u8>, start: int, p: int, acc: Seq<u8>) -> StrScan
    decreases s.len() - p,
{
    if p < 0 || p >= s.len() {
        StrScan::Fail("unterminated string literal"@, start, p)
    } else if s[p] == 0x22 {
        StrScan::Done(acc, p + 1)
    } else if s[p] == 0x5c {
        if p + 1 >= s.len() {
            StrScan::Fail("unterminated string literal"@, start, p + 1)
        } else {
            match escape_byte(s[p + 1]) {
                Some(r) => scan_str(s, start, p + 2, acc.push(r)),
                None => StrScan::Fail(
                    "invalid escape sequence `\\"@ + seq![s[p + 1] as char] + "`"@,
                    p,
                    p + 2,
                ),
            }
        }
    } else {
        scan_str(s, start, p + 1, acc.push(s[p]))
    }
}

/// A string literal opening at `start`.
pub open spec fn string_step(s: Seq<u8>, start: int) -> Step {
    match scan_str(s, start, start + 1, Seq::empty()) {
        StrScan::Done(bytes, end) => if valid_utf8(bytes) {
            Step::Emit(SpecTok::Str(decode_utf8(bytes)), end)
        } else {
            Step::Fail("string literal contains invalid UTF-8"@, start, end)
        },
        StrScan::Fail(m, a, b) => Step::Fail(m, a, b),
    }
}

/// A numeric literal starting at `start`: digits, optionally `.digits`,
/// then an optional `_`, then an optional type suffix.
pub open spec fn number_step(s: Seq<u8>, start: int) -> Step {
    let d_end = digits_end(s, start);
    let is_float = d_end + 1 < s.len() && s[d_end] == 0x2e && is_digit(s[d_end + 1]);
    let body_end = if is_float {
        digits_end(s, d_end + 1)
    } else {
        d_end
    };
    let alpha_start = if body_end < s.len() && s[body_end] == 0x5f {
        body_end + 1
    } else {
        body_end
    };
    let suf_end = alnum_end(s, alpha_start);
    let suffix = s.subrange(alpha_start, suf_end);
    let sfx = ascii_chars(suffix);
    let ik = int_suffix(suffix);
    let fk = float_suffix(suffix);
    let body = s.subrange(start, body_end);
    if suffix.len() > 0 && ik is None && fk is None {
        Step::Fail("invalid suffix `"@ + sfx + "` after numeric literal"@, body_end, suf_end)
    } else if is_float && ik is Some {
        Step::Fail("integer-type suffix `"@ + sfx + "` on a float literal"@, body_end, suf_end)
    } else if !is_float && fk is Some {
        Step::Fail("float-type suffix `"@ + sfx + "` on an integer literal"@, body_end, suf_end)
    } else if suf_end < s.len() && (is_alpha(s[suf_end]) || s[suf_end] == 0x5f) {
        Step::Fail("invalid suffix after numeric literal"@, suf_end, suf_end + 1)
    } else if is_float {
        Step::Emit(SpecTok::Float(ascii_chars(body), fk), suf_end)
    } else if digits_value(body) > i64::MAX {
        Step::Fail(
            "integer literal `"@ + ascii_chars(body) + "` does not fit in i64"@,
            start,
            body_end,
        )
    } else {
        Step::Emit(SpecTok::Fixed(TokenKind::Int(digits_value(body) as i64, ik)), suf_end)
    }
}

/// An identifier or reserved word starting at `start`.
pub open spec fn word_step(s: Seq<u8>, start: int) -> Step {
    let end = ident_end(s, start);
    let w = s.subrange(start, end);
    match keyword(w) {
        Some(k) => Step::Emit(SpecTok::Fixed(k), end),
        None => Step::Emit(SpecTok::Ident(ascii_chars(w)), end),
    }
}

/// The lexer's action at position `pos` (inside the input).
pub open spec fn lex_step(s: Seq<u8>, pos: int) -> Step {
    let b = s[pos];
    if is_space(b) {
        Step::Skip(pos + 1)
    } else if b == 0x2f && pos + 1 < s.len() && s[pos + 1] == 0x2f {
        Step::Skip(line_end(s, pos + 2))
    } else if is_digit(b) {
        number_step(s, pos)
    } else if b == 0x22 {
        string_step(s, pos)
    } else if is_alpha(b) || b == 0x5f {
        word_step(s, pos)
    } else {
        match punct(s, pos) {
            Some((k, w)) => Step::Emit(SpecTok::Fixed(k), pos + w),
            None => Step::Fail(
                "unexpected character `"@ + shown_byte(b) + "`"@,
                pos,
                next_boundary(s, pos),
            ),
        }
    }
}

/// A lexed token as the specification sees it: kind, start, end.
pub type SpecToken = (SpecTok, int, int);

/// The tokens (without the end-of-input token) of the input from `pos` on,
/// or the first error: message and byte range.
pub open spec fn lex_from(s: Seq<u8>, pos: int) -> Result<Seq<SpecToken>, (Seq<char>, int, int)>
    decreases s.len() - pos,
{
    if pos < 0 || pos >= s.len() {
        Ok(Seq::empty())
    } else {
        match lex_step(s, pos) {
            Step::Skip(p) => if pos < p <= s.len() {
                lex_from(s, p)
            } else {
                Err((Seq::empty(), pos, pos))
            },
            Step::Emit(t, p) => if pos < p <= s.len() {
                match lex_from(s, p) {
                    Ok(rest) => Ok(seq![(t, pos, p)] + rest),
                    Err(e) => Err(e),
                }
            } else {
                Err((Seq::empty(), pos, pos))
            },
            Step::Fail(m, a, b) => Err((m, a, b)),
        }
    }
}

/// Law: lexing skips whitespace. A space, tab, newline or carriage return
/// where a token may start contributes nothing: the tokens from there on
/// are those from the next byte on.
pub proof fn law_whitespace_skipped(s: Seq<u8>, pos: int)
    requires
        0 <= pos < s.len(),
        s[pos] == 0x20u8 || s[pos] == 0x09u8 || s[pos] == 0x0au8 || s[pos] == 0x0du8,
    ensures
        lex_from(s, pos) == lex_from(s, pos + 1),
{
}

/// The specified tokens from `pos` on each cover a non-empty byte range of
/// the input at or after `pos`, and they come in order without overlap.
pub open spec fn tokens_ordered(ts: Seq<SpecToken>, pos: int, len: int) -> bool {
    &&& forall|i: int| 0 <= i < ts.len() ==> pos <= (#[trigger] ts[i]).1 < ts[i].2 <= len
    &&& forall|i: int, j: int| 0 <= i < j < ts.len() ==> (#[trigger] ts[i]).2 <= (#[trigger] ts[j]).1
}

/// Lexing yields non-empty tokens in source order, within the input: each
/// token starts where or after the previous one ended.
pub proof fn law_tokens_ordered(s: Seq<u8>, pos: int)
    requires
        0 <= pos,
    ensures
        lex_from(s, pos) matches Ok(ts) ==> tokens_ordered(ts, pos, s.len() as int),
    decreases s.len() - pos,
{
    if 0 <= pos < s.len() {
        match lex_step(s, pos) {
            Step::Skip(p) => if pos < p <= s.len() {
                law_tokens_ordered(s, p);
            },
            Step::Emit(t, p) => if pos < p <= s.len() {
                law_tokens_ordered(s, p);
                if let Ok(rest) = lex_from(s, p) {
                    let ts = seq![(t, pos, p)] + rest;
                    assert forall|i: int| 0 <= i < ts.len() implies pos <= (#[trigger] ts[i]).1 < ts[i].2
                        <= s.len() by {
                        if i > 0 {
                            assert(ts[i] == rest[i - 1]);
                        }
                    }
                    assert forall|i: int, j: int| 0 <= i < j < ts.len() implies (#[trigger] ts[i]).2
                        <= (#[trigger] ts[j]).1 by {
                        assert(ts[j] == rest[j - 1]);
                        if i > 0 {
                            assert(ts[i] == rest[i - 1]);
                        }
                    }
                }
            },
            Step::Fail(_, _, _) => {},
        }
    }
}

/// `tokens` are exactly the specified tokens, located in `file`.
pub open spec fn tokens_match(tokens: Seq<Token>, ts: Seq<SpecToken>, file: FileId) -> bool {
    &&& tokens.len() == ts.len()
    &&& forall|i: int|
        0 <= i < ts.len() ==> tok_is(#[trigger] tokens[i].kind, ts[i].0) && tokens[i].span == (Span {
            start: ts[i].1 as u32,
            end: ts[i].2 as u32,
            file,
        })
}

/// The lexer's result for input `s` in `file`: the specified tokens then an
/// end-of-input token at `s.len()`, or the specified first error.
pub open spec fn lexed_as(
    r: Result<Vec<Token>, ParseError>,
    s: Seq<u8>,
    file: FileId,
) -> bool {
    match lex_from(s, 0) {
        Ok(ts) => r matches Ok(v) && v@.len() == ts.len() + 1 && tokens_match(
            v@.subrange(0, ts.len() as int),
            ts,
            file,
        ) && v@[ts.len() as int] == (Token {
            kind: TokenKind::Eof,
            span: Span { start: s.len() as u32, end: s.len() as u32, file },
        }),
        Err((m, a, b)) => r matches Err(e) && e.message@ == m && e.span == (Span {
            start: a as u32,
            end: b as u32,
            file,
        }),
    }
}


// ─── Executable lexer ──────────────────────────────────────────────────────

fn digit_byte(b: u8) -> (r: bool)
    ensures
        r == is_digit(b),
{
    0x30 <= b && b <= 0x39
}

fn alpha_byte(b: u8) -> (r: bool)
    ensures
        r == is_alpha(b),
{
    (0x41 <= b && b <= 0x5a) || (0x61 <= b && b <= 0x7a)
}

fn alnum_byte(b: u8) -> (r: bool)
    ensures
        r == is_alnum(b),
{
    digit_byte(b) || alpha_byte(b)
}

fn ident_byte(b: u8) -> (r: bool)
    ensures
        r == is_ident_char(b),
{
    alnum_byte(b) || b == 0x5f
}

fn scan_digits(src: &[u8], p: usize) -> (r: usize)
    requires
        p <= src@.len(),
    ensures
        r == digits_end(src@, p as int),
        p <= r <= src@.len(),
        forall|i: int| p <= i < r ==> is_digit(#[trigger] src@[i]),
        r < src@.len() ==> !is_digit(src@[r as int]),
{
    let mut i = p;
    while i < src.len() && digit_byte(src[i])
        invariant
            p <= i <= src@.len(),
            digits_end(src@, p as int) == digits_end(src@, i as int),
            forall|j: int| p <= j < i ==> is_digit(#[trigger] src@[j]),
        decreases src@.len() - i,
    {
        i = i + 1;
    }
    i
}

fn scan_alnum(src: &[u8], p: usize) -> (r: usize)
    requires
        p <= src@.len(),
    ensures
        r == alnum_end(src@, p as int),
        p <= r <= src@.len(),
        forall|i: int| p <= i < r ==> is_alnum(#[trigger] src@[i]),
        r < src@.len() ==> !is_alnum(src@[r as int]),
{
    let mut i = p;
    while i < src.len() && alnum_byte(src[i])
        invariant
            p <= i <= src@.len(),
            alnum_end(src@, p as int) == alnum_end(src@, i as int),
            forall|j: int| p <= j < i ==> is_alnum(#[trigger] src@[j]),
        decreases src@.len() - i,
    {
        i = i + 1;
    }
    i
}

fn scan_ident(src: &[u8], p: usize) -> (r: usize)
    requires
        p <= src@.len(),
    ensures
        r == ident_end(src@, p as int),
        p <= r <= src@.len(),
        forall|i: int| p <= i < r ==> is_ident_char(#[trigger] src@[i]),
        r < src@.len() ==> !is_ident_char(src@[r as int]),
{
    let mut i = p;
    while i < src.len() && ident_byte(src[i])
        invariant
            p <= i <= src@.len(),
            ident_end(src@, p as int) == ident_end(src@, i as int),
            forall|j: int| p <= j < i ==> is_ident_char(#[trigger] src@[j]),
        decreases src@.len() - i,
    {
        i = i + 1;
    }
    i
}

fn scan_line(src: &[u8], p: usize) -> (r: usize)
    requires
        p <= src@.len(),
    ensures
        r == line_end(src@, p as int),
        p <= r <= src@.len(),
{
    let mut i = p;
    while i < src.len() && src[i] != 0x0a
        invariant
            p <= i <= src@.len(),
            line_end(src@, p as int) == line_end(src@, i as int),
        decreases src@.len() - i,
    {
        i = i + 1;
    }
    i
}

/// Whether `src[start..end]` spells `lit`.
fn word_eq(src: &[u8], start: usize, end: usize, lit: &[u8]) -> (r: bool)
    requires
        start <= end <= src@.len(),
    ensures
        r == (src@.subrange(start as int, end as int) == lit@),
{
    if end - start != lit.len() {
        return false;
    }
    let mut i: usize = 0;
    while i < lit.len()
        invariant
            start <= end <= src@.len(),
            end - start == lit@.len(),
            i <= lit@.len(),
            forall|j: int| 0 <= j < i ==> src@[start + j] == lit@[j],
        decreases lit@.len() - i,
    {
        if src[start + i] != lit[i] {
            assert(src@.subrange(start as int, end as int)[i as int] != lit@[i as int]);
            return false;
        }
        i = i + 1;
    }
    assert(src@.subrange(start as int, end as int) =~= lit@);
    true
}

/// The integer kind named by the suffix `src[start..end]`.
fn parse_int_suffix(src: &[u8], start: usize, end: usize) -> (r: Option<IntKind>)
    requires
        start <= end <= src@.len(),
    ensures
        r == int_suffix(src@.subrange(start as int, end as int)),
{
    if word_eq(src, start, end, &[0x69, 0x38]) {
        Some(IntKind::I8)
    } else if word_eq(src, start, end, &[0x69, 0x31, 0x36]) {
        Some(IntKind::I16)
    } else if word_eq(src, start, end, &[0x69, 0x33, 0x32]) {
        Some(IntKind::I32)
    } else if word_eq(src, start, end, &[0x69, 0x36, 0x34]) {
        Some(IntKind::I64)
    } else if word_eq(src, start, end, &[0x69, 0x31, 0x32, 0x38]) {
        Some(IntKind::I128)
    } else if word_eq(src, start, end, &[0x75, 0x38]) {
        Some(IntKind::U8)
    } else if word_eq(src, start, end, &[0x75, 0x31, 0x36]) {
        Some(IntKind::U16)
    } else if word_eq(src, start, end, &[0x75, 0x33, 0x32]) {
        Some(IntKind::U32)
    } else if word_eq(src, start, end, &[0x75, 0x36, 0x34]) {
        Some(IntKind::U64)
    } else if word_eq(src, start, end, &[0x75, 0x31, 0x32, 0x38]) {
        Some(IntKind::U128)
    } else if word_eq(src, start, end, &[0x69, 0x73, 0x69, 0x7a, 0x65]) {
        Some(IntKind::ISize)
    } else if word_eq(src, start, end, &[0x75, 0x73, 0x69, 0x7a, 0x65]) {
        Some(IntKind::USize)
    } else {
        None
    }
}

/// The float kind named by the suffix `src[start..end]`.
fn parse_float_suffix(src: &[u8], start: usize, end: usize) -> (r: Option<FloatKind>)
    requires
        start <= end <= src@.len(),
    ensures
        r == float_suffix(src@.subrange(start as int, end as int)),
{
    if word_eq(src, start, end, &[0x66, 0x33, 0x32]) {
        Some(FloatKind::F32)
    } else if word_eq(src, start, end, &[0x66, 0x36, 0x34]) {
        Some(FloatKind::F64)
    } else {
        None
    }
}

/// The reserved word spelled by `src[start..end]`, if any.
fn keyword_kind(src: &[u8], start: usize, end: usize) -> (r: Option<TokenKind>)
    requires
        start <= end <= src@.len(),
    ensures
        r == keyword(src@.subrange(start as int, end as int)),
{
    if word_eq(src, start, end, &[0x6c, 0x65, 0x74]) {
        Some(TokenKind::Let)
    } else if word_eq(src, start, end, &[0x6d, 0x75, 0x74]) {
        Some(TokenKind::Mut)
    } else if word_eq(src, start, end, &[0x66, 0x6e]) {
        Some(TokenKind::Fn)
    } else if word_eq(src, start, end, &[0x69, 0x66]) {
        Some(TokenKind::If)
    } else if word_eq(src, start, end, &[0x65, 0x6c, 0x73, 0x65]) {
        Some(TokenKind::Else)
    } else if word_eq(src, start, end, &[0x72, 0x65, 0x74, 0x75, 0x72, 0x6e]) {
        Some(TokenKind::Return)
    } else if word_eq(src, start, end, &[0x74, 0x72, 0x75, 0x65]) {
        Some(TokenKind::Bool(true))
    } else if word_eq(src, start, end, &[0x66, 0x61, 0x6c, 0x73, 0x65]) {
        Some(TokenKind::Bool(false))
    } else if word_eq(src, start, end, &[0x73, 0x74, 0x72, 0x75, 0x63, 0x74]) {
        Some(TokenKind::Struct)
    } else if word_eq(src, start, end, &[0x69, 0x6d, 0x70, 0x6c]) {
        Some(TokenKind::Impl)
    } else if word_eq(src, start, end, &[0x73, 0x65, 0x6c, 0x66]) {
        Some(TokenKind::SelfKw)
    } else {
        None
    }
}


/// Outcome of one executable lexing step.
enum Lexed {
    Skip(usize),
    Emit(Token, usize),
    Fail(ParseError),
}

/// The executable step agrees with the specified one for a step at `pos`.
spec fn lexed_matches(r: Lexed, st: Step, pos: int, file: FileId) -> bool {
    match st {
        Step::Skip(p) => r matches Lexed::Skip(q) && q == p,
        Step::Emit(t, p) => r matches Lexed::Emit(tok, q) && q == p && tok_is(tok.kind, t)
            && tok.span == (Span { start: pos as u32, end: p as u32, file }),
        Step::Fail(m, a, b) => r matches Lexed::Fail(e) && e.message@ == m && e.span == (Span {
            start: a as u32,
            end: b as u32,
            file,
        }),
    }
}

/// Positions a step reports stay inside the input, and a step advances.
spec fn lexed_bounded(r: Lexed, pos: int, len: int) -> bool {
    match r {
        Lexed::Skip(q) => pos < q <= len,
        Lexed::Emit(_, q) => pos < q <= len,
        Lexed::Fail(e) => true,
    }
}

fn fail(message: String, start: usize, end: usize, file: FileId) -> (r: Lexed)
    requires
        start <= end < u32::MAX,
    ensures
        r matches Lexed::Fail(e) && e.message == message && e.span == (Span {
            start: start as u32,
            end: end as u32,
            file,
        }),
{
    Lexed::Fail(ParseError { message, span: Span::new(start as u32, end as u32, file) })
}

fn emit(kind: TokenKind, start: usize, end: usize, file: FileId) -> (r: Lexed)
    requires
        start <= end < u32::MAX,
    ensures
        r matches Lexed::Emit(tok, q) && q == end && tok.kind == kind && tok.span == (Span {
            start: start as u32,
            end: end as u32,
            file,
        }),
{
    Lexed::Emit(Token { kind, span: Span::new(start as u32, end as u32, file) }, end)
}

proof fn lemma_subrange_ascii(s: Seq<u8>, a: int, b: int)
    requires
        0 <= a <= b <= s.len(),
        forall|i: int| a <= i < b ==> #[trigger] s[i] < 0x80,
    ensures
        all_ascii(s.subrange(a, b)),
{
    assert forall|k: int| 0 <= k < s.subrange(a, b).len() implies #[trigger] s.subrange(a, b)[k]
        < 0x80 by {
        assert(s.subrange(a, b)[k] == s[a + k]);
    }
}

/// Value of the digits `src[start..end]`, or `None` when it exceeds `i64`.
fn digits_i64(src: &[u8], start: usize, end: usize) -> (r: Option<i64>)
    requires
        start <= end <= src@.len(),
        forall|i: int| start <= i < end ==> is_digit(#[trigger] src@[i]),
    ensures
        digits_value(src@.subrange(start as int, end as int)) <= i64::MAX ==> r == Some(
            digits_value(src@.subrange(start as int, end as int)) as i64,
        ),
        digits_value(src@.subrange(start as int, end as int)) > i64::MAX ==> r is None,
{
    let mut v: u64 = 0;
    let mut over = false;
    let mut i = start;
    while i < end
        invariant
            start <= i <= end <= src@.len(),
            forall|j: int| start <= j < end ==> is_digit(#[trigger] src@[j]),
            !over ==> v == digits_value(src@.subrange(start as int, i as int)) && v <= i64::MAX,
            over ==> digits_value(src@.subrange(start as int, i as int)) > i64::MAX,
        decreases end - i,
    {
        let d = (src[i] - 0x30) as u64;
        proof {
            let pre = src@.subrange(start as int, i as int);
            let nxt = src@.subrange(start as int, i + 1);
            assert(nxt.drop_last() =~= pre);
            assert(nxt.last() == src@[i as int]);
            assert(is_digit(src@[i as int]));
            assert(digits_value(nxt) == digits_value(pre) * 10 + d);
            assert(digits_value(pre) * 10 + d >= digits_value(pre)) by (nonlinear_arith);
        }
        if !over {
            if v > (0x7fff_ffff_ffff_ffffu64 - d) / 10 {
                proof {
                    assert(v * 10 + d > 0x7fff_ffff_ffff_ffff) by (nonlinear_arith)
                        requires
                            v > (0x7fff_ffff_ffff_ffffu64 - d) / 10,
                            d <= 9,
                    ;
                }
                over = true;
            } else {
                proof {
                    assert(v * 10 + d <= 0x7fff_ffff_ffff_ffff) by (nonlinear_arith)
                        requires
                            v <= (0x7fff_ffff_ffff_ffffu64 - d) / 10,
                            d <= 9,
                    ;
                }
                v = v * 10 + d;
            }
        }
        i = i + 1;
    }
    if over {
        None
    } else {
        Some(v as i64)
    }
}

/// Lex a numeric literal starting at `start` (a digit).
fn lex_number(src: &[u8], start: usize, file: FileId) -> (r: Lexed)
    requires
        start < src@.len() < u32::MAX,
        is_digit(src@[start as int]),
    ensures
        lexed_matches(r, number_step(src@, start as int), start as int, file),
        lexed_bounded(r, start as int, src@.len() as int),
{
    let d_end = scan_digits(src, start);
    let is_float = d_end + 1 < src.len() && src[d_end] == 0x2e && digit_byte(src[d_end + 1]);
    let body_end = if is_float {
        scan_digits(src, d_end + 1)
    } else {
        d_end
    };
    let alpha_start = if body_end < src.len() && src[body_end] == 0x5f {
        body_end + 1
    } else {
        body_end
    };
    let suf_end = scan_alnum(src, alpha_start);
    let ik = parse_int_suffix(src, alpha_start, suf_end);
    let fk = parse_float_suffix(src, alpha_start, suf_end);
    proof {
        lemma_subrange_ascii(src@, alpha_start as int, suf_end as int);
        assert forall|i: int| start <= i < body_end implies #[trigger] src@[i] < 0x80 by {
            if i < d_end {
            } else if i == d_end {
            } else {
            }
        }
        lemma_subrange_ascii(src@, start as int, body_end as int);
    }
    if suf_end > alpha_start && ik.is_none() && fk.is_none() {
        let sfx = ascii_substring(src, alpha_start, suf_end);
        let m = concat_str(
            concat_str(String::from_str("invalid suffix `"), sfx.as_str()),
            "` after numeric literal",
        );
        return fail(m, body_end, suf_end, file);
    }
    if is_float && ik.is_some() {
        let sfx = ascii_substring(src, alpha_start, suf_end);
        let m = concat_str(
            concat_str(String::from_str("integer-type suffix `"), sfx.as_str()),
            "` on a float literal",
        );
        return fail(m, body_end, suf_end, file);
    }
    if !is_float && fk.is_some() {
        let sfx = ascii_substring(src, alpha_start, suf_end);
        let m = concat_str(
            concat_str(String::from_str("float-type suffix `"), sfx.as_str()),
            "` on an integer literal",
        );
        return fail(m, body_end, suf_end, file);
    }
    if suf_end < src.len() && (alpha_byte(src[suf_end]) || src[suf_end] == 0x5f) {
        return fail(
            String::from_str("invalid suffix after numeric literal"),
            suf_end,
            suf_end + 1,
            file,
        );
    }
    if is_float {
        let text = ascii_substring(src, start, body_end);
        return emit(TokenKind::Float(text, fk), start, suf_end, file);
    }
    match digits_i64(src, start, body_end) {
        Some(v) => emit(TokenKind::Int(v, ik), start, suf_end, file),
        None => {
            let body = ascii_substring(src, start, body_end);
            let m = concat_str(
                concat_str(String::from_str("integer literal `"), body.as_str()),
                "` does not fit in i64",
            );
            fail(m, start, body_end, file)
        },
    }
}


/// `char::to_string`: a one-character string.
#[verifier::external_body]
fn char_to_string(c: char) -> (s: String)
    ensures
        s@ == seq![c],
{
    c.to_string()
}

/// Lex a string literal whose opening quote is at `start`.
fn lex_string(src: &[u8], start: usize, file: FileId) -> (r: Lexed)
    requires
        start < src@.len() < u32::MAX,
        src@[start as int] == 0x22,
    ensures
        lexed_matches(r, string_step(src@, start as int), start as int, file),
        lexed_bounded(r, start as int, src@.len() as int),
{
    let mut pos = start + 1;
    let mut bytes: Vec<u8> = Vec::new();
    loop
        invariant_except_break
            start < pos <= src@.len(),
            src@.len() < u32::MAX,
            scan_str(src@, start as int, start + 1, Seq::empty()) == scan_str(
                src@,
                start as int,
                pos as int,
                bytes@,
            ),
        ensures
            start < pos <= src@.len(),
            scan_str(src@, start as int, start + 1, Seq::empty()) == StrScan::Done(bytes@, pos as int),
        decreases src@.len() + 1 - pos,
    {
        if pos >= src.len() {
            return fail(String::from_str("unterminated string literal"), start, pos, file);
        }
        let c = src[pos];
        if c == 0x22 {
            pos = pos + 1;
            break;
        }
        if c == 0x5c {
            if pos + 1 >= src.len() {
                return fail(String::from_str("unterminated string literal"), start, pos + 1, file);
            }
            let esc = src[pos + 1];
            let resolved: u8 = if esc == 0x6e {
                0x0a
            } else if esc == 0x74 {
                0x09
            } else if esc == 0x5c {
                0x5c
            } else if esc == 0x22 {
                0x22
            } else {
                let shown = char_to_string(esc as char);
                let m = concat_str(
                    concat_str(String::from_str("invalid escape sequence `\\"), shown.as_str()),
                    "`",
                );
                return fail(m, pos, pos + 2, file);
            };
            bytes.push(resolved);
            pos = pos + 2;
            continue;
        }
        bytes.push(c);
        pos = pos + 1;
    }
    let ghost content = bytes@;
    match utf8_string(bytes) {
        Some(text) => emit(TokenKind::Str(text), start, pos, file),
        None => fail(String::from_str("string literal contains invalid UTF-8"), start, pos, file),
    }
}

/// Lex an identifier or reserved word starting at `start`.
fn lex_word(src: &[u8], start: usize, file: FileId) -> (r: Lexed)
    requires
        start < src@.len() < u32::MAX,
        is_alpha(src@[start as int]) || src@[start as int] == 0x5f,
    ensures
        lexed_matches(r, word_step(src@, start as int), start as int, file),
        lexed_bounded(r, start as int, src@.len() as int),
{
    let end = scan_ident(src, start);
    match keyword_kind(src, start, end) {
        Some(k) => emit(k, start, end, file),
        None => {
            proof {
                lemma_subrange_ascii(src@, start as int, end as int);
            }
            let name = ascii_substring(src, start, end);
            emit(TokenKind::Ident(name), start, end, file)
        },
    }
}

/// Operator or punctuation at `pos`, with its width.
fn punct_at(src: &[u8], pos: usize) -> (r: Option<(TokenKind, usize)>)
    requires
        pos < src@.len(),
    ensures
        match punct(src@, pos as int) {
            Some((k, w)) => r matches Some((k2, w2)) && k2 == k && w2 == w,
            None => r is None,
        },
{
    let b = src[pos];
    let two = pos + 1 < src.len();
    let nx: u8 = if two {
        src[pos + 1]
    } else {
        0
    };
    if b == 0x3d && two && nx == 0x3d {
        Some((TokenKind::EqEq, 2))
    } else if b == 0x21 && two && nx == 0x3d {
        Some((TokenKind::BangEq, 2))
    } else if b == 0x3c && two && nx == 0x3d {
        Some((TokenKind::Le, 2))
    } else if b == 0x3e && two && nx == 0x3d {
        Some((TokenKind::Ge, 2))
    } else if b == 0x26 && two && nx == 0x26 {
        Some((TokenKind::AndAnd, 2))
    } else if b == 0x26 {
        let is_mut = src.len() - pos > 3 && src[pos + 1] == 0x6d && src[pos + 2] == 0x75
            && src[pos + 3] == 0x74 && (src.len() - pos <= 4 || !ident_byte(src[pos + 4]));
        if is_mut {
            Some((TokenKind::AmpMut, 4))
        } else {
            Some((TokenKind::Amp, 1))
        }
    } else if b == 0x7c && two && nx == 0x7c {
        Some((TokenKind::OrOr, 2))
    } else if b == 0x2d && two && nx == 0x3e {
        Some((TokenKind::Arrow, 2))
    } else if b == 0x2b {
        Some((TokenKind::Plus, 1))
    } else if b == 0x2d {
        Some((TokenKind::Minus, 1))
    } else if b == 0x2a {
        Some((TokenKind::Star, 1))
    } else if b == 0x2f {
        Some((TokenKind::Slash, 1))
    } else if b == 0x25 {
        Some((TokenKind::Percent, 1))
    } else if b == 0x3d {
        Some((TokenKind::Eq, 1))
    } else if b == 0x21 {
        Some((TokenKind::Bang, 1))
    } else if b == 0x3c {
        Some((TokenKind::Lt, 1))
    } else if b == 0x3e {
        Some((TokenKind::Gt, 1))
    } else if b == 0x28 {
        Some((TokenKind::LParen, 1))
    } else if b == 0x29 {
        Some((TokenKind::RParen, 1))
    } else if b == 0x7b {
        Some((TokenKind::LBrace, 1))
    } else if b == 0x7d {
        Some((TokenKind::RBrace, 1))
    } else if b == 0x2c {
        Some((TokenKind::Comma, 1))
    } else if b == 0x3b {
        Some((TokenKind::Semi, 1))
    } else if b == 0x3a && two && nx == 0x3a {
        Some((TokenKind::ColonColon, 2))
    } else if b == 0x3a {
        Some((TokenKind::Colon, 1))
    } else if b == 0x2e && two && nx == 0x2e {
        Some((TokenKind::DotDot, 2))
    } else if b == 0x2e {
        Some((TokenKind::Dot, 1))
    } else if b == 0x5b {
        Some((TokenKind::LBracket, 1))
    } else if b == 0x5d {
        Some((TokenKind::RBracket, 1))
    } else {
        None
    }
}

/// Byte index just after the UTF-8 character starting at `i`, capped at
/// the end of the input.
fn utf8_next_boundary(src: &[u8], i: usize) -> (r: usize)
    requires
        i < src@.len(),
    ensures
        r == next_boundary(src@, i as int),
{
    let b = src[i];
    let width: usize = if b < 0x80 {
        1
    } else if b < 0xc0 {
        1
    } else if b < 0xe0 {
        2
    } else if b < 0xf0 {
        3
    } else {
        4
    };
    if width <= src.len() - i {
        i + width
    } else {
        src.len()
    }
}

fn hex_char_byte(d: u8) -> (r: u8)
    requires
        d < 16,
    ensures
        r == hex_byte(d),
        r < 0x80,
{
    if d < 10 {
        d + 0x30
    } else {
        d - 10 + 0x61
    }
}

/// How an unexpected byte is shown in the error message.
fn show_byte(b: u8) -> (s: String)
    ensures
        s@ == shown_byte(b),
{
    if (0x21 <= b && b <= 0x7e) || b == 0x20 {
        char_to_string(b as char)
    } else {
        let mut v: Vec<u8> = Vec::new();
        v.push(0x5c);
        v.push(0x78);
        v.push(hex_char_byte(b / 16));
        v.push(hex_char_byte(b % 16));
        proof {
            assert(v@ =~= seq![0x5cu8, 0x78u8, hex_byte(b / 16), hex_byte(b % 16)]);
            assert(all_ascii(v@));
        }
        crate::text::ascii_string(v)
    }
}

/// One lexing step at `pos`.
fn step(src: &[u8], pos: usize, file: FileId) -> (r: Lexed)
    requires
        pos < src@.len() < u32::MAX,
    ensures
        lexed_matches(r, lex_step(src@, pos as int), pos as int, file),
        lexed_bounded(r, pos as int, src@.len() as int),
{
    let b = src[pos];
    if b == 0x20 || b == 0x09 || b == 0x0a || b == 0x0d {
        return Lexed::Skip(pos + 1);
    }
    if b == 0x2f && pos + 1 < src.len() && src[pos + 1] == 0x2f {
        let e = scan_line(src, pos + 2);
        return Lexed::Skip(e);
    }
    if digit_byte(b) {
        return lex_number(src, pos, file);
    }
    if b == 0x22 {
        return lex_string(src, pos, file);
    }
    if alpha_byte(b) || b == 0x5f {
        return lex_word(src, pos, file);
    }
    match punct_at(src, pos) {
        Some((k, w)) => emit(k, pos, pos + w, file),
        None => {
            let end = utf8_next_boundary(src, pos);
            let shown = show_byte(b);
            let m = concat_str(
                concat_str(String::from_str("unexpected character `"), shown.as_str()),
                "`",
            );
            fail(m, pos, end, file)
        },
    }
}


/// The lexer's specified result with `acc` put in front of the tokens.
spec fn prepend(acc: Seq<SpecToken>, r: Result<Seq<SpecToken>, (Seq<char>, int, int)>) -> Result<
    Seq<SpecToken>,
    (Seq<char>, int, int),
> {
    match r {
        Ok(rest) => Ok(acc + rest),
        Err(e) => Err(e),
    }
}

/// Lex the bytes of a file's text.
fn lex_bytes(src: &[u8], file: FileId) -> (r: Result<Vec<Token>, ParseError>)
    requires
        src@.len() < u32::MAX,
    ensures
        lexed_as(r, src@, file),
{
    let mut tokens: Vec<Token> = Vec::new();
    let mut pos: usize = 0;
    let ghost mut acc: Seq<SpecToken> = Seq::empty();
    proof {
        assert(prepend(acc, lex_from(src@, 0)) == lex_from(src@, 0)) by {
            match lex_from(src@, 0) {
                Ok(rest) => {
                    assert(acc + rest =~= rest);
                },
                Err(_) => {},
            }
        }
    }
    while pos < src.len()
        invariant
            pos <= src@.len() < u32::MAX,
            tokens_match(tokens@, acc, file),
            prepend(acc, lex_from(src@, pos as int)) == lex_from(src@, 0),
        decreases src@.len() - pos,
    {
        match step(src, pos, file) {
            Lexed::Skip(p) => {
                pos = p;
            },
            Lexed::Emit(tok, p) => {
                let ghost t = match lex_step(src@, pos as int) {
                    Step::Emit(t, _) => t,
                    _ => SpecTok::Fixed(TokenKind::Eof),
                };
                proof {
                    let x: SpecToken = (t, pos as int, p as int);
                    match lex_from(src@, p as int) {
                        Ok(rest) => {
                            assert(acc + (seq![x] + rest) =~= acc.push(x) + rest);
                        },
                        Err(_) => {},
                    }
                    acc = acc.push(x);
                }
                tokens.push(tok);
                pos = p;
            },
            Lexed::Fail(e) => {
                return Err(e);
            },
        }
    }
    let ghost before = tokens@;
    tokens.push(Token { kind: TokenKind::Eof, span: Span::point(src.len() as u32, file) });
    proof {
        assert(tokens@.subrange(0, acc.len() as int) =~= before);
        match lex_from(src@, 0) {
            Ok(ts) => {
                assert(acc + Seq::<SpecToken>::empty() =~= acc);
            },
            Err(_) => {},
        }
    }
    Ok(tokens)
}

/// Lex a registered source file.
///
/// On success the tokens are those [`lex_from`] specifies for the file's
/// bytes, followed by an end-of-input token at the file's length; otherwise
/// the first error is returned.
pub fn lex(file: FileId, source_map: &SourceMap) -> (r: Result<Vec<Token>, ParseError>)
    ensures
        !source_map.spec_files().contains_key(file.0) ==> (r matches Err(e) && e.message@
            == "file id "@ + decimal(file.0 as nat) + " not found in source map"@ && e.span == (Span {
            start: 0,
            end: 0,
            file,
        })),
        source_map.spec_files().contains_key(file.0) ==> lexed_as(
            r,
            text_bytes(source_map.spec_files()[file.0].spec_src()@),
            file,
        ),
{
    let src_file = match source_map.get(file) {
        Some(f) => f,
        None => {
            let n = decimal_string(file.0 as u64);
            let m = concat_str(
                concat_str(String::from_str("file id "), n.as_str()),
                " not found in source map",
            );
            return Err(ParseError { message: m, span: Span::point(0, file) });
        },
    };
    let src = src_file.bytes();
    lex_bytes(src, file)
}

} // verus!
