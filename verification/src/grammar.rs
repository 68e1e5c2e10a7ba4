//! The grammar the parser accepts, as a function from a token sequence and
//! a position to what is parsed there and the position after it, or the
//! first error.
//!
//! Tokens are seen through their views: text payloads as characters, every
//! other kind as itself. A position past the last token reads as end of
//! input.

use vstd::prelude::*;

use crate::ast::{
    BinOp, BlockV, ExprV, FnDeclV, ImplBlockV, ItemV, LetV, LitFieldV, ParamKind, ParamV, ProgramV,
    StmtV, StructDeclV, StructFieldV, TypeParamV, TypeV, UnOp,
};
use crate::span::{FileId, Span};
use crate::token::{tag, tok_is, SpecTok, Token, TokenKind};

verus! {

/// A token kind as the grammar sees it: text payloads by their characters.
pub open spec fn kind_v(k: TokenKind) -> SpecTok {
    match k {
        TokenKind::Float(s, f) => SpecTok::Float(s@, f),
        TokenKind::Ident(s) => SpecTok::Ident(s@),
        TokenKind::Str(s) => SpecTok::Str(s@),
        _ => SpecTok::Fixed(k),
    }
}

/// A token kind the lexer specification describes is seen as that
/// description.
pub proof fn lemma_tok_is(k: TokenKind, d: SpecTok)
    requires
        tok_is(k, d),
    ensures
        kind_v(k) == d,
{
}

/// A token as the grammar sees it: its kind and its span.
pub open spec fn token_v(t: Token) -> (SpecTok, Span) {
    (kind_v(t.kind), t.span)
}

/// Views of a token sequence.
pub open spec fn tokens_v(ts: Seq<Token>) -> Seq<(SpecTok, Span)> {
    ts.map_values(|t: Token| token_v(t))
}

/// The variant number of a token view (as [`tag`] numbers token kinds).
pub open spec fn stag(k: SpecTok) -> int {
    match k {
        SpecTok::Fixed(f) => tag(f),
        SpecTok::Float(_, _) => 1,
        SpecTok::Ident(_) => 3,
        SpecTok::Str(_) => 4,
    }
}

/// How an error message names a token.
pub open spec fn sdescribe(k: SpecTok) -> Seq<char> {
    match k {
        SpecTok::Fixed(f) => f.spec_describe(),
        SpecTok::Float(_, _) => "float literal"@,
        SpecTok::Ident(_) => "identifier"@,
        SpecTok::Str(_) => "string literal"@,
    }
}

/// What the parser works on: the tokens, the byte length of the file (where
/// an end-of-input error points) and the file.
pub struct Ctx {
    pub t: Seq<(SpecTok, Span)>,
    pub eof: u32,
    pub file: FileId,
}

/// A parse outcome: the value and the position after it, or an error
/// message and span.
pub type PRes<V> = Result<(V, int), (Seq<char>, Span)>;

/// The kind of the token at `i`; end of input past the last token.
pub open spec fn kind(c: Ctx, i: int) -> SpecTok {
    if 0 <= i < c.t.len() {
        c.t[i].0
    } else {
        SpecTok::Fixed(TokenKind::Eof)
    }
}

/// The span of the token at `i`.
pub open spec fn sp(c: Ctx, i: int) -> Span {
    c.t[i].1
}

/// The token at `i` exists and is of the variant of `k`.
pub open spec fn at(c: Ctx, i: int, k: TokenKind) -> bool {
    0 <= i < c.t.len() && stag(c.t[i].0) == tag(k)
}

/// Where an error about the token at `i` points: the token, or the end of
/// the file for end of input.
pub open spec fn found_span(c: Ctx, i: int) -> Span {
    if kind(c, i) == SpecTok::Fixed(TokenKind::Eof) {
        Span { start: c.eof, end: c.eof, file: c.file }
    } else {
        sp(c, i)
    }
}

/// The error for an unexpected token at `i` where `label` was wanted.
pub open spec fn expected(c: Ctx, i: int, label: Seq<char>) -> (Seq<char>, Span) {
    ("expected "@ + label + ", found "@ + sdescribe(kind(c, i)), found_span(c, i))
}

/// `b` is a token position strictly after `a`.
pub open spec fn adv(c: Ctx, a: int, b: int) -> bool {
    a < b < c.t.len()
}

/// The outcome where a sub-parse failed to move forward, which a parse of
/// well-formed tokens never reaches.
pub open spec fn stuck<V>(c: Ctx) -> PRes<V> {
    Err((Seq::empty(), Span { start: 0, end: 0, file: c.file }))
}

/// The smallest span covering `a` and `b`, in `a`'s file.
pub open spec fn cover(a: Span, b: Span) -> Span {
    a.spec_merge(b)
}

// ─── Types ─────────────────────────────────────────────────────────────────

/// A type annotation at `pos`.
pub open spec fn p_type(c: Ctx, pos: int) -> PRes<TypeV>
    decreases c.t.len() - pos, 1int,
{
    if at(c, pos, TokenKind::LParen) {
        if at(c, pos + 1, TokenKind::RParen) {
            Ok((TypeV::Unit { span: cover(sp(c, pos), sp(c, pos + 1)) }, pos + 2))
        } else {
            Err(expected(c, pos + 1, "`)`"@))
        }
    } else if at(c, pos, TokenKind::LBracket) {
        match p_type(c, pos + 1) {
            Err(e) => Err(e),
            Ok((inner, p1)) => if !at(c, p1, TokenKind::Semi) {
                Err(expected(c, p1, "`;`"@))
            } else {
                match kind(c, p1 + 1) {
                    SpecTok::Fixed(TokenKind::Int(n, _)) if n >= 0 => if at(
                        c,
                        p1 + 2,
                        TokenKind::RBracket,
                    ) {
                        Ok(
                            (
                                TypeV::Array {
                                    inner: Box::new(inner),
                                    size: n as u64,
                                    span: cover(sp(c, pos), sp(c, p1 + 2)),
                                },
                                p1 + 3,
                            ),
                        )
                    } else {
                        Err(expected(c, p1 + 2, "`]`"@))
                    },
                    _ => Err(("array size must be a non-negative integer literal"@, sp(c, p1 + 1))),
                }
            },
        }
    } else if at(c, pos, TokenKind::Amp) || at(c, pos, TokenKind::AmpMut) {
        let mutable = at(c, pos, TokenKind::AmpMut);
        if at(c, pos + 1, TokenKind::LBracket) {
            match p_type(c, pos + 2) {
                Err(e) => Err(e),
                Ok((inner, p1)) => if at(c, p1, TokenKind::RBracket) {
                    Ok(
                        (
                            TypeV::Slice {
                                inner: Box::new(inner),
                                mutable,
                                span: cover(sp(c, pos), sp(c, p1)),
                            },
                            p1 + 1,
                        ),
                    )
                } else {
                    Err(expected(c, p1, "`]`"@))
                },
            }
        } else {
            match p_type(c, pos + 1) {
                Err(e) => Err(e),
                Ok((inner, p1)) => Ok(
                    (
                        TypeV::Ref {
                            inner: Box::new(inner),
                            mutable,
                            span: cover(sp(c, pos), inner.span()),
                        },
                        p1,
                    ),
                ),
            }
        }
    } else {
        match kind(c, pos) {
            SpecTok::Ident(seg) => if at(c, pos + 1, TokenKind::Lt) {
                match p_type_list(c, pos + 2, Seq::empty()) {
                    Err(e) => Err(e),
                    Ok((args, p1)) => if at(c, p1, TokenKind::Gt) {
                        let span = cover(cover(sp(c, pos), sp(c, p1)), sp(c, pos + 1));
                        if seg == "Box"@ || seg == "Vec"@ {
                            Ok((TypeV::Generic { segments: seq![seg], args, span }, p1 + 1))
                        } else {
                            Ok((TypeV::Path { segments: seq![seg], type_args: args, span }, p1 + 1))
                        }
                    } else {
                        Err(expected(c, p1, "`>`"@))
                    },
                }
            } else {
                Ok(
                    (
                        TypeV::Path { segments: seq![seg], type_args: Seq::empty(), span: sp(c, pos) },
                        pos + 1,
                    ),
                )
            },
            _ => Err(expected(c, pos, "type"@)),
        }
    }
}

/// A comma-separated, non-empty list of types at `pos`, after the types
/// `acc` already read.
pub open spec fn p_type_list(c: Ctx, pos: int, acc: Seq<TypeV>) -> PRes<Seq<TypeV>>
    decreases c.t.len() - pos, 2int,
{
    match p_type(c, pos) {
        Err(e) => Err(e),
        Ok((t, p1)) => if !adv(c, pos, p1) {
            stuck(c)
        } else if at(c, p1, TokenKind::Comma) {
            p_type_list(c, p1 + 1, acc.push(t))
        } else {
            Ok((acc.push(t), p1))
        },
    }
}

// ─── Expressions, blocks, statements ───────────────────────────────────────

/// The operator a token stands for between two operands, with its binding
/// power; higher binds tighter.
pub open spec fn binop(k: SpecTok) -> Option<(BinOp, int)> {
    match k {
        SpecTok::Fixed(TokenKind::OrOr) => Some((BinOp::Or, 10)),
        SpecTok::Fixed(TokenKind::AndAnd) => Some((BinOp::And, 20)),
        SpecTok::Fixed(TokenKind::EqEq) => Some((BinOp::Eq, 30)),
        SpecTok::Fixed(TokenKind::BangEq) => Some((BinOp::Neq, 30)),
        SpecTok::Fixed(TokenKind::Lt) => Some((BinOp::Lt, 40)),
        SpecTok::Fixed(TokenKind::Le) => Some((BinOp::Le, 40)),
        SpecTok::Fixed(TokenKind::Gt) => Some((BinOp::Gt, 40)),
        SpecTok::Fixed(TokenKind::Ge) => Some((BinOp::Ge, 40)),
        SpecTok::Fixed(TokenKind::Plus) => Some((BinOp::Add, 50)),
        SpecTok::Fixed(TokenKind::Minus) => Some((BinOp::Sub, 50)),
        SpecTok::Fixed(TokenKind::Star) => Some((BinOp::Mul, 60)),
        SpecTok::Fixed(TokenKind::Slash) => Some((BinOp::Div, 60)),
        SpecTok::Fixed(TokenKind::Percent) => Some((BinOp::Rem, 60)),
        _ => None,
    }
}

/// The binding power of a binary operator token.
pub open spec fn bp_of(k: SpecTok) -> int {
    binop(k)->Some_0.1
}

/// Law: operator precedence. Every multiplicative operator (`*`, `/`, `%`)
/// binds strictly tighter than every additive one (`+`, `-`), which binds
/// tighter than every comparison, which binds tighter than `==`/`!=`, then
/// `&&`, then `||`; prefix operators bind tighter than all of them.
pub proof fn law_precedence(t1: SpecTok, t2: SpecTok)
    requires
        binop(t1) is Some,
        binop(t2) is Some,
    ensures
        ({
            let o1 = binop(t1)->Some_0.0;
            let o2 = binop(t2)->Some_0.0;
            let mul1 = o1 == BinOp::Mul || o1 == BinOp::Div || o1 == BinOp::Rem;
            let add2 = o2 == BinOp::Add || o2 == BinOp::Sub;
            let add1 = o1 == BinOp::Add || o1 == BinOp::Sub;
            let cmp2 = o2 == BinOp::Lt || o2 == BinOp::Le || o2 == BinOp::Gt || o2 == BinOp::Ge;
            let cmp1 = o1 == BinOp::Lt || o1 == BinOp::Le || o1 == BinOp::Gt || o1 == BinOp::Ge;
            let eq2 = o2 == BinOp::Eq || o2 == BinOp::Neq;
            let eq1 = o1 == BinOp::Eq || o1 == BinOp::Neq;
            &&& (mul1 && add2 ==> bp_of(t1) > bp_of(t2))
            &&& (add1 && cmp2 ==> bp_of(t1) > bp_of(t2))
            &&& (cmp1 && eq2 ==> bp_of(t1) > bp_of(t2))
            &&& (eq1 && o2 == BinOp::And ==> bp_of(t1) > bp_of(t2))
            &&& (o1 == BinOp::And && o2 == BinOp::Or ==> bp_of(t1) > bp_of(t2))
            &&& prefix_bp() > bp_of(t1)
        }),
{
}

/// Whether token `k` is an integer literal.
pub open spec fn is_int_tok(k: SpecTok) -> bool {
    k matches SpecTok::Fixed(TokenKind::Int(_, _))
}

/// Law: operator precedence decides grouping. In `x op1 y op2 z` (integer
/// literals, then `;`), the second operator is grouped with `y` as the right
/// operand of the first when it binds tighter; otherwise the first
/// operation is the left operand of the second (left associativity).
pub proof fn law_binary_grouping(c: Ctx)
    requires
        c.t.len() == 6,
        is_int_tok(kind(c, 0)),
        binop(kind(c, 1)) is Some,
        is_int_tok(kind(c, 2)),
        binop(kind(c, 3)) is Some,
        is_int_tok(kind(c, 4)),
        kind(c, 5) == SpecTok::Fixed(TokenKind::Semi),
    ensures
        ({
            let o1 = binop(kind(c, 1))->Some_0.0;
            let o2 = binop(kind(c, 3))->Some_0.0;
            &&& p_expr(c, 0, 0, false) is Ok
            &&& p_expr(c, 0, 0, false)->Ok_0.1 == 5
            &&& bp_of(kind(c, 3)) > bp_of(kind(c, 1)) ==> (p_expr(c, 0, 0, false)->Ok_0.0 matches ExprV::Binary {
                op,
                lhs,
                rhs,
                ..
            } && op == o1 && *lhs is LitInt && (*rhs matches ExprV::Binary { op: op2, lhs: l2, rhs: r2, .. }
                && op2 == o2 && *l2 is LitInt && *r2 is LitInt))
            &&& bp_of(kind(c, 3)) <= bp_of(kind(c, 1)) ==> (p_expr(c, 0, 0, false)->Ok_0.0 matches ExprV::Binary {
                op,
                lhs,
                rhs,
                ..
            } && op == o2 && *rhs is LitInt && (*lhs matches ExprV::Binary { op: op1, lhs: l1, rhs: r1, .. }
                && op1 == o1 && *l1 is LitInt && *r1 is LitInt))
        }),
{
    let b1 = bp_of(kind(c, 1));
    let b2 = bp_of(kind(c, 3));
    let o1 = binop(kind(c, 1))->Some_0.0;
    let o2 = binop(kind(c, 3))->Some_0.0;
    assert(b1 > 0 && b2 > 0);
    let a0 = p_atom(c, 0, false);
    assert(a0 is Ok && a0->Ok_0.1 == 1 && a0->Ok_0.0 is LitInt);
    let a2 = p_atom(c, 2, false);
    assert(a2 is Ok && a2->Ok_0.1 == 3 && a2->Ok_0.0 is LitInt);
    let a4 = p_atom(c, 4, false);
    assert(a4 is Ok && a4->Ok_0.1 == 5 && a4->Ok_0.0 is LitInt);
    let x = a0->Ok_0.0;
    let y = a2->Ok_0.0;
    let z = a4->Ok_0.0;
    // `z` then `;`: nothing more binds.
    assert(binop(kind(c, 5)) is None);
    assert forall|m: int, e: ExprV| #[trigger] p_postfix(c, 5, e, m, false) == Ok::<(ExprV, int), (Seq<char>, Span)>((e, 5)) by {}
    assert(p_expr(c, 4, b2, false) == Ok::<(ExprV, int), (Seq<char>, Span)>((z, 5)));
    assert(p_expr(c, 4, b1, false) == Ok::<(ExprV, int), (Seq<char>, Span)>((z, 5)));
    if b2 > b1 {
        let yz = ExprV::Binary { op: o2, lhs: Box::new(y), rhs: Box::new(z), span: cover(y.span(), z.span()) };
        assert(p_postfix(c, 3, y, b1, false) == p_postfix(c, 5, yz, b1, false));
        assert(p_expr(c, 2, b1, false) == Ok::<(ExprV, int), (Seq<char>, Span)>((yz, 5)));
        let all = ExprV::Binary { op: o1, lhs: Box::new(x), rhs: Box::new(yz), span: cover(x.span(), yz.span()) };
        assert(p_postfix(c, 1, x, 0, false) == p_postfix(c, 5, all, 0, false));
        assert(p_expr(c, 0, 0, false) == Ok::<(ExprV, int), (Seq<char>, Span)>((all, 5)));
    } else {
        assert(p_postfix(c, 3, y, b1, false) == Ok::<(ExprV, int), (Seq<char>, Span)>((y, 3)));
        assert(p_expr(c, 2, b1, false) == Ok::<(ExprV, int), (Seq<char>, Span)>((y, 3)));
        let xy = ExprV::Binary { op: o1, lhs: Box::new(x), rhs: Box::new(y), span: cover(x.span(), y.span()) };
        assert(p_postfix(c, 1, x, 0, false) == p_postfix(c, 3, xy, 0, false));
        let all = ExprV::Binary { op: o2, lhs: Box::new(xy), rhs: Box::new(z), span: cover(xy.span(), z.span()) };
        assert(p_postfix(c, 3, xy, 0, false) == p_postfix(c, 5, all, 0, false));
        assert(p_expr(c, 0, 0, false) == Ok::<(ExprV, int), (Seq<char>, Span)>((all, 5)));
    }
}

/// The binding power of prefix operators: tighter than every binary one.
pub open spec fn prefix_bp() -> int {
    70
}

/// An expression at `pos` whose binary operators all bind tighter than
/// `min_bp`. With `restrict`, an identifier followed by `{` is not a struct
/// literal (the `{` opens the block of an `if`).
pub open spec fn p_expr(c: Ctx, pos: int, min_bp: int, restrict: bool) -> PRes<ExprV>
    decreases c.t.len() - pos, 5int,
{
    match p_atom(c, pos, restrict) {
        Err(e) => Err(e),
        Ok((lhs, p1)) => if !adv(c, pos, p1) {
            stuck(c)
        } else {
            p_postfix(c, p1, lhs, min_bp, restrict)
        },
    }
}

/// The postfix operations (field access, method call, indexing, call) and
/// binary operators binding tighter than `min_bp` that follow the operand
/// `lhs`, from `pos` on.
pub open spec fn p_postfix(c: Ctx, pos: int, lhs: ExprV, min_bp: int, restrict: bool) -> PRes<
    ExprV,
>
    decreases c.t.len() - pos, 6int,
{
    if at(c, pos, TokenKind::Dot) {
        match kind(c, pos + 1) {
            SpecTok::Ident(name) => if at(c, pos + 2, TokenKind::LParen) {
                match p_args(c, pos + 3, Seq::empty()) {
                    Err(e) => Err(e),
                    Ok((args, p1)) => if !adv(c, pos, p1) {
                        stuck(c)
                    } else if at(c, p1, TokenKind::RParen) {
                        p_postfix(
                            c,
                            p1 + 1,
                            ExprV::MethodCall {
                                receiver: Box::new(lhs),
                                name,
                                args,
                                span: cover(lhs.span(), sp(c, p1)),
                            },
                            min_bp,
                            restrict,
                        )
                    } else {
                        Err(expected(c, p1, "`)`"@))
                    },
                }
            } else {
                p_postfix(
                    c,
                    pos + 2,
                    ExprV::FieldAccess {
                        receiver: Box::new(lhs),
                        name,
                        span: cover(lhs.span(), sp(c, pos + 1)),
                    },
                    min_bp,
                    restrict,
                )
            },
            _ => Err(expected(c, pos + 1, "field or method name"@)),
        }
    } else if at(c, pos, TokenKind::LBracket) {
        match p_index_inner(c, pos + 1, sp(c, pos)) {
            Err(e) => Err(e),
            Ok((index, p1)) => if !adv(c, pos, p1) {
                stuck(c)
            } else if at(c, p1, TokenKind::RBracket) {
                p_postfix(
                    c,
                    p1 + 1,
                    ExprV::Index {
                        receiver: Box::new(lhs),
                        index: Box::new(index),
                        span: cover(lhs.span(), sp(c, p1)),
                    },
                    min_bp,
                    restrict,
                )
            } else {
                Err(expected(c, p1, "`]`"@))
            },
        }
    } else if at(c, pos, TokenKind::LParen) {
        match p_args(c, pos + 1, Seq::empty()) {
            Err(e) => Err(e),
            Ok((args, p1)) => if !adv(c, pos, p1) {
                stuck(c)
            } else if at(c, p1, TokenKind::RParen) {
                p_postfix(
                    c,
                    p1 + 1,
                    ExprV::Call { callee: Box::new(lhs), args, span: cover(lhs.span(), sp(c, p1)) },
                    min_bp,
                    restrict,
                )
            } else {
                Err(expected(c, p1, "`)`"@))
            },
        }
    } else {
        match binop(kind(c, pos)) {
            None => Ok((lhs, pos)),
            Some((op, bp)) => if bp <= min_bp {
                Ok((lhs, pos))
            } else {
                match p_expr(c, pos + 1, bp, restrict) {
                    Err(e) => Err(e),
                    Ok((rhs, p1)) => if !adv(c, pos, p1) {
                        stuck(c)
                    } else {
                        p_postfix(
                            c,
                            p1,
                            ExprV::Binary {
                                op,
                                lhs: Box::new(lhs),
                                rhs: Box::new(rhs),
                                span: cover(lhs.span(), rhs.span()),
                            },
                            min_bp,
                            restrict,
                        )
                    },
                }
            },
        }
    }
}

/// Comma-separated call arguments at `pos` up to (not including) `)`, after
/// the arguments `acc` already read.
pub open spec fn p_args(c: Ctx, pos: int, acc: Seq<ExprV>) -> PRes<Seq<ExprV>>
    decreases c.t.len() - pos, 7int,
{
    if at(c, pos, TokenKind::RParen) {
        Ok((acc, pos))
    } else {
        match p_expr(c, pos, 0, false) {
            Err(e) => Err(e),
            Ok((e, p1)) => if !adv(c, pos, p1) {
                stuck(c)
            } else if at(c, p1, TokenKind::Comma) {
                p_args(c, p1 + 1, acc.push(e))
            } else {
                Ok((acc.push(e), p1))
            },
        }
    }
}

/// Array literal elements at `pos` (at least one; a trailing comma is
/// allowed), after the elements `acc` already read.
pub open spec fn p_elems(c: Ctx, pos: int, acc: Seq<ExprV>) -> PRes<Seq<ExprV>>
    decreases c.t.len() - pos, 7int,
{
    match p_expr(c, pos, 0, false) {
        Err(e) => Err(e),
        Ok((e, p1)) => if !adv(c, pos, p1) {
            stuck(c)
        } else if at(c, p1, TokenKind::Comma) {
            if at(c, p1 + 1, TokenKind::RBracket) {
                Ok((acc.push(e), p1 + 1))
            } else {
                p_elems(c, p1 + 1, acc.push(e))
            }
        } else {
            Ok((acc.push(e), p1))
        },
    }
}

/// The inside of an index bracket at `pos`: a scalar index or one of the
/// ranges `..`, `..b`, `a..`, `a..b`. `lbracket` is the span of the `[`.
pub open spec fn p_index_inner(c: Ctx, pos: int, lbracket: Span) -> PRes<ExprV>
    decreases c.t.len() - pos, 7int,
{
    if at(c, pos, TokenKind::DotDot) {
        if at(c, pos + 1, TokenKind::RBracket) {
            Ok((ExprV::Range { start: None, end: None, span: cover(lbracket, sp(c, pos)) }, pos + 1))
        } else {
            match p_expr(c, pos + 1, 0, false) {
                Err(e) => Err(e),
                Ok((end, p1)) => Ok(
                    (
                        ExprV::Range {
                            start: None,
                            end: Some(Box::new(end)),
                            span: cover(lbracket, end.span()),
                        },
                        p1,
                    ),
                ),
            }
        }
    } else {
        match p_expr(c, pos, 0, false) {
            Err(e) => Err(e),
            Ok((first, p1)) => if !adv(c, pos, p1) {
                stuck(c)
            } else if at(c, p1, TokenKind::DotDot) {
                if at(c, p1 + 1, TokenKind::RBracket) {
                    Ok(
                        (
                            ExprV::Range { start: Some(Box::new(first)), end: None, span: first.span() },
                            p1 + 1,
                        ),
                    )
                } else {
                    match p_expr(c, p1 + 1, 0, false) {
                        Err(e) => Err(e),
                        Ok((end, p2)) => Ok(
                            (
                                ExprV::Range {
                                    start: Some(Box::new(first)),
                                    end: Some(Box::new(end)),
                                    span: cover(first.span(), end.span()),
                                },
                                p2,
                            ),
                        ),
                    }
                }
            } else {
                Ok((first, p1))
            },
        }
    }
}

/// The `::`-separated rest of a path at `pos`, after the segments `segs`
/// whose last ended at `end`: more segments, optionally closed by a
/// turbofish `::<T, ..>`. Yields the segments, the type arguments and the
/// span of the path's last token.
pub open spec fn p_path_segs(c: Ctx, pos: int, segs: Seq<Seq<char>>, end: Span) -> PRes<
    (Seq<Seq<char>>, Seq<TypeV>, Span),
>
    decreases c.t.len() - pos,
{
    if at(c, pos, TokenKind::ColonColon) {
        if at(c, pos + 1, TokenKind::Lt) {
            match p_type_list(c, pos + 2, Seq::empty()) {
                Err(e) => Err(e),
                Ok((args, p1)) => if at(c, p1, TokenKind::Gt) {
                    Ok(((segs, args, sp(c, p1)), p1 + 1))
                } else {
                    Err(expected(c, p1, "`>`"@))
                },
            }
        } else {
            match kind(c, pos + 1) {
                SpecTok::Ident(s) => p_path_segs(c, pos + 2, segs.push(s), sp(c, pos + 1)),
                _ => Err(expected(c, pos + 1, "path segment"@)),
            }
        }
    } else {
        Ok(((segs, Seq::empty(), end), pos))
    }
}

/// An array literal `[e1, .., eN]` at `pos`.
pub open spec fn p_array(c: Ctx, pos: int) -> PRes<ExprV>
    decreases c.t.len() - pos, 3int,
{
    if !at(c, pos, TokenKind::LBracket) {
        Err(expected(c, pos, "`[`"@))
    } else if at(c, pos + 1, TokenKind::RBracket) {
        Ok((ExprV::ArrayLit { elements: Seq::empty(), span: cover(sp(c, pos), sp(c, pos + 1)) }, pos + 2))
    } else {
        match p_elems(c, pos + 1, Seq::empty()) {
            Err(e) => Err(e),
            Ok((elements, p1)) => if at(c, p1, TokenKind::RBracket) {
                Ok((ExprV::ArrayLit { elements, span: cover(sp(c, pos), sp(c, p1)) }, p1 + 1))
            } else {
                Err(expected(c, p1, "`]`"@))
            },
        }
    }
}

/// An expression starting with the name at `pos`: a path `a::b` (with
/// optional turbofish), a struct literal `Name { .. }` (not with
/// `restrict`), or the bare name.
pub open spec fn p_name(c: Ctx, pos: int, restrict: bool) -> PRes<ExprV>
    decreases c.t.len() - pos, 3int,
{
    let s = sp(c, pos);
    match kind(c, pos) {
        SpecTok::Ident(name) => if at(c, pos + 1, TokenKind::ColonColon) {
            match p_path_segs(c, pos + 1, seq![name], s) {
                Err(e) => Err(e),
                Ok(((segments, type_args, end), p1)) => if !adv(c, pos, p1) {
                    stuck(c)
                } else if type_args.len() > 0 && at(c, p1, TokenKind::LBrace) && !restrict {
                    p_struct_lit(c, p1, segments, type_args, s)
                } else {
                    Ok((ExprV::Path { segments, type_args, span: cover(s, end) }, p1))
                },
            }
        } else if at(c, pos + 1, TokenKind::LBrace) && !restrict {
            p_struct_lit(c, pos + 1, seq![name], Seq::empty(), s)
        } else {
            Ok((ExprV::Ident(name, s), pos + 1))
        },
        _ => Err(expected(c, pos, "identifier"@)),
    }
}

/// An `if` expression at `pos`: `if cond { .. } [else { .. }]`, where the
/// condition takes no struct literal after a bare name.
pub open spec fn p_if(c: Ctx, pos: int) -> PRes<ExprV>
    decreases c.t.len() - pos, 3int,
{
    if !at(c, pos, TokenKind::If) {
        Err(expected(c, pos, "`if`"@))
    } else {
        match p_expr(c, pos + 1, 0, true) {
            Err(e) => Err(e),
            Ok((cond, p1)) => if !adv(c, pos, p1) {
                stuck(c)
            } else {
                match p_block(c, p1) {
                    Err(e) => Err(e),
                    Ok((then_block, p2)) => if !adv(c, p1, p2) {
                        stuck(c)
                    } else if at(c, p2, TokenKind::Else) {
                        match p_block(c, p2 + 1) {
                            Err(e) => Err(e),
                            Ok((else_block, p3)) => Ok(
                                (
                                    ExprV::If {
                                        cond: Box::new(cond),
                                        then_block: Box::new(then_block),
                                        else_block: Some(Box::new(else_block)),
                                        span: cover(sp(c, pos), else_block.span),
                                    },
                                    p3,
                                ),
                            ),
                        }
                    } else {
                        Ok(
                            (
                                ExprV::If {
                                    cond: Box::new(cond),
                                    then_block: Box::new(then_block),
                                    else_block: None,
                                    span: cover(sp(c, pos), then_block.span),
                                },
                                p2,
                            ),
                        )
                    },
                }
            },
        }
    }
}

/// A primary expression at `pos`: a literal, a name, path or struct
/// literal, an array literal, a parenthesized expression, a block, an `if`,
/// or a prefix operator applied to an operand.
pub open spec fn p_atom(c: Ctx, pos: int, restrict: bool) -> PRes<ExprV>
    decreases c.t.len() - pos, 4int,
{
    if at(c, pos, TokenKind::LBracket) {
        p_array(c, pos)
    } else {
        let s = sp(c, pos);
        match kind(c, pos) {
            SpecTok::Fixed(TokenKind::Int(v, k)) => Ok((ExprV::LitInt(v, k, s), pos + 1)),
            SpecTok::Float(t, k) => Ok((ExprV::LitFloat(t, k, s), pos + 1)),
            SpecTok::Fixed(TokenKind::Bool(b)) => Ok((ExprV::LitBool(b, s), pos + 1)),
            SpecTok::Str(t) => Ok((ExprV::StrLit(t, s), pos + 1)),
            SpecTok::Fixed(TokenKind::SelfKw) => Ok((ExprV::Ident("self"@, s), pos + 1)),
            SpecTok::Ident(_) => p_name(c, pos, restrict),
            SpecTok::Fixed(TokenKind::LParen) => match p_expr(c, pos + 1, 0, false) {
                Err(e) => Err(e),
                Ok((inner, p1)) => if at(c, p1, TokenKind::RParen) {
                    Ok((ExprV::Paren { inner: Box::new(inner), span: cover(s, sp(c, p1)) }, p1 + 1))
                } else {
                    Err(expected(c, p1, "`)`"@))
                },
            },
            SpecTok::Fixed(TokenKind::LBrace) => match p_block(c, pos) {
                Err(e) => Err(e),
                Ok((b, p1)) => Ok((ExprV::Block(Box::new(b)), p1)),
            },
            SpecTok::Fixed(TokenKind::If) => p_if(c, pos),
            SpecTok::Fixed(TokenKind::Minus) => p_unary(c, pos, UnOp::Neg, restrict),
            SpecTok::Fixed(TokenKind::Bang) => p_unary(c, pos, UnOp::Not, restrict),
            SpecTok::Fixed(TokenKind::Amp) => p_borrow(c, pos, false, restrict),
            SpecTok::Fixed(TokenKind::AmpMut) => p_borrow(c, pos, true, restrict),
            SpecTok::Fixed(TokenKind::Star) => p_deref(c, pos, restrict),
            _ => Err(expected(c, pos, "expression"@)),
        }
    }
}

/// The prefix operator `op` at `pos` applied to its operand.
pub open spec fn p_unary(c: Ctx, pos: int, op: UnOp, restrict: bool) -> PRes<ExprV>
    decreases c.t.len() - pos, 3int,
{
    if pos >= c.t.len() {
        stuck(c)
    } else {
        match p_expr(c, pos + 1, prefix_bp(), restrict) {
            Err(e) => Err(e),
            Ok((e, p1)) => Ok((ExprV::Unary { op, expr: Box::new(e), span: cover(sp(c, pos), e.span()) }, p1)),
        }
    }
}

/// The borrow `&` (or `&mut`, with `mutable`) at `pos` applied to its
/// operand.
pub open spec fn p_borrow(c: Ctx, pos: int, mutable: bool, restrict: bool) -> PRes<ExprV>
    decreases c.t.len() - pos, 3int,
{
    if pos >= c.t.len() {
        stuck(c)
    } else {
        match p_expr(c, pos + 1, prefix_bp(), restrict) {
            Err(e) => Err(e),
            Ok((e, p1)) => Ok(
                (ExprV::Borrow { inner: Box::new(e), mutable, span: cover(sp(c, pos), e.span()) }, p1),
            ),
        }
    }
}

/// The dereference `*` at `pos` applied to its operand.
pub open spec fn p_deref(c: Ctx, pos: int, restrict: bool) -> PRes<ExprV>
    decreases c.t.len() - pos, 3int,
{
    if pos >= c.t.len() {
        stuck(c)
    } else {
        match p_expr(c, pos + 1, prefix_bp(), restrict) {
            Err(e) => Err(e),
            Ok((e, p1)) => Ok((ExprV::Deref { inner: Box::new(e), span: cover(sp(c, pos), e.span()) }, p1)),
        }
    }
}

/// A struct literal's `{ field: value, .. }` at `pos`, after its path
/// `path` (with type arguments `type_args`) that started at `start`.
pub open spec fn p_struct_lit(
    c: Ctx,
    pos: int,
    path: Seq<Seq<char>>,
    type_args: Seq<TypeV>,
    start: Span,
) -> PRes<ExprV>
    decreases c.t.len() - pos, 3int,
{
    if !at(c, pos, TokenKind::LBrace) {
        Err(expected(c, pos, "`{`"@))
    } else {
        match p_lit_fields(c, pos + 1, Seq::empty()) {
            Err(e) => Err(e),
            Ok((fields, p1)) => if at(c, p1, TokenKind::RBrace) {
                Ok((ExprV::StructLit { path, type_args, fields, span: cover(start, sp(c, p1)) }, p1 + 1))
            } else {
                Err(expected(c, p1, "`}`"@))
            },
        }
    }
}

/// Comma-separated struct literal fields at `pos` up to (not including)
/// `}`, after the fields `acc` already read. A field is `name: value` or the
/// shorthand `name`.
pub open spec fn p_lit_fields(c: Ctx, pos: int, acc: Seq<LitFieldV>) -> PRes<Seq<LitFieldV>>
    decreases c.t.len() - pos, 7int,
{
    if at(c, pos, TokenKind::RBrace) {
        Ok((acc, pos))
    } else {
        match kind(c, pos) {
            SpecTok::Ident(name) => if at(c, pos + 1, TokenKind::Colon) {
                match p_expr(c, pos + 2, 0, false) {
                    Err(e) => Err(e),
                    Ok((v, p1)) => if !adv(c, pos, p1) {
                        stuck(c)
                    } else {
                        let f = LitFieldV { name, value: Some(v), span: cover(sp(c, pos), v.span()) };
                        if at(c, p1, TokenKind::Comma) {
                            p_lit_fields(c, p1 + 1, acc.push(f))
                        } else {
                            Ok((acc.push(f), p1))
                        }
                    },
                }
            } else {
                let f = LitFieldV { name, value: None, span: cover(sp(c, pos), sp(c, pos)) };
                if at(c, pos + 1, TokenKind::Comma) {
                    p_lit_fields(c, pos + 2, acc.push(f))
                } else {
                    Ok((acc.push(f), pos + 1))
                }
            },
            _ => Err(expected(c, pos, "field name"@)),
        }
    }
}

/// A block `{ stmts tail }` at `pos`.
pub open spec fn p_block(c: Ctx, pos: int) -> PRes<BlockV>
    decreases c.t.len() - pos, 3int,
{
    if !at(c, pos, TokenKind::LBrace) {
        Err(expected(c, pos, "`{`"@))
    } else {
        match p_block_items(c, pos + 1, Seq::empty()) {
            Err(e) => Err(e),
            Ok(((stmts, tail), p1)) => if at(c, p1, TokenKind::RBrace) {
                Ok((BlockV { stmts, tail, span: cover(sp(c, pos), sp(c, p1)) }, p1 + 1))
            } else {
                Err(expected(c, p1, "`}`"@))
            },
        }
    }
}

/// The statements and optional tail expression of a block at `pos`, up to
/// (not including) its `}`, after the statements `acc` already read.
pub open spec fn p_block_items(c: Ctx, pos: int, acc: Seq<StmtV>) -> PRes<
    (Seq<StmtV>, Option<Box<ExprV>>),
>
    decreases c.t.len() - pos, 8int,
{
    if at(c, pos, TokenKind::RBrace) {
        Ok(((acc, None), pos))
    } else if at(c, pos, TokenKind::Let) {
        match p_let(c, pos) {
            Err(e) => Err(e),
            Ok((l, p1)) => if !adv(c, pos, p1) {
                stuck(c)
            } else {
                p_block_items(c, p1, acc.push(StmtV::Let(l)))
            },
        }
    } else {
        match p_expr(c, pos, 0, false) {
            Err(e) => Err(e),
            Ok((e, p1)) => if !adv(c, pos, p1) {
                stuck(c)
            } else if at(c, p1, TokenKind::Eq) {
                match p_expr(c, p1 + 1, 0, false) {
                    Err(err) => Err(err),
                    Ok((rhs, p2)) => if !adv(c, p1, p2) {
                        stuck(c)
                    } else if at(c, p2, TokenKind::Semi) {
                        p_block_items(
                            c,
                            p2 + 1,
                            acc.push(StmtV::Assign { lhs: e, rhs, span: cover(e.span(), sp(c, p2)) }),
                        )
                    } else {
                        Err(expected(c, p2, "`;`"@))
                    },
                }
            } else if at(c, p1, TokenKind::Semi) {
                p_block_items(c, p1 + 1, acc.push(StmtV::Expr(e)))
            } else if at(c, p1, TokenKind::RBrace) {
                Ok(((acc, Some(Box::new(e))), p1))
            } else {
                Err(expected(c, p1, "`;`, `=`, or `}`"@))
            },
        }
    }
}

/// A `let` statement at `pos`: `let [mut] name [: Type] = init;`.
pub open spec fn p_let(c: Ctx, pos: int) -> PRes<LetV>
    decreases c.t.len() - pos, 7int,
{
    if !at(c, pos, TokenKind::Let) {
        Err(expected(c, pos, "`let`"@))
    } else {
        let mutable = at(c, pos + 1, TokenKind::Mut);
        let q = if mutable {
            pos + 2
        } else {
            pos + 1
        };
        match kind(c, q) {
            SpecTok::Ident(name) => {
                let annotated: Result<(Option<TypeV>, int), (Seq<char>, Span)> = if at(
                    c,
                    q + 1,
                    TokenKind::Colon,
                ) {
                    match p_type(c, q + 2) {
                        Err(e) => Err(e),
                        Ok((t, p1)) => Ok((Some(t), p1)),
                    }
                } else {
                    Ok((None, q + 1))
                };
                match annotated {
                    Err(e) => Err(e),
                    Ok((ty, p1)) => if !adv(c, pos, p1) {
                        stuck(c)
                    } else if !at(c, p1, TokenKind::Eq) {
                        Err(expected(c, p1, "`=`"@))
                    } else {
                        match p_expr(c, p1 + 1, 0, false) {
                            Err(e) => Err(e),
                            Ok((init, p2)) => if at(c, p2, TokenKind::Semi) {
                                Ok(
                                    (
                                        LetV { mutable, name, ty, init, span: cover(sp(c, pos), sp(c, p2)) },
                                        p2 + 1,
                                    ),
                                )
                            } else {
                                Err(expected(c, p2, "`;`"@))
                            },
                        }
                    },
                }
            },
            _ => Err(expected(c, q, "binding name"@)),
        }
    }
}

// ─── Items ─────────────────────────────────────────────────────────────────

/// Comma-separated type parameters `T` or `T: Bound` at `pos`, up to (not
/// including) `>`, after the parameters `acc` already read.
pub open spec fn p_tparams(c: Ctx, pos: int, acc: Seq<TypeParamV>) -> PRes<Seq<TypeParamV>>
    decreases c.t.len() - pos,
{
    if at(c, pos, TokenKind::Gt) {
        Ok((acc, pos))
    } else {
        match kind(c, pos) {
            SpecTok::Ident(name) => {
                let bounded: Result<(Option<Seq<char>>, int), (Seq<char>, Span)> = if at(
                    c,
                    pos + 1,
                    TokenKind::Colon,
                ) {
                    match kind(c, pos + 2) {
                        SpecTok::Ident(b) => Ok((Some(b), pos + 3)),
                        _ => Err(expected(c, pos + 2, "trait name in bound"@)),
                    }
                } else {
                    Ok((None, pos + 1))
                };
                match bounded {
                    Err(e) => Err(e),
                    Ok((bound, p)) => {
                        let tp = TypeParamV { name, bound, span: sp(c, pos) };
                        if at(c, p, TokenKind::Comma) {
                            p_tparams(c, p + 1, acc.push(tp))
                        } else {
                            Ok((acc.push(tp), p))
                        }
                    },
                }
            },
            _ => Err(expected(c, pos, "type parameter name"@)),
        }
    }
}

/// An optional type-parameter list `<T, U: Bound>` at `pos`.
pub open spec fn p_type_params(c: Ctx, pos: int) -> PRes<Seq<TypeParamV>> {
    if !at(c, pos, TokenKind::Lt) {
        Ok((Seq::empty(), pos))
    } else {
        match p_tparams(c, pos + 1, Seq::empty()) {
            Err(e) => Err(e),
            Ok((ps, p1)) => if at(c, p1, TokenKind::Gt) {
                Ok((ps, p1 + 1))
            } else {
                Err(expected(c, p1, "`>`"@))
            },
        }
    }
}

/// The receiver a parameter at `pos` starts with, if any: `self`, `&self`
/// or `&mut self`.
pub open spec fn receiver(c: Ctx, pos: int) -> Option<ParamKind> {
    match kind(c, pos) {
        SpecTok::Fixed(TokenKind::SelfKw) => Some(ParamKind::SelfOwned),
        SpecTok::Fixed(TokenKind::Amp) => if at(c, pos + 1, TokenKind::SelfKw) {
            Some(ParamKind::SelfShared)
        } else {
            None
        },
        SpecTok::Fixed(TokenKind::AmpMut) => if at(c, pos + 1, TokenKind::SelfKw) {
            Some(ParamKind::SelfMut)
        } else {
            None
        },
        _ => None,
    }
}

/// The type a receiver declares: the placeholder path for the enclosing
/// impl's type (spanning the `self` token, `self_span`), behind a reference for
/// `&self` and `&mut self`.
pub open spec fn receiver_ty(k: ParamKind, whole: Span, self_span: Span) -> TypeV {
    let inner = TypeV::Path {
        segments: seq!["__SelfPlaceholder"@],
        type_args: Seq::empty(),
        span: self_span,
    };
    match k {
        ParamKind::SelfShared => TypeV::Ref { inner: Box::new(inner), mutable: false, span: whole },
        ParamKind::SelfMut => TypeV::Ref { inner: Box::new(inner), mutable: true, span: whole },
        _ => inner,
    }
}

/// The parameter at `pos`, the `index`-th of its function: a receiver
/// (allowed first only) or `name: Type`.
pub open spec fn p_param(c: Ctx, pos: int, index: int) -> PRes<ParamV> {
    match receiver(c, pos) {
        Some(k) => if index != 0 {
            Err(("`self` parameter must be the first parameter"@, sp(c, pos)))
        } else {
            let q = if k == ParamKind::SelfOwned {
                pos
            } else {
                pos + 1
            };
            let whole = cover(sp(c, pos), sp(c, q));
            Ok((ParamV { name: "self"@, ty: receiver_ty(k, whole, sp(c, q)), kind: k, span: whole }, q + 1))
        },
        None => match kind(c, pos) {
            SpecTok::Ident(name) => if !at(c, pos + 1, TokenKind::Colon) {
                Err(expected(c, pos + 1, "`:`"@))
            } else {
                match p_type(c, pos + 2) {
                    Err(e) => Err(e),
                    Ok((t, p1)) => Ok(
                        (
                            ParamV { name, ty: t, kind: ParamKind::Normal, span: cover(sp(c, pos), t.span()) },
                            p1,
                        ),
                    ),
                }
            },
            _ => Err(expected(c, pos, "parameter name"@)),
        },
    }
}

/// Comma-separated parameters at `pos` up to (not including) `)`, after the
/// parameters `acc` already read.
pub open spec fn p_params(c: Ctx, pos: int, acc: Seq<ParamV>) -> PRes<Seq<ParamV>>
    decreases c.t.len() - pos,
{
    if at(c, pos, TokenKind::RParen) {
        Ok((acc, pos))
    } else {
        match p_param(c, pos, acc.len() as int) {
            Err(e) => Err(e),
            Ok((prm, p1)) => if !adv(c, pos, p1) {
                stuck(c)
            } else if at(c, p1, TokenKind::Comma) {
                p_params(c, p1 + 1, acc.push(prm))
            } else {
                Ok((acc.push(prm), p1))
            },
        }
    }
}

/// A function declaration at `pos`:
/// `fn name<T>(params) [-> Type] { body }`.
pub open spec fn p_fn_decl(c: Ctx, pos: int) -> PRes<FnDeclV> {
    if !at(c, pos, TokenKind::Fn) {
        Err(expected(c, pos, "`fn`"@))
    } else {
        match kind(c, pos + 1) {
            SpecTok::Ident(name) => match p_type_params(c, pos + 2) {
                Err(e) => Err(e),
                Ok((type_params, p1)) => if !at(c, p1, TokenKind::LParen) {
                    Err(expected(c, p1, "`(`"@))
                } else {
                    match p_params(c, p1 + 1, Seq::empty()) {
                        Err(e) => Err(e),
                        Ok((params, p2)) => if !at(c, p2, TokenKind::RParen) {
                            Err(expected(c, p2, "`)`"@))
                        } else {
                            let returns: Result<(Option<TypeV>, int), (Seq<char>, Span)> = if at(
                                c,
                                p2 + 1,
                                TokenKind::Arrow,
                            ) {
                                match p_type(c, p2 + 2) {
                                    Err(e) => Err(e),
                                    Ok((t, p3)) => Ok((Some(t), p3)),
                                }
                            } else {
                                Ok((None, p2 + 1))
                            };
                            match returns {
                                Err(e) => Err(e),
                                Ok((return_ty, p3)) => match p_block(c, p3) {
                                    Err(e) => Err(e),
                                    Ok((body, p4)) => Ok(
                                        (
                                            FnDeclV {
                                                name,
                                                type_params,
                                                params,
                                                return_ty,
                                                body,
                                                span: cover(sp(c, pos), body.span),
                                            },
                                            p4,
                                        ),
                                    ),
                                },
                            }
                        },
                    }
                },
            },
            _ => Err(expected(c, pos + 1, "function name"@)),
        }
    }
}

/// Whether one of `fields` is named `name`.
pub open spec fn has_field(fields: Seq<StructFieldV>, name: Seq<char>) -> bool {
    exists|i: int| 0 <= i < fields.len() && fields[i].name == name
}

/// Comma-separated fields `name: Type` of the struct `sname` at `pos`, up
/// to (not including) `}`, after the fields `acc` already read. A name
/// given twice is an error at its second occurrence.
pub open spec fn p_sfields(c: Ctx, pos: int, sname: Seq<char>, acc: Seq<StructFieldV>) -> PRes<
    Seq<StructFieldV>,
>
    decreases c.t.len() - pos,
{
    if at(c, pos, TokenKind::RBrace) {
        Ok((acc, pos))
    } else {
        match kind(c, pos) {
            SpecTok::Ident(name) => if has_field(acc, name) {
                Err(("duplicate field `"@ + name + "` in struct `"@ + sname + "`"@, sp(c, pos)))
            } else if !at(c, pos + 1, TokenKind::Colon) {
                Err(expected(c, pos + 1, "`:`"@))
            } else {
                match p_type(c, pos + 2) {
                    Err(e) => Err(e),
                    Ok((t, p1)) => if !adv(c, pos, p1) {
                        stuck(c)
                    } else {
                        let f = StructFieldV { name, ty: t, span: cover(sp(c, pos), t.span()) };
                        if at(c, p1, TokenKind::Comma) {
                            p_sfields(c, p1 + 1, sname, acc.push(f))
                        } else {
                            Ok((acc.push(f), p1))
                        }
                    },
                }
            },
            _ => Err(expected(c, pos, "field name"@)),
        }
    }
}

/// A struct declaration at `pos`: `struct Name<T> { fields }`, with at
/// least one field.
pub open spec fn p_struct_decl(c: Ctx, pos: int) -> PRes<StructDeclV> {
    if !at(c, pos, TokenKind::Struct) {
        Err(expected(c, pos, "`struct`"@))
    } else {
        match kind(c, pos + 1) {
            SpecTok::Ident(name) => match p_type_params(c, pos + 2) {
                Err(e) => Err(e),
                Ok((type_params, p1)) => if !at(c, p1, TokenKind::LBrace) {
                    Err(expected(c, p1, "`{`"@))
                } else {
                    match p_sfields(c, p1 + 1, name, Seq::empty()) {
                        Err(e) => Err(e),
                        Ok((fields, p2)) => if !at(c, p2, TokenKind::RBrace) {
                            Err(expected(c, p2, "`}`"@))
                        } else if fields.len() == 0 {
                            Err(
                                (
                                    "structs in M07.4 must have at least one field"@,
                                    cover(sp(c, pos), sp(c, p2)),
                                ),
                            )
                        } else {
                            Ok(
                                (
                                    StructDeclV {
                                        name,
                                        type_params,
                                        fields,
                                        span: cover(sp(c, pos), sp(c, p2)),
                                    },
                                    p2 + 1,
                                ),
                            )
                        },
                    }
                },
            },
            _ => Err(expected(c, pos + 1, "struct name"@)),
        }
    }
}

/// Function declarations at `pos` up to (not including) `}`, after the
/// declarations `acc` already read.
pub open spec fn p_impl_items(c: Ctx, pos: int, acc: Seq<FnDeclV>) -> PRes<Seq<FnDeclV>>
    decreases c.t.len() - pos,
{
    if at(c, pos, TokenKind::RBrace) {
        Ok((acc, pos))
    } else {
        match p_fn_decl(c, pos) {
            Err(e) => Err(e),
            Ok((f, p1)) => if !adv(c, pos, p1) {
                stuck(c)
            } else {
                p_impl_items(c, p1, acc.push(f))
            },
        }
    }
}

/// An inherent impl block at `pos`: `impl Name { fn .. }`.
pub open spec fn p_impl_block(c: Ctx, pos: int) -> PRes<ImplBlockV> {
    if !at(c, pos, TokenKind::Impl) {
        Err(expected(c, pos, "`impl`"@))
    } else {
        match kind(c, pos + 1) {
            SpecTok::Ident(ty_name) => if !at(c, pos + 2, TokenKind::LBrace) {
                Err(expected(c, pos + 2, "`{`"@))
            } else {
                match p_impl_items(c, pos + 3, Seq::empty()) {
                    Err(e) => Err(e),
                    Ok((items, p1)) => if at(c, p1, TokenKind::RBrace) {
                        Ok((ImplBlockV { ty_name, items, span: cover(sp(c, pos), sp(c, p1)) }, p1 + 1))
                    } else {
                        Err(expected(c, p1, "`}`"@))
                    },
                }
            },
            _ => Err(expected(c, pos + 1, "type name after `impl`"@)),
        }
    }
}

/// An item at `pos`: a function, a struct or an impl block.
pub open spec fn p_item(c: Ctx, pos: int) -> PRes<ItemV> {
    if at(c, pos, TokenKind::Fn) {
        match p_fn_decl(c, pos) {
            Err(e) => Err(e),
            Ok((f, p1)) => Ok((ItemV::Fn(f), p1)),
        }
    } else if at(c, pos, TokenKind::Struct) {
        match p_struct_decl(c, pos) {
            Err(e) => Err(e),
            Ok((d, p1)) => Ok((ItemV::Struct(d), p1)),
        }
    } else if at(c, pos, TokenKind::Impl) {
        match p_impl_block(c, pos) {
            Err(e) => Err(e),
            Ok((b, p1)) => Ok((ItemV::Impl(b), p1)),
        }
    } else {
        Err(expected(c, pos, "an item (`fn`, `struct`, or `impl`)"@))
    }
}

/// Items from `pos` up to end of input, after the items `acc` already read.
pub open spec fn p_items(c: Ctx, pos: int, acc: Seq<ItemV>) -> PRes<Seq<ItemV>>
    decreases c.t.len() - pos,
{
    if kind(c, pos) == SpecTok::Fixed(TokenKind::Eof) {
        Ok((acc, pos))
    } else {
        match p_item(c, pos) {
            Err(e) => Err(e),
            Ok((it, p1)) => if !adv(c, pos, p1) {
                stuck(c)
            } else {
                p_items(c, p1, acc.push(it))
            },
        }
    }
}

/// The span of a program with `items`: from the first item's start to the
/// last item's end, or `0..0` without items.
pub open spec fn program_span(c: Ctx, items: Seq<ItemV>) -> Span {
    if items.len() == 0 {
        Span { start: 0, end: 0, file: c.file }
    } else {
        cover(items[0].span(), items.last().span())
    }
}

/// The whole token sequence as a program.
pub open spec fn p_program(c: Ctx) -> Result<ProgramV, (Seq<char>, Span)> {
    match p_items(c, 0, Seq::empty()) {
        Err(e) => Err(e),
        Ok((items, _)) => Ok(ProgramV { items, span: program_span(c, items) }),
    }
}

} // verus!
