//! Recursive descent for items, statements and blocks; precedence climbing
//! for expressions. Every parse function yields exactly what the grammar in
//! [`crate::grammar`] says of the tokens at its position.

use vstd::prelude::*;

use crate::ast::{
    block_v, expr_v, exprs_v, fn_decl_v, impl_block_v, item_v, lemma_exprs_v_push,
    lemma_lit_fields_v_push, lemma_stmts_v_push, lemma_types_v_push, lit_fields_v, opt_type_v,
    param_v, program_v, stmts_v, struct_decl_v, struct_field_v, texts, type_param_v, type_span,
    type_v, types_v, BinOp, Block, Expr, ExprV, FnDecl, ImplBlock, Item, LetStmt, Param, ParamKind,
    Program, Stmt, StmtV, StructDecl, StructField, StructLitField, Type, TypeParam, TypeV, UnOp,
};
use crate::error::ParseError;
use crate::grammar::{
    at, binop, cover, expected, has_field, kind, lemma_tok_is, p_args, p_array, p_atom, p_block,
    p_block_items, p_borrow, p_deref, p_elems, p_expr, p_fn_decl, p_if, p_impl_block,
    p_impl_items, p_index_inner, p_item, p_items, p_let, p_lit_fields, p_name, p_param, p_params,
    p_path_segs, p_postfix, p_program, p_sfields, p_struct_decl, p_struct_lit, p_tparams, p_type,
    p_type_list, p_type_params, p_unary, receiver, sdescribe, sp, stag, token_v, tokens_v, Ctx,
    PRes,
};
use crate::lexer::{law_tokens_ordered, lex, lex_from, SpecToken};
use crate::span::{text_bytes, FileId, SourceMap, Span};
use crate::spanned::{law_parsed_spans_nonempty, nonempty, program_spanned};
use crate::text::{concat_str, decimal, str_eq};
use crate::token::{same_variant, tag, SpecTok, Token, TokenKind};

verus! {

/// `r` is what the grammar's outcome `s` describes: the same value (by
/// `view`) and end position, or the same error.
pub open spec fn yields<T, V>(
    r: Result<(T, usize), ParseError>,
    s: PRes<V>,
    view: spec_fn(T) -> V,
) -> bool {
    match s {
        Ok((v, p)) => r matches Ok((x, q)) && view(x) == v && q == p,
        Err((m, sp)) => r matches Err(e) && e.message@ == m && e.span == sp,
    }
}

/// A successful parse from `pos` ended at a token position after it.
pub open spec fn moved<T>(r: Result<(T, usize), ParseError>, pos: int, len: int) -> bool {
    r matches Ok((_, q)) ==> pos < q < len
}

/// A successful parse from `pos` ended at a token position at or after it.
pub open spec fn kept<T>(r: Result<(T, usize), ParseError>, pos: int, len: int) -> bool {
    r matches Ok((_, q)) ==> pos <= q < len
}

proof fn lemma_token_v(t: Token)
    ensures
        stag(token_v(t).0) == tag(t.kind),
        sdescribe(token_v(t).0) == t.kind.spec_describe(),
        (token_v(t).0 == SpecTok::Fixed(TokenKind::Eof)) == (t.kind is Eof),
{
    match t.kind {
        TokenKind::Float(_, _) => {},
        TokenKind::Ident(_) => {},
        TokenKind::Str(_) => {},
        _ => {},
    }
}

/// The smallest span covering `a` and `b`, in `a`'s file.
fn cover_span(a: Span, b: Span) -> (s: Span)
    ensures
        s == cover(a, b),
{
    Span {
        start: if a.start <= b.start {
            a.start
        } else {
            b.start
        },
        end: if a.end >= b.end {
            a.end
        } else {
            b.end
        },
        file: a.file,
    }
}

/// The token stream being parsed, the file it came from and the file's
/// byte length.
struct Parser {
    tokens: Vec<Token>,
    file: FileId,
    eof_pos: u32,
}

impl Parser {
    /// What the grammar sees of this parser.
    closed spec fn ctx(&self) -> Ctx {
        Ctx { t: tokens_v(self.tokens@), eof: self.eof_pos, file: self.file }
    }

    /// The stream is non-empty and ends with end of input.
    closed spec fn wf(&self) -> bool {
        &&& 1 <= self.tokens@.len() <= usize::MAX
        &&& self.tokens@[self.tokens@.len() - 1].kind is Eof
    }

    closed spec fn len(&self) -> int {
        self.tokens@.len() as int
    }

    proof fn lemma_tok(&self, i: int)
        requires
            0 <= i < self.len(),
        ensures
            kind(self.ctx(), i) == token_v(self.tokens@[i]).0,
            sp(self.ctx(), i) == self.tokens@[i].span,
            stag(kind(self.ctx(), i)) == tag(self.tokens@[i].kind),
            sdescribe(kind(self.ctx(), i)) == self.tokens@[i].kind.spec_describe(),
            (kind(self.ctx(), i) == SpecTok::Fixed(TokenKind::Eof)) == (
            self.tokens@[i].kind is Eof),
    {
        lemma_token_v(self.tokens@[i]);
    }

    /// Whether the token at `pos` is of the variant of `want`. A token other
    /// than end of input is never the last.
    fn at(&self, pos: usize, want: &TokenKind) -> (b: bool)
        requires
            self.wf(),
            pos < self.len(),
        ensures
            b == at(self.ctx(), pos as int, *want),
            b && !(*want is Eof) ==> pos + 1 < self.len(),
    {
        proof {
            self.lemma_tok(pos as int);
        }
        same_variant(&self.tokens[pos].kind, want)
    }

    /// The span of the token at `pos`.
    fn span_at(&self, pos: usize) -> (s: Span)
        requires
            pos < self.len(),
        ensures
            s == sp(self.ctx(), pos as int),
    {
        proof {
            self.lemma_tok(pos as int);
        }
        self.tokens[pos].span
    }

    /// The error for an unexpected token at `pos` where `label` was wanted.
    fn error_expected(&self, pos: usize, label: &str) -> (e: ParseError)
        requires
            pos < self.len(),
        ensures
            e.message@ == expected(self.ctx(), pos as int, label@).0,
            e.span == expected(self.ctx(), pos as int, label@).1,
    {
        proof {
            self.lemma_tok(pos as int);
        }
        let tok = &self.tokens[pos];
        let span = match tok.kind {
            TokenKind::Eof => Span::point(self.eof_pos, self.file),
            _ => tok.span,
        };
        let m = concat_str(
            concat_str(concat_str(String::from_str("expected "), label), ", found "),
            tok.kind.describe(),
        );
        ParseError { message: m, span }
    }

    /// The identifier at `pos`, or the error naming `label`.
    fn expect_ident(&self, pos: usize, label: &str) -> (r: Result<String, ParseError>)
        requires
            self.wf(),
            pos < self.len(),
        ensures
            kind(self.ctx(), pos as int) matches SpecTok::Ident(n) ==> (r matches Ok(s) && s@ == n
                && pos + 1 < self.len()),
            !(kind(self.ctx(), pos as int) is Ident) ==> (r matches Err(e) && e.message@
                == expected(self.ctx(), pos as int, label@).0 && e.span == expected(
                self.ctx(),
                pos as int,
                label@,
            ).1),
    {
        proof {
            self.lemma_tok(pos as int);
        }
        match &self.tokens[pos].kind {
            TokenKind::Ident(s) => Ok(s.clone()),
            _ => Err(self.error_expected(pos, label)),
        }
    }

    /// A type annotation at `pos`.
    fn parse_type(&self, pos: usize) -> (r: Result<(Type, usize), ParseError>)
        requires
            self.wf(),
            pos < self.len(),
        ensures
            yields(r, p_type(self.ctx(), pos as int), |t: Type| type_v(t)),
            moved(r, pos as int, self.len()),
        decreases self.len() - pos, 1int,
    {
        let ghost c = self.ctx();
        if self.at(pos, &TokenKind::LParen) {
            if !self.at(pos + 1, &TokenKind::RParen) {
                return Err(self.error_expected(pos + 1, "`)`"));
            }
            let span = cover_span(self.span_at(pos), self.span_at(pos + 1));
            return Ok((Type::Unit { span }, pos + 2));
        }
        if self.at(pos, &TokenKind::LBracket) {
            let (inner, p1) = match self.parse_type(pos + 1) {
                Ok(x) => x,
                Err(e) => return Err(e),
            };
            if !self.at(p1, &TokenKind::Semi) {
                return Err(self.error_expected(p1, "`;`"));
            }
            proof {
                self.lemma_tok(p1 + 1);
            }
            let size: u64 = match &self.tokens[p1 + 1].kind {
                TokenKind::Int(n, _) if *n >= 0 => *n as u64,
                _ => {
                    return Err(
                        ParseError {
                            message: String::from_str(
                                "array size must be a non-negative integer literal",
                            ),
                            span: self.span_at(p1 + 1),
                        },
                    );
                },
            };
            if !self.at(p1 + 2, &TokenKind::RBracket) {
                return Err(self.error_expected(p1 + 2, "`]`"));
            }
            let span = cover_span(self.span_at(pos), self.span_at(p1 + 2));
            return Ok((Type::Array { inner: Box::new(inner), size, span }, p1 + 3));
        }
        if self.at(pos, &TokenKind::Amp) || self.at(pos, &TokenKind::AmpMut) {
            let mutable = self.at(pos, &TokenKind::AmpMut);
            if self.at(pos + 1, &TokenKind::LBracket) {
                let (inner, p1) = match self.parse_type(pos + 2) {
                    Ok(x) => x,
                    Err(e) => return Err(e),
                };
                if !self.at(p1, &TokenKind::RBracket) {
                    return Err(self.error_expected(p1, "`]`"));
                }
                let span = cover_span(self.span_at(pos), self.span_at(p1));
                return Ok((Type::Slice { inner: Box::new(inner), mutable, span }, p1 + 1));
            }
            let (inner, p1) = match self.parse_type(pos + 1) {
                Ok(x) => x,
                Err(e) => return Err(e),
            };
            let span = cover_span(self.span_at(pos), type_span(&inner));
            return Ok((Type::Ref { inner: Box::new(inner), mutable, span }, p1));
        }
        let seg = match self.expect_ident(pos, "type") {
            Ok(s) => s,
            Err(e) => return Err(e),
        };
        let seg_span = self.span_at(pos);
        if self.at(pos + 1, &TokenKind::Lt) {
            let (args, p1) = match self.parse_type_list(pos + 2) {
                Ok(x) => x,
                Err(e) => return Err(e),
            };
            if !self.at(p1, &TokenKind::Gt) {
                return Err(self.error_expected(p1, "`>`"));
            }
            let span = cover_span(cover_span(seg_span, self.span_at(p1)), self.span_at(pos + 1));
            let generic = str_eq(seg.as_str(), "Box") || str_eq(
                seg.as_str(),
                "Vec",
            );
            let mut segments: Vec<String> = Vec::new();
            segments.push(seg);
            proof {
                assert(texts(segments@) =~= seq![segments@[0]@]);
            }
            if generic {
                return Ok((Type::Generic { segments, args, span }, p1 + 1));
            }
            return Ok((Type::Path { segments, type_args: args, span }, p1 + 1));
        }
        let mut segments: Vec<String> = Vec::new();
        segments.push(seg);
        proof {
            assert(texts(segments@) =~= seq![segments@[0]@]);
        }
        let type_args: Vec<Type> = Vec::new();
        let ty = Type::Path { segments, type_args, span: seg_span };
        proof {
            assert(types_v(type_args@, 0) == Seq::<TypeV>::empty());
        }
        Ok((ty, pos + 1))
    }

    /// A comma-separated, non-empty list of types at `pos`.
    fn parse_type_list(&self, pos: usize) -> (r: Result<(Vec<Type>, usize), ParseError>)
        requires
            self.wf(),
            pos < self.len(),
        ensures
            yields(
                r,
                p_type_list(self.ctx(), pos as int, Seq::empty()),
                |v: Vec<Type>| types_v(v@, v@.len()),
            ),
            moved(r, pos as int, self.len()),
        decreases self.len() - pos, 2int,
    {
        let ghost c = self.ctx();
        let mut acc: Vec<Type> = Vec::new();
        let mut q = pos;
        loop
            invariant
                self.wf(),
                pos <= q < self.len(),
                c == self.ctx(),
                p_type_list(c, q as int, types_v(acc@, acc@.len())) == p_type_list(
                    c,
                    pos as int,
                    Seq::empty(),
                ),
            decreases self.len() - q,
        {
            let (t, q1) = match self.parse_type(q) {
                Ok(x) => x,
                Err(e) => return Err(e),
            };
            proof {
                lemma_types_v_push(acc@, t);
            }
            acc.push(t);
            if self.at(q1, &TokenKind::Comma) {
                q = q1 + 1;
            } else {
                return Ok((acc, q1));
            }
        }
    }

    /// The binary operator at `pos`, if any, with its binding power.
    fn binop_at(&self, pos: usize) -> (r: Option<(BinOp, u8)>)
        requires
            pos < self.len(),
        ensures
            binop(kind(self.ctx(), pos as int)) matches Some((op, bp)) ==> r == Some((op, bp as u8))
                && bp <= 60,
            binop(kind(self.ctx(), pos as int)) is None ==> r is None,
    {
        proof {
            self.lemma_tok(pos as int);
        }
        match self.tokens[pos].kind {
            TokenKind::OrOr => Some((BinOp::Or, 10)),
            TokenKind::AndAnd => Some((BinOp::And, 20)),
            TokenKind::EqEq => Some((BinOp::Eq, 30)),
            TokenKind::BangEq => Some((BinOp::Neq, 30)),
            TokenKind::Lt => Some((BinOp::Lt, 40)),
            TokenKind::Le => Some((BinOp::Le, 40)),
            TokenKind::Gt => Some((BinOp::Gt, 40)),
            TokenKind::Ge => Some((BinOp::Ge, 40)),
            TokenKind::Plus => Some((BinOp::Add, 50)),
            TokenKind::Minus => Some((BinOp::Sub, 50)),
            TokenKind::Star => Some((BinOp::Mul, 60)),
            TokenKind::Slash => Some((BinOp::Div, 60)),
            TokenKind::Percent => Some((BinOp::Rem, 60)),
            _ => None,
        }
    }

    /// An expression at `pos` whose binary operators bind tighter than
    /// `min_bp`; with `restrict`, no struct literal after a bare name.
    fn parse_expr(&self, pos: usize, min_bp: u8, restrict: bool) -> (r: Result<
        (Expr, usize),
        ParseError,
    >)
        requires
            self.wf(),
            pos < self.len(),
        ensures
            yields(r, p_expr(self.ctx(), pos as int, min_bp as int, restrict), |e: Expr| expr_v(e)),
            moved(r, pos as int, self.len()),
        decreases self.len() - pos, 5int,
    {
        let ghost c = self.ctx();
        let (mut lhs, mut q) = match self.parse_atom(pos, restrict) {
            Ok(x) => x,
            Err(e) => return Err(e),
        };
        loop
            invariant
                self.wf(),
                c == self.ctx(),
                pos < q < self.len(),
                p_postfix(c, q as int, expr_v(lhs), min_bp as int, restrict) == p_expr(
                    c,
                    pos as int,
                    min_bp as int,
                    restrict,
                ),
            decreases self.len() - q,
        {
            if self.at(q, &TokenKind::Dot) {
                let name = match self.expect_ident(q + 1, "field or method name") {
                    Ok(s) => s,
                    Err(e) => return Err(e),
                };
                let name_span = self.span_at(q + 1);
                if self.at(q + 2, &TokenKind::LParen) {
                    let (args, p1) = match self.parse_args(q + 3) {
                        Ok(x) => x,
                        Err(e) => return Err(e),
                    };
                    if !self.at(p1, &TokenKind::RParen) {
                        return Err(self.error_expected(p1, "`)`"));
                    }
                    let span = cover_span(lhs.span(), self.span_at(p1));
                    lhs = Expr::MethodCall { receiver: Box::new(lhs), name, args, span };
                    q = p1 + 1;
                } else {
                    let span = cover_span(lhs.span(), name_span);
                    lhs = Expr::FieldAccess { receiver: Box::new(lhs), name, span };
                    q = q + 2;
                }
            } else if self.at(q, &TokenKind::LBracket) {
                let lbracket = self.span_at(q);
                let (index, p1) = match self.parse_index_inner(q + 1, lbracket) {
                    Ok(x) => x,
                    Err(e) => return Err(e),
                };
                if !self.at(p1, &TokenKind::RBracket) {
                    return Err(self.error_expected(p1, "`]`"));
                }
                let span = cover_span(lhs.span(), self.span_at(p1));
                lhs = Expr::Index { receiver: Box::new(lhs), index: Box::new(index), span };
                q = p1 + 1;
            } else if self.at(q, &TokenKind::LParen) {
                let (args, p1) = match self.parse_args(q + 1) {
                    Ok(x) => x,
                    Err(e) => return Err(e),
                };
                if !self.at(p1, &TokenKind::RParen) {
                    return Err(self.error_expected(p1, "`)`"));
                }
                let span = cover_span(lhs.span(), self.span_at(p1));
                lhs = Expr::Call { callee: Box::new(lhs), args, span };
                q = p1 + 1;
            } else {
                let (op, bp) = match self.binop_at(q) {
                    Some(x) => x,
                    None => return Ok((lhs, q)),
                };
                if bp <= min_bp {
                    return Ok((lhs, q));
                }
                proof {
                    self.lemma_tok(q as int);
                }
                let (rhs, p1) = match self.parse_expr(q + 1, bp, restrict) {
                    Ok(x) => x,
                    Err(e) => return Err(e),
                };
                let span = cover_span(lhs.span(), rhs.span());
                lhs = Expr::Binary { op, lhs: Box::new(lhs), rhs: Box::new(rhs), span };
                q = p1;
            }
        }
    }

    /// Call arguments at `pos` up to (not including) `)`.
    fn parse_args(&self, pos: usize) -> (r: Result<(Vec<Expr>, usize), ParseError>)
        requires
            self.wf(),
            pos < self.len(),
        ensures
            yields(r, p_args(self.ctx(), pos as int, Seq::empty()), |v: Vec<Expr>| exprs_v(v@, v@.len())),
            kept(r, pos as int, self.len()),
        decreases self.len() - pos, 7int,
    {
        let ghost c = self.ctx();
        let mut acc: Vec<Expr> = Vec::new();
        let mut q = pos;
        proof {
            assert(exprs_v(acc@, 0) == Seq::<ExprV>::empty());
        }
        loop
            invariant
                self.wf(),
                c == self.ctx(),
                pos <= q < self.len(),
                p_args(c, q as int, exprs_v(acc@, acc@.len())) == p_args(c, pos as int, Seq::empty()),
            decreases self.len() - q,
        {
            if self.at(q, &TokenKind::RParen) {
                return Ok((acc, q));
            }
            let (e, q1) = match self.parse_expr(q, 0, false) {
                Ok(x) => x,
                Err(e) => return Err(e),
            };
            proof {
                lemma_exprs_v_push(acc@, e);
            }
            acc.push(e);
            if self.at(q1, &TokenKind::Comma) {
                q = q1 + 1;
            } else {
                return Ok((acc, q1));
            }
        }
    }

    /// Array literal elements at `pos` (at least one).
    fn parse_elems(&self, pos: usize) -> (r: Result<(Vec<Expr>, usize), ParseError>)
        requires
            self.wf(),
            pos < self.len(),
        ensures
            yields(r, p_elems(self.ctx(), pos as int, Seq::empty()), |v: Vec<Expr>| exprs_v(v@, v@.len())),
            moved(r, pos as int, self.len()),
        decreases self.len() - pos, 7int,
    {
        let ghost c = self.ctx();
        let mut acc: Vec<Expr> = Vec::new();
        let mut q = pos;
        proof {
            assert(exprs_v(acc@, 0) == Seq::<ExprV>::empty());
        }
        loop
            invariant
                self.wf(),
                c == self.ctx(),
                pos <= q < self.len(),
                p_elems(c, q as int, exprs_v(acc@, acc@.len())) == p_elems(c, pos as int, Seq::empty()),
            decreases self.len() - q,
        {
            let (e, q1) = match self.parse_expr(q, 0, false) {
                Ok(x) => x,
                Err(e) => return Err(e),
            };
            proof {
                lemma_exprs_v_push(acc@, e);
            }
            acc.push(e);
            if !self.at(q1, &TokenKind::Comma) {
                return Ok((acc, q1));
            }
            if self.at(q1 + 1, &TokenKind::RBracket) {
                return Ok((acc, q1 + 1));
            }
            q = q1 + 1;
        }
    }

    /// The inside of an index bracket at `pos`; `lbracket` is the `[`'s span.
    fn parse_index_inner(&self, pos: usize, lbracket: Span) -> (r: Result<(Expr, usize), ParseError>)
        requires
            self.wf(),
            pos < self.len(),
        ensures
            yields(r, p_index_inner(self.ctx(), pos as int, lbracket), |e: Expr| expr_v(e)),
            moved(r, pos as int, self.len()),
        decreases self.len() - pos, 7int,
    {
        if self.at(pos, &TokenKind::DotDot) {
            let dotdot = self.span_at(pos);
            if self.at(pos + 1, &TokenKind::RBracket) {
                return Ok(
                    (Expr::Range { start: None, end: None, span: cover_span(lbracket, dotdot) }, pos + 1),
                );
            }
            let (end, p1) = match self.parse_expr(pos + 1, 0, false) {
                Ok(x) => x,
                Err(e) => return Err(e),
            };
            let span = cover_span(lbracket, end.span());
            return Ok((Expr::Range { start: None, end: Some(Box::new(end)), span }, p1));
        }
        let (first, p1) = match self.parse_expr(pos, 0, false) {
            Ok(x) => x,
            Err(e) => return Err(e),
        };
        if self.at(p1, &TokenKind::DotDot) {
            if self.at(p1 + 1, &TokenKind::RBracket) {
                let span = first.span();
                return Ok((Expr::Range { start: Some(Box::new(first)), end: None, span }, p1 + 1));
            }
            let (end, p2) = match self.parse_expr(p1 + 1, 0, false) {
                Ok(x) => x,
                Err(e) => return Err(e),
            };
            let span = cover_span(first.span(), end.span());
            return Ok(
                (Expr::Range { start: Some(Box::new(first)), end: Some(Box::new(end)), span }, p2),
            );
        }
        Ok((first, p1))
    }

    /// The rest of a path at `pos` (at a `::`), after its first segment
    /// `first` spanning `first_span`: the segments, turbofish type
    /// arguments and the span of the path's last token.
    fn parse_path_segs(&self, pos: usize, first: String, first_span: Span) -> (r: Result<
        ((Vec<String>, Vec<Type>, Span), usize),
        ParseError,
    >)
        requires
            self.wf(),
            pos < self.len(),
        ensures
            yields(
                r,
                p_path_segs(self.ctx(), pos as int, seq![first@], first_span),
                |x: (Vec<String>, Vec<Type>, Span)| (texts(x.0@), types_v(x.1@, x.1@.len()), x.2),
            ),
            kept(r, pos as int, self.len()),
    {
        let ghost c = self.ctx();
        let mut segments: Vec<String> = Vec::new();
        segments.push(first);
        let mut end = first_span;
        let mut q = pos;
        proof {
            assert(texts(segments@) =~= seq![first@]);
        }
        loop
            invariant
                self.wf(),
                c == self.ctx(),
                pos <= q < self.len(),
                p_path_segs(c, q as int, texts(segments@), end) == p_path_segs(
                    c,
                    pos as int,
                    seq![first@],
                    first_span,
                ),
            decreases self.len() - q,
        {
            if !self.at(q, &TokenKind::ColonColon) {
                let type_args: Vec<Type> = Vec::new();
                proof {
                    assert(types_v(type_args@, 0) == Seq::<TypeV>::empty());
                }
                return Ok(((segments, type_args, end), q));
            }
            if self.at(q + 1, &TokenKind::Lt) {
                let (type_args, p1) = match self.parse_type_list(q + 2) {
                    Ok(x) => x,
                    Err(e) => return Err(e),
                };
                if !self.at(p1, &TokenKind::Gt) {
                    return Err(self.error_expected(p1, "`>`"));
                }
                let gt = self.span_at(p1);
                return Ok(((segments, type_args, gt), p1 + 1));
            }
            let seg = match self.expect_ident(q + 1, "path segment") {
                Ok(s) => s,
                Err(e) => return Err(e),
            };
            end = self.span_at(q + 1);
            proof {
                assert(texts(segments@.push(seg)) =~= texts(segments@).push(seg@));
            }
            segments.push(seg);
            q = q + 2;
        }
    }

    /// An array literal at `pos`.
    fn parse_array_lit(&self, pos: usize) -> (r: Result<(Expr, usize), ParseError>)
        requires
            self.wf(),
            pos < self.len(),
        ensures
            yields(r, p_array(self.ctx(), pos as int), |e: Expr| expr_v(e)),
            moved(r, pos as int, self.len()),
        decreases self.len() - pos, 3int,
    {
        if !self.at(pos, &TokenKind::LBracket) {
            return Err(self.error_expected(pos, "`[`"));
        }
        let lbracket = self.span_at(pos);
        if self.at(pos + 1, &TokenKind::RBracket) {
            let elements: Vec<Expr> = Vec::new();
            proof {
                assert(exprs_v(elements@, 0) == Seq::<ExprV>::empty());
            }
            let span = cover_span(lbracket, self.span_at(pos + 1));
            return Ok((Expr::ArrayLit { elements, span }, pos + 2));
        }
        let (elements, p1) = match self.parse_elems(pos + 1) {
            Ok(x) => x,
            Err(e) => return Err(e),
        };
        if !self.at(p1, &TokenKind::RBracket) {
            return Err(self.error_expected(p1, "`]`"));
        }
        let span = cover_span(lbracket, self.span_at(p1));
        Ok((Expr::ArrayLit { elements, span }, p1 + 1))
    }

    /// A name, path or struct literal at `pos`.
    fn parse_name(&self, pos: usize, restrict: bool) -> (r: Result<(Expr, usize), ParseError>)
        requires
            self.wf(),
            pos < self.len(),
        ensures
            yields(r, p_name(self.ctx(), pos as int, restrict), |e: Expr| expr_v(e)),
            moved(r, pos as int, self.len()),
        decreases self.len() - pos, 3int,
    {
        let name = match self.expect_ident(pos, "identifier") {
            Ok(s) => s,
            Err(e) => return Err(e),
        };
        let s = self.span_at(pos);
        if self.at(pos + 1, &TokenKind::ColonColon) {
            let ((segments, type_args, end), p1) = match self.parse_path_segs(pos + 1, name, s) {
                Ok(x) => x,
                Err(e) => return Err(e),
            };
            if type_args.len() > 0 && self.at(p1, &TokenKind::LBrace) && !restrict {
                return self.parse_struct_lit(p1, segments, type_args, s);
            }
            let span = cover_span(s, end);
            return Ok((Expr::Path { segments, type_args, span }, p1));
        }
        if self.at(pos + 1, &TokenKind::LBrace) && !restrict {
            let mut path: Vec<String> = Vec::new();
            path.push(name);
            proof {
                assert(texts(path@) =~= seq![path@[0]@]);
            }
            let type_args: Vec<Type> = Vec::new();
            proof {
                assert(types_v(type_args@, 0) == Seq::<TypeV>::empty());
            }
            return self.parse_struct_lit(pos + 1, path, type_args, s);
        }
        Ok((Expr::Ident(name, s), pos + 1))
    }

    /// An `if` expression at `pos`.
    fn parse_if(&self, pos: usize) -> (r: Result<(Expr, usize), ParseError>)
        requires
            self.wf(),
            pos < self.len(),
        ensures
            yields(r, p_if(self.ctx(), pos as int), |e: Expr| expr_v(e)),
            moved(r, pos as int, self.len()),
        decreases self.len() - pos, 3int,
    {
        if !self.at(pos, &TokenKind::If) {
            return Err(self.error_expected(pos, "`if`"));
        }
        let s = self.span_at(pos);
        let (cond, p1) = match self.parse_expr(pos + 1, 0, true) {
            Ok(x) => x,
            Err(e) => return Err(e),
        };
        let (then_block, p2) = match self.parse_block(p1) {
            Ok(x) => x,
            Err(e) => return Err(e),
        };
        if self.at(p2, &TokenKind::Else) {
            let (else_block, p3) = match self.parse_block(p2 + 1) {
                Ok(x) => x,
                Err(e) => return Err(e),
            };
            let span = cover_span(s, else_block.span);
            return Ok(
                (
                    Expr::If {
                        cond: Box::new(cond),
                        then_block: Box::new(then_block),
                        else_block: Some(Box::new(else_block)),
                        span,
                    },
                    p3,
                ),
            );
        }
        let span = cover_span(s, then_block.span);
        Ok(
            (
                Expr::If {
                    cond: Box::new(cond),
                    then_block: Box::new(then_block),
                    else_block: None,
                    span,
                },
                p2,
            ),
        )
    }

    /// A primary expression at `pos`.
    fn parse_atom(&self, pos: usize, restrict: bool) -> (r: Result<(Expr, usize), ParseError>)
        requires
            self.wf(),
            pos < self.len(),
        ensures
            yields(r, p_atom(self.ctx(), pos as int, restrict), |e: Expr| expr_v(e)),
            moved(r, pos as int, self.len()),
        decreases self.len() - pos, 4int,
    {
        if self.at(pos, &TokenKind::LBracket) {
            return self.parse_array_lit(pos);
        }
        proof {
            self.lemma_tok(pos as int);
        }
        let s = self.span_at(pos);
        match &self.tokens[pos].kind {
            TokenKind::Int(v, k) => Ok((Expr::LitInt(*v, *k, s), pos + 1)),
            TokenKind::Float(t, k) => Ok((Expr::LitFloat(t.clone(), *k, s), pos + 1)),
            TokenKind::Bool(b) => Ok((Expr::LitBool(*b, s), pos + 1)),
            TokenKind::Str(t) => Ok((Expr::StrLit(t.clone(), s), pos + 1)),
            TokenKind::SelfKw => Ok((Expr::Ident(String::from_str("self"), s), pos + 1)),
            TokenKind::Ident(_) => self.parse_name(pos, restrict),
            TokenKind::LParen => {
                let (inner, p1) = match self.parse_expr(pos + 1, 0, false) {
                    Ok(x) => x,
                    Err(e) => return Err(e),
                };
                if !self.at(p1, &TokenKind::RParen) {
                    return Err(self.error_expected(p1, "`)`"));
                }
                let span = cover_span(s, self.span_at(p1));
                Ok((Expr::Paren { inner: Box::new(inner), span }, p1 + 1))
            },
            TokenKind::LBrace => {
                let (block, p1) = match self.parse_block(pos) {
                    Ok(x) => x,
                    Err(e) => return Err(e),
                };
                Ok((Expr::Block(Box::new(block)), p1))
            },
            TokenKind::If => self.parse_if(pos),
            TokenKind::Minus => self.parse_unary(pos, UnOp::Neg, restrict),
            TokenKind::Bang => self.parse_unary(pos, UnOp::Not, restrict),
            TokenKind::Amp => self.parse_borrow_expr(pos, false, restrict),
            TokenKind::AmpMut => self.parse_borrow_expr(pos, true, restrict),
            TokenKind::Star => self.parse_deref_expr(pos, restrict),
            _ => Err(self.error_expected(pos, "expression")),
        }
    }

    /// The prefix operator `op` at `pos` and its operand.
    fn parse_unary(&self, pos: usize, op: UnOp, restrict: bool) -> (r: Result<(Expr, usize), ParseError>)
        requires
            self.wf(),
            pos + 1 < self.len(),
        ensures
            yields(r, p_unary(self.ctx(), pos as int, op, restrict), |e: Expr| expr_v(e)),
            moved(r, pos as int, self.len()),
        decreases self.len() - pos, 3int,
    {
        let (expr, p1) = match self.parse_expr(pos + 1, 70, restrict) {
            Ok(x) => x,
            Err(e) => return Err(e),
        };
        let span = cover_span(self.span_at(pos), expr.span());
        Ok((Expr::Unary { op, expr: Box::new(expr), span }, p1))
    }

    /// The borrow at `pos` (`&mut` with `mutable`) and its operand.
    fn parse_borrow_expr(&self, pos: usize, mutable: bool, restrict: bool) -> (r: Result<
        (Expr, usize),
        ParseError,
    >)
        requires
            self.wf(),
            pos + 1 < self.len(),
        ensures
            yields(r, p_borrow(self.ctx(), pos as int, mutable, restrict), |e: Expr| expr_v(e)),
            moved(r, pos as int, self.len()),
        decreases self.len() - pos, 3int,
    {
        let (inner, p1) = match self.parse_expr(pos + 1, 70, restrict) {
            Ok(x) => x,
            Err(e) => return Err(e),
        };
        let span = cover_span(self.span_at(pos), inner.span());
        Ok((Expr::Borrow { inner: Box::new(inner), mutable, span }, p1))
    }

    /// The dereference at `pos` and its operand.
    fn parse_deref_expr(&self, pos: usize, restrict: bool) -> (r: Result<(Expr, usize), ParseError>)
        requires
            self.wf(),
            pos + 1 < self.len(),
        ensures
            yields(r, p_deref(self.ctx(), pos as int, restrict), |e: Expr| expr_v(e)),
            moved(r, pos as int, self.len()),
        decreases self.len() - pos, 3int,
    {
        let (inner, p1) = match self.parse_expr(pos + 1, 70, restrict) {
            Ok(x) => x,
            Err(e) => return Err(e),
        };
        let span = cover_span(self.span_at(pos), inner.span());
        Ok((Expr::Deref { inner: Box::new(inner), span }, p1))
    }

    /// The `{ fields }` of a struct literal at `pos`, after its `path` (with
    /// `type_args`) that started at `start`.
    fn parse_struct_lit(&self, pos: usize, path: Vec<String>, type_args: Vec<Type>, start: Span) -> (r:
        Result<(Expr, usize), ParseError>)
        requires
            self.wf(),
            pos < self.len(),
        ensures
            yields(
                r,
                p_struct_lit(
                    self.ctx(),
                    pos as int,
                    texts(path@),
                    types_v(type_args@, type_args@.len()),
                    start,
                ),
                |e: Expr| expr_v(e),
            ),
            moved(r, pos as int, self.len()),
        decreases self.len() - pos, 3int,
    {
        if !self.at(pos, &TokenKind::LBrace) {
            return Err(self.error_expected(pos, "`{`"));
        }
        let (fields, p1) = match self.parse_lit_fields(pos + 1) {
            Ok(x) => x,
            Err(e) => return Err(e),
        };
        if !self.at(p1, &TokenKind::RBrace) {
            return Err(self.error_expected(p1, "`}`"));
        }
        let span = cover_span(start, self.span_at(p1));
        Ok((Expr::StructLit { path, type_args, fields, span }, p1 + 1))
    }

    /// Struct literal fields at `pos` up to (not including) `}`.
    fn parse_lit_fields(&self, pos: usize) -> (r: Result<(Vec<StructLitField>, usize), ParseError>)
        requires
            self.wf(),
            pos < self.len(),
        ensures
            yields(
                r,
                p_lit_fields(self.ctx(), pos as int, Seq::empty()),
                |v: Vec<StructLitField>| lit_fields_v(v@, v@.len()),
            ),
            kept(r, pos as int, self.len()),
        decreases self.len() - pos, 7int,
    {
        let ghost c = self.ctx();
        let mut fields: Vec<StructLitField> = Vec::new();
        let mut q = pos;
        proof {
            assert(lit_fields_v(fields@, 0) == Seq::<crate::ast::LitFieldV>::empty());
        }
        loop
            invariant
                self.wf(),
                c == self.ctx(),
                pos <= q < self.len(),
                p_lit_fields(c, q as int, lit_fields_v(fields@, fields@.len())) == p_lit_fields(
                    c,
                    pos as int,
                    Seq::empty(),
                ),
            decreases self.len() - q,
        {
            if self.at(q, &TokenKind::RBrace) {
                return Ok((fields, q));
            }
            let name = match self.expect_ident(q, "field name") {
                Ok(s) => s,
                Err(e) => return Err(e),
            };
            let name_span = self.span_at(q);
            let (field, q1) = if self.at(q + 1, &TokenKind::Colon) {
                let (value, p1) = match self.parse_expr(q + 2, 0, false) {
                    Ok(x) => x,
                    Err(e) => return Err(e),
                };
                let span = cover_span(name_span, value.span());
                (StructLitField { name, value: Some(value), span }, p1)
            } else {
                (StructLitField { name, value: None, span: cover_span(name_span, name_span) }, q + 1)
            };
            proof {
                lemma_lit_fields_v_push(fields@, field);
            }
            fields.push(field);
            if self.at(q1, &TokenKind::Comma) {
                q = q1 + 1;
            } else {
                return Ok((fields, q1));
            }
        }
    }

    /// A block `{ stmts tail }` at `pos`.
    fn parse_block(&self, pos: usize) -> (r: Result<(Block, usize), ParseError>)
        requires
            self.wf(),
            pos < self.len(),
        ensures
            yields(r, p_block(self.ctx(), pos as int), |b: Block| block_v(b)),
            moved(r, pos as int, self.len()),
        decreases self.len() - pos, 3int,
    {
        if !self.at(pos, &TokenKind::LBrace) {
            return Err(self.error_expected(pos, "`{`"));
        }
        let ((stmts, tail), p1) = match self.parse_block_items(pos + 1) {
            Ok(x) => x,
            Err(e) => return Err(e),
        };
        if !self.at(p1, &TokenKind::RBrace) {
            return Err(self.error_expected(p1, "`}`"));
        }
        let span = cover_span(self.span_at(pos), self.span_at(p1));
        Ok((Block { stmts, tail, span }, p1 + 1))
    }

    /// The statements and tail expression of a block at `pos`, up to (not
    /// including) its `}`.
    fn parse_block_items(&self, pos: usize) -> (r: Result<
        ((Vec<Stmt>, Option<Box<Expr>>), usize),
        ParseError,
    >)
        requires
            self.wf(),
            pos < self.len(),
        ensures
            yields(
                r,
                p_block_items(self.ctx(), pos as int, Seq::empty()),
                |x: (Vec<Stmt>, Option<Box<Expr>>)|
                    (
                        stmts_v(x.0@, x.0@.len()),
                        match x.1 {
                            Some(e) => Some(Box::new(expr_v(*e))),
                            None => None,
                        },
                    ),
            ),
            kept(r, pos as int, self.len()),
        decreases self.len() - pos, 8int,
    {
        let ghost c = self.ctx();
        let mut stmts: Vec<Stmt> = Vec::new();
        let mut q = pos;
        proof {
            assert(stmts_v(stmts@, 0) == Seq::<StmtV>::empty());
        }
        loop
            invariant
                self.wf(),
                c == self.ctx(),
                pos <= q < self.len(),
                p_block_items(c, q as int, stmts_v(stmts@, stmts@.len())) == p_block_items(
                    c,
                    pos as int,
                    Seq::empty(),
                ),
            decreases self.len() - q,
        {
            if self.at(q, &TokenKind::RBrace) {
                return Ok(((stmts, None), q));
            }
            if self.at(q, &TokenKind::Let) {
                let (l, q1) = match self.parse_let_stmt(q) {
                    Ok(x) => x,
                    Err(e) => return Err(e),
                };
                proof {
                    lemma_stmts_v_push(stmts@, Stmt::Let(l));
                }
                stmts.push(Stmt::Let(l));
                q = q1;
            } else {
                let (expr, q1) = match self.parse_expr(q, 0, false) {
                    Ok(x) => x,
                    Err(e) => return Err(e),
                };
                if self.at(q1, &TokenKind::Eq) {
                    let (rhs, q2) = match self.parse_expr(q1 + 1, 0, false) {
                        Ok(x) => x,
                        Err(e) => return Err(e),
                    };
                    if !self.at(q2, &TokenKind::Semi) {
                        return Err(self.error_expected(q2, "`;`"));
                    }
                    let span = cover_span(expr.span(), self.span_at(q2));
                    let st = Stmt::Assign { lhs: expr, rhs, span };
                    proof {
                        lemma_stmts_v_push(stmts@, st);
                    }
                    stmts.push(st);
                    q = q2 + 1;
                } else if self.at(q1, &TokenKind::Semi) {
                    proof {
                        lemma_stmts_v_push(stmts@, Stmt::Expr(expr));
                    }
                    stmts.push(Stmt::Expr(expr));
                    q = q1 + 1;
                } else if self.at(q1, &TokenKind::RBrace) {
                    return Ok(((stmts, Some(Box::new(expr))), q1));
                } else {
                    return Err(self.error_expected(q1, "`;`, `=`, or `}`"));
                }
            }
        }
    }

    /// A `let` statement at `pos`.
    fn parse_let_stmt(&self, pos: usize) -> (r: Result<(LetStmt, usize), ParseError>)
        requires
            self.wf(),
            pos < self.len(),
        ensures
            yields(
                r,
                p_let(self.ctx(), pos as int),
                |l: LetStmt| crate::ast::LetV {
                    mutable: l.mutable,
                    name: l.name@,
                    ty: opt_type_v(l.ty),
                    init: expr_v(l.init),
                    span: l.span,
                },
            ),
            moved(r, pos as int, self.len()),
        decreases self.len() - pos, 7int,
    {
        if !self.at(pos, &TokenKind::Let) {
            return Err(self.error_expected(pos, "`let`"));
        }
        let mutable = self.at(pos + 1, &TokenKind::Mut);
        let q = if mutable {
            pos + 2
        } else {
            pos + 1
        };
        let name = match self.expect_ident(q, "binding name") {
            Ok(s) => s,
            Err(e) => return Err(e),
        };
        let (ty, p1) = if self.at(q + 1, &TokenKind::Colon) {
            match self.parse_type(q + 2) {
                Ok((t, p1)) => (Some(t), p1),
                Err(e) => return Err(e),
            }
        } else {
            (None, q + 1)
        };
        if !self.at(p1, &TokenKind::Eq) {
            return Err(self.error_expected(p1, "`=`"));
        }
        let (init, p2) = match self.parse_expr(p1 + 1, 0, false) {
            Ok(x) => x,
            Err(e) => return Err(e),
        };
        if !self.at(p2, &TokenKind::Semi) {
            return Err(self.error_expected(p2, "`;`"));
        }
        let span = cover_span(self.span_at(pos), self.span_at(p2));
        Ok((LetStmt { mutable, name, ty, init, span }, p2 + 1))
    }

    /// Type parameters at `pos` up to (not including) `>`.
    fn parse_tparams(&self, pos: usize) -> (r: Result<(Vec<TypeParam>, usize), ParseError>)
        requires
            self.wf(),
            pos < self.len(),
        ensures
            yields(
                r,
                p_tparams(self.ctx(), pos as int, Seq::empty()),
                |v: Vec<TypeParam>| v@.map_values(|p: TypeParam| type_param_v(p)),
            ),
            kept(r, pos as int, self.len()),
    {
        let ghost c = self.ctx();
        let mut params: Vec<TypeParam> = Vec::new();
        let mut q = pos;
        proof {
            assert(params@.map_values(|p: TypeParam| type_param_v(p)) =~= Seq::empty());
        }
        loop
            invariant
                self.wf(),
                c == self.ctx(),
                pos <= q < self.len(),
                p_tparams(c, q as int, params@.map_values(|p: TypeParam| type_param_v(p)))
                    == p_tparams(c, pos as int, Seq::empty()),
            decreases self.len() - q,
        {
            if self.at(q, &TokenKind::Gt) {
                return Ok((params, q));
            }
            let name = match self.expect_ident(q, "type parameter name") {
                Ok(s) => s,
                Err(e) => return Err(e),
            };
            let name_span = self.span_at(q);
            let (bound, q1) = if self.at(q + 1, &TokenKind::Colon) {
                match self.expect_ident(q + 2, "trait name in bound") {
                    Ok(b) => (Some(b), q + 3),
                    Err(e) => return Err(e),
                }
            } else {
                (None, q + 1)
            };
            let tp = TypeParam { name, bound, span: name_span };
            proof {
                assert(params@.push(tp).map_values(|p: TypeParam| type_param_v(p)) =~= params@.map_values(
                    |p: TypeParam| type_param_v(p),
                ).push(type_param_v(tp)));
            }
            params.push(tp);
            if self.at(q1, &TokenKind::Comma) {
                q = q1 + 1;
            } else {
                return Ok((params, q1));
            }
        }
    }

    /// An optional type-parameter list at `pos`.
    fn parse_type_params(&self, pos: usize) -> (r: Result<(Vec<TypeParam>, usize), ParseError>)
        requires
            self.wf(),
            pos < self.len(),
        ensures
            yields(
                r,
                p_type_params(self.ctx(), pos as int),
                |v: Vec<TypeParam>| v@.map_values(|p: TypeParam| type_param_v(p)),
            ),
            kept(r, pos as int, self.len()),
    {
        if !self.at(pos, &TokenKind::Lt) {
            let none: Vec<TypeParam> = Vec::new();
            proof {
                assert(none@.map_values(|p: TypeParam| type_param_v(p)) =~= Seq::empty());
            }
            return Ok((none, pos));
        }
        let (params, p1) = match self.parse_tparams(pos + 1) {
            Ok(x) => x,
            Err(e) => return Err(e),
        };
        if !self.at(p1, &TokenKind::Gt) {
            return Err(self.error_expected(p1, "`>`"));
        }
        Ok((params, p1 + 1))
    }

    /// The receiver the parameter at `pos` starts with, if any.
    fn receiver_at(&self, pos: usize) -> (r: Option<ParamKind>)
        requires
            self.wf(),
            pos < self.len(),
        ensures
            r == receiver(self.ctx(), pos as int),
    {
        proof {
            self.lemma_tok(pos as int);
        }
        match self.tokens[pos].kind {
            TokenKind::SelfKw => Some(ParamKind::SelfOwned),
            TokenKind::Amp => if pos + 1 < self.tokens.len() && self.at(pos + 1, &TokenKind::SelfKw) {
                Some(ParamKind::SelfShared)
            } else {
                None
            },
            TokenKind::AmpMut => if pos + 1 < self.tokens.len() && self.at(
                pos + 1,
                &TokenKind::SelfKw,
            ) {
                Some(ParamKind::SelfMut)
            } else {
                None
            },
            _ => None,
        }
    }

    /// The parameter at `pos`, the `index`-th of its function.
    fn parse_param(&self, pos: usize, index: usize) -> (r: Result<(Param, usize), ParseError>)
        requires
            self.wf(),
            pos < self.len(),
        ensures
            yields(r, p_param(self.ctx(), pos as int, index as int), |p: Param| param_v(p)),
            moved(r, pos as int, self.len()),
    {
        match self.receiver_at(pos) {
            Some(kind) => {
                if index != 0 {
                    return Err(
                        ParseError {
                            message: String::from_str("`self` parameter must be the first parameter"),
                            span: self.span_at(pos),
                        },
                    );
                }
                let q = if matches!(kind, ParamKind::SelfOwned) {
                    pos
                } else {
                    pos + 1
                };
                if !self.at(q, &TokenKind::SelfKw) {
                    return Err(self.error_expected(q, "`self`"));
                }
                let self_span = self.span_at(q);
                let whole = cover_span(self.span_at(pos), self_span);
                let mut segments: Vec<String> = Vec::new();
                segments.push(String::from_str("__SelfPlaceholder"));
                let type_args: Vec<Type> = Vec::new();
                proof {
                    assert(texts(segments@) =~= seq!["__SelfPlaceholder"@]);
                    assert(types_v(type_args@, 0) == Seq::<TypeV>::empty());
                }
                let inner = Type::Path { segments, type_args, span: self_span };
                proof {
                    assert(type_v(inner) == TypeV::Path {
                        segments: seq!["__SelfPlaceholder"@],
                        type_args: Seq::empty(),
                        span: self_span,
                    });
                }
                let ty = match kind {
                    ParamKind::SelfShared => Type::Ref { inner: Box::new(inner), mutable: false, span: whole },
                    ParamKind::SelfMut => Type::Ref { inner: Box::new(inner), mutable: true, span: whole },
                    _ => inner,
                };
                let prm = Param { name: String::from_str("self"), ty, kind, span: whole };
                Ok((prm, q + 1))
            },
            None => {
                let name = match self.expect_ident(pos, "parameter name") {
                    Ok(s) => s,
                    Err(e) => return Err(e),
                };
                if !self.at(pos + 1, &TokenKind::Colon) {
                    return Err(self.error_expected(pos + 1, "`:`"));
                }
                let (ty, p1) = match self.parse_type(pos + 2) {
                    Ok(x) => x,
                    Err(e) => return Err(e),
                };
                let span = cover_span(self.span_at(pos), type_span(&ty));
                Ok((Param { name, ty, kind: ParamKind::Normal, span }, p1))
            },
        }
    }

    /// Parameters at `pos` up to (not including) `)`.
    fn parse_params(&self, pos: usize) -> (r: Result<(Vec<Param>, usize), ParseError>)
        requires
            self.wf(),
            pos < self.len(),
        ensures
            yields(
                r,
                p_params(self.ctx(), pos as int, Seq::empty()),
                |v: Vec<Param>| v@.map_values(|p: Param| param_v(p)),
            ),
            kept(r, pos as int, self.len()),
    {
        let ghost c = self.ctx();
        let mut params: Vec<Param> = Vec::new();
        let mut q = pos;
        proof {
            assert(params@.map_values(|p: Param| param_v(p)) =~= Seq::empty());
        }
        loop
            invariant
                self.wf(),
                c == self.ctx(),
                pos <= q < self.len(),
                params@.len() <= q,
                p_params(c, q as int, params@.map_values(|p: Param| param_v(p))) == p_params(
                    c,
                    pos as int,
                    Seq::empty(),
                ),
            decreases self.len() - q,
        {
            if self.at(q, &TokenKind::RParen) {
                return Ok((params, q));
            }
            let (prm, q1) = match self.parse_param(q, params.len()) {
                Ok(x) => x,
                Err(e) => return Err(e),
            };
            proof {
                assert(params@.push(prm).map_values(|p: Param| param_v(p)) =~= params@.map_values(
                    |p: Param| param_v(p),
                ).push(param_v(prm)));
            }
            params.push(prm);
            if self.at(q1, &TokenKind::Comma) {
                q = q1 + 1;
            } else {
                return Ok((params, q1));
            }
        }
    }

    /// A function declaration at `pos`.
    fn parse_fn_decl(&self, pos: usize) -> (r: Result<(FnDecl, usize), ParseError>)
        requires
            self.wf(),
            pos < self.len(),
        ensures
            yields(r, p_fn_decl(self.ctx(), pos as int), |f: FnDecl| fn_decl_v(f)),
            moved(r, pos as int, self.len()),
    {
        if !self.at(pos, &TokenKind::Fn) {
            return Err(self.error_expected(pos, "`fn`"));
        }
        let name = match self.expect_ident(pos + 1, "function name") {
            Ok(s) => s,
            Err(e) => return Err(e),
        };
        let (type_params, p1) = match self.parse_type_params(pos + 2) {
            Ok(x) => x,
            Err(e) => return Err(e),
        };
        if !self.at(p1, &TokenKind::LParen) {
            return Err(self.error_expected(p1, "`(`"));
        }
        let (params, p2) = match self.parse_params(p1 + 1) {
            Ok(x) => x,
            Err(e) => return Err(e),
        };
        if !self.at(p2, &TokenKind::RParen) {
            return Err(self.error_expected(p2, "`)`"));
        }
        let (return_ty, p3) = if self.at(p2 + 1, &TokenKind::Arrow) {
            match self.parse_type(p2 + 2) {
                Ok((t, p3)) => (Some(t), p3),
                Err(e) => return Err(e),
            }
        } else {
            (None, p2 + 1)
        };
        let (body, p4) = match self.parse_block(p3) {
            Ok(x) => x,
            Err(e) => return Err(e),
        };
        let span = cover_span(self.span_at(pos), body.span);
        Ok((FnDecl { name, type_params, params, return_ty, body, span }, p4))
    }

    /// Whether one of `fields` is named `name`.
    fn has_field_named(fields: &Vec<StructField>, name: &str) -> (b: bool)
        ensures
            b == has_field(fields@.map_values(|f: StructField| struct_field_v(f)), name@),
    {
        let ghost vs = fields@.map_values(|f: StructField| struct_field_v(f));
        let mut i: usize = 0;
        while i < fields.len()
            invariant
                i <= fields@.len(),
                vs == fields@.map_values(|f: StructField| struct_field_v(f)),
                forall|j: int| 0 <= j < i ==> vs[j].name != name@,
            decreases fields@.len() - i,
        {
            if str_eq(fields[i].name.as_str(), name) {
                proof {
                    assert(vs[i as int].name == name@);
                }
                return true;
            }
            i = i + 1;
        }
        false
    }

    /// The fields of the struct `sname` at `pos` up to (not including) `}`.
    fn parse_sfields(&self, pos: usize, sname: &str) -> (r: Result<(Vec<StructField>, usize), ParseError>)
        requires
            self.wf(),
            pos < self.len(),
        ensures
            yields(
                r,
                p_sfields(self.ctx(), pos as int, sname@, Seq::empty()),
                |v: Vec<StructField>| v@.map_values(|f: StructField| struct_field_v(f)),
            ),
            kept(r, pos as int, self.len()),
    {
        let ghost c = self.ctx();
        let mut fields: Vec<StructField> = Vec::new();
        let mut q = pos;
        proof {
            assert(fields@.map_values(|f: StructField| struct_field_v(f)) =~= Seq::empty());
        }
        loop
            invariant
                self.wf(),
                c == self.ctx(),
                pos <= q < self.len(),
                p_sfields(c, q as int, sname@, fields@.map_values(|f: StructField| struct_field_v(f)))
                    == p_sfields(c, pos as int, sname@, Seq::empty()),
            decreases self.len() - q,
        {
            if self.at(q, &TokenKind::RBrace) {
                return Ok((fields, q));
            }
            let name = match self.expect_ident(q, "field name") {
                Ok(s) => s,
                Err(e) => return Err(e),
            };
            let name_span = self.span_at(q);
            if Self::has_field_named(&fields, name.as_str()) {
                let m = concat_str(
                    concat_str(
                        concat_str(concat_str(String::from_str("duplicate field `"), name.as_str()), "` in struct `"),
                        sname,
                    ),
                    "`",
                );
                return Err(ParseError { message: m, span: name_span });
            }
            if !self.at(q + 1, &TokenKind::Colon) {
                return Err(self.error_expected(q + 1, "`:`"));
            }
            let (ty, q1) = match self.parse_type(q + 2) {
                Ok(x) => x,
                Err(e) => return Err(e),
            };
            let span = cover_span(name_span, type_span(&ty));
            let f = StructField { name, ty, span };
            proof {
                assert(fields@.push(f).map_values(|f: StructField| struct_field_v(f)) =~= fields@.map_values(
                    |f: StructField| struct_field_v(f),
                ).push(struct_field_v(f)));
            }
            fields.push(f);
            if self.at(q1, &TokenKind::Comma) {
                q = q1 + 1;
            } else {
                return Ok((fields, q1));
            }
        }
    }

    /// A struct declaration at `pos`.
    fn parse_struct_decl(&self, pos: usize) -> (r: Result<(StructDecl, usize), ParseError>)
        requires
            self.wf(),
            pos < self.len(),
        ensures
            yields(r, p_struct_decl(self.ctx(), pos as int), |d: StructDecl| struct_decl_v(d)),
            moved(r, pos as int, self.len()),
    {
        if !self.at(pos, &TokenKind::Struct) {
            return Err(self.error_expected(pos, "`struct`"));
        }
        let name = match self.expect_ident(pos + 1, "struct name") {
            Ok(s) => s,
            Err(e) => return Err(e),
        };
        let (type_params, p1) = match self.parse_type_params(pos + 2) {
            Ok(x) => x,
            Err(e) => return Err(e),
        };
        if !self.at(p1, &TokenKind::LBrace) {
            return Err(self.error_expected(p1, "`{`"));
        }
        let (fields, p2) = match self.parse_sfields(p1 + 1, name.as_str()) {
            Ok(x) => x,
            Err(e) => return Err(e),
        };
        if !self.at(p2, &TokenKind::RBrace) {
            return Err(self.error_expected(p2, "`}`"));
        }
        let span = cover_span(self.span_at(pos), self.span_at(p2));
        if fields.len() == 0 {
            return Err(
                ParseError {
                    message: String::from_str("structs in M07.4 must have at least one field"),
                    span,
                },
            );
        }
        Ok((StructDecl { name, type_params, fields, span }, p2 + 1))
    }

    /// Function declarations at `pos` up to (not including) `}`.
    fn parse_impl_items(&self, pos: usize) -> (r: Result<(Vec<FnDecl>, usize), ParseError>)
        requires
            self.wf(),
            pos < self.len(),
        ensures
            yields(
                r,
                p_impl_items(self.ctx(), pos as int, Seq::empty()),
                |v: Vec<FnDecl>| v@.map_values(|f: FnDecl| fn_decl_v(f)),
            ),
            kept(r, pos as int, self.len()),
    {
        let ghost c = self.ctx();
        let mut items: Vec<FnDecl> = Vec::new();
        let mut q = pos;
        proof {
            assert(items@.map_values(|f: FnDecl| fn_decl_v(f)) =~= Seq::empty());
        }
        loop
            invariant
                self.wf(),
                c == self.ctx(),
                pos <= q < self.len(),
                p_impl_items(c, q as int, items@.map_values(|f: FnDecl| fn_decl_v(f)))
                    == p_impl_items(c, pos as int, Seq::empty()),
            decreases self.len() - q,
        {
            if self.at(q, &TokenKind::RBrace) {
                return Ok((items, q));
            }
            let (f, q1) = match self.parse_fn_decl(q) {
                Ok(x) => x,
                Err(e) => return Err(e),
            };
            proof {
                assert(items@.push(f).map_values(|f: FnDecl| fn_decl_v(f)) =~= items@.map_values(
                    |f: FnDecl| fn_decl_v(f),
                ).push(fn_decl_v(f)));
            }
            items.push(f);
            q = q1;
        }
    }

    /// An impl block at `pos`.
    fn parse_impl_block(&self, pos: usize) -> (r: Result<(ImplBlock, usize), ParseError>)
        requires
            self.wf(),
            pos < self.len(),
        ensures
            yields(r, p_impl_block(self.ctx(), pos as int), |b: ImplBlock| impl_block_v(b)),
            moved(r, pos as int, self.len()),
    {
        if !self.at(pos, &TokenKind::Impl) {
            return Err(self.error_expected(pos, "`impl`"));
        }
        let ty_name = match self.expect_ident(pos + 1, "type name after `impl`") {
            Ok(s) => s,
            Err(e) => return Err(e),
        };
        if !self.at(pos + 2, &TokenKind::LBrace) {
            return Err(self.error_expected(pos + 2, "`{`"));
        }
        let (items, p1) = match self.parse_impl_items(pos + 3) {
            Ok(x) => x,
            Err(e) => return Err(e),
        };
        if !self.at(p1, &TokenKind::RBrace) {
            return Err(self.error_expected(p1, "`}`"));
        }
        let span = cover_span(self.span_at(pos), self.span_at(p1));
        Ok((ImplBlock { ty_name, items, span }, p1 + 1))
    }

    /// An item at `pos`.
    fn parse_item(&self, pos: usize) -> (r: Result<(Item, usize), ParseError>)
        requires
            self.wf(),
            pos < self.len(),
        ensures
            yields(r, p_item(self.ctx(), pos as int), |i: Item| item_v(i)),
            moved(r, pos as int, self.len()),
    {
        if self.at(pos, &TokenKind::Fn) {
            match self.parse_fn_decl(pos) {
                Ok((f, p1)) => Ok((Item::Fn(f), p1)),
                Err(e) => Err(e),
            }
        } else if self.at(pos, &TokenKind::Struct) {
            match self.parse_struct_decl(pos) {
                Ok((d, p1)) => Ok((Item::Struct(d), p1)),
                Err(e) => Err(e),
            }
        } else if self.at(pos, &TokenKind::Impl) {
            match self.parse_impl_block(pos) {
                Ok((b, p1)) => Ok((Item::Impl(b), p1)),
                Err(e) => Err(e),
            }
        } else {
            Err(self.error_expected(pos, "an item (`fn`, `struct`, or `impl`)"))
        }
    }

    /// The items from `pos` up to end of input.
    fn parse_items(&self, pos: usize) -> (r: Result<(Vec<Item>, usize), ParseError>)
        requires
            self.wf(),
            pos < self.len(),
        ensures
            yields(
                r,
                p_items(self.ctx(), pos as int, Seq::empty()),
                |v: Vec<Item>| v@.map_values(|i: Item| item_v(i)),
            ),
            kept(r, pos as int, self.len()),
    {
        let ghost c = self.ctx();
        let mut items: Vec<Item> = Vec::new();
        let mut q = pos;
        proof {
            assert(items@.map_values(|i: Item| item_v(i)) =~= Seq::empty());
        }
        loop
            invariant
                self.wf(),
                c == self.ctx(),
                pos <= q < self.len(),
                p_items(c, q as int, items@.map_values(|i: Item| item_v(i))) == p_items(
                    c,
                    pos as int,
                    Seq::empty(),
                ),
            decreases self.len() - q,
        {
            if self.at(q, &TokenKind::Eof) {
                proof {
                    self.lemma_tok(q as int);
                }
                return Ok((items, q));
            }
            proof {
                self.lemma_tok(q as int);
            }
            let (it, q1) = match self.parse_item(q) {
                Ok(x) => x,
                Err(e) => return Err(e),
            };
            proof {
                assert(items@.push(it).map_values(|i: Item| item_v(i)) =~= items@.map_values(
                    |i: Item| item_v(i),
                ).push(item_v(it)));
            }
            items.push(it);
            q = q1;
        }
    }

    /// The whole token stream as a program.
    fn parse_program(&self) -> (r: Result<Program, ParseError>)
        requires
            self.wf(),
        ensures
            parsed_as(r, self.ctx()),
    {
        let (items, _) = match self.parse_items(0) {
            Ok(x) => x,
            Err(e) => return Err(e),
        };
        let ghost iv = items@.map_values(|i: Item| item_v(i));
        let span = if items.len() == 0 {
            Span::new(0, 0, self.file)
        } else {
            proof {
                assert(iv[0] == item_v(items@[0]));
                assert(iv.last() == item_v(items@[items@.len() - 1]));
            }
            cover_span(item_span(&items[0]), item_span(&items[items.len() - 1]))
        };
        Ok(Program { items, span })
    }
}

/// The span of an item.
fn item_span(item: &Item) -> (s: Span)
    ensures
        s == item_v(*item).span(),
{
    match item {
        Item::Fn(f) => f.span,
        Item::Struct(d) => d.span,
        Item::Impl(b) => b.span,
    }
}

/// `r` is what the grammar says of the tokens of `c`: the program, or the
/// first error.
pub open spec fn parsed_as(r: Result<Program, ParseError>, c: Ctx) -> bool {
    match p_program(c) {
        Ok(pv) => r matches Ok(p) && program_v(p) == pv,
        Err((m, s)) => r matches Err(e) && e.message@ == m && e.span == s,
    }
}

/// The byte length of `file` in `source_map` (where end-of-input errors
/// point), or 0 when it is not registered.
pub open spec fn eof_of(source_map: SourceMap, file: FileId) -> u32 {
    if source_map.spec_files().contains_key(file.0) {
        text_bytes(source_map.spec_files()[file.0].spec_src()@).len() as u32
    } else {
        0
    }
}

/// Parse a token stream that ends with end of input into a [`Program`]:
/// the program the grammar reads from the tokens, or its first error.
/// End-of-input errors point at the end of `file`'s text in `source_map`.
pub fn parse_tokens(tokens: Vec<Token>, file: FileId, source_map: &SourceMap) -> (r: Result<
    Program,
    ParseError,
>)
    requires
        tokens@.len() >= 1,
        tokens@[tokens@.len() - 1].kind is Eof,
    ensures
        parsed_as(r, Ctx { t: tokens_v(tokens@), eof: eof_of(*source_map, file), file }),
{
    let eof_pos: u32 = match source_map.get(file) {
        Some(f) => f.bytes().len() as u32,
        None => 0,
    };
    let n = tokens.len();
    let parser = Parser { tokens, file, eof_pos };
    parser.parse_program()
}

/// The token views of the lexer's tokens `ts` in `file`, then end of input
/// at byte `n`.
pub open spec fn lexed_tokens(ts: Seq<SpecToken>, file: FileId, n: nat) -> Seq<(SpecTok, Span)> {
    ts.map_values(|t: SpecToken| (t.0, Span { start: t.1 as u32, end: t.2 as u32, file })).push(
        (SpecTok::Fixed(TokenKind::Eof), Span { start: n as u32, end: n as u32, file }),
    )
}

/// Parse the source file `file` of `source_map`: lex it, then parse the
/// tokens. The first error of either stage is returned, and processing
/// stops there.
pub fn parse(file: FileId, source_map: &SourceMap) -> (r: Result<Program, ParseError>)
    ensures
        !source_map.spec_files().contains_key(file.0) ==> (r matches Err(e) && e.message@
            == "file id "@ + decimal(file.0 as nat) + " not found in source map"@ && e.span == (
        Span { start: 0, end: 0, file })),
        source_map.spec_files().contains_key(file.0) ==> ({
            let b = text_bytes(source_map.spec_files()[file.0].spec_src()@);
            match lex_from(b, 0) {
                Err((m, start, end)) => r matches Err(e) && e.message@ == m && e.span == (Span {
                    start: start as u32,
                    end: end as u32,
                    file,
                }),
                Ok(ts) => parsed_as(
                    r,
                    Ctx { t: lexed_tokens(ts, file, b.len()), eof: b.len() as u32, file },
                ),
            }
        }),
        r matches Ok(p) ==> program_spanned(program_v(p)),
{
    let tokens = match lex(file, source_map) {
        Ok(t) => t,
        Err(e) => return Err(e),
    };
    if let Some(f) = source_map.get(file) {
        proof {
            f.lemma_wf_line_starts();
        }
    }
    proof {
        let b = text_bytes(source_map.spec_files()[file.0].spec_src()@);
        if let Ok(ts) = lex_from(b, 0) {
            law_tokens_ordered(b, 0);
            let c = Ctx { t: lexed_tokens(ts, file, b.len()), eof: b.len() as u32, file };
            assert forall|i: int|
                0 <= i < c.t.len() && c.t[i].0 != SpecTok::Fixed(TokenKind::Eof) implies nonempty(
                #[trigger] c.t[i].1) by {
                if i < ts.len() {
                    assert(c.t[i] == (ts[i].0, Span { start: ts[i].1 as u32, end: ts[i].2 as u32, file }));
                }
            }
            law_parsed_spans_nonempty(c);
            let n = ts.len() as int;
            assert forall|i: int| 0 <= i < n implies tokens_v(tokens@)[i] == lexed_tokens(
                ts,
                file,
                b.len(),
            )[i] by {
                assert(tokens@.subrange(0, n)[i] == tokens@[i]);
                lemma_tok_is(tokens@[i].kind, ts[i].0);
            }
            assert(tokens_v(tokens@) =~= lexed_tokens(ts, file, b.len()));
        }
    }
    parse_tokens(tokens, file, source_map)
}

} // verus!
