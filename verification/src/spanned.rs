//! Every node of a parsed program covers some source text: when every
//! token but end of input has a non-empty span, every node the grammar
//! builds has a non-empty span too (the program itself when it has items).

use vstd::prelude::*;

use crate::ast::{
    BlockV, ExprV, FnDeclV, ItemV, LitFieldV, ParamV, ProgramV, StmtV, StructFieldV, TypeParamV,
    TypeV,
};
use crate::grammar::{
    adv, at, kind, p_args, p_array, p_atom, p_block, p_block_items, p_borrow, p_deref, p_elems,
    p_expr, p_fn_decl, p_if, p_impl_items, p_index_inner, p_item, p_items, p_let, p_lit_fields,
    p_name, p_param, p_params, p_path_segs, p_postfix, p_program, p_sfields, p_struct_lit,
    p_tparams, p_type, p_type_list, p_type_params, p_unary, receiver, sp, Ctx,
};
use crate::span::Span;
use crate::token::{SpecTok, TokenKind};

verus! {

/// A span that covers at least one byte.
pub open spec fn nonempty(s: Span) -> bool {
    s.start < s.end
}

/// Every token but end of input covers at least one byte.
pub open spec fn tokens_spanned(c: Ctx) -> bool {
    forall|i: int|
        0 <= i < c.t.len() && c.t[i].0 != SpecTok::Fixed(TokenKind::Eof) ==> nonempty(
            #[trigger] c.t[i].1,
        )
}

/// A type and all its parts have non-empty spans.
pub open spec fn type_spanned(t: TypeV) -> bool
    decreases t, 0int,
{
    &&& nonempty(t.span())
    &&& match t {
        TypeV::Path { type_args, .. } => tys_spanned(type_args, 0),
        TypeV::Generic { args, .. } => tys_spanned(args, 0),
        TypeV::Ref { inner, .. } => type_spanned(*inner),
        TypeV::Slice { inner, .. } => type_spanned(*inner),
        TypeV::Array { inner, .. } => type_spanned(*inner),
        TypeV::Unit { .. } => true,
    }
}

/// The types from index `i` on have non-empty spans throughout.
pub open spec fn tys_spanned(ts: Seq<TypeV>, i: int) -> bool
    decreases ts, ts.len() - i,
{
    if i < 0 || i >= ts.len() {
        true
    } else {
        type_spanned(ts[i]) && tys_spanned(ts, i + 1)
    }
}

/// All the types have non-empty spans throughout.
pub open spec fn types_spanned(ts: Seq<TypeV>) -> bool {
    forall|i: int| 0 <= i < ts.len() ==> #[trigger] type_spanned(ts[i])
}

/// A struct-literal field and its value have non-empty spans.
pub open spec fn field_spanned(f: LitFieldV) -> bool
    decreases f, 0int,
{
    nonempty(f.span) && (f.value matches Some(v) ==> expr_spanned(v))
}

/// An expression and all its parts have non-empty spans.
pub open spec fn expr_spanned(e: ExprV) -> bool
    decreases e, 0int,
{
    &&& nonempty(e.span())
    &&& match e {
        ExprV::Unary { expr, .. } => expr_spanned(*expr),
        ExprV::Binary { lhs, rhs, .. } => expr_spanned(*lhs) && expr_spanned(*rhs),
        ExprV::Call { callee, args, .. } => expr_spanned(*callee) && exs_spanned(args, 0),
        ExprV::Paren { inner, .. } => expr_spanned(*inner),
        ExprV::Block(b) => block_spanned(*b),
        ExprV::If { cond, then_block, else_block, .. } => expr_spanned(*cond) && block_spanned(
            *then_block,
        ) && (else_block matches Some(b) ==> block_spanned(*b)),
        ExprV::Borrow { inner, .. } => expr_spanned(*inner),
        ExprV::Deref { inner, .. } => expr_spanned(*inner),
        ExprV::Path { type_args, .. } => tys_spanned(type_args, 0),
        ExprV::MethodCall { receiver, args, .. } => expr_spanned(*receiver) && exs_spanned(args, 0),
        ExprV::FieldAccess { receiver, .. } => expr_spanned(*receiver),
        ExprV::Index { receiver, index, .. } => expr_spanned(*receiver) && expr_spanned(*index),
        ExprV::Range { start, end, .. } => (start matches Some(x) ==> expr_spanned(*x)) && (
        end matches Some(x) ==> expr_spanned(*x)),
        ExprV::ArrayLit { elements, .. } => exs_spanned(elements, 0),
        ExprV::StructLit { type_args, fields, .. } => tys_spanned(type_args, 0) && fields_spanned(
            fields,
            0,
        ),
        _ => true,
    }
}

/// The expressions from index `i` on have non-empty spans throughout.
pub open spec fn exs_spanned(es: Seq<ExprV>, i: int) -> bool
    decreases es, es.len() - i,
{
    if i < 0 || i >= es.len() {
        true
    } else {
        expr_spanned(es[i]) && exs_spanned(es, i + 1)
    }
}

/// The struct-literal fields from index `i` on have non-empty spans
/// throughout.
pub open spec fn fields_spanned(fs: Seq<LitFieldV>, i: int) -> bool
    decreases fs, fs.len() - i,
{
    if i < 0 || i >= fs.len() {
        true
    } else {
        field_spanned(fs[i]) && fields_spanned(fs, i + 1)
    }
}

/// A block and all its parts have non-empty spans.
pub open spec fn block_spanned(b: BlockV) -> bool
    decreases b, 0int,
{
    &&& nonempty(b.span)
    &&& stmts_spanned(b.stmts, 0)
    &&& (b.tail matches Some(t) ==> expr_spanned(*t))
}

/// The statements from index `i` on have non-empty spans throughout.
pub open spec fn stmts_spanned(ss: Seq<StmtV>, i: int) -> bool
    decreases ss, ss.len() - i,
{
    if i < 0 || i >= ss.len() {
        true
    } else {
        stmt_spanned(ss[i]) && stmts_spanned(ss, i + 1)
    }
}

/// A statement and all its parts have non-empty spans.
pub open spec fn stmt_spanned(s: StmtV) -> bool
    decreases s, 0int,
{
    match s {
        StmtV::Let(l) => nonempty(l.span) && (l.ty matches Some(t) ==> type_spanned(t))
            && expr_spanned(l.init),
        StmtV::Expr(e) => expr_spanned(e),
        StmtV::Assign { lhs, rhs, span } => nonempty(span) && expr_spanned(lhs) && expr_spanned(
            rhs,
        ),
    }
}

/// All the expressions have non-empty spans throughout.
pub open spec fn exprs_spanned(es: Seq<ExprV>) -> bool {
    forall|i: int| 0 <= i < es.len() ==> #[trigger] expr_spanned(es[i])
}

proof fn lemma_tys(s: Seq<TypeV>, i: int)
    requires
        types_spanned(s),
    ensures
        tys_spanned(s, i),
    decreases s.len() - i,
{
    if 0 <= i < s.len() {
        assert(type_spanned(s[i]));
        lemma_tys(s, i + 1);
    }
}

proof fn lemma_exs(s: Seq<ExprV>, i: int)
    requires
        exprs_spanned(s),
    ensures
        exs_spanned(s, i),
    decreases s.len() - i,
{
    if 0 <= i < s.len() {
        assert(expr_spanned(s[i]));
        lemma_exs(s, i + 1);
    }
}

proof fn lemma_fields(s: Seq<LitFieldV>, i: int)
    requires
        forall|k: int| 0 <= k < s.len() ==> #[trigger] field_spanned(s[k]),
    ensures
        fields_spanned(s, i),
    decreases s.len() - i,
{
    if 0 <= i < s.len() {
        assert(field_spanned(s[i]));
        lemma_fields(s, i + 1);
    }
}

proof fn lemma_stmts(s: Seq<StmtV>, i: int)
    requires
        forall|k: int| 0 <= k < s.len() ==> #[trigger] stmt_spanned(s[k]),
    ensures
        stmts_spanned(s, i),
    decreases s.len() - i,
{
    if 0 <= i < s.len() {
        assert(stmt_spanned(s[i]));
        lemma_stmts(s, i + 1);
    }
}

/// A parameter and its type have non-empty spans.
pub open spec fn param_spanned(p: ParamV) -> bool {
    nonempty(p.span) && type_spanned(p.ty)
}

/// A type parameter has a non-empty span.
pub open spec fn tparam_spanned(p: TypeParamV) -> bool {
    nonempty(p.span)
}

/// A function and all its parts have non-empty spans.
pub open spec fn fn_spanned(f: FnDeclV) -> bool {
    &&& nonempty(f.span)
    &&& forall|i: int| 0 <= i < f.type_params.len() ==> #[trigger] tparam_spanned(f.type_params[i])
    &&& forall|i: int| 0 <= i < f.params.len() ==> #[trigger] param_spanned(f.params[i])
    &&& (f.return_ty matches Some(t) ==> type_spanned(t))
    &&& block_spanned(f.body)
}

/// A struct field and its type have non-empty spans.
pub open spec fn sfield_spanned(f: StructFieldV) -> bool {
    nonempty(f.span) && type_spanned(f.ty)
}

/// An item and all its parts have non-empty spans.
pub open spec fn item_spanned(it: ItemV) -> bool {
    match it {
        ItemV::Fn(f) => fn_spanned(f),
        ItemV::Struct(d) => nonempty(d.span) && (forall|i: int|
            0 <= i < d.type_params.len() ==> #[trigger] tparam_spanned(d.type_params[i])) && (
        forall|i: int| 0 <= i < d.fields.len() ==> #[trigger] sfield_spanned(d.fields[i])),
        ItemV::Impl(b) => nonempty(b.span) && forall|i: int|
            0 <= i < b.items.len() ==> #[trigger] fn_spanned(b.items[i]),
    }
}

/// A program's items have non-empty spans throughout, and so has the
/// program when it has an item.
pub open spec fn program_spanned(p: ProgramV) -> bool {
    &&& forall|i: int| 0 <= i < p.items.len() ==> #[trigger] item_spanned(p.items[i])
    &&& p.items.len() > 0 ==> nonempty(p.span)
}

// ─── The grammar builds well-spanned nodes ─────────────────────────────────

proof fn lemma_type(c: Ctx, pos: int)
    requires
        tokens_spanned(c),
    ensures
        p_type(c, pos) matches Ok((t, _)) ==> type_spanned(t),
    decreases c.t.len() - pos, 1int,
{
    if at(c, pos, TokenKind::LParen) {
        assert(c.t[pos].0 != SpecTok::Fixed(TokenKind::Eof));
    } else if at(c, pos, TokenKind::LBracket) {
        assert(c.t[pos].0 != SpecTok::Fixed(TokenKind::Eof));
        lemma_type(c, pos + 1);
    } else if at(c, pos, TokenKind::Amp) || at(c, pos, TokenKind::AmpMut) {
        assert(c.t[pos].0 != SpecTok::Fixed(TokenKind::Eof));
        if at(c, pos + 1, TokenKind::LBracket) {
            lemma_type(c, pos + 2);
        } else {
            lemma_type(c, pos + 1);
        }
    } else if kind(c, pos) is Ident {
        assert(c.t[pos].0 != SpecTok::Fixed(TokenKind::Eof));
        if at(c, pos + 1, TokenKind::Lt) {
            lemma_type_list(c, pos + 2, Seq::empty());
            if let Ok((args, _)) = p_type_list(c, pos + 2, Seq::empty()) {
                lemma_tys(args, 0);
            }
        } else {
            assert(tys_spanned(Seq::<TypeV>::empty(), 0));
        }
    }
}

proof fn lemma_type_list(c: Ctx, pos: int, acc: Seq<TypeV>)
    requires
        tokens_spanned(c),
        types_spanned(acc),
    ensures
        p_type_list(c, pos, acc) matches Ok((v, _)) ==> types_spanned(v),
    decreases c.t.len() - pos, 2int,
{
    lemma_type(c, pos);
    if let Ok((t, p1)) = p_type(c, pos) {
        assert(types_spanned(acc.push(t)));
        if adv(c, pos, p1) && at(c, p1, TokenKind::Comma) {
            lemma_type_list(c, p1 + 1, acc.push(t));
        }
    }
}

proof fn lemma_path_segs(c: Ctx, pos: int, segs: Seq<Seq<char>>, end: Span)
    requires
        tokens_spanned(c),
    ensures
        p_path_segs(c, pos, segs, end) matches Ok(((_, ta, _), _)) ==> types_spanned(ta),
    decreases c.t.len() - pos,
{
    if at(c, pos, TokenKind::ColonColon) {
        if at(c, pos + 1, TokenKind::Lt) {
            lemma_type_list(c, pos + 2, Seq::empty());
        } else if let SpecTok::Ident(s) = kind(c, pos + 1) {
            lemma_path_segs(c, pos + 2, segs.push(s), sp(c, pos + 1));
        }
    }
}

proof fn lemma_expr(c: Ctx, pos: int, min_bp: int, restrict: bool)
    requires
        tokens_spanned(c),
    ensures
        p_expr(c, pos, min_bp, restrict) matches Ok((e, _)) ==> expr_spanned(e),
    decreases c.t.len() - pos, 5int,
{
    lemma_atom(c, pos, restrict);
    if let Ok((lhs, p1)) = p_atom(c, pos, restrict) {
        if adv(c, pos, p1) {
            lemma_postfix(c, p1, lhs, min_bp, restrict);
        }
    }
}

proof fn lemma_postfix(c: Ctx, pos: int, lhs: ExprV, min_bp: int, restrict: bool)
    requires
        tokens_spanned(c),
        expr_spanned(lhs),
    ensures
        p_postfix(c, pos, lhs, min_bp, restrict) matches Ok((e, _)) ==> expr_spanned(e),
    decreases c.t.len() - pos, 6int,
{
    if at(c, pos, TokenKind::Dot) {
        if let SpecTok::Ident(name) = kind(c, pos + 1) {
            if at(c, pos + 2, TokenKind::LParen) {
                lemma_args(c, pos + 3, Seq::empty());
                if let Ok((args, p1)) = p_args(c, pos + 3, Seq::empty()) {
                    lemma_exs(args, 0);
                    if adv(c, pos, p1) && at(c, p1, TokenKind::RParen) {
                        lemma_postfix(
                            c,
                            p1 + 1,
                            ExprV::MethodCall {
                                receiver: Box::new(lhs),
                                name,
                                args,
                                span: lhs.span().spec_merge(sp(c, p1)),
                            },
                            min_bp,
                            restrict,
                        );
                    }
                }
            } else {
                lemma_postfix(
                    c,
                    pos + 2,
                    ExprV::FieldAccess {
                        receiver: Box::new(lhs),
                        name,
                        span: lhs.span().spec_merge(sp(c, pos + 1)),
                    },
                    min_bp,
                    restrict,
                );
            }
        }
    } else if at(c, pos, TokenKind::LBracket) {
        lemma_index_inner(c, pos + 1, sp(c, pos));
        if let Ok((index, p1)) = p_index_inner(c, pos + 1, sp(c, pos)) {
            if adv(c, pos, p1) && at(c, p1, TokenKind::RBracket) {
                lemma_postfix(
                    c,
                    p1 + 1,
                    ExprV::Index {
                        receiver: Box::new(lhs),
                        index: Box::new(index),
                        span: lhs.span().spec_merge(sp(c, p1)),
                    },
                    min_bp,
                    restrict,
                );
            }
        }
    } else if at(c, pos, TokenKind::LParen) {
        lemma_args(c, pos + 1, Seq::empty());
        if let Ok((args, p1)) = p_args(c, pos + 1, Seq::empty()) {
            lemma_exs(args, 0);
            if adv(c, pos, p1) && at(c, p1, TokenKind::RParen) {
                lemma_postfix(
                    c,
                    p1 + 1,
                    ExprV::Call {
                        callee: Box::new(lhs),
                        args,
                        span: lhs.span().spec_merge(sp(c, p1)),
                    },
                    min_bp,
                    restrict,
                );
            }
        }
    } else if let Some((op, bp)) = crate::grammar::binop(kind(c, pos)) {
        if bp > min_bp {
            lemma_expr(c, pos + 1, bp, restrict);
            if let Ok((rhs, p1)) = p_expr(c, pos + 1, bp, restrict) {
                if adv(c, pos, p1) {
                    lemma_postfix(
                        c,
                        p1,
                        ExprV::Binary {
                            op,
                            lhs: Box::new(lhs),
                            rhs: Box::new(rhs),
                            span: lhs.span().spec_merge(rhs.span()),
                        },
                        min_bp,
                        restrict,
                    );
                }
            }
        }
    }
}

proof fn lemma_args(c: Ctx, pos: int, acc: Seq<ExprV>)
    requires
        tokens_spanned(c),
        exprs_spanned(acc),
    ensures
        p_args(c, pos, acc) matches Ok((v, _)) ==> exprs_spanned(v),
    decreases c.t.len() - pos, 7int,
{
    if !at(c, pos, TokenKind::RParen) {
        lemma_expr(c, pos, 0, false);
        if let Ok((e, p1)) = p_expr(c, pos, 0, false) {
            assert(exprs_spanned(acc.push(e)));
            if adv(c, pos, p1) && at(c, p1, TokenKind::Comma) {
                lemma_args(c, p1 + 1, acc.push(e));
            }
        }
    }
}

proof fn lemma_elems(c: Ctx, pos: int, acc: Seq<ExprV>)
    requires
        tokens_spanned(c),
        exprs_spanned(acc),
    ensures
        p_elems(c, pos, acc) matches Ok((v, _)) ==> exprs_spanned(v),
    decreases c.t.len() - pos, 7int,
{
    lemma_expr(c, pos, 0, false);
    if let Ok((e, p1)) = p_expr(c, pos, 0, false) {
        assert(exprs_spanned(acc.push(e)));
        if adv(c, pos, p1) && at(c, p1, TokenKind::Comma) && !at(c, p1 + 1, TokenKind::RBracket) {
            lemma_elems(c, p1 + 1, acc.push(e));
        }
    }
}

proof fn lemma_index_inner(c: Ctx, pos: int, lbracket: Span)
    requires
        tokens_spanned(c),
    ensures
        p_index_inner(c, pos, lbracket) matches Ok((e, _)) ==> expr_spanned(e),
    decreases c.t.len() - pos, 7int,
{
    if at(c, pos, TokenKind::DotDot) {
        assert(c.t[pos].0 != SpecTok::Fixed(TokenKind::Eof));
        if !at(c, pos + 1, TokenKind::RBracket) {
            lemma_expr(c, pos + 1, 0, false);
        }
    } else {
        lemma_expr(c, pos, 0, false);
        if let Ok((first, p1)) = p_expr(c, pos, 0, false) {
            if adv(c, pos, p1) && at(c, p1, TokenKind::DotDot) && !at(c, p1 + 1, TokenKind::RBracket) {
                lemma_expr(c, p1 + 1, 0, false);
            }
        }
    }
}

proof fn lemma_array(c: Ctx, pos: int)
    requires
        tokens_spanned(c),
    ensures
        p_array(c, pos) matches Ok((e, _)) ==> expr_spanned(e),
    decreases c.t.len() - pos, 3int,
{
    if at(c, pos, TokenKind::LBracket) {
        assert(c.t[pos].0 != SpecTok::Fixed(TokenKind::Eof));
        if !at(c, pos + 1, TokenKind::RBracket) {
            lemma_elems(c, pos + 1, Seq::empty());
            if let Ok((els, _)) = p_elems(c, pos + 1, Seq::empty()) {
                lemma_exs(els, 0);
            }
        } else {
            assert(exs_spanned(Seq::<ExprV>::empty(), 0));
        }
    }
}

proof fn lemma_name(c: Ctx, pos: int, restrict: bool)
    requires
        tokens_spanned(c),
    ensures
        p_name(c, pos, restrict) matches Ok((e, _)) ==> expr_spanned(e),
    decreases c.t.len() - pos, 3int,
{
    if let SpecTok::Ident(name) = kind(c, pos) {
        assert(c.t[pos].0 != SpecTok::Fixed(TokenKind::Eof));
        if at(c, pos + 1, TokenKind::ColonColon) {
            lemma_path_segs(c, pos + 1, seq![name], sp(c, pos));
            if let Ok(((segments, type_args, end), p1)) = p_path_segs(
                c,
                pos + 1,
                seq![name],
                sp(c, pos),
            ) {
                lemma_tys(type_args, 0);
                if adv(c, pos, p1) && type_args.len() > 0 && at(c, p1, TokenKind::LBrace)
                    && !restrict {
                    lemma_struct_lit(c, p1, segments, type_args, sp(c, pos));
                }
            }
        } else if at(c, pos + 1, TokenKind::LBrace) && !restrict {
            lemma_struct_lit(c, pos + 1, seq![name], Seq::empty(), sp(c, pos));
        }
    }
}

proof fn lemma_if(c: Ctx, pos: int)
    requires
        tokens_spanned(c),
    ensures
        p_if(c, pos) matches Ok((e, _)) ==> expr_spanned(e),
    decreases c.t.len() - pos, 3int,
{
    if at(c, pos, TokenKind::If) {
        assert(c.t[pos].0 != SpecTok::Fixed(TokenKind::Eof));
        lemma_expr(c, pos + 1, 0, true);
        if let Ok((cond, p1)) = p_expr(c, pos + 1, 0, true) {
            if adv(c, pos, p1) {
                lemma_block(c, p1);
                if let Ok((then_block, p2)) = p_block(c, p1) {
                    if adv(c, p1, p2) && at(c, p2, TokenKind::Else) {
                        lemma_block(c, p2 + 1);
                    }
                }
            }
        }
    }
}

proof fn lemma_atom(c: Ctx, pos: int, restrict: bool)
    requires
        tokens_spanned(c),
    ensures
        p_atom(c, pos, restrict) matches Ok((e, _)) ==> expr_spanned(e),
    decreases c.t.len() - pos, 4int,
{
    if at(c, pos, TokenKind::LBracket) {
        lemma_array(c, pos);
    } else if kind(c, pos) != SpecTok::Fixed(TokenKind::Eof) {
        assert(0 <= pos < c.t.len());
        assert(c.t[pos].0 != SpecTok::Fixed(TokenKind::Eof));
        match kind(c, pos) {
            SpecTok::Ident(_) => lemma_name(c, pos, restrict),
            SpecTok::Fixed(TokenKind::LParen) => lemma_expr(c, pos + 1, 0, false),
            SpecTok::Fixed(TokenKind::LBrace) => lemma_block(c, pos),
            SpecTok::Fixed(TokenKind::If) => lemma_if(c, pos),
            SpecTok::Fixed(TokenKind::Minus) => lemma_unary(c, pos, crate::ast::UnOp::Neg, restrict),
            SpecTok::Fixed(TokenKind::Bang) => lemma_unary(c, pos, crate::ast::UnOp::Not, restrict),
            SpecTok::Fixed(TokenKind::Amp) => lemma_borrow(c, pos, false, restrict),
            SpecTok::Fixed(TokenKind::AmpMut) => lemma_borrow(c, pos, true, restrict),
            SpecTok::Fixed(TokenKind::Star) => lemma_deref(c, pos, restrict),
            _ => {},
        }
    }
}

proof fn lemma_unary(c: Ctx, pos: int, op: crate::ast::UnOp, restrict: bool)
    requires
        tokens_spanned(c),
    ensures
        p_unary(c, pos, op, restrict) matches Ok((e, _)) ==> expr_spanned(e),
    decreases c.t.len() - pos, 3int,
{
    if pos < c.t.len() {
        lemma_expr(c, pos + 1, crate::grammar::prefix_bp(), restrict);
    }
}

proof fn lemma_borrow(c: Ctx, pos: int, mutable: bool, restrict: bool)
    requires
        tokens_spanned(c),
    ensures
        p_borrow(c, pos, mutable, restrict) matches Ok((e, _)) ==> expr_spanned(e),
    decreases c.t.len() - pos, 3int,
{
    if pos < c.t.len() {
        lemma_expr(c, pos + 1, crate::grammar::prefix_bp(), restrict);
    }
}

proof fn lemma_deref(c: Ctx, pos: int, restrict: bool)
    requires
        tokens_spanned(c),
    ensures
        p_deref(c, pos, restrict) matches Ok((e, _)) ==> expr_spanned(e),
    decreases c.t.len() - pos, 3int,
{
    if pos < c.t.len() {
        lemma_expr(c, pos + 1, crate::grammar::prefix_bp(), restrict);
    }
}

proof fn lemma_struct_lit(
    c: Ctx,
    pos: int,
    path: Seq<Seq<char>>,
    type_args: Seq<TypeV>,
    start: Span,
)
    requires
        tokens_spanned(c),
        types_spanned(type_args),
    ensures
        p_struct_lit(c, pos, path, type_args, start) matches Ok((e, _)) ==> expr_spanned(e),
    decreases c.t.len() - pos, 3int,
{
    if at(c, pos, TokenKind::LBrace) {
        lemma_lit_fields(c, pos + 1, Seq::empty());
        lemma_tys(type_args, 0);
        if let Ok((fields, p1)) = p_lit_fields(c, pos + 1, Seq::empty()) {
            lemma_fields(fields, 0);
            if at(c, p1, TokenKind::RBrace) {
                assert(c.t[p1].0 != SpecTok::Fixed(TokenKind::Eof));
            }
        }
    }
}

proof fn lemma_lit_fields(c: Ctx, pos: int, acc: Seq<LitFieldV>)
    requires
        tokens_spanned(c),
        forall|i: int| 0 <= i < acc.len() ==> #[trigger] field_spanned(acc[i]),
    ensures
        p_lit_fields(c, pos, acc) matches Ok((v, _)) ==> forall|i: int|
            0 <= i < v.len() ==> #[trigger] field_spanned(v[i]),
    decreases c.t.len() - pos, 7int,
{
    if !at(c, pos, TokenKind::RBrace) {
        if let SpecTok::Ident(name) = kind(c, pos) {
            assert(c.t[pos].0 != SpecTok::Fixed(TokenKind::Eof));
            if at(c, pos + 1, TokenKind::Colon) {
                lemma_expr(c, pos + 2, 0, false);
                if let Ok((v, p1)) = p_expr(c, pos + 2, 0, false) {
                    let f = LitFieldV { name, value: Some(v), span: sp(c, pos).spec_merge(v.span()) };
                    assert(field_spanned(f));
                    assert(forall|i: int|
                        0 <= i < acc.push(f).len() ==> #[trigger] field_spanned(acc.push(f)[i]));
                    if adv(c, pos, p1) && at(c, p1, TokenKind::Comma) {
                        lemma_lit_fields(c, p1 + 1, acc.push(f));
                    }
                }
            } else {
                let f = LitFieldV { name, value: None, span: sp(c, pos).spec_merge(sp(c, pos)) };
                assert(field_spanned(f));
                assert(forall|i: int|
                    0 <= i < acc.push(f).len() ==> #[trigger] field_spanned(acc.push(f)[i]));
                if at(c, pos + 1, TokenKind::Comma) {
                    lemma_lit_fields(c, pos + 2, acc.push(f));
                }
            }
        }
    }
}

proof fn lemma_block(c: Ctx, pos: int)
    requires
        tokens_spanned(c),
    ensures
        p_block(c, pos) matches Ok((b, _)) ==> block_spanned(b),
    decreases c.t.len() - pos, 3int,
{
    if at(c, pos, TokenKind::LBrace) {
        assert(c.t[pos].0 != SpecTok::Fixed(TokenKind::Eof));
        lemma_block_items(c, pos + 1, Seq::empty());
        if let Ok(((stmts, _), _)) = p_block_items(c, pos + 1, Seq::empty()) {
            lemma_stmts(stmts, 0);
        }
    }
}

proof fn lemma_block_items(c: Ctx, pos: int, acc: Seq<StmtV>)
    requires
        tokens_spanned(c),
        forall|i: int| 0 <= i < acc.len() ==> #[trigger] stmt_spanned(acc[i]),
    ensures
        p_block_items(c, pos, acc) matches Ok(((v, tail), _)) ==> (forall|i: int|
            0 <= i < v.len() ==> #[trigger] stmt_spanned(v[i])) && (tail matches Some(t)
            ==> expr_spanned(*t)),
    decreases c.t.len() - pos, 8int,
{
    if at(c, pos, TokenKind::RBrace) {
    } else if at(c, pos, TokenKind::Let) {
        lemma_let(c, pos);
        if let Ok((l, p1)) = p_let(c, pos) {
            let st = StmtV::Let(l);
            assert(forall|i: int| 0 <= i < acc.push(st).len() ==> #[trigger] stmt_spanned(acc.push(st)[i]));
            if adv(c, pos, p1) {
                lemma_block_items(c, p1, acc.push(st));
            }
        }
    } else {
        lemma_expr(c, pos, 0, false);
        if let Ok((e, p1)) = p_expr(c, pos, 0, false) {
            if adv(c, pos, p1) {
                if at(c, p1, TokenKind::Eq) {
                    lemma_expr(c, p1 + 1, 0, false);
                    if let Ok((rhs, p2)) = p_expr(c, p1 + 1, 0, false) {
                        if adv(c, p1, p2) && at(c, p2, TokenKind::Semi) {
                            let st = StmtV::Assign { lhs: e, rhs, span: e.span().spec_merge(sp(c, p2)) };
                            assert(stmt_spanned(st));
                            assert(forall|i: int|
                                0 <= i < acc.push(st).len() ==> #[trigger] stmt_spanned(acc.push(st)[i]));
                            lemma_block_items(c, p2 + 1, acc.push(st));
                        }
                    }
                } else if at(c, p1, TokenKind::Semi) {
                    let st = StmtV::Expr(e);
                    assert(forall|i: int|
                        0 <= i < acc.push(st).len() ==> #[trigger] stmt_spanned(acc.push(st)[i]));
                    lemma_block_items(c, p1 + 1, acc.push(st));
                }
            }
        }
    }
}

proof fn lemma_let(c: Ctx, pos: int)
    requires
        tokens_spanned(c),
    ensures
        p_let(c, pos) matches Ok((l, _)) ==> stmt_spanned(StmtV::Let(l)),
    decreases c.t.len() - pos, 7int,
{
    if at(c, pos, TokenKind::Let) {
        assert(c.t[pos].0 != SpecTok::Fixed(TokenKind::Eof));
        let mutable = at(c, pos + 1, TokenKind::Mut);
        let q = if mutable {
            pos + 2
        } else {
            pos + 1
        };
        if kind(c, q) is Ident {
            if at(c, q + 1, TokenKind::Colon) {
                lemma_type(c, q + 2);
            }
            let annotated: Result<(Option<TypeV>, int), (Seq<char>, Span)> = if at(
                c,
                q + 1,
                TokenKind::Colon,
            ) {
                match p_type(c, q + 2) {
                    Err(e) => Err(e),
                    Ok((t, p1)) => Ok((Some(t), p1)),
                }
            } else {
                Ok((None, q + 1))
            };
            if let Ok((ty, p1)) = annotated {
                if adv(c, pos, p1) && at(c, p1, TokenKind::Eq) {
                    lemma_expr(c, p1 + 1, 0, false);
                }
            }
        }
    }
}

// ─── Items ─────────────────────────────────────────────────────────────────

proof fn lemma_tparams(c: Ctx, pos: int, acc: Seq<TypeParamV>)
    requires
        tokens_spanned(c),
        forall|i: int| 0 <= i < acc.len() ==> #[trigger] tparam_spanned(acc[i]),
    ensures
        p_tparams(c, pos, acc) matches Ok((v, _)) ==> forall|i: int|
            0 <= i < v.len() ==> #[trigger] tparam_spanned(v[i]),
    decreases c.t.len() - pos,
{
    if !at(c, pos, TokenKind::Gt) {
        if let SpecTok::Ident(name) = kind(c, pos) {
            assert(c.t[pos].0 != SpecTok::Fixed(TokenKind::Eof));
            let bounded: Result<(Option<Seq<char>>, int), (Seq<char>, Span)> = if at(
                c,
                pos + 1,
                TokenKind::Colon,
            ) {
                match kind(c, pos + 2) {
                    SpecTok::Ident(b) => Ok((Some(b), pos + 3)),
                    _ => Err(crate::grammar::expected(c, pos + 2, "trait name in bound"@)),
                }
            } else {
                Ok((None, pos + 1))
            };
            if let Ok((bound, p)) = bounded {
                let tp = TypeParamV { name, bound, span: sp(c, pos) };
                assert(forall|i: int| 0 <= i < acc.push(tp).len() ==> #[trigger] tparam_spanned(acc.push(tp)[i]));
                if at(c, p, TokenKind::Comma) {
                    lemma_tparams(c, p + 1, acc.push(tp));
                }
            }
        }
    }
}

proof fn lemma_param(c: Ctx, pos: int, index: int)
    requires
        tokens_spanned(c),
    ensures
        p_param(c, pos, index) matches Ok((p, _)) ==> param_spanned(p),
{
    if let Some(k) = receiver(c, pos) {
        assert(c.t[pos].0 != SpecTok::Fixed(TokenKind::Eof));
        let q = if k == crate::ast::ParamKind::SelfOwned {
            pos
        } else {
            pos + 1
        };
        assert(c.t[q].0 != SpecTok::Fixed(TokenKind::Eof));
        assert(tys_spanned(Seq::<TypeV>::empty(), 0));
        assert(type_spanned(
            TypeV::Path { segments: seq!["__SelfPlaceholder"@], type_args: Seq::empty(), span: sp(c, q) },
        ));
    } else if kind(c, pos) is Ident {
        assert(c.t[pos].0 != SpecTok::Fixed(TokenKind::Eof));
        lemma_type(c, pos + 2);
    }
}

proof fn lemma_params(c: Ctx, pos: int, acc: Seq<ParamV>)
    requires
        tokens_spanned(c),
        forall|i: int| 0 <= i < acc.len() ==> #[trigger] param_spanned(acc[i]),
    ensures
        p_params(c, pos, acc) matches Ok((v, _)) ==> forall|i: int|
            0 <= i < v.len() ==> #[trigger] param_spanned(v[i]),
    decreases c.t.len() - pos,
{
    if !at(c, pos, TokenKind::RParen) {
        lemma_param(c, pos, acc.len() as int);
        if let Ok((prm, p1)) = p_param(c, pos, acc.len() as int) {
            assert(forall|i: int| 0 <= i < acc.push(prm).len() ==> #[trigger] param_spanned(acc.push(prm)[i]));
            if adv(c, pos, p1) && at(c, p1, TokenKind::Comma) {
                lemma_params(c, p1 + 1, acc.push(prm));
            }
        }
    }
}

proof fn lemma_fn_decl(c: Ctx, pos: int)
    requires
        tokens_spanned(c),
    ensures
        p_fn_decl(c, pos) matches Ok((f, _)) ==> fn_spanned(f),
{
    if at(c, pos, TokenKind::Fn) && kind(c, pos + 1) is Ident {
        assert(c.t[pos].0 != SpecTok::Fixed(TokenKind::Eof));
        if at(c, pos + 2, TokenKind::Lt) {
            lemma_tparams(c, pos + 3, Seq::empty());
        }
        if let Ok((tps, p1)) = p_type_params(c, pos + 2) {
            if at(c, p1, TokenKind::LParen) {
                lemma_params(c, p1 + 1, Seq::empty());
                if let Ok((ps, p2)) = p_params(c, p1 + 1, Seq::empty()) {
                    if at(c, p2, TokenKind::RParen) {
                        if at(c, p2 + 1, TokenKind::Arrow) {
                            lemma_type(c, p2 + 2);
                        }
                        let returns: Result<(Option<TypeV>, int), (Seq<char>, Span)> = if at(
                            c,
                            p2 + 1,
                            TokenKind::Arrow,
                        ) {
                            match p_type(c, p2 + 2) {
                                Err(e) => Err(e),
                                Ok((t, p3)) => Ok((Some(t), p3)),
                            }
                        } else {
                            Ok((None, p2 + 1))
                        };
                        if let Ok((_, p3)) = returns {
                            lemma_block(c, p3);
                        }
                    }
                }
            }
        }
    }
}

proof fn lemma_sfields(c: Ctx, pos: int, sname: Seq<char>, acc: Seq<StructFieldV>)
    requires
        tokens_spanned(c),
        forall|i: int| 0 <= i < acc.len() ==> #[trigger] sfield_spanned(acc[i]),
    ensures
        p_sfields(c, pos, sname, acc) matches Ok((v, _)) ==> forall|i: int|
            0 <= i < v.len() ==> #[trigger] sfield_spanned(v[i]),
    decreases c.t.len() - pos,
{
    if !at(c, pos, TokenKind::RBrace) {
        if let SpecTok::Ident(name) = kind(c, pos) {
            assert(c.t[pos].0 != SpecTok::Fixed(TokenKind::Eof));
            lemma_type(c, pos + 2);
            if let Ok((t, p1)) = p_type(c, pos + 2) {
                let f = StructFieldV { name, ty: t, span: sp(c, pos).spec_merge(t.span()) };
                assert(forall|i: int| 0 <= i < acc.push(f).len() ==> #[trigger] sfield_spanned(acc.push(f)[i]));
                if adv(c, pos, p1) && at(c, p1, TokenKind::Comma) {
                    lemma_sfields(c, p1 + 1, sname, acc.push(f));
                }
            }
        }
    }
}

proof fn lemma_item(c: Ctx, pos: int)
    requires
        tokens_spanned(c),
    ensures
        p_item(c, pos) matches Ok((it, _)) ==> item_spanned(it),
{
    if at(c, pos, TokenKind::Fn) {
        lemma_fn_decl(c, pos);
    } else if at(c, pos, TokenKind::Struct) {
        assert(c.t[pos].0 != SpecTok::Fixed(TokenKind::Eof));
        if let SpecTok::Ident(name) = kind(c, pos + 1) {
            if at(c, pos + 2, TokenKind::Lt) {
                lemma_tparams(c, pos + 3, Seq::empty());
            }
            if let Ok((tps, p1)) = p_type_params(c, pos + 2) {
                if at(c, p1, TokenKind::LBrace) {
                    lemma_sfields(c, p1 + 1, name, Seq::empty());
                }
            }
        }
    } else if at(c, pos, TokenKind::Impl) {
        assert(c.t[pos].0 != SpecTok::Fixed(TokenKind::Eof));
        if kind(c, pos + 1) is Ident && at(c, pos + 2, TokenKind::LBrace) {
            lemma_impl_items(c, pos + 3, Seq::empty());
        }
    }
}

proof fn lemma_impl_items(c: Ctx, pos: int, acc: Seq<FnDeclV>)
    requires
        tokens_spanned(c),
        forall|i: int| 0 <= i < acc.len() ==> #[trigger] fn_spanned(acc[i]),
    ensures
        p_impl_items(c, pos, acc) matches Ok((v, _)) ==> forall|i: int|
            0 <= i < v.len() ==> #[trigger] fn_spanned(v[i]),
    decreases c.t.len() - pos,
{
    if !at(c, pos, TokenKind::RBrace) {
        lemma_fn_decl(c, pos);
        if let Ok((f, p1)) = p_fn_decl(c, pos) {
            assert(forall|i: int| 0 <= i < acc.push(f).len() ==> #[trigger] fn_spanned(acc.push(f)[i]));
            if adv(c, pos, p1) {
                lemma_impl_items(c, p1, acc.push(f));
            }
        }
    }
}

proof fn lemma_items(c: Ctx, pos: int, acc: Seq<ItemV>)
    requires
        tokens_spanned(c),
        forall|i: int| 0 <= i < acc.len() ==> #[trigger] item_spanned(acc[i]),
    ensures
        p_items(c, pos, acc) matches Ok((v, _)) ==> forall|i: int|
            0 <= i < v.len() ==> #[trigger] item_spanned(v[i]),
    decreases c.t.len() - pos,
{
    if kind(c, pos) != SpecTok::Fixed(TokenKind::Eof) {
        lemma_item(c, pos);
        if let Ok((it, p1)) = p_item(c, pos) {
            assert(forall|i: int| 0 <= i < acc.push(it).len() ==> #[trigger] item_spanned(acc.push(it)[i]));
            if adv(c, pos, p1) {
                lemma_items(c, p1, acc.push(it));
            }
        }
    }
}

/// Parsing builds nodes that all cover source text: when every token but
/// end of input has a non-empty span, every type, expression, statement,
/// block, parameter, field and item of the parsed program has one, and so
/// has the program when it has an item.
pub proof fn law_parsed_spans_nonempty(c: Ctx)
    requires
        tokens_spanned(c),
    ensures
        p_program(c) matches Ok(p) ==> program_spanned(p),
{
    lemma_items(c, 0, Seq::empty());
    if let Ok((items, _)) = p_items(c, 0, Seq::empty()) {
        if items.len() > 0 {
            assert(item_spanned(items[0]));
        }
    }
}

} // verus!
