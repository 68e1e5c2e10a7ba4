//! The surface syntax tree. Every node carries a [`Span`].

use vstd::prelude::*;

use crate::span::Span;
use crate::typeck::{FloatKind, IntKind};

verus! {

/// Top-level program: items in source order.
#[derive(Debug, PartialEq)]
pub struct Program {
    /// Items in source order.
    pub items: Vec<Item>,
    /// Span covering the program (`0..0` for empty input).
    pub span: Span,
}

/// A top-level item.
#[derive(Debug, PartialEq)]
pub enum Item {
    /// Function declaration.
    Fn(FnDecl),
    /// Struct declaration.
    Struct(StructDecl),
    /// Inherent `impl` block.
    Impl(ImplBlock),
}

/// A generic type parameter `T` or `T: Bound`.
#[derive(Debug, PartialEq)]
pub struct TypeParam {
    /// Parameter name.
    pub name: String,
    /// Optional trait bound.
    pub bound: Option<String>,
    /// Span of the parameter name.
    pub span: Span,
}

/// `struct Name<T> { f1: T1, ... }`.
#[derive(Debug, PartialEq)]
pub struct StructDecl {
    /// Struct name.
    pub name: String,
    /// Generic parameters.
    pub type_params: Vec<TypeParam>,
    /// Fields in declaration order (at least one).
    pub fields: Vec<StructField>,
    /// Span from `struct` through `}`.
    pub span: Span,
}

/// One struct field.
#[derive(Debug, PartialEq)]
pub struct StructField {
    /// Field name.
    pub name: String,
    /// Field type.
    pub ty: Type,
    /// Span from the name through the type.
    pub span: Span,
}

/// `impl Type { fn ... }`.
#[derive(Debug, PartialEq)]
pub struct ImplBlock {
    /// The implementing type's name.
    pub ty_name: String,
    /// The functions of the block.
    pub items: Vec<FnDecl>,
    /// Span from `impl` through `}`.
    pub span: Span,
}

/// A function declaration.
#[derive(Debug, PartialEq)]
pub struct FnDecl {
    /// Function name.
    pub name: String,
    /// Generic parameters.
    pub type_params: Vec<TypeParam>,
    /// Parameters (may be empty).
    pub params: Vec<Param>,
    /// Optional return type (after `->`).
    pub return_ty: Option<Type>,
    /// Function body.
    pub body: Block,
    /// Span from `fn` through the body's `}`.
    pub span: Span,
}

/// How a parameter is declared.
#[derive(Clone, Copy, Debug, PartialEq, Eq, Structural)]
pub enum ParamKind {
    /// `name: Type`
    Normal,
    /// `self`
    SelfOwned,
    /// `&self`
    SelfShared,
    /// `&mut self`
    SelfMut,
}

/// A function parameter.
#[derive(Debug, PartialEq)]
pub struct Param {
    /// Parameter name (`self` for receivers).
    pub name: String,
    /// Parameter type. Receivers carry the placeholder path
    /// `__SelfPlaceholder`, wrapped in a reference for `&self` / `&mut self`.
    pub ty: Type,
    /// Receiver or ordinary parameter.
    pub kind: ParamKind,
    /// Span covering the parameter.
    pub span: Span,
}

/// A type annotation.
#[derive(Debug, PartialEq)]
pub enum Type {
    /// Path type (`i32`, `Wrapper<i32>`).
    Path { segments: Vec<String>, type_args: Vec<Type>, span: Span },
    /// Unit type `()`.
    Unit { span: Span },
    /// `&T` or `&mut T`.
    Ref { inner: Box<Type>, mutable: bool, span: Span },
    /// `Box<T>` / `Vec<T>`.
    Generic { segments: Vec<String>, args: Vec<Type>, span: Span },
    /// Slice type `&[T]` or `&mut [T]`.
    Slice { inner: Box<Type>, mutable: bool, span: Span },
    /// Array type `[T; N]`.
    Array { inner: Box<Type>, size: u64, span: Span },
}

/// A block: statements, then an optional tail expression (the block's value).
#[derive(Debug, PartialEq)]
pub struct Block {
    /// Statements in source order.
    pub stmts: Vec<Stmt>,
    /// Trailing expression without `;`.
    pub tail: Option<Box<Expr>>,
    /// Span from `{` through `}`.
    pub span: Span,
}

/// A statement.
#[derive(Debug, PartialEq)]
pub enum Stmt {
    /// `let` binding.
    Let(LetStmt),
    /// Expression followed by `;`.
    Expr(Expr),
    /// Assignment `lhs = rhs;`.
    Assign { lhs: Expr, rhs: Expr, span: Span },
}

/// A `let` binding.
#[derive(Debug, PartialEq)]
pub struct LetStmt {
    /// `let mut`.
    pub mutable: bool,
    /// Binding name.
    pub name: String,
    /// Optional type annotation.
    pub ty: Option<Type>,
    /// Initializer.
    pub init: Expr,
    /// Span from `let` through `;`.
    pub span: Span,
}

/// One field of a struct literal; `value` is `None` for shorthand `name`.
#[derive(Debug, PartialEq)]
pub struct StructLitField {
    /// Field name.
    pub name: String,
    /// Field value, absent for the shorthand form.
    pub value: Option<Expr>,
    /// Span of the field.
    pub span: Span,
}

/// An expression.
#[derive(Debug, PartialEq)]
#[allow(inconsistent_fields)]
pub enum Expr {
    /// Integer literal with optional kind suffix.
    LitInt(i64, Option<IntKind>, Span),
    /// Float literal: its decimal text and optional kind suffix.
    LitFloat(String, Option<FloatKind>, Span),
    /// Boolean literal.
    LitBool(bool, Span),
    /// Identifier reference.
    Ident(String, Span),
    /// Unary operation.
    Unary { op: UnOp, expr: Box<Expr>, span: Span },
    /// Binary operation.
    Binary { op: BinOp, lhs: Box<Expr>, rhs: Box<Expr>, span: Span },
    /// Call `callee(args)`.
    Call { callee: Box<Expr>, args: Vec<Expr>, span: Span },
    /// Parenthesized expression.
    Paren { inner: Box<Expr>, span: Span },
    /// Block expression.
    Block(Box<Block>),
    /// `if cond { .. } else { .. }`.
    If { cond: Box<Expr>, then_block: Box<Block>, else_block: Option<Box<Block>>, span: Span },
    /// `&place` or `&mut place`.
    Borrow { inner: Box<Expr>, mutable: bool, span: Span },
    /// `*expr`.
    Deref { inner: Box<Expr>, span: Span },
    /// String literal.
    StrLit(String, Span),
    /// Multi-segment path `Vec::new`, with optional turbofish arguments.
    Path { segments: Vec<String>, type_args: Vec<Type>, span: Span },
    /// Method call `receiver.name(args)`.
    MethodCall { receiver: Box<Expr>, name: String, args: Vec<Expr>, span: Span },
    /// Field access `receiver.name`.
    FieldAccess { receiver: Box<Expr>, name: String, span: Span },
    /// Indexing `receiver[index]`.
    Index { receiver: Box<Expr>, index: Box<Expr>, span: Span },
    /// Range `a..b`, `..b`, `a..`, `..` (inside an index).
    Range { start: Option<Box<Expr>>, end: Option<Box<Expr>>, span: Span },
    /// Array literal `[e1, ..., eN]`.
    ArrayLit { elements: Vec<Expr>, span: Span },
    /// Struct literal `Name { f: e, .. }`.
    StructLit { path: Vec<String>, type_args: Vec<Type>, fields: Vec<StructLitField>, span: Span },
}

impl Expr {
    /// Source span of an expression.
    pub open spec fn spec_span(self) -> Span {
        match self {
            Expr::LitInt(_, _, s) => s,
            Expr::LitFloat(_, _, s) => s,
            Expr::LitBool(_, s) => s,
            Expr::Ident(_, s) => s,
            Expr::StrLit(_, s) => s,
            Expr::Block(b) => b.span,
            Expr::Unary { span, .. } => span,
            Expr::Binary { span, .. } => span,
            Expr::Call { span, .. } => span,
            Expr::Paren { span, .. } => span,
            Expr::If { span, .. } => span,
            Expr::Borrow { span, .. } => span,
            Expr::Deref { span, .. } => span,
            Expr::Path { span, .. } => span,
            Expr::MethodCall { span, .. } => span,
            Expr::FieldAccess { span, .. } => span,
            Expr::Index { span, .. } => span,
            Expr::Range { span, .. } => span,
            Expr::ArrayLit { span, .. } => span,
            Expr::StructLit { span, .. } => span,
        }
    }

    /// Source span of this expression.
    pub fn span(&self) -> (s: Span)
        ensures
            s == self.spec_span(),
            s == expr_v(*self).span(),
    {
        proof {
            lemma_expr_v_span(*self);
        }
        match self {
            Expr::LitInt(_, _, s) => *s,
            Expr::LitFloat(_, _, s) => *s,
            Expr::LitBool(_, s) => *s,
            Expr::Ident(_, s) => *s,
            Expr::StrLit(_, s) => *s,
            Expr::Block(b) => b.span,
            Expr::Unary { span, .. } => *span,
            Expr::Binary { span, .. } => *span,
            Expr::Call { span, .. } => *span,
            Expr::Paren { span, .. } => *span,
            Expr::If { span, .. } => *span,
            Expr::Borrow { span, .. } => *span,
            Expr::Deref { span, .. } => *span,
            Expr::Path { span, .. } => *span,
            Expr::MethodCall { span, .. } => *span,
            Expr::FieldAccess { span, .. } => *span,
            Expr::Index { span, .. } => *span,
            Expr::Range { span, .. } => *span,
            Expr::ArrayLit { span, .. } => *span,
            Expr::StructLit { span, .. } => *span,
        }
    }
}

/// The view of an expression has the expression's span.
pub proof fn lemma_expr_v_span(e: Expr)
    ensures
        expr_v(e).span() == e.spec_span(),
{
    match e {
        Expr::Block(b) => {
            assert(block_v(*b).span == b.span);
        },
        _ => {},
    }
}

impl Type {
    /// Source span of a type annotation.
    pub open spec fn spec_span(self) -> Span {
        match self {
            Type::Path { span, .. } => span,
            Type::Unit { span } => span,
            Type::Ref { span, .. } => span,
            Type::Generic { span, .. } => span,
            Type::Slice { span, .. } => span,
            Type::Array { span, .. } => span,
        }
    }
}

/// Source span of a type annotation.
pub fn type_span(ty: &Type) -> (s: Span)
    ensures
        s == ty.spec_span(),
        s == type_v(*ty).span(),
{
    match ty {
        Type::Path { span, .. } => *span,
        Type::Unit { span } => *span,
        Type::Ref { span, .. } => *span,
        Type::Generic { span, .. } => *span,
        Type::Slice { span, .. } => *span,
        Type::Array { span, .. } => *span,
    }
}

/// Unary operators.
#[derive(Clone, Copy, Debug, PartialEq, Eq, Structural)]
pub enum UnOp {
    /// `-x`
    Neg,
    /// `!x`
    Not,
}

/// Binary operators, lowest precedence first.
#[derive(Clone, Copy, Debug, PartialEq, Eq, Structural)]
pub enum BinOp {
    /// `||`
    Or,
    /// `&&`
    And,
    /// `==`
    Eq,
    /// `!=`
    Neq,
    /// `<`
    Lt,
    /// `<=`
    Le,
    /// `>`
    Gt,
    /// `>=`
    Ge,
    /// `+`
    Add,
    /// `-`
    Sub,
    /// `*`
    Mul,
    /// `/`
    Div,
    /// `%`
    Rem,
}


// ─── Views: the tree with every text replaced by its characters ────────────

/// Characters of each text.
pub open spec fn texts(s: Seq<String>) -> Seq<Seq<char>> {
    s.map_values(|x: String| x@)
}

/// View of a [`Type`].
pub enum TypeV {
    Path { segments: Seq<Seq<char>>, type_args: Seq<TypeV>, span: Span },
    Unit { span: Span },
    Ref { inner: Box<TypeV>, mutable: bool, span: Span },
    Generic { segments: Seq<Seq<char>>, args: Seq<TypeV>, span: Span },
    Slice { inner: Box<TypeV>, mutable: bool, span: Span },
    Array { inner: Box<TypeV>, size: u64, span: Span },
}

impl TypeV {
    /// Span of a type view.
    pub open spec fn span(self) -> Span {
        match self {
            TypeV::Path { span, .. } => span,
            TypeV::Unit { span } => span,
            TypeV::Ref { span, .. } => span,
            TypeV::Generic { span, .. } => span,
            TypeV::Slice { span, .. } => span,
            TypeV::Array { span, .. } => span,
        }
    }
}

/// View of a [`Type`].
pub open spec fn type_v(t: Type) -> TypeV
    decreases t, 0nat,
{
    match t {
        Type::Path { segments, type_args, span } => TypeV::Path {
            segments: texts(segments@),
            type_args: types_v(type_args@, type_args@.len()),
            span,
        },
        Type::Unit { span } => TypeV::Unit { span },
        Type::Ref { inner, mutable, span } => TypeV::Ref { inner: Box::new(type_v(*inner)), mutable, span },
        Type::Generic { segments, args, span } => TypeV::Generic {
            segments: texts(segments@),
            args: types_v(args@, args@.len()),
            span,
        },
        Type::Slice { inner, mutable, span } => TypeV::Slice {
            inner: Box::new(type_v(*inner)),
            mutable,
            span,
        },
        Type::Array { inner, size, span } => TypeV::Array { inner: Box::new(type_v(*inner)), size, span },
    }
}

/// Views of the first `n` types.
pub open spec fn types_v(s: Seq<Type>, n: nat) -> Seq<TypeV>
    decreases s, n,
{
    if n == 0 || n > s.len() {
        Seq::empty()
    } else {
        types_v(s, (n - 1) as nat).push(type_v(s[n - 1]))
    }
}

/// View of an optional type.
pub open spec fn opt_type_v(t: Option<Type>) -> Option<TypeV> {
    match t {
        Some(x) => Some(type_v(x)),
        None => None,
    }
}

/// View of an [`Expr`].
#[allow(inconsistent_fields)]
pub enum ExprV {
    LitInt(i64, Option<IntKind>, Span),
    LitFloat(Seq<char>, Option<FloatKind>, Span),
    LitBool(bool, Span),
    Ident(Seq<char>, Span),
    Unary { op: UnOp, expr: Box<ExprV>, span: Span },
    Binary { op: BinOp, lhs: Box<ExprV>, rhs: Box<ExprV>, span: Span },
    Call { callee: Box<ExprV>, args: Seq<ExprV>, span: Span },
    Paren { inner: Box<ExprV>, span: Span },
    Block(Box<BlockV>),
    If { cond: Box<ExprV>, then_block: Box<BlockV>, else_block: Option<Box<BlockV>>, span: Span },
    Borrow { inner: Box<ExprV>, mutable: bool, span: Span },
    Deref { inner: Box<ExprV>, span: Span },
    StrLit(Seq<char>, Span),
    Path { segments: Seq<Seq<char>>, type_args: Seq<TypeV>, span: Span },
    MethodCall { receiver: Box<ExprV>, name: Seq<char>, args: Seq<ExprV>, span: Span },
    FieldAccess { receiver: Box<ExprV>, name: Seq<char>, span: Span },
    Index { receiver: Box<ExprV>, index: Box<ExprV>, span: Span },
    Range { start: Option<Box<ExprV>>, end: Option<Box<ExprV>>, span: Span },
    ArrayLit { elements: Seq<ExprV>, span: Span },
    StructLit { path: Seq<Seq<char>>, type_args: Seq<TypeV>, fields: Seq<LitFieldV>, span: Span },
}

/// View of a [`Block`].
pub struct BlockV {
    pub stmts: Seq<StmtV>,
    pub tail: Option<Box<ExprV>>,
    pub span: Span,
}

/// View of a [`Stmt`].
pub enum StmtV {
    Let(LetV),
    Expr(ExprV),
    Assign { lhs: ExprV, rhs: ExprV, span: Span },
}

/// View of a [`LetStmt`].
pub struct LetV {
    pub mutable: bool,
    pub name: Seq<char>,
    pub ty: Option<TypeV>,
    pub init: ExprV,
    pub span: Span,
}

/// View of a [`StructLitField`].
pub struct LitFieldV {
    pub name: Seq<char>,
    pub value: Option<ExprV>,
    pub span: Span,
}

impl ExprV {
    /// Span of an expression view.
    pub open spec fn span(self) -> Span {
        match self {
            ExprV::LitInt(_, _, s) => s,
            ExprV::LitFloat(_, _, s) => s,
            ExprV::LitBool(_, s) => s,
            ExprV::Ident(_, s) => s,
            ExprV::StrLit(_, s) => s,
            ExprV::Block(b) => b.span,
            ExprV::Unary { span, .. } => span,
            ExprV::Binary { span, .. } => span,
            ExprV::Call { span, .. } => span,
            ExprV::Paren { span, .. } => span,
            ExprV::If { span, .. } => span,
            ExprV::Borrow { span, .. } => span,
            ExprV::Deref { span, .. } => span,
            ExprV::Path { span, .. } => span,
            ExprV::MethodCall { span, .. } => span,
            ExprV::FieldAccess { span, .. } => span,
            ExprV::Index { span, .. } => span,
            ExprV::Range { span, .. } => span,
            ExprV::ArrayLit { span, .. } => span,
            ExprV::StructLit { span, .. } => span,
        }
    }
}

/// View of an [`Expr`].
pub open spec fn expr_v(e: Expr) -> ExprV
    decreases e, 0nat,
{
    match e {
        Expr::LitInt(v, k, s) => ExprV::LitInt(v, k, s),
        Expr::LitFloat(t, k, s) => ExprV::LitFloat(t@, k, s),
        Expr::LitBool(b, s) => ExprV::LitBool(b, s),
        Expr::Ident(n, s) => ExprV::Ident(n@, s),
        Expr::Unary { op, expr, span } => ExprV::Unary { op, expr: Box::new(expr_v(*expr)), span },
        Expr::Binary { op, lhs, rhs, span } => ExprV::Binary {
            op,
            lhs: Box::new(expr_v(*lhs)),
            rhs: Box::new(expr_v(*rhs)),
            span,
        },
        Expr::Call { callee, args, span } => ExprV::Call {
            callee: Box::new(expr_v(*callee)),
            args: exprs_v(args@, args@.len()),
            span,
        },
        Expr::Paren { inner, span } => ExprV::Paren { inner: Box::new(expr_v(*inner)), span },
        Expr::Block(b) => ExprV::Block(Box::new(block_v(*b))),
        Expr::If { cond, then_block, else_block, span } => ExprV::If {
            cond: Box::new(expr_v(*cond)),
            then_block: Box::new(block_v(*then_block)),
            else_block: match else_block {
                Some(b) => Some(Box::new(block_v(*b))),
                None => None,
            },
            span,
        },
        Expr::Borrow { inner, mutable, span } => ExprV::Borrow {
            inner: Box::new(expr_v(*inner)),
            mutable,
            span,
        },
        Expr::Deref { inner, span } => ExprV::Deref { inner: Box::new(expr_v(*inner)), span },
        Expr::StrLit(t, s) => ExprV::StrLit(t@, s),
        Expr::Path { segments, type_args, span } => ExprV::Path {
            segments: texts(segments@),
            type_args: types_v(type_args@, type_args@.len()),
            span,
        },
        Expr::MethodCall { receiver, name, args, span } => ExprV::MethodCall {
            receiver: Box::new(expr_v(*receiver)),
            name: name@,
            args: exprs_v(args@, args@.len()),
            span,
        },
        Expr::FieldAccess { receiver, name, span } => ExprV::FieldAccess {
            receiver: Box::new(expr_v(*receiver)),
            name: name@,
            span,
        },
        Expr::Index { receiver, index, span } => ExprV::Index {
            receiver: Box::new(expr_v(*receiver)),
            index: Box::new(expr_v(*index)),
            span,
        },
        Expr::Range { start, end, span } => ExprV::Range {
            start: match start {
                Some(x) => Some(Box::new(expr_v(*x))),
                None => None,
            },
            end: match end {
                Some(x) => Some(Box::new(expr_v(*x))),
                None => None,
            },
            span,
        },
        Expr::ArrayLit { elements, span } => ExprV::ArrayLit {
            elements: exprs_v(elements@, elements@.len()),
            span,
        },
        Expr::StructLit { path, type_args, fields, span } => ExprV::StructLit {
            path: texts(path@),
            type_args: types_v(type_args@, type_args@.len()),
            fields: lit_fields_v(fields@, fields@.len()),
            span,
        },
    }
}

/// Views of the first `n` expressions.
pub open spec fn exprs_v(s: Seq<Expr>, n: nat) -> Seq<ExprV>
    decreases s, n,
{
    if n == 0 || n > s.len() {
        Seq::empty()
    } else {
        exprs_v(s, (n - 1) as nat).push(expr_v(s[n - 1]))
    }
}

/// Views of the first `n` struct-literal fields.
pub open spec fn lit_fields_v(s: Seq<StructLitField>, n: nat) -> Seq<LitFieldV>
    decreases s, n,
{
    if n == 0 || n > s.len() {
        Seq::empty()
    } else {
        lit_fields_v(s, (n - 1) as nat).push(lit_field_v(s[n - 1]))
    }
}

/// View of a [`StructLitField`].
pub open spec fn lit_field_v(f: StructLitField) -> LitFieldV
    decreases f, 0nat,
{
    LitFieldV {
        name: f.name@,
        value: match f.value {
            Some(x) => Some(expr_v(x)),
            None => None,
        },
        span: f.span,
    }
}

/// View of a [`Block`].
pub open spec fn block_v(b: Block) -> BlockV
    decreases b, 0nat,
{
    BlockV {
        stmts: stmts_v(b.stmts@, b.stmts@.len()),
        tail: match b.tail {
            Some(x) => Some(Box::new(expr_v(*x))),
            None => None,
        },
        span: b.span,
    }
}

/// Views of the first `n` statements.
pub open spec fn stmts_v(s: Seq<Stmt>, n: nat) -> Seq<StmtV>
    decreases s, n,
{
    if n == 0 || n > s.len() {
        Seq::empty()
    } else {
        stmts_v(s, (n - 1) as nat).push(stmt_v(s[n - 1]))
    }
}

/// View of a [`Stmt`].
pub open spec fn stmt_v(st: Stmt) -> StmtV
    decreases st, 0nat,
{
    match st {
        Stmt::Let(l) => StmtV::Let(
            LetV {
                mutable: l.mutable,
                name: l.name@,
                ty: opt_type_v(l.ty),
                init: expr_v(l.init),
                span: l.span,
            },
        ),
        Stmt::Expr(e) => StmtV::Expr(expr_v(e)),
        Stmt::Assign { lhs, rhs, span } => StmtV::Assign { lhs: expr_v(lhs), rhs: expr_v(rhs), span },
    }
}

// ─── Extending a list extends its view ─────────────────────────────────────

proof fn lemma_types_v_prefix(s: Seq<Type>, t: Type, n: nat)
    requires
        n <= s.len(),
    ensures
        types_v(s.push(t), n) == types_v(s, n),
    decreases n,
{
    if n > 0 {
        lemma_types_v_prefix(s, t, (n - 1) as nat);
        assert(s.push(t)[n - 1] == s[n - 1]);
    }
}

/// The view of a type list with one more type at its end.
pub proof fn lemma_types_v_push(s: Seq<Type>, t: Type)
    ensures
        types_v(s.push(t), s.push(t).len()) == types_v(s, s.len()).push(type_v(t)),
{
    lemma_types_v_prefix(s, t, s.len());
    assert(s.push(t)[s.len() as int] == t);
}

proof fn lemma_exprs_v_prefix(s: Seq<Expr>, e: Expr, n: nat)
    requires
        n <= s.len(),
    ensures
        exprs_v(s.push(e), n) == exprs_v(s, n),
    decreases n,
{
    if n > 0 {
        lemma_exprs_v_prefix(s, e, (n - 1) as nat);
        assert(s.push(e)[n - 1] == s[n - 1]);
    }
}

/// The view of an expression list with one more expression at its end.
pub proof fn lemma_exprs_v_push(s: Seq<Expr>, e: Expr)
    ensures
        exprs_v(s.push(e), s.push(e).len()) == exprs_v(s, s.len()).push(expr_v(e)),
{
    lemma_exprs_v_prefix(s, e, s.len());
    assert(s.push(e)[s.len() as int] == e);
}

proof fn lemma_stmts_v_prefix(s: Seq<Stmt>, st: Stmt, n: nat)
    requires
        n <= s.len(),
    ensures
        stmts_v(s.push(st), n) == stmts_v(s, n),
    decreases n,
{
    if n > 0 {
        lemma_stmts_v_prefix(s, st, (n - 1) as nat);
        assert(s.push(st)[n - 1] == s[n - 1]);
    }
}

/// The view of a statement list with one more statement at its end.
pub proof fn lemma_stmts_v_push(s: Seq<Stmt>, st: Stmt)
    ensures
        stmts_v(s.push(st), s.push(st).len()) == stmts_v(s, s.len()).push(stmt_v(st)),
{
    lemma_stmts_v_prefix(s, st, s.len());
    assert(s.push(st)[s.len() as int] == st);
}

proof fn lemma_lit_fields_v_prefix(s: Seq<StructLitField>, f: StructLitField, n: nat)
    requires
        n <= s.len(),
    ensures
        lit_fields_v(s.push(f), n) == lit_fields_v(s, n),
    decreases n,
{
    if n > 0 {
        lemma_lit_fields_v_prefix(s, f, (n - 1) as nat);
        assert(s.push(f)[n - 1] == s[n - 1]);
    }
}

/// The view of a struct-literal field list with one more field at its end.
pub proof fn lemma_lit_fields_v_push(s: Seq<StructLitField>, f: StructLitField)
    ensures
        lit_fields_v(s.push(f), s.push(f).len()) == lit_fields_v(s, s.len()).push(
            lit_field_v(f),
        ),
{
    lemma_lit_fields_v_prefix(s, f, s.len());
    assert(s.push(f)[s.len() as int] == f);
}

/// The view of the first `n` expressions has one view per expression.
pub proof fn lemma_exprs_v_index(s: Seq<Expr>, n: nat)
    requires
        n <= s.len(),
    ensures
        exprs_v(s, n).len() == n,
        forall|i: int| 0 <= i < n ==> #[trigger] exprs_v(s, n)[i] == expr_v(s[i]),
    decreases n,
{
    if n > 0 {
        lemma_exprs_v_index(s, (n - 1) as nat);
    }
}

/// The view of the first `n` statements has one view per statement.
pub proof fn lemma_stmts_v_index(s: Seq<Stmt>, n: nat)
    requires
        n <= s.len(),
    ensures
        stmts_v(s, n).len() == n,
        forall|i: int| 0 <= i < n ==> #[trigger] stmts_v(s, n)[i] == stmt_v(s[i]),
    decreases n,
{
    if n > 0 {
        lemma_stmts_v_index(s, (n - 1) as nat);
    }
}

/// The view of the first `n` struct-literal fields has one view per field.
pub proof fn lemma_lit_fields_v_index(s: Seq<StructLitField>, n: nat)
    requires
        n <= s.len(),
    ensures
        lit_fields_v(s, n).len() == n,
        forall|i: int| 0 <= i < n ==> #[trigger] lit_fields_v(s, n)[i] == lit_field_v(s[i]),
    decreases n,
{
    if n > 0 {
        lemma_lit_fields_v_index(s, (n - 1) as nat);
    }
}

/// View of a [`TypeParam`].
pub struct TypeParamV {
    pub name: Seq<char>,
    pub bound: Option<Seq<char>>,
    pub span: Span,
}

/// View of a [`TypeParam`].
pub open spec fn type_param_v(p: TypeParam) -> TypeParamV {
    TypeParamV {
        name: p.name@,
        bound: match p.bound {
            Some(b) => Some(b@),
            None => None,
        },
        span: p.span,
    }
}

/// View of a [`Param`].
pub struct ParamV {
    pub name: Seq<char>,
    pub ty: TypeV,
    pub kind: ParamKind,
    pub span: Span,
}

/// View of a [`Param`].
pub open spec fn param_v(p: Param) -> ParamV {
    ParamV { name: p.name@, ty: type_v(p.ty), kind: p.kind, span: p.span }
}

/// View of a [`FnDecl`].
pub struct FnDeclV {
    pub name: Seq<char>,
    pub type_params: Seq<TypeParamV>,
    pub params: Seq<ParamV>,
    pub return_ty: Option<TypeV>,
    pub body: BlockV,
    pub span: Span,
}

/// View of a [`FnDecl`].
pub open spec fn fn_decl_v(f: FnDecl) -> FnDeclV {
    FnDeclV {
        name: f.name@,
        type_params: f.type_params@.map_values(|p: TypeParam| type_param_v(p)),
        params: f.params@.map_values(|p: Param| param_v(p)),
        return_ty: opt_type_v(f.return_ty),
        body: block_v(f.body),
        span: f.span,
    }
}

/// View of a [`StructField`].
pub struct StructFieldV {
    pub name: Seq<char>,
    pub ty: TypeV,
    pub span: Span,
}

/// View of a [`StructDecl`].
pub struct StructDeclV {
    pub name: Seq<char>,
    pub type_params: Seq<TypeParamV>,
    pub fields: Seq<StructFieldV>,
    pub span: Span,
}

/// View of a [`StructField`].
pub open spec fn struct_field_v(f: StructField) -> StructFieldV {
    StructFieldV { name: f.name@, ty: type_v(f.ty), span: f.span }
}

/// View of a [`StructDecl`].
pub open spec fn struct_decl_v(d: StructDecl) -> StructDeclV {
    StructDeclV {
        name: d.name@,
        type_params: d.type_params@.map_values(|p: TypeParam| type_param_v(p)),
        fields: d.fields@.map_values(|f: StructField| struct_field_v(f)),
        span: d.span,
    }
}

/// View of an [`ImplBlock`].
pub struct ImplBlockV {
    pub ty_name: Seq<char>,
    pub items: Seq<FnDeclV>,
    pub span: Span,
}

/// View of an [`ImplBlock`].
pub open spec fn impl_block_v(b: ImplBlock) -> ImplBlockV {
    ImplBlockV {
        ty_name: b.ty_name@,
        items: b.items@.map_values(|f: FnDecl| fn_decl_v(f)),
        span: b.span,
    }
}

/// View of an [`Item`].
pub enum ItemV {
    Fn(FnDeclV),
    Struct(StructDeclV),
    Impl(ImplBlockV),
}

/// View of an [`Item`].
pub open spec fn item_v(i: Item) -> ItemV {
    match i {
        Item::Fn(f) => ItemV::Fn(fn_decl_v(f)),
        Item::Struct(d) => ItemV::Struct(struct_decl_v(d)),
        Item::Impl(b) => ItemV::Impl(impl_block_v(b)),
    }
}

impl ItemV {
    /// Span of an item view.
    pub open spec fn span(self) -> Span {
        match self {
            ItemV::Fn(f) => f.span,
            ItemV::Struct(d) => d.span,
            ItemV::Impl(b) => b.span,
        }
    }
}

/// View of a [`Program`].
pub struct ProgramV {
    pub items: Seq<ItemV>,
    pub span: Span,
}

/// View of a [`Program`].
pub open spec fn program_v(p: Program) -> ProgramV {
    ProgramV { items: p.items@.map_values(|i: Item| item_v(i)), span: p.span }
}

} // verus!
