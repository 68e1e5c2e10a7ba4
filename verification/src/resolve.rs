//! Name resolution: a stable [`BindingId`] for every introduced binding and
//! the binding every identifier use refers to.
//!
//! Scoping: top-level functions are visible everywhere (declared before any
//! body is walked); a function's parameters live in a scope around its body;
//! every block opens a scope; a `let` binding becomes visible after its
//! initializer. A later declaration of a name in the same scope shadows the
//! earlier one, and inner scopes shadow outer ones.

use indexmap::IndexMap;
use vstd::prelude::*;

use crate::ast::{
    block_v, expr_v, exprs_v, lemma_exprs_v_index, lemma_lit_fields_v_index, lemma_stmts_v_index,
    fn_decl_v, lit_field_v, lit_fields_v, program_v, stmt_v, stmts_v, Block, BlockV, Expr, ExprV,
    FnDecl, FnDeclV, Item, ItemV, item_v, LitFieldV, ParamV, Program, ProgramV, Stmt, StmtV,
    StructLitField,
};
use crate::error::ParseError;
use crate::span::Span;
use crate::text::{concat_str, str_eq};

verus! {

/// Identifier of an introduced binding (function, `let`, parameter).
/// Allocated sequentially; shadowing creates a new id.
#[derive(Clone, Copy, Debug, PartialEq, Eq, Hash, PartialOrd, Ord, Structural)]
pub struct BindingId(pub u32);

/// How a binding was introduced.
#[derive(Clone, Copy, Debug, PartialEq, Eq, Structural)]
pub enum BindingKind {
    /// Top-level function declaration.
    Fn,
    /// `let` binding; `mutable` for `let mut`.
    Let { mutable: bool },
    /// Function parameter.
    Param,
}

/// Where a binding was declared.
#[derive(Clone, Debug, PartialEq)]
pub struct BindingDecl {
    /// Source name of the binding.
    pub name: String,
    /// How it was introduced.
    pub kind: BindingKind,
    /// Span of the introducing form.
    pub decl_span: Span,
    /// Span of the binding name (the introducing form's span).
    pub name_span: Span,
}

/// View of a [`BindingDecl`].
pub struct DeclV {
    pub name: Seq<char>,
    pub kind: BindingKind,
    pub decl_span: Span,
    pub name_span: Span,
}

/// View of a [`BindingDecl`].
pub open spec fn decl_v(d: BindingDecl) -> DeclV {
    DeclV { name: d.name@, kind: d.kind, decl_span: d.decl_span, name_span: d.name_span }
}

/// The key a use site is recorded under: its span as `(start, end, file)`.
pub open spec fn span_key(s: Span) -> (u32, u32, u32) {
    (s.start, s.end, s.file.0)
}

/// Outcome of resolving a part of the program: the state after it, or the
/// first error.
pub type RRes = Result<RState, (Seq<char>, Span)>;

/// The resolver's state: the open scopes (innermost last; in each, the
/// declarations in order), the next binding number, the use sites recorded
/// so far (in order, one entry per key) and the declarations so far.
pub struct RState {
    pub scopes: Seq<Seq<(Seq<char>, u32)>>,
    pub next_id: int,
    pub uses: Seq<((u32, u32, u32), BindingId)>,
    pub bindings: Seq<(u32, DeclV)>,
}

/// The latest declaration of `name` in one scope.
pub open spec fn lookup_in(scope: Seq<(Seq<char>, u32)>, name: Seq<char>) -> Option<u32>
    decreases scope.len(),
{
    if scope.len() == 0 {
        None
    } else if scope.last().0 == name {
        Some(scope.last().1)
    } else {
        lookup_in(scope.drop_last(), name)
    }
}

/// The binding `name` refers to: its latest declaration in the innermost
/// scope that declares it.
pub open spec fn lookup(scopes: Seq<Seq<(Seq<char>, u32)>>, name: Seq<char>) -> Option<u32>
    decreases scopes.len(),
{
    if scopes.len() == 0 {
        None
    } else {
        match lookup_in(scopes.last(), name) {
            Some(id) => Some(id),
            None => lookup(scopes.drop_last(), name),
        }
    }
}

/// Law: within one scope, a name refers to its latest declaration: if
/// entry `j` declares `name` and no later entry does, the scope's lookup
/// gives entry `j`'s binding; a scope with no entry for `name` gives none.
pub proof fn law_scope_latest(scope: Seq<(Seq<char>, u32)>, name: Seq<char>)
    ensures
        (forall|k: int| 0 <= k < scope.len() ==> #[trigger] scope[k].0 != name) ==> lookup_in(scope, name)
            is None,
        forall|j: int|
            0 <= j < scope.len() && #[trigger] scope[j].0 == name && (forall|k: int|
                j < k < scope.len() ==> #[trigger] scope[k].0 != name) ==> lookup_in(scope, name)
                == Some(scope[j].1),
    decreases scope.len(),
{
    if scope.len() > 0 {
        let d = scope.drop_last();
        law_scope_latest(d, name);
        assert forall|j: int|
            0 <= j < scope.len() && #[trigger] scope[j].0 == name && (forall|k: int|
                j < k < scope.len() ==> #[trigger] scope[k].0 != name) implies lookup_in(scope, name)
                == Some(scope[j].1) by {
            if j < scope.len() - 1 {
                assert(scope[scope.len() - 1].0 != name);
                assert(d[j] == scope[j]);
                assert forall|k: int| j < k < d.len() implies #[trigger] d[k].0 != name by {
                    assert(d[k] == scope[k]);
                }
            }
        }
        if forall|k: int| 0 <= k < scope.len() ==> #[trigger] scope[k].0 != name {
            assert(scope[scope.len() - 1].0 != name);
            assert forall|k: int| 0 <= k < d.len() implies #[trigger] d[k].0 != name by {
                assert(d[k] == scope[k]);
            }
        }
    }
}

/// Law: a name resolves in the innermost scope that declares it. If scope
/// `i` declares `name` (latest at entry `j`) and no inner scope declares it,
/// lookup gives that entry's binding, whatever outer scopes hold; a name no
/// scope declares resolves to nothing.
pub proof fn law_lookup_innermost(scopes: Seq<Seq<(Seq<char>, u32)>>, name: Seq<char>, i: int, j: int)
    requires
        0 <= i < scopes.len(),
        0 <= j < scopes[i].len(),
        scopes[i][j].0 == name,
        forall|k: int| j < k < scopes[i].len() ==> #[trigger] scopes[i][k].0 != name,
        forall|a: int, k: int| i < a < scopes.len() && 0 <= k < scopes[a].len() ==> #[trigger] scopes[a][k].0 != name,
    ensures
        lookup(scopes, name) == Some(scopes[i][j].1),
    decreases scopes.len(),
{
    let last = scopes.last();
    law_scope_latest(last, name);
    if i < scopes.len() - 1 {
        assert forall|k: int| 0 <= k < last.len() implies #[trigger] last[k].0 != name by {
            assert(scopes[scopes.len() - 1][k].0 != name);
        }
        let d = scopes.drop_last();
        assert(d[i] == scopes[i]);
        assert forall|a: int, k: int| i < a < d.len() && 0 <= k < d[a].len() implies #[trigger] d[a][k].0 != name by {
            assert(d[a] == scopes[a]);
        }
        law_lookup_innermost(d, name, i, j);
    } else {
        assert(scopes[i] == last);
        assert(last[j].0 == name);
    }
}

/// Law: a name that no scope declares resolves to nothing.
pub proof fn law_lookup_undeclared(scopes: Seq<Seq<(Seq<char>, u32)>>, name: Seq<char>)
    requires
        forall|a: int, k: int| 0 <= a < scopes.len() && 0 <= k < scopes[a].len() ==> #[trigger] scopes[a][k].0 != name,
    ensures
        lookup(scopes, name) is None,
    decreases scopes.len(),
{
    if scopes.len() > 0 {
        let last = scopes.last();
        law_scope_latest(last, name);
        assert forall|k: int| 0 <= k < last.len() implies #[trigger] last[k].0 != name by {
            assert(scopes[scopes.len() - 1][k].0 != name);
        }
        let d = scopes.drop_last();
        assert forall|a: int, k: int| 0 <= a < d.len() && 0 <= k < d[a].len() implies #[trigger] d[a][k].0 != name by {
            assert(d[a] == scopes[a]);
        }
        law_lookup_undeclared(d, name);
    }
}

/// Open a scope.
pub open spec fn push_scope(st: RState) -> RState {
    RState { scopes: st.scopes.push(Seq::empty()), ..st }
}

/// Close the innermost scope.
pub open spec fn pop_scope(st: RState) -> RState {
    RState { scopes: st.scopes.drop_last(), ..st }
}

/// Declare `name` in the innermost scope under the next binding number.
pub open spec fn declare(
    st: RState,
    name: Seq<char>,
    kind: BindingKind,
    decl_span: Span,
    name_span: Span,
) -> RState {
    let id = st.next_id as u32;
    RState {
        scopes: st.scopes.update(
            st.scopes.len() - 1,
            st.scopes.last().push((name, id)),
        ),
        next_id: st.next_id + 1,
        uses: st.uses,
        bindings: st.bindings.push((id, DeclV { name, kind, decl_span, name_span })),
    }
}

/// Record under `k` the binding `v`: an existing entry for `k` takes the
/// new binding in place; otherwise the entry is appended.
pub open spec fn put_use(t: Seq<((u32, u32, u32), BindingId)>, k: (u32, u32, u32), v: BindingId) -> Seq<
    ((u32, u32, u32), BindingId),
> {
    if exists|i: int| 0 <= i < t.len() && t[i].0 == k {
        t.map_values(
            |p: ((u32, u32, u32), BindingId)|
                if p.0 == k {
                    (k, v)
                } else {
                    p
                },
        )
    } else {
        t.push((k, v))
    }
}

/// Record that the use site `span` refers to binding `id`.
pub open spec fn record_use(st: RState, span: Span, id: u32) -> RState {
    RState { uses: put_use(st.uses, span_key(span), BindingId(id)), ..st }
}

/// Resolve an expression.
pub open spec fn r_expr(st: RState, e: ExprV) -> RRes
    decreases e, 0int,
{
    match e {
        ExprV::Ident(name, span) => match lookup(st.scopes, name) {
            Some(id) => Ok(record_use(st, span, id)),
            None => Err(("use of undeclared variable `"@ + name + "`"@, span)),
        },
        ExprV::Unary { expr, .. } => r_expr(st, *expr),
        ExprV::Borrow { inner, .. } => r_expr(st, *inner),
        ExprV::Deref { inner, .. } => r_expr(st, *inner),
        ExprV::Paren { inner, .. } => r_expr(st, *inner),
        ExprV::FieldAccess { receiver, .. } => r_expr(st, *receiver),
        ExprV::MethodCall { receiver, args, .. } => match r_expr(st, *receiver) {
            Err(err) => Err(err),
            Ok(s1) => r_exprs(s1, args, 0),
        },
        ExprV::Call { callee, args, .. } => match r_expr(st, *callee) {
            Err(err) => Err(err),
            Ok(s1) => r_exprs(s1, args, 0),
        },
        ExprV::Index { receiver, index, .. } => match r_expr(st, *receiver) {
            Err(err) => Err(err),
            Ok(s1) => r_expr(s1, *index),
        },
        ExprV::Binary { lhs, rhs, .. } => match r_expr(st, *lhs) {
            Err(err) => Err(err),
            Ok(s1) => r_expr(s1, *rhs),
        },
        ExprV::Range { start, end, .. } => {
            let r1 = match start {
                Some(x) => r_expr(st, *x),
                None => Ok(st),
            };
            match r1 {
                Err(err) => Err(err),
                Ok(s1) => match end {
                    Some(x) => r_expr(s1, *x),
                    None => Ok(s1),
                },
            }
        },
        ExprV::ArrayLit { elements, .. } => r_exprs(st, elements, 0),
        ExprV::StructLit { fields, .. } => r_fields(st, fields, 0),
        ExprV::Block(b) => r_block(st, *b),
        ExprV::If { cond, then_block, else_block, .. } => match r_expr(st, *cond) {
            Err(err) => Err(err),
            Ok(s1) => match r_block(s1, *then_block) {
                Err(err) => Err(err),
                Ok(s2) => match else_block {
                    Some(b) => r_block(s2, *b),
                    None => Ok(s2),
                },
            },
        },
        _ => Ok(st),
    }
}

/// Resolve the expressions `es` from index `i` on, in order.
pub open spec fn r_exprs(st: RState, es: Seq<ExprV>, i: int) -> RRes
    decreases es, es.len() - i,
{
    if i < 0 || i >= es.len() {
        Ok(st)
    } else {
        match r_expr(st, es[i]) {
            Err(err) => Err(err),
            Ok(s1) => r_exprs(s1, es, i + 1),
        }
    }
}

/// Resolve struct-literal fields from index `i` on: a value is resolved as
/// an expression; a shorthand field is a use of the local of its name.
pub open spec fn r_fields(st: RState, fs: Seq<LitFieldV>, i: int) -> RRes
    decreases fs, fs.len() - i,
{
    if i < 0 || i >= fs.len() {
        Ok(st)
    } else {
        let r1 = match fs[i].value {
            Some(v) => r_expr(st, v),
            None => match lookup(st.scopes, fs[i].name) {
                Some(id) => Ok(record_use(st, fs[i].span, id)),
                None => Err(
                    (
                        "no local named `"@ + fs[i].name + "` in scope for field-shorthand"@,
                        fs[i].span,
                    ),
                ),
            },
        };
        match r1 {
            Err(err) => Err(err),
            Ok(s1) => r_fields(s1, fs, i + 1),
        }
    }
}

/// Resolve a block in a scope of its own.
pub open spec fn r_block(st: RState, b: BlockV) -> RRes
    decreases b, 0int,
{
    match r_stmts(push_scope(st), b.stmts, 0) {
        Err(err) => Err(err),
        Ok(s1) => match b.tail {
            Some(t) => match r_expr(s1, *t) {
                Err(err) => Err(err),
                Ok(s2) => Ok(pop_scope(s2)),
            },
            None => Ok(pop_scope(s1)),
        },
    }
}

/// Resolve the statements `ss` from index `i` on, in order.
pub open spec fn r_stmts(st: RState, ss: Seq<StmtV>, i: int) -> RRes
    decreases ss, ss.len() - i,
{
    if i < 0 || i >= ss.len() {
        Ok(st)
    } else {
        match r_stmt(st, ss[i]) {
            Err(err) => Err(err),
            Ok(s1) => r_stmts(s1, ss, i + 1),
        }
    }
}

/// Resolve a statement. A `let` initializer sees the bindings from before
/// the `let`; the new binding is declared after it.
pub open spec fn r_stmt(st: RState, s: StmtV) -> RRes
    decreases s, 0int,
{
    match s {
        StmtV::Let(l) => match r_expr(st, l.init) {
            Err(err) => Err(err),
            Ok(s1) => Ok(declare(s1, l.name, BindingKind::Let { mutable: l.mutable }, l.span, l.span)),
        },
        StmtV::Expr(e) => r_expr(st, e),
        StmtV::Assign { lhs, rhs, .. } => match r_expr(st, lhs) {
            Err(err) => Err(err),
            Ok(s1) => r_expr(s1, rhs),
        },
    }
}

/// Declare the parameters `ps` from index `i` on; a name given twice is an
/// error at its second occurrence.
pub open spec fn r_params(st: RState, ps: Seq<ParamV>, i: int) -> RRes
    decreases ps.len() - i,
{
    if i < 0 || i >= ps.len() {
        Ok(st)
    } else if lookup_in(st.scopes.last(), ps[i].name) is Some {
        Err(("duplicate parameter `"@ + ps[i].name + "`"@, ps[i].span))
    } else {
        r_params(declare(st, ps[i].name, BindingKind::Param, ps[i].span, ps[i].span), ps, i + 1)
    }
}

/// Resolve a function: its parameters in a scope around its body.
pub open spec fn r_fn(st: RState, f: FnDeclV) -> RRes {
    match r_params(push_scope(st), f.params, 0) {
        Err(err) => Err(err),
        Ok(s1) => match r_block(s1, f.body) {
            Err(err) => Err(err),
            Ok(s2) => Ok(pop_scope(s2)),
        },
    }
}

/// Resolve the functions `fs` from index `i` on.
pub open spec fn r_fns(st: RState, fs: Seq<FnDeclV>, i: int) -> RRes
    decreases fs.len() - i,
{
    if i < 0 || i >= fs.len() {
        Ok(st)
    } else {
        match r_fn(st, fs[i]) {
            Err(err) => Err(err),
            Ok(s1) => r_fns(s1, fs, i + 1),
        }
    }
}

/// Resolve the items from index `i` on: functions and the functions of
/// impl blocks; structs have nothing to resolve.
pub open spec fn r_items(st: RState, items: Seq<ItemV>, i: int) -> RRes
    decreases items.len() - i,
{
    if i < 0 || i >= items.len() {
        Ok(st)
    } else {
        let r1 = match items[i] {
            ItemV::Fn(f) => r_fn(st, f),
            ItemV::Impl(b) => r_fns(st, b.items, 0),
            ItemV::Struct(_) => Ok(st),
        };
        match r1 {
            Err(err) => Err(err),
            Ok(s1) => r_items(s1, items, i + 1),
        }
    }
}

/// Declare the top-level functions among the items from index `i` on.
pub open spec fn declare_fns(st: RState, items: Seq<ItemV>, i: int) -> RState
    decreases items.len() - i,
{
    if i < 0 || i >= items.len() {
        st
    } else {
        match items[i] {
            ItemV::Fn(f) => declare_fns(
                declare(st, f.name, BindingKind::Fn, f.span, f.span),
                items,
                i + 1,
            ),
            _ => declare_fns(st, items, i + 1),
        }
    }
}

/// The state before resolution: no scopes, nothing declared or used.
pub open spec fn initial() -> RState {
    RState { scopes: Seq::empty(), next_id: 0, uses: Seq::empty(), bindings: Seq::empty() }
}

/// Resolve a program: its top-level functions are declared in an outermost
/// scope before any body is resolved. Yields the state at the end.
pub open spec fn r_program(p: ProgramV) -> RRes {
    let s0 = declare_fns(push_scope(initial()), p.items, 0);
    match r_items(s0, p.items, 0) {
        Err(err) => Err(err),
        Ok(s1) => Ok(pop_scope(s1)),
    }
}

// ─── How many bindings a program introduces ────────────────────────────────

/// Bindings an expression introduces (the `let`s of its blocks).
pub open spec fn n_expr(e: ExprV) -> nat
    decreases e, 0int,
{
    match e {
        ExprV::Unary { expr, .. } => n_expr(*expr),
        ExprV::Borrow { inner, .. } => n_expr(*inner),
        ExprV::Deref { inner, .. } => n_expr(*inner),
        ExprV::Paren { inner, .. } => n_expr(*inner),
        ExprV::FieldAccess { receiver, .. } => n_expr(*receiver),
        ExprV::MethodCall { receiver, args, .. } => n_expr(*receiver) + n_exprs(args, 0),
        ExprV::Call { callee, args, .. } => n_expr(*callee) + n_exprs(args, 0),
        ExprV::Index { receiver, index, .. } => n_expr(*receiver) + n_expr(*index),
        ExprV::Binary { lhs, rhs, .. } => n_expr(*lhs) + n_expr(*rhs),
        ExprV::Range { start, end, .. } => (match start {
            Some(x) => n_expr(*x),
            None => 0,
        }) + (match end {
            Some(x) => n_expr(*x),
            None => 0,
        }),
        ExprV::ArrayLit { elements, .. } => n_exprs(elements, 0),
        ExprV::StructLit { fields, .. } => n_fields(fields, 0),
        ExprV::Block(b) => n_block(*b),
        ExprV::If { cond, then_block, else_block, .. } => n_expr(*cond) + n_block(*then_block) + (
        match else_block {
            Some(b) => n_block(*b),
            None => 0,
        }),
        _ => 0,
    }
}

/// Bindings the expressions `es` from index `i` on introduce.
pub open spec fn n_exprs(es: Seq<ExprV>, i: int) -> nat
    decreases es, es.len() - i,
{
    if i < 0 || i >= es.len() {
        0
    } else {
        n_expr(es[i]) + n_exprs(es, i + 1)
    }
}

/// Bindings the struct-literal field values from index `i` on introduce.
pub open spec fn n_fields(fs: Seq<LitFieldV>, i: int) -> nat
    decreases fs, fs.len() - i,
{
    if i < 0 || i >= fs.len() {
        0
    } else {
        (match fs[i].value {
            Some(v) => n_expr(v),
            None => 0,
        }) + n_fields(fs, i + 1)
    }
}

/// Bindings a block introduces.
pub open spec fn n_block(b: BlockV) -> nat
    decreases b, 0int,
{
    n_stmts(b.stmts, 0) + match b.tail {
        Some(t) => n_expr(*t),
        None => 0,
    }
}

/// Bindings the statements from index `i` on introduce.
pub open spec fn n_stmts(ss: Seq<StmtV>, i: int) -> nat
    decreases ss, ss.len() - i,
{
    if i < 0 || i >= ss.len() {
        0
    } else {
        n_stmt(ss[i]) + n_stmts(ss, i + 1)
    }
}

/// Bindings a statement introduces.
pub open spec fn n_stmt(s: StmtV) -> nat
    decreases s, 0int,
{
    match s {
        StmtV::Let(l) => n_expr(l.init) + 1,
        StmtV::Expr(e) => n_expr(e),
        StmtV::Assign { lhs, rhs, .. } => n_expr(lhs) + n_expr(rhs),
    }
}

/// Bindings a function introduces: its parameters and its body's.
pub open spec fn n_fn(f: FnDeclV) -> nat {
    f.params.len() + n_block(f.body)
}

/// Bindings the functions from index `i` on introduce.
pub open spec fn n_fns(fs: Seq<FnDeclV>, i: int) -> nat
    decreases fs.len() - i,
{
    if i < 0 || i >= fs.len() {
        0
    } else {
        n_fn(fs[i]) + n_fns(fs, i + 1)
    }
}

/// Top-level function names among the items from index `i` on.
pub open spec fn n_fnames(items: Seq<ItemV>, i: int) -> nat
    decreases items.len() - i,
{
    if i < 0 || i >= items.len() {
        0
    } else {
        (if items[i] is Fn {
            1nat
        } else {
            0nat
        }) + n_fnames(items, i + 1)
    }
}

/// Bindings introduced inside the items from index `i` on: those of each
/// function and of each impl block's functions.
pub open spec fn n_bodies(items: Seq<ItemV>, i: int) -> nat
    decreases items.len() - i,
{
    if i < 0 || i >= items.len() {
        0
    } else {
        (match items[i] {
            ItemV::Fn(f) => n_fn(f),
            ItemV::Impl(b) => n_fns(b.items, 0),
            ItemV::Struct(_) => 0,
        }) + n_bodies(items, i + 1)
    }
}

/// Bindings a program introduces: its top-level function names and every
/// parameter and `let` of its functions.
pub open spec fn n_program(p: ProgramV) -> nat {
    n_fnames(p.items, 0) + n_bodies(p.items, 0)
}

// ─── The resolution tables ─────────────────────────────────────────────────

/// The entries of a use table, in the map's order: a use site's key and
/// the binding it refers to.
pub uninterp spec fn use_entries(m: IndexMap<(u32, u32, u32), BindingId>) -> Seq<
    ((u32, u32, u32), BindingId),
>;

/// The entries of a declaration table, in the map's order: a binding
/// number and its declaration.
pub uninterp spec fn binding_entries(m: IndexMap<u32, BindingDecl>) -> Seq<(u32, BindingDecl)>;

/// `IndexMap::new`: an empty use table.
#[verifier::external_body]
fn uses_new() -> (m: IndexMap<(u32, u32, u32), BindingId>)
    ensures
        use_entries(m) == Seq::<((u32, u32, u32), BindingId)>::empty(),
{
    IndexMap::new()
}

/// `IndexMap::insert` on a use table: an existing key keeps its position
/// and gets the new value (the old one is returned); a new key is appended.
#[verifier::external_body]
fn uses_insert(m: &mut IndexMap<(u32, u32, u32), BindingId>, k: (u32, u32, u32), v: BindingId) -> (r: Option<BindingId>)
    ensures
        ({
            let t = use_entries(*old(m));
            let t2 = use_entries(*final(m));
            ||| exists|i: int|
                0 <= i < t.len() && #[trigger] t[i].0 == k && t2 == t.update(i, (k, v)) && r
                    == Some(t[i].1)
            ||| (forall|i: int| 0 <= i < t.len() ==> #[trigger] t[i].0 != k) && t2 == t.push(
                (k, v),
            ) && r is None
        }),
{
    m.insert(k, v)
}

/// `IndexMap::new`: an empty declaration table.
#[verifier::external_body]
fn bindings_new() -> (m: IndexMap<u32, BindingDecl>)
    ensures
        binding_entries(m) == Seq::<(u32, BindingDecl)>::empty(),
{
    IndexMap::new()
}

/// `IndexMap::insert` on a declaration table: an existing key keeps its
/// position and gets the new value (the old one is returned); a new key is
/// appended.
#[verifier::external_body]
fn bindings_insert(m: &mut IndexMap<u32, BindingDecl>, k: u32, v: BindingDecl) -> (r: Option<BindingDecl>)
    ensures
        ({
            let t = binding_entries(*old(m));
            let t2 = binding_entries(*final(m));
            ||| exists|i: int|
                0 <= i < t.len() && #[trigger] t[i].0 == k && t2 == t.update(i, (k, v)) && r
                    == Some(t[i].1)
            ||| (forall|i: int| 0 <= i < t.len() ==> #[trigger] t[i].0 != k) && t2 == t.push(
                (k, v),
            ) && r is None
        }),
{
    m.insert(k, v)
}

/// `IndexMap::len` on a declaration table.
#[verifier::external_body]
pub(crate) fn bindings_len(m: &IndexMap<u32, BindingDecl>) -> (n: usize)
    ensures
        n == binding_entries(*m).len(),
{
    m.len()
}

/// `IndexMap::get_index` on a declaration table: the entry at position `i`
/// (`i` below the length).
#[verifier::external_body]
pub(crate) fn bindings_get_index(m: &IndexMap<u32, BindingDecl>, i: usize) -> (entry: (u32, &BindingDecl))
    requires
        i < binding_entries(*m).len(),
    ensures
        entry.0 == binding_entries(*m)[i as int].0,
        *entry.1 == binding_entries(*m)[i as int].1,
{
    let (k, v) = m.get_index(i).unwrap();
    (*k, v)
}

/// `IndexMap::get` on a declaration table: the declaration stored under
/// `k`, if any.
#[verifier::external_body]
pub(crate) fn bindings_get(m: &IndexMap<u32, BindingDecl>, k: u32) -> (r: Option<&BindingDecl>)
    ensures
        match r {
            Some(d) => exists|i: int|
                0 <= i < binding_entries(*m).len() && #[trigger] binding_entries(*m)[i].0 == k
                    && binding_entries(*m)[i].1 == *d,
            None => forall|i: int|
                0 <= i < binding_entries(*m).len() ==> #[trigger] binding_entries(*m)[i].0 != k,
        },
{
    m.get(&k)
}

/// Output of [`resolve`]: every identifier use site and the binding it
/// refers to, and the declaration of every binding.
#[derive(Debug)]
pub struct Resolution {
    /// Each use site, keyed by its span as `(start, end, file)`, to the
    /// binding it refers to, in the order the uses are met.
    pub uses: IndexMap<(u32, u32, u32), BindingId>,
    /// Each binding number to its declaration, in declaration order.
    pub bindings: IndexMap<u32, BindingDecl>,
}

impl Default for Resolution {
    /// An empty resolution: no uses, no bindings.
    fn default() -> (r: Resolution)
        ensures
            use_entries(r.uses) == Seq::<((u32, u32, u32), BindingId)>::empty(),
            binding_entries(r.bindings) == Seq::<(u32, BindingDecl)>::empty(),
    {
        Resolution { uses: uses_new(), bindings: bindings_new() }
    }
}

/// Views of declaration-table entries.
pub open spec fn decls_v(t: Seq<(u32, BindingDecl)>) -> Seq<(u32, DeclV)> {
    t.map_values(|p: (u32, BindingDecl)| (p.0, decl_v(p.1)))
}

/// Views of the resolver's scopes.
pub open spec fn scopes_v(s: Seq<Vec<(String, u32)>>) -> Seq<Seq<(Seq<char>, u32)>> {
    s.map_values(|v: Vec<(String, u32)>| scope_v(v@))
}

/// View of one scope.
pub open spec fn scope_v(v: Seq<(String, u32)>) -> Seq<(Seq<char>, u32)> {
    v.map_values(|p: (String, u32)| (p.0@, p.1))
}

/// No key occurs twice among the use entries.
pub open spec fn uses_unique(t: Seq<((u32, u32, u32), BindingId)>) -> bool {
    forall|i: int, j: int| 0 <= i < j < t.len() ==> #[trigger] t[i].0 != #[trigger] t[j].0
}

/// Well-formed resolution tables: the binding numbers are `0, 1, ..` in
/// declaration order, no use site is recorded twice, and every use refers
/// to a recorded binding.
pub open spec fn tables_wf(uses: Seq<((u32, u32, u32), BindingId)>, bindings: Seq<(u32, BindingDecl)>) -> bool {
    &&& forall|i: int| 0 <= i < bindings.len() ==> #[trigger] bindings[i].0 == i
    &&& uses_unique(uses)
    &&& forall|i: int| 0 <= i < uses.len() ==> (#[trigger] uses[i]).1.0 < bindings.len()
}

/// A resolution's tables are what the state `st` records.
pub open spec fn resolution_is(res: Resolution, st: RState) -> bool {
    &&& use_entries(res.uses) == st.uses
    &&& decls_v(binding_entries(res.bindings)) == st.bindings
}

struct Resolver {
    /// Innermost scope last; each holds its declarations in order.
    scopes: Vec<Vec<(String, u32)>>,
    next_id: u32,
    resolution: Resolution,
}

impl Resolver {
    closed spec fn view(&self) -> RState {
        RState {
            scopes: scopes_v(self.scopes@),
            next_id: self.next_id as int,
            uses: use_entries(self.resolution.uses),
            bindings: decls_v(binding_entries(self.resolution.bindings)),
        }
    }

    /// The tables are well formed for `next_id` bindings, and every binding
    /// in scope is one of them.
    closed spec fn inv(&self) -> bool {
        &&& tables_wf(use_entries(self.resolution.uses), binding_entries(self.resolution.bindings))
        &&& binding_entries(self.resolution.bindings).len() == self.next_id
        &&& forall|s: int, j: int|
            0 <= s < self.scopes@.len() && 0 <= j < self.scopes@[s]@.len() ==> #[trigger] self.scopes@[s]@[j].1
                < self.next_id
    }

    fn new() -> (r: Resolver)
        ensures
            r.inv(),
            r.view() == initial(),
            r.scopes@.len() == 0,
    {
        let r = Resolver {
            scopes: Vec::new(),
            next_id: 0,
            resolution: Resolution::default(),
        };
        proof {
            assert(scopes_v(r.scopes@) =~= Seq::empty());
            assert(decls_v(binding_entries(r.resolution.bindings)) =~= Seq::empty());
        }
        r
    }

    fn push_scope(&mut self)
        requires
            old(self).inv(),
        ensures
            final(self).inv(),
            final(self).view() == push_scope(old(self).view()),
            final(self).scopes@.len() == old(self).scopes@.len() + 1,
    {
        self.scopes.push(Vec::new());
        proof {
            assert(scope_v(self.scopes@.last()@) =~= Seq::empty());
            assert(scopes_v(self.scopes@) =~= scopes_v(old(self).scopes@).push(Seq::empty()));
        }
    }

    fn pop_scope(&mut self)
        requires
            old(self).inv(),
            old(self).scopes@.len() >= 1,
        ensures
            final(self).inv(),
            final(self).view() == pop_scope(old(self).view()),
            final(self).scopes@.len() == old(self).scopes@.len() - 1,
    {
        self.scopes.pop();
        proof {
            assert(scopes_v(self.scopes@) =~= scopes_v(old(self).scopes@).drop_last());
        }
    }

    fn declare(&mut self, name: String, kind: BindingKind, decl_span: Span, name_span: Span) -> (id: BindingId)
        requires
            old(self).inv(),
            old(self).scopes@.len() >= 1,
            old(self).next_id < u32::MAX,
        ensures
            final(self).inv(),
            final(self).view() == declare(old(self).view(), name@, kind, decl_span, name_span),
            final(self).scopes@.len() == old(self).scopes@.len(),
            final(self).next_id == old(self).next_id + 1,
            id.0 == old(self).next_id,
    {
        let id = self.next_id;
        self.next_id = id + 1;
        let mut scope = self.scopes.pop().unwrap();
        scope.push((name.clone(), id));
        self.scopes.push(scope);
        proof {
            let t = binding_entries(self.resolution.bindings);
            assert forall|i: int| 0 <= i < t.len() implies t[i].0 != id by {}
        }
        bindings_insert(
            &mut self.resolution.bindings,
            id,
            BindingDecl { name, kind, decl_span, name_span },
        );
        proof {
            let sv = scopes_v(old(self).scopes@);
            assert(scopes_v(self.scopes@) =~= sv.update(
                sv.len() - 1,
                sv.last().push((name@, id)),
            )) by {
                assert(scope_v(self.scopes@.last()@) =~= sv.last().push((name@, id)));
            }
            assert(decls_v(binding_entries(self.resolution.bindings)) =~= decls_v(
                binding_entries(old(self).resolution.bindings),
            ).push((id, DeclV { name: name@, kind, decl_span, name_span })));
        }
        BindingId(id)
    }

    /// The binding `name` refers to in the open scopes.
    fn lookup(&self, name: &str) -> (r: Option<u32>)
        requires
            self.inv(),
        ensures
            r == lookup(self.view().scopes, name@),
            r matches Some(id) ==> id < self.next_id,
    {
        let ghost sv = self.view().scopes;
        let mut i = self.scopes.len();
        proof {
            assert(sv.take(i as int) =~= sv);
        }
        while i > 0
            invariant
                i <= self.scopes@.len(),
                sv == scopes_v(self.scopes@),
                lookup(sv.take(i as int), name@) == lookup(sv, name@),
                self.inv(),
            decreases i,
        {
            let scope = &self.scopes[i - 1];
            let ghost scv = sv[i - 1];
            let mut j = scope.len();
            proof {
                assert(scv == scope_v(scope@));
                assert(scv.take(j as int) =~= scv);
                assert(sv.take(i as int).last() == scv);
                assert(sv.take(i as int).drop_last() =~= sv.take(i - 1));
            }
            while j > 0
                invariant
                    j <= scope@.len(),
                    scv == scope_v(scope@),
                    lookup_in(scv.take(j as int), name@) == lookup_in(scv, name@),
                    0 < i <= sv.len(),
                    sv == scopes_v(self.scopes@),
                    self.inv(),
                    lookup(sv.take(i as int), name@) == lookup(sv, name@),
                    sv.take(i as int).last() == scv,
                decreases j,
            {
                proof {
                    assert(scv.take(j as int).last() == scv[j - 1]);
                    assert(scv.take(j as int).drop_last() =~= scv.take(j - 1));
                }
                if str_eq(scope[j - 1].0.as_str(), name) {
                    proof {
                        assert(scv[j - 1] == (scope@[j - 1].0@, scope@[j - 1].1));
                        assert(lookup_in(scv, name@) == Some(scope@[j - 1].1));
                    }
                    return Some(scope[j - 1].1);
                }
                j = j - 1;
            }
            proof {
                assert(scv.take(0) =~= Seq::<(Seq<char>, u32)>::empty());
            }
            i = i - 1;
        }
        None
    }

    /// Record that the use site `span` refers to binding `id`.
    fn record_use(&mut self, span: Span, id: u32)
        requires
            old(self).inv(),
            id < old(self).next_id,
        ensures
            final(self).inv(),
            final(self).view() == record_use(old(self).view(), span, id),
            final(self).scopes@ == old(self).scopes@,
            final(self).next_id == old(self).next_id,
    {
        let key = (span.start, span.end, span.file.0);
        let ghost t = use_entries(self.resolution.uses);
        uses_insert(&mut self.resolution.uses, key, BindingId(id));
        proof {
            let t2 = use_entries(self.resolution.uses);
            if exists|i: int| 0 <= i < t.len() && t[i].0 == key {
                let c = choose|i: int| 0 <= i < t.len() && #[trigger] t[i].0 == key && t2 == t.update(
                    i,
                    (key, BindingId(id)),
                );
                assert(t2 =~= put_use(t, key, BindingId(id)));
            } else {
                assert(t2 == t.push((key, BindingId(id))));
            }
            assert(uses_unique(t2));
        }
    }
}

/// How a resolution step that started from `before` and ended in `after`
/// with `r` relates to the specified outcome `s` of that step, which
/// introduces `n` bindings.
pub open spec fn step_is(before: RState, after: RState, r: Result<(), ParseError>, s: RRes, n: nat) -> bool {
    match s {
        Ok(st) => r is Ok && after == st && after.scopes.len() == before.scopes.len()
            && after.next_id == before.next_id + n,
        Err((m, sp)) => r matches Err(e) && e.message@ == m && e.span == sp,
    }
}

impl Resolver {
    /// Whether the innermost scope declares `name`.
    fn innermost_has(&self, name: &str) -> (b: bool)
        requires
            self.scopes@.len() >= 1,
        ensures
            b == lookup_in(self.view().scopes.last(), name@) is Some,
    {
        let scope = &self.scopes[self.scopes.len() - 1];
        let ghost scv = scope_v(scope@);
        let mut j = scope.len();
        proof {
            assert(scv.take(j as int) =~= scv);
            assert(self.view().scopes.last() == scv);
        }
        while j > 0
            invariant
                j <= scope@.len(),
                scv == scope_v(scope@),
                lookup_in(scv.take(j as int), name@) == lookup_in(scv, name@),
                self.view().scopes.last() == scv,
            decreases j,
        {
            proof {
                assert(scv.take(j as int).last() == scv[j - 1]);
                assert(scv.take(j as int).drop_last() =~= scv.take(j - 1));
            }
            if str_eq(scope[j - 1].0.as_str(), name) {
                proof {
                    assert(scv[j - 1] == (scope@[j - 1].0@, scope@[j - 1].1));
                    assert(lookup_in(scv, name@) == Some(scope@[j - 1].1));
                }
                return true;
            }
            j = j - 1;
        }
        proof {
            assert(scv.take(0) =~= Seq::<(Seq<char>, u32)>::empty());
        }
        false
    }

    fn resolve_expr(&mut self, expr: &Expr) -> (r: Result<(), ParseError>)
        requires
            old(self).inv(),
            old(self).scopes@.len() >= 1,
            old(self).next_id + n_expr(expr_v(*expr)) <= u32::MAX,
        ensures
            final(self).inv(),
            step_is(
                old(self).view(),
                final(self).view(),
                r,
                r_expr(old(self).view(), expr_v(*expr)),
                n_expr(expr_v(*expr)),
            ),
        decreases expr,
    {
        match expr {
            Expr::Ident(name, span) => match self.lookup(name.as_str()) {
                Some(id) => {
                    self.record_use(*span, id);
                    Ok(())
                },
                None => Err(
                    ParseError {
                        message: concat_str(
                            concat_str(String::from_str("use of undeclared variable `"), name.as_str()),
                            "`",
                        ),
                        span: *span,
                    },
                ),
            },
            Expr::Unary { expr: inner, .. } => self.resolve_expr(inner),
            Expr::Borrow { inner, .. } => self.resolve_expr(inner),
            Expr::Deref { inner, .. } => self.resolve_expr(inner),
            Expr::Paren { inner, .. } => self.resolve_expr(inner),
            Expr::FieldAccess { receiver, .. } => self.resolve_expr(receiver),
            Expr::MethodCall { receiver, args, .. } => {
                match self.resolve_expr(receiver) {
                    Ok(()) => {},
                    Err(e) => return Err(e),
                }
                self.resolve_exprs(args)
            },
            Expr::Call { callee, args, .. } => {
                match self.resolve_expr(callee) {
                    Ok(()) => {},
                    Err(e) => return Err(e),
                }
                self.resolve_exprs(args)
            },
            Expr::Index { receiver, index, .. } => {
                match self.resolve_expr(receiver) {
                    Ok(()) => {},
                    Err(e) => return Err(e),
                }
                self.resolve_expr(index)
            },
            Expr::Binary { lhs, rhs, .. } => {
                match self.resolve_expr(lhs) {
                    Ok(()) => {},
                    Err(e) => return Err(e),
                }
                self.resolve_expr(rhs)
            },
            Expr::Range { start, end, .. } => {
                if let Some(s) = start {
                    match self.resolve_expr(s) {
                        Ok(()) => {},
                        Err(e) => return Err(e),
                    }
                }
                if let Some(e) = end {
                    match self.resolve_expr(e) {
                        Ok(()) => {},
                        Err(err) => return Err(err),
                    }
                }
                Ok(())
            },
            Expr::ArrayLit { elements, .. } => self.resolve_exprs(elements),
            Expr::StructLit { fields, .. } => self.resolve_fields(fields),
            Expr::Block(block) => self.resolve_block(block),
            Expr::If { cond, then_block, else_block, .. } => {
                match self.resolve_expr(cond) {
                    Ok(()) => {},
                    Err(e) => return Err(e),
                }
                match self.resolve_block(then_block) {
                    Ok(()) => {},
                    Err(e) => return Err(e),
                }
                if let Some(b) = else_block {
                    match self.resolve_block(b) {
                        Ok(()) => {},
                        Err(e) => return Err(e),
                    }
                }
                Ok(())
            },
            _ => Ok(()),
        }
    }

    fn resolve_exprs(&mut self, es: &Vec<Expr>) -> (r: Result<(), ParseError>)
        requires
            old(self).inv(),
            old(self).scopes@.len() >= 1,
            old(self).next_id + n_exprs(exprs_v(es@, es@.len()), 0) <= u32::MAX,
        ensures
            final(self).inv(),
            step_is(
                old(self).view(),
                final(self).view(),
                r,
                r_exprs(old(self).view(), exprs_v(es@, es@.len()), 0),
                n_exprs(exprs_v(es@, es@.len()), 0),
            ),
        decreases es,
    {
        let ghost ev = exprs_v(es@, es@.len());
        let ghost st0 = self.view();
        proof {
            lemma_exprs_v_index(es@, es@.len());
        }
        let mut i: usize = 0;
        while i < es.len()
            invariant
                self.inv(),
                self.scopes@.len() == st0.scopes.len(),
                st0.scopes.len() >= 1,
                i <= es@.len(),
                ev == exprs_v(es@, es@.len()),
                ev.len() == es@.len(),
                forall|k: int| 0 <= k < es@.len() ==> #[trigger] ev[k] == expr_v(es@[k]),
                r_exprs(self.view(), ev, i as int) == r_exprs(st0, ev, 0),
                st0 == old(self).view(),
                self.next_id + n_exprs(ev, i as int) == st0.next_id + n_exprs(ev, 0),
                st0.next_id + n_exprs(ev, 0) <= u32::MAX,
            decreases es@.len() - i,
        {
            match self.resolve_expr(&es[i]) {
                Ok(()) => {},
                Err(e) => return Err(e),
            }
            i = i + 1;
        }
        Ok(())
    }

    fn resolve_fields(&mut self, fs: &Vec<StructLitField>) -> (r: Result<(), ParseError>)
        requires
            old(self).inv(),
            old(self).scopes@.len() >= 1,
            old(self).next_id + n_fields(lit_fields_v(fs@, fs@.len()), 0) <= u32::MAX,
        ensures
            final(self).inv(),
            step_is(
                old(self).view(),
                final(self).view(),
                r,
                r_fields(old(self).view(), lit_fields_v(fs@, fs@.len()), 0),
                n_fields(lit_fields_v(fs@, fs@.len()), 0),
            ),
        decreases fs,
    {
        let ghost fv = lit_fields_v(fs@, fs@.len());
        let ghost st0 = self.view();
        proof {
            lemma_lit_fields_v_index(fs@, fs@.len());
        }
        let mut i: usize = 0;
        while i < fs.len()
            invariant
                self.inv(),
                self.scopes@.len() == st0.scopes.len(),
                st0.scopes.len() >= 1,
                i <= fs@.len(),
                fv == lit_fields_v(fs@, fs@.len()),
                fv.len() == fs@.len(),
                forall|k: int| 0 <= k < fs@.len() ==> #[trigger] fv[k] == lit_field_v(fs@[k]),
                r_fields(self.view(), fv, i as int) == r_fields(st0, fv, 0),
                st0 == old(self).view(),
                self.next_id + n_fields(fv, i as int) == st0.next_id + n_fields(fv, 0),
                st0.next_id + n_fields(fv, 0) <= u32::MAX,
            decreases fs@.len() - i,
        {
            let field = &fs[i];
            proof {
                assert(fv[i as int] == lit_field_v(fs@[i as int]));
            }
            match &field.value {
                Some(v) => match self.resolve_expr(v) {
                    Ok(()) => {},
                    Err(e) => return Err(e),
                },
                None => match self.lookup(field.name.as_str()) {
                    Some(id) => {
                        self.record_use(field.span, id);
                    },
                    None => {
                        return Err(
                            ParseError {
                                message: concat_str(
                                    concat_str(String::from_str("no local named `"), field.name.as_str()),
                                    "` in scope for field-shorthand",
                                ),
                                span: field.span,
                            },
                        );
                    },
                },
            }
            i = i + 1;
        }
        Ok(())
    }

    fn resolve_block(&mut self, block: &Block) -> (r: Result<(), ParseError>)
        requires
            old(self).inv(),
            old(self).scopes@.len() >= 1,
            old(self).next_id + n_block(block_v(*block)) <= u32::MAX,
        ensures
            final(self).inv(),
            step_is(
                old(self).view(),
                final(self).view(),
                r,
                r_block(old(self).view(), block_v(*block)),
                n_block(block_v(*block)),
            ),
        decreases block,
    {
        self.push_scope();
        match self.resolve_stmts(&block.stmts) {
            Ok(()) => {},
            Err(e) => return Err(e),
        }
        if let Some(tail) = &block.tail {
            match self.resolve_expr(tail) {
                Ok(()) => {},
                Err(e) => return Err(e),
            }
        }
        self.pop_scope();
        Ok(())
    }

    fn resolve_stmts(&mut self, ss: &Vec<Stmt>) -> (r: Result<(), ParseError>)
        requires
            old(self).inv(),
            old(self).scopes@.len() >= 1,
            old(self).next_id + n_stmts(stmts_v(ss@, ss@.len()), 0) <= u32::MAX,
        ensures
            final(self).inv(),
            step_is(
                old(self).view(),
                final(self).view(),
                r,
                r_stmts(old(self).view(), stmts_v(ss@, ss@.len()), 0),
                n_stmts(stmts_v(ss@, ss@.len()), 0),
            ),
        decreases ss,
    {
        let ghost sv = stmts_v(ss@, ss@.len());
        let ghost st0 = self.view();
        proof {
            lemma_stmts_v_index(ss@, ss@.len());
        }
        let mut i: usize = 0;
        while i < ss.len()
            invariant
                self.inv(),
                self.scopes@.len() == st0.scopes.len(),
                st0.scopes.len() >= 1,
                i <= ss@.len(),
                sv == stmts_v(ss@, ss@.len()),
                sv.len() == ss@.len(),
                forall|k: int| 0 <= k < ss@.len() ==> #[trigger] sv[k] == stmt_v(ss@[k]),
                r_stmts(self.view(), sv, i as int) == r_stmts(st0, sv, 0),
                st0 == old(self).view(),
                self.next_id + n_stmts(sv, i as int) == st0.next_id + n_stmts(sv, 0),
                st0.next_id + n_stmts(sv, 0) <= u32::MAX,
            decreases ss@.len() - i,
        {
            match self.resolve_stmt(&ss[i]) {
                Ok(()) => {},
                Err(e) => return Err(e),
            }
            i = i + 1;
        }
        Ok(())
    }

    fn resolve_stmt(&mut self, stmt: &Stmt) -> (r: Result<(), ParseError>)
        requires
            old(self).inv(),
            old(self).scopes@.len() >= 1,
            old(self).next_id + n_stmt(stmt_v(*stmt)) <= u32::MAX,
        ensures
            final(self).inv(),
            step_is(
                old(self).view(),
                final(self).view(),
                r,
                r_stmt(old(self).view(), stmt_v(*stmt)),
                n_stmt(stmt_v(*stmt)),
            ),
        decreases stmt,
    {
        match stmt {
            Stmt::Let(l) => {
                match self.resolve_expr(&l.init) {
                    Ok(()) => {},
                    Err(e) => return Err(e),
                }
                self.declare(l.name.clone(), BindingKind::Let { mutable: l.mutable }, l.span, l.span);
                Ok(())
            },
            Stmt::Expr(e) => self.resolve_expr(e),
            Stmt::Assign { lhs, rhs, .. } => {
                match self.resolve_expr(lhs) {
                    Ok(()) => {},
                    Err(e) => return Err(e),
                }
                self.resolve_expr(rhs)
            },
        }
    }

    fn resolve_fn(&mut self, decl: &FnDecl) -> (r: Result<(), ParseError>)
        requires
            old(self).inv(),
            old(self).scopes@.len() >= 1,
            old(self).next_id + n_fn(fn_decl_v(*decl)) <= u32::MAX,
        ensures
            final(self).inv(),
            step_is(
                old(self).view(),
                final(self).view(),
                r,
                r_fn(old(self).view(), fn_decl_v(*decl)),
                n_fn(fn_decl_v(*decl)),
            ),
    {
        let ghost pv = fn_decl_v(*decl).params;
        let ghost st0 = self.view();
        self.push_scope();
        let ghost st1 = self.view();
        let mut i: usize = 0;
        while i < decl.params.len()
            invariant
                self.inv(),
                self.scopes@.len() == st0.scopes.len() + 1,
                st0.scopes.len() >= 1,
                st0 == old(self).view(),
                st1 == push_scope(st0),
                i <= decl.params@.len(),
                pv == fn_decl_v(*decl).params,
                r_params(self.view(), pv, i as int) == r_params(st1, pv, 0),
                self.next_id == st0.next_id + i,
                st0.next_id + n_fn(fn_decl_v(*decl)) <= u32::MAX,
            decreases decl.params@.len() - i,
        {
            let param = &decl.params[i];
            if self.innermost_has(param.name.as_str()) {
                return Err(
                    ParseError {
                        message: concat_str(
                            concat_str(String::from_str("duplicate parameter `"), param.name.as_str()),
                            "`",
                        ),
                        span: param.span,
                    },
                );
            }
            self.declare(param.name.clone(), BindingKind::Param, param.span, param.span);
            i = i + 1;
        }
        match self.resolve_block(&decl.body) {
            Ok(()) => {},
            Err(e) => return Err(e),
        }
        self.pop_scope();
        Ok(())
    }

    fn resolve_fns(&mut self, fs: &Vec<FnDecl>) -> (r: Result<(), ParseError>)
        requires
            old(self).inv(),
            old(self).scopes@.len() >= 1,
            old(self).next_id + n_fns(fs@.map_values(|f: FnDecl| fn_decl_v(f)), 0) <= u32::MAX,
        ensures
            final(self).inv(),
            step_is(
                old(self).view(),
                final(self).view(),
                r,
                r_fns(old(self).view(), fs@.map_values(|f: FnDecl| fn_decl_v(f)), 0),
                n_fns(fs@.map_values(|f: FnDecl| fn_decl_v(f)), 0),
            ),
    {
        let ghost fv = fs@.map_values(|f: FnDecl| fn_decl_v(f));
        let ghost st0 = self.view();
        let mut i: usize = 0;
        while i < fs.len()
            invariant
                self.inv(),
                self.scopes@.len() == st0.scopes.len(),
                st0.scopes.len() >= 1,
                st0 == old(self).view(),
                i <= fs@.len(),
                fv == fs@.map_values(|f: FnDecl| fn_decl_v(f)),
                r_fns(self.view(), fv, i as int) == r_fns(st0, fv, 0),
                self.next_id + n_fns(fv, i as int) == st0.next_id + n_fns(fv, 0),
                st0.next_id + n_fns(fv, 0) <= u32::MAX,
            decreases fs@.len() - i,
        {
            match self.resolve_fn(&fs[i]) {
                Ok(()) => {},
                Err(e) => return Err(e),
            }
            i = i + 1;
        }
        Ok(())
    }
}

/// Resolve every identifier use of `program` to the binding it refers to.
///
/// On success every identifier and field shorthand of every function body
/// is recorded, every binding the program introduces is catalogued under
/// the numbers `0, 1, ..` in declaration order, and every recorded use
/// refers to one of them. Top-level functions are declared first, in an outermost scope, so every
/// body sees all of them; then every function body (and every function of
/// every impl block) is resolved. On success the result records each use
/// site and each declaration; otherwise it is the first error met: a use of
/// a name no open scope declares, a field shorthand naming no local, or a
/// parameter name given twice. The program must introduce at most
/// `u32::MAX` bindings (each gets its own 32-bit number).
pub fn resolve(program: &Program) -> (r: Result<Resolution, ParseError>)
    requires
        n_program(program_v(*program)) <= u32::MAX,
    ensures
        match r_program(program_v(*program)) {
            Ok(st) => r matches Ok(res) && resolution_is(res, st),
            Err((m, sp)) => r matches Err(e) && e.message@ == m && e.span == sp,
        },
        r matches Ok(res) ==> fns_bound(program.items@, binding_entries(res.bindings)),
        r matches Ok(res) ==> tables_wf(use_entries(res.uses), binding_entries(res.bindings))
            && binding_entries(res.bindings).len() == n_program(program_v(*program))
            && ukeys_items(program_v(*program).items, 0).subset_of(use_keys(use_entries(res.uses))),
{
    proof {
        law_every_use_recorded(program_v(*program));
    }
    let ghost iv = program_v(*program).items;
    let mut r = Resolver::new();
    r.push_scope();
    let ghost s0 = r.view();
    let mut i: usize = 0;
    while i < program.items.len()
        invariant
            r.inv(),
            r.scopes@.len() == 1,
            i <= program.items@.len(),
            iv == program_v(*program).items,
            iv.len() == program.items@.len(),
            declare_fns(r.view(), iv, i as int) == declare_fns(s0, iv, 0),
            r.next_id + n_fnames(iv, i as int) == n_fnames(iv, 0),
            n_fnames(iv, 0) + n_bodies(iv, 0) <= u32::MAX,
        decreases program.items@.len() - i,
    {
        match &program.items[i] {
            Item::Fn(decl) => {
                r.declare(decl.name.clone(), BindingKind::Fn, decl.span, decl.span);
            },
            _ => {},
        }
        i = i + 1;
    }
    let ghost s1 = r.view();
    let mut i: usize = 0;
    while i < program.items.len()
        invariant
            r.inv(),
            r.scopes@.len() == 1,
            i <= program.items@.len(),
            iv == program_v(*program).items,
            iv.len() == program.items@.len(),
            s1 == declare_fns(push_scope(initial()), iv, 0),
            r_items(r.view(), iv, i as int) == r_items(s1, iv, 0),
            r.next_id + n_bodies(iv, i as int) == n_fnames(iv, 0) + n_bodies(iv, 0),
            n_fnames(iv, 0) + n_bodies(iv, 0) <= u32::MAX,
        decreases program.items@.len() - i,
    {
        match &program.items[i] {
            Item::Fn(decl) => match r.resolve_fn(decl) {
                Ok(()) => {},
                Err(e) => return Err(e),
            },
            Item::Struct(_) => {},
            Item::Impl(block) => match r.resolve_fns(&block.items) {
                Ok(()) => {},
                Err(e) => return Err(e),
            },
        }
        i = i + 1;
    }
    r.pop_scope();
    proof {
        law_fns_bound(*program, r.resolution);
    }
    Ok(r.resolution)
}

// ─── Every use is resolved ─────────────────────────────────────────────────

/// The keys recorded in a use table.
pub open spec fn use_keys(u: Seq<((u32, u32, u32), BindingId)>) -> Set<(u32, u32, u32)> {
    Set::new(|k: (u32, u32, u32)| exists|i: int| 0 <= i < u.len() && u[i].0 == k)
}

/// The keys of the use sites in an expression: its identifiers and its
/// struct-literal field shorthands.
pub open spec fn ukeys_expr(e: ExprV) -> Set<(u32, u32, u32)>
    decreases e, 0int,
{
    match e {
        ExprV::Ident(_, span) => set![span_key(span)],
        ExprV::Unary { expr, .. } => ukeys_expr(*expr),
        ExprV::Borrow { inner, .. } => ukeys_expr(*inner),
        ExprV::Deref { inner, .. } => ukeys_expr(*inner),
        ExprV::Paren { inner, .. } => ukeys_expr(*inner),
        ExprV::FieldAccess { receiver, .. } => ukeys_expr(*receiver),
        ExprV::MethodCall { receiver, args, .. } => ukeys_expr(*receiver) + ukeys_exprs(args, 0),
        ExprV::Call { callee, args, .. } => ukeys_expr(*callee) + ukeys_exprs(args, 0),
        ExprV::Index { receiver, index, .. } => ukeys_expr(*receiver) + ukeys_expr(*index),
        ExprV::Binary { lhs, rhs, .. } => ukeys_expr(*lhs) + ukeys_expr(*rhs),
        ExprV::Range { start, end, .. } => (match start {
            Some(x) => ukeys_expr(*x),
            None => Set::empty(),
        }) + (match end {
            Some(x) => ukeys_expr(*x),
            None => Set::empty(),
        }),
        ExprV::ArrayLit { elements, .. } => ukeys_exprs(elements, 0),
        ExprV::StructLit { fields, .. } => ukeys_fields(fields, 0),
        ExprV::Block(b) => ukeys_block(*b),
        ExprV::If { cond, then_block, else_block, .. } => ukeys_expr(*cond) + ukeys_block(
            *then_block,
        ) + (match else_block {
            Some(b) => ukeys_block(*b),
            None => Set::empty(),
        }),
        _ => Set::empty(),
    }
}

/// The use-site keys of the expressions from index `i` on.
pub open spec fn ukeys_exprs(es: Seq<ExprV>, i: int) -> Set<(u32, u32, u32)>
    decreases es, es.len() - i,
{
    if i < 0 || i >= es.len() {
        Set::empty()
    } else {
        ukeys_expr(es[i]) + ukeys_exprs(es, i + 1)
    }
}

/// The use-site keys of the struct-literal fields from index `i` on.
pub open spec fn ukeys_fields(fs: Seq<LitFieldV>, i: int) -> Set<(u32, u32, u32)>
    decreases fs, fs.len() - i,
{
    if i < 0 || i >= fs.len() {
        Set::empty()
    } else {
        (match fs[i].value {
            Some(v) => ukeys_expr(v),
            None => set![span_key(fs[i].span)],
        }) + ukeys_fields(fs, i + 1)
    }
}

/// The use-site keys of a block.
pub open spec fn ukeys_block(b: BlockV) -> Set<(u32, u32, u32)>
    decreases b, 0int,
{
    ukeys_stmts(b.stmts, 0) + match b.tail {
        Some(t) => ukeys_expr(*t),
        None => Set::empty(),
    }
}

/// The use-site keys of the statements from index `i` on.
pub open spec fn ukeys_stmts(ss: Seq<StmtV>, i: int) -> Set<(u32, u32, u32)>
    decreases ss, ss.len() - i,
{
    if i < 0 || i >= ss.len() {
        Set::empty()
    } else {
        ukeys_stmt(ss[i]) + ukeys_stmts(ss, i + 1)
    }
}

/// The use-site keys of a statement.
pub open spec fn ukeys_stmt(s: StmtV) -> Set<(u32, u32, u32)>
    decreases s, 0int,
{
    match s {
        StmtV::Let(l) => ukeys_expr(l.init),
        StmtV::Expr(e) => ukeys_expr(e),
        StmtV::Assign { lhs, rhs, .. } => ukeys_expr(lhs) + ukeys_expr(rhs),
    }
}

/// The use-site keys of the functions from index `i` on.
pub open spec fn ukeys_fns(fs: Seq<FnDeclV>, i: int) -> Set<(u32, u32, u32)>
    decreases fs.len() - i,
{
    if i < 0 || i >= fs.len() {
        Set::empty()
    } else {
        ukeys_block(fs[i].body) + ukeys_fns(fs, i + 1)
    }
}

/// The use-site keys of the items from index `i` on.
pub open spec fn ukeys_items(items: Seq<ItemV>, i: int) -> Set<(u32, u32, u32)>
    decreases items.len() - i,
{
    if i < 0 || i >= items.len() {
        Set::empty()
    } else {
        (match items[i] {
            ItemV::Fn(f) => ukeys_block(f.body),
            ItemV::Impl(b) => ukeys_fns(b.items, 0),
            ItemV::Struct(_) => Set::empty(),
        }) + ukeys_items(items, i + 1)
    }
}

/// Resolution steps keep the recorded uses and record the step's own.
pub open spec fn records(st: RState, r: RRes, keys: Set<(u32, u32, u32)>) -> bool {
    r matches Ok(st2) ==> use_keys(st.uses).subset_of(use_keys(st2.uses)) && keys.subset_of(
        use_keys(st2.uses),
    ) && keeps_bindings(st.bindings, st2.bindings)
}

/// `b2` extends `b1`: every earlier declaration stays where it was.
pub open spec fn keeps_bindings(b1: Seq<(u32, DeclV)>, b2: Seq<(u32, DeclV)>) -> bool {
    b1.len() <= b2.len() && forall|i: int| 0 <= i < b1.len() ==> #[trigger] b2[i] == b1[i]
}

proof fn lemma_record_use(st: RState, span: Span, id: u32)
    ensures
        use_keys(st.uses).subset_of(use_keys(record_use(st, span, id).uses)),
        use_keys(record_use(st, span, id).uses).contains(span_key(span)),
{
    let t = st.uses;
    let k = span_key(span);
    let t2 = record_use(st, span, id).uses;
    assert(t2 == put_use(t, k, BindingId(id)));
    assert forall|x: (u32, u32, u32)| use_keys(t).contains(x) implies use_keys(t2).contains(x) by {
        let i = choose|i: int| 0 <= i < t.len() && t[i].0 == x;
        assert(t2[i].0 == x);
    }
    if exists|i: int| 0 <= i < t.len() && t[i].0 == k {
        let c = choose|i: int| 0 <= i < t.len() && t[i].0 == k;
        assert(t2[c].0 == k);
    } else {
        assert(t2[t.len() as int].0 == k);
    }
}

proof fn lemma_r_expr(st: RState, e: ExprV)
    ensures
        records(st, r_expr(st, e), ukeys_expr(e)),
    decreases e, 0int,
{
    match e {
        ExprV::Ident(name, span) => {
            if let Some(id) = lookup(st.scopes, name) {
                lemma_record_use(st, span, id);
            }
        },
        ExprV::Unary { expr, .. } => lemma_r_expr(st, *expr),
        ExprV::Borrow { inner, .. } => lemma_r_expr(st, *inner),
        ExprV::Deref { inner, .. } => lemma_r_expr(st, *inner),
        ExprV::Paren { inner, .. } => lemma_r_expr(st, *inner),
        ExprV::FieldAccess { receiver, .. } => lemma_r_expr(st, *receiver),
        ExprV::MethodCall { receiver, args, .. } => {
            lemma_r_expr(st, *receiver);
            if let Ok(s1) = r_expr(st, *receiver) {
                lemma_r_exprs(s1, args, 0);
            }
        },
        ExprV::Call { callee, args, .. } => {
            lemma_r_expr(st, *callee);
            if let Ok(s1) = r_expr(st, *callee) {
                lemma_r_exprs(s1, args, 0);
            }
        },
        ExprV::Index { receiver, index, .. } => {
            lemma_r_expr(st, *receiver);
            if let Ok(s1) = r_expr(st, *receiver) {
                lemma_r_expr(s1, *index);
            }
        },
        ExprV::Binary { lhs, rhs, .. } => {
            lemma_r_expr(st, *lhs);
            if let Ok(s1) = r_expr(st, *lhs) {
                lemma_r_expr(s1, *rhs);
            }
        },
        ExprV::Range { start, end, .. } => {
            let r1 = match start {
                Some(x) => r_expr(st, *x),
                None => Ok(st),
            };
            if let Some(x) = start {
                lemma_r_expr(st, *x);
            }
            if let Ok(s1) = r1 {
                if let Some(x) = end {
                    lemma_r_expr(s1, *x);
                }
            }
        },
        ExprV::ArrayLit { elements, .. } => lemma_r_exprs(st, elements, 0),
        ExprV::StructLit { fields, .. } => lemma_r_fields(st, fields, 0),
        ExprV::Block(b) => lemma_r_block(st, *b),
        ExprV::If { cond, then_block, else_block, .. } => {
            lemma_r_expr(st, *cond);
            if let Ok(s1) = r_expr(st, *cond) {
                lemma_r_block(s1, *then_block);
                if let Ok(s2) = r_block(s1, *then_block) {
                    if let Some(b) = else_block {
                        lemma_r_block(s2, *b);
                    }
                }
            }
        },
        _ => {},
    }
}

proof fn lemma_r_exprs(st: RState, es: Seq<ExprV>, i: int)
    ensures
        records(st, r_exprs(st, es, i), ukeys_exprs(es, i)),
    decreases es, es.len() - i,
{
    if 0 <= i < es.len() {
        lemma_r_expr(st, es[i]);
        if let Ok(s1) = r_expr(st, es[i]) {
            lemma_r_exprs(s1, es, i + 1);
        }
    }
}

proof fn lemma_r_fields(st: RState, fs: Seq<LitFieldV>, i: int)
    ensures
        records(st, r_fields(st, fs, i), ukeys_fields(fs, i)),
    decreases fs, fs.len() - i,
{
    if 0 <= i < fs.len() {
        let r1 = match fs[i].value {
            Some(v) => r_expr(st, v),
            None => match lookup(st.scopes, fs[i].name) {
                Some(id) => Ok(record_use(st, fs[i].span, id)),
                None => Err(
                    (
                        "no local named `"@ + fs[i].name + "` in scope for field-shorthand"@,
                        fs[i].span,
                    ),
                ),
            },
        };
        match fs[i].value {
            Some(v) => lemma_r_expr(st, v),
            None => if let Some(id) = lookup(st.scopes, fs[i].name) {
                lemma_record_use(st, fs[i].span, id);
            },
        }
        if let Ok(s1) = r1 {
            lemma_r_fields(s1, fs, i + 1);
        }
    }
}

proof fn lemma_r_block(st: RState, b: BlockV)
    ensures
        records(st, r_block(st, b), ukeys_block(b)),
    decreases b, 0int,
{
    lemma_r_stmts(push_scope(st), b.stmts, 0);
    if let Ok(s1) = r_stmts(push_scope(st), b.stmts, 0) {
        if let Some(t) = b.tail {
            lemma_r_expr(s1, *t);
        }
    }
}

proof fn lemma_r_stmts(st: RState, ss: Seq<StmtV>, i: int)
    ensures
        records(st, r_stmts(st, ss, i), ukeys_stmts(ss, i)),
    decreases ss, ss.len() - i,
{
    if 0 <= i < ss.len() {
        lemma_r_stmt(st, ss[i]);
        if let Ok(s1) = r_stmt(st, ss[i]) {
            lemma_r_stmts(s1, ss, i + 1);
        }
    }
}

proof fn lemma_r_stmt(st: RState, s: StmtV)
    ensures
        records(st, r_stmt(st, s), ukeys_stmt(s)),
    decreases s, 0int,
{
    match s {
        StmtV::Let(l) => lemma_r_expr(st, l.init),
        StmtV::Expr(e) => lemma_r_expr(st, e),
        StmtV::Assign { lhs, rhs, .. } => {
            lemma_r_expr(st, lhs);
            if let Ok(s1) = r_expr(st, lhs) {
                lemma_r_expr(s1, rhs);
            }
        },
    }
}

proof fn lemma_r_params(st: RState, ps: Seq<ParamV>, i: int)
    ensures
        r_params(st, ps, i) matches Ok(st2) ==> st2.uses == st.uses && keeps_bindings(
            st.bindings,
            st2.bindings,
        ),
    decreases ps.len() - i,
{
    if 0 <= i < ps.len() && !(lookup_in(st.scopes.last(), ps[i].name) is Some) {
        lemma_r_params(
            declare(st, ps[i].name, BindingKind::Param, ps[i].span, ps[i].span),
            ps,
            i + 1,
        );
    }
}

proof fn lemma_r_fn(st: RState, f: FnDeclV)
    ensures
        records(st, r_fn(st, f), ukeys_block(f.body)),
{
    lemma_r_params(push_scope(st), f.params, 0);
    if let Ok(s1) = r_params(push_scope(st), f.params, 0) {
        lemma_r_block(s1, f.body);
    }
}

proof fn lemma_r_fns(st: RState, fs: Seq<FnDeclV>, i: int)
    ensures
        records(st, r_fns(st, fs, i), ukeys_fns(fs, i)),
    decreases fs.len() - i,
{
    if 0 <= i < fs.len() {
        lemma_r_fn(st, fs[i]);
        if let Ok(s1) = r_fn(st, fs[i]) {
            lemma_r_fns(s1, fs, i + 1);
        }
    }
}

proof fn lemma_r_items(st: RState, items: Seq<ItemV>, i: int)
    ensures
        records(st, r_items(st, items, i), ukeys_items(items, i)),
    decreases items.len() - i,
{
    if 0 <= i < items.len() {
        let r1 = match items[i] {
            ItemV::Fn(f) => r_fn(st, f),
            ItemV::Impl(b) => r_fns(st, b.items, 0),
            ItemV::Struct(_) => Ok(st),
        };
        match items[i] {
            ItemV::Fn(f) => lemma_r_fn(st, f),
            ItemV::Impl(b) => lemma_r_fns(st, b.items, 0),
            ItemV::Struct(_) => {},
        }
        if let Ok(s1) = r1 {
            lemma_r_items(s1, items, i + 1);
        }
    }
}

/// Name resolution records every use site of the program: each identifier
/// and each struct-literal field shorthand of every function body has an
/// entry in the resolved uses.
pub proof fn law_every_use_recorded(p: ProgramV)
    ensures
        r_program(p) matches Ok(st) ==> ukeys_items(p.items, 0).subset_of(use_keys(st.uses)),
{
    let s0 = declare_fns(push_scope(initial()), p.items, 0);
    lemma_r_items(s0, p.items, 0);
}

/// Whether some function binding of a declaration table is named `name`.
pub open spec fn has_fn_binding(t: Seq<(u32, BindingDecl)>, name: Seq<char>) -> bool {
    exists|i: int| 0 <= i < t.len() && #[trigger] t[i].1.kind == BindingKind::Fn && t[i].1.name@ == name
}

/// Every function item has a function binding of its name.
pub open spec fn fns_bound(items: Seq<Item>, names: Seq<(u32, BindingDecl)>) -> bool {
    forall|i: int| 0 <= i < items.len() ==> (#[trigger] items[i] matches Item::Fn(d) ==> has_fn_binding(names, d.name@))
}

/// Whether some function binding of a viewed table is named `name`.
pub open spec fn has_fn_decl(t: Seq<(u32, DeclV)>, name: Seq<char>) -> bool {
    exists|i: int| 0 <= i < t.len() && #[trigger] t[i].1.kind == BindingKind::Fn && t[i].1.name == name
}

proof fn lemma_declare_fns(st: RState, items: Seq<ItemV>, i: int)
    requires
        0 <= i,
    ensures
        keeps_bindings(st.bindings, declare_fns(st, items, i).bindings),
        forall|j: int| i <= j < items.len() ==> (#[trigger] items[j] matches ItemV::Fn(f) ==> has_fn_decl(
            declare_fns(st, items, i).bindings,
            f.name,
        )),
    decreases items.len() - i,
{
    if i < items.len() {
        let st1 = match items[i] {
            ItemV::Fn(f) => declare(st, f.name, BindingKind::Fn, f.span, f.span),
            _ => st,
        };
        lemma_declare_fns(st1, items, i + 1);
        let fin = declare_fns(st, items, i);
        assert(fin == declare_fns(st1, items, i + 1));
        if let ItemV::Fn(f) = items[i] {
            let k = st.bindings.len() as int;
            assert(st1.bindings[k].1.kind == BindingKind::Fn && st1.bindings[k].1.name == f.name);
            assert(fin.bindings[k] == st1.bindings[k]);
        }
    }
}

/// Law: after a successful resolution every function item of the program
/// has a function binding of its name.
pub proof fn law_fns_bound(p: Program, res: Resolution)
    requires
        r_program(program_v(p)) matches Ok(st) && resolution_is(res, st),
    ensures
        fns_bound(p.items@, binding_entries(res.bindings)),
{
    let iv = program_v(p).items;
    let s0 = declare_fns(push_scope(initial()), iv, 0);
    lemma_declare_fns(push_scope(initial()), iv, 0);
    lemma_r_items(s0, iv, 0);
    let st = r_program(program_v(p))->Ok_0;
    let t = binding_entries(res.bindings);
    assert(decls_v(t) == st.bindings);
    assert forall|i: int| 0 <= i < p.items@.len() implies (#[trigger] p.items@[i] matches Item::Fn(d) ==> has_fn_binding(t, d.name@)) by {
        if let Item::Fn(d) = p.items@[i] {
            assert(iv[i] == item_v(p.items@[i]));
            assert(has_fn_decl(s0.bindings, d.name@));
            let k = choose|k: int| 0 <= k < s0.bindings.len() && #[trigger] s0.bindings[k].1.kind == BindingKind::Fn && s0.bindings[k].1.name == d.name@;
            assert(st.bindings[k] == s0.bindings[k]);
            assert(decls_v(t)[k] == (t[k].0, decl_v(t[k].1)));
            assert(t[k].1.kind == BindingKind::Fn && t[k].1.name@ == d.name@);
        }
    }
}

// ─── Counting the bindings of a program ────────────────────────────────────

/// `n`, or `u64::MAX` if it is larger.
pub open spec fn sat(n: nat) -> u64 {
    if n > u64::MAX {
        u64::MAX
    } else {
        n as u64
    }
}

proof fn lemma_sat_add(a: nat, b: nat)
    ensures
        sat(a + b) == sat(a).saturating_add(sat(b)),
{
}

fn count_expr(expr: &Expr) -> (n: u64)
    ensures
        n == sat(n_expr(expr_v(*expr))),
    decreases expr,
{
    match expr {
        Expr::Unary { expr: inner, .. } => count_expr(inner),
        Expr::Borrow { inner, .. } => count_expr(inner),
        Expr::Deref { inner, .. } => count_expr(inner),
        Expr::Paren { inner, .. } => count_expr(inner),
        Expr::FieldAccess { receiver, .. } => count_expr(receiver),
        Expr::MethodCall { receiver, args, .. } => {
            proof {
                lemma_sat_add(n_expr(expr_v(**receiver)), n_exprs(exprs_v(args@, args@.len()), 0));
            }
            count_expr(receiver).saturating_add(count_exprs(args))
        },
        Expr::Call { callee, args, .. } => {
            proof {
                lemma_sat_add(n_expr(expr_v(**callee)), n_exprs(exprs_v(args@, args@.len()), 0));
            }
            count_expr(callee).saturating_add(count_exprs(args))
        },
        Expr::Index { receiver, index, .. } => {
            proof {
                lemma_sat_add(n_expr(expr_v(**receiver)), n_expr(expr_v(**index)));
            }
            count_expr(receiver).saturating_add(count_expr(index))
        },
        Expr::Binary { lhs, rhs, .. } => {
            proof {
                lemma_sat_add(n_expr(expr_v(**lhs)), n_expr(expr_v(**rhs)));
            }
            count_expr(lhs).saturating_add(count_expr(rhs))
        },
        Expr::Range { start, end, .. } => {
            let a = match start {
                Some(x) => count_expr(x),
                None => 0,
            };
            let b = match end {
                Some(x) => count_expr(x),
                None => 0,
            };
            proof {
                let na: nat = match expr_v(*expr) {
                    ExprV::Range { start, .. } => match start {
                        Some(x) => n_expr(*x),
                        None => 0,
                    },
                    _ => 0,
                };
                let nb: nat = match expr_v(*expr) {
                    ExprV::Range { end, .. } => match end {
                        Some(x) => n_expr(*x),
                        None => 0,
                    },
                    _ => 0,
                };
                lemma_sat_add(na, nb);
            }
            a.saturating_add(b)
        },
        Expr::ArrayLit { elements, .. } => count_exprs(elements),
        Expr::StructLit { fields, .. } => count_fields(fields),
        Expr::Block(block) => count_block(block),
        Expr::If { cond, then_block, else_block, .. } => {
            let a = count_expr(cond);
            let b = count_block(then_block);
            let c = match else_block {
                Some(eb) => count_block(eb),
                None => 0,
            };
            proof {
                let nc: nat = match else_block {
                    Some(eb) => n_block(block_v(**eb)),
                    None => 0,
                };
                lemma_sat_add(n_expr(expr_v(**cond)), n_block(block_v(**then_block)));
                lemma_sat_add(n_expr(expr_v(**cond)) + n_block(block_v(**then_block)), nc);
            }
            a.saturating_add(b).saturating_add(c)
        },
        _ => 0,
    }
}

fn count_exprs(es: &Vec<Expr>) -> (n: u64)
    ensures
        n == sat(n_exprs(exprs_v(es@, es@.len()), 0)),
    decreases es,
{
    let ghost ev = exprs_v(es@, es@.len());
    proof {
        lemma_exprs_v_index(es@, es@.len());
    }
    let mut total: u64 = 0;
    let mut i: usize = 0;
    while i < es.len()
        invariant
            i <= es@.len(),
            ev == exprs_v(es@, es@.len()),
            ev.len() == es@.len(),
            forall|k: int| 0 <= k < es@.len() ==> #[trigger] ev[k] == expr_v(es@[k]),
            sat(n_exprs(ev, 0)) == total.saturating_add(sat(n_exprs(ev, i as int))),
        decreases es@.len() - i,
    {
        proof {
            lemma_sat_add(n_expr(ev[i as int]), n_exprs(ev, i + 1));
        }
        let c = count_expr(&es[i]);
        total = total.saturating_add(c);
        i = i + 1;
    }
    total
}

fn count_fields(fs: &Vec<StructLitField>) -> (n: u64)
    ensures
        n == sat(n_fields(lit_fields_v(fs@, fs@.len()), 0)),
    decreases fs,
{
    let ghost fv = lit_fields_v(fs@, fs@.len());
    proof {
        lemma_lit_fields_v_index(fs@, fs@.len());
    }
    let mut total: u64 = 0;
    let mut i: usize = 0;
    while i < fs.len()
        invariant
            i <= fs@.len(),
            fv == lit_fields_v(fs@, fs@.len()),
            fv.len() == fs@.len(),
            forall|k: int| 0 <= k < fs@.len() ==> #[trigger] fv[k] == lit_field_v(fs@[k]),
            sat(n_fields(fv, 0)) == total.saturating_add(sat(n_fields(fv, i as int))),
        decreases fs@.len() - i,
    {
        let c = match &fs[i].value {
            Some(v) => count_expr(v),
            None => 0,
        };
        proof {
            let nv: nat = match fv[i as int].value {
                Some(v) => n_expr(v),
                None => 0,
            };
            lemma_sat_add(nv, n_fields(fv, i + 1));
        }
        total = total.saturating_add(c);
        i = i + 1;
    }
    total
}

fn count_block(block: &Block) -> (n: u64)
    ensures
        n == sat(n_block(block_v(*block))),
    decreases block,
{
    let a = count_stmts(&block.stmts);
    let b = match &block.tail {
        Some(t) => count_expr(t),
        None => 0,
    };
    proof {
        let nt: nat = match block_v(*block).tail {
            Some(t) => n_expr(*t),
            None => 0,
        };
        lemma_sat_add(n_stmts(stmts_v(block.stmts@, block.stmts@.len()), 0), nt);
    }
    a.saturating_add(b)
}

fn count_stmts(ss: &Vec<Stmt>) -> (n: u64)
    ensures
        n == sat(n_stmts(stmts_v(ss@, ss@.len()), 0)),
    decreases ss,
{
    let ghost sv = stmts_v(ss@, ss@.len());
    proof {
        lemma_stmts_v_index(ss@, ss@.len());
    }
    let mut total: u64 = 0;
    let mut i: usize = 0;
    while i < ss.len()
        invariant
            i <= ss@.len(),
            sv == stmts_v(ss@, ss@.len()),
            sv.len() == ss@.len(),
            forall|k: int| 0 <= k < ss@.len() ==> #[trigger] sv[k] == stmt_v(ss@[k]),
            sat(n_stmts(sv, 0)) == total.saturating_add(sat(n_stmts(sv, i as int))),
        decreases ss@.len() - i,
    {
        proof {
            lemma_sat_add(n_stmt(sv[i as int]), n_stmts(sv, i + 1));
        }
        let c = count_stmt(&ss[i]);
        total = total.saturating_add(c);
        i = i + 1;
    }
    total
}

fn count_stmt(stmt: &Stmt) -> (n: u64)
    ensures
        n == sat(n_stmt(stmt_v(*stmt))),
    decreases stmt,
{
    match stmt {
        Stmt::Let(l) => {
            proof {
                lemma_sat_add(n_expr(expr_v(l.init)), 1);
            }
            count_expr(&l.init).saturating_add(1)
        },
        Stmt::Expr(e) => count_expr(e),
        Stmt::Assign { lhs, rhs, .. } => {
            proof {
                lemma_sat_add(n_expr(expr_v(*lhs)), n_expr(expr_v(*rhs)));
            }
            count_expr(lhs).saturating_add(count_expr(rhs))
        },
    }
}

fn count_fn(decl: &FnDecl) -> (n: u64)
    ensures
        n == sat(n_fn(fn_decl_v(*decl))),
{
    proof {
        lemma_sat_add(decl.params@.len(), n_block(block_v(decl.body)));
    }
    (decl.params.len() as u64).saturating_add(count_block(&decl.body))
}

/// How many bindings `program` introduces (what [`resolve`] numbers), or
/// `u64::MAX` if that is more.
pub fn binding_count(program: &Program) -> (n: u64)
    ensures
        n == sat(n_program(program_v(*program))),
{
    let ghost iv = program_v(*program).items;
    let mut names: u64 = 0;
    let mut bodies: u64 = 0;
    let mut i: usize = 0;
    while i < program.items.len()
        invariant
            i <= program.items@.len(),
            iv == program_v(*program).items,
            iv.len() == program.items@.len(),
            sat(n_fnames(iv, 0)) == names.saturating_add(sat(n_fnames(iv, i as int))),
            sat(n_bodies(iv, 0)) == bodies.saturating_add(sat(n_bodies(iv, i as int))),
        decreases program.items@.len() - i,
    {
        match &program.items[i] {
            Item::Fn(decl) => {
                proof {
                    lemma_sat_add(1, n_fnames(iv, i + 1));
                    lemma_sat_add(n_fn(fn_decl_v(*decl)), n_bodies(iv, i + 1));
                }
                names = names.saturating_add(1);
                bodies = bodies.saturating_add(count_fn(decl));
            },
            Item::Struct(_) => {
                proof {
                    lemma_sat_add(0, n_fnames(iv, i + 1));
                    lemma_sat_add(0, n_bodies(iv, i + 1));
                }
            },
            Item::Impl(block) => {
                let ghost fv = block.items@.map_values(|f: FnDecl| fn_decl_v(f));
                let mut sub: u64 = 0;
                let mut j: usize = 0;
                while j < block.items.len()
                    invariant
                        j <= block.items@.len(),
                        fv == block.items@.map_values(|f: FnDecl| fn_decl_v(f)),
                        sat(n_fns(fv, 0)) == sub.saturating_add(sat(n_fns(fv, j as int))),
                    decreases block.items@.len() - j,
                {
                    proof {
                        lemma_sat_add(n_fn(fv[j as int]), n_fns(fv, j + 1));
                    }
                    sub = sub.saturating_add(count_fn(&block.items[j]));
                    j = j + 1;
                }
                proof {
                    lemma_sat_add(0, n_fnames(iv, i + 1));
                    lemma_sat_add(n_fns(fv, 0), n_bodies(iv, i + 1));
                }
                bodies = bodies.saturating_add(sub);
            },
        }
        i = i + 1;
    }
    proof {
        lemma_sat_add(n_fnames(iv, 0), n_bodies(iv, 0));
    }
    names.saturating_add(bodies)
}

} // verus!
