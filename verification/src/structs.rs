//! The declaration phase of type checking: the schemas of the program's
//! struct declarations, the methods and associated functions of its impl
//! blocks, and the signature of every function, recorded in the type map
//! under the function's binding.

use indexmap::IndexMap;
use vstd::prelude::*;

use crate::ast::{FnDecl, ImplBlock, Item, Param, ParamKind, Program, StructDecl, StructField, Type};
use crate::error::ParseError;
use crate::span::Span;
use crate::text::{concat_str, decimal, decimal_string};
use crate::typeck::{spec_ty_from_ast, ty_from_ast, BindingType, FnSig, Ty};
use crate::resolve::{
    binding_entries, bindings_get_index, bindings_len, fns_bound, has_fn_binding, BindingDecl, BindingKind,
    Resolution,
};

verus! {

/// The entries of a struct table, in declaration order: the struct's name,
/// its fields with their types, and the span of its declaration.
pub uninterp spec fn struct_entries(m: IndexMap<String, (Vec<(String, Ty)>, Span)>) -> Seq<
    (String, (Vec<(String, Ty)>, Span)),
>;

/// `IndexMap::new`: an empty struct table.
#[verifier::external_body]
fn structs_new() -> (m: IndexMap<String, (Vec<(String, Ty)>, Span)>)
    ensures
        struct_entries(m) == Seq::<(String, (Vec<(String, Ty)>, Span))>::empty(),
{
    IndexMap::new()
}

/// `IndexMap::get` with a text key: the entry whose key has the same text.
#[verifier::external_body]
fn structs_get<'a>(m: &'a IndexMap<String, (Vec<(String, Ty)>, Span)>, k: &str) -> (r: Option<
    &'a (Vec<(String, Ty)>, Span),
>)
    ensures
        match r {
            Some(v) => exists|i: int|
                0 <= i < struct_entries(*m).len() && #[trigger] struct_entries(*m)[i].0@ == k@
                    && struct_entries(*m)[i].1 == *v,
            None => forall|i: int|
                0 <= i < struct_entries(*m).len() ==> #[trigger] struct_entries(*m)[i].0@ != k@,
        },
{
    m.get(k)
}

/// `IndexMap::insert`: a key with the same text as an existing one keeps
/// that entry's key and place and takes the new value; otherwise the entry
/// is appended.
#[verifier::external_body]
fn structs_insert(
    m: &mut IndexMap<String, (Vec<(String, Ty)>, Span)>,
    k: String,
    v: (Vec<(String, Ty)>, Span),
) -> (r: Option<(Vec<(String, Ty)>, Span)>)
    ensures
        ({
            let t = struct_entries(*old(m));
            let t2 = struct_entries(*final(m));
            ||| exists|i: int|
                0 <= i < t.len() && #[trigger] t[i].0@ == k@ && t2 == t.update(i, (t[i].0, v))
                    && r == Some(t[i].1)
            ||| (forall|i: int| 0 <= i < t.len() ==> #[trigger] t[i].0@ != k@) && t2 == t.push(
                (k, v),
            ) && r is None
        }),
{
    m.insert(k, v)
}

/// A struct's schema: its name, its fields' names and types, and the span
/// of its declaration.
pub struct SchemaV {
    pub name: Seq<char>,
    pub fields: Seq<(Seq<char>, Ty)>,
    pub span: Span,
}

/// The view of a field list.
pub open spec fn fields_v(f: Seq<(String, Ty)>) -> Seq<(Seq<char>, Ty)> {
    f.map_values(|p: (String, Ty)| (p.0@, p.1))
}

/// The view of a struct table's entries.
pub open spec fn schemas_v(t: Seq<(String, (Vec<(String, Ty)>, Span))>) -> Seq<SchemaV> {
    t.map_values(
        |e: (String, (Vec<(String, Ty)>, Span))| SchemaV { name: e.0@, fields: fields_v(e.1.0@), span: e.1.1 },
    )
}

/// Position of the struct named `name`.
pub open spec fn find_schema(r: Seq<SchemaV>, name: Seq<char>) -> Option<int> {
    if exists|i: int| 0 <= i < r.len() && #[trigger] r[i].name == name {
        Some(choose|i: int| 0 <= i < r.len() && #[trigger] r[i].name == name)
    } else {
        None
    }
}

/// Struct fields must have a primitive type.
pub open spec fn is_primitive(t: Ty) -> bool {
    t is Int || t is Float || t is Bool || t is Unit
}

/// The types of the first `n` fields of struct `sname`, or the first
/// error: an annotation that names no type, or a field of a non-primitive
/// type.
pub open spec fn spec_fields(fs: Seq<StructField>, sname: Seq<char>, n: nat) -> Result<
    Seq<(Seq<char>, Ty)>,
    (Seq<char>, Span),
>
    decreases n,
{
    if n == 0 || n > fs.len() {
        Ok(Seq::empty())
    } else {
        match spec_fields(fs, sname, (n - 1) as nat) {
            Err(e) => Err(e),
            Ok(prev) => match spec_ty_from_ast(fs[n - 1].ty) {
                Err(e) => Err(e),
                Ok(t) => if is_primitive(t) {
                    Ok(prev.push((fs[n - 1].name@, t)))
                } else {
                    Err(
                        (
                            "field `"@ + fs[n - 1].name@ + "` of struct `"@ + sname + "` has type `"@
                                + t.spec_name()
                                + "`; M07.4 fields must be primitive types (i32, bool, etc.)"@,
                            fs[n - 1].span,
                        ),
                    )
                },
            },
        }
    }
}

/// Registering one struct declaration: a second declaration of a name is
/// refused, naming where the first starts; otherwise its schema is added.
pub open spec fn spec_register_struct(r: Seq<SchemaV>, d: StructDecl) -> Result<
    Seq<SchemaV>,
    (Seq<char>, Span),
> {
    match find_schema(r, d.name@) {
        Some(i) => Err(
            (
                "struct `"@ + d.name@ + "` already defined (previous definition at byte "@ + decimal(
                    r[i].span.start as nat,
                ) + ")"@,
                d.span,
            ),
        ),
        None => match spec_fields(d.fields@, d.name@, d.fields@.len()) {
            Err(e) => Err(e),
            Ok(fs) => Ok(r.push(SchemaV { name: d.name@, fields: fs, span: d.span })),
        },
    }
}

/// Registering the struct declarations among the first `n` items, in
/// order, stopping at the first error.
pub open spec fn spec_register_structs(items: Seq<Item>, n: nat) -> Result<
    Seq<SchemaV>,
    (Seq<char>, Span),
>
    decreases n,
{
    if n == 0 || n > items.len() {
        Ok(Seq::empty())
    } else {
        match spec_register_structs(items, (n - 1) as nat) {
            Err(e) => Err(e),
            Ok(r) => match items[n - 1] {
                Item::Struct(d) => spec_register_struct(r, d),
                _ => Ok(r),
            },
        }
    }
}

/// The struct schemas of a program, in declaration order.
#[derive(Debug)]
pub struct StructRegistry {
    schemas: IndexMap<String, (Vec<(String, Ty)>, Span)>,
}

impl StructRegistry {
    /// The registered schemas, in declaration order.
    pub closed spec fn view(self) -> Seq<SchemaV> {
        schemas_v(struct_entries(self.schemas))
    }

    /// Whether `name` is a registered struct.
    pub fn contains(&self, name: &str) -> (b: bool)
        ensures
            b == (find_schema(self.view(), name@) is Some),
    {
        let r = structs_get(&self.schemas, name);
        proof {
            let t = struct_entries(self.schemas);
            match r {
                Some(v) => {
                    let i = choose|i: int| 0 <= i < t.len() && #[trigger] t[i].0@ == name@ && t[i].1 == *v;
                    assert(self.view()[i].name == name@);
                },
                None => {
                    assert forall|i: int| 0 <= i < self.view().len() implies #[trigger] self.view()[i].name != name@ by {
                        assert(t[i].0@ != name@);
                    }
                },
            }
        }
        r.is_some()
    }
}

/// The field types of a struct declaration, in order, or the first error.
fn register_fields(d: &StructDecl) -> (r: Result<Vec<(String, Ty)>, ParseError>)
    ensures
        match spec_fields(d.fields@, d.name@, d.fields@.len()) {
            Ok(fs) => r matches Ok(v) && fields_v(v@) == fs,
            Err((m, sp)) => r matches Err(e) && e.message@ == m && e.span == sp,
        },
{
    let mut fields: Vec<(String, Ty)> = Vec::new();
    proof {
        assert(fields_v(fields@) =~= Seq::<(Seq<char>, Ty)>::empty());
    }
    let mut i: usize = 0;
    while i < d.fields.len()
        invariant
            i <= d.fields@.len(),
            spec_fields(d.fields@, d.name@, i as nat) == Ok::<Seq<(Seq<char>, Ty)>, (Seq<char>, Span)>(fields_v(fields@)),
        decreases d.fields@.len() - i,
    {
        let field = &d.fields[i];
        let ty = match ty_from_ast(&field.ty) {
            Ok(t) => t,
            Err(e) => {
                proof {
                    lemma_fields_stop(d.fields@, d.name@, (i + 1) as nat, d.fields@.len());
                }
                return Err(e);
            },
        };
        let primitive = match ty {
            Ty::Int(_) | Ty::Float(_) | Ty::Bool | Ty::Unit => true,
            _ => false,
        };
        if !primitive {
            let s = concat_str(String::from_str("field `"), field.name.as_str());
            let s = concat_str(s, "` of struct `");
            let s = concat_str(s, d.name.as_str());
            let s = concat_str(s, "` has type `");
            let s = concat_str(s, ty.name().as_str());
            let m = concat_str(s, "`; M07.4 fields must be primitive types (i32, bool, etc.)");
            proof {
                lemma_fields_stop(d.fields@, d.name@, (i + 1) as nat, d.fields@.len());
            }
            return Err(ParseError { message: m, span: field.span });
        }
        let ghost before = fields@;
        fields.push((field.name.clone(), ty));
        proof {
            assert(fields_v(fields@) =~= fields_v(before).push((field.name@, fields@.last().1)));
        }
        i = i + 1;
    }
    Ok(fields)
}

proof fn lemma_fields_stop(fs: Seq<StructField>, sname: Seq<char>, n: nat, m: nat)
    requires
        0 < n <= m <= fs.len(),
        spec_fields(fs, sname, n) is Err,
    ensures
        spec_fields(fs, sname, m) == spec_fields(fs, sname, n),
    decreases m,
{
    if m > n {
        lemma_fields_stop(fs, sname, n, (m - 1) as nat);
    }
}

/// Register one struct declaration.
fn register_struct(reg: &mut StructRegistry, d: &StructDecl) -> (r: Result<(), ParseError>)
    requires
        names_unique(old(reg).view()),
    ensures
        names_unique(final(reg).view()),
        match spec_register_struct(old(reg).view(), *d) {
            Ok(v) => r is Ok && final(reg).view() == v,
            Err((m, sp)) => r matches Err(e) && e.message@ == m && e.span == sp && final(reg).view()
                == old(reg).view(),
        },
{
    let ghost t = struct_entries(reg.schemas);
    match structs_get(&reg.schemas, d.name.as_str()) {
        Some(prev) => {
            proof {
                let i = choose|i: int| 0 <= i < t.len() && #[trigger] t[i].0@ == d.name@ && t[i].1 == *prev;
                assert(reg.view()[i].name == d.name@);
                let c = find_schema(reg.view(), d.name@)->0;
                // A name is registered once: the first match is the only one.
                assert(reg.view()[c].span == t[c].1.1);
                lemma_unique_names(reg.view(), c, i);
            }
            let s = concat_str(String::from_str("struct `"), d.name.as_str());
            let s = concat_str(s, "` already defined (previous definition at byte ");
            let s = concat_str(s, decimal_string(prev.1.start as u64).as_str());
            let m = concat_str(s, ")");
            return Err(ParseError { message: m, span: d.span });
        },
        None => {
            proof {
                assert forall|i: int| 0 <= i < reg.view().len() implies #[trigger] reg.view()[i].name != d.name@ by {
                    assert(t[i].0@ != d.name@);
                }
            }
        },
    }
    let fields = register_fields(d)?;
    let ghost fv = fields_v(fields@);
    structs_insert(&mut reg.schemas, d.name.clone(), (fields, d.span));
    proof {
        assert(reg.view() =~= schemas_v(t).push(SchemaV { name: d.name@, fields: fv, span: d.span }));
        let v = reg.view();
        assert forall|a: int, b: int| 0 <= a < b < v.len() implies #[trigger] v[a].name != #[trigger] v[b].name by {
            if b < v.len() - 1 {
                assert(v[a] == schemas_v(t)[a] && v[b] == schemas_v(t)[b]);
            } else {
                assert(v[a] == schemas_v(t)[a]);
            }
        }
    }
    Ok(())
}

/// The struct schemas of a program: every struct declaration in order,
/// or the first error (a repeated struct name, a field whose annotation
/// names no type, or a field of non-primitive type).
pub fn register_structs(program: &Program) -> (r: Result<StructRegistry, ParseError>)
    ensures
        match spec_register_structs(program.items@, program.items@.len()) {
            Ok(v) => r matches Ok(reg) && reg.view() == v && names_unique(v),
            Err((m, sp)) => r matches Err(e) && e.message@ == m && e.span == sp,
        },
{
    let mut reg = StructRegistry { schemas: structs_new() };
    proof {
        assert(reg.view() =~= Seq::<SchemaV>::empty());
    }
    let mut i: usize = 0;
    while i < program.items.len()
        invariant
            i <= program.items@.len(),
            names_unique(reg.view()),
            spec_register_structs(program.items@, i as nat) == Ok::<Seq<SchemaV>, (Seq<char>, Span)>(reg.view()),
        decreases program.items@.len() - i,
    {
        match &program.items[i] {
            Item::Struct(d) => {
                match register_struct(&mut reg, d) {
                    Ok(()) => {},
                    Err(e) => {
                        proof {
                            lemma_structs_stop(program.items@, (i + 1) as nat, program.items@.len());
                        }
                        return Err(e);
                    },
                }
            },
            _ => {},
        }
        i = i + 1;
    }
    Ok(reg)
}

proof fn lemma_structs_stop(items: Seq<Item>, n: nat, m: nat)
    requires
        0 < n <= m <= items.len(),
        spec_register_structs(items, n) is Err,
    ensures
        spec_register_structs(items, m) == spec_register_structs(items, n),
    decreases m,
{
    if m > n {
        lemma_structs_stop(items, n, (m - 1) as nat);
    }
}

/// Whether no two schemas share a name.
pub open spec fn names_unique(r: Seq<SchemaV>) -> bool {
    forall|i: int, j: int| 0 <= i < j < r.len() ==> #[trigger] r[i].name != #[trigger] r[j].name
}

proof fn lemma_unique_names(r: Seq<SchemaV>, c: int, i: int)
    requires
        names_unique(r),
        0 <= c < r.len(),
        0 <= i < r.len(),
        r[c].name == r[i].name,
    ensures
        c == i,
{
    if c < i {
        assert(r[c].name != r[i].name);
    } else if i < c {
        assert(r[i].name != r[c].name);
    }
}

/// A type by its content: names as text, struct fields as a sequence.
pub enum TyV {
    Int(crate::typeck::IntKind),
    Float(crate::typeck::FloatKind),
    Bool,
    Unit,
    Ref { inner: Box<TyV>, mutable: bool },
    Box(Box<TyV>),
    Vec(Box<TyV>),
    String,
    Slice(Box<TyV>),
    Str,
    Array(Box<TyV>, u64),
    Struct { name: Seq<char>, fields: Seq<(Seq<char>, TyV)> },
}

/// The content of a type.
pub open spec fn ty_v(t: Ty) -> TyV
    decreases t, 0nat,
{
    match t {
        Ty::Int(k) => TyV::Int(k),
        Ty::Float(k) => TyV::Float(k),
        Ty::Bool => TyV::Bool,
        Ty::Unit => TyV::Unit,
        Ty::Ref { inner, mutable } => TyV::Ref { inner: Box::new(ty_v(*inner)), mutable },
        Ty::Box(x) => TyV::Box(Box::new(ty_v(*x))),
        Ty::Vec(x) => TyV::Vec(Box::new(ty_v(*x))),
        Ty::String => TyV::String,
        Ty::Slice(x) => TyV::Slice(Box::new(ty_v(*x))),
        Ty::Str => TyV::Str,
        Ty::Array(x, n) => TyV::Array(Box::new(ty_v(*x)), n),
        Ty::Struct { name, fields } => TyV::Struct { name: name@, fields: fields_tv(fields@, fields@.len()) },
    }
}

/// The contents of the first `n` fields.
pub open spec fn fields_tv(f: Seq<(String, Ty)>, n: nat) -> Seq<(Seq<char>, TyV)>
    decreases f, n,
{
    if n == 0 || n > f.len() {
        Seq::empty()
    } else {
        fields_tv(f, (n - 1) as nat).push((f[n - 1].0@, ty_v(f[n - 1].1)))
    }
}

proof fn lemma_fields_tv_push(f: Seq<(String, Ty)>, x: (String, Ty), n: nat)
    requires
        n <= f.len(),
    ensures
        fields_tv(f.push(x), n) == fields_tv(f, n),
    decreases n,
{
    if n > 0 {
        lemma_fields_tv_push(f, x, (n - 1) as nat);
        assert(f.push(x)[n - 1] == f[n - 1]);
    }
}

/// A copy of a type, with the same content.
pub fn ty_clone(t: &Ty) -> (r: Ty)
    ensures
        ty_v(r) == ty_v(*t),
    decreases t,
{
    match t {
        Ty::Int(k) => Ty::Int(*k),
        Ty::Float(k) => Ty::Float(*k),
        Ty::Bool => Ty::Bool,
        Ty::Unit => Ty::Unit,
        Ty::Ref { inner, mutable } => Ty::Ref { inner: Box::new(ty_clone(inner)), mutable: *mutable },
        Ty::Box(x) => Ty::Box(Box::new(ty_clone(x))),
        Ty::Vec(x) => Ty::Vec(Box::new(ty_clone(x))),
        Ty::String => Ty::String,
        Ty::Slice(x) => Ty::Slice(Box::new(ty_clone(x))),
        Ty::Str => Ty::Str,
        Ty::Array(x, n) => Ty::Array(Box::new(ty_clone(x)), *n),
        Ty::Struct { name, fields } => {
            let fs = fields_clone(fields, t);
            Ty::Struct { name: name.clone(), fields: fs }
        },
    }
}

fn fields_clone(fields: &Vec<(String, Ty)>, owner: &Ty) -> (r: Vec<(String, Ty)>)
    requires
        *owner matches Ty::Struct { fields: fs, .. } && fs == *fields,
    ensures
        fields_tv(r@, r@.len()) == fields_tv(fields@, fields@.len()),
        r@.len() == fields@.len(),
    decreases owner, 1nat,
{
    let mut out: Vec<(String, Ty)> = Vec::new();
    let mut i: usize = 0;
    while i < fields.len()
        invariant
            i <= fields@.len(),
            out@.len() == i,
            *owner matches Ty::Struct { fields: fs, .. } && fs == *fields,
            fields_tv(out@, i as nat) == fields_tv(fields@, i as nat),
        decreases fields@.len() - i,
    {
        proof {
            assert(decreases_to!(*owner => fields@[i as int].1));
        }
        let c = ty_clone(&fields[i].1);
        let ghost before = out@;
        out.push((fields[i].0.clone(), c));
        proof {
            lemma_fields_tv_push(before, out@.last(), i as nat);
            assert(out@ == before.push(out@.last()));
        }
        i = i + 1;
    }
    out
}

/// A copy of a field list, with the same content.
pub fn clone_fields(fields: &Vec<(String, Ty)>) -> (r: Vec<(String, Ty)>)
    ensures
        fields_tv(r@, r@.len()) == fields_tv(fields@, fields@.len()),
        r@.len() == fields@.len(),
{
    let mut out: Vec<(String, Ty)> = Vec::new();
    let mut i: usize = 0;
    while i < fields.len()
        invariant
            i <= fields@.len(),
            out@.len() == i,
            fields_tv(out@, i as nat) == fields_tv(fields@, i as nat),
        decreases fields@.len() - i,
    {
        let c = ty_clone(&fields[i].1);
        let ghost before = out@;
        out.push((fields[i].0.clone(), c));
        proof {
            lemma_fields_tv_push(before, out@.last(), i as nat);
            assert(out@ == before.push(out@.last()));
        }
        i = i + 1;
    }
    out
}

/// The content of a schema's field list.
pub open spec fn schema_fields_tv(fs: Seq<(Seq<char>, Ty)>) -> Seq<(Seq<char>, TyV)> {
    fs.map_values(|p: (Seq<char>, Ty)| (p.0, ty_v(p.1)))
}

proof fn lemma_fields_tv_schema(f: Seq<(String, Ty)>, n: nat)
    requires
        n <= f.len(),
    ensures
        fields_tv(f, n) == schema_fields_tv(fields_v(f).subrange(0, n as int)),
    decreases n,
{
    if n > 0 {
        lemma_fields_tv_schema(f, (n - 1) as nat);
        assert(schema_fields_tv(fields_v(f).subrange(0, n as int)) =~= schema_fields_tv(
            fields_v(f).subrange(0, n - 1),
        ).push((f[n - 1].0@, ty_v(f[n - 1].1))));
    } else {
        assert(schema_fields_tv(fields_v(f).subrange(0, 0)) =~= Seq::<(Seq<char>, TyV)>::empty());
    }
}

/// The type an annotation denotes once the program's structs are known: a
/// one-segment path naming a registered struct is that struct; anything
/// else is read as [`spec_ty_from_ast`] reads it.
pub open spec fn spec_resolving_structs(r: Seq<SchemaV>, t: Type) -> Result<TyV, (Seq<char>, Span)> {
    let named = match t {
        Type::Path { segments, .. } => if segments@.len() == 1 {
            match find_schema(r, segments@[0]@) {
                Some(i) => Some(TyV::Struct { name: segments@[0]@, fields: schema_fields_tv(r[i].fields) }),
                None => None,
            }
        } else {
            None
        },
        _ => None,
    };
    match named {
        Some(v) => Ok(v),
        None => match spec_ty_from_ast(t) {
            Ok(x) => Ok(ty_v(x)),
            Err(e) => Err(e),
        },
    }
}

/// Whether an executable result is the specified one, by content.
pub open spec fn tyv_result_is(r: Result<Ty, ParseError>, s: Result<TyV, (Seq<char>, Span)>) -> bool {
    match s {
        Ok(v) => r matches Ok(t) && ty_v(t) == v,
        Err((m, sp)) => r matches Err(e) && e.message@ == m && e.span == sp,
    }
}

impl StructRegistry {
    /// The type an annotation denotes, reading registered struct names.
    pub fn ty_from_ast_resolving_structs(&self, t: &Type) -> (r: Result<Ty, ParseError>)
        requires
            names_unique(self.view()),
        ensures
            tyv_result_is(r, spec_resolving_structs(self.view(), *t)),
    {
        match t {
            Type::Path { segments, .. } => {
                if segments.len() == 1 {
                    match structs_get(&self.schemas, segments[0].as_str()) {
                        Some(entry) => {
                            let ghost tt = struct_entries(self.schemas);
                            proof {
                                let i = choose|i: int| 0 <= i < tt.len() && #[trigger] tt[i].0@ == segments@[0]@ && tt[i].1 == *entry;
                                assert(self.view()[i].name == segments@[0]@);
                                let c = find_schema(self.view(), segments@[0]@)->0;
                                lemma_unique_names(self.view(), c, i);
                                lemma_fields_tv_schema(entry.0@, entry.0@.len());
                                assert(fields_v(entry.0@).subrange(0, entry.0@.len() as int) =~= fields_v(entry.0@));
                            }
                            let fs = clone_fields(&entry.0);
                            return Ok(Ty::Struct { name: segments[0].clone(), fields: fs });
                        },
                        None => {
                            proof {
                                let tt = struct_entries(self.schemas);
                                assert forall|i: int| 0 <= i < self.view().len() implies #[trigger] self.view()[i].name != segments@[0]@ by {
                                    assert(tt[i].0@ != segments@[0]@);
                                }
                            }
                        },
                    }
                }
            },
            _ => {},
        }
        let r = ty_from_ast(t);
        r
    }
}

/// The types of the first `n` parameters, or the first error.
pub open spec fn spec_param_tys(r: Seq<SchemaV>, ps: Seq<Param>, n: nat) -> Result<Seq<TyV>, (Seq<char>, Span)>
    decreases n,
{
    if n == 0 || n > ps.len() {
        Ok(Seq::empty())
    } else {
        match spec_param_tys(r, ps, (n - 1) as nat) {
            Err(e) => Err(e),
            Ok(prev) => match spec_resolving_structs(r, ps[n - 1].ty) {
                Err(e) => Err(e),
                Ok(t) => Ok(prev.push(t)),
            },
        }
    }
}

/// A function's signature by content: parameter types in order, then the
/// return type (`()` without an annotation); or the first error.
pub open spec fn spec_fn_sig(r: Seq<SchemaV>, d: FnDecl) -> Result<(Seq<TyV>, TyV), (Seq<char>, Span)> {
    match spec_param_tys(r, d.params@, d.params@.len()) {
        Err(e) => Err(e),
        Ok(ps) => match d.return_ty {
            Some(t) => match spec_resolving_structs(r, t) {
                Ok(v) => Ok((ps, v)),
                Err(e) => Err(e),
            },
            None => Ok((ps, TyV::Unit)),
        },
    }
}

/// The content of a signature.
pub open spec fn sig_v(s: FnSig) -> (Seq<TyV>, TyV) {
    (s.params@.map_values(|t: Ty| ty_v(t)), ty_v(s.ret))
}

proof fn lemma_params_stop(r: Seq<SchemaV>, ps: Seq<Param>, n: nat, m: nat)
    requires
        0 < n <= m <= ps.len(),
        spec_param_tys(r, ps, n) is Err,
    ensures
        spec_param_tys(r, ps, m) == spec_param_tys(r, ps, n),
    decreases m,
{
    if m > n {
        lemma_params_stop(r, ps, n, (m - 1) as nat);
    }
}

impl StructRegistry {
    /// A function's signature, reading registered struct names in its
    /// parameter and return annotations.
    pub fn build_fn_sig(&self, d: &FnDecl) -> (r: Result<FnSig, ParseError>)
        requires
            names_unique(self.view()),
        ensures
            match spec_fn_sig(self.view(), *d) {
                Ok(v) => r matches Ok(sig) && sig_v(sig) == v,
                Err((m, sp)) => r matches Err(e) && e.message@ == m && e.span == sp,
            },
    {
        let mut params: Vec<Ty> = Vec::new();
        let mut i: usize = 0;
        proof {
            assert(params@.map_values(|t: Ty| ty_v(t)) =~= Seq::<TyV>::empty());
        }
        while i < d.params.len()
            invariant
                i <= d.params@.len(),
                names_unique(self.view()),
                spec_param_tys(self.view(), d.params@, i as nat) == Ok::<Seq<TyV>, (Seq<char>, Span)>(
                    params@.map_values(|t: Ty| ty_v(t)),
                ),
            decreases d.params@.len() - i,
        {
            match self.ty_from_ast_resolving_structs(&d.params[i].ty) {
                Ok(t) => {
                    let ghost before = params@;
                    params.push(t);
                    proof {
                        assert(params@.map_values(|t: Ty| ty_v(t)) =~= before.map_values(|t: Ty| ty_v(t)).push(
                            ty_v(params@.last()),
                        ));
                    }
                },
                Err(e) => {
                    proof {
                        lemma_params_stop(self.view(), d.params@, (i + 1) as nat, d.params@.len());
                    }
                    return Err(e);
                },
            }
            i = i + 1;
        }
        let ret = match &d.return_ty {
            Some(t) => self.ty_from_ast_resolving_structs(t)?,
            None => Ty::Unit,
        };
        Ok(FnSig { params, ret })
    }
}

// ─── Impl blocks ──────────────────────────────────────────────────────────

/// The entries of the table of types that have an impl block.
pub uninterp spec fn block_entries(m: IndexMap<String, Span>) -> Seq<(String, Span)>;

/// The entries of the method table: (type, method) and signature.
pub uninterp spec fn method_entries(m: IndexMap<(String, String), FnSig>) -> Seq<((String, String), FnSig)>;

/// The entries of the associated-function table: path and signature.
pub uninterp spec fn assoc_entries(m: IndexMap<Vec<String>, FnSig>) -> Seq<(Vec<String>, FnSig)>;

/// `IndexMap::new`.
#[verifier::external_body]
fn blocks_new() -> (m: IndexMap<String, Span>)
    ensures
        block_entries(m) == Seq::<(String, Span)>::empty(),
{
    IndexMap::new()
}

/// `IndexMap::contains_key` with a text key.
#[verifier::external_body]
fn blocks_contains(m: &IndexMap<String, Span>, k: &str) -> (found: bool)
    ensures
        found == (exists|i: int| 0 <= i < block_entries(*m).len() && #[trigger] block_entries(*m)[i].0@ == k@),
{
    m.contains_key(k)
}

/// `IndexMap::insert`: a key with the same text as an existing one keeps
/// that entry's key and place and takes the new value; otherwise the entry
/// is appended.
#[verifier::external_body]
fn blocks_insert(m: &mut IndexMap<String, Span>, k: String, v: Span) -> (r: Option<Span>)
    ensures
        ({
            let t = block_entries(*old(m));
            let t2 = block_entries(*final(m));
            ||| exists|i: int|
                0 <= i < t.len() && #[trigger] t[i].0@ == k@ && t2 == t.update(i, (t[i].0, v)) && r
                    == Some(t[i].1)
            ||| (forall|i: int| 0 <= i < t.len() ==> #[trigger] t[i].0@ != k@) && t2 == t.push(
                (k, v),
            ) && r is None
        }),
{
    m.insert(k, v)
}

/// `IndexMap::new`.
#[verifier::external_body]
fn methods_new() -> (m: IndexMap<(String, String), FnSig>)
    ensures
        method_entries(m) == Seq::<((String, String), FnSig)>::empty(),
{
    IndexMap::new()
}

/// `IndexMap::contains_key`: a key whose two texts are those of `k`.
#[verifier::external_body]
fn methods_contains(m: &IndexMap<(String, String), FnSig>, k: &(String, String)) -> (found: bool)
    ensures
        found == (exists|i: int|
            0 <= i < method_entries(*m).len() && #[trigger] method_entries(*m)[i].0.0@ == k.0@
                && method_entries(*m)[i].0.1@ == k.1@),
{
    m.contains_key(k)
}

/// `IndexMap::insert` of a key no entry has: it is appended.
#[verifier::external_body]
fn methods_insert(m: &mut IndexMap<(String, String), FnSig>, k: (String, String), v: FnSig) -> (r: Option<FnSig>)
    ensures
        ({
            let t = method_entries(*old(m));
            let t2 = method_entries(*final(m));
            ||| exists|i: int|
                0 <= i < t.len() && #[trigger] t[i].0.0@ == k.0@ && t[i].0.1@ == k.1@ && t2
                    == t.update(i, (t[i].0, v)) && r == Some(t[i].1)
            ||| (forall|i: int| 0 <= i < t.len() ==> !(#[trigger] t[i].0.0@ == k.0@ && t[i].0.1@ == k.1@))
                && t2 == t.push((k, v)) && r is None
        }),
{
    m.insert(k, v)
}

/// `IndexMap::new`.
#[verifier::external_body]
fn assoc_new() -> (m: IndexMap<Vec<String>, FnSig>)
    ensures
        assoc_entries(m) == Seq::<(Vec<String>, FnSig)>::empty(),
{
    IndexMap::new()
}

/// The texts of a path.
pub open spec fn path_v(p: Seq<String>) -> Seq<Seq<char>> {
    p.map_values(|x: String| x@)
}

/// `IndexMap::contains_key`: a key whose texts are those of `k`.
#[verifier::external_body]
fn assoc_contains(m: &IndexMap<Vec<String>, FnSig>, k: &Vec<String>) -> (found: bool)
    ensures
        found == (exists|i: int|
            0 <= i < assoc_entries(*m).len() && path_v(#[trigger] assoc_entries(*m)[i].0@) == path_v(k@)),
{
    m.contains_key(k)
}

/// `IndexMap::insert`: a key with the texts of an existing one keeps that
/// entry's key and place and takes the new value; otherwise the entry is
/// appended.
#[verifier::external_body]
fn assoc_insert(m: &mut IndexMap<Vec<String>, FnSig>, k: Vec<String>, v: FnSig) -> (r: Option<FnSig>)
    ensures
        ({
            let t = assoc_entries(*old(m));
            let t2 = assoc_entries(*final(m));
            ||| exists|i: int|
                0 <= i < t.len() && path_v(#[trigger] t[i].0@) == path_v(k@) && t2 == t.update(
                    i,
                    (t[i].0, v),
                ) && r == Some(t[i].1)
            ||| (forall|i: int| 0 <= i < t.len() ==> path_v(#[trigger] t[i].0@) != path_v(k@))
                && t2 == t.push((k, v)) && r is None
        }),
{
    m.insert(k, v)
}

/// The impl registry by content: the types with an impl block, the methods
/// and the associated functions with their signatures, in registration
/// order.
pub struct ImplsV {
    pub blocks: Seq<Seq<char>>,
    pub methods: Seq<((Seq<char>, Seq<char>), (Seq<TyV>, TyV))>,
    pub assoc: Seq<(Seq<Seq<char>>, (Seq<TyV>, TyV))>,
}

/// Methods and associated functions registered from impl blocks.
#[derive(Debug)]
pub struct ImplRegistry {
    impl_block_spans: IndexMap<String, Span>,
    methods: IndexMap<(String, String), FnSig>,
    assoc_fns: IndexMap<Vec<String>, FnSig>,
}

impl ImplRegistry {
    /// The registry by content.
    pub closed spec fn view(self) -> ImplsV {
        ImplsV {
            blocks: block_entries(self.impl_block_spans).map_values(|e: (String, Span)| e.0@),
            methods: method_entries(self.methods).map_values(
                |e: ((String, String), FnSig)| ((e.0.0@, e.0.1@), sig_v(e.1)),
            ),
            assoc: assoc_entries(self.assoc_fns).map_values(
                |e: (Vec<String>, FnSig)| (path_v(e.0@), sig_v(e.1)),
            ),
        }
    }

    /// No impl block, method or associated function.
    pub fn new() -> (r: ImplRegistry)
        ensures
            r.view().blocks == Seq::<Seq<char>>::empty(),
            r.view().methods == Seq::<((Seq<char>, Seq<char>), (Seq<TyV>, TyV))>::empty(),
            r.view().assoc == Seq::<(Seq<Seq<char>>, (Seq<TyV>, TyV))>::empty(),
    {
        let r = ImplRegistry { impl_block_spans: blocks_new(), methods: methods_new(), assoc_fns: assoc_new() };
        proof {
            assert(r.view().blocks =~= Seq::<Seq<char>>::empty());
            assert(r.view().methods =~= Seq::<((Seq<char>, Seq<char>), (Seq<TyV>, TyV))>::empty());
            assert(r.view().assoc =~= Seq::<(Seq<Seq<char>>, (Seq<TyV>, TyV))>::empty());
        }
        r
    }
}

/// The explicit parameter types among the first `n`, or the first error:
/// a receiver (`self`, `&self`, `&mut self`) is allowed only first and is
/// not an explicit parameter.
pub open spec fn spec_explicit_params(r: Seq<SchemaV>, ps: Seq<Param>, n: nat) -> Result<Seq<TyV>, (Seq<char>, Span)>
    decreases n,
{
    if n == 0 || n > ps.len() {
        Ok(Seq::empty())
    } else {
        match spec_explicit_params(r, ps, (n - 1) as nat) {
            Err(e) => Err(e),
            Ok(prev) => if n - 1 == 0 && !(ps[0].kind is Normal) {
                Ok(prev)
            } else if !(ps[n - 1].kind is Normal) {
                Err(("`self` parameter must be the first parameter"@, ps[n - 1].span))
            } else {
                match spec_resolving_structs(r, ps[n - 1].ty) {
                    Err(e) => Err(e),
                    Ok(t) => Ok(prev.push(t)),
                }
            },
        }
    }
}

/// Registering one function of the impl block for `sname`: with a
/// receiver it is a method of `sname`, otherwise the associated function
/// `sname::name`; either is refused when already defined.
pub open spec fn spec_register_impl_fn(r: Seq<SchemaV>, im: ImplsV, sname: Seq<char>, d: FnDecl) -> Result<ImplsV, (Seq<char>, Span)> {
    match spec_explicit_params(r, d.params@, d.params@.len()) {
        Err(e) => Err(e),
        Ok(ps) => {
            let ret = match d.return_ty {
                Some(t) => spec_resolving_structs(r, t),
                None => Ok(TyV::Unit),
            };
            match ret {
                Err(e) => Err(e),
                Ok(rt) => {
                    let is_method = d.params@.len() > 0 && !(d.params@[0].kind is Normal);
                    if is_method {
                        if exists|i: int| 0 <= i < im.methods.len() && #[trigger] im.methods[i].0 == (sname, d.name@) {
                            Err(("method `"@ + d.name@ + "` already defined on `"@ + sname + "`"@, d.span))
                        } else {
                            Ok(ImplsV { methods: im.methods.push(((sname, d.name@), (ps, rt))), ..im })
                        }
                    } else {
                        if exists|i: int| 0 <= i < im.assoc.len() && #[trigger] im.assoc[i].0 == seq![sname, d.name@] {
                            Err(("associated fn `"@ + d.name@ + "` already defined on `"@ + sname + "`"@, d.span))
                        } else {
                            Ok(ImplsV { assoc: im.assoc.push((seq![sname, d.name@], (ps, rt))), ..im })
                        }
                    }
                },
            }
        },
    }
}

/// Registering the first `n` functions of an impl block for `sname`.
pub open spec fn spec_register_impl_fns(r: Seq<SchemaV>, im: ImplsV, sname: Seq<char>, fs: Seq<FnDecl>, n: nat) -> Result<ImplsV, (Seq<char>, Span)>
    decreases n,
{
    if n == 0 || n > fs.len() {
        Ok(im)
    } else {
        match spec_register_impl_fns(r, im, sname, fs, (n - 1) as nat) {
            Err(e) => Err(e),
            Ok(im2) => spec_register_impl_fn(r, im2, sname, fs[n - 1]),
        }
    }
}

/// Registering an impl block: its type must be a registered struct with no
/// impl block yet; then each of its functions is registered in order.
pub open spec fn spec_register_impl(r: Seq<SchemaV>, im: ImplsV, b: ImplBlock) -> Result<ImplsV, (Seq<char>, Span)> {
    if find_schema(r, b.ty_name@) is None {
        Err(
            (
                "impl block references unknown type `"@ + b.ty_name@
                    + "` (M07.4 supports inherent impls on user-defined structs only \u{2014} not on built-ins like Vec or String)"@,
                b.span,
            ),
        )
    } else if im.blocks.contains(b.ty_name@) {
        Err(
            (
                "M07.4 supports only one impl block per type; merge into a single block (existing impl block for `"@
                    + b.ty_name@ + "` already declared)"@,
                b.span,
            ),
        )
    } else {
        spec_register_impl_fns(
            r,
            ImplsV { blocks: im.blocks.push(b.ty_name@), ..im },
            b.ty_name@,
            b.items@,
            b.items@.len(),
        )
    }
}

proof fn lemma_explicit_stop(r: Seq<SchemaV>, ps: Seq<Param>, n: nat, m: nat)
    requires
        0 < n <= m <= ps.len(),
        spec_explicit_params(r, ps, n) is Err,
    ensures
        spec_explicit_params(r, ps, m) == spec_explicit_params(r, ps, n),
    decreases m,
{
    if m > n {
        lemma_explicit_stop(r, ps, n, (m - 1) as nat);
    }
}

proof fn lemma_impl_fns_stop(r: Seq<SchemaV>, im: ImplsV, sname: Seq<char>, fs: Seq<FnDecl>, n: nat, m: nat)
    requires
        0 < n <= m <= fs.len(),
        spec_register_impl_fns(r, im, sname, fs, n) is Err,
    ensures
        spec_register_impl_fns(r, im, sname, fs, m) == spec_register_impl_fns(r, im, sname, fs, n),
    decreases m,
{
    if m > n {
        lemma_impl_fns_stop(r, im, sname, fs, n, (m - 1) as nat);
    }
}

impl ImplRegistry {
    /// Register one function of the impl block for `sname`.
    fn register_impl_fn(&mut self, structs: &StructRegistry, sname: &String, d: &FnDecl) -> (r: Result<(), ParseError>)
        requires
            names_unique(structs.view()),
        ensures
            match spec_register_impl_fn(structs.view(), old(self).view(), sname@, *d) {
                Ok(v) => r is Ok && final(self).view() == v,
                Err((m, sp)) => r matches Err(e) && e.message@ == m && e.span == sp && final(self).view()
                    == old(self).view(),
            },
    {
        let mut params: Vec<Ty> = Vec::new();
        let mut is_method = false;
        let mut i: usize = 0;
        proof {
            assert(params@.map_values(|t: Ty| ty_v(t)) =~= Seq::<TyV>::empty());
        }
        while i < d.params.len()
            invariant
                i <= d.params@.len(),
                names_unique(structs.view()),
                is_method == (i > 0 && !(d.params@[0].kind is Normal)),
                spec_explicit_params(structs.view(), d.params@, i as nat) == Ok::<Seq<TyV>, (Seq<char>, Span)>(
                    params@.map_values(|t: Ty| ty_v(t)),
                ),
            decreases d.params@.len() - i,
        {
            let param = &d.params[i];
            let normal = match param.kind {
                ParamKind::Normal => true,
                _ => false,
            };
            if i == 0 && !normal {
                is_method = true;
            } else if !normal {
                proof {
                    lemma_explicit_stop(structs.view(), d.params@, (i + 1) as nat, d.params@.len());
                }
                return Err(ParseError { message: String::from_str("`self` parameter must be the first parameter"), span: param.span });
            } else {
                match structs.ty_from_ast_resolving_structs(&param.ty) {
                    Ok(t) => {
                        let ghost before = params@;
                        params.push(t);
                        proof {
                            assert(params@.map_values(|t: Ty| ty_v(t)) =~= before.map_values(|t: Ty| ty_v(t)).push(
                                ty_v(params@.last()),
                            ));
                        }
                    },
                    Err(e) => {
                        proof {
                            lemma_explicit_stop(structs.view(), d.params@, (i + 1) as nat, d.params@.len());
                        }
                        return Err(e);
                    },
                }
            }
            i = i + 1;
        }
        let ret = match &d.return_ty {
            Some(t) => structs.ty_from_ast_resolving_structs(t)?,
            None => Ty::Unit,
        };
        let sig = FnSig { params, ret };
        let ghost sv = sig_v(sig);
        let ghost old_view = self.view();
        if is_method {
            let key = (sname.clone(), d.name.clone());
            if methods_contains(&self.methods, &key) {
                proof {
                    let t = method_entries(self.methods);
                    let i = choose|i: int| 0 <= i < t.len() && #[trigger] t[i].0.0@ == key.0@ && t[i].0.1@ == key.1@;
                    assert(self.view().methods[i].0 == (sname@, d.name@));
                }
                let s = concat_str(String::from_str("method `"), d.name.as_str());
                let s = concat_str(s, "` already defined on `");
                let s = concat_str(s, sname.as_str());
                return Err(ParseError { message: concat_str(s, "`"), span: d.span });
            }
            let ghost t = method_entries(self.methods);
            proof {
                assert forall|i: int| 0 <= i < old_view.methods.len() implies #[trigger] old_view.methods[i].0 != (sname@, d.name@) by {
                    assert(!(t[i].0.0@ == key.0@ && t[i].0.1@ == key.1@));
                }
            }
            methods_insert(&mut self.methods, key, sig);
            proof {
                assert(self.view().methods =~= old_view.methods.push(((sname@, d.name@), sv)));
                assert(self.view().blocks =~= old_view.blocks);
                assert(self.view().assoc =~= old_view.assoc);
            }
        } else {
            let key = vec![sname.clone(), d.name.clone()];
            proof {
                assert(path_v(key@) =~= seq![sname@, d.name@]);
            }
            if assoc_contains(&self.assoc_fns, &key) {
                proof {
                    let t = assoc_entries(self.assoc_fns);
                    let i = choose|i: int| 0 <= i < t.len() && path_v(#[trigger] t[i].0@) == path_v(key@);
                    assert(self.view().assoc[i].0 == seq![sname@, d.name@]);
                }
                let s = concat_str(String::from_str("associated fn `"), d.name.as_str());
                let s = concat_str(s, "` already defined on `");
                let s = concat_str(s, sname.as_str());
                return Err(ParseError { message: concat_str(s, "`"), span: d.span });
            }
            let ghost t = assoc_entries(self.assoc_fns);
            proof {
                assert forall|i: int| 0 <= i < old_view.assoc.len() implies #[trigger] old_view.assoc[i].0 != seq![sname@, d.name@] by {
                    assert(path_v(t[i].0@) != path_v(key@));
                }
            }
            assoc_insert(&mut self.assoc_fns, key, sig);
            proof {
                assert(self.view().assoc =~= old_view.assoc.push((seq![sname@, d.name@], sv)));
                assert(self.view().blocks =~= old_view.blocks);
                assert(self.view().methods =~= old_view.methods);
            }
        }
        Ok(())
    }

    /// Register an impl block: its type must be a registered struct with no
    /// impl block yet; then each of its functions is registered in order.
    pub fn register_impl(&mut self, structs: &StructRegistry, b: &ImplBlock) -> (r: Result<(), ParseError>)
        requires
            names_unique(structs.view()),
        ensures
            match spec_register_impl(structs.view(), old(self).view(), *b) {
                Ok(v) => r is Ok && final(self).view() == v,
                Err((m, sp)) => r matches Err(e) && e.message@ == m && e.span == sp,
            },
    {
        if !structs.contains(b.ty_name.as_str()) {
            let s = concat_str(String::from_str("impl block references unknown type `"), b.ty_name.as_str());
            let m = concat_str(s, "` (M07.4 supports inherent impls on user-defined structs only \u{2014} not on built-ins like Vec or String)");
            return Err(ParseError { message: m, span: b.span });
        }
        let ghost v0 = self.view();
        if blocks_contains(&self.impl_block_spans, b.ty_name.as_str()) {
            proof {
                let t = block_entries(self.impl_block_spans);
                let i = choose|i: int| 0 <= i < t.len() && #[trigger] t[i].0@ == b.ty_name@;
                assert(v0.blocks[i] == b.ty_name@);
            }
            let s = concat_str(
                String::from_str("M07.4 supports only one impl block per type; merge into a single block (existing impl block for `"),
                b.ty_name.as_str(),
            );
            let m = concat_str(s, "` already declared)");
            return Err(ParseError { message: m, span: b.span });
        }
        let ghost t = block_entries(self.impl_block_spans);
        proof {
            assert forall|i: int| 0 <= i < v0.blocks.len() implies v0.blocks[i] != b.ty_name@ by {
                assert(t[i].0@ != b.ty_name@);
            }
        }
        blocks_insert(&mut self.impl_block_spans, b.ty_name.clone(), b.span);
        let ghost start = ImplsV { blocks: v0.blocks.push(b.ty_name@), ..v0 };
        proof {
            assert(self.view().blocks =~= v0.blocks.push(b.ty_name@));
            assert(self.view().methods =~= v0.methods);
            assert(self.view().assoc =~= v0.assoc);
        }
        proof {
            assert(!v0.blocks.contains(b.ty_name@));
            assert(spec_register_impl(structs.view(), v0, *b) == spec_register_impl_fns(
                structs.view(),
                start,
                b.ty_name@,
                b.items@,
                b.items@.len(),
            ));
        }
        let mut i: usize = 0;
        while i < b.items.len()
            invariant
                i <= b.items@.len(),
                names_unique(structs.view()),
                v0 == old(self).view(),
                spec_register_impl(structs.view(), v0, *b) == spec_register_impl_fns(
                    structs.view(),
                    start,
                    b.ty_name@,
                    b.items@,
                    b.items@.len(),
                ),
                spec_register_impl_fns(structs.view(), start, b.ty_name@, b.items@, i as nat) == Ok::<ImplsV, (Seq<char>, Span)>(self.view()),
            decreases b.items@.len() - i,
        {
            let ghost before = self.view();
            match self.register_impl_fn(structs, &b.ty_name, &b.items[i]) {
                Ok(()) => {},
                Err(e) => {
                    proof {
                        assert(spec_register_impl_fns(structs.view(), start, b.ty_name@, b.items@, (i + 1) as nat)
                            == spec_register_impl_fn(structs.view(), before, b.ty_name@, b.items@[i as int]));
                        lemma_impl_fns_stop(structs.view(), start, b.ty_name@, b.items@, (i + 1) as nat, b.items@.len());
                    }
                    return Err(e);
                },
            }
            i = i + 1;
        }
        Ok(())
    }
}

// ─── The type map and the declaration phase ──────────────────────────────

/// The entries of a binding-type table, in insertion order.
pub uninterp spec fn binding_type_entries(m: IndexMap<u32, BindingType>) -> Seq<(u32, BindingType)>;

/// The entries of an expression-type table, in insertion order.
pub uninterp spec fn expr_type_entries(m: IndexMap<(u32, u32, u32), Ty>) -> Seq<((u32, u32, u32), Ty)>;

/// `IndexMap::new`.
#[verifier::external_body]
fn binding_types_new() -> (m: IndexMap<u32, BindingType>)
    ensures
        binding_type_entries(m) == Seq::<(u32, BindingType)>::empty(),
{
    IndexMap::new()
}

/// `IndexMap::new`.
#[verifier::external_body]
fn expr_types_new() -> (m: IndexMap<(u32, u32, u32), Ty>)
    ensures
        expr_type_entries(m) == Seq::<((u32, u32, u32), Ty)>::empty(),
{
    IndexMap::new()
}

/// `IndexMap::insert`: an existing key keeps its place and takes the new
/// value; a new key is appended.
#[verifier::external_body]
fn binding_types_insert(m: &mut IndexMap<u32, BindingType>, k: u32, v: BindingType) -> (r: Option<BindingType>)
    ensures
        ({
            let t = binding_type_entries(*old(m));
            let t2 = binding_type_entries(*final(m));
            ||| exists|i: int|
                0 <= i < t.len() && #[trigger] t[i].0 == k && t2 == t.update(i, (k, v)) && r
                    == Some(t[i].1)
            ||| (forall|i: int| 0 <= i < t.len() ==> #[trigger] t[i].0 != k) && t2 == t.push(
                (k, v),
            ) && r is None
        }),
{
    m.insert(k, v)
}

/// Types the checker records: per expression (by span) and per binding.
#[derive(Debug)]
pub struct TypeMap {
    /// Each value-producing expression, keyed by its span as
    /// `(start, end, file)`, to its type.
    pub expr_types: IndexMap<(u32, u32, u32), Ty>,
    /// Each binding number to its type or signature.
    pub binding_types: IndexMap<u32, BindingType>,
}

/// A binding's type by content.
pub enum BindTyV {
    Var(TyV),
    Fn((Seq<TyV>, TyV)),
}

/// The content of a binding type.
pub open spec fn bind_ty_v(b: BindingType) -> BindTyV {
    match b {
        BindingType::Var(t) => BindTyV::Var(ty_v(t)),
        BindingType::Fn(s) => BindTyV::Fn(sig_v(s)),
    }
}

/// The content of a binding-type table.
pub open spec fn bind_tys_v(t: Seq<(u32, BindingType)>) -> Seq<(u32, BindTyV)> {
    t.map_values(|e: (u32, BindingType)| (e.0, bind_ty_v(e.1)))
}

/// Position of the first function binding named `name`.
pub open spec fn first_fn_binding(t: Seq<(u32, BindingDecl)>, name: Seq<char>) -> int {
    choose|i: int|
        0 <= i < t.len() && #[trigger] t[i].1.kind == BindingKind::Fn && t[i].1.name@ == name
            && forall|j: int| 0 <= j < i ==> !(#[trigger] t[j].1.kind == BindingKind::Fn && t[j].1.name@ == name)
}

/// Inserting into a keyed table: an existing key's entry is replaced in
/// place, a new key is appended.
pub open spec fn keyed_insert(t: Seq<(u32, BindTyV)>, k: u32, v: BindTyV) -> Seq<(u32, BindTyV)> {
    if exists|i: int| 0 <= i < t.len() && #[trigger] t[i].0 == k {
        t.update(choose|i: int| 0 <= i < t.len() && #[trigger] t[i].0 == k, (k, v))
    } else {
        t.push((k, v))
    }
}

/// What the declaration phase has collected: the impl registry and the
/// functions' signatures by binding number.
pub struct DeclsV {
    pub impls: ImplsV,
    pub sigs: Seq<(u32, BindTyV)>,
}

#[verifier::opaque]
/// The declaration phase over the first `n` items, in order: each
/// function's signature is recorded under its binding, each impl block is
/// registered; the first error stops it.
pub open spec fn spec_declarations(r: Seq<SchemaV>, names: Seq<(u32, BindingDecl)>, items: Seq<Item>, n: nat) -> Result<DeclsV, (Seq<char>, Span)>
    decreases n,
{
    if n == 0 || n > items.len() {
        Ok(DeclsV { impls: ImplsV { blocks: Seq::empty(), methods: Seq::empty(), assoc: Seq::empty() }, sigs: Seq::empty() })
    } else {
        match spec_declarations(r, names, items, (n - 1) as nat) {
            Err(e) => Err(e),
            Ok(dv) => match items[n - 1] {
                Item::Fn(d) => match spec_fn_sig(r, d) {
                    Err(e) => Err(e),
                    Ok(sig) => Ok(DeclsV {
                        sigs: keyed_insert(dv.sigs, names[first_fn_binding(names, d.name@)].0, BindTyV::Fn(sig)),
                        ..dv
                    }),
                },
                Item::Impl(b) => match spec_register_impl(r, dv.impls, b) {
                    Err(e) => Err(e),
                    Ok(im) => Ok(DeclsV { impls: im, ..dv }),
                },
                Item::Struct(_) => Ok(dv),
            },
        }
    }
}

/// The declarations of a program: struct schemas, impl registry, and the
/// type map holding each function's signature.
#[derive(Debug)]
pub struct Declarations {
    pub structs: StructRegistry,
    pub impls: ImplRegistry,
    pub types: TypeMap,
}

proof fn lemma_decls_step(r: Seq<SchemaV>, names: Seq<(u32, BindingDecl)>, items: Seq<Item>, n: nat)
    requires
        n < items.len(),
    ensures
        spec_declarations(r, names, items, 0) == Ok::<DeclsV, (Seq<char>, Span)>(
            DeclsV { impls: ImplsV { blocks: Seq::empty(), methods: Seq::empty(), assoc: Seq::empty() }, sigs: Seq::empty() },
        ),
        spec_declarations(r, names, items, n) is Err ==> spec_declarations(r, names, items, n + 1)
            == spec_declarations(r, names, items, n),
        spec_declarations(r, names, items, n) matches Ok(dv) ==> spec_declarations(r, names, items, n + 1) == (
            match items[n as int] {
                Item::Fn(d) => match spec_fn_sig(r, d) {
                    Err(e) => Err(e),
                    Ok(sig) => Ok(DeclsV {
                        sigs: keyed_insert(dv.sigs, names[first_fn_binding(names, d.name@)].0, BindTyV::Fn(sig)),
                        ..dv
                    }),
                },
                Item::Impl(b) => match spec_register_impl(r, dv.impls, b) {
                    Err(e) => Err(e),
                    Ok(im) => Ok(DeclsV { impls: im, ..dv }),
                },
                Item::Struct(_) => Ok(dv),
            }),
{
    reveal(spec_declarations);
}

proof fn lemma_decls_stop(r: Seq<SchemaV>, names: Seq<(u32, BindingDecl)>, items: Seq<Item>, n: nat, m: nat)
    requires
        0 < n <= m <= items.len(),
        spec_declarations(r, names, items, n) is Err,
    ensures
        spec_declarations(r, names, items, m) == spec_declarations(r, names, items, n),
    decreases m,
{
    if m > n {
        lemma_decls_stop(r, names, items, n, (m - 1) as nat);
        lemma_decls_step(r, names, items, (m - 1) as nat);
    }
}

/// The binding number of the first function binding named `name`.
fn lookup_fn_binding(res: &Resolution, name: &String) -> (id: u32)
    requires
        has_fn_binding(binding_entries(res.bindings), name@),
    ensures
        id == binding_entries(res.bindings)[first_fn_binding(binding_entries(res.bindings), name@)].0,
{
    let ghost t = binding_entries(res.bindings);
    let n = bindings_len(&res.bindings);
    let mut i: usize = 0;
    while i < n
        invariant
            n == t.len(),
            t == binding_entries(res.bindings),
            i <= n,
            has_fn_binding(t, name@),
            forall|j: int| 0 <= j < i ==> !(#[trigger] t[j].1.kind == BindingKind::Fn && t[j].1.name@ == name@),
        decreases n - i,
    {
        let (k, d) = bindings_get_index(&res.bindings, i);
        let is_fn = match d.kind {
            BindingKind::Fn => true,
            _ => false,
        };
        if is_fn && d.name.eq(name) {
            proof {
                let c = first_fn_binding(t, name@);
                assert(t[i as int].1.kind == BindingKind::Fn && t[i as int].1.name@ == name@);
                assert(c == i) by {
                    if c < i {
                    } else if c > i {
                        assert(!(t[i as int].1.kind == BindingKind::Fn && t[i as int].1.name@ == name@));
                    }
                }
            }
            return k;
        }
        i = i + 1;
    }
    proof {
        let w = choose|w: int| 0 <= w < t.len() && #[trigger] t[w].1.kind == BindingKind::Fn && t[w].1.name@ == name@;
        assert(!(t[w].1.kind == BindingKind::Fn && t[w].1.name@ == name@));
    }
    0
}

/// Binding numbers occur once in a binding-type table.
pub open spec fn bt_keys_unique(t: Seq<(u32, BindingType)>) -> bool {
    forall|a: int, b: int| 0 <= a < b < t.len() ==> #[trigger] t[a].0 != #[trigger] t[b].0
}

/// Record a function's signature under its binding.
fn record_signature(
    structs: &StructRegistry,
    res: &Resolution,
    bt: &mut IndexMap<u32, BindingType>,
    d: &FnDecl,
) -> (r: Result<(), ParseError>)
    requires
        names_unique(structs.view()),
        has_fn_binding(binding_entries(res.bindings), d.name@),
        bt_keys_unique(binding_type_entries(*old(bt))),
    ensures
        match spec_fn_sig(structs.view(), *d) {
            Err((m, sp)) => r matches Err(e) && e.message@ == m && e.span == sp,
            Ok(sig) => {
                &&& r is Ok
                &&& bt_keys_unique(binding_type_entries(*final(bt)))
                &&& bind_tys_v(binding_type_entries(*final(bt))) == keyed_insert(
                    bind_tys_v(binding_type_entries(*old(bt))),
                    binding_entries(res.bindings)[first_fn_binding(binding_entries(res.bindings), d.name@)].0,
                    BindTyV::Fn(sig),
                )
            },
        },
{
    let sig = structs.build_fn_sig(d)?;
    let id = lookup_fn_binding(res, &d.name);
    let ghost t = binding_type_entries(*bt);
    let ghost v = bind_ty_v(BindingType::Fn(sig));
    binding_types_insert(bt, id, BindingType::Fn(sig));
    proof {
        let t2 = binding_type_entries(*bt);
        if exists|j: int| 0 <= j < t.len() && #[trigger] t[j].0 == id {
            let j = choose|j: int| 0 <= j < t.len() && #[trigger] t[j].0 == id;
            assert forall|a: int| 0 <= a < t.len() && #[trigger] t[a].0 == id implies a == j by {
                if a < j {
                    assert(t[a].0 != t[j].0);
                } else if a > j {
                    assert(t[j].0 != t[a].0);
                }
            }
            assert(t2 == t.update(j, (id, BindingType::Fn(sig))));
            assert(bind_tys_v(t).len() == t.len());
            assert(bind_tys_v(t)[j].0 == id);
            let c = choose|c: int| 0 <= c < bind_tys_v(t).len() && #[trigger] bind_tys_v(t)[c].0 == id;
            assert(t[c].0 == id);
            assert(bind_tys_v(t2) =~= bind_tys_v(t).update(j, (id, v)));
            assert forall|a: int, b: int| 0 <= a < b < t2.len() implies #[trigger] t2[a].0 != #[trigger] t2[b].0 by {
                assert(t2[a].0 == t[a].0 && t2[b].0 == t[b].0);
            }
        } else {
            assert forall|j: int| 0 <= j < bind_tys_v(t).len() implies #[trigger] bind_tys_v(t)[j].0 != id by {
                assert(t[j].0 != id);
            }
            assert(t2 == t.push((id, BindingType::Fn(sig))));
            assert(bind_tys_v(t2) =~= bind_tys_v(t).push((id, v)));
            assert forall|a: int, b: int| 0 <= a < b < t2.len() implies #[trigger] t2[a].0 != #[trigger] t2[b].0 by {
                if b < t.len() {
                    assert(t2[a] == t[a] && t2[b] == t[b]);
                } else {
                    assert(t2[a] == t[a]);
                }
            }
        }
    }
    Ok(())
}

/// The declaration phase of type checking: the struct schemas, then, item
/// by item, each function's signature recorded under its binding and each
/// impl block registered; the first error stops it.
pub fn collect_declarations(program: &Program, res: &Resolution) -> (r: Result<Declarations, ParseError>)
    requires
        fns_bound(program.items@, binding_entries(res.bindings)),
    ensures
        match spec_register_structs(program.items@, program.items@.len()) {
            Err((m, sp)) => r matches Err(e) && e.message@ == m && e.span == sp,
            Ok(sv) => match spec_declarations(sv, binding_entries(res.bindings), program.items@, program.items@.len()) {
                Err((m, sp)) => r matches Err(e) && e.message@ == m && e.span == sp,
                Ok(dv) => r matches Ok(ds) && ds.structs.view() == sv && ds.impls.view() == dv.impls
                    && bind_tys_v(binding_type_entries(ds.types.binding_types)) == dv.sigs
                    && expr_type_entries(ds.types.expr_types) == Seq::<((u32, u32, u32), Ty)>::empty(),
            },
        },
{
    let structs = register_structs(program)?;
    let ghost sv = structs.view();
    let ghost names = binding_entries(res.bindings);
    let mut impls = ImplRegistry::new();
    let mut binding_types = binding_types_new();
    proof {
        assert(impls.view() =~= ImplsV { blocks: Seq::empty(), methods: Seq::empty(), assoc: Seq::empty() });
        assert(bind_tys_v(binding_type_entries(binding_types)) =~= Seq::<(u32, BindTyV)>::empty());
        assert(spec_declarations(sv, names, program.items@, 0) == Ok::<DeclsV, (Seq<char>, Span)>(
            DeclsV { impls: ImplsV { blocks: Seq::empty(), methods: Seq::empty(), assoc: Seq::empty() }, sigs: Seq::empty() },
        )) by {
            reveal(spec_declarations);
        }
    }
    let mut i: usize = 0;
    while i < program.items.len()
        invariant
            i <= program.items@.len(),
            sv == structs.view(),
            spec_register_structs(program.items@, program.items@.len()) == Ok::<Seq<SchemaV>, (Seq<char>, Span)>(sv),
            names_unique(sv),
            names == binding_entries(res.bindings),
            fns_bound(program.items@, names),
            bt_keys_unique(binding_type_entries(binding_types)),
            spec_declarations(sv, names, program.items@, i as nat) == Ok::<DeclsV, (Seq<char>, Span)>(
                DeclsV { impls: impls.view(), sigs: bind_tys_v(binding_type_entries(binding_types)) },
            ),
        decreases program.items@.len() - i,
    {
        proof {
            lemma_decls_step(sv, names, program.items@, i as nat);
        }
        match &program.items[i] {
            Item::Fn(d) => {
                proof {
                    assert(program.items@[i as int] matches Item::Fn(dd) ==> has_fn_binding(names, dd.name@));
                }
                match record_signature(&structs, res, &mut binding_types, d) {
                    Ok(()) => {},
                    Err(e) => {
                        proof {
                            lemma_decls_stop(sv, names, program.items@, (i + 1) as nat, program.items@.len());
                        }
                        return Err(e);
                    },
                }
            },
            Item::Impl(b) => {
                match impls.register_impl(&structs, b) {
                    Ok(()) => {},
                    Err(e) => {
                        proof {
                            lemma_decls_stop(sv, names, program.items@, (i + 1) as nat, program.items@.len());
                        }
                        return Err(e);
                    },
                }
            },
            Item::Struct(_) => {},
        }
        i = i + 1;
    }
    let types = TypeMap { expr_types: expr_types_new(), binding_types };
    Ok(Declarations { structs, impls, types })
}

} // verus!
