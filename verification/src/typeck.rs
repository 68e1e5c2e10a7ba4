//! Value types of the interpreted language: integer and float kinds, the
//! `Ty` tree, function signatures, and the conversion from surface type
//! annotations to `Ty`.

use vstd::prelude::*;
use vstd::string::*;

use crate::ast;
use crate::borrow_tracker::{has_mut, ActiveBorrow, BorrowKind, BorrowTracker};
use crate::resolve::{BindingDecl, BindingId, BindingKind};
use crate::error::ParseError;
use crate::span::Span;
use crate::text::{concat_str, decimal, decimal_string, str_eq};

verus! {

/// Integer-kind discriminator. `USize` / `ISize` are pinned to 64-bit width
/// for determinism; their ranges match `U64` / `I64`.
#[derive(Clone, Copy, Debug, PartialEq, Eq, Hash, Structural)]
pub enum IntKind {
    I8,
    I16,
    I32,
    I64,
    I128,
    U8,
    U16,
    U32,
    U64,
    U128,
    ISize,
    USize,
}

/// Float-kind discriminator.
#[derive(Clone, Copy, Debug, PartialEq, Eq, Hash, Structural)]
pub enum FloatKind {
    F32,
    F64,
}

impl IntKind {
    /// Lowest representable value.
    pub open spec fn spec_min(self) -> int {
        match self {
            IntKind::I8 => -0x80,
            IntKind::I16 => -0x8000,
            IntKind::I32 => -0x8000_0000,
            IntKind::I64 | IntKind::ISize => -0x8000_0000_0000_0000,
            IntKind::I128 => -0x8000_0000_0000_0000_0000_0000_0000_0000,
            _ => 0,
        }
    }

    /// Highest representable value. `U128` is pinned to the `i128` maximum
    /// because values are stored widened to `i128`.
    pub open spec fn spec_max(self) -> int {
        match self {
            IntKind::I8 => 0x7f,
            IntKind::I16 => 0x7fff,
            IntKind::I32 => 0x7fff_ffff,
            IntKind::I64 | IntKind::ISize => 0x7fff_ffff_ffff_ffff,
            IntKind::I128 | IntKind::U128 => 0x7fff_ffff_ffff_ffff_ffff_ffff_ffff_ffff,
            IntKind::U8 => 0xff,
            IntKind::U16 => 0xffff,
            IntKind::U32 => 0xffff_ffff,
            IntKind::U64 | IntKind::USize => 0xffff_ffff_ffff_ffff,
        }
    }

    /// Signed kinds: the `i*` family and `isize`.
    pub open spec fn spec_is_signed(self) -> bool {
        match self {
            IntKind::I8 | IntKind::I16 | IntKind::I32 | IntKind::I64 | IntKind::I128
            | IntKind::ISize => true,
            _ => false,
        }
    }

    /// The Rust spelling of the kind.
    pub open spec fn spec_name(self) -> Seq<char> {
        match self {
            IntKind::I8 => "i8"@,
            IntKind::I16 => "i16"@,
            IntKind::I32 => "i32"@,
            IntKind::I64 => "i64"@,
            IntKind::I128 => "i128"@,
            IntKind::U8 => "u8"@,
            IntKind::U16 => "u16"@,
            IntKind::U32 => "u32"@,
            IntKind::U64 => "u64"@,
            IntKind::U128 => "u128"@,
            IntKind::ISize => "isize"@,
            IntKind::USize => "usize"@,
        }
    }

    /// Lowest representable value, widened to `i128`.
    pub fn min_value(self) -> (r: i128)
        ensures
            r == self.spec_min(),
    {
        match self {
            IntKind::I8 => -0x80,
            IntKind::I16 => -0x8000,
            IntKind::I32 => -0x8000_0000,
            IntKind::I64 | IntKind::ISize => -0x8000_0000_0000_0000,
            IntKind::I128 => i128::MIN,
            _ => 0,
        }
    }

    /// Highest representable value, widened to `i128`.
    pub fn max_value(self) -> (r: i128)
        ensures
            r == self.spec_max(),
    {
        match self {
            IntKind::I8 => 0x7f,
            IntKind::I16 => 0x7fff,
            IntKind::I32 => 0x7fff_ffff,
            IntKind::I64 | IntKind::ISize => 0x7fff_ffff_ffff_ffff,
            IntKind::I128 | IntKind::U128 => i128::MAX,
            IntKind::U8 => 0xff,
            IntKind::U16 => 0xffff,
            IntKind::U32 => 0xffff_ffff,
            IntKind::U64 | IntKind::USize => 0xffff_ffff_ffff_ffff,
        }
    }

    /// Whether `v` lies in this kind's representable range.
    pub fn contains(self, v: i128) -> (r: bool)
        ensures
            r == (self.spec_min() <= v <= self.spec_max()),
    {
        v >= self.min_value() && v <= self.max_value()
    }

    /// Whether the kind is signed.
    pub fn is_signed(self) -> (r: bool)
        ensures
            r == self.spec_is_signed(),
    {
        match self {
            IntKind::I8 | IntKind::I16 | IntKind::I32 | IntKind::I64 | IntKind::I128
            | IntKind::ISize => true,
            _ => false,
        }
    }

    /// The Rust spelling of the kind (`"u8"`, `"i64"`, `"usize"`, ...).
    pub fn name(self) -> (s: &'static str)
        ensures
            s@ == self.spec_name(),
    {
        match self {
            IntKind::I8 => "i8",
            IntKind::I16 => "i16",
            IntKind::I32 => "i32",
            IntKind::I64 => "i64",
            IntKind::I128 => "i128",
            IntKind::U8 => "u8",
            IntKind::U16 => "u16",
            IntKind::U32 => "u32",
            IntKind::U64 => "u64",
            IntKind::U128 => "u128",
            IntKind::ISize => "isize",
            IntKind::USize => "usize",
        }
    }
}

impl FloatKind {
    /// The Rust spelling of the kind.
    pub open spec fn spec_name(self) -> Seq<char> {
        match self {
            FloatKind::F32 => "f32"@,
            FloatKind::F64 => "f64"@,
        }
    }

    /// The Rust spelling of the kind (`"f32"` or `"f64"`).
    pub fn name(self) -> (s: &'static str)
        ensures
            s@ == self.spec_name(),
    {
        match self {
            FloatKind::F32 => "f32",
            FloatKind::F64 => "f64",
        }
    }
}

/// Value types. Function signatures live in [`FnSig`]: functions are not
/// first-class values.
#[derive(Debug, PartialEq, Eq, Hash)]
pub enum Ty {
    /// Signed or unsigned integer.
    Int(IntKind),
    /// Floating point.
    Float(FloatKind),
    /// Boolean.
    Bool,
    /// Unit `()`.
    Unit,
    /// `&T` when `mutable` is false, `&mut T` otherwise.
    Ref { inner: Box<Ty>, mutable: bool },
    /// Heap-owning `Box<T>`.
    Box(Box<Ty>),
    /// Heap-owning `Vec<T>`.
    Vec(Box<Ty>),
    /// Heap-owning UTF-8 text.
    String,
    /// Shared slice `&[T]` (the `&` is part of the type).
    Slice(Box<Ty>),
    /// `&str`.
    Str,
    /// Fixed-size array `[T; N]`.
    Array(Box<Ty>, u64),
    /// Nominal struct type with its fields in declaration order.
    Struct { name: String, fields: Vec<(String, Ty)> },
}

impl Ty {
    /// The user-facing rendering of a type.
    pub open spec fn spec_name(self) -> Seq<char>
        decreases self,
    {
        match self {
            Ty::Int(k) => k.spec_name(),
            Ty::Float(k) => k.spec_name(),
            Ty::Bool => "bool"@,
            Ty::Unit => "()"@,
            Ty::Ref { inner, mutable } => if mutable {
                "&mut "@ + inner.spec_name()
            } else {
                "&"@ + inner.spec_name()
            },
            Ty::Box(inner) => "Box<"@ + inner.spec_name() + ">"@,
            Ty::Vec(inner) => "Vec<"@ + inner.spec_name() + ">"@,
            Ty::String => "String"@,
            Ty::Slice(inner) => "&["@ + inner.spec_name() + "]"@,
            Ty::Str => "&str"@,
            Ty::Array(inner, size) => "["@ + inner.spec_name() + "; "@ + decimal(size as nat) + "]"@,
            Ty::Struct { name, .. } => name@,
        }
    }

    /// Whether values of the type are `Copy`: primitives and shared
    /// references are, heap owners, `&mut` and slices are not, arrays and
    /// structs are when their elements / fields are.
    pub open spec fn spec_is_copy(self) -> bool
        decreases self,
    {
        match self {
            Ty::Int(_) | Ty::Float(_) | Ty::Bool | Ty::Unit => true,
            Ty::Ref { mutable, .. } => !mutable,
            Ty::Box(_) | Ty::Vec(_) | Ty::String | Ty::Slice(_) | Ty::Str => false,
            Ty::Array(inner, _) => inner.spec_is_copy(),
            Ty::Struct { fields, .. } => forall|i: int|
                0 <= i < fields@.len() ==> (#[trigger] fields@[i]).1.spec_is_copy(),
        }
    }

    /// Render the type as a user-facing string (`"u8"`, `"&mut bool"`,
    /// `"[i32; 3]"`, ...).
    pub fn name(&self) -> (s: String)
        ensures
            s@ == self.spec_name(),
        decreases self,
    {
        match self {
            Ty::Int(k) => String::from_str(k.name()),
            Ty::Float(k) => String::from_str(k.name()),
            Ty::Bool => String::from_str("bool"),
            Ty::Unit => String::from_str("()"),
            Ty::Ref { inner, mutable } => {
                let inner_name = inner.name();
                if *mutable {
                    concat_str(String::from_str("&mut "), inner_name.as_str())
                } else {
                    concat_str(String::from_str("&"), inner_name.as_str())
                }
            },
            Ty::Box(inner) => {
                let inner_name = inner.name();
                concat_str(concat_str(String::from_str("Box<"), inner_name.as_str()), ">")
            },
            Ty::Vec(inner) => {
                let inner_name = inner.name();
                concat_str(concat_str(String::from_str("Vec<"), inner_name.as_str()), ">")
            },
            Ty::String => String::from_str("String"),
            Ty::Slice(inner) => {
                let inner_name = inner.name();
                concat_str(concat_str(String::from_str("&["), inner_name.as_str()), "]")
            },
            Ty::Str => String::from_str("&str"),
            Ty::Array(inner, size) => {
                let inner_name = inner.name();
                let size_text = decimal_string(*size);
                let s = concat_str(String::from_str("["), inner_name.as_str());
                let s = concat_str(s, "; ");
                let s = concat_str(s, size_text.as_str());
                concat_str(s, "]")
            },
            Ty::Struct { name, .. } => name.clone(),
        }
    }

    /// Whether values of this type are `Copy`.
    pub fn is_copy(&self) -> (r: bool)
        ensures
            r == self.spec_is_copy(),
        decreases self,
    {
        match self {
            Ty::Int(_) | Ty::Float(_) | Ty::Bool | Ty::Unit => true,
            Ty::Ref { mutable, .. } => !*mutable,
            Ty::Box(_) | Ty::Vec(_) | Ty::String | Ty::Slice(_) | Ty::Str => false,
            Ty::Array(inner, _) => inner.is_copy(),
            Ty::Struct { fields, .. } => {
                let mut i: usize = 0;
                while i < fields.len()
                    invariant
                        i <= fields@.len(),
                        *self matches Ty::Struct { fields: fs, .. } && fs == *fields,
                        forall|j: int| 0 <= j < i ==> (#[trigger] fields@[j]).1.spec_is_copy(),
                    decreases fields@.len() - i,
                {
                    proof {
                        assert(decreases_to!(*self => fields@[i as int].1));
                    }
                    if !fields[i].1.is_copy() {
                        assert(!(*self).spec_is_copy());
                        return false;
                    }
                    i = i + 1;
                }
                true
            },
        }
    }
}

/// Structural equality of types, names compared by their text.
pub open spec fn ty_same(a: Ty, b: Ty) -> bool
    decreases a, 0nat,
{
    match (a, b) {
        (Ty::Int(x), Ty::Int(y)) => x == y,
        (Ty::Float(x), Ty::Float(y)) => x == y,
        (Ty::Bool, Ty::Bool) => true,
        (Ty::Unit, Ty::Unit) => true,
        (Ty::String, Ty::String) => true,
        (Ty::Str, Ty::Str) => true,
        (Ty::Ref { inner: x, mutable: m }, Ty::Ref { inner: y, mutable: n }) => m == n && ty_same(
            *x,
            *y,
        ),
        (Ty::Box(x), Ty::Box(y)) => ty_same(*x, *y),
        (Ty::Vec(x), Ty::Vec(y)) => ty_same(*x, *y),
        (Ty::Slice(x), Ty::Slice(y)) => ty_same(*x, *y),
        (Ty::Array(x, n), Ty::Array(y, m)) => n == m && ty_same(*x, *y),
        (Ty::Struct { name: n1, fields: f1 }, Ty::Struct { name: n2, fields: f2 }) => n1@ == n2@
            && f1@.len() == f2@.len() && fields_same(f1@, f2@, f1@.len()),
        _ => false,
    }
}

/// The first `n` fields agree in name and type.
pub open spec fn fields_same(f1: Seq<(String, Ty)>, f2: Seq<(String, Ty)>, n: nat) -> bool
    decreases f1, n,
{
    if n == 0 || n > f1.len() || n > f2.len() {
        true
    } else {
        &&& fields_same(f1, f2, (n - 1) as nat)
        &&& f1[n - 1].0@ == f2[n - 1].0@
        &&& ty_same(f1[n - 1].1, f2[n - 1].1)
    }
}

/// Whether two types are the same type.
pub fn ty_eq(a: &Ty, b: &Ty) -> (r: bool)
    ensures
        r == ty_same(*a, *b),
    decreases a,
{
    match (a, b) {
        (Ty::Int(x), Ty::Int(y)) => *x == *y,
        (Ty::Float(x), Ty::Float(y)) => *x == *y,
        (Ty::Bool, Ty::Bool) => true,
        (Ty::Unit, Ty::Unit) => true,
        (Ty::String, Ty::String) => true,
        (Ty::Str, Ty::Str) => true,
        (Ty::Ref { inner: x, mutable: m }, Ty::Ref { inner: y, mutable: n }) => *m == *n && ty_eq(
            x,
            y,
        ),
        (Ty::Box(x), Ty::Box(y)) => ty_eq(x, y),
        (Ty::Vec(x), Ty::Vec(y)) => ty_eq(x, y),
        (Ty::Slice(x), Ty::Slice(y)) => ty_eq(x, y),
        (Ty::Array(x, n), Ty::Array(y, m)) => *n == *m && ty_eq(x, y),
        (Ty::Struct { name: n1, fields: f1 }, Ty::Struct { name: n2, fields: f2 }) => {
            if !str_eq(n1.as_str(), n2.as_str()) {
                return false;
            }
            if f1.len() != f2.len() {
                return false;
            }
            let mut i: usize = 0;
            while i < f1.len()
                invariant
                    i <= f1@.len() == f2@.len(),
                    *a matches Ty::Struct { fields: fs, name: na } && fs == *f1 && na == *n1,
                    *b matches Ty::Struct { fields: gs, name: nb } && gs == *f2 && nb == *n2,
                    n1@ == n2@,
                    fields_same(f1@, f2@, i as nat),
                decreases f1@.len() - i,
            {
                proof {
                    assert(decreases_to!(*a => f1@[i as int].1));
                }
                if !str_eq(f1[i].0.as_str(), f2[i].0.as_str()) {
                    proof {
                        if fields_same(f1@, f2@, f1@.len()) {
                            lemma_fields_same_prefix(f1@, f2@, f1@.len(), (i + 1) as nat);
                        }
                    }
                    return false;
                }
                if !ty_eq(&f1[i].1, &f2[i].1) {
                    proof {
                        if fields_same(f1@, f2@, f1@.len()) {
                            lemma_fields_same_prefix(f1@, f2@, f1@.len(), (i + 1) as nat);
                        }
                    }
                    return false;
                }
                i = i + 1;
            }
            true
        },
        _ => false,
    }
}

proof fn lemma_fields_same_prefix(f1: Seq<(String, Ty)>, f2: Seq<(String, Ty)>, n: nat, m: nat)
    requires
        fields_same(f1, f2, n),
        m <= n <= f1.len(),
        n <= f2.len(),
    ensures
        fields_same(f1, f2, m),
    decreases n,
{
    if m < n {
        lemma_fields_same_prefix(f1, f2, (n - 1) as nat, m);
    }
}

/// Both operand types are the same integer kind or the same float kind.
pub open spec fn same_numeric(l: Ty, r: Ty) -> bool {
    match (l, r) {
        (Ty::Int(a), Ty::Int(b)) => a == b,
        (Ty::Float(a), Ty::Float(b)) => a == b,
        _ => false,
    }
}

/// "`<what>` `op` <requirement>, found `l` and `r`".
pub open spec fn operand_mismatch(
    what: Seq<char>,
    op: ast::BinOp,
    requirement: Seq<char>,
    l: Ty,
    r: Ty,
) -> Seq<char> {
    what + " `"@ + spec_binop_str(op) + "` "@ + requirement + ", found `"@ + l.spec_name()
        + "` and `"@ + r.spec_name() + "`"@
}

/// The type of a binary operation whose operands have types `l` and `r`
/// (after literal operands were coerced toward each other), or the message
/// that rejects it: arithmetic keeps the common numeric type, comparisons
/// and equality give `bool` (equality on any one type but `()`), `&&` and
/// `||` take and give `bool`.
pub open spec fn spec_binary_ty(op: ast::BinOp, l: Ty, r: Ty) -> Result<Ty, Seq<char>> {
    match op {
        ast::BinOp::Add | ast::BinOp::Sub | ast::BinOp::Mul | ast::BinOp::Div | ast::BinOp::Rem => {
            if same_numeric(l, r) {
                Ok(l)
            } else {
                Err(
                    operand_mismatch(
                        "binary operator"@,
                        op,
                        "requires both operands to be the same numeric type"@,
                        l,
                        r,
                    ),
                )
            }
        },
        ast::BinOp::Lt | ast::BinOp::Le | ast::BinOp::Gt | ast::BinOp::Ge => {
            if same_numeric(l, r) {
                Ok(Ty::Bool)
            } else {
                Err(
                    operand_mismatch(
                        "comparison operator"@,
                        op,
                        "requires both operands to be the same numeric type"@,
                        l,
                        r,
                    ),
                )
            }
        },
        ast::BinOp::Eq | ast::BinOp::Neq => {
            if !ty_same(l, r) {
                Err(
                    operand_mismatch(
                        "equality operator"@,
                        op,
                        "requires both operands to be the same type"@,
                        l,
                        r,
                    ),
                )
            } else if l is Unit {
                Err("equality operator `"@ + spec_binop_str(op) + "` cannot compare values of type `()`"@)
            } else {
                Ok(Ty::Bool)
            }
        },
        ast::BinOp::And | ast::BinOp::Or => {
            if l is Bool && r is Bool {
                Ok(Ty::Bool)
            } else {
                Err(
                    operand_mismatch(
                        "logical operator"@,
                        op,
                        "requires both operands to be `bool`"@,
                        l,
                        r,
                    ),
                )
            }
        },
    }
}

fn operand_mismatch_message(what: &str, op: ast::BinOp, requirement: &str, l: &Ty, r: &Ty) -> (s: String)
    ensures
        s@ == operand_mismatch(what@, op, requirement@, *l, *r),
{
    let s = concat_str(String::from_str(what), " `");
    let s = concat_str(s, binop_str(op));
    let s = concat_str(s, "` ");
    let s = concat_str(s, requirement);
    let s = concat_str(s, ", found `");
    let ln = l.name();
    let s = concat_str(s, ln.as_str());
    let s = concat_str(s, "` and `");
    let rn = r.name();
    let s = concat_str(s, rn.as_str());
    concat_str(s, "`")
}

fn same_numeric_exec(l: &Ty, r: &Ty) -> (b: bool)
    ensures
        b == same_numeric(*l, *r),
{
    match (l, r) {
        (Ty::Int(a), Ty::Int(b)) => *a == *b,
        (Ty::Float(a), Ty::Float(b)) => *a == *b,
        _ => false,
    }
}

/// The type of a binary operation on operands of the given types, or the
/// error, anchored at the operation's span, that rejects it.
pub fn binary_op_ty(op: ast::BinOp, l: &Ty, r: &Ty, span: Span) -> (res: Result<Ty, ParseError>)
    ensures
        ty_result_is(
            res,
            match spec_binary_ty(op, *l, *r) {
                Ok(t) => Ok(t),
                Err(m) => Err((m, span)),
            },
        ),
{
    match op {
        ast::BinOp::Add | ast::BinOp::Sub | ast::BinOp::Mul | ast::BinOp::Div | ast::BinOp::Rem => {
            match (l, r) {
                (Ty::Int(a), Ty::Int(b)) => {
                    if *a == *b {
                        return Ok(Ty::Int(*a));
                    }
                },
                (Ty::Float(a), Ty::Float(b)) => {
                    if *a == *b {
                        return Ok(Ty::Float(*a));
                    }
                },
                _ => {},
            }
            let m = operand_mismatch_message(
                "binary operator",
                op,
                "requires both operands to be the same numeric type",
                l,
                r,
            );
            Err(ParseError { message: m, span })
        },
        ast::BinOp::Lt | ast::BinOp::Le | ast::BinOp::Gt | ast::BinOp::Ge => {
            if same_numeric_exec(l, r) {
                Ok(Ty::Bool)
            } else {
                let m = operand_mismatch_message(
                    "comparison operator",
                    op,
                    "requires both operands to be the same numeric type",
                    l,
                    r,
                );
                Err(ParseError { message: m, span })
            }
        },
        ast::BinOp::Eq | ast::BinOp::Neq => {
            if !ty_eq(l, r) {
                let m = operand_mismatch_message(
                    "equality operator",
                    op,
                    "requires both operands to be the same type",
                    l,
                    r,
                );
                return Err(ParseError { message: m, span });
            }
            match l {
                Ty::Unit => {
                    let s = concat_str(String::from_str("equality operator `"), binop_str(op));
                    let m = concat_str(s, "` cannot compare values of type `()`");
                    Err(ParseError { message: m, span })
                },
                _ => Ok(Ty::Bool),
            }
        },
        ast::BinOp::And | ast::BinOp::Or => {
            match (l, r) {
                (Ty::Bool, Ty::Bool) => Ok(Ty::Bool),
                _ => {
                    let m = operand_mismatch_message(
                        "logical operator",
                        op,
                        "requires both operands to be `bool`",
                        l,
                        r,
                    );
                    Err(ParseError { message: m, span })
                },
            }
        },
    }
}

/// Whether an expression of type `current` can take type `target`, and if
/// so the spans of the expressions whose recorded type becomes `target`:
/// nothing when the types already agree; the `Vec::new()` placeholder
/// `Vec<()>` takes any `Vec` type; an unsuffixed integer literal takes an
/// integer kind that holds it, or a float kind; an unsuffixed float literal
/// takes a float kind; a negated unsuffixed literal likewise (an integer
/// one only for a signed kind holding its negation), recording the literal
/// and the negation. Suffixed literals keep their kind.
pub open spec fn spec_coercion(e: ast::Expr, current: Ty, target: Ty) -> Option<Seq<Span>> {
    if ty_same(current, target) {
        Some(Seq::empty())
    } else if current matches Ty::Vec(inner) && *inner is Unit && target is Vec {
        Some(seq![e.spec_span()])
    } else {
        match e {
            ast::Expr::LitInt(n, suffix, sp) => if suffix is Some {
                None
            } else {
                match target {
                    Ty::Int(k) => if k.spec_min() <= n <= k.spec_max() {
                        Some(seq![sp])
                    } else {
                        None
                    },
                    Ty::Float(_) => Some(seq![sp]),
                    _ => None,
                }
            },
            ast::Expr::LitFloat(_, suffix, sp) => if suffix is None && target is Float {
                Some(seq![sp])
            } else {
                None
            },
            ast::Expr::Unary { op: ast::UnOp::Neg, expr: inner, span } => match target {
                Ty::Int(k) => if k.spec_is_signed() {
                    match *inner {
                        ast::Expr::LitInt(n, None, isp) => if k.spec_min() <= -n <= k.spec_max() {
                            Some(seq![isp, span])
                        } else {
                            None
                        },
                        _ => None,
                    }
                } else {
                    None
                },
                Ty::Float(_) => match *inner {
                    ast::Expr::LitFloat(_, None, isp) => Some(seq![isp, span]),
                    ast::Expr::LitInt(_, None, isp) => Some(seq![isp, span]),
                    _ => None,
                },
                _ => None,
            },
            _ => None,
        }
    }
}

/// Try to give expression `e`, of type `current`, the type `target` (see
/// [`spec_coercion`]); on success, the spans whose recorded type becomes
/// `target`, in the order they are recorded.
pub fn try_coerce_to(e: &ast::Expr, current: &Ty, target: &Ty) -> (r: Option<Vec<Span>>)
    ensures
        match spec_coercion(*e, *current, *target) {
            Some(spans) => r matches Some(v) && v@ == spans,
            None => r is None,
        },
{
    if ty_eq(current, target) {
        return Some(Vec::new());
    }
    match (current, target) {
        (Ty::Vec(inner), Ty::Vec(_)) => {
            match **inner {
                Ty::Unit => {
                    let mut v: Vec<Span> = Vec::new();
                    v.push(e.span());
                    return Some(v);
                },
                _ => {},
            }
        },
        _ => {},
    }
    match e {
        ast::Expr::LitInt(n, suffix, sp) => {
            if suffix.is_some() {
                return None;
            }
            match target {
                Ty::Int(k) => {
                    if k.contains(*n as i128) {
                        let mut v: Vec<Span> = Vec::new();
                        v.push(*sp);
                        Some(v)
                    } else {
                        None
                    }
                },
                Ty::Float(_) => {
                    let mut v: Vec<Span> = Vec::new();
                    v.push(*sp);
                    Some(v)
                },
                _ => None,
            }
        },
        ast::Expr::LitFloat(_, suffix, sp) => {
            match (suffix, target) {
                (None, Ty::Float(_)) => {
                    let mut v: Vec<Span> = Vec::new();
                    v.push(*sp);
                    Some(v)
                },
                _ => None,
            }
        },
        ast::Expr::Unary { op: ast::UnOp::Neg, expr: inner, span } => {
            match target {
                Ty::Int(k) => {
                    if !k.is_signed() {
                        return None;
                    }
                    match &**inner {
                        ast::Expr::LitInt(n, None, isp) => {
                            let negated: i128 = -(*n as i128);
                            if k.contains(negated) {
                                let mut v: Vec<Span> = Vec::new();
                                v.push(*isp);
                                v.push(*span);
                                proof {
                                    assert(v@ =~= seq![*isp, *span]);
                                }
                                Some(v)
                            } else {
                                None
                            }
                        },
                        _ => None,
                    }
                },
                Ty::Float(_) => {
                    match &**inner {
                        ast::Expr::LitFloat(_, None, isp) | ast::Expr::LitInt(_, None, isp) => {
                            let mut v: Vec<Span> = Vec::new();
                            v.push(*isp);
                            v.push(*span);
                            proof {
                                assert(v@ =~= seq![*isp, *span]);
                            }
                            Some(v)
                        },
                        _ => None,
                    }
                },
                _ => None,
            }
        },
        _ => None,
    }
}

/// How the two operands of an arithmetic or comparison operator were
/// brought to a common type.
#[derive(Debug, PartialEq)]
pub enum Unified {
    /// The types already agree.
    Same,
    /// The right operand took the left operand's type; the spans whose
    /// recorded type changes.
    RhsCoerced(Vec<Span>),
    /// The left operand took the right operand's type; the spans whose
    /// recorded type changes.
    LhsCoerced(Vec<Span>),
    /// Neither operand could take the other's type.
    Apart,
}

/// Bring the operands to a common type when one side is a literal: the
/// right operand toward the left first, then the left toward the right.
pub open spec fn unified_is(r: Unified, lhs: ast::Expr, rhs: ast::Expr, lt: Ty, rt: Ty) -> bool {
    if ty_same(lt, rt) {
        r is Same
    } else {
        match spec_coercion(rhs, rt, lt) {
            Some(spans) => r matches Unified::RhsCoerced(v) && v@ == spans,
            None => match spec_coercion(lhs, lt, rt) {
                Some(spans) => r matches Unified::LhsCoerced(v) && v@ == spans,
                None => r is Apart,
            },
        }
    }
}

/// Try to bring the operands of a binary operator to a common numeric type
/// by coercing whichever side is a literal.
pub fn unify_numeric_operands(lhs: &ast::Expr, rhs: &ast::Expr, lt: &Ty, rt: &Ty) -> (r: Unified)
    ensures
        unified_is(r, *lhs, *rhs, *lt, *rt),
{
    if ty_eq(lt, rt) {
        return Unified::Same;
    }
    match try_coerce_to(rhs, rt, lt) {
        Some(v) => Unified::RhsCoerced(v),
        None => match try_coerce_to(lhs, lt, rt) {
            Some(v) => Unified::LhsCoerced(v),
            None => Unified::Apart,
        },
    }
}

/// The operand types a binary operator is judged on after unification.
pub open spec fn unified_types(u: Unified, lt: Ty, rt: Ty) -> (Ty, Ty) {
    match u {
        Unified::Same => (lt, lt),
        Unified::RhsCoerced(_) => (lt, lt),
        Unified::LhsCoerced(_) => (rt, rt),
        Unified::Apart => (lt, rt),
    }
}

/// Whether an operator's operands are first brought to a common numeric
/// type (arithmetic and ordering comparisons).
pub open spec fn unifies_operands(op: ast::BinOp) -> bool {
    !(op is Eq || op is Neq || op is And || op is Or)
}

/// Type a binary operation whose operands `lhs` and `rhs` were found to
/// have types `lt` and `rt`: arithmetic and ordering operands are first
/// unified through literal coercion, then the operator is judged on the
/// resulting types. Returns the operation's type or its error, and for
/// unified operators how the operands were brought together.
pub fn typecheck_binary(
    op: ast::BinOp,
    lhs: &ast::Expr,
    rhs: &ast::Expr,
    lt: &Ty,
    rt: &Ty,
    span: Span,
) -> (r: (Result<Ty, ParseError>, Option<Unified>))
    ensures
        unifies_operands(op) ==> (r.1 matches Some(u) && unified_is(u, *lhs, *rhs, *lt, *rt)
            && ty_result_is(
            r.0,
            match spec_binary_ty(op, unified_types(u, *lt, *rt).0, unified_types(u, *lt, *rt).1) {
                Ok(t) => Ok(t),
                Err(m) => Err((m, span)),
            },
        )),
        !unifies_operands(op) ==> r.1 is None && ty_result_is(
            r.0,
            match spec_binary_ty(op, *lt, *rt) {
                Ok(t) => Ok(t),
                Err(m) => Err((m, span)),
            },
        ),
{
    match op {
        ast::BinOp::Eq | ast::BinOp::Neq | ast::BinOp::And | ast::BinOp::Or => {
            (binary_op_ty(op, lt, rt, span), None)
        },
        _ => {
            let u = unify_numeric_operands(lhs, rhs, lt, rt);
            let res = match &u {
                Unified::Same | Unified::RhsCoerced(_) => binary_op_ty(op, lt, lt, span),
                Unified::LhsCoerced(_) => binary_op_ty(op, rt, rt, span),
                Unified::Apart => binary_op_ty(op, lt, rt, span),
            };
            (res, Some(u))
        },
    }
}

/// The kind of the existing borrow that refuses a new borrow of a binding
/// whose active borrows are `st`: a mutable borrow is refused by any
/// borrow (the most recent is named), a shared one by a mutable borrow.
pub open spec fn borrow_conflict(st: Seq<ActiveBorrow>, mutable: bool) -> Option<BorrowKind> {
    if mutable {
        if st.len() > 0 {
            Some(st.last().kind)
        } else {
            None
        }
    } else if has_mut(st) {
        Some(BorrowKind::Mut)
    } else {
        None
    }
}

/// How a borrow kind is named in messages.
pub open spec fn borrow_word(mutable: bool) -> Seq<char> {
    if mutable {
        "mutable"@
    } else {
        "immutable"@
    }
}

/// The message refusing a borrow of `name` that conflicts with an existing
/// borrow of kind `existing`.
pub open spec fn conflict_message(name: Seq<char>, mutable: bool, existing: BorrowKind) -> Seq<char> {
    "cannot borrow `"@ + name + "` as "@ + borrow_word(mutable)
        + " because it is already borrowed as "@ + borrow_word(existing == BorrowKind::Mut)
}

/// The message refusing `&mut` of a binding not declared `mut`.
pub open spec fn not_mut_message(name: Seq<char>) -> Seq<char> {
    "cannot borrow `"@ + name + "` as mutable; it is not declared as `mut`"@
}

/// A `&mut` borrow needs its target declared with `let mut`; parameters
/// and functions are not mutable.
pub fn check_mut_decl(decl: &BindingDecl, span: Span) -> (r: Result<(), ParseError>)
    ensures
        decl.kind == (BindingKind::Let { mutable: true }) ==> r is Ok,
        decl.kind != (BindingKind::Let { mutable: true }) ==> (r matches Err(e) && e.message@
            == not_mut_message(decl.name@) && e.span == span),
{
    match decl.kind {
        BindingKind::Let { mutable: true } => Ok(()),
        _ => {
            let s = concat_str(String::from_str("cannot borrow `"), decl.name.as_str());
            let m = concat_str(s, "` as mutable; it is not declared as `mut`");
            Err(ParseError { message: m, span })
        },
    }
}

/// Record a borrow of binding `target` (named `name`) taken at scope
/// `depth`, enforcing the aliasing rule; a conflict leaves the tracker
/// unchanged and is reported with both borrow kinds.
pub fn take_borrow(
    tracker: &mut BorrowTracker,
    target: BindingId,
    name: &str,
    mutable: bool,
    depth: u32,
    span: Span,
) -> (r: Result<(), ParseError>)
    requires
        old(tracker).wf(),
    ensures
        final(tracker).wf(),
        match borrow_conflict(old(tracker).stack_of(target.0), mutable) {
            Some(k) => {
                &&& r matches Err(e) && e.message@ == conflict_message(name@, mutable, k) && e.span
                    == span
                &&& forall|c: u32| #[trigger] final(tracker).stack_of(c) == old(tracker).stack_of(c)
            },
            None => {
                &&& r is Ok
                &&& final(tracker).stack_of(target.0) == old(tracker).stack_of(target.0).push(
                    ActiveBorrow {
                        kind: if mutable {
                            BorrowKind::Mut
                        } else {
                            BorrowKind::Shared
                        },
                        scope_depth: depth,
                        borrow_span: span,
                    },
                )
                &&& forall|c: u32|
                    c != target.0 ==> #[trigger] final(tracker).stack_of(c) == old(
                        tracker,
                    ).stack_of(c)
            },
        },
{
    let check = if mutable {
        tracker.try_take_mut(target, depth, span)
    } else {
        tracker.try_take_shared(target, depth, span)
    };
    match check {
        Ok(()) => {
            proof {
                if mutable {
                    assert(old(tracker).stack_of(target.0).push(
                        ActiveBorrow { kind: BorrowKind::Mut, scope_depth: depth, borrow_span: span },
                    ) =~= seq![
                        ActiveBorrow { kind: BorrowKind::Mut, scope_depth: depth, borrow_span: span },
                    ]);
                }
            }
            Ok(())
        },
        Err(conflict) => {
            let s = concat_str(String::from_str("cannot borrow `"), name);
            let s = concat_str(s, "` as ");
            let s = concat_str(s, if mutable { "mutable" } else { "immutable" });
            let s = concat_str(s, " because it is already borrowed as ");
            let existing = match conflict.existing_kind {
                BorrowKind::Shared => "immutable",
                BorrowKind::Mut => "mutable",
            };
            let m = concat_str(s, existing);
            Err(ParseError { message: m, span })
        },
    }
}

/// The struct a receiver type gives access to (itself, or behind a
/// reference).
pub open spec fn receiver_struct(t: Ty) -> Option<(String, Vec<(String, Ty)>)> {
    match t {
        Ty::Struct { name, fields } => Some((name, fields)),
        Ty::Ref { inner, .. } => match *inner {
            Ty::Struct { name, fields } => Some((name, fields)),
            _ => None,
        },
        _ => None,
    }
}

/// Position of the first field named `name`.
pub open spec fn field_index(fields: Seq<(String, Ty)>, name: Seq<char>) -> Option<int> {
    if exists|i: int| 0 <= i < fields.len() && #[trigger] fields[i].0@ == name {
        Some(
            choose|i: int|
                0 <= i < fields.len() && #[trigger] fields[i].0@ == name && forall|j: int|
                    0 <= j < i ==> #[trigger] fields[j].0@ != name,
        )
    } else {
        None
    }
}

/// The message refusing field access on a non-struct receiver type.
pub open spec fn non_struct_message(t: Ty) -> Seq<char> {
    match t {
        Ty::Ref { inner, .. } => "field access requires a struct receiver, found `&"@
            + inner.spec_name() + "`"@,
        _ => "field access requires a struct receiver, found `"@ + t.spec_name() + "`"@,
    }
}

/// The type of field `name` of a receiver of type `t` (a struct, or a
/// reference to one): the first field of that name. A receiver of another
/// type is refused at the receiver's span, a missing field at the access.
pub fn field_ty<'a>(t: &'a Ty, name: &str, receiver_span: Span, span: Span) -> (r: Result<&'a Ty, ParseError>)
    ensures
        match receiver_struct(*t) {
            None => r matches Err(e) && e.message@ == non_struct_message(*t) && e.span
                == receiver_span,
            Some((sname, fields)) => match field_index(fields@, name@) {
                Some(i) => r matches Ok(ft) && *ft == fields@[i].1,
                None => r matches Err(e) && e.message@ == "no field `"@ + name@ + "` on struct `"@
                    + sname@ + "`"@ && e.span == span,
            },
        },
{
    let (sname, fields) = match t {
        Ty::Struct { name, fields } => (name, fields),
        Ty::Ref { inner, .. } => match &**inner {
            Ty::Struct { name, fields } => (name, fields),
            other => {
                let s = concat_str(
                    String::from_str("field access requires a struct receiver, found `&"),
                    other.name().as_str(),
                );
                let m = concat_str(s, "`");
                proof {
                    assert(m@ == non_struct_message(*t));
                }
                return Err(ParseError { message: m, span: receiver_span });
            },
        },
        other => {
            let s = concat_str(
                String::from_str("field access requires a struct receiver, found `"),
                other.name().as_str(),
            );
            let m = concat_str(s, "`");
            return Err(ParseError { message: m, span: receiver_span });
        },
    };
    let mut i: usize = 0;
    while i < fields.len()
        invariant
            i <= fields@.len(),
            receiver_struct(*t) == Some((*sname, *fields)),
            forall|j: int| 0 <= j < i ==> #[trigger] fields@[j].0@ != name@,
        decreases fields@.len() - i,
    {
        if str_eq(fields[i].0.as_str(), name) {
            proof {
                let c = field_index(fields@, name@)->0;
                assert(c == i) by {
                    if c < i {
                        assert(fields@[c].0@ != name@);
                    } else if c > i {
                        assert(fields@[i as int].0@ != name@);
                    }
                }
            }
            return Ok(&fields[i].1);
        }
        i = i + 1;
    }
    let s = concat_str(String::from_str("no field `"), name);
    let s = concat_str(s, "` on struct `");
    let s = concat_str(s, sname.as_str());
    let m = concat_str(s, "`");
    Err(ParseError { message: m, span })
}

/// Direct assignment `name = ..` to binding `b` (declared as `decl`) is
/// allowed only for a `let mut` binding that is not currently borrowed.
pub fn check_assign_target(
    tracker: &BorrowTracker,
    b: BindingId,
    decl: &BindingDecl,
    name: &str,
    ident_span: Span,
) -> (r: Result<(), ParseError>)
    requires
        tracker.wf(),
    ensures
        decl.kind != (BindingKind::Let { mutable: true }) ==> (r matches Err(e) && e.message@
            == "cannot assign to immutable variable `"@ + name@ + "`"@ && e.span == ident_span),
        decl.kind == (BindingKind::Let { mutable: true }) && tracker.stack_of(b.0).len() > 0 ==> (
        r matches Err(e) && e.message@ == "cannot assign to `"@ + name@ + "` because it is borrowed"@
            && e.span == ident_span),
        decl.kind == (BindingKind::Let { mutable: true }) && tracker.stack_of(b.0).len() == 0
            ==> r is Ok,
{
    match decl.kind {
        BindingKind::Let { mutable: true } => {},
        _ => {
            let s = concat_str(String::from_str("cannot assign to immutable variable `"), name);
            return Err(ParseError { message: concat_str(s, "`"), span: ident_span });
        },
    }
    if tracker.is_borrowed(b) {
        let s = concat_str(String::from_str("cannot assign to `"), name);
        return Err(ParseError { message: concat_str(s, "` because it is borrowed"), span: ident_span });
    }
    Ok(())
}

/// Assignment through `*r`: the type written, which `r` of type `t` must
/// point to mutably. `&T` is refused at the dereference, a non-reference at
/// `r` itself.
pub fn deref_assign_ty<'a>(t: &'a Ty, deref_span: Span, inner_span: Span) -> (r: Result<&'a Ty, ParseError>)
    ensures
        match *t {
            Ty::Ref { inner, mutable: true } => r matches Ok(x) && *x == *inner,
            Ty::Ref { mutable: false, .. } => r matches Err(e) && e.message@
                == "cannot assign through `&T`; need `&mut T`"@ && e.span == deref_span,
            _ => r matches Err(e) && e.message@ == "cannot dereference value of type `"@
                + t.spec_name() + "`; expected a reference"@ && e.span == inner_span,
        },
{
    match t {
        Ty::Ref { inner, mutable: true } => Ok(&**inner),
        Ty::Ref { mutable: false, .. } => Err(
            ParseError {
                message: String::from_str("cannot assign through `&T`; need `&mut T`"),
                span: deref_span,
            },
        ),
        _ => {
            let s = concat_str(String::from_str("cannot dereference value of type `"), t.name().as_str());
            Err(ParseError { message: concat_str(s, "`; expected a reference"), span: inner_span })
        },
    }
}

/// Function signature: parameter types and return type.
#[derive(Debug, PartialEq)]
pub struct FnSig {
    /// Parameter types in declaration order.
    pub params: Vec<Ty>,
    /// Return type; `Ty::Unit` when the function has no `-> T`.
    pub ret: Ty,
}

/// Type information attached to a binding.
#[derive(Debug, PartialEq)]
pub enum BindingType {
    /// The binding holds a value of this type (let / param).
    Var(Ty),
    /// The binding is a function with this signature.
    Fn(FnSig),
}


/// The primitive type a single-segment path names, if any.
pub open spec fn prim_ty(name: Seq<char>) -> Option<Ty> {
    if name == "i8"@ {
        Some(Ty::Int(IntKind::I8))
    } else if name == "i16"@ {
        Some(Ty::Int(IntKind::I16))
    } else if name == "i32"@ {
        Some(Ty::Int(IntKind::I32))
    } else if name == "i64"@ {
        Some(Ty::Int(IntKind::I64))
    } else if name == "i128"@ {
        Some(Ty::Int(IntKind::I128))
    } else if name == "u8"@ {
        Some(Ty::Int(IntKind::U8))
    } else if name == "u16"@ {
        Some(Ty::Int(IntKind::U16))
    } else if name == "u32"@ {
        Some(Ty::Int(IntKind::U32))
    } else if name == "u64"@ {
        Some(Ty::Int(IntKind::U64))
    } else if name == "u128"@ {
        Some(Ty::Int(IntKind::U128))
    } else if name == "isize"@ {
        Some(Ty::Int(IntKind::ISize))
    } else if name == "usize"@ {
        Some(Ty::Int(IntKind::USize))
    } else if name == "f32"@ {
        Some(Ty::Float(FloatKind::F32))
    } else if name == "f64"@ {
        Some(Ty::Float(FloatKind::F64))
    } else if name == "bool"@ {
        Some(Ty::Bool)
    } else if name == "String"@ {
        Some(Ty::String)
    } else {
        None
    }
}

/// The type an annotation denotes, or the error message and span that
/// reject it. Only single-segment paths, `Box<T>` / `Vec<T>`, references,
/// shared slices, arrays and `()` are supported.
pub open spec fn spec_ty_from_ast(t: ast::Type) -> Result<Ty, (Seq<char>, Span)>
    decreases t,
{
    match t {
        ast::Type::Unit { .. } => Ok(Ty::Unit),
        ast::Type::Ref { inner, mutable, .. } => match spec_ty_from_ast(*inner) {
            Ok(i) => Ok(Ty::Ref { inner: Box::new(i), mutable }),
            Err(e) => Err(e),
        },
        ast::Type::Path { segments, span, .. } => if segments@.len() != 1 {
            Err(("multi-segment type paths are not supported in L1"@, span))
        } else {
            match prim_ty(segments@[0]@) {
                Some(ty) => Ok(ty),
                None => Err(("unknown type `"@ + segments@[0]@ + "`"@, span)),
            }
        },
        ast::Type::Generic { segments, args, span } => if segments@.len() != 1 || args@.len()
            != 1 {
            Err(("only single-segment generics with one type arg are supported"@, span))
        } else {
            match spec_ty_from_ast(args@[0]) {
                Err(e) => Err(e),
                Ok(inner) => if segments@[0]@ == "Box"@ {
                    Ok(Ty::Box(Box::new(inner)))
                } else if segments@[0]@ == "Vec"@ {
                    Ok(Ty::Vec(Box::new(inner)))
                } else {
                    Err(("unknown generic type `"@ + segments@[0]@ + "`"@, span))
                },
            }
        },
        ast::Type::Slice { inner, mutable, span } => if mutable {
            Err(
                (
                    "mutable slices are out of scope in M07.1 — only &[T] (shared) is supported"@,
                    span,
                ),
            )
        } else {
            match spec_ty_from_ast(*inner) {
                Ok(i) => Ok(Ty::Slice(Box::new(i))),
                Err(e) => Err(e),
            }
        },
        ast::Type::Array { inner, size, .. } => match spec_ty_from_ast(*inner) {
            Ok(i) => Ok(Ty::Array(Box::new(i), size)),
            Err(e) => Err(e),
        },
    }
}

/// The executable result agrees with the specified one.
pub open spec fn ty_result_is(r: Result<Ty, ParseError>, s: Result<Ty, (Seq<char>, Span)>) -> bool {
    match s {
        Ok(t) => r == Ok::<Ty, ParseError>(t),
        Err((m, sp)) => r matches Err(e) && e.message@ == m && e.span == sp,
    }
}

fn prim_ty_exec(name: &str) -> (r: Option<Ty>)
    ensures
        r == prim_ty(name@),
{
    if str_eq(name, "i8") {
        Some(Ty::Int(IntKind::I8))
    } else if str_eq(name, "i16") {
        Some(Ty::Int(IntKind::I16))
    } else if str_eq(name, "i32") {
        Some(Ty::Int(IntKind::I32))
    } else if str_eq(name, "i64") {
        Some(Ty::Int(IntKind::I64))
    } else if str_eq(name, "i128") {
        Some(Ty::Int(IntKind::I128))
    } else if str_eq(name, "u8") {
        Some(Ty::Int(IntKind::U8))
    } else if str_eq(name, "u16") {
        Some(Ty::Int(IntKind::U16))
    } else if str_eq(name, "u32") {
        Some(Ty::Int(IntKind::U32))
    } else if str_eq(name, "u64") {
        Some(Ty::Int(IntKind::U64))
    } else if str_eq(name, "u128") {
        Some(Ty::Int(IntKind::U128))
    } else if str_eq(name, "isize") {
        Some(Ty::Int(IntKind::ISize))
    } else if str_eq(name, "usize") {
        Some(Ty::Int(IntKind::USize))
    } else if str_eq(name, "f32") {
        Some(Ty::Float(FloatKind::F32))
    } else if str_eq(name, "f64") {
        Some(Ty::Float(FloatKind::F64))
    } else if str_eq(name, "bool") {
        Some(Ty::Bool)
    } else if str_eq(name, "String") {
        Some(Ty::String)
    } else {
        None
    }
}

fn type_error(message: String, span: Span) -> (r: Result<Ty, ParseError>)
    ensures
        r matches Err(e) && e.message == message && e.span == span,
{
    Err(ParseError { message, span })
}

/// Convert a type annotation to the type it denotes.
pub fn ty_from_ast(t: &ast::Type) -> (r: Result<Ty, ParseError>)
    ensures
        ty_result_is(r, spec_ty_from_ast(*t)),
    decreases t,
{
    match t {
        ast::Type::Unit { .. } => Ok(Ty::Unit),
        ast::Type::Ref { inner, mutable, .. } => {
            let inner_ty = ty_from_ast(inner)?;
            Ok(Ty::Ref { inner: Box::new(inner_ty), mutable: *mutable })
        },
        ast::Type::Path { segments, span, .. } => {
            if segments.len() != 1 {
                return type_error(
                    String::from_str("multi-segment type paths are not supported in L1"),
                    *span,
                );
            }
            match prim_ty_exec(segments[0].as_str()) {
                Some(ty) => Ok(ty),
                None => {
                    let m = concat_str(
                        concat_str(String::from_str("unknown type `"), segments[0].as_str()),
                        "`",
                    );
                    type_error(m, *span)
                },
            }
        },
        ast::Type::Generic { segments, args, span } => {
            if segments.len() != 1 || args.len() != 1 {
                return type_error(
                    String::from_str("only single-segment generics with one type arg are supported"),
                    *span,
                );
            }
            proof {
                assert(decreases_to!(*t => args@[0]));
            }
            let inner = ty_from_ast(&args[0])?;
            if str_eq(segments[0].as_str(), "Box") {
                Ok(Ty::Box(Box::new(inner)))
            } else if str_eq(segments[0].as_str(), "Vec") {
                Ok(Ty::Vec(Box::new(inner)))
            } else {
                let m = concat_str(
                    concat_str(String::from_str("unknown generic type `"), segments[0].as_str()),
                    "`",
                );
                type_error(m, *span)
            }
        },
        ast::Type::Slice { inner, mutable, span } => {
            if *mutable {
                return type_error(
                    String::from_str(
                        "mutable slices are out of scope in M07.1 — only &[T] (shared) is supported",
                    ),
                    *span,
                );
            }
            let inner_ty = ty_from_ast(inner)?;
            Ok(Ty::Slice(Box::new(inner_ty)))
        },
        ast::Type::Array { inner, size, .. } => {
            let inner_ty = ty_from_ast(inner)?;
            Ok(Ty::Array(Box::new(inner_ty), *size))
        },
    }
}

/// The spelling of a binary operator.
pub open spec fn spec_binop_str(op: ast::BinOp) -> Seq<char> {
    match op {
        ast::BinOp::Add => "+"@,
        ast::BinOp::Sub => "-"@,
        ast::BinOp::Mul => "*"@,
        ast::BinOp::Div => "/"@,
        ast::BinOp::Rem => "%"@,
        ast::BinOp::Lt => "<"@,
        ast::BinOp::Le => "<="@,
        ast::BinOp::Gt => ">"@,
        ast::BinOp::Ge => ">="@,
        ast::BinOp::Eq => "=="@,
        ast::BinOp::Neq => "!="@,
        ast::BinOp::And => "&&"@,
        ast::BinOp::Or => "||"@,
    }
}

/// The spelling of a binary operator.
pub fn binop_str(op: ast::BinOp) -> (s: &'static str)
    ensures
        s@ == spec_binop_str(op),
{
    match op {
        ast::BinOp::Add => "+",
        ast::BinOp::Sub => "-",
        ast::BinOp::Mul => "*",
        ast::BinOp::Div => "/",
        ast::BinOp::Rem => "%",
        ast::BinOp::Lt => "<",
        ast::BinOp::Le => "<=",
        ast::BinOp::Gt => ">",
        ast::BinOp::Ge => ">=",
        ast::BinOp::Eq => "==",
        ast::BinOp::Neq => "!=",
        ast::BinOp::And => "&&",
        ast::BinOp::Or => "||",
    }
}

/// The spelling of a unary operator.
pub open spec fn spec_unop_str(op: ast::UnOp) -> Seq<char> {
    match op {
        ast::UnOp::Neg => "-"@,
        ast::UnOp::Not => "!"@,
    }
}

/// The spelling of a unary operator.
pub fn unop_str(op: ast::UnOp) -> (s: &'static str)
    ensures
        s@ == spec_unop_str(op),
{
    match op {
        ast::UnOp::Neg => "-",
        ast::UnOp::Not => "!",
    }
}

} // verus!
