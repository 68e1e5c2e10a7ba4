use rustviz::ast::{BinOp, Expr, Type, UnOp};
use rustviz::span::{FileId, Span};
use rustviz::typeck::{
    binary_op_ty, binop_str, field_ty, try_coerce_to, ty_eq, ty_from_ast, typecheck_binary, unify_numeric_operands,
    unop_str, FloatKind, IntKind, Ty, Unified,
};

fn sp() -> Span {
    Span::new(0, 1, FileId(1))
}

fn path(name: &str) -> Type {
    Type::Path { segments: vec![name.to_owned()], type_args: vec![], span: sp() }
}

#[test]
fn ty_names_render_like_rust() {
    assert_eq!(Ty::Int(IntKind::U8).name(), "u8");
    assert_eq!(Ty::Float(FloatKind::F64).name(), "f64");
    assert_eq!(Ty::Bool.name(), "bool");
    assert_eq!(Ty::Unit.name(), "()");
    let r = Ty::Ref { inner: Box::new(Ty::Int(IntKind::I32)), mutable: false };
    assert_eq!(r.name(), "&i32");
    let m = Ty::Ref { inner: Box::new(Ty::Bool), mutable: true };
    assert_eq!(m.name(), "&mut bool");
    assert_eq!(Ty::Box(Box::new(Ty::Int(IntKind::I32))).name(), "Box<i32>");
    assert_eq!(Ty::Vec(Box::new(Ty::String)).name(), "Vec<String>");
    assert_eq!(Ty::Slice(Box::new(Ty::Int(IntKind::U8))).name(), "&[u8]");
    assert_eq!(Ty::Str.name(), "&str");
    assert_eq!(Ty::Array(Box::new(Ty::Int(IntKind::I32)), 3).name(), "[i32; 3]");
    assert_eq!(Ty::Array(Box::new(Ty::Bool), 0).name(), "[bool; 0]");
    assert_eq!(Ty::Array(Box::new(Ty::Bool), 1234567).name(), "[bool; 1234567]");
    let s = Ty::Struct { name: "Point".to_owned(), fields: vec![("x".to_owned(), Ty::Int(IntKind::I32))] };
    assert_eq!(s.name(), "Point");
}

#[test]
fn copy_rules() {
    assert!(Ty::Int(IntKind::I32).is_copy());
    assert!(Ty::Unit.is_copy());
    assert!(Ty::Ref { inner: Box::new(Ty::String), mutable: false }.is_copy());
    assert!(!Ty::Ref { inner: Box::new(Ty::Bool), mutable: true }.is_copy());
    assert!(!Ty::Box(Box::new(Ty::Bool)).is_copy());
    assert!(!Ty::Vec(Box::new(Ty::Bool)).is_copy());
    assert!(!Ty::String.is_copy());
    assert!(!Ty::Slice(Box::new(Ty::Bool)).is_copy());
    assert!(!Ty::Str.is_copy());
    assert!(Ty::Array(Box::new(Ty::Bool), 4).is_copy());
    assert!(!Ty::Array(Box::new(Ty::String), 4).is_copy());
    let copy_struct = Ty::Struct {
        name: "P".to_owned(),
        fields: vec![("x".to_owned(), Ty::Bool), ("y".to_owned(), Ty::Int(IntKind::U8))],
    };
    assert!(copy_struct.is_copy());
    let move_struct = Ty::Struct {
        name: "Q".to_owned(),
        fields: vec![("x".to_owned(), Ty::Bool), ("s".to_owned(), Ty::String)],
    };
    assert!(!move_struct.is_copy());
}

#[test]
fn annotations_to_types() {
    assert_eq!(ty_from_ast(&path("i32")), Ok(Ty::Int(IntKind::I32)));
    assert_eq!(ty_from_ast(&path("usize")), Ok(Ty::Int(IntKind::USize)));
    assert_eq!(ty_from_ast(&path("f32")), Ok(Ty::Float(FloatKind::F32)));
    assert_eq!(ty_from_ast(&path("String")), Ok(Ty::String));
    assert_eq!(ty_from_ast(&Type::Unit { span: sp() }), Ok(Ty::Unit));
    let r = Type::Ref { inner: Box::new(path("bool")), mutable: true, span: sp() };
    assert_eq!(ty_from_ast(&r), Ok(Ty::Ref { inner: Box::new(Ty::Bool), mutable: true }));
    let g = Type::Generic { segments: vec!["Vec".to_owned()], args: vec![path("u8")], span: sp() };
    assert_eq!(ty_from_ast(&g), Ok(Ty::Vec(Box::new(Ty::Int(IntKind::U8)))));
    let a = Type::Array { inner: Box::new(path("i64")), size: 4, span: sp() };
    assert_eq!(ty_from_ast(&a), Ok(Ty::Array(Box::new(Ty::Int(IntKind::I64)), 4)));
    let s = Type::Slice { inner: Box::new(path("i32")), mutable: false, span: sp() };
    assert_eq!(ty_from_ast(&s), Ok(Ty::Slice(Box::new(Ty::Int(IntKind::I32)))));
}

#[test]
fn annotation_errors() {
    let e = ty_from_ast(&path("u7")).unwrap_err();
    assert_eq!(e.message, "unknown type `u7`");
    assert_eq!(e.span, sp());
    let multi = Type::Path { segments: vec!["a".to_owned(), "b".to_owned()], type_args: vec![], span: sp() };
    assert_eq!(ty_from_ast(&multi).unwrap_err().message, "multi-segment type paths are not supported in L1");
    let g = Type::Generic { segments: vec!["Rc".to_owned()], args: vec![path("u8")], span: sp() };
    assert_eq!(ty_from_ast(&g).unwrap_err().message, "unknown generic type `Rc`");
    let g2 = Type::Generic { segments: vec!["Vec".to_owned()], args: vec![], span: sp() };
    assert_eq!(
        ty_from_ast(&g2).unwrap_err().message,
        "only single-segment generics with one type arg are supported"
    );
    let ms = Type::Slice { inner: Box::new(path("i32")), mutable: true, span: sp() };
    assert!(ty_from_ast(&ms).unwrap_err().message.contains("mutable slices are out of scope"));
    let inner_bad = Type::Ref { inner: Box::new(path("nope")), mutable: false, span: sp() };
    assert_eq!(ty_from_ast(&inner_bad).unwrap_err().message, "unknown type `nope`");
}

#[test]
fn operator_spellings() {
    assert_eq!(binop_str(BinOp::Add), "+");
    assert_eq!(binop_str(BinOp::Rem), "%");
    assert_eq!(binop_str(BinOp::Le), "<=");
    assert_eq!(binop_str(BinOp::Neq), "!=");
    assert_eq!(binop_str(BinOp::And), "&&");
    assert_eq!(binop_str(BinOp::Or), "||");
    assert_eq!(unop_str(UnOp::Neg), "-");
    assert_eq!(unop_str(UnOp::Not), "!");
}

fn point(x_ty: Ty) -> Ty {
    Ty::Struct {
        name: "Point".to_owned(),
        fields: vec![("x".to_owned(), x_ty), ("y".to_owned(), Ty::Int(IntKind::I32))],
    }
}

#[test]
fn type_equality_is_structural() {
    assert!(ty_eq(&Ty::Int(IntKind::I32), &Ty::Int(IntKind::I32)));
    assert!(!ty_eq(&Ty::Int(IntKind::I32), &Ty::Int(IntKind::I64)));
    assert!(ty_eq(&point(Ty::Int(IntKind::I32)), &point(Ty::Int(IntKind::I32))));
    assert!(!ty_eq(&point(Ty::Int(IntKind::I32)), &point(Ty::Bool)));
    let a = Ty::Ref { inner: Box::new(Ty::String), mutable: true };
    let b = Ty::Ref { inner: Box::new(Ty::String), mutable: false };
    assert!(!ty_eq(&a, &b));
    assert!(ty_eq(&Ty::Array(Box::new(Ty::Bool), 3), &Ty::Array(Box::new(Ty::Bool), 3)));
    assert!(!ty_eq(&Ty::Array(Box::new(Ty::Bool), 3), &Ty::Array(Box::new(Ty::Bool), 4)));
}

#[test]
fn binary_operator_types() {
    let i32t = Ty::Int(IntKind::I32);
    assert_eq!(binary_op_ty(BinOp::Add, &i32t, &Ty::Int(IntKind::I32), sp()), Ok(Ty::Int(IntKind::I32)));
    let f = Ty::Float(FloatKind::F64);
    assert_eq!(binary_op_ty(BinOp::Mul, &f, &Ty::Float(FloatKind::F64), sp()), Ok(Ty::Float(FloatKind::F64)));
    assert_eq!(binary_op_ty(BinOp::Lt, &i32t, &Ty::Int(IntKind::I32), sp()), Ok(Ty::Bool));
    assert_eq!(binary_op_ty(BinOp::Eq, &Ty::String, &Ty::String, sp()), Ok(Ty::Bool));
    assert_eq!(binary_op_ty(BinOp::And, &Ty::Bool, &Ty::Bool, sp()), Ok(Ty::Bool));
}

#[test]
fn binary_operator_type_errors() {
    let e = binary_op_ty(BinOp::Add, &Ty::Int(IntKind::I32), &Ty::Int(IntKind::I64), sp()).unwrap_err();
    assert_eq!(
        e.message,
        "binary operator `+` requires both operands to be the same numeric type, found `i32` and `i64`"
    );
    assert_eq!(e.span, sp());
    let e = binary_op_ty(BinOp::Le, &Ty::Bool, &Ty::Bool, sp()).unwrap_err();
    assert_eq!(
        e.message,
        "comparison operator `<=` requires both operands to be the same numeric type, found `bool` and `bool`"
    );
    let e = binary_op_ty(BinOp::Neq, &Ty::Bool, &Ty::Int(IntKind::U8), sp()).unwrap_err();
    assert_eq!(
        e.message,
        "equality operator `!=` requires both operands to be the same type, found `bool` and `u8`"
    );
    let e = binary_op_ty(BinOp::Eq, &Ty::Unit, &Ty::Unit, sp()).unwrap_err();
    assert_eq!(e.message, "equality operator `==` cannot compare values of type `()`");
    let e = binary_op_ty(BinOp::Or, &Ty::Bool, &Ty::Int(IntKind::I32), sp()).unwrap_err();
    assert_eq!(
        e.message,
        "logical operator `||` requires both operands to be `bool`, found `bool` and `i32`"
    );
}

fn at(start: u32, end: u32) -> Span {
    Span::new(start, end, FileId(1))
}

fn neg(inner: Expr, span: Span) -> Expr {
    Expr::Unary { op: UnOp::Neg, expr: Box::new(inner), span }
}

#[test]
fn literal_coercion() {
    let i64t = Ty::Int(IntKind::I64);
    let u8t = Ty::Int(IntKind::U8);
    let lit = Expr::LitInt(300, None, at(4, 7));
    assert_eq!(try_coerce_to(&lit, &i64t, &Ty::Int(IntKind::U16)), Some(vec![at(4, 7)]));
    assert_eq!(try_coerce_to(&lit, &i64t, &u8t), None);
    assert_eq!(try_coerce_to(&lit, &i64t, &Ty::Float(FloatKind::F32)), Some(vec![at(4, 7)]));
    let suffixed = Expr::LitInt(3, Some(IntKind::U8), at(0, 3));
    assert_eq!(try_coerce_to(&suffixed, &u8t, &Ty::Int(IntKind::U16)), None);
    assert_eq!(try_coerce_to(&suffixed, &u8t, &Ty::Int(IntKind::U8)), Some(vec![]));
    let fl = Expr::LitFloat("1.5".to_owned(), None, at(0, 3));
    assert_eq!(try_coerce_to(&fl, &Ty::Float(FloatKind::F64), &Ty::Float(FloatKind::F32)), Some(vec![at(0, 3)]));
    assert_eq!(try_coerce_to(&fl, &Ty::Float(FloatKind::F64), &Ty::Int(IntKind::I32)), None);
}

#[test]
fn negated_literal_coercion() {
    let i64t = Ty::Int(IntKind::I64);
    let m128 = neg(Expr::LitInt(128, None, at(1, 4)), at(0, 4));
    assert_eq!(try_coerce_to(&m128, &i64t, &Ty::Int(IntKind::I8)), Some(vec![at(1, 4), at(0, 4)]));
    let m129 = neg(Expr::LitInt(129, None, at(1, 4)), at(0, 4));
    assert_eq!(try_coerce_to(&m129, &i64t, &Ty::Int(IntKind::I8)), None);
    assert_eq!(try_coerce_to(&m128, &i64t, &Ty::Int(IntKind::U8)), None);
    assert_eq!(
        try_coerce_to(&m128, &i64t, &Ty::Float(FloatKind::F64)),
        Some(vec![at(1, 4), at(0, 4)])
    );
}

#[test]
fn vec_placeholder_takes_the_annotated_element_type() {
    let placeholder = Ty::Vec(Box::new(Ty::Unit));
    let target = Ty::Vec(Box::new(Ty::Int(IntKind::I32)));
    let call = Expr::Ident("v".to_owned(), at(8, 18));
    assert_eq!(try_coerce_to(&call, &placeholder, &target), Some(vec![at(8, 18)]));
    let boxed = Ty::Box(Box::new(Ty::Int(IntKind::I32)));
    assert_eq!(try_coerce_to(&call, &placeholder, &boxed), None);
}

#[test]
fn operands_unify_toward_the_typed_side() {
    let x = Expr::Ident("x".to_owned(), at(0, 1));
    let one = Expr::LitInt(1, None, at(4, 5));
    let u8t = Ty::Int(IntKind::U8);
    let i64t = Ty::Int(IntKind::I64);
    assert_eq!(unify_numeric_operands(&x, &one, &u8t, &i64t), Unified::RhsCoerced(vec![at(4, 5)]));
    assert_eq!(unify_numeric_operands(&one, &x, &i64t, &u8t), Unified::LhsCoerced(vec![at(4, 5)]));
    assert_eq!(unify_numeric_operands(&x, &x, &u8t, &Ty::Int(IntKind::U8)), Unified::Same);
    assert_eq!(unify_numeric_operands(&x, &x, &u8t, &i64t), Unified::Apart);
}

#[test]
fn typecheck_binary_coerces_then_judges() {
    let x = Expr::Ident("x".to_owned(), at(0, 1));
    let big = Expr::LitInt(1000, None, at(4, 8));
    let u8t = Ty::Int(IntKind::U8);
    let i64t = Ty::Int(IntKind::I64);
    let (r, u) = typecheck_binary(BinOp::Add, &x, &Expr::LitInt(7, None, at(4, 5)), &u8t, &i64t, at(0, 5));
    assert_eq!(r, Ok(Ty::Int(IntKind::U8)));
    assert_eq!(u, Some(Unified::RhsCoerced(vec![at(4, 5)])));
    let (r, u) = typecheck_binary(BinOp::Lt, &x, &big, &u8t, &i64t, at(0, 8));
    assert_eq!(
        r.unwrap_err().message,
        "comparison operator `<` requires both operands to be the same numeric type, found `u8` and `i64`"
    );
    assert_eq!(u, Some(Unified::Apart));
    let (r, u) = typecheck_binary(BinOp::Eq, &x, &big, &u8t, &i64t, at(0, 8));
    assert_eq!(
        r.unwrap_err().message,
        "equality operator `==` requires both operands to be the same type, found `u8` and `i64`"
    );
    assert_eq!(u, None);
}

#[test]
fn field_access_types() {
    let p = point(Ty::Bool);
    assert_eq!(field_ty(&p, "x", at(0, 1), at(0, 3)), Ok(&Ty::Bool));
    assert_eq!(field_ty(&p, "y", at(0, 1), at(0, 3)), Ok(&Ty::Int(IntKind::I32)));
    let r = Ty::Ref { inner: Box::new(point(Ty::Bool)), mutable: false };
    assert_eq!(field_ty(&r, "x", at(0, 1), at(0, 3)), Ok(&Ty::Bool));
    let e = field_ty(&p, "z", at(0, 1), at(0, 3)).unwrap_err();
    assert_eq!(e.message, "no field `z` on struct `Point`");
    assert_eq!(e.span, at(0, 3));
    let e = field_ty(&Ty::Int(IntKind::U8), "x", at(0, 1), at(0, 3)).unwrap_err();
    assert_eq!(e.message, "field access requires a struct receiver, found `u8`");
    assert_eq!(e.span, at(0, 1));
    let rb = Ty::Ref { inner: Box::new(Ty::Bool), mutable: true };
    let e = field_ty(&rb, "x", at(0, 1), at(0, 3)).unwrap_err();
    assert_eq!(e.message, "field access requires a struct receiver, found `&bool`");
}
