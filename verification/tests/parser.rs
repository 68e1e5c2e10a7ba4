use rustviz::ast::{BinOp, Expr, Item, ParamKind, Program, Stmt, Type, UnOp};
use rustviz::error::ParseError;
use rustviz::parser::{parse, parse_tokens};
use rustviz::span::{FileId, SourceMap, Span};
use rustviz::token::{Token, TokenKind};

fn parse_src(src: &str) -> (Result<Program, ParseError>, FileId) {
    let mut sm = SourceMap::new();
    let f = sm.add("editor.rs".to_owned(), src.to_owned());
    (parse(f, &sm), f)
}

fn program(src: &str) -> Program {
    parse_src(src).0.expect("parses")
}

fn parse_err(src: &str) -> ParseError {
    parse_src(src).0.expect_err("fails to parse")
}

/// The initializer of the `n`-th statement (a `let`) of the first function.
fn let_init(p: &Program, n: usize) -> &Expr {
    match &p.items[0] {
        Item::Fn(f) => match &f.body.stmts[n] {
            Stmt::Let(l) => &l.init,
            other => panic!("not a let: {other:?}"),
        },
        other => panic!("not a fn: {other:?}"),
    }
}

#[test]
fn parses_minimal_program() {
    let (r, f) = parse_src("fn main() { let x = 5; }");
    let p = r.unwrap();
    assert_eq!(p.items.len(), 1);
    assert_eq!(p.span, Span::new(0, 24, f));
    match &p.items[0] {
        Item::Fn(decl) => {
            assert_eq!(decl.name, "main");
            assert!(decl.params.is_empty());
            assert!(decl.return_ty.is_none());
            assert_eq!(decl.body.stmts.len(), 1);
            assert!(decl.body.tail.is_none());
            match &decl.body.stmts[0] {
                Stmt::Let(l) => {
                    assert_eq!(l.name, "x");
                    assert!(!l.mutable);
                    assert_eq!(l.init, Expr::LitInt(5, None, Span::new(20, 21, f)));
                    assert_eq!(l.span, Span::new(12, 22, f));
                }
                other => panic!("unexpected {other:?}"),
            }
        }
        other => panic!("unexpected {other:?}"),
    }
}

#[test]
fn empty_input_is_an_empty_program() {
    let (r, f) = parse_src("");
    let p = r.unwrap();
    assert!(p.items.is_empty());
    assert_eq!(p.span, Span::new(0, 0, f));
}

#[test]
fn multiplication_binds_tighter_than_addition() {
    let p = program("fn main() { let x = 1 + 2 * 3; }");
    match let_init(&p, 0) {
        Expr::Binary { op: BinOp::Add, lhs, rhs, .. } => {
            assert!(matches!(**lhs, Expr::LitInt(1, None, _)));
            assert!(matches!(**rhs, Expr::Binary { op: BinOp::Mul, .. }));
        }
        other => panic!("unexpected {other:?}"),
    }
}

#[test]
fn binary_operators_of_equal_power_associate_left() {
    let p = program("fn main() { let x = 1 - 2 - 3; }");
    match let_init(&p, 0) {
        Expr::Binary { op: BinOp::Sub, lhs, rhs, .. } => {
            assert!(matches!(**lhs, Expr::Binary { op: BinOp::Sub, .. }));
            assert!(matches!(**rhs, Expr::LitInt(3, None, _)));
        }
        other => panic!("unexpected {other:?}"),
    }
}

#[test]
fn comparison_binds_tighter_than_logic() {
    let p = program("fn main() { let b = 1 < 2 && 3 == 4 || true; }");
    match let_init(&p, 0) {
        Expr::Binary { op: BinOp::Or, lhs, .. } => match &**lhs {
            Expr::Binary { op: BinOp::And, lhs, rhs, .. } => {
                assert!(matches!(**lhs, Expr::Binary { op: BinOp::Lt, .. }));
                assert!(matches!(**rhs, Expr::Binary { op: BinOp::Eq, .. }));
            }
            other => panic!("unexpected {other:?}"),
        },
        other => panic!("unexpected {other:?}"),
    }
}

#[test]
fn prefix_operators_bind_tighter_than_binary() {
    let p = program("fn main() { let x = -a * *b; }");
    match let_init(&p, 0) {
        Expr::Binary { op: BinOp::Mul, lhs, rhs, .. } => {
            assert!(matches!(**lhs, Expr::Unary { op: UnOp::Neg, .. }));
            assert!(matches!(**rhs, Expr::Deref { .. }));
        }
        other => panic!("unexpected {other:?}"),
    }
}

#[test]
fn postfix_chain_of_field_method_index_and_call() {
    let (r, f) = parse_src("fn main() { let x = v.len().max(w[0]).f; }");
    let p = r.unwrap();
    match let_init(&p, 0) {
        Expr::FieldAccess { receiver, name, span } => {
            assert_eq!(name, "f");
            assert_eq!(*span, Span::new(20, 39, f));
            match &**receiver {
                Expr::MethodCall { name, args, .. } => {
                    assert_eq!(name, "max");
                    assert_eq!(args.len(), 1);
                    assert!(matches!(args[0], Expr::Index { .. }));
                }
                other => panic!("unexpected {other:?}"),
            }
        }
        other => panic!("unexpected {other:?}"),
    }
}

#[test]
fn index_accepts_all_range_forms() {
    let p = program("fn main() { let a = s[..]; let b = s[1..]; let c = s[..2]; let d = s[1..2]; }");
    let range_of = |n: usize| match let_init(&p, n) {
        Expr::Index { index, .. } => match &**index {
            Expr::Range { start, end, .. } => (start.is_some(), end.is_some()),
            other => panic!("unexpected {other:?}"),
        },
        other => panic!("unexpected {other:?}"),
    };
    assert_eq!(range_of(0), (false, false));
    assert_eq!(range_of(1), (true, false));
    assert_eq!(range_of(2), (false, true));
    assert_eq!(range_of(3), (true, true));
}

#[test]
fn standalone_range_is_rejected() {
    let e = parse_err("fn main() { let r = 1..3; }");
    assert_eq!(e.message, "expected `;`, found `..`");
}

#[test]
fn missing_initializer_is_a_parse_error() {
    let (r, f) = parse_src("fn main() { let x = ; }");
    let e = r.unwrap_err();
    assert_eq!(e.message, "expected expression, found `;`");
    assert_eq!(e.span, Span::new(20, 21, f));
    assert!(e.span.end > e.span.start);
}

#[test]
fn end_of_input_error_points_at_end_of_file() {
    let (r, f) = parse_src("fn main() {");
    let e = r.unwrap_err();
    assert_eq!(e.message, "expected expression, found end of input");
    assert_eq!(e.span, Span::new(11, 11, f));
}

#[test]
fn top_level_expression_is_not_an_item() {
    let e = parse_err("let x = 1;");
    assert_eq!(e.message, "expected an item (`fn`, `struct`, or `impl`), found `let`");
}

#[test]
fn struct_literal_not_taken_in_if_condition() {
    let p = program("fn main() { if x { 1 } else { 2 } }");
    match &p.items[0] {
        Item::Fn(f) => match f.body.tail.as_deref() {
            Some(Expr::If { cond, else_block, .. }) => {
                assert!(matches!(**cond, Expr::Ident(ref n, _) if n == "x"));
                assert!(else_block.is_some());
            }
            other => panic!("unexpected {other:?}"),
        },
        other => panic!("unexpected {other:?}"),
    }
}

#[test]
fn struct_literal_in_parentheses_inside_if_condition() {
    let p = program("fn main() { if (P { x: 1 }).x > 0 { } }");
    match &p.items[0] {
        Item::Fn(f) => match f.body.tail.as_deref() {
            Some(Expr::If { cond, .. }) => match &**cond {
                Expr::Binary { lhs, .. } => match &**lhs {
                    Expr::FieldAccess { receiver, .. } => {
                        assert!(matches!(&**receiver, Expr::Paren { inner, .. }
                            if matches!(**inner, Expr::StructLit { .. })));
                    }
                    other => panic!("unexpected {other:?}"),
                },
                other => panic!("unexpected {other:?}"),
            },
            other => panic!("unexpected {other:?}"),
        },
        other => panic!("unexpected {other:?}"),
    }
}

#[test]
fn struct_declaration_and_literal_with_shorthand() {
    let p = program("struct P { x: i32, y: i32 } fn main() { let y = 2; let p = P { x: 1, y }; }");
    match &p.items[0] {
        Item::Struct(d) => {
            assert_eq!(d.name, "P");
            assert_eq!(d.fields.len(), 2);
            assert_eq!(d.fields[1].name, "y");
        }
        other => panic!("unexpected {other:?}"),
    }
    match &p.items[1] {
        Item::Fn(f) => match &f.body.stmts[1] {
            Stmt::Let(l) => match &l.init {
                Expr::StructLit { path, fields, .. } => {
                    assert_eq!(path, &vec!["P".to_owned()]);
                    assert!(fields[0].value.is_some());
                    assert!(fields[1].value.is_none());
                }
                other => panic!("unexpected {other:?}"),
            },
            other => panic!("unexpected {other:?}"),
        },
        other => panic!("unexpected {other:?}"),
    }
}

#[test]
fn duplicate_struct_field_is_rejected() {
    let (r, f) = parse_src("struct P { x: i32, x: bool }");
    let e = r.unwrap_err();
    assert_eq!(e.message, "duplicate field `x` in struct `P`");
    assert_eq!(e.span, Span::new(19, 20, f));
}

#[test]
fn empty_struct_is_rejected() {
    let (r, f) = parse_src("struct E { }");
    let e = r.unwrap_err();
    assert_eq!(e.message, "structs in M07.4 must have at least one field");
    assert_eq!(e.span, Span::new(0, 12, f));
}

#[test]
fn impl_block_with_receivers() {
    let p = program("impl P { fn a(self) {} fn b(&self, n: u8) {} fn c(&mut self) {} }");
    match &p.items[0] {
        Item::Impl(b) => {
            assert_eq!(b.ty_name, "P");
            let kinds: Vec<ParamKind> = b.items.iter().map(|f| f.params[0].kind).collect();
            assert_eq!(kinds, vec![ParamKind::SelfOwned, ParamKind::SelfShared, ParamKind::SelfMut]);
            match &b.items[1].params[0].ty {
                Type::Ref { inner, mutable: false, .. } => match &**inner {
                    Type::Path { segments, .. } => assert_eq!(segments, &vec!["__SelfPlaceholder".to_owned()]),
                    other => panic!("unexpected {other:?}"),
                },
                other => panic!("unexpected {other:?}"),
            }
            assert_eq!(b.items[1].params[1].name, "n");
        }
        other => panic!("unexpected {other:?}"),
    }
}

#[test]
fn self_after_first_parameter_is_rejected() {
    let e = parse_err("impl P { fn a(n: u8, self) {} }");
    assert_eq!(e.message, "`self` parameter must be the first parameter");
}

#[test]
fn parses_type_annotations() {
    let p = program("fn f(a: [i32; 3], b: &[u8], c: &mut Vec<i32>, d: Box<bool>, e: W<i32>, g: ()) {}");
    match &p.items[0] {
        Item::Fn(f) => {
            assert!(matches!(f.params[0].ty, Type::Array { size: 3, .. }));
            assert!(matches!(f.params[1].ty, Type::Slice { mutable: false, .. }));
            match &f.params[2].ty {
                Type::Ref { inner, mutable: true, .. } => assert!(matches!(**inner, Type::Generic { .. })),
                other => panic!("unexpected {other:?}"),
            }
            assert!(matches!(f.params[3].ty, Type::Generic { .. }));
            match &f.params[4].ty {
                Type::Path { segments, type_args, .. } => {
                    assert_eq!(segments, &vec!["W".to_owned()]);
                    assert_eq!(type_args.len(), 1);
                }
                other => panic!("unexpected {other:?}"),
            }
            assert!(matches!(f.params[5].ty, Type::Unit { .. }));
        }
        other => panic!("unexpected {other:?}"),
    }
}

#[test]
fn negative_array_size_is_rejected() {
    let e = parse_err("fn f(a: [i32; x]) {}");
    assert_eq!(e.message, "array size must be a non-negative integer literal");
}

#[test]
fn paths_and_turbofish() {
    let p = program("fn main() { let v = Vec::new(); let w = id::<bool>(true); let s = W::<i32> { v: 5 }; }");
    match let_init(&p, 0) {
        Expr::Call { callee, .. } => match &**callee {
            Expr::Path { segments, type_args, .. } => {
                assert_eq!(segments, &vec!["Vec".to_owned(), "new".to_owned()]);
                assert!(type_args.is_empty());
            }
            other => panic!("unexpected {other:?}"),
        },
        other => panic!("unexpected {other:?}"),
    }
    match let_init(&p, 1) {
        Expr::Call { callee, .. } => assert!(matches!(&**callee, Expr::Path { type_args, .. } if type_args.len() == 1)),
        other => panic!("unexpected {other:?}"),
    }
    assert!(matches!(let_init(&p, 2), Expr::StructLit { type_args, .. } if type_args.len() == 1));
}

#[test]
fn array_literals_allow_trailing_comma() {
    let p = program("fn main() { let a = [1, 2, 3,]; let b = []; }");
    assert!(matches!(let_init(&p, 0), Expr::ArrayLit { elements, .. } if elements.len() == 3));
    assert!(matches!(let_init(&p, 1), Expr::ArrayLit { elements, .. } if elements.is_empty()));
}

#[test]
fn assignment_and_tail_expression() {
    let p = program("fn main() -> i32 { let mut x = 1; x = 2; *r = 3; x }");
    match &p.items[0] {
        Item::Fn(f) => {
            assert!(f.return_ty.is_some());
            assert!(matches!(f.body.stmts[1], Stmt::Assign { .. }));
            assert!(matches!(&f.body.stmts[2], Stmt::Assign { lhs: Expr::Deref { .. }, .. }));
            assert!(matches!(f.body.tail.as_deref(), Some(Expr::Ident(n, _)) if n == "x"));
        }
        other => panic!("unexpected {other:?}"),
    }
}

#[test]
fn missing_semicolon_between_statements() {
    let e = parse_err("fn main() { let x = 1; x y }");
    assert_eq!(e.message, "expected `;`, `=`, or `}`, found identifier");
}

#[test]
fn parse_tokens_uses_source_length_for_end_of_input() {
    let mut sm = SourceMap::new();
    let f = sm.add("t.rs".to_owned(), "fn".to_owned());
    let tokens = vec![
        Token { kind: TokenKind::Fn, span: Span::new(0, 2, f) },
        Token { kind: TokenKind::Eof, span: Span::new(2, 2, f) },
    ];
    let e = parse_tokens(tokens, f, &sm).unwrap_err();
    assert_eq!(e.message, "expected function name, found end of input");
    assert_eq!(e.span, Span::new(2, 2, f));
}

#[test]
fn unknown_file_is_an_error() {
    let sm = SourceMap::new();
    let e = parse(FileId(3), &sm).unwrap_err();
    assert_eq!(e.message, "file id 3 not found in source map");
}

#[test]
fn lexer_errors_come_through_parse() {
    let e = parse_err("fn main() { let s = \"abc; }");
    assert_eq!(e.message, "unterminated string literal");
}

#[test]
fn generic_functions_and_bounds() {
    let p = program("fn id<T, U: Show>(x: T) -> T { x }");
    match &p.items[0] {
        Item::Fn(f) => {
            assert_eq!(f.type_params.len(), 2);
            assert_eq!(f.type_params[0].name, "T");
            assert!(f.type_params[0].bound.is_none());
            assert_eq!(f.type_params[1].bound.as_deref(), Some("Show"));
        }
        other => panic!("unexpected {other:?}"),
    }
}

#[test]
fn block_statement_needs_a_semicolon() {
    let e = parse_err("fn main() { { let a = 1; } let z = 2; }");
    assert_eq!(e.message, "expected `;`, `=`, or `}`, found `let`");
}

/// Every node of a parsed program has a non-empty span.
fn check_expr(e: &Expr) {
    let s = e.span();
    assert!(s.start < s.end, "empty span on {e:?}");
    match e {
        Expr::Unary { expr, .. } => check_expr(expr),
        Expr::Binary { lhs, rhs, .. } => {
            check_expr(lhs);
            check_expr(rhs);
        }
        Expr::Call { callee, args, .. } => {
            check_expr(callee);
            args.iter().for_each(check_expr);
        }
        Expr::MethodCall { receiver, args, .. } => {
            check_expr(receiver);
            args.iter().for_each(check_expr);
        }
        Expr::Index { receiver, index, .. } => {
            check_expr(receiver);
            check_expr(index);
        }
        Expr::FieldAccess { receiver, .. } => check_expr(receiver),
        Expr::Paren { inner, .. } | Expr::Borrow { inner, .. } | Expr::Deref { inner, .. } => {
            check_expr(inner)
        }
        Expr::ArrayLit { elements, .. } => elements.iter().for_each(check_expr),
        Expr::Block(b) => check_block(b),
        Expr::If { cond, then_block, else_block, .. } => {
            check_expr(cond);
            check_block(then_block);
            if let Some(b) = else_block {
                check_block(b);
            }
        }
        Expr::StructLit { fields, .. } => {
            for f in fields {
                assert!(f.span.start < f.span.end);
                if let Some(v) = &f.value {
                    check_expr(v);
                }
            }
        }
        Expr::Range { start, end, .. } => {
            if let Some(x) = start {
                check_expr(x);
            }
            if let Some(x) = end {
                check_expr(x);
            }
        }
        _ => {}
    }
}

fn check_block(b: &rustviz::ast::Block) {
    assert!(b.span.start < b.span.end);
    for st in &b.stmts {
        match st {
            Stmt::Let(l) => {
                assert!(l.span.start < l.span.end);
                check_expr(&l.init);
            }
            Stmt::Expr(e) => check_expr(e),
            Stmt::Assign { lhs, rhs, span } => {
                assert!(span.start < span.end);
                check_expr(lhs);
                check_expr(rhs);
            }
        }
    }
    if let Some(t) = &b.tail {
        check_expr(t);
    }
}

#[test]
fn every_node_has_a_nonempty_span() {
    let p = program(
        "fn main() { let v = [1, 2]; let s = &v[..]; let p = P { x: 1, y }; if a < b { f(-x, !y) } else { (p.x) }; let z = *r + v.len(); }",
    );
    assert!(p.span.start < p.span.end);
    match &p.items[0] {
        Item::Fn(f) => {
            assert!(f.span.start < f.span.end);
            check_block(&f.body);
        }
        other => panic!("unexpected {other:?}"),
    }
}
