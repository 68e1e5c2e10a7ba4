use rustviz::ast::Program;
use rustviz::error::ParseError;
use rustviz::parser::parse;
use rustviz::resolve::{resolve, BindingId, BindingKind, Resolution};
use rustviz::span::{SourceMap, Span};

fn parsed(src: &str) -> Program {
    let mut sm = SourceMap::new();
    let f = sm.add("editor.rs".to_owned(), src.to_owned());
    parse(f, &sm).expect("parses")
}

fn resolved(src: &str) -> Resolution {
    resolve(&parsed(src)).expect("resolves")
}

fn resolve_err(src: &str) -> ParseError {
    resolve(&parsed(src)).expect_err("fails to resolve")
}

fn key(s: Span) -> (u32, u32, u32) {
    (s.start, s.end, s.file.0)
}

#[test]
fn let_and_use() {
    let r = resolved("fn main() { let x = 5; let y = x; }");
    // main, x, y
    assert_eq!(r.bindings.len(), 3);
    assert_eq!(r.bindings[&0].name, "main");
    assert_eq!(r.bindings[&0].kind, BindingKind::Fn);
    assert_eq!(r.bindings[&1].name, "x");
    assert_eq!(r.bindings[&1].kind, BindingKind::Let { mutable: false });
    assert_eq!(r.uses.len(), 1);
    let (k, id) = r.uses.get_index(0).unwrap();
    assert_eq!(k.0, 31);
    assert_eq!(*id, BindingId(1));
}

#[test]
fn shadowing_creates_a_new_binding() {
    let r = resolved("fn main() { let x = 5; let x = true; let y = x; }");
    assert_eq!(r.bindings[&1].name, "x");
    assert_eq!(r.bindings[&2].name, "x");
    let (_, id) = r.uses.get_index(0).unwrap();
    assert_eq!(*id, BindingId(2));
}

#[test]
fn let_initializer_sees_the_previous_binding() {
    let r = resolved("fn main() { let x = 1; let x = x + 1; }");
    let (_, id) = r.uses.get_index(0).unwrap();
    assert_eq!(*id, BindingId(1));
}

#[test]
fn block_bindings_end_with_the_block() {
    let e = resolve_err("fn main() { { let inner = 1; }; let z = inner; }");
    assert_eq!(e.message, "use of undeclared variable `inner`");
}

#[test]
fn undeclared_variable_is_an_error() {
    let mut sm = SourceMap::new();
    let f = sm.add("editor.rs".to_owned(), "fn main() { let y = undefined_var; }".to_owned());
    let p = parse(f, &sm).unwrap();
    let e = resolve(&p).unwrap_err();
    assert_eq!(e.message, "use of undeclared variable `undefined_var`");
    assert_eq!(e.span, Span::new(20, 33, f));
}

#[test]
fn functions_are_visible_before_their_declaration() {
    let r = resolved("fn main() { later(1); } fn later(n: i32) {}");
    assert_eq!(r.bindings[&0].name, "main");
    assert_eq!(r.bindings[&1].name, "later");
    assert_eq!(r.bindings[&2].kind, BindingKind::Param);
    let (_, id) = r.uses.get_index(0).unwrap();
    assert_eq!(*id, BindingId(1));
}

#[test]
fn parameters_are_visible_in_the_body() {
    let r = resolved("fn add(a: i32, b: i32) -> i32 { a + b }");
    assert_eq!(r.uses.len(), 2);
    assert_eq!(*r.uses.get_index(0).unwrap().1, BindingId(1));
    assert_eq!(*r.uses.get_index(1).unwrap().1, BindingId(2));
}

#[test]
fn duplicate_parameter_is_an_error() {
    let e = resolve_err("fn f(a: i32, a: bool) {}");
    assert_eq!(e.message, "duplicate parameter `a`");
}

#[test]
fn field_shorthand_is_a_use() {
    let p = parsed("fn main() { let x = 1; let p = P { x }; }");
    let r = resolve(&p).unwrap();
    assert_eq!(r.uses.len(), 1);
    assert_eq!(*r.uses.get_index(0).unwrap().1, BindingId(1));
}

#[test]
fn field_shorthand_without_local_is_an_error() {
    let e = resolve_err("fn main() { let p = P { x }; }");
    assert_eq!(e.message, "no local named `x` in scope for field-shorthand");
}

#[test]
fn impl_methods_resolve_self_and_params() {
    let r = resolved("struct P { x: i32 } impl P { fn get(&self, d: i32) -> i32 { self.x + d } }");
    assert_eq!(r.bindings[&0].name, "self");
    assert_eq!(r.bindings[&1].name, "d");
    assert_eq!(r.uses.len(), 2);
}

#[test]
fn every_use_refers_to_a_recorded_binding() {
    let r = resolved("fn f(a: i32) -> i32 { let b = a; if b > 0 { let c = b; c } else { a } }");
    for (_, id) in r.uses.iter() {
        assert!((id.0 as usize) < r.bindings.len());
    }
    for (i, (k, _)) in r.bindings.iter().enumerate() {
        assert_eq!(*k as usize, i);
    }
}

#[test]
fn use_sites_are_keyed_by_span() {
    let mut sm = SourceMap::new();
    let f = sm.add("editor.rs".to_owned(), "fn main() { let x = 1; x; }".to_owned());
    let p = parse(f, &sm).unwrap();
    let r = resolve(&p).unwrap();
    assert_eq!(r.uses.get(&key(Span::new(23, 24, f))), Some(&BindingId(1)));
}
