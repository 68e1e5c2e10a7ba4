use rustviz::ast::Program;
use rustviz::parser::parse;
use rustviz::span::SourceMap;
use rustviz::structs::register_structs;

fn parsed(src: &str) -> Program {
    let mut sm = SourceMap::new();
    let f = sm.add("editor.rs".to_owned(), src.to_owned());
    parse(f, &sm).expect("parses")
}

#[test]
fn struct_schemas_are_registered() {
    let p = parsed("struct Point { x: i32, y: bool }\nstruct Unit2 { u: () }\nfn main() {}");
    let reg = register_structs(&p).unwrap();
    assert!(reg.contains("Point"));
    assert!(reg.contains("Unit2"));
    assert!(!reg.contains("main"));
}

#[test]
fn a_second_struct_of_one_name_is_refused() {
    let src = "struct P { x: i32 }\nstruct P { y: i32 }";
    let e = register_structs(&parsed(src)).unwrap_err();
    assert_eq!(e.message, "struct `P` already defined (previous definition at byte 0)");
    assert_eq!((e.span.start, e.span.end), (20, 39));
}

#[test]
fn struct_fields_must_be_primitive() {
    let e = register_structs(&parsed("struct S { v: Vec<i32> }")).unwrap_err();
    assert_eq!(
        e.message,
        "field `v` of struct `S` has type `Vec<i32>`; M07.4 fields must be primitive types (i32, bool, etc.)"
    );
    let e = register_structs(&parsed("struct S { v: Foo }")).unwrap_err();
    assert_eq!(e.message, "unknown type `Foo`");
}

use rustviz::resolve::resolve;
use rustviz::structs::collect_declarations;
use rustviz::typeck::{BindingType, IntKind, Ty};

#[test]
fn declarations_record_signatures_and_impls() {
    let src = "struct P { x: i32 }\nimpl P {\n fn new(x: i32) -> P { P { x: x } }\n fn get(&self) -> i32 { self.x }\n}\nfn main() {}\nfn add(a: i32, b: bool) -> i64 { 1 }";
    let p = parsed(src);
    let res = resolve(&p).unwrap();
    let ds = collect_declarations(&p, &res).unwrap();
    assert!(ds.structs.contains("P"));
    assert_eq!(ds.types.expr_types.len(), 0);
    let sigs: Vec<_> = ds.types.binding_types.values().collect();
    assert_eq!(sigs.len(), 2);
    match sigs[1] {
        BindingType::Fn(sig) => {
            assert_eq!(sig.params, vec![Ty::Int(IntKind::I32), Ty::Bool]);
            assert_eq!(sig.ret, Ty::Int(IntKind::I64));
        }
        other => panic!("expected a signature, found {other:?}"),
    }
}

#[test]
fn impl_blocks_are_checked() {
    let e = |src: &str| {
        let p = parsed(src);
        let res = resolve(&p).unwrap();
        collect_declarations(&p, &res).unwrap_err().message
    };
    assert_eq!(
        e("impl Q { fn f() {} }"),
        "impl block references unknown type `Q` (M07.4 supports inherent impls on user-defined structs only \u{2014} not on built-ins like Vec or String)"
    );
    assert_eq!(
        e("struct P { x: i32 }\nimpl P { fn f() {} }\nimpl P { fn g() {} }"),
        "M07.4 supports only one impl block per type; merge into a single block (existing impl block for `P` already declared)"
    );
    assert_eq!(
        e("struct P { x: i32 }\nimpl P { fn f(&self) {} fn f(&self) {} }"),
        "method `f` already defined on `P`"
    );
    assert_eq!(
        e("struct P { x: i32 }\nimpl P { fn f() {} fn f() {} }"),
        "associated fn `f` already defined on `P`"
    );
    assert_eq!(e("fn f(x: Q) {}"), "unknown type `Q`");
}

use rustviz::pipeline::{front_end, CompileStage};

fn run(src: &str) -> Option<Result<(), (CompileStage, String)>> {
    let mut sm = SourceMap::new();
    let f = sm.add("editor.rs".to_owned(), src.to_owned());
    front_end(f, &sm).map(|r| r.map(|_| ()).map_err(|e| (e.stage, e.message)))
}

#[test]
fn front_end_tags_the_failing_stage() {
    assert_eq!(run("fn main() { let x = 1; }"), Some(Ok(())));
    assert_eq!(run("fn main() { let x = 1 }").unwrap().unwrap_err().0, CompileStage::Parse);
    assert_eq!(run("fn main() { y }"), Some(Err((CompileStage::Resolve, "use of undeclared variable `y`".to_owned()))));
    assert_eq!(
        run("struct P { v: String }\nfn main() {}"),
        Some(Err((
            CompileStage::Typeck,
            "field `v` of struct `P` has type `String`; M07.4 fields must be primitive types (i32, bool, etc.)".to_owned()
        )))
    );
}
