use rustviz::borrow_tracker::{BorrowKind, BorrowTracker};
use rustviz::resolve::{BindingDecl, BindingId, BindingKind};
use rustviz::typeck::{check_assign_target, check_mut_decl, deref_assign_ty, take_borrow, IntKind, Ty};
use rustviz::span::{FileId, Span};

fn sp(n: u32) -> Span {
    Span::new(n, n + 1, FileId(1))
}

#[test]
fn many_shared_borrows_are_allowed() {
    let mut t = BorrowTracker::new();
    assert!(!t.is_borrowed(BindingId(0)));
    assert!(t.try_take_shared(BindingId(0), 1, sp(0)).is_ok());
    assert!(t.try_take_shared(BindingId(0), 1, sp(1)).is_ok());
    assert!(t.is_borrowed(BindingId(0)));
    assert!(!t.is_borrowed(BindingId(1)));
}

#[test]
fn mut_after_shared_is_refused() {
    let mut t = BorrowTracker::new();
    t.try_take_shared(BindingId(3), 1, sp(0)).unwrap();
    t.try_take_shared(BindingId(3), 1, sp(5)).unwrap();
    let c = t.try_take_mut(BindingId(3), 1, sp(9)).unwrap_err();
    assert_eq!(c.existing_kind, BorrowKind::Shared);
    assert_eq!(c.existing_span, sp(5));
}

#[test]
fn shared_after_mut_is_refused() {
    let mut t = BorrowTracker::new();
    t.try_take_mut(BindingId(2), 1, sp(4)).unwrap();
    let c = t.try_take_shared(BindingId(2), 1, sp(8)).unwrap_err();
    assert_eq!(c.existing_kind, BorrowKind::Mut);
    assert_eq!(c.existing_span, sp(4));
    let c2 = t.try_take_mut(BindingId(2), 2, sp(9)).unwrap_err();
    assert_eq!(c2.existing_kind, BorrowKind::Mut);
}

#[test]
fn leaving_a_scope_releases_its_borrows() {
    let mut t = BorrowTracker::new();
    t.try_take_shared(BindingId(0), 1, sp(0)).unwrap();
    t.try_take_mut(BindingId(1), 2, sp(1)).unwrap();
    t.pop_scope(2);
    assert!(t.is_borrowed(BindingId(0)));
    assert!(!t.is_borrowed(BindingId(1)));
    assert!(t.try_take_mut(BindingId(1), 2, sp(2)).is_ok());
    t.pop_scope(1);
    assert!(!t.is_borrowed(BindingId(0)));
    assert!(!t.is_borrowed(BindingId(1)));
    assert!(t.try_take_mut(BindingId(0), 1, sp(3)).is_ok());
}

#[test]
fn bindings_are_independent() {
    let mut t = BorrowTracker::new();
    t.try_take_mut(BindingId(0), 1, sp(0)).unwrap();
    assert!(t.try_take_mut(BindingId(1), 1, sp(1)).is_ok());
    assert!(t.try_take_shared(BindingId(2), 1, sp(2)).is_ok());
}

fn decl(name: &str, kind: BindingKind) -> BindingDecl {
    BindingDecl { name: name.to_owned(), kind, decl_span: sp(0), name_span: sp(0) }
}

#[test]
fn mutable_borrow_needs_let_mut() {
    assert!(check_mut_decl(&decl("x", BindingKind::Let { mutable: true }), sp(3)).is_ok());
    let e = check_mut_decl(&decl("x", BindingKind::Let { mutable: false }), sp(3)).unwrap_err();
    assert_eq!(e.message, "cannot borrow `x` as mutable; it is not declared as `mut`");
    assert_eq!(e.span, sp(3));
    let e = check_mut_decl(&decl("p", BindingKind::Param), sp(4)).unwrap_err();
    assert_eq!(e.message, "cannot borrow `p` as mutable; it is not declared as `mut`");
}

#[test]
fn borrow_conflicts_are_reported_with_both_kinds() {
    let mut t = BorrowTracker::new();
    assert!(take_borrow(&mut t, BindingId(2), "v", false, 1, sp(1)).is_ok());
    let e = take_borrow(&mut t, BindingId(2), "v", true, 1, sp(2)).unwrap_err();
    assert_eq!(e.message, "cannot borrow `v` as mutable because it is already borrowed as immutable");
    assert_eq!(e.span, sp(2));
    t.pop_scope(1);
    assert!(take_borrow(&mut t, BindingId(2), "v", true, 1, sp(3)).is_ok());
    let e = take_borrow(&mut t, BindingId(2), "v", false, 2, sp(4)).unwrap_err();
    assert_eq!(e.message, "cannot borrow `v` as immutable because it is already borrowed as mutable");
    assert!(take_borrow(&mut t, BindingId(5), "w", true, 2, sp(5)).is_ok());
}

#[test]
fn assignment_targets() {
    let mut t = BorrowTracker::new();
    let x = decl("x", BindingKind::Let { mutable: true });
    assert!(check_assign_target(&t, BindingId(1), &x, "x", sp(7)).is_ok());
    let e = check_assign_target(&t, BindingId(1), &decl("y", BindingKind::Let { mutable: false }), "y", sp(7))
        .unwrap_err();
    assert_eq!(e.message, "cannot assign to immutable variable `y`");
    assert_eq!(e.span, sp(7));
    take_borrow(&mut t, BindingId(1), "x", false, 1, sp(2)).unwrap();
    let e = check_assign_target(&t, BindingId(1), &x, "x", sp(8)).unwrap_err();
    assert_eq!(e.message, "cannot assign to `x` because it is borrowed");
}

#[test]
fn assignment_through_references() {
    let m = Ty::Ref { inner: Box::new(Ty::Int(IntKind::I32)), mutable: true };
    assert_eq!(deref_assign_ty(&m, sp(1), sp(2)), Ok(&Ty::Int(IntKind::I32)));
    let s = Ty::Ref { inner: Box::new(Ty::Bool), mutable: false };
    let e = deref_assign_ty(&s, sp(1), sp(2)).unwrap_err();
    assert_eq!(e.message, "cannot assign through `&T`; need `&mut T`");
    assert_eq!(e.span, sp(1));
    let e = deref_assign_ty(&Ty::Bool, sp(1), sp(2)).unwrap_err();
    assert_eq!(e.message, "cannot dereference value of type `bool`; expected a reference");
    assert_eq!(e.span, sp(2));
}
