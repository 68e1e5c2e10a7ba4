use rustviz::event::{BorrowId, HeapAddr, MemEvent, NoteKind, Pointee, SlotId, Value};
use rustviz::heap::{drop_scope, heap_object_bytes, realloc_heap, HeapObject, HeapState, LocalSlot, Scope};
use rustviz::parser::parse;
use rustviz::resolve::{resolve, BindingId, Resolution};
use rustviz::span::{FileId, SourceMap, Span};
use rustviz::typeck::{IntKind, Ty};

fn sp(n: u32) -> Span {
    Span::new(n, n + 1, FileId(1))
}

fn boxed_i32() -> HeapObject {
    HeapObject::Box(Value::Int { kind: IntKind::I32, bits: 7 })
}

fn buffer(cap: usize, len: usize) -> HeapObject {
    let elements = vec![Value::Int { kind: IntKind::I64, bits: 0 }; len];
    HeapObject::Vec { elements, capacity: cap, elem_ty: Ty::Int(IntKind::I64) }
}

#[test]
fn object_sizes() {
    assert_eq!(heap_object_bytes(&boxed_i32()), (4, 4));
    assert_eq!(heap_object_bytes(&buffer(4, 3)), (32, 24));
    let s = HeapObject::Str { bytes: "héllo".to_owned(), capacity: 10 };
    assert_eq!(heap_object_bytes(&s), (10, 6));
    let a = HeapObject::Arc { value: Box::new(Value::Bool(true)), strong_count: 2 };
    assert_eq!(heap_object_bytes(&a), (5, 5));
}

#[test]
fn fresh_addresses_count_up() {
    let mut h = HeapState::new();
    let mut ev = Vec::new();
    let a = h.alloc_heap(&mut ev, boxed_i32(), "Box<i32>".to_owned(), 4, sp(0));
    let b = h.alloc_heap(&mut ev, buffer(4, 0), "Vec<i64>".to_owned(), 32, sp(1));
    assert_eq!((a, b), (HeapAddr(0), HeapAddr(1)));
    assert_eq!(
        ev[1],
        MemEvent::HeapAlloc {
            addr: HeapAddr(1),
            size: 32,
            used: 0,
            ty_name: "Vec<i64>".to_owned(),
            fragment_of: None,
            split_remainder: None,
            span: sp(1),
        }
    );
}

#[test]
fn first_fit_reuses_and_splits_a_freed_chunk() {
    let mut h = HeapState::new();
    let mut ev = Vec::new();
    let a = h.alloc_heap(&mut ev, buffer(4, 4), "Vec<i64>".to_owned(), 32, sp(0));
    h.free_heap(&mut ev, a, sp(1));
    assert_eq!(ev[1], MemEvent::HeapFree { addr: a, span: sp(1) });
    // Freeing again does nothing.
    h.free_heap(&mut ev, a, sp(2));
    assert_eq!(ev.len(), 2);
    let b = h.alloc_heap(&mut ev, boxed_i32(), "Box<i32>".to_owned(), 4, sp(3));
    assert_eq!(b, a);
    match &ev[2] {
        MemEvent::Note { kind, message, .. } => {
            assert_eq!(*kind, NoteKind::Info);
            assert_eq!(
                message,
                "Allocator first-fit: heap #0 (was 32B freed) reused for this 4B request. The 28B leftover stays freed as heap #1 \u{2014} available for the next request that fits."
            );
        }
        other => panic!("expected a note, found {other:?}"),
    }
    match &ev[3] {
        MemEvent::HeapAlloc { addr, split_remainder, .. } => {
            assert_eq!(*addr, HeapAddr(0));
            assert_eq!(*split_remainder, Some((HeapAddr(1), 28)));
        }
        other => panic!("expected an allocation, found {other:?}"),
    }
    // The leftover fits the next small request exactly: no split, no note.
    let c = h.alloc_heap(&mut ev, buffer(3, 0), "Vec<i64>".to_owned(), 28, sp(4));
    assert_eq!(c, HeapAddr(1));
    assert_eq!(ev.len(), 5);
    // Nothing freed fits now: a fresh address.
    let d = h.alloc_heap(&mut ev, boxed_i32(), "Box<i32>".to_owned(), 4, sp(5));
    assert_eq!(d, HeapAddr(2));
}

fn resolved(src: &str) -> Resolution {
    let mut sm = SourceMap::new();
    let f = sm.add("editor.rs".to_owned(), src.to_owned());
    resolve(&parse(f, &sm).unwrap()).unwrap()
}

#[test]
fn leaving_a_scope_ends_borrows_and_frees_owned_allocations() {
    let res = resolved("fn main() { let b = 1; let v = 2; }");
    let mut h = HeapState::new();
    let mut ev = Vec::new();
    let a = h.alloc_heap(&mut ev, boxed_i32(), "Box<i32>".to_owned(), 4, sp(0));
    let w = h.alloc_heap(&mut ev, buffer(2, 1), "Vec<i64>".to_owned(), 16, sp(0));
    ev.clear();
    let local = |id: u32, slot: u32, value: Value, moved: bool| LocalSlot {
        binding_id: BindingId(id),
        slot_id: SlotId(slot),
        value,
        decl_span: sp(0),
        moved,
    };
    let scope = Scope {
        locals: vec![
            local(1, 0, Value::Box { addr: a }, false),
            local(2, 1, Value::Vec { addr: w }, true),
            local(9, 2, Value::Bool(true), false),
            local(7, 3, Value::String { addr: HeapAddr(5) }, false),
        ],
        borrows: vec![BorrowId(3), BorrowId(4)],
        heap_allocs: vec![],
    };
    let end = sp(40);
    drop_scope(&mut h, &mut ev, scope, &res, end);
    assert_eq!(ev[0], MemEvent::BorrowEnd { borrow_id: BorrowId(4), span: end });
    assert_eq!(ev[1], MemEvent::BorrowEnd { borrow_id: BorrowId(3), span: end });
    // Binding 7 is not declared: named by its slot; heap #5 is not live.
    match &ev[2] {
        MemEvent::Note { message, .. } => assert_eq!(
            message,
            "`slot3` goes out of scope: Drop runs on the String, freeing heap addr 5 (the stack pointer-bytes themselves persist until the frame is reused)"
        ),
        other => panic!("expected a note, found {other:?}"),
    }
    // The moved Vec is skipped; the Box of `b` is freed.
    match &ev[3] {
        MemEvent::Note { message, .. } => assert_eq!(
            message,
            "`b` goes out of scope: Drop runs on the Box, freeing heap addr 0 (the stack pointer-bytes themselves persist until the frame is reused)"
        ),
        other => panic!("expected a note, found {other:?}"),
    }
    assert_eq!(ev[4], MemEvent::HeapFree { addr: a, span: end });
    assert_eq!(ev.len(), 5);
}

#[test]
fn indexing_a_vec_checks_bounds() {
    let mut h = HeapState::new();
    let mut ev = Vec::new();
    let elements = vec![
        Value::Int { kind: IntKind::I32, bits: 10 },
        Value::Int { kind: IntKind::I32, bits: 20 },
    ];
    let obj = HeapObject::Vec { elements, capacity: 2, elem_ty: Ty::Int(IntKind::I32) };
    let a = h.alloc_heap(&mut ev, obj, "Vec<i32>".to_owned(), 8, sp(0));
    let v = Value::Vec { addr: a };
    let idx = |i: i128| Value::Int { kind: IntKind::USize, bits: i };
    assert_eq!(h.eval_index(v, idx(1)), Ok(Value::Int { kind: IntKind::I32, bits: 20 }));
    assert_eq!(
        h.eval_index(v, idx(2)),
        Err("index out of bounds: the len is 2 but the index is 2".to_owned())
    );
    assert_eq!(
        h.eval_index(v, idx(-3)),
        Err("index out of bounds: the len is 2 but the index is -3".to_owned())
    );
}

#[test]
fn growing_a_vec_moves_it_and_leaves_borrows_dangling() {
    let mut h = HeapState::new();
    let mut ev = Vec::new();
    let a = h.alloc_heap(&mut ev, buffer(1, 1), "Vec<i64>".to_owned(), 8, sp(0));
    ev.clear();
    let v = LocalSlot { binding_id: BindingId(1), slot_id: SlotId(0), value: Value::Vec { addr: a }, decl_span: sp(1), moved: false };
    let r = LocalSlot {
        binding_id: BindingId(2),
        slot_id: SlotId(1),
        value: Value::Ref { borrow_id: BorrowId(0), target: Pointee::Heap(a), mutable: false },
        decl_span: sp(2),
        moved: false,
    };
    let mut scopes = vec![Scope { locals: vec![v, r], borrows: vec![BorrowId(0)], heap_allocs: vec![a] }];
    let to = realloc_heap(&mut h, &mut ev, &mut scopes, a, buffer(2, 2), 16, "Vec [0, 0]".to_owned(), sp(3));
    assert_eq!(to, HeapAddr(1));
    assert_eq!(
        ev[0],
        MemEvent::HeapRealloc { from: a, to, new_size: 16, new_used: 16, new_display: "Vec [0, 0]".to_owned(), span: sp(3) }
    );
    assert_eq!(
        ev[1],
        MemEvent::Note {
            kind: NoteKind::RuntimeError,
            message: "dangling reference: borrow still points at heap #0, which was freed during the realloc".to_owned(),
            span: sp(2),
        }
    );
    assert_eq!(ev.len(), 2);
    assert_eq!(scopes[0].locals[0].value, Value::Vec { addr: to });
    assert_eq!(scopes[0].heap_allocs, vec![to]);
    // The old block is reusable: an 8-byte request takes it.
    let c = h.alloc_heap(&mut ev, boxed_i32(), "Box<i32>".to_owned(), 8, sp(4));
    assert_eq!(c, a);
}
