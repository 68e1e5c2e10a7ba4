use rustviz::event::{BorrowId, HeapAddr, MemEvent, NoteKind, Pointee, SlotId, Value};
use rustviz::span::{FileId, Span};
use rustviz::typeck::{FloatKind, IntKind};

fn dummy_span() -> Span {
    Span::new(0, 1, FileId(1))
}

#[test]
fn constructs_slot_move() {
    let e = MemEvent::SlotMove {
        from: SlotId(0),
        to: SlotId(1),
        value: Value::Int { kind: IntKind::I32, bits: 5 },
        span: dummy_span(),
    };
    let dbg = format!("{e:?}");
    assert!(!dbg.is_empty());
    assert!(dbg.contains("SlotMove"));
}

#[test]
fn constructs_thread_spawn() {
    let e = MemEvent::ThreadSpawn { thread_id: 7, span: dummy_span() };
    assert!(format!("{e:?}").contains("ThreadSpawn"));
}

#[test]
fn constructs_heap_alloc() {
    let e = MemEvent::HeapAlloc {
        addr: HeapAddr(0),
        size: 8,
        used: 8,
        ty_name: "i32".into(),
        fragment_of: None,
        split_remainder: None,
        span: dummy_span(),
    };
    assert!(format!("{e:?}").contains("HeapAlloc"));
}

#[test]
fn constructs_borrow_shared() {
    let e = MemEvent::BorrowShared {
        borrow_id: BorrowId(0),
        target: Pointee::Slot(SlotId(0)),
        span: dummy_span(),
    };
    assert!(format!("{e:?}").contains("BorrowShared"));
}

#[test]
fn constructs_lock_acquire() {
    let e = MemEvent::LockAcquire { addr: HeapAddr(0), span: dummy_span() };
    assert!(format!("{e:?}").contains("LockAcquire"));
}

#[test]
fn constructs_note_info() {
    let e = MemEvent::Note {
        kind: NoteKind::Info,
        message: "hello".into(),
        span: dummy_span(),
    };
    assert!(format!("{e:?}").contains("Info"));
}

#[test]
fn value_type_labels() {
    assert_eq!(Value::Int { kind: IntKind::U8, bits: 1 }.type_label(), "u8");
    assert_eq!(Value::Float { kind: FloatKind::F64, value_bits: 1.5f64.to_bits() }.type_label(), "f64");
    assert_eq!(Value::Bool(true).type_label(), "bool");
    assert_eq!(Value::Unit.type_label(), "()");
    let r = Value::Ref { borrow_id: BorrowId(0), target: Pointee::Slot(SlotId(0)), mutable: false };
    assert_eq!(r.type_label(), "&");
    let m = Value::Ref { borrow_id: BorrowId(1), target: Pointee::Heap(HeapAddr(2)), mutable: true };
    assert_eq!(m.type_label(), "&mut");
    assert_eq!(Value::Box { addr: HeapAddr(0) }.type_label(), "Box");
    assert_eq!(Value::Vec { addr: HeapAddr(0) }.type_label(), "Vec");
    assert_eq!(Value::String { addr: HeapAddr(0) }.type_label(), "String");
    let s = Value::Slice {
        borrow_id: BorrowId(3),
        target: Pointee::Heap(HeapAddr(1)),
        start: 0,
        len: 2,
        mutable: false,
        byte_offset: 0,
        byte_len: 8,
    };
    assert_eq!(s.type_label(), "&[]");
}
