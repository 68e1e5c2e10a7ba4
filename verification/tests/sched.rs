use rustviz::eval::{closing_brace_span, ty_size_bytes, value_size_bytes, Prng, Scheduler};
use rustviz::event::{BorrowId, HeapAddr, Pointee, SlotId, ThreadId, Value};
use rustviz::span::{FileId, Span};
use rustviz::typeck::{FloatKind, IntKind, Ty};

fn reference_xorshift(mut s: u64) -> (u64, u64) {
    s ^= s >> 12;
    s ^= s << 25;
    s ^= s >> 27;
    (s, s.wrapping_mul(0x2545F4914F6CDD1D))
}

#[test]
fn prng_is_xorshift64_star() {
    let mut p = Prng::new(7);
    let (s1, o1) = reference_xorshift((7u64 << 32) | 7);
    assert_eq!(p.next_u64(), o1);
    let (_, o2) = reference_xorshift(s1);
    assert_eq!(p.next_u64(), o2);
}

#[test]
fn prng_zero_seed_is_not_degenerate() {
    let mut p = Prng::new(0);
    let (_, o1) = reference_xorshift(0xDEAD_BEEF_CAFE_F00D);
    let x = p.next_u64();
    assert_eq!(x, o1);
    assert_ne!(x, 0);
}

#[test]
fn single_ready_thread_does_not_advance() {
    let mut a = Scheduler::new(3);
    let mut b = Scheduler::new(3);
    assert_eq!(a.pick(&[ThreadId(5)]), ThreadId(5));
    let ready = [ThreadId(0), ThreadId(1), ThreadId(2)];
    assert_eq!(a.pick(&ready), b.pick(&ready));
}

#[test]
fn pick_uses_the_generator_output() {
    let mut s = Scheduler::new(11);
    let ready = [ThreadId(10), ThreadId(20), ThreadId(30)];
    let (_, o) = reference_xorshift((11u64 << 32) | 11);
    assert_eq!(s.pick(&ready), ready[(o % 3) as usize]);
}

#[test]
fn sizes_of_types() {
    assert_eq!(ty_size_bytes(&Ty::Int(IntKind::U8)), 1);
    assert_eq!(ty_size_bytes(&Ty::Int(IntKind::I16)), 2);
    assert_eq!(ty_size_bytes(&Ty::Int(IntKind::U32)), 4);
    assert_eq!(ty_size_bytes(&Ty::Int(IntKind::USize)), 8);
    assert_eq!(ty_size_bytes(&Ty::Int(IntKind::I128)), 16);
    assert_eq!(ty_size_bytes(&Ty::Float(FloatKind::F32)), 4);
    assert_eq!(ty_size_bytes(&Ty::Float(FloatKind::F64)), 8);
    assert_eq!(ty_size_bytes(&Ty::Bool), 1);
    assert_eq!(ty_size_bytes(&Ty::Unit), 0);
    assert_eq!(ty_size_bytes(&Ty::String), 8);
    assert_eq!(ty_size_bytes(&Ty::Str), 16);
    assert_eq!(ty_size_bytes(&Ty::Array(Box::new(Ty::Int(IntKind::I32)), 5)), 20);
    let p = Ty::Struct {
        name: "P".to_owned(),
        fields: vec![("x".to_owned(), Ty::Int(IntKind::I32)), ("f".to_owned(), Ty::Float(FloatKind::F64))],
    };
    assert_eq!(ty_size_bytes(&p), 12);
}

#[test]
fn closing_brace_is_last_byte() {
    let s = closing_brace_span(Span::new(10, 20, FileId(1)));
    assert_eq!(s, Span::new(19, 20, FileId(1)));
    let z = closing_brace_span(Span::new(0, 0, FileId(1)));
    assert_eq!(z, Span::new(0, 0, FileId(1)));
}

#[test]
fn zero_seed_stream_does_not_degenerate() {
    let mut p = Prng::new(0);
    let first = p.next_u64();
    let mut seen_other = false;
    for _ in 0..1000 {
        let x = p.next_u64();
        assert_ne!(x, 0);
        if x != first {
            seen_other = true;
        }
    }
    assert!(seen_other);
}

#[test]
fn value_sizes_follow_their_slot_layout() {
    assert_eq!(value_size_bytes(&Value::Int { kind: IntKind::I16, bits: -3 }), 2);
    assert_eq!(value_size_bytes(&Value::Int { kind: IntKind::U128, bits: 1 }), 16);
    assert_eq!(value_size_bytes(&Value::Float { kind: FloatKind::F32, value_bits: 0 }), 4);
    assert_eq!(value_size_bytes(&Value::Bool(true)), 1);
    assert_eq!(value_size_bytes(&Value::Unit), 0);
    assert_eq!(value_size_bytes(&Value::Box { addr: HeapAddr(1) }), 8);
    let target = Pointee::Slot(SlotId(0));
    assert_eq!(
        value_size_bytes(&Value::Ref { borrow_id: BorrowId(0), target, mutable: true }),
        8
    );
    let slice = Value::Slice {
        borrow_id: BorrowId(1),
        target,
        start: 0,
        len: 2,
        mutable: false,
        byte_offset: 0,
        byte_len: 8,
    };
    assert_eq!(value_size_bytes(&slice), 16);
}
