//! The event model: memory and control-flow events emitted by the
//! evaluator, with their identifier and value payloads.

use vstd::prelude::*;

use crate::span::Span;
use crate::typeck::{FloatKind, IntKind, Ty};

verus! {

/// Identifier of a runtime stack slot (one per runtime instance of a
/// binding; recursive calls get fresh ones).
#[derive(Clone, Copy, Debug, PartialEq, Eq, Hash, PartialOrd, Ord, Structural)]
pub struct SlotId(pub u32);

/// Identifier of a stack frame instance (one per call).
#[derive(Clone, Copy, Debug, PartialEq, Eq, Hash, PartialOrd, Ord, Structural)]
pub struct FrameId(pub u32);

/// Address of a heap allocation.
#[derive(Clone, Copy, Debug, PartialEq, Eq, Hash, PartialOrd, Ord, Structural)]
pub struct HeapAddr(pub u32);

/// Identifier of a borrow.
#[derive(Clone, Copy, Debug, PartialEq, Eq, Hash, PartialOrd, Ord, Structural)]
pub struct BorrowId(pub u32);

/// Identifier of an interpreted thread.
#[derive(Clone, Copy, Debug, PartialEq, Eq, Hash, PartialOrd, Ord, Structural)]
pub struct ThreadId(pub u32);

/// Identifier of a block of static (read-only) memory; never reused.
#[derive(Clone, Copy, Debug, PartialEq, Eq, Hash, Structural)]
pub struct StaticAddr(pub u32);

/// Where a pointer points: a stack slot, a heap allocation, or static memory.
#[derive(Clone, Copy, Debug, PartialEq, Eq, Hash, Structural)]
pub enum Pointee {
    /// A stack slot.
    Slot(SlotId),
    /// A heap allocation.
    Heap(HeapAddr),
    /// A static-memory block (string literals).
    Static(StaticAddr),
}

/// A runtime value held in a stack slot.
#[derive(Clone, Copy, Debug, PartialEq, Eq, Structural)]
pub enum Value {
    /// Integer, widened to `i128`; its range is that of `kind`.
    Int { kind: IntKind, bits: i128 },
    /// Float, carried as the IEEE-754 bit pattern of an `f64` (narrowed to
    /// `f32` precision when `kind` is `F32`).
    Float { kind: FloatKind, value_bits: u64 },
    /// Boolean.
    Bool(bool),
    /// Unit `()`.
    Unit,
    /// A borrow held in a slot.
    Ref { borrow_id: BorrowId, target: Pointee, mutable: bool },
    /// Owner of a `Box` allocation.
    Box { addr: HeapAddr },
    /// Owner of a `Vec` buffer.
    Vec { addr: HeapAddr },
    /// Owner of a `String` buffer.
    String { addr: HeapAddr },
    /// Slice fat pointer: target, element range and byte range viewed.
    Slice {
        borrow_id: BorrowId,
        target: Pointee,
        start: u64,
        len: u64,
        mutable: bool,
        byte_offset: u64,
        byte_len: u64,
    },
}

impl Value {
    /// User-facing type name of a value.
    pub open spec fn spec_type_label(self) -> Seq<char> {
        match self {
            Value::Int { kind, .. } => kind.spec_name(),
            Value::Float { kind, .. } => kind.spec_name(),
            Value::Bool(_) => "bool"@,
            Value::Unit => "()"@,
            Value::Ref { mutable, .. } => if mutable {
                "&mut"@
            } else {
                "&"@
            },
            Value::Box { .. } => "Box"@,
            Value::Vec { .. } => "Vec"@,
            Value::String { .. } => "String"@,
            Value::Slice { .. } => "&[]"@,
        }
    }

    /// User-facing type name of this value (`"u8"`, `"f64"`, `"bool"`,
    /// `"()"`, `"&"`, `"&mut"`, ...).
    pub fn type_label(&self) -> (s: &'static str)
        ensures
            s@ == self.spec_type_label(),
    {
        match self {
            Value::Int { kind, .. } => kind.name(),
            Value::Float { kind, .. } => kind.name(),
            Value::Bool(_) => "bool",
            Value::Unit => "()",
            Value::Ref { mutable, .. } => if *mutable {
                "&mut"
            } else {
                "&"
            },
            Value::Box { .. } => "Box",
            Value::Vec { .. } => "Vec",
            Value::String { .. } => "String",
            Value::Slice { .. } => "&[]",
        }
    }
}

/// Classification of a note event.
#[derive(Clone, Copy, Debug, PartialEq, Eq, Hash, Structural)]
pub enum NoteKind {
    /// Runtime error (overflow, division by zero, recursion depth); the
    /// event stream ends after it.
    RuntimeError,
    /// Informational note.
    Info,
}

/// Memory and control-flow events emitted by the evaluator.
#[derive(Debug, PartialEq)]
#[allow(inconsistent_fields)]
pub enum MemEvent {
    /// A thread was spawned.
    ThreadSpawn { thread_id: u32, span: Span },
    /// A thread was joined.
    ThreadJoin { thread_id: u32, span: Span },
    /// A thread parked, waiting on a lock.
    ThreadPark { thread_id: u32, lock: HeapAddr, span: Span },
    /// A call began; a frame opens.
    FrameEnter { frame_id: FrameId, fn_name: String, span: Span },
    /// A call returned; the frame closes.
    FrameLeave { frame_id: FrameId, return_value: Value, span: Span },
    /// A function body finished; its return value is in transit.
    ReturnValue { frame_id: FrameId, value: Value, span: Span },
    /// A stack slot was allocated.
    SlotAlloc { slot_id: SlotId, name: String, ty: Ty, span: Span },
    /// A value was written into a slot.
    SlotWrite { slot_id: SlotId, value: Value, span: Span },
    /// A value moved between slots.
    SlotMove { from: SlotId, to: SlotId, value: Value, span: Span },
    /// A slot was dropped.
    SlotDrop { slot_id: SlotId, span: Span },
    /// A heap allocation; `split_remainder` reports the leftover of a
    /// reused larger freed chunk.
    HeapAlloc {
        addr: HeapAddr,
        size: u32,
        used: u32,
        ty_name: String,
        fragment_of: Option<HeapAddr>,
        split_remainder: Option<(HeapAddr, u32)>,
        span: Span,
    },
    /// A heap allocation moved to a new address with a new size.
    HeapRealloc {
        from: HeapAddr,
        to: HeapAddr,
        new_size: u32,
        new_used: u32,
        new_display: String,
        span: Span,
    },
    /// A heap allocation was freed.
    HeapFree { addr: HeapAddr, span: Span },
    /// A static block was interned (once per distinct literal).
    StaticAlloc { addr: StaticAddr, bytes: String, span: Span },
    /// Bytes were copied into a heap allocation.
    BytesCopy { from: Pointee, from_byte_offset: u32, to: HeapAddr, n_bytes: u32, span: Span },
    /// A shared borrow began.
    BorrowShared { borrow_id: BorrowId, target: Pointee, span: Span },
    /// A mutable borrow began.
    BorrowMut { borrow_id: BorrowId, target: Pointee, span: Span },
    /// A borrow ended.
    BorrowEnd { borrow_id: BorrowId, span: Span },
    /// A mutex was locked.
    LockAcquire { addr: HeapAddr, span: Span },
    /// A mutex was unlocked.
    LockRelease { addr: HeapAddr, span: Span },
    /// An `Arc` was cloned.
    ArcClone { addr: HeapAddr, span: Span },
    /// An `Arc` was dropped.
    ArcDrop { addr: HeapAddr, span: Span },
    /// A pedagogical note; a runtime-error note ends the stream.
    Note { kind: NoteKind, message: String, span: Span },
}

} // verus!
