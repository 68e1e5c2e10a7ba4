//! The evaluator's heap: live allocations in allocation order, the list of
//! freed chunks with their sizes, the first-fit allocator that reuses them
//! (splitting off what a request leaves over), freeing, and what leaving a
//! scope does to borrows and heap-owning locals.

use indexmap::IndexMap;
use vstd::prelude::*;

use crate::eval::{size_fits, size_of_ty, ty_size_bytes, value_size, value_size_bytes};
use crate::event::{BorrowId, HeapAddr, MemEvent, NoteKind, Pointee, SlotId, ThreadId, Value};
use crate::resolve::{binding_entries, bindings_get, BindingDecl, BindingId, Resolution};
use crate::span::{text_bytes, Span};
use crate::text::{concat_str, decimal, decimal_string, signed_decimal, signed_decimal_string};
use crate::typeck::Ty;

verus! {

/// Contents of one heap allocation.
pub enum HeapObject {
    /// A single boxed value.
    Box(Value),
    /// A growable buffer with its spare capacity.
    Vec { elements: Vec<Value>, capacity: usize, elem_ty: Ty },
    /// UTF-8 text with its spare capacity.
    Str { bytes: String, capacity: usize },
    /// A shared-ownership value with its reference count.
    Arc { value: Box<Value>, strong_count: u32 },
    /// A lock-protected value: who holds it and who waits for it.
    Mutex { value: Box<Value>, holder: Option<ThreadId>, waiters: Vec<ThreadId> },
    /// `Arc<Mutex<T>>` in one allocation.
    ArcMutex {
        value: Box<Value>,
        strong_count: u32,
        holder: Option<ThreadId>,
        waiters: Vec<ThreadId>,
    },
}

/// `n` truncated to 32 bits.
pub open spec fn low32(n: int) -> int {
    n % 0x1_0000_0000
}

/// Total and used bytes of an allocation: a buffer's capacity and length
/// (each taken to 32 bits) times its element size, text's capacity and byte
/// length, a boxed value's size, plus 4 bytes of reference count for an
/// `Arc`, 8 of lock state for a `Mutex`, 12 for both.
pub open spec fn object_bytes(o: HeapObject) -> (int, int) {
    match o {
        HeapObject::Box(v) => (value_size(v), value_size(v)),
        HeapObject::Vec { elements, capacity, elem_ty } => (
            low32(capacity as int) * size_of_ty(elem_ty),
            low32(elements@.len() as int) * size_of_ty(elem_ty),
        ),
        HeapObject::Str { bytes, capacity } => (
            low32(capacity as int),
            low32(text_bytes(bytes@).len() as int),
        ),
        HeapObject::Arc { value, .. } => (value_size(*value) + 4, value_size(*value) + 4),
        HeapObject::Mutex { value, .. } => (value_size(*value) + 8, value_size(*value) + 8),
        HeapObject::ArcMutex { value, .. } => (value_size(*value) + 12, value_size(*value) + 12),
    }
}

/// The byte counts of an allocation fit in `u32`.
pub open spec fn object_fits(o: HeapObject) -> bool {
    match o {
        HeapObject::Vec { elements, capacity, elem_ty } => {
            &&& size_fits(elem_ty)
            &&& low32(capacity as int) * size_of_ty(elem_ty) <= u32::MAX
            &&& low32(elements@.len() as int) * size_of_ty(elem_ty) <= u32::MAX
        },
        _ => true,
    }
}

proof fn lemma_low32(n: usize)
    ensures
        (n as u32) as int == low32(n as int),
{
    assert((n as u32) as int == (n as int) % 0x1_0000_0000) by (bit_vector);
}

proof fn lemma_value_size_small(v: Value)
    ensures
        0 <= value_size(v) <= 16,
{
}

/// Total and used bytes of an allocation.
pub fn heap_object_bytes(obj: &HeapObject) -> (r: (u32, u32))
    requires
        object_fits(*obj),
    ensures
        r.0 == object_bytes(*obj).0,
        r.1 == object_bytes(*obj).1,
{
    match obj {
        HeapObject::Box(v) => {
            let s = value_size_bytes(v);
            (s, s)
        },
        HeapObject::Vec { elements, capacity, elem_ty } => {
            let es = ty_size_bytes(elem_ty);
            proof {
                lemma_low32(*capacity);
                lemma_low32(elements.len());
            }
            ((*capacity as u32) * es, (elements.len() as u32) * es)
        },
        HeapObject::Str { bytes, capacity } => {
            let b = bytes.as_str().as_bytes();
            proof {
                vstd::utf8::encode_utf8_decode_utf8(bytes@);
                assert(b@ == text_bytes(bytes@));
                lemma_low32(*capacity);
                lemma_low32(b@.len() as usize);
            }
            (*capacity as u32, b.len() as u32)
        },
        HeapObject::Arc { value, .. } => {
            proof {
                lemma_value_size_small(**value);
            }
            let s = value_size_bytes(value) + 4;
            (s, s)
        },
        HeapObject::Mutex { value, .. } => {
            proof {
                lemma_value_size_small(**value);
            }
            let s = value_size_bytes(value) + 8;
            (s, s)
        },
        HeapObject::ArcMutex { value, .. } => {
            proof {
                lemma_value_size_small(**value);
            }
            let s = value_size_bytes(value) + 12;
            (s, s)
        },
    }
}

/// The entries of the live-allocation table, in allocation order: address
/// number and contents.
pub uninterp spec fn heap_entries(m: IndexMap<u32, HeapObject>) -> Seq<(u32, HeapObject)>;

/// `IndexMap::new`: no live allocation.
#[verifier::external_body]
fn objects_new() -> (m: IndexMap<u32, HeapObject>)
    ensures
        heap_entries(m) == Seq::<(u32, HeapObject)>::empty(),
{
    IndexMap::new()
}

/// `IndexMap::insert`: an existing key keeps its position and gets the new
/// value (the old one is returned); a new key is appended at the end.
#[verifier::external_body]
fn objects_insert(m: &mut IndexMap<u32, HeapObject>, k: u32, v: HeapObject) -> (r: Option<HeapObject>)
    ensures
        ({
            let t = heap_entries(*old(m));
            let t2 = heap_entries(*final(m));
            ||| exists|i: int|
                0 <= i < t.len() && #[trigger] t[i].0 == k && t2 == t.update(i, (k, v)) && r
                    == Some(t[i].1)
            ||| (forall|i: int| 0 <= i < t.len() ==> #[trigger] t[i].0 != k) && t2 == t.push(
                (k, v),
            ) && r is None
        }),
{
    m.insert(k, v)
}

/// `IndexMap::shift_remove`: the entry under `k` is removed and the entries
/// after it move up one place; its value is returned. Without such an
/// entry nothing changes.
#[verifier::external_body]
fn objects_shift_remove(m: &mut IndexMap<u32, HeapObject>, k: u32) -> (r: Option<HeapObject>)
    ensures
        ({
            let t = heap_entries(*old(m));
            let t2 = heap_entries(*final(m));
            ||| exists|i: int|
                0 <= i < t.len() && #[trigger] t[i].0 == k && t2 == t.remove(i) && r == Some(
                    t[i].1,
                )
            ||| (forall|i: int| 0 <= i < t.len() ==> #[trigger] t[i].0 != k) && t2 == t && r
                is None
        }),
{
    m.shift_remove(&k)
}

/// `IndexMap::get`: the allocation stored under `k`, if any.
#[verifier::external_body]
fn objects_get(m: &IndexMap<u32, HeapObject>, k: u32) -> (r: Option<&HeapObject>)
    ensures
        match r {
            Some(v) => exists|i: int|
                0 <= i < heap_entries(*m).len() && #[trigger] heap_entries(*m)[i].0 == k
                    && heap_entries(*m)[i].1 == *v,
            None => forall|i: int|
                0 <= i < heap_entries(*m).len() ==> #[trigger] heap_entries(*m)[i].0 != k,
        },
{
    m.get(&k)
}

/// Position of the live allocation at address number `k`, if any.
pub open spec fn find_live(t: Seq<(u32, HeapObject)>, k: u32) -> Option<int> {
    if exists|i: int| 0 <= i < t.len() && #[trigger] t[i].0 == k {
        Some(choose|i: int| 0 <= i < t.len() && #[trigger] t[i].0 == k)
    } else {
        None
    }
}

/// Position of the first freed chunk of at least `needed` bytes, if any.
pub open spec fn first_fit(free: Seq<(HeapAddr, u32)>, needed: u32) -> Option<int> {
    if exists|i: int| 0 <= i < free.len() && #[trigger] free[i].1 >= needed {
        Some(
            choose|i: int|
                0 <= i < free.len() && #[trigger] free[i].1 >= needed && forall|j: int|
                    0 <= j < i ==> #[trigger] free[j].1 < needed,
        )
    } else {
        None
    }
}

/// Whether a request of `needed` bytes takes a new address: when no freed
/// chunk fits, or the one that fits is larger and its remainder gets one.
pub open spec fn needs_fresh_addr(free: Seq<(HeapAddr, u32)>, needed: u32) -> bool {
    match first_fit(free, needed) {
        Some(i) => free[i].1 > needed,
        None => true,
    }
}


/// Every address is handed out once: live addresses are distinct, freed
/// ones are distinct, no address is both, and all lie below the next
/// unused one; every live allocation's sizes fit in `u32`.
pub open spec fn heap_ok(live: Seq<(u32, HeapObject)>, free: Seq<(HeapAddr, u32)>, next: u32) -> bool {
    &&& forall|i: int, j: int| 0 <= i < j < live.len() ==> #[trigger] live[i].0 != #[trigger] live[j].0
    &&& forall|i: int, j: int| 0 <= i < j < free.len() ==> #[trigger] free[i].0 != #[trigger] free[j].0
    &&& forall|i: int, j: int|
        0 <= i < live.len() && 0 <= j < free.len() ==> #[trigger] live[i].0 != #[trigger] free[j].0.0
    &&& forall|i: int| 0 <= i < live.len() ==> #[trigger] live[i].0 < next
    &&& forall|i: int| 0 <= i < free.len() ==> #[trigger] free[i].0.0 < next
    &&& forall|i: int| 0 <= i < live.len() ==> object_fits(#[trigger] live[i].1)
}

proof fn lemma_free_remove(live: Seq<(u32, HeapObject)>, free: Seq<(HeapAddr, u32)>, next: u32, i: int)
    requires
        heap_ok(live, free, next),
        0 <= i < free.len(),
    ensures
        heap_ok(live, free.remove(i), next),
        forall|j: int| 0 <= j < free.remove(i).len() ==> #[trigger] free.remove(i)[j].0 != free[i].0,
        forall|j: int| 0 <= j < live.len() ==> #[trigger] live[j].0 != free[i].0.0,
        free[i].0.0 < next,
{
    let f2 = free.remove(i);
    assert forall|j: int| 0 <= j < f2.len() implies f2[j] == (if j < i { free[j] } else { free[j + 1] }) by {}
    assert forall|a: int, b: int| 0 <= a < b < f2.len() implies #[trigger] f2[a].0 != #[trigger] f2[b].0 by {
        let ka = if a < i { a } else { a + 1 };
        let kb = if b < i { b } else { b + 1 };
        assert(f2[a] == free[ka] && f2[b] == free[kb]);
    }
    assert forall|a: int, b: int| 0 <= a < live.len() && 0 <= b < f2.len() implies #[trigger] live[a].0 != #[trigger] f2[b].0.0 by {
        let kb = if b < i { b } else { b + 1 };
        assert(f2[b] == free[kb]);
    }
    assert forall|b: int| 0 <= b < f2.len() implies #[trigger] f2[b].0.0 < next by {
        let kb = if b < i { b } else { b + 1 };
        assert(f2[b] == free[kb]);
    }
    assert forall|b: int| 0 <= b < f2.len() implies #[trigger] f2[b].0 != free[i].0 by {
        let kb = if b < i { b } else { b + 1 };
        assert(f2[b] == free[kb]);
    }
}


proof fn lemma_live_to_free(live: Seq<(u32, HeapObject)>, free: Seq<(HeapAddr, u32)>, next: u32, i: int, sz: u32)
    requires
        heap_ok(live, free, next),
        0 <= i < live.len(),
    ensures
        heap_ok(live.remove(i), free.push((HeapAddr(live[i].0), sz)), next),
{
    let l2 = live.remove(i);
    let a = HeapAddr(live[i].0);
    let f2 = free.push((a, sz));
    assert forall|j: int| 0 <= j < l2.len() implies l2[j] == (if j < i { live[j] } else { live[j + 1] }) by {}
    assert forall|x: int, y: int| 0 <= x < y < l2.len() implies #[trigger] l2[x].0 != #[trigger] l2[y].0 by {
        let kx = if x < i { x } else { x + 1 };
        let ky = if y < i { y } else { y + 1 };
        assert(l2[x] == live[kx] && l2[y] == live[ky]);
    }
    assert forall|x: int, y: int| 0 <= x < y < f2.len() implies #[trigger] f2[x].0 != #[trigger] f2[y].0 by {
        assert(f2[x] == free[x]);
        if y < free.len() {
            assert(f2[y] == free[y]);
        } else {
            assert(f2[y] == (a, sz));
            assert(live[i].0 != free[x].0.0);
        }
    }
    assert forall|x: int, y: int| 0 <= x < l2.len() && 0 <= y < f2.len() implies #[trigger] l2[x].0 != #[trigger] f2[y].0.0 by {
        let kx = if x < i { x } else { x + 1 };
        assert(l2[x] == live[kx]);
        if y < free.len() {
            assert(f2[y] == free[y]);
            assert(live[kx].0 != free[y].0.0);
        } else {
            assert(f2[y] == (a, sz));
        }
    }
    assert forall|x: int| 0 <= x < l2.len() implies #[trigger] l2[x].0 < next by {
        let kx = if x < i { x } else { x + 1 };
        assert(l2[x] == live[kx]);
    }
    assert forall|y: int| 0 <= y < f2.len() implies #[trigger] f2[y].0.0 < next by {
        if y < free.len() {
            assert(f2[y] == free[y]);
        }
    }
    assert forall|x: int| 0 <= x < l2.len() implies object_fits(#[trigger] l2[x].1) by {
        let kx = if x < i { x } else { x + 1 };
        assert(l2[x] == live[kx]);
    }
}

proof fn lemma_fresh_ok(live: Seq<(u32, HeapObject)>, free: Seq<(HeapAddr, u32)>, next: u32)
    requires
        heap_ok(live, free, next),
        next < u32::MAX,
    ensures
        heap_ok(live, free, (next + 1) as u32),
{
}

proof fn lemma_free_push_fresh(live: Seq<(u32, HeapObject)>, free: Seq<(HeapAddr, u32)>, next: u32, s: u32)
    requires
        heap_ok(live, free, next),
        next < u32::MAX,
    ensures
        heap_ok(live, free.push((HeapAddr(next), s)), (next + 1) as u32),
{
    let f2 = free.push((HeapAddr(next), s));
    assert forall|a: int, b: int| 0 <= a < b < f2.len() implies #[trigger] f2[a].0 != #[trigger] f2[b].0 by {
        if b < free.len() {
            assert(f2[a] == free[a] && f2[b] == free[b]);
        } else {
            assert(f2[a] == free[a]);
            assert(f2[b] == (HeapAddr(next), s));
            assert(f2[a].0.0 < next);
        }
    }
    assert forall|a: int, b: int| 0 <= a < live.len() && 0 <= b < f2.len() implies #[trigger] live[a].0 != #[trigger] f2[b].0.0 by {
        if b < free.len() {
            assert(f2[b] == free[b]);
            assert(live[a].0 != free[b].0.0);
        } else {
            assert(f2[b] == (HeapAddr(next), s));
            assert(live[a].0 < next);
        }
    }
    assert forall|b: int| 0 <= b < f2.len() implies #[trigger] f2[b].0.0 < next + 1 by {
        if b < free.len() {
            assert(f2[b] == free[b]);
        }
    }
}

/// The heap: live allocations, freed chunks, and the next unused address.
pub struct HeapState {
    objects: IndexMap<u32, HeapObject>,
    free_list: Vec<(HeapAddr, u32)>,
    next_addr: u32,
}

impl HeapState {
    /// Live allocations in allocation order.
    pub closed spec fn live(self) -> Seq<(u32, HeapObject)> {
        heap_entries(self.objects)
    }

    /// Freed chunks with their sizes, oldest first.
    pub closed spec fn free(self) -> Seq<(HeapAddr, u32)> {
        self.free_list@
    }

    /// The next address never handed out.
    pub closed spec fn next(self) -> u32 {
        self.next_addr
    }

    /// Every address is handed out once (see [`heap_ok`]).
    pub open spec fn wf(self) -> bool {
        heap_ok(self.live(), self.free(), self.next())
    }

    /// An empty heap; addresses start at 0.
    pub fn new() -> (h: HeapState)
        ensures
            h.wf(),
            h.live() == Seq::<(u32, HeapObject)>::empty(),
            h.free() == Seq::<(HeapAddr, u32)>::empty(),
            h.next() == 0,
    {
        HeapState { objects: objects_new(), free_list: Vec::new(), next_addr: 0 }
    }

    /// A fresh address.
    fn alloc_heap_addr(&mut self) -> (a: HeapAddr)
        requires
            old(self).next() < u32::MAX,
        ensures
            a.0 == old(self).next(),
            final(self).next() == old(self).next() + 1,
            final(self).live() == old(self).live(),
            final(self).free() == old(self).free(),
    {
        let a = HeapAddr(self.next_addr);
        self.next_addr = self.next_addr + 1;
        a
    }

    /// First fit: the first freed chunk of at least `needed` bytes is
    /// reused; what it has beyond `needed` stays freed under a new address,
    /// reported as the fragment. Without a fitting chunk, a new address.
    pub fn alloc_heap_addr_sized(&mut self, needed: u32) -> (r: (HeapAddr, Option<(HeapAddr, u32)>))
        requires
            old(self).wf(),
            needs_fresh_addr(old(self).free(), needed) ==> old(self).next() < u32::MAX,
        ensures
            final(self).wf(),
            final(self).live() == old(self).live(),
            forall|i: int| 0 <= i < final(self).live().len() ==> #[trigger] final(self).live()[i].0 != r.0.0,
            forall|j: int| 0 <= j < final(self).free().len() ==> #[trigger] final(self).free()[j].0 != r.0,
            r.0.0 < final(self).next(),
            match first_fit(old(self).free(), needed) {
                Some(i) => {
                    let (a, s) = old(self).free()[i];
                    &&& r.0 == a
                    &&& if s > needed {
                        &&& r.1 == Some((HeapAddr(old(self).next()), (s - needed) as u32))
                        &&& final(self).free() == old(self).free().remove(i).push(
                            (HeapAddr(old(self).next()), (s - needed) as u32),
                        )
                        &&& final(self).next() == old(self).next() + 1
                    } else {
                        &&& r.1 is None
                        &&& final(self).free() == old(self).free().remove(i)
                        &&& final(self).next() == old(self).next()
                    }
                },
                None => {
                    &&& r.0 == HeapAddr(old(self).next())
                    &&& r.1 is None
                    &&& final(self).free() == old(self).free()
                    &&& final(self).next() == old(self).next() + 1
                },
            },
    {
        let mut idx: usize = 0;
        let n = self.free_list.len();
        while idx < n && self.free_list[idx].1 < needed
            invariant
                n == self.free_list@.len(),
                idx <= n,
                forall|j: int| 0 <= j < idx ==> #[trigger] self.free_list@[j].1 < needed,
            decreases n - idx,
        {
            idx = idx + 1;
        }
        if idx < n {
            proof {
                let ghost f = self.free_list@;
                assert(f[idx as int].1 >= needed);
                let c = first_fit(f, needed)->0;
                assert(c == idx) by {
                    if c < idx {
                        assert(f[c].1 < needed);
                    } else if c > idx {
                        assert(f[idx as int].1 < needed);
                    }
                }
            }
            let ghost f0 = self.free_list@;
            proof {
                lemma_free_remove(self.live(), f0, self.next(), idx as int);
            }
            let (addr, size) = self.free_list.remove(idx);
            if size > needed {
                let ghost f1 = self.free_list@;
                proof {
                    lemma_free_push_fresh(self.live(), f1, self.next(), (size - needed) as u32);
                }
                let frag_addr = self.alloc_heap_addr();
                let frag_size = size - needed;
                self.free_list.push((frag_addr, frag_size));
                proof {
                    assert(self.free_list@ == f1.push((frag_addr, frag_size)));
                    assert forall|j: int| 0 <= j < self.free().len() implies #[trigger] self.free()[j].0 != addr by {
                        if j < f1.len() {
                            assert(self.free()[j] == f1[j]);
                        }
                    }
                }
                return (addr, Some((frag_addr, frag_size)));
            }
            return (addr, None);
        }
        proof {
            lemma_fresh_ok(self.live(), self.free(), self.next());
        }
        (self.alloc_heap_addr(), None)
    }

    /// The elements of the live `Vec` buffer a value owns.
    pub open spec fn vec_elements(self, v: Value) -> Seq<Value> {
        match find_live(self.live(), v->Vec_addr.0) {
            Some(k) => match self.live()[k].1 {
                HeapObject::Vec { elements, .. } => elements@,
                _ => Seq::empty(),
            },
            None => Seq::empty(),
        }
    }

    /// Whether `v` owns a live `Vec` buffer.
    pub open spec fn owns_live_vec(self, v: Value) -> bool {
        v is Vec && match find_live(self.live(), v->Vec_addr.0) {
            Some(k) => self.live()[k].1 is Vec,
            None => false,
        }
    }

    /// Index a `Vec` value with an integer: the element when the index is
    /// non-negative and, taken as a `usize`, below the length; otherwise
    /// the out-of-bounds runtime error with the length and the index.
    pub fn eval_index(&self, recv: Value, idx: Value) -> (r: Result<Value, String>)
        requires
            self.wf(),
            self.owns_live_vec(recv),
            idx is Int,
        ensures
            ({
                let els = self.vec_elements(recv);
                let i = idx->Int_bits;
                if 0 <= i && (i as usize) < els.len() {
                    r == Ok::<Value, String>(els[(i as usize) as int])
                } else {
                    r matches Err(m) && m@ == "index out of bounds: the len is "@ + decimal(
                        els.len(),
                    ) + " but the index is "@ + signed_decimal(i as int)
                }
            }),
    {
        // The `requires` rules out every other shape of the operands.
        let i = match idx {
            Value::Int { bits, .. } => bits,
            _ => 0,
        };
        let addr = match recv {
            Value::Vec { addr } => addr,
            _ => HeapAddr(0),
        };
        match objects_get(&self.objects, addr.0) {
            Some(obj) => {
                proof {
                    let t = self.live();
                    let j = choose|j: int| 0 <= j < t.len() && #[trigger] t[j].0 == addr.0 && t[j].1 == *obj;
                    let c = find_live(t, addr.0)->0;
                    assert(c == j) by {
                        if c < j {
                            assert(t[c].0 != t[j].0);
                        } else if c > j {
                            assert(t[j].0 != t[c].0);
                        }
                    }
                }
                match obj {
                    HeapObject::Vec { elements, .. } => {
                        if i < 0 || (i as usize) >= elements.len() {
                            let s = concat_str(
                                String::from_str("index out of bounds: the len is "),
                                decimal_string(elements.len() as u64).as_str(),
                            );
                            let s = concat_str(s, " but the index is ");
                            let m = concat_str(s, signed_decimal_string(i).as_str());
                            return Err(m);
                        }
                        Ok(elements[i as usize])
                    },
                    _ => Err(String::new()),
                }
            },
            None => Err(String::new()),
        }
    }

    /// Free the live allocation at `addr`, if any: it leaves the live
    /// table (the later ones keep their order), its total size joins the
    /// freed chunks, and a `HeapFree` event reports it.
    pub fn free_heap(&mut self, events: &mut Vec<MemEvent>, addr: HeapAddr, span: Span)
        requires
            old(self).wf(),
        ensures
            final(self).wf(),
            final(self).next() == old(self).next(),
            match find_live(old(self).live(), addr.0) {
                Some(i) => {
                    &&& final(self).live() == old(self).live().remove(i)
                    &&& final(self).free() == old(self).free().push(
                        (addr, object_bytes(old(self).live()[i].1).0 as u32),
                    )
                    &&& final(events)@ == old(events)@.push(MemEvent::HeapFree { addr, span })
                },
                None => {
                    &&& final(self).live() == old(self).live()
                    &&& final(self).free() == old(self).free()
                    &&& final(events)@ == old(events)@
                },
            },
    {
        let ghost t = self.live();
        let removed = objects_shift_remove(&mut self.objects, addr.0);
        match removed {
            Some(obj) => {
                proof {
                    let i = choose|i: int| 0 <= i < t.len() && #[trigger] t[i].0 == addr.0 && self.live() == t.remove(i) && Some(obj) == Some(t[i].1);
                    let c = find_live(t, addr.0)->0;
                    assert(c == i) by {
                        if c != i {
                            if c < i {
                                assert(t[c].0 != t[i].0);
                            } else {
                                assert(t[i].0 != t[c].0);
                            }
                        }
                    }
                    assert(object_fits(t[i].1));
                    lemma_live_to_free(t, self.free(), self.next(), i, object_bytes(t[i].1).0 as u32);
                    assert(HeapAddr(t[i].0) == addr);
                }
                let (size, _) = heap_object_bytes(&obj);
                events.push(MemEvent::HeapFree { addr, span });
                self.free_list.push((addr, size));
            },
            None => {},
        }
    }

    /// Allocate `obj` at the address the first-fit allocator picks for
    /// `size` bytes. When a freed chunk was split, a note explains the
    /// reuse; then a `HeapAlloc` event reports the block with its used
    /// bytes and the leftover fragment.
    pub fn alloc_heap(
        &mut self,
        events: &mut Vec<MemEvent>,
        obj: HeapObject,
        ty_name: String,
        size: u32,
        span: Span,
    ) -> (addr: HeapAddr)
        requires
            old(self).wf(),
            object_fits(obj),
            needs_fresh_addr(old(self).free(), size) ==> old(self).next() < u32::MAX,
        ensures
            final(self).wf(),
            final(self).live() == (match first_fit(old(self).free(), size) {
                Some(i) => old(self).live().push((old(self).free()[i].0.0, obj)),
                None => old(self).live().push((old(self).next(), obj)),
            }),
            addr.0 == final(self).live().last().0,
            alloc_events_are(
                old(events)@,
                final(events)@,
                addr,
                match first_fit(old(self).free(), size) {
                    Some(i) => if old(self).free()[i].1 > size {
                        Some((HeapAddr(old(self).next()), (old(self).free()[i].1 - size) as u32))
                    } else {
                        None
                    },
                    None => None,
                },
                size,
                object_bytes(obj).1,
                ty_name,
                span,
            ),
    {
        let (addr, fragment) = self.alloc_heap_addr_sized(size);
        let (_, used) = heap_object_bytes(&obj);
        let ghost before = self.live();
        let ghost obj_v = obj;
        let _previous = objects_insert(&mut self.objects, addr.0, obj);
        proof {
            assert(self.live() == before.push((addr.0, obj_v)));
            assert forall|i: int, j: int|
                0 <= i < j < self.live().len() implies #[trigger] self.live()[i].0
                != #[trigger] self.live()[j].0 by {
                if j < before.len() {
                    assert(self.live()[i] == before[i]);
                    assert(self.live()[j] == before[j]);
                }
            }
            assert forall|i: int, j: int|
                0 <= i < self.live().len() && 0 <= j < self.free().len() implies #[trigger] self.live()[i].0
                != #[trigger] self.free()[j].0.0 by {
                if i < before.len() {
                    assert(self.live()[i] == before[i]);
                }
            }
            assert forall|i: int| 0 <= i < self.live().len() implies #[trigger] self.live()[i].0 < self.next() by {
                if i < before.len() {
                    assert(self.live()[i] == before[i]);
                }
            }
            assert forall|i: int| 0 <= i < self.live().len() implies object_fits(#[trigger] self.live()[i].1) by {
                if i < before.len() {
                    assert(self.live()[i] == before[i]);
                }
            }
        }
        let ghost ev0 = events@;
        match fragment {
            Some((frag_addr, frag_size)) => {
                let total = size as u64 + frag_size as u64;
                let s = concat_str(String::from_str("Allocator first-fit: heap #"), decimal_string(addr.0 as u64).as_str());
                let s = concat_str(s, " (was ");
                let s = concat_str(s, decimal_string(total).as_str());
                let s = concat_str(s, "B freed) reused for this ");
                let s = concat_str(s, decimal_string(size as u64).as_str());
                let s = concat_str(s, "B request. The ");
                let s = concat_str(s, decimal_string(frag_size as u64).as_str());
                let s = concat_str(s, "B leftover stays freed as heap #");
                let s = concat_str(s, decimal_string(frag_addr.0 as u64).as_str());
                let m = concat_str(s, " \u{2014} available for the next request that fits.");
                proof {
                    assert(m@ == reuse_note(addr, size, (frag_addr, frag_size)));
                }
                events.push(MemEvent::Note { kind: NoteKind::Info, message: m, span });
            },
            None => {},
        }
        events.push(
            MemEvent::HeapAlloc {
                addr,
                size,
                used,
                ty_name,
                fragment_of: None,
                split_remainder: fragment,
                span,
            },
        );
        proof {
            assert(events@.subrange(0, ev0.len() as int) =~= ev0);
        }
        addr
    }
}

/// The text of the note on a split reuse: block `addr` of `size` bytes
/// came out of a freed chunk of `size + fragment size` bytes.
pub open spec fn reuse_note(addr: HeapAddr, size: u32, frag: (HeapAddr, u32)) -> Seq<char> {
    "Allocator first-fit: heap #"@ + decimal(addr.0 as nat) + " (was "@ + decimal(
        (size + frag.1) as nat,
    ) + "B freed) reused for this "@ + decimal(size as nat) + "B request. The "@ + decimal(
        frag.1 as nat,
    ) + "B leftover stays freed as heap #"@ + decimal(frag.0.0 as nat)
        + " \u{2014} available for the next request that fits."@
}

/// The events an allocation appends: the reuse note when a chunk was
/// split, then the `HeapAlloc` of the block.
pub open spec fn alloc_events_are(
    before: Seq<MemEvent>,
    after: Seq<MemEvent>,
    addr: HeapAddr,
    frag: Option<(HeapAddr, u32)>,
    size: u32,
    used: int,
    ty_name: String,
    span: Span,
) -> bool {
    let k: int = if frag is Some {
        1
    } else {
        0
    };
    &&& after.len() == before.len() + k + 1
    &&& after.subrange(0, before.len() as int) == before
    &&& (frag matches Some(f) ==> (after[before.len() as int] matches MemEvent::Note {
        kind,
        message,
        span: sp,
    } && kind == NoteKind::Info && message@ == reuse_note(addr, size, f) && sp == span))
    &&& after[before.len() + k] == (MemEvent::HeapAlloc {
        addr,
        size,
        used: used as u32,
        ty_name,
        fragment_of: None,
        split_remainder: frag,
        span,
    })
}

/// A local variable's slot in a scope.
#[derive(Clone, Copy, Debug, PartialEq)]
pub struct LocalSlot {
    /// The binding the slot holds.
    pub binding_id: BindingId,
    /// The stack slot.
    pub slot_id: SlotId,
    /// The value currently in the slot.
    pub value: Value,
    /// Span of the declaration.
    pub decl_span: Span,
    /// Whether the value was moved out; a moved local is not dropped.
    pub moved: bool,
}

/// One lexical scope of a frame.
#[derive(Debug)]
pub struct Scope {
    /// Locals in declaration order.
    pub locals: Vec<LocalSlot>,
    /// Borrows created in this scope, in creation order.
    pub borrows: Vec<BorrowId>,
    /// Heap allocations made in this scope.
    pub heap_allocs: Vec<HeapAddr>,
}

/// An event of leaving a scope, by what it reports.
pub enum DropStep {
    /// A borrow ends.
    End(BorrowId),
    /// An explanatory note with this text.
    Explain(Seq<char>),
    /// An allocation is freed.
    Free(HeapAddr),
}

/// Whether event `e` is the step `d` at `span`.
pub open spec fn step_is(e: MemEvent, d: DropStep, span: Span) -> bool {
    match d {
        DropStep::End(b) => e == (MemEvent::BorrowEnd { borrow_id: b, span }),
        DropStep::Explain(m) => e matches MemEvent::Note { kind, message, span: sp } && kind
            == NoteKind::Info && message@ == m && sp == span,
        DropStep::Free(a) => e == (MemEvent::HeapFree { addr: a, span }),
    }
}

/// The live and freed tables of a heap.
pub open spec fn heap_view(h: HeapState) -> (Seq<(u32, HeapObject)>, Seq<(HeapAddr, u32)>) {
    (h.live(), h.free())
}

/// What freeing `addr` does to the tables, and the step it reports.
pub open spec fn free_effect(h: (Seq<(u32, HeapObject)>, Seq<(HeapAddr, u32)>), addr: HeapAddr) -> (
    (Seq<(u32, HeapObject)>, Seq<(HeapAddr, u32)>),
    Seq<DropStep>,
) {
    match find_live(h.0, addr.0) {
        Some(i) => (
            (h.0.remove(i), h.1.push((addr, object_bytes(h.0[i].1).0 as u32))),
            seq![DropStep::Free(addr)],
        ),
        None => (h, Seq::empty()),
    }
}

/// The allocation a value owns and the owner's type word (`Box`, `Vec`,
/// `String`).
pub open spec fn owned_alloc(v: Value) -> Option<(HeapAddr, Seq<char>)> {
    match v {
        Value::Box { addr } => Some((addr, "Box"@)),
        Value::Vec { addr } => Some((addr, "Vec"@)),
        Value::String { addr } => Some((addr, "String"@)),
        _ => None,
    }
}

/// No binding number occurs twice in a declaration table.
pub open spec fn decl_keys_unique(t: Seq<(u32, BindingDecl)>) -> bool {
    forall|i: int, j: int| 0 <= i < j < t.len() ==> #[trigger] t[i].0 != #[trigger] t[j].0
}

/// The name a local is called by in notes: its binding's name, or
/// `slot<N>` when the binding is not declared.
pub open spec fn local_name(names: Seq<(u32, BindingDecl)>, l: LocalSlot) -> Seq<char> {
    if exists|i: int| 0 <= i < names.len() && #[trigger] names[i].0 == l.binding_id.0 {
        names[choose|i: int| 0 <= i < names.len() && #[trigger] names[i].0 == l.binding_id.0].1.name@
    } else {
        "slot"@ + decimal(l.slot_id.0 as nat)
    }
}

/// The note explaining a heap-owning local's drop.
pub open spec fn drop_note(name: Seq<char>, kind: Seq<char>, addr: HeapAddr) -> Seq<char> {
    "`"@ + name + "` goes out of scope: Drop runs on the "@ + kind + ", freeing heap addr "@
        + decimal(addr.0 as nat)
        + " (the stack pointer-bytes themselves persist until the frame is reused)"@
}

/// What dropping one local does: nothing for a moved local or one that
/// owns no allocation; otherwise an explanatory note, then its allocation
/// is freed.
pub open spec fn local_effect(
    h: (Seq<(u32, HeapObject)>, Seq<(HeapAddr, u32)>),
    l: LocalSlot,
    names: Seq<(u32, BindingDecl)>,
) -> ((Seq<(u32, HeapObject)>, Seq<(HeapAddr, u32)>), Seq<DropStep>) {
    if l.moved {
        (h, Seq::empty())
    } else {
        match owned_alloc(l.value) {
            None => (h, Seq::empty()),
            Some((a, k)) => {
                let (h2, e) = free_effect(h, a);
                (h2, seq![DropStep::Explain(drop_note(local_name(names, l), k, a))] + e)
            },
        }
    }
}

/// Dropping the first `n` locals, last declared first.
pub open spec fn locals_effect(
    h: (Seq<(u32, HeapObject)>, Seq<(HeapAddr, u32)>),
    locals: Seq<LocalSlot>,
    n: nat,
    names: Seq<(u32, BindingDecl)>,
) -> ((Seq<(u32, HeapObject)>, Seq<(HeapAddr, u32)>), Seq<DropStep>)
    decreases n,
{
    if n == 0 || n > locals.len() {
        (h, Seq::empty())
    } else {
        let (h1, e1) = local_effect(h, locals[n - 1], names);
        let (h2, e2) = locals_effect(h1, locals, (n - 1) as nat, names);
        (h2, e1 + e2)
    }
}

/// Leaving a scope: every borrow made in it ends, newest first; then its
/// locals are dropped, last declared first.
pub open spec fn scope_effect(
    h: (Seq<(u32, HeapObject)>, Seq<(HeapAddr, u32)>),
    borrows: Seq<BorrowId>,
    locals: Seq<LocalSlot>,
    names: Seq<(u32, BindingDecl)>,
) -> ((Seq<(u32, HeapObject)>, Seq<(HeapAddr, u32)>), Seq<DropStep>) {
    let ends = Seq::new(borrows.len(), |i: int| DropStep::End(borrows[borrows.len() - 1 - i]));
    let (h2, e) = locals_effect(h, locals, locals.len(), names);
    (h2, ends + e)
}

/// The events appended from `base` on are the steps `steps`.
pub open spec fn appended(before: Seq<MemEvent>, after: Seq<MemEvent>, steps: Seq<DropStep>, span: Span) -> bool {
    &&& after.len() == before.len() + steps.len()
    &&& after.subrange(0, before.len() as int) == before
    &&& forall|j: int| 0 <= j < steps.len() ==> step_is(#[trigger] after[before.len() + j], steps[j], span)
}

/// Drop one local at the end of its scope.
fn drop_local(
    heap: &mut HeapState,
    events: &mut Vec<MemEvent>,
    l: LocalSlot,
    res: &Resolution,
    span: Span,
)
    requires
        old(heap).wf(),
        decl_keys_unique(binding_entries(res.bindings)),
    ensures
        final(heap).wf(),
        final(heap).next() == old(heap).next(),
        heap_view(*final(heap)) == local_effect(heap_view(*old(heap)), l, binding_entries(res.bindings)).0,
        appended(
            old(events)@,
            final(events)@,
            local_effect(heap_view(*old(heap)), l, binding_entries(res.bindings)).1,
            span,
        ),
{
    let ghost ev0 = events@;
    if l.moved {
        assert(events@.subrange(0, ev0.len() as int) =~= ev0);
        return;
    }
    let (addr, kind) = match l.value {
        Value::Box { addr } => (addr, "Box"),
        Value::Vec { addr } => (addr, "Vec"),
        Value::String { addr } => (addr, "String"),
        _ => {
            assert(events@.subrange(0, ev0.len() as int) =~= ev0);
            return;
        },
    };
    let name = match bindings_get(&res.bindings, l.binding_id.0) {
        Some(d) => {
            proof {
                let t = binding_entries(res.bindings);
                let i = choose|i: int| 0 <= i < t.len() && #[trigger] t[i].0 == l.binding_id.0 && t[i].1 == *d;
                let c = choose|c: int| 0 <= c < t.len() && #[trigger] t[c].0 == l.binding_id.0;
                assert(c == i) by {
                    if c < i {
                        assert(t[c].0 != t[i].0);
                    } else if c > i {
                        assert(t[i].0 != t[c].0);
                    }
                }
            }
            d.name.clone()
        },
        None => concat_str(String::from_str("slot"), decimal_string(l.slot_id.0 as u64).as_str()),
    };
    let s = concat_str(String::from_str("`"), name.as_str());
    let s = concat_str(s, "` goes out of scope: Drop runs on the ");
    let s = concat_str(s, kind);
    let s = concat_str(s, ", freeing heap addr ");
    let s = concat_str(s, decimal_string(addr.0 as u64).as_str());
    let m = concat_str(s, " (the stack pointer-bytes themselves persist until the frame is reused)");
    proof {
        assert(m@ == drop_note(local_name(binding_entries(res.bindings), l), kind@, addr));
    }
    events.push(MemEvent::Note { kind: NoteKind::Info, message: m, span });
    let ghost ev1 = events@;
    heap.free_heap(events, addr, span);
    proof {
        let steps = local_effect(heap_view(*old(heap)), l, binding_entries(res.bindings)).1;
        assert(events@.subrange(0, ev0.len() as int) =~= ev0);
        assert forall|j: int| 0 <= j < steps.len() implies step_is(#[trigger] events@[ev0.len() + j], steps[j], span) by {
            if j == 0 {
                assert(events@[ev0.len() + j] == ev1[ev0.len() as int]);
            }
        }
    }
}

/// Leave a scope: end every borrow made in it, newest first, then drop its
/// locals, last declared first; a local owning a `Box`, `Vec` or `String`
/// gets an explanatory note and its allocation is freed.
pub fn drop_scope(
    heap: &mut HeapState,
    events: &mut Vec<MemEvent>,
    scope: Scope,
    res: &Resolution,
    end_span: Span,
)
    requires
        old(heap).wf(),
        decl_keys_unique(binding_entries(res.bindings)),
    ensures
        final(heap).wf(),
        final(heap).next() == old(heap).next(),
        heap_view(*final(heap)) == scope_effect(
            heap_view(*old(heap)),
            scope.borrows@,
            scope.locals@,
            binding_entries(res.bindings),
        ).0,
        appended(
            old(events)@,
            final(events)@,
            scope_effect(
                heap_view(*old(heap)),
                scope.borrows@,
                scope.locals@,
                binding_entries(res.bindings),
            ).1,
            end_span,
        ),
{
    let ghost ev0 = events@;
    let ghost h0 = heap_view(*heap);
    let ghost names = binding_entries(res.bindings);
    let Scope { locals, borrows, heap_allocs: _ } = scope;
    let bl = borrows.len();
    let ghost ends = Seq::new(bl as nat, |i: int| DropStep::End(borrows@[bl - 1 - i]));
    let mut k = bl;
    while k > 0
        invariant
            k <= bl == borrows@.len(),
            ends == Seq::new(bl as nat, |i: int| DropStep::End(borrows@[bl - 1 - i])),
            events@.len() == ev0.len() + (bl - k),
            events@.subrange(0, ev0.len() as int) == ev0,
            forall|j: int| 0 <= j < bl - k ==> step_is(#[trigger] events@[ev0.len() + j], ends[j], end_span),
        decreases k,
    {
        k = k - 1;
        let ghost before = events@;
        events.push(MemEvent::BorrowEnd { borrow_id: borrows[k], span: end_span });
        proof {
            assert(events@.subrange(0, ev0.len() as int) =~= before.subrange(0, ev0.len() as int));
            assert forall|j: int| 0 <= j < bl - k implies step_is(#[trigger] events@[ev0.len() + j], ends[j], end_span) by {
                if j < bl - k - 1 {
                    assert(events@[ev0.len() + j] == before[ev0.len() + j]);
                }
            }
        }
    }
    let ghost ev_mid = events@;
    assert(events@.subrange(0, ev_mid.len() as int) =~= ev_mid);
    let n = locals.len();
    let mut i = n;
    let ghost mut done: Seq<DropStep> = Seq::empty();
    while i > 0
        invariant
            i <= n == locals@.len(),
            heap.wf(),
            heap.next() == old(heap).next(),
            names == binding_entries(res.bindings),
            decl_keys_unique(names),
            locals_effect(h0, locals@, n as nat, names) == (
                locals_effect(heap_view(*heap), locals@, i as nat, names).0,
                done + locals_effect(heap_view(*heap), locals@, i as nat, names).1,
            ),
            appended(ev_mid, events@, done, end_span),
        decreases i,
    {
        let ghost cur = heap_view(*heap);
        let ghost evb = events@;
        let l = locals[i - 1];
        drop_local(heap, events, l, res, end_span);
        proof {
            let e1 = local_effect(cur, l, names).1;
            let rest = locals_effect(heap_view(*heap), locals@, (i - 1) as nat, names);
            assert(locals_effect(cur, locals@, i as nat, names) == (rest.0, e1 + rest.1));
            assert(done + (e1 + rest.1) =~= (done + e1) + rest.1);
            assert(events@.subrange(0, ev_mid.len() as int) =~= evb.subrange(0, ev_mid.len() as int));
            assert forall|j: int| 0 <= j < (done + e1).len() implies step_is(#[trigger] events@[ev_mid.len() + j], (done + e1)[j], end_span) by {
                if j < done.len() {
                    assert(events@[ev_mid.len() + j] == evb[ev_mid.len() + j]);
                } else {
                    assert(events@[ev_mid.len() + j] == events@[evb.len() + (j - done.len())]);
                }
            }
            done = done + e1;
        }
        i = i - 1;
    }
    proof {
        assert(locals_effect(heap_view(*heap), locals@, 0, names).1 =~= Seq::<DropStep>::empty());
        assert(done + Seq::<DropStep>::empty() =~= done);
        let steps = ends + done;
        assert(events@.subrange(0, ev0.len() as int) =~= ev_mid.subrange(0, ev0.len() as int));
        assert forall|j: int| 0 <= j < steps.len() implies step_is(#[trigger] events@[ev0.len() + j], steps[j], end_span) by {
            if j < bl {
                assert(events@[ev0.len() + j] == ev_mid[ev0.len() + j]);
            } else {
                assert(events@[ev0.len() + j] == events@[ev_mid.len() + (j - bl)]);
            }
        }
    }
}

/// View of a scope: its locals, borrows and allocations.
pub struct ScopeV {
    pub locals: Seq<LocalSlot>,
    pub borrows: Seq<BorrowId>,
    pub heap_allocs: Seq<HeapAddr>,
}

/// View of a scope.
pub open spec fn scope_v(s: Scope) -> ScopeV {
    ScopeV { locals: s.locals@, borrows: s.borrows@, heap_allocs: s.heap_allocs@ }
}

/// A local after its owner moved from `from` to `to`: a `Box`, `Vec` or
/// `String` owning `from` now owns `to`.
pub open spec fn retarget_local(l: LocalSlot, from: HeapAddr, to: HeapAddr) -> LocalSlot {
    match l.value {
        Value::Vec { addr } => if addr == from {
            LocalSlot { value: Value::Vec { addr: to }, ..l }
        } else {
            l
        },
        Value::String { addr } => if addr == from {
            LocalSlot { value: Value::String { addr: to }, ..l }
        } else {
            l
        },
        Value::Box { addr } => if addr == from {
            LocalSlot { value: Value::Box { addr: to }, ..l }
        } else {
            l
        },
        _ => l,
    }
}

/// An allocation record after `from` moved to `to`.
pub open spec fn retarget_addr(a: HeapAddr, from: HeapAddr, to: HeapAddr) -> HeapAddr {
    if a == from {
        to
    } else {
        a
    }
}

/// A scope after the allocation at `from` moved to `to`.
pub open spec fn retarget_scope(s: ScopeV, from: HeapAddr, to: HeapAddr) -> ScopeV {
    ScopeV {
        locals: s.locals.map_values(|l: LocalSlot| retarget_local(l, from, to)),
        borrows: s.borrows,
        heap_allocs: s.heap_allocs.map_values(|a: HeapAddr| retarget_addr(a, from, to)),
    }
}

/// Whether a local holds a borrow (reference or slice) into `from`.
pub open spec fn points_into(l: LocalSlot, from: HeapAddr) -> bool {
    match l.value {
        Value::Ref { target, .. } => target == Pointee::Heap(from),
        Value::Slice { target, .. } => target == Pointee::Heap(from),
        _ => false,
    }
}

/// Declaration spans of the first `n` locals that borrow into `from`.
pub open spec fn dangling_locals(locals: Seq<LocalSlot>, from: HeapAddr, n: nat) -> Seq<Span>
    decreases n,
{
    if n == 0 || n > locals.len() {
        Seq::empty()
    } else {
        dangling_locals(locals, from, (n - 1) as nat) + if points_into(locals[n - 1], from) {
            seq![locals[n - 1].decl_span]
        } else {
            Seq::empty()
        }
    }
}

/// Declaration spans of the locals, scope by scope, that borrow into
/// `from`, over the first `n` scopes.
pub open spec fn dangling_scopes(scopes: Seq<ScopeV>, from: HeapAddr, n: nat) -> Seq<Span>
    decreases n,
{
    if n == 0 || n > scopes.len() {
        Seq::empty()
    } else {
        dangling_scopes(scopes, from, (n - 1) as nat) + dangling_locals(
            scopes[n - 1].locals,
            from,
            scopes[n - 1].locals.len(),
        )
    }
}

/// The runtime error reported for a borrow left pointing at a moved
/// buffer.
pub open spec fn dangling_message(from: HeapAddr) -> Seq<char> {
    "dangling reference: borrow still points at heap #"@ + decimal(from.0 as nat)
        + ", which was freed during the realloc"@
}

/// Views of a list of scopes.
pub open spec fn scopes_v(s: Seq<Scope>) -> Seq<ScopeV> {
    s.map_values(|x: Scope| scope_v(x))
}

fn retarget_scope_exec(s: &Scope, from: HeapAddr, to: HeapAddr) -> (r: Scope)
    ensures
        scope_v(r) == retarget_scope(scope_v(*s), from, to),
{
    let mut locals: Vec<LocalSlot> = Vec::new();
    let mut j: usize = 0;
    while j < s.locals.len()
        invariant
            j <= s.locals@.len(),
            locals@ == s.locals@.subrange(0, j as int).map_values(|l: LocalSlot| retarget_local(l, from, to)),
        decreases s.locals@.len() - j,
    {
        let l = s.locals[j];
        let nl = match l.value {
            Value::Vec { addr } => if addr == from {
                LocalSlot { value: Value::Vec { addr: to }, ..l }
            } else {
                l
            },
            Value::String { addr } => if addr == from {
                LocalSlot { value: Value::String { addr: to }, ..l }
            } else {
                l
            },
            Value::Box { addr } => if addr == from {
                LocalSlot { value: Value::Box { addr: to }, ..l }
            } else {
                l
            },
            _ => l,
        };
        locals.push(nl);
        proof {
            assert(s.locals@.subrange(0, j + 1) =~= s.locals@.subrange(0, j as int).push(l));
        }
        j = j + 1;
        proof {
            assert(locals@ =~= s.locals@.subrange(0, j as int).map_values(|l: LocalSlot| retarget_local(l, from, to)));
        }
    }
    let mut borrows: Vec<BorrowId> = Vec::new();
    let mut k: usize = 0;
    while k < s.borrows.len()
        invariant
            k <= s.borrows@.len(),
            borrows@ == s.borrows@.subrange(0, k as int),
        decreases s.borrows@.len() - k,
    {
        borrows.push(s.borrows[k]);
        k = k + 1;
        proof {
            assert(borrows@ =~= s.borrows@.subrange(0, k as int));
        }
    }
    let mut allocs: Vec<HeapAddr> = Vec::new();
    let mut m: usize = 0;
    while m < s.heap_allocs.len()
        invariant
            m <= s.heap_allocs@.len(),
            allocs@ == s.heap_allocs@.subrange(0, m as int).map_values(|a: HeapAddr| retarget_addr(a, from, to)),
        decreases s.heap_allocs@.len() - m,
    {
        let a = s.heap_allocs[m];
        allocs.push(if a == from { to } else { a });
        proof {
            assert(s.heap_allocs@.subrange(0, m + 1) =~= s.heap_allocs@.subrange(0, m as int).push(a));
        }
        m = m + 1;
        proof {
            assert(allocs@ =~= s.heap_allocs@.subrange(0, m as int).map_values(|a: HeapAddr| retarget_addr(a, from, to)));
        }
    }
    proof {
        assert(s.locals@.subrange(0, s.locals@.len() as int) =~= s.locals@);
        assert(s.borrows@.subrange(0, s.borrows@.len() as int) =~= s.borrows@);
        assert(s.heap_allocs@.subrange(0, s.heap_allocs@.len() as int) =~= s.heap_allocs@);
    }
    Scope { locals, borrows, heap_allocs: allocs }
}

proof fn lemma_live_push_fresh(
    live: Seq<(u32, HeapObject)>,
    free: Seq<(HeapAddr, u32)>,
    next: u32,
    a: u32,
    obj: HeapObject,
)
    requires
        heap_ok(live, free, next),
        a < next,
        forall|i: int| 0 <= i < live.len() ==> #[trigger] live[i].0 != a,
        forall|j: int| 0 <= j < free.len() ==> #[trigger] free[j].0.0 != a,
        object_fits(obj),
    ensures
        heap_ok(live.push((a, obj)), free, next),
{
    let l2 = live.push((a, obj));
    assert forall|x: int, y: int| 0 <= x < y < l2.len() implies #[trigger] l2[x].0 != #[trigger] l2[y].0 by {
        assert(l2[x] == live[x]);
        if y < live.len() {
            assert(l2[y] == live[y]);
        }
    }
    assert forall|x: int, y: int| 0 <= x < l2.len() && 0 <= y < free.len() implies #[trigger] l2[x].0 != #[trigger] free[y].0.0 by {
        if x < live.len() {
            assert(l2[x] == live[x]);
        }
    }
    assert forall|x: int| 0 <= x < l2.len() implies #[trigger] l2[x].0 < next by {
        if x < live.len() {
            assert(l2[x] == live[x]);
        }
    }
    assert forall|x: int| 0 <= x < l2.len() implies object_fits(#[trigger] l2[x].1) by {
        if x < live.len() {
            assert(l2[x] == live[x]);
        }
    }
}

/// Move the live buffer at `from` to a new address for its grown contents
/// `obj` (`new_size` bytes, shown as `new_display`): the old block is freed
/// with its old size, the new one is live at a fresh address, and every
/// scope's owners and allocation records follow it to the new address.
/// Reports the `HeapRealloc`, then a runtime error at every local whose
/// reference or slice still points into the old block, scope by scope.
pub fn realloc_heap(
    heap: &mut HeapState,
    events: &mut Vec<MemEvent>,
    scopes: &mut Vec<Scope>,
    from: HeapAddr,
    obj: HeapObject,
    new_size: u32,
    new_display: String,
    span: Span,
) -> (to: HeapAddr)
    requires
        old(heap).wf(),
        object_fits(obj),
        old(heap).next() < u32::MAX,
        find_live(old(heap).live(), from.0) is Some,
    ensures
        final(heap).wf(),
        to.0 == old(heap).next(),
        to != from,
        final(heap).next() == old(heap).next() + 1,
        ({
            let i = find_live(old(heap).live(), from.0)->0;
            &&& final(heap).live() == old(heap).live().remove(i).push((to.0, obj))
            &&& final(heap).free() == old(heap).free().push(
                (from, object_bytes(old(heap).live()[i].1).0 as u32),
            )
        }),
        scopes_v(final(scopes)@) == scopes_v(old(scopes)@).map_values(
            |sc: ScopeV| retarget_scope(sc, from, to),
        ),
        ({
            let d = dangling_scopes(scopes_v(final(scopes)@), from, final(scopes)@.len());
            &&& final(events)@.len() == old(events)@.len() + 1 + d.len()
            &&& final(events)@.subrange(0, old(events)@.len() as int) == old(events)@
            &&& final(events)@[old(events)@.len() as int] == (MemEvent::HeapRealloc {
                from,
                to,
                new_size,
                new_used: object_bytes(obj).1 as u32,
                new_display,
                span,
            })
            &&& forall|k: int|
                0 <= k < d.len() ==> (#[trigger] final(events)@[old(events)@.len() + 1 + k]
                    matches MemEvent::Note { kind, message, span: sp } && kind
                    == NoteKind::RuntimeError && message@ == dangling_message(from) && sp == d[k])
        }),
{
    let ghost ev0 = events@;
    let ghost live0 = heap.live();
    let ghost free0 = heap.free();
    let ghost next0 = heap.next();
    proof {
        lemma_fresh_ok(live0, free0, next0);
    }
    let to = heap.alloc_heap_addr();
    let from_size = match objects_get(&heap.objects, from.0) {
        Some(o) => {
            let (t, _) = heap_object_bytes(o);
            t
        },
        None => 0,
    };
    let ghost i = find_live(live0, from.0)->0;
    proof {
        let t = live0;
        let c = i;
        assert(0 <= c < t.len() && t[c].0 == from.0);
        assert forall|j: int| 0 <= j < t.len() && #[trigger] t[j].0 == from.0 implies j == c by {
            if j < c {
                assert(t[j].0 != t[c].0);
            } else if j > c {
                assert(t[c].0 != t[j].0);
            }
        }
        assert(object_fits(t[c].1));
    }
    let _removed = objects_shift_remove(&mut heap.objects, from.0);
    heap.free_list.push((from, from_size));
    proof {
        assert(heap.live() == live0.remove(i));
        lemma_live_to_free(live0, free0, (next0 + 1) as u32, i, from_size);
        assert(HeapAddr(live0[i].0) == from);
        assert(heap.free() == free0.push((from, from_size)));
        let l2 = live0.remove(i);
        assert forall|x: int| 0 <= x < l2.len() implies #[trigger] l2[x].0 != to.0 by {
            let kx = if x < i { x } else { x + 1 };
            assert(l2[x] == live0[kx]);
        }
        assert forall|y: int| 0 <= y < heap.free().len() implies #[trigger] heap.free()[y].0.0 != to.0 by {
            if y < free0.len() {
                assert(heap.free()[y] == free0[y]);
            } else {
                assert(heap.free()[y].0 == from);
                assert(live0[i].0 < next0);
            }
        }
        lemma_live_push_fresh(l2, heap.free(), heap.next(), to.0, obj);
    }
    let (_, new_used) = heap_object_bytes(&obj);
    let ghost obj_v = obj;
    let _previous = objects_insert(&mut heap.objects, to.0, obj);
    proof {
        assert(heap.live() == live0.remove(i).push((to.0, obj_v)));
    }
    events.push(
        MemEvent::HeapRealloc { from, to, new_size, new_used, new_display, span },
    );
    let ghost ev1 = events@;
    // Owners and allocation records follow the block to its new address.
    let mut updated: Vec<Scope> = Vec::new();
    let mut k: usize = 0;
    while k < scopes.len()
        invariant
            k <= scopes@.len(),
            scopes_v(updated@) == scopes_v(scopes@.subrange(0, k as int)).map_values(
                |sc: ScopeV| retarget_scope(sc, from, to),
            ),
        decreases scopes@.len() - k,
    {
        let ns = retarget_scope_exec(&scopes[k], from, to);
        let ghost prev = updated@;
        updated.push(ns);
        proof {
            assert(scopes_v(prev).len() == prev.len());
            assert(scopes_v(scopes@.subrange(0, k as int)).len() == k);
            assert(prev.len() == k);
            let lhs = scopes_v(updated@);
            let rhs = scopes_v(scopes@.subrange(0, k + 1)).map_values(
                |sc: ScopeV| retarget_scope(sc, from, to),
            );
            let old_rhs = scopes_v(scopes@.subrange(0, k as int)).map_values(
                |sc: ScopeV| retarget_scope(sc, from, to),
            );
            assert forall|j: int| 0 <= j < lhs.len() implies lhs[j] == rhs[j] by {
                if j < k {
                    assert(updated@[j] == prev[j]);
                    assert(lhs[j] == scopes_v(prev)[j]);
                    assert(scopes_v(prev)[j] == old_rhs[j]);
                    assert(scopes@.subrange(0, k + 1)[j] == scopes@.subrange(0, k as int)[j]);
                } else {
                    assert(updated@[j] == ns);
                    assert(scopes@.subrange(0, k + 1)[j] == scopes@[k as int]);
                }
            }
            assert(lhs =~= rhs);
        }
        k = k + 1;
    }
    proof {
        assert(scopes@.subrange(0, scopes@.len() as int) =~= scopes@);
    }
    *scopes = updated;
    // Borrows left pointing into the freed block dangle.
    let ghost sv = scopes_v(scopes@);
    let mut a: usize = 0;
    while a < scopes.len()
        invariant
            a <= scopes@.len(),
            sv == scopes_v(scopes@),
            events@.len() == ev1.len() + dangling_scopes(sv, from, a as nat).len(),
            events@.subrange(0, ev1.len() as int) == ev1,
            forall|q: int|
                0 <= q < dangling_scopes(sv, from, a as nat).len() ==> (#[trigger] events@[ev1.len() + q]
                    matches MemEvent::Note { kind, message, span: sp } && kind
                    == NoteKind::RuntimeError && message@ == dangling_message(from) && sp
                    == dangling_scopes(sv, from, a as nat)[q]),
        decreases scopes@.len() - a,
    {
        let sc = &scopes[a];
        let ghost base = dangling_scopes(sv, from, a as nat);
        let ghost ls = sc.locals@;
        proof {
            assert(sv[a as int].locals == ls);
        }
        let mut b: usize = 0;
        while b < sc.locals.len()
            invariant
                b <= ls.len(),
                ls == sc.locals@,
                events@.len() == ev1.len() + base.len() + dangling_locals(ls, from, b as nat).len(),
                events@.subrange(0, ev1.len() as int) == ev1,
                forall|q: int|
                    0 <= q < (base + dangling_locals(ls, from, b as nat)).len() ==> (
                    #[trigger] events@[ev1.len() + q] matches MemEvent::Note { kind, message, span: sp }
                        && kind == NoteKind::RuntimeError && message@ == dangling_message(from)
                        && sp == (base + dangling_locals(ls, from, b as nat))[q]),
            decreases ls.len() - b,
        {
            let l = sc.locals[b];
            let dangles = match l.value {
                Value::Ref { target: Pointee::Heap(x), .. } => x == from,
                Value::Slice { target: Pointee::Heap(x), .. } => x == from,
                _ => false,
            };
            let ghost before = events@;
            let ghost acc = base + dangling_locals(ls, from, b as nat);
            if dangles {
                let s = concat_str(
                    String::from_str("dangling reference: borrow still points at heap #"),
                    decimal_string(from.0 as u64).as_str(),
                );
                let m = concat_str(s, ", which was freed during the realloc");
                events.push(MemEvent::Note { kind: NoteKind::RuntimeError, message: m, span: l.decl_span });
            }
            proof {
                assert(points_into(l, from) == dangles);
                assert(events@.subrange(0, ev1.len() as int) =~= before.subrange(0, ev1.len() as int));
                let acc2 = base + dangling_locals(ls, from, (b + 1) as nat);
                if dangles {
                    assert(acc2 =~= acc.push(l.decl_span));
                } else {
                    assert(acc2 =~= acc);
                }
                assert forall|q: int| 0 <= q < acc2.len() implies (#[trigger] events@[ev1.len() + q]
                    matches MemEvent::Note { kind, message, span: sp } && kind
                    == NoteKind::RuntimeError && message@ == dangling_message(from) && sp == acc2[q]) by {
                    if q < acc.len() {
                        assert(events@[ev1.len() + q] == before[ev1.len() + q]);
                    }
                }
            }
            b = b + 1;
        }
        proof {
            assert(dangling_scopes(sv, from, (a + 1) as nat) == base + dangling_locals(ls, from, ls.len()));
        }
        a = a + 1;
    }
    proof {
        assert(events@.subrange(0, ev0.len() as int) =~= ev1.subrange(0, ev0.len() as int));
        let d = dangling_scopes(sv, from, scopes@.len() as nat);
        assert forall|q: int| 0 <= q < d.len() implies (#[trigger] events@[ev0.len() + 1 + q]
            matches MemEvent::Note { kind, message, span: sp } && kind == NoteKind::RuntimeError
            && message@ == dangling_message(from) && sp == d[q]) by {
            assert(ev1.len() + q == ev0.len() + 1 + q);
        }
        assert(events@[ev0.len() as int] == ev1[ev0.len() as int]);
    }
    to
}

/// Law: after a block moves from `from` to another address, no local in any
/// scope still owns `from`, and every local that owned it owns the new
/// address.
pub proof fn law_owners_follow_realloc(sv: Seq<ScopeV>, from: HeapAddr, to: HeapAddr)
    requires
        from != to,
    ensures
        forall|k: int, j: int|
            0 <= k < sv.len() && 0 <= j < sv[k].locals.len() ==> {
                let before = sv[k].locals[j];
                let after = #[trigger] retarget_scope(sv[k], from, to).locals[j];
                &&& (owned_alloc(after.value) matches Some((a, _)) ==> a != from)
                &&& (owned_alloc(before.value) matches Some(p) ==> (p.0 == from ==> owned_alloc(
                    after.value,
                ) == Some((to, p.1))))
            },
{
}

/// Whether a value is a reference or a slice into the block at `from`.
pub open spec fn borrows_block(v: Value, from: HeapAddr) -> bool {
    ||| (v matches Value::Ref { target, .. } && target == Pointee::Heap(from))
    ||| (v matches Value::Slice { target, .. } && target == Pointee::Heap(from))
}

/// Some local among the first `n` borrows into `from` and is declared at
/// `span`.
pub open spec fn local_borrowing_at(locals: Seq<LocalSlot>, from: HeapAddr, n: nat, span: Span) -> bool {
    exists|j: int| 0 <= j < n && #[trigger] borrows_block(locals[j].value, from) && locals[j].decl_span == span
}

/// Some local of the first `n` scopes borrows into `from` and is declared at
/// `span`.
pub open spec fn scope_local_borrowing_at(sv: Seq<ScopeV>, from: HeapAddr, n: nat, span: Span) -> bool {
    exists|k: int| 0 <= k < n && #[trigger] local_borrowing_at(sv[k].locals, from, sv[k].locals.len(), span)
}

proof fn lemma_dangling_locals(locals: Seq<LocalSlot>, from: HeapAddr, n: nat)
    requires
        n <= locals.len(),
    ensures
        forall|j: int| 0 <= j < n && borrows_block(#[trigger] locals[j].value, from) ==> dangling_locals(
            locals,
            from,
            n,
        ).contains(locals[j].decl_span),
        forall|q: int| 0 <= q < dangling_locals(locals, from, n).len() ==> local_borrowing_at(
            locals,
            from,
            n,
            #[trigger] dangling_locals(locals, from, n)[q],
        ),
    decreases n,
{
    if n > 0 {
        lemma_dangling_locals(locals, from, (n - 1) as nat);
        let prev = dangling_locals(locals, from, (n - 1) as nat);
        let cur = dangling_locals(locals, from, n);
        let l = locals[n - 1];
        assert(points_into(l, from) == borrows_block(l.value, from));
        assert forall|j: int| 0 <= j < n && borrows_block(#[trigger] locals[j].value, from) implies cur.contains(
            locals[j].decl_span,
        ) by {
            if j < n - 1 {
                let q = choose|q: int| 0 <= q < prev.len() && prev[q] == locals[j].decl_span;
                assert(cur[q] == prev[q]);
            } else {
                assert(cur[prev.len() as int] == l.decl_span);
            }
        }
        assert forall|q: int| 0 <= q < cur.len() implies local_borrowing_at(locals, from, n, #[trigger] cur[q]) by {
            if q < prev.len() {
                assert(cur[q] == prev[q]);
                assert(local_borrowing_at(locals, from, (n - 1) as nat, prev[q]));
                let j = choose|j: int| 0 <= j < n - 1 && #[trigger] borrows_block(locals[j].value, from) && locals[j].decl_span == prev[q];
                assert(borrows_block(locals[j].value, from));
            } else {
                assert(cur[q] == l.decl_span);
                assert(borrows_block(locals[n - 1].value, from));
            }
        }
    }
}

/// Law: the borrows a realloc reports as dangling are exactly the locals,
/// in any scope, holding a reference or a slice into the moved block:
/// every such local's declaration is reported, and every report is such a
/// local's declaration.
pub proof fn law_dangling_reported(sv: Seq<ScopeV>, from: HeapAddr)
    ensures
        forall|k: int, j: int|
            0 <= k < sv.len() && 0 <= j < sv[k].locals.len() && borrows_block(
                #[trigger] sv[k].locals[j].value,
                from,
            ) ==> dangling_scopes(sv, from, sv.len()).contains(sv[k].locals[j].decl_span),
        forall|q: int| 0 <= q < dangling_scopes(sv, from, sv.len()).len() ==> scope_local_borrowing_at(
            sv,
            from,
            sv.len(),
            #[trigger] dangling_scopes(sv, from, sv.len())[q],
        ),
{
    lemma_dangling_scopes(sv, from, sv.len());
}

proof fn lemma_dangling_scopes(sv: Seq<ScopeV>, from: HeapAddr, n: nat)
    requires
        n <= sv.len(),
    ensures
        forall|k: int, j: int|
            0 <= k < n && 0 <= j < sv[k].locals.len() && borrows_block(#[trigger] sv[k].locals[j].value, from)
                ==> dangling_scopes(sv, from, n).contains(sv[k].locals[j].decl_span),
        forall|q: int| 0 <= q < dangling_scopes(sv, from, n).len() ==> scope_local_borrowing_at(
            sv,
            from,
            n,
            #[trigger] dangling_scopes(sv, from, n)[q],
        ),
    decreases n,
{
    if n > 0 {
        lemma_dangling_scopes(sv, from, (n - 1) as nat);
        let prev = dangling_scopes(sv, from, (n - 1) as nat);
        let ls = sv[n - 1].locals;
        lemma_dangling_locals(ls, from, ls.len());
        let add = dangling_locals(ls, from, ls.len());
        let cur = dangling_scopes(sv, from, n);
        assert(cur == prev + add);
        assert forall|k: int, j: int|
            0 <= k < n && 0 <= j < sv[k].locals.len() && borrows_block(#[trigger] sv[k].locals[j].value, from)
                implies cur.contains(sv[k].locals[j].decl_span) by {
            if k < n - 1 {
                let q = choose|q: int| 0 <= q < prev.len() && prev[q] == sv[k].locals[j].decl_span;
                assert(cur[q] == prev[q]);
            } else {
                assert(ls[j] == sv[k].locals[j]);
                let q = choose|q: int| 0 <= q < add.len() && add[q] == ls[j].decl_span;
                assert(cur[prev.len() + q] == add[q]);
            }
        }
        assert forall|q: int| 0 <= q < cur.len() implies scope_local_borrowing_at(sv, from, n, #[trigger] cur[q]) by {
            if q < prev.len() {
                assert(cur[q] == prev[q]);
                assert(scope_local_borrowing_at(sv, from, (n - 1) as nat, prev[q]));
                let k = choose|k: int| 0 <= k < n - 1 && #[trigger] local_borrowing_at(sv[k].locals, from, sv[k].locals.len(), prev[q]);
                assert(local_borrowing_at(sv[k].locals, from, sv[k].locals.len(), cur[q]));
            } else {
                let q2 = q - prev.len();
                assert(cur[q] == add[q2]);
                assert(local_borrowing_at(ls, from, ls.len(), add[q2]));
                assert(local_borrowing_at(sv[n - 1].locals, from, sv[n - 1].locals.len(), cur[q]));
            }
        }
    }
}

} // verus!
