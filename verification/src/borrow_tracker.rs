//! Static borrow tracking: the active borrows of every binding, with Rust's
//! aliasing rule (many shared borrows, or exactly one mutable borrow)
//! enforced at scope granularity.

use indexmap::IndexMap;
use vstd::prelude::*;

use crate::resolve::BindingId;
use crate::span::Span;

verus! {

/// What kind of borrow is active.
#[derive(Clone, Copy, Debug, PartialEq, Eq, Structural)]
pub enum BorrowKind {
    /// `&place`
    Shared,
    /// `&mut place`
    Mut,
}

/// One active borrow recorded against a binding.
#[derive(Clone, Copy, Debug)]
pub struct ActiveBorrow {
    /// Shared or mutable.
    pub kind: BorrowKind,
    /// Scope depth at which the borrow was taken.
    pub scope_depth: u32,
    /// Where the borrow was taken.
    pub borrow_span: Span,
}

/// A refused borrow: the existing borrow it conflicts with.
#[derive(Clone, Copy, Debug)]
pub struct AliasConflict {
    /// Kind of the conflicting existing borrow.
    pub existing_kind: BorrowKind,
    /// Where the conflicting borrow was taken.
    pub existing_span: Span,
}

#[verifier::external_type_specification]
#[verifier::external_body]
#[verifier::reject_recursive_types(K)]
#[verifier::reject_recursive_types(V)]
#[verifier::reject_recursive_types(S)]
pub struct ExIndexMap<K, V, S>(IndexMap<K, V, S>);

/// The entries of a borrow table, in the map's order: binding number and
/// its stack of active borrows.
pub uninterp spec fn borrow_table(m: IndexMap<u32, Vec<ActiveBorrow>>) -> Seq<(u32, Vec<ActiveBorrow>)>;

/// `IndexMap::new`: an empty map.
#[verifier::external_body]
fn table_new() -> (m: IndexMap<u32, Vec<ActiveBorrow>>)
    ensures
        borrow_table(m) == Seq::<(u32, Vec<ActiveBorrow>)>::empty(),
{
    IndexMap::new()
}

/// `IndexMap::len`: the number of entries.
#[verifier::external_body]
fn table_len(m: &IndexMap<u32, Vec<ActiveBorrow>>) -> (n: usize)
    ensures
        n == borrow_table(*m).len(),
{
    m.len()
}

/// `IndexMap::get_index`: the entry at position `i` (`i` below the length).
#[verifier::external_body]
fn table_get_index(m: &IndexMap<u32, Vec<ActiveBorrow>>, i: usize) -> (entry: (u32, &Vec<ActiveBorrow>))
    requires
        i < borrow_table(*m).len(),
    ensures
        entry.0 == borrow_table(*m)[i as int].0,
        *entry.1 == borrow_table(*m)[i as int].1,
{
    let (k, v) = m.get_index(i).unwrap();
    (*k, v)
}

/// `IndexMap::get`: the value stored under `k`, if any.
#[verifier::external_body]
fn table_get(m: &IndexMap<u32, Vec<ActiveBorrow>>, k: u32) -> (r: Option<&Vec<ActiveBorrow>>)
    ensures
        match r {
            Some(v) => exists|i: int|
                0 <= i < borrow_table(*m).len() && #[trigger] borrow_table(*m)[i].0 == k
                    && borrow_table(*m)[i].1 == *v,
            None => forall|i: int|
                0 <= i < borrow_table(*m).len() ==> #[trigger] borrow_table(*m)[i].0 != k,
        },
{
    m.get(&k)
}

/// `IndexMap::insert`: an existing key keeps its position and gets the new
/// value (the old one is returned); a new key is appended at the end.
#[verifier::external_body]
fn table_insert(m: &mut IndexMap<u32, Vec<ActiveBorrow>>, k: u32, v: Vec<ActiveBorrow>) -> (r: Option<Vec<ActiveBorrow>>)
    ensures
        ({
            let t = borrow_table(*old(m));
            let t2 = borrow_table(*final(m));
            ||| exists|i: int|
                0 <= i < t.len() && #[trigger] t[i].0 == k && t2 == t.update(i, (k, v)) && r
                    == Some(t[i].1)
            ||| (forall|i: int| 0 <= i < t.len() ==> #[trigger] t[i].0 != k) && t2 == t.push(
                (k, v),
            ) && r is None
        }),
{
    m.insert(k, v)
}

/// No key occurs twice among the entries.
pub open spec fn keys_unique(t: Seq<(u32, Vec<ActiveBorrow>)>) -> bool {
    forall|i: int, j: int| 0 <= i < j < t.len() ==> #[trigger] t[i].0 != #[trigger] t[j].0
}

/// Rust's aliasing rule for one binding's active borrows: all shared, or a
/// single mutable borrow.
pub open spec fn aliasing_ok(st: Seq<ActiveBorrow>) -> bool {
    ||| forall|i: int| 0 <= i < st.len() ==> #[trigger] st[i].kind == BorrowKind::Shared
    ||| st.len() == 1 && st[0].kind == BorrowKind::Mut
}

/// Whether some borrow in the stack is mutable.
pub open spec fn has_mut(st: Seq<ActiveBorrow>) -> bool {
    exists|i: int| 0 <= i < st.len() && #[trigger] st[i].kind == BorrowKind::Mut
}

/// Index of the first mutable borrow in the stack (meaningful when
/// [`has_mut`] holds).
pub open spec fn first_mut(st: Seq<ActiveBorrow>) -> int {
    choose|i: int|
        0 <= i < st.len() && st[i].kind == BorrowKind::Mut && forall|j: int|
            0 <= j < i ==> #[trigger] st[j].kind != BorrowKind::Mut
}

/// The borrows of a stack taken at a depth shallower than `depth`.
pub open spec fn kept_below(st: Seq<ActiveBorrow>, depth: u32) -> Seq<ActiveBorrow> {
    st.filter(|a: ActiveBorrow| a.scope_depth < depth)
}

/// Per-binding record of active borrows.
pub struct BorrowTracker {
    active: IndexMap<u32, Vec<ActiveBorrow>>,
}

impl BorrowTracker {
    /// Internal consistency: one entry per binding, and every binding's
    /// borrows obey the aliasing rule.
    pub closed spec fn wf(self) -> bool {
        &&& keys_unique(borrow_table(self.active))
        &&& forall|i: int|
            0 <= i < borrow_table(self.active).len() ==> aliasing_ok(
                #[trigger] borrow_table(self.active)[i].1@,
            )
    }

    /// The active borrows of binding number `b`, oldest first.
    pub closed spec fn stack_of(self, b: u32) -> Seq<ActiveBorrow> {
        let t = borrow_table(self.active);
        if exists|i: int| 0 <= i < t.len() && #[trigger] t[i].0 == b {
            t[choose|i: int| 0 <= i < t.len() && #[trigger] t[i].0 == b].1@
        } else {
            Seq::empty()
        }
    }

    proof fn lemma_stack_at(self, i: int)
        requires
            keys_unique(borrow_table(self.active)),
            0 <= i < borrow_table(self.active).len(),
        ensures
            self.stack_of(borrow_table(self.active)[i].0) == borrow_table(self.active)[i].1@,
    {
        let t = borrow_table(self.active);
        let b = t[i].0;
        assert(t[i].0 == b);
        let c = choose|j: int| 0 <= j < t.len() && #[trigger] t[j].0 == b;
        assert(c == i) by {
            if c < i {
                assert(t[c].0 != t[i].0);
            } else if c > i {
                assert(t[i].0 != t[c].0);
            }
        }
    }

    proof fn lemma_stack_absent(self, b: u32)
        requires
            forall|i: int|
                0 <= i < borrow_table(self.active).len() ==> #[trigger] borrow_table(
                    self.active,
                )[i].0 != b,
        ensures
            self.stack_of(b) == Seq::<ActiveBorrow>::empty(),
    {
    }

    /// Law: in a tracker built by its own operations, every binding's active
    /// borrows are either all shared or a single mutable borrow.
    pub proof fn law_aliasing_xor_mutability(self, b: u32)
        requires
            self.wf(),
        ensures
            aliasing_ok(self.stack_of(b)),
    {
        let t = borrow_table(self.active);
        if exists|i: int| 0 <= i < t.len() && #[trigger] t[i].0 == b {
            let i = choose|i: int| 0 <= i < t.len() && #[trigger] t[i].0 == b;
            self.lemma_stack_at(i);
        }
    }

    /// An empty tracker: no binding is borrowed.
    pub fn new() -> (t: BorrowTracker)
        ensures
            t.wf(),
            forall|b: u32| #[trigger] t.stack_of(b) == Seq::<ActiveBorrow>::empty(),
    {
        BorrowTracker { active: table_new() }
    }

    /// The recorded borrows of `b` as stored, or an empty vector.
    fn stack_copy(&self, b: u32) -> (v: Vec<ActiveBorrow>)
        requires
            self.wf(),
        ensures
            v@ == self.stack_of(b),
    {
        match table_get(&self.active, b) {
            Some(v) => {
                proof {
                    let t = borrow_table(self.active);
                    let i = choose|i: int|
                        0 <= i < t.len() && #[trigger] t[i].0 == b && t[i].1 == *v;
                    self.lemma_stack_at(i);
                }
                v.clone()
            },
            None => {
                proof {
                    self.lemma_stack_absent(b);
                }
                Vec::new()
            },
        }
    }

    /// Replace the borrows of `b` with `v`, leaving every other binding as
    /// it was.
    fn set_stack(&mut self, b: u32, v: Vec<ActiveBorrow>)
        requires
            old(self).wf(),
            aliasing_ok(v@),
        ensures
            final(self).wf(),
            final(self).stack_of(b) == v@,
            forall|c: u32| c != b ==> #[trigger] final(self).stack_of(c) == old(self).stack_of(c),
            key_among(borrow_table(old(self).active), borrow_table(old(self).active).len() as int, b)
                ==> borrow_table(final(self).active).len() == borrow_table(old(self).active).len()
                && forall|j: int|
                0 <= j < borrow_table(old(self).active).len() ==> #[trigger] borrow_table(
                    final(self).active,
                )[j].0 == borrow_table(old(self).active)[j].0,
    {
        let ghost t = borrow_table(self.active);
        let ghost vv = v@;
        let _ = table_insert(&mut self.active, b, v);
        proof {
            let t2 = borrow_table(self.active);
            if exists|i: int| 0 <= i < t.len() && #[trigger] t[i].0 == b && t2 == t.update(i, (b, t2[i].1)) {
                let i = choose|i: int| 0 <= i < t.len() && #[trigger] t[i].0 == b && t2 == t.update(i, (b, t2[i].1));
                assert(keys_unique(t2)) by {
                    assert forall|x: int, y: int| 0 <= x < y < t2.len() implies #[trigger] t2[x].0 != #[trigger] t2[y].0 by {
                        assert(t[x].0 != t[y].0);
                    }
                }
                assert(t2[i].1@ == vv);
                self.lemma_stack_at(i);
                assert forall|c: u32| c != b implies #[trigger] self.stack_of(c) == old(self).stack_of(c) by {
                    if exists|j: int| 0 <= j < t.len() && #[trigger] t[j].0 == c {
                        let j = choose|j: int| 0 <= j < t.len() && #[trigger] t[j].0 == c;
                        old(self).lemma_stack_at(j);
                        self.lemma_stack_at(j);
                    } else {
                        assert forall|j: int| 0 <= j < t2.len() implies #[trigger] t2[j].0 != c by {
                            assert(t2[j].0 == t[j].0 || j == i);
                        }
                        self.lemma_stack_absent(c);
                    }
                }
                assert forall|j: int| 0 <= j < t.len() implies #[trigger] t2[j].0 == t[j].0 by {
                    if j != i {
                        assert(t2[j] == t[j]);
                    }
                }
            } else {
                assert(!key_among(t, t.len() as int, b)) by {
                    if key_among(t, t.len() as int, b) {
                        let j = choose|j: int| 0 <= j < t.len() && #[trigger] t[j].0 == b;
                        assert(t[j].0 == b && t2 == t.update(j, (b, t2[j].1)));
                    }
                }
                assert(t2 == t.push((b, t2[t.len() as int].1)));
                assert(keys_unique(t2)) by {
                    assert forall|x: int, y: int| 0 <= x < y < t2.len() implies #[trigger] t2[x].0 != #[trigger] t2[y].0 by {
                        if y < t.len() {
                            assert(t[x].0 != t[y].0);
                        } else {
                            assert(t[x].0 != b);
                        }
                    }
                }
                self.lemma_stack_at(t.len() as int);
                assert forall|c: u32| c != b implies #[trigger] self.stack_of(c) == old(self).stack_of(c) by {
                    if exists|j: int| 0 <= j < t.len() && #[trigger] t[j].0 == c {
                        let j = choose|j: int| 0 <= j < t.len() && #[trigger] t[j].0 == c;
                        old(self).lemma_stack_at(j);
                        self.lemma_stack_at(j);
                    } else {
                        assert forall|j: int| 0 <= j < t2.len() implies #[trigger] t2[j].0 != c by {
                            if j < t.len() {
                                assert(t2[j] == t[j]);
                            }
                        }
                        self.lemma_stack_absent(c);
                    }
                }
            }
            assert forall|i: int| 0 <= i < t2.len() implies aliasing_ok(#[trigger] t2[i].1@) by {
                self.lemma_stack_at(i);
                if t2[i].0 != b {
                    if exists|j: int| 0 <= j < t.len() && #[trigger] t[j].0 == t2[i].0 {
                        let j = choose|j: int| 0 <= j < t.len() && #[trigger] t[j].0 == t2[i].0;
                        old(self).lemma_stack_at(j);
                    }
                }
            }
        }
    }

    /// Take a shared borrow of `b` at scope `depth`. Refused when `b` has
    /// an active mutable borrow; the conflict names the first one.
    pub fn try_take_shared(&mut self, b: BindingId, depth: u32, span: Span) -> (r: Result<(), AliasConflict>)
        requires
            old(self).wf(),
        ensures
            final(self).wf(),
            ({
                let st = old(self).stack_of(b.0);
                if has_mut(st) {
                    &&& r matches Err(c) && c.existing_kind == BorrowKind::Mut && c.existing_span
                        == st[first_mut(st)].borrow_span
                    &&& forall|c: u32| #[trigger] final(self).stack_of(c) == old(self).stack_of(c)
                } else {
                    &&& r is Ok
                    &&& final(self).stack_of(b.0) == st.push(
                        ActiveBorrow { kind: BorrowKind::Shared, scope_depth: depth, borrow_span: span },
                    )
                    &&& forall|c: u32|
                        c != b.0 ==> #[trigger] final(self).stack_of(c) == old(self).stack_of(c)
                }
            }),
    {
        let mut stack = self.stack_copy(b.0);
        let ghost st = stack@;
        match find_first_mut(&stack) {
            Some(i) => {
                return Err(AliasConflict { existing_kind: stack[i].kind, existing_span: stack[i].borrow_span });
            },
            None => {},
        }
        stack.push(ActiveBorrow { kind: BorrowKind::Shared, scope_depth: depth, borrow_span: span });
        proof {
            assert(!has_mut(st));
            assert(aliasing_ok(stack@)) by {
                assert forall|j: int| 0 <= j < stack@.len() implies #[trigger] stack@[j].kind == BorrowKind::Shared by {
                    if j < st.len() {
                        assert(stack@[j] == st[j]);
                    }
                }
            }
        }
        self.set_stack(b.0, stack);
        Ok(())
    }

    /// Take a mutable borrow of `b` at scope `depth`. Refused when `b` has
    /// any active borrow; the conflict names the most recent one.
    pub fn try_take_mut(&mut self, b: BindingId, depth: u32, span: Span) -> (r: Result<(), AliasConflict>)
        requires
            old(self).wf(),
        ensures
            final(self).wf(),
            ({
                let st = old(self).stack_of(b.0);
                if st.len() > 0 {
                    &&& r matches Err(c) && c.existing_kind == st.last().kind && c.existing_span
                        == st.last().borrow_span
                    &&& forall|c: u32| #[trigger] final(self).stack_of(c) == old(self).stack_of(c)
                } else {
                    &&& r is Ok
                    &&& final(self).stack_of(b.0) == seq![
                        ActiveBorrow { kind: BorrowKind::Mut, scope_depth: depth, borrow_span: span },
                    ]
                    &&& forall|c: u32|
                        c != b.0 ==> #[trigger] final(self).stack_of(c) == old(self).stack_of(c)
                }
            }),
    {
        let mut stack = self.stack_copy(b.0);
        let n = stack.len();
        if n > 0 {
            let last = stack[n - 1];
            return Err(AliasConflict { existing_kind: last.kind, existing_span: last.borrow_span });
        }
        stack.push(ActiveBorrow { kind: BorrowKind::Mut, scope_depth: depth, borrow_span: span });
        proof {
            assert(stack@ =~= seq![
                ActiveBorrow { kind: BorrowKind::Mut, scope_depth: depth, borrow_span: span },
            ]);
        }
        self.set_stack(b.0, stack);
        Ok(())
    }

    /// Drop every borrow recorded at or deeper than `leaving_depth`.
    pub fn pop_scope(&mut self, leaving_depth: u32)
        requires
            old(self).wf(),
        ensures
            final(self).wf(),
            forall|b: u32| #[trigger] final(self).stack_of(b) == kept_below(old(self).stack_of(b), leaving_depth),
    {
        let ghost t0 = borrow_table(self.active);
        let ghost start = *self;
        let n = table_len(&self.active);
        let mut i: usize = 0;
        while i < n
            invariant
                self.wf(),
                start.wf(),
                borrow_table(start.active) == t0,
                n == t0.len(),
                i <= n,
                borrow_table(self.active).len() == n,
                forall|j: int| 0 <= j < n ==> #[trigger] borrow_table(self.active)[j].0 == t0[j].0,
                forall|b: u32| key_among(t0, i as int, b) ==> #[trigger] self.stack_of(b) == kept_below(start.stack_of(b), leaving_depth),
                forall|b: u32| !key_among(t0, i as int, b) ==> #[trigger] self.stack_of(b) == start.stack_of(b),
            decreases n - i,
        {
            let (k, stack) = table_get_index(&self.active, i);
            proof {
                self.lemma_stack_at(i as int);
                assert(!key_among(t0, i as int, k)) by {
                    if key_among(t0, i as int, k) {
                        let j = choose|j: int| 0 <= j < i && #[trigger] t0[j].0 == k;
                        assert(t0[j].0 != t0[i as int].0);
                    }
                }
            }
            let mut kept: Vec<ActiveBorrow> = Vec::new();
            let mut j: usize = 0;
            while j < stack.len()
                invariant
                    j <= stack@.len(),
                    kept@ == kept_below(stack@.subrange(0, j as int), leaving_depth),
                decreases stack@.len() - j,
            {
                let a = stack[j];
                proof {
                    let s = stack@.subrange(0, j as int + 1);
                    assert(s.drop_last() =~= stack@.subrange(0, j as int));
                    assert(s.last() == a);
                    reveal_with_fuel(Seq::<_>::filter, 1);
                }
                if a.scope_depth < leaving_depth {
                    kept.push(a);
                }
                j = j + 1;
            }
            proof {
                assert(stack@.subrange(0, stack@.len() as int) =~= stack@);
                lemma_filter_keeps_aliasing(stack@, leaving_depth);
            }
            let ghost before = *self;
            self.set_stack(k, kept);
            proof {
                assert forall|b: u32| key_among(t0, i + 1, b) implies #[trigger] self.stack_of(b) == kept_below(start.stack_of(b), leaving_depth) by {
                    if b != k {
                        let jj = choose|jj: int| 0 <= jj < i + 1 && #[trigger] t0[jj].0 == b;
                        assert(key_among(t0, i as int, b));
                    }
                }
                assert forall|b: u32| !key_among(t0, i + 1, b) implies #[trigger] self.stack_of(b) == start.stack_of(b) by {
                    assert(b != k) by {
                        if b == k {
                            assert(t0[i as int].0 == b);
                        }
                    }
                    assert(!key_among(t0, i as int, b)) by {
                        if key_among(t0, i as int, b) {
                            let jj = choose|jj: int| 0 <= jj < i && #[trigger] t0[jj].0 == b;
                            assert(t0[jj].0 == b);
                        }
                    }
                }
            }
            i = i + 1;
        }
        proof {
            assert forall|b: u32| #[trigger] self.stack_of(b) == kept_below(start.stack_of(b), leaving_depth) by {
                if !key_among(t0, n as int, b) {
                    assert forall|j: int| 0 <= j < t0.len() implies #[trigger] t0[j].0 != b by {
                        if t0[j].0 == b {
                            assert(key_among(t0, n as int, b));
                        }
                    }
                    start.lemma_stack_absent(b);
                    reveal_with_fuel(Seq::<_>::filter, 1);
                }
            }
        }
    }

    /// Whether `b` has any active borrow.
    pub fn is_borrowed(&self, b: BindingId) -> (r: bool)
        requires
            self.wf(),
        ensures
            r == (self.stack_of(b.0).len() > 0),
    {
        match table_get(&self.active, b.0) {
            Some(v) => {
                proof {
                    let t = borrow_table(self.active);
                    let i = choose|i: int|
                        0 <= i < t.len() && #[trigger] t[i].0 == b.0 && t[i].1 == *v;
                    self.lemma_stack_at(i);
                }
                v.len() > 0
            },
            None => {
                proof {
                    self.lemma_stack_absent(b.0);
                }
                false
            },
        }
    }
}

/// Law: leaving a scope drops every borrow taken at that depth or deeper,
/// and keeps the shallower ones in their order.
pub proof fn law_pop_scope_drops_deeper(st: Seq<ActiveBorrow>, depth: u32)
    ensures
        forall|i: int|
            0 <= i < kept_below(st, depth).len() ==> #[trigger] kept_below(st, depth)[i].scope_depth
                < depth,
        forall|i: int|
            0 <= i < st.len() && st[i].scope_depth < depth ==> kept_below(st, depth).contains(
                #[trigger] st[i],
            ),
{
    st.filter_lemma(|a: ActiveBorrow| a.scope_depth < depth);
}

/// Position of the first mutable borrow in a stack, if any.
fn find_first_mut(stack: &Vec<ActiveBorrow>) -> (r: Option<usize>)
    ensures
        r is Some <==> has_mut(stack@),
        r matches Some(i) ==> i == first_mut(stack@) && i < stack@.len(),
{
    let ghost st = stack@;
    let mut i: usize = 0;
    while i < stack.len()
        invariant
            stack@ == st,
            i <= st.len(),
            forall|j: int| 0 <= j < i ==> #[trigger] st[j].kind != BorrowKind::Mut,
        decreases st.len() - i,
    {
        if stack[i].kind == BorrowKind::Mut {
            proof {
                assert(has_mut(st));
                let f = first_mut(st);
                assert(0 <= i < st.len() && st[i as int].kind == BorrowKind::Mut && forall|j: int|
                    0 <= j < i ==> #[trigger] st[j].kind != BorrowKind::Mut);
                assert(f == i) by {
                    if f < i {
                        assert(st[f].kind != BorrowKind::Mut);
                    } else if f > i {
                        assert(st[i as int].kind != BorrowKind::Mut);
                    }
                }
            }
            return Some(i);
        }
        i = i + 1;
    }
    None
}

/// Whether `b` is the key of one of the first `i` entries.
pub open spec fn key_among(t: Seq<(u32, Vec<ActiveBorrow>)>, i: int, b: u32) -> bool {
    exists|j: int| 0 <= j < i && #[trigger] t[j].0 == b
}

/// Every borrow kept by the filter comes from the stack it filters.
proof fn lemma_kept_from(st: Seq<ActiveBorrow>, depth: u32)
    ensures
        kept_below(st, depth).len() <= st.len(),
        forall|i: int|
            0 <= i < kept_below(st, depth).len() ==> exists|j: int|
                0 <= j < st.len() && #[trigger] kept_below(st, depth)[i] == st[j],
    decreases st.len(),
{
    reveal_with_fuel(Seq::<_>::filter, 1);
    if st.len() > 0 {
        let d = st.drop_last();
        lemma_kept_from(d, depth);
        let k = kept_below(st, depth);
        let kd = kept_below(d, depth);
        assert forall|i: int| 0 <= i < k.len() implies exists|j: int|
            0 <= j < st.len() && #[trigger] k[i] == st[j] by {
            if i < kd.len() {
                assert(k[i] == kd[i]);
                let j = choose|j: int| 0 <= j < d.len() && #[trigger] kd[i] == d[j];
                assert(st[j] == d[j]);
            } else {
                assert(k[i] == st[st.len() - 1]);
            }
        }
    }
}

/// Dropping borrows keeps the aliasing rule.
proof fn lemma_filter_keeps_aliasing(st: Seq<ActiveBorrow>, depth: u32)
    requires
        aliasing_ok(st),
    ensures
        aliasing_ok(kept_below(st, depth)),
{
    lemma_kept_from(st, depth);
    let k = kept_below(st, depth);
    if forall|i: int| 0 <= i < st.len() ==> #[trigger] st[i].kind == BorrowKind::Shared {
        assert forall|i: int| 0 <= i < k.len() implies #[trigger] k[i].kind == BorrowKind::Shared by {
            let j = choose|j: int| 0 <= j < st.len() && #[trigger] k[i] == st[j];
        }
    } else {
        if k.len() == 1 {
            let j = choose|j: int| 0 <= j < st.len() && #[trigger] k[0] == st[j];
        } else {
            assert(k.len() == 0);
        }
    }
}

} // verus!
