//! Pieces of the evaluator's machinery: the seeded thread scheduler,
//! memory sizes of value types, and span helpers.

use vstd::prelude::*;

use crate::ast::{BinOp, UnOp};
use crate::event::{ThreadId, Value};
use crate::text::concat_str;
use crate::span::Span;
use crate::typeck::{spec_binary_ty, FloatKind, IntKind, Ty};

verus! {

/// Maximum number of nested frames before evaluation halts with a
/// runtime error.
pub const RECURSION_LIMIT: usize = 100;

/// The state a zero seed is replaced by.
pub const SEED_ZERO_STATE: u64 = 0xDEAD_BEEF_CAFE_F00D;

/// The xorshift64* multiplier.
pub const XORSHIFT_MULTIPLIER: u64 = 0x2545_F491_4F6C_DD1D;

/// The generator's initial state for a seed: the seed in both halves, or a
/// fixed non-zero constant when that is zero.
pub open spec fn prng_initial(seed: u32) -> u64 {
    let s = ((seed as u64) << 32u64) | (seed as u64);
    if s == 0 {
        SEED_ZERO_STATE
    } else {
        s
    }
}

/// One xorshift64 state transition.
pub open spec fn xorshift(s: u64) -> u64 {
    let a = s ^ (s >> 12u64);
    let b = a ^ (a << 25u64);
    b ^ (b >> 27u64)
}

/// The output drawn from a new state.
pub open spec fn xorshift_output(s: u64) -> u64 {
    s.wrapping_mul(XORSHIFT_MULTIPLIER)
}

/// Every seed gives a non-zero initial state (a zero state would stay zero
/// forever).
pub proof fn law_initial_state_nonzero(seed: u32)
    ensures
        prng_initial(seed) != 0,
{
}

/// The state transition keeps a non-zero state non-zero, so the generator
/// never degenerates to a constant stream.
pub proof fn law_xorshift_nonzero(s: u64)
    requires
        s != 0,
    ensures
        xorshift(s) != 0,
{
    let a = s ^ (s >> 12u64);
    let b = a ^ (a << 25u64);
    assert(a != 0) by (bit_vector)
        requires
            s != 0,
            a == s ^ (s >> 12u64),
    ;
    assert(b != 0) by (bit_vector)
        requires
            a != 0,
            b == a ^ (a << 25u64),
    ;
    assert(b ^ (b >> 27u64) != 0) by (bit_vector)
        requires
            b != 0,
    ;
}

/// Seeded xorshift64* generator used by the scheduler.
pub struct Prng {
    state: u64,
}

impl Prng {
    /// Current state.
    pub closed spec fn spec_state(self) -> u64 {
        self.state
    }

    /// A generator seeded with `seed`.
    pub fn new(seed: u32) -> (p: Prng)
        ensures
            p.spec_state() == prng_initial(seed),
    {
        let s = ((seed as u64) << 32u64) | (seed as u64);
        let state = if s == 0 {
            SEED_ZERO_STATE
        } else {
            s
        };
        Prng { state }
    }

    /// Advance the state one step and draw a number from it.
    pub fn next_u64(&mut self) -> (r: u64)
        ensures
            final(self).spec_state() == xorshift(old(self).spec_state()),
            r == xorshift_output(xorshift(old(self).spec_state())),
    {
        self.state = self.state ^ (self.state >> 12u64);
        self.state = self.state ^ (self.state << 25u64);
        self.state = self.state ^ (self.state >> 27u64);
        self.state.wrapping_mul(XORSHIFT_MULTIPLIER)
    }
}

/// Seeded scheduler: picks which ready thread runs at each decision point.
pub struct Scheduler {
    prng: Prng,
    seed: u32,
}

impl Scheduler {
    /// The generator's current state.
    pub closed spec fn spec_state(self) -> u64 {
        self.prng.spec_state()
    }

    /// The seed the scheduler was created with.
    pub closed spec fn spec_seed(self) -> u32 {
        self.seed
    }

    /// A scheduler seeded with `seed`.
    pub fn new(seed: u32) -> (s: Scheduler)
        ensures
            s.spec_state() == prng_initial(seed),
            s.spec_seed() == seed,
    {
        Scheduler { prng: Prng::new(seed), seed }
    }

    /// Pick a thread from a non-empty ready set. A single candidate is
    /// returned without advancing the generator; otherwise the generator
    /// advances once and picks the candidate its output selects.
    pub fn pick(&mut self, ready: &[ThreadId]) -> (t: ThreadId)
        requires
            ready@.len() > 0,
        ensures
            ready@.len() == 1 ==> t == ready@[0] && final(self).spec_state() == old(self).spec_state()
                && final(self).spec_seed() == old(self).spec_seed(),
            ready@.len() > 1 ==> {
                &&& final(self).spec_state() == xorshift(old(self).spec_state())
                &&& final(self).spec_seed() == old(self).spec_seed()
                &&& t == ready@[(xorshift_output(xorshift(old(self).spec_state())) % (
                ready@.len() as u64)) as int]
            },
    {
        if ready.len() == 1 {
            return ready[0];
        }
        let n = self.prng.next_u64();
        let idx = (n % (ready.len() as u64)) as usize;
        ready[idx]
    }
}

/// Bytes occupied by a value of a primitive integer kind.
pub open spec fn int_size(k: IntKind) -> int {
    match k {
        IntKind::I8 | IntKind::U8 => 1,
        IntKind::I16 | IntKind::U16 => 2,
        IntKind::I32 | IntKind::U32 => 4,
        IntKind::I64 | IntKind::U64 | IntKind::ISize | IntKind::USize => 8,
        IntKind::I128 | IntKind::U128 => 16,
    }
}

/// Bytes occupied by a value of type `t`: primitives by width, pointers 8,
/// slice fat pointers 16, arrays the element size times the length (the
/// length taken modulo 2^32), structs the sum of their fields (packed).
pub open spec fn size_of_ty(t: Ty) -> int
    decreases t, 0nat,
{
    match t {
        Ty::Int(k) => int_size(k),
        Ty::Float(k) => match k {
            FloatKind::F32 => 4,
            FloatKind::F64 => 8,
        },
        Ty::Bool => 1,
        Ty::Unit => 0,
        Ty::Ref { .. } | Ty::Box(_) | Ty::String | Ty::Vec(_) => 8,
        Ty::Slice(_) | Ty::Str => 16,
        Ty::Array(inner, n) => size_of_ty(*inner) * (n % 0x1_0000_0000) as int,
        Ty::Struct { fields, .. } => fields_size(fields@, fields@.len()),
    }
}

/// Total size of the first `n` fields.
pub open spec fn fields_size(fields: Seq<(String, Ty)>, n: nat) -> int
    decreases fields, n,
{
    if n == 0 || n > fields.len() {
        0
    } else {
        fields_size(fields, (n - 1) as nat) + size_of_ty(fields[n - 1].1)
    }
}

/// Every partial result of the size computation fits in `u32`.
pub open spec fn size_fits(t: Ty) -> bool
    decreases t, 0nat,
{
    &&& size_of_ty(t) <= u32::MAX
    &&& match t {
        Ty::Array(inner, _) => size_fits(*inner),
        Ty::Struct { fields, .. } => fields_fit(fields@, fields@.len()),
        _ => true,
    }
}

/// Every field among the first `n`, and every partial sum, fits in `u32`.
pub open spec fn fields_fit(fields: Seq<(String, Ty)>, n: nat) -> bool
    decreases fields, n,
{
    if n == 0 || n > fields.len() {
        true
    } else {
        &&& fields_fit(fields, (n - 1) as nat)
        &&& size_fits(fields[n - 1].1)
        &&& fields_size(fields, n) <= u32::MAX
    }
}

proof fn lemma_sizes_nonneg(t: Ty)
    ensures
        size_of_ty(t) >= 0,
    decreases t, 0nat,
{
    match t {
        Ty::Array(inner, n) => {
            lemma_sizes_nonneg(*inner);
            assert(size_of_ty(*inner) * (n % 0x1_0000_0000) as int >= 0) by (nonlinear_arith)
                requires
                    size_of_ty(*inner) >= 0,
            ;
        },
        Ty::Struct { fields, .. } => {
            lemma_fields_nonneg(fields@, fields@.len());
        },
        _ => {},
    }
}

proof fn lemma_fields_nonneg(fields: Seq<(String, Ty)>, n: nat)
    ensures
        fields_size(fields, n) >= 0,
    decreases fields, n,
{
    if n > 0 && n <= fields.len() {
        lemma_fields_nonneg(fields, (n - 1) as nat);
        lemma_sizes_nonneg(fields[n - 1].1);
    }
}

/// Bytes occupied by a value of the given type.
pub fn ty_size_bytes(ty: &Ty) -> (r: u32)
    requires
        size_fits(*ty),
    ensures
        r == size_of_ty(*ty),
    decreases ty,
{
    match ty {
        Ty::Int(k) => match k {
            IntKind::I8 | IntKind::U8 => 1,
            IntKind::I16 | IntKind::U16 => 2,
            IntKind::I32 | IntKind::U32 => 4,
            IntKind::I64 | IntKind::U64 | IntKind::ISize | IntKind::USize => 8,
            IntKind::I128 | IntKind::U128 => 16,
        },
        Ty::Float(k) => match k {
            FloatKind::F32 => 4,
            FloatKind::F64 => 8,
        },
        Ty::Bool => 1,
        Ty::Unit => 0,
        Ty::Ref { .. } | Ty::Box(_) | Ty::String | Ty::Vec(_) => 8,
        Ty::Slice(_) | Ty::Str => 16,
        Ty::Array(inner, size) => {
            let elem = ty_size_bytes(inner);
            let n = *size as u32;
            proof {
                assert(n == *size % 0x1_0000_0000) by (bit_vector)
                    requires
                        n == *size as u32,
                ;
            }
            elem * n
        },
        Ty::Struct { fields, .. } => {
            let mut total: u32 = 0;
            let mut i: usize = 0;
            while i < fields.len()
                invariant
                    i <= fields@.len(),
                    *ty matches Ty::Struct { fields: fs, .. } && fs == *fields,
                    fields_fit(fields@, fields@.len()),
                    total == fields_size(fields@, i as nat),
                decreases fields@.len() - i,
            {
                proof {
                    assert(decreases_to!(*ty => fields@[i as int].1));
                    lemma_fit_prefix(fields@, fields@.len(), (i + 1) as nat);
                    lemma_fields_nonneg(fields@, i as nat);
                    lemma_sizes_nonneg(fields@[i as int].1);
                }
                let s = ty_size_bytes(&fields[i].1);
                total = total + s;
                i = i + 1;
            }
            total
        },
    }
}

proof fn lemma_fit_prefix(fields: Seq<(String, Ty)>, n: nat, m: nat)
    requires
        fields_fit(fields, n),
        0 < m <= n <= fields.len(),
    ensures
        fields_fit(fields, m),
        size_fits(fields[m - 1].1),
        fields_size(fields, m) <= u32::MAX,
    decreases n,
{
    if m < n {
        lemma_fit_prefix(fields, (n - 1) as nat, m);
    }
}

/// Bytes a value occupies in its stack slot: primitives by width, owning
/// pointers and references 8, slice fat pointers 16.
pub open spec fn value_size(v: Value) -> int {
    match v {
        Value::Int { kind, .. } => int_size(kind),
        Value::Float { kind, .. } => match kind {
            FloatKind::F32 => 4,
            FloatKind::F64 => 8,
        },
        Value::Bool(_) => 1,
        Value::Unit => 0,
        Value::Ref { .. } | Value::Box { .. } | Value::String { .. } | Value::Vec { .. } => 8,
        Value::Slice { .. } => 16,
    }
}

/// Bytes occupied by a value in its stack slot.
pub fn value_size_bytes(v: &Value) -> (r: u32)
    ensures
        r == value_size(*v),
{
    match v {
        Value::Int { kind, .. } => match kind {
            IntKind::I8 | IntKind::U8 => 1,
            IntKind::I16 | IntKind::U16 => 2,
            IntKind::I32 | IntKind::U32 => 4,
            IntKind::I64 | IntKind::U64 | IntKind::ISize | IntKind::USize => 8,
            IntKind::I128 | IntKind::U128 => 16,
        },
        Value::Float { kind, .. } => match kind {
            FloatKind::F32 => 4,
            FloatKind::F64 => 8,
        },
        Value::Bool(_) => 1,
        Value::Unit => 0,
        Value::Ref { .. } | Value::Box { .. } | Value::String { .. } | Value::Vec { .. } => 8,
        Value::Slice { .. } => 16,
    }
}

/// Absolute value.
pub open spec fn abs_int(a: int) -> int {
    if a < 0 {
        -a
    } else {
        a
    }
}

/// Rust's integer `/`: the quotient truncated toward zero (`b != 0`).
pub open spec fn trunc_div(a: int, b: int) -> int {
    if (a < 0) == (b < 0) {
        abs_int(a) / abs_int(b)
    } else {
        -(abs_int(a) / abs_int(b))
    }
}

/// Rust's integer `%`: the remainder of [`trunc_div`], carrying the sign of
/// the dividend (`b != 0`).
pub open spec fn trunc_rem(a: int, b: int) -> int {
    if a < 0 {
        -(abs_int(a) % abs_int(b))
    } else {
        abs_int(a) % abs_int(b)
    }
}

/// The mathematical result of an arithmetic operator.
pub open spec fn int_result(op: BinOp, a: int, b: int) -> int {
    match op {
        BinOp::Add => a + b,
        BinOp::Sub => a - b,
        BinOp::Mul => a * b,
        BinOp::Div => trunc_div(a, b),
        BinOp::Rem => trunc_rem(a, b),
        _ => 0,
    }
}

/// Whether an operator is one of `+ - * / %`.
pub open spec fn is_arith(op: BinOp) -> bool {
    op is Add || op is Sub || op is Mul || op is Div || op is Rem
}

/// The word that names an arithmetic operator in overflow messages.
pub open spec fn op_word(op: BinOp) -> Seq<char> {
    match op {
        BinOp::Add => "add"@,
        BinOp::Sub => "subtract"@,
        BinOp::Mul => "multiply"@,
        BinOp::Div => "divide"@,
        _ => "remainder"@,
    }
}

/// Runtime-error message for an integer result outside its kind.
pub open spec fn overflow_message(kind: IntKind, what: Seq<char>) -> Seq<char> {
    kind.spec_name() + " overflow in "@ + what
}

/// A computed value, or the message of the runtime error that halts
/// evaluation.
pub open spec fn outcome_view(r: Result<Value, String>) -> Result<Value, Seq<char>> {
    match r {
        Ok(v) => Ok(v),
        Err(m) => Err(m@),
    }
}

/// An integer result kept when it lies in the kind's range, an overflow
/// error naming the operation otherwise.
pub open spec fn checked_outcome(kind: IntKind, r: int, what: Seq<char>) -> Result<Value, Seq<char>> {
    if kind.spec_min() <= r <= kind.spec_max() {
        Ok(Value::Int { kind, bits: r as i128 })
    } else {
        Err(overflow_message(kind, what))
    }
}

/// Outcome of an arithmetic operator on two integers of one kind:
/// a zero divisor is its own error; `i128::MIN % -1` overflows in the
/// 128-bit computation; otherwise the exact result, range-checked.
pub open spec fn arith_outcome(op: BinOp, kind: IntKind, a: i128, b: i128) -> Result<Value, Seq<char>> {
    if op is Div && b == 0 {
        Err("division by zero"@)
    } else if op is Rem && b == 0 {
        Err("remainder by zero"@)
    } else if op is Rem && a == i128::MIN && b == -1 {
        Err(overflow_message(kind, "remainder"@))
    } else {
        checked_outcome(kind, int_result(op, a as int, b as int), op_word(op))
    }
}

/// The operand combinations a binary operator is evaluated on (integers of
/// one kind under any operator but `&&`/`||`; booleans under `==`, `!=`,
/// `&&`, `||`). The checker admits no other combination.
pub open spec fn binary_defined(op: BinOp, lhs: Value, rhs: Value) -> bool {
    match (lhs, rhs) {
        (Value::Int { kind: ka, .. }, Value::Int { kind: kb, .. }) => ka == kb && !(op is And)
            && !(op is Or),
        (Value::Bool(_), Value::Bool(_)) => op is Eq || op is Neq || op is And || op is Or,
        _ => false,
    }
}

/// Outcome of a binary operator on two evaluated operands.
pub open spec fn binary_outcome(op: BinOp, lhs: Value, rhs: Value) -> Result<Value, Seq<char>> {
    match (lhs, rhs) {
        (Value::Int { kind, bits: a }, Value::Int { bits: b, .. }) => match op {
            BinOp::Lt => Ok(Value::Bool(a < b)),
            BinOp::Le => Ok(Value::Bool(a <= b)),
            BinOp::Gt => Ok(Value::Bool(a > b)),
            BinOp::Ge => Ok(Value::Bool(a >= b)),
            BinOp::Eq => Ok(Value::Bool(a == b)),
            BinOp::Neq => Ok(Value::Bool(a != b)),
            _ => arith_outcome(op, kind, a, b),
        },
        (Value::Bool(a), Value::Bool(b)) => match op {
            BinOp::Eq => Ok(Value::Bool(a == b)),
            BinOp::Neq => Ok(Value::Bool(a != b)),
            _ => Ok(Value::Bool(b)),
        },
        _ => Ok(Value::Unit),
    }
}

/// The value `&&` / `||` yields from its left operand alone, when the right
/// operand is not evaluated.
pub open spec fn spec_short_circuit(op: BinOp, lhs: Value) -> Option<Value> {
    if op is And && lhs == Value::Bool(false) {
        Some(Value::Bool(false))
    } else if op is Or && lhs == Value::Bool(true) {
        Some(Value::Bool(true))
    } else {
        None
    }
}

/// The operand combinations a unary operator is evaluated on.
pub open spec fn unary_defined(op: UnOp, v: Value) -> bool {
    (op is Neg && v is Int) || (op is Not && v is Bool)
}

/// Outcome of a unary operator on an evaluated operand.
pub open spec fn unary_outcome(op: UnOp, v: Value) -> Result<Value, Seq<char>> {
    match v {
        Value::Int { kind, bits } => checked_outcome(kind, -(bits as int), "unary `-`"@),
        Value::Bool(b) => Ok(Value::Bool(!b)),
        _ => Ok(Value::Unit),
    }
}

/// Keep a 128-bit result when it lies in `kind`'s range; otherwise the
/// overflow error naming the operation.
pub fn int_checked(kind: IntKind, result: Option<i128>, op_name: &str) -> (r: Result<Value, String>)
    ensures
        outcome_view(r) == (match result {
            Some(v) => checked_outcome(kind, v as int, op_name@),
            None => Err(overflow_message(kind, op_name@)),
        }),
{
    match result {
        Some(v) => {
            if kind.contains(v) {
                return Ok(Value::Int { kind, bits: v });
            }
        },
        None => {},
    }
    let m = concat_str(concat_str(String::from_str(kind.name()), " overflow in "), op_name);
    proof {
        reveal_strlit(" overflow in ");
    }
    Err(m)
}

/// `&&` with a false left operand is false, `||` with a true one is true,
/// without evaluating the right operand; `None` when the right operand
/// decides.
pub fn short_circuit(op: BinOp, lhs: Value) -> (r: Option<Value>)
    ensures
        r == spec_short_circuit(op, lhs),
{
    match (op, lhs) {
        (BinOp::And, Value::Bool(false)) => Some(Value::Bool(false)),
        (BinOp::Or, Value::Bool(true)) => Some(Value::Bool(true)),
        _ => None,
    }
}

/// Apply a unary operator to an evaluated operand: `-` on an integer
/// (range-checked against its kind), `!` on a boolean.
pub fn apply_unary(op: UnOp, v: Value) -> (r: Result<Value, String>)
    requires
        unary_defined(op, v),
    ensures
        outcome_view(r) == unary_outcome(op, v),
{
    match v {
        Value::Int { kind, bits } => {
            let neg = if bits == i128::MIN {
                None
            } else {
                Some(-bits)
            };
            let r = int_checked(kind, neg, "unary `-`");
            proof {
                reveal_strlit("unary `-`");
                if bits == i128::MIN {
                    assert(!(kind.spec_min() <= -(bits as int) <= kind.spec_max()));
                }
            }
            r
        },
        Value::Bool(b) => Ok(Value::Bool(!b)),
        _ => Ok(Value::Unit),
    }
}

/// Apply a binary operator to two evaluated operands of an admitted
/// combination: integer arithmetic with Rust's truncating division and a
/// range check against the operands' kind, comparisons, and boolean
/// equality and logic. Floating-point operands are not handled here.
pub fn apply_binary(op: BinOp, lhs: Value, rhs: Value) -> (r: Result<Value, String>)
    requires
        binary_defined(op, lhs, rhs),
    ensures
        outcome_view(r) == binary_outcome(op, lhs, rhs),
{
    match (lhs, rhs) {
        (Value::Int { kind, bits: a }, Value::Int { bits: b, .. }) => match op {
            BinOp::Lt => Ok(Value::Bool(a < b)),
            BinOp::Le => Ok(Value::Bool(a <= b)),
            BinOp::Gt => Ok(Value::Bool(a > b)),
            BinOp::Ge => Ok(Value::Bool(a >= b)),
            BinOp::Eq => Ok(Value::Bool(a == b)),
            BinOp::Neq => Ok(Value::Bool(a != b)),
            BinOp::Add => {
                let r = int_checked(kind, a.checked_add(b), "add");
                proof {
                    reveal_strlit("add");
                }
                r
            },
            BinOp::Sub => {
                let r = int_checked(kind, a.checked_sub(b), "subtract");
                proof {
                    reveal_strlit("subtract");
                }
                r
            },
            BinOp::Mul => {
                let r = int_checked(kind, a.checked_mul(b), "multiply");
                proof {
                    reveal_strlit("multiply");
                }
                r
            },
            BinOp::Div => {
                if b == 0 {
                    proof {
                        reveal_strlit("division by zero");
                    }
                    return Err(String::from_str("division by zero"));
                }
                let q = a.checked_div(b);
                let r = int_checked(kind, q, "divide");
                proof {
                    reveal_strlit("divide");
                    lemma_trunc_div_fits(a, b);
                }
                r
            },
            BinOp::Rem => {
                if b == 0 {
                    proof {
                        reveal_strlit("remainder by zero");
                    }
                    return Err(String::from_str("remainder by zero"));
                }
                let q = a.checked_rem(b);
                let r = int_checked(kind, q, "remainder");
                proof {
                    reveal_strlit("remainder");
                    lemma_trunc_rem_fits(a, b);
                }
                r
            },
            _ => Ok(Value::Unit),
        },
        (Value::Bool(a), Value::Bool(b)) => match op {
            BinOp::Eq => Ok(Value::Bool(a == b)),
            BinOp::Neq => Ok(Value::Bool(a != b)),
            _ => Ok(Value::Bool(b)),
        },
        _ => Ok(Value::Unit),
    }
}

/// Law: an operator evaluation that succeeds on integers yields an integer
/// of the operands' kind inside that kind's range (or, for comparisons, a
/// boolean); a result outside the range is always reported as an overflow.
pub proof fn law_int_results_in_range(op: BinOp, lhs: Value, rhs: Value)
    requires
        binary_defined(op, lhs, rhs),
        lhs is Int,
    ensures
        is_arith(op) ==> match binary_outcome(op, lhs, rhs) {
            Ok(Value::Int { kind, bits }) => kind == lhs->Int_kind && kind.spec_min() <= bits
                <= kind.spec_max(),
            Ok(_) => false,
            Err(_) => true,
        },
        !is_arith(op) ==> binary_outcome(op, lhs, rhs) is Ok && binary_outcome(
            op,
            lhs,
            rhs,
        )->Ok_0 is Bool,
{
}

/// Law: negation that succeeds yields an integer of the operand's kind
/// inside that kind's range.
pub proof fn law_negation_in_range(v: Value)
    requires
        v is Int,
    ensures
        match unary_outcome(UnOp::Neg, v) {
            Ok(Value::Int { kind, bits }) => kind == v->Int_kind && kind.spec_min() <= bits
                <= kind.spec_max() && bits == -(v->Int_bits),
            Ok(_) => false,
            Err(m) => m == overflow_message(v->Int_kind, "unary `-`"@),
        },
{
}

/// Whether a value is of the primitive type `t` (an integer or float of the
/// kind, a boolean, or unit).
pub open spec fn value_has_ty(v: Value, t: Ty) -> bool {
    match (v, t) {
        (Value::Int { kind, .. }, Ty::Int(k)) => kind == k,
        (Value::Float { kind, .. }, Ty::Float(k)) => kind == k,
        (Value::Bool(_), Ty::Bool) => true,
        (Value::Unit, Ty::Unit) => true,
        _ => false,
    }
}

/// Law: a binary operator the checker accepts on integer or boolean operand
/// types can be evaluated on any values of those types; what it yields has
/// the type the checker inferred, and only integer arithmetic can fail at
/// run time (overflow or a zero divisor).
pub proof fn law_binary_type_soundness(op: BinOp, lt: Ty, rt: Ty, t: Ty, lhs: Value, rhs: Value)
    requires
        spec_binary_ty(op, lt, rt) == Ok::<Ty, Seq<char>>(t),
        value_has_ty(lhs, lt),
        value_has_ty(rhs, rt),
        !(lt is Float),
    ensures
        binary_defined(op, lhs, rhs),
        binary_outcome(op, lhs, rhs) matches Ok(v) ==> value_has_ty(v, t),
        binary_outcome(op, lhs, rhs) is Err ==> is_arith(op),
{
}

/// An integer value of kind `k`.
pub open spec fn int_val(k: IntKind, a: i128) -> Value {
    Value::Int { kind: k, bits: a }
}

/// The outcome of `op` on two integers of kind `k`.
pub open spec fn int_op(op: BinOp, k: IntKind, a: i128, b: i128) -> Result<Value, Seq<char>> {
    binary_outcome(op, int_val(k, a), int_val(k, b))
}

/// Law: comparisons of two integers of one kind yield the mathematical
/// comparison of their values, and never fail.
pub proof fn law_int_comparisons(k: IntKind, a: i128, b: i128)
    ensures
        int_op(BinOp::Lt, k, a, b) == Ok::<Value, Seq<char>>(Value::Bool(a < b)),
        int_op(BinOp::Le, k, a, b) == Ok::<Value, Seq<char>>(Value::Bool(a <= b)),
        int_op(BinOp::Gt, k, a, b) == Ok::<Value, Seq<char>>(Value::Bool(a > b)),
        int_op(BinOp::Ge, k, a, b) == Ok::<Value, Seq<char>>(Value::Bool(a >= b)),
        int_op(BinOp::Eq, k, a, b) == Ok::<Value, Seq<char>>(Value::Bool(a == b)),
        int_op(BinOp::Neq, k, a, b) == Ok::<Value, Seq<char>>(Value::Bool(a != b)),
{
}

/// Whether `v` lies in kind `k`'s range.
pub open spec fn in_kind(k: IntKind, v: int) -> bool {
    k.spec_min() <= v <= k.spec_max()
}

/// Law: integer arithmetic succeeds exactly when the exact result lies in
/// the kind's range (and, for `/` and `%`, the divisor is non-zero), and
/// then yields it: the sum, the difference, the product; the quotient `q`
/// and remainder `r` satisfy `a == q * b + r` with `|r| < |b|` and `r`
/// carrying the dividend's sign.
pub proof fn law_int_arithmetic(k: IntKind, a: i128, b: i128)
    ensures
        (int_op(BinOp::Add, k, a, b) is Ok) == in_kind(k, a + b),
        in_kind(k, a + b) ==> int_op(BinOp::Add, k, a, b) == Ok::<Value, Seq<char>>(int_val(k, (a + b) as i128)),
        (int_op(BinOp::Sub, k, a, b) is Ok) == in_kind(k, a - b),
        in_kind(k, a - b) ==> int_op(BinOp::Sub, k, a, b) == Ok::<Value, Seq<char>>(int_val(k, (a - b) as i128)),
        (int_op(BinOp::Mul, k, a, b) is Ok) == in_kind(k, a * b),
        in_kind(k, a * b) ==> int_op(BinOp::Mul, k, a, b) == Ok::<Value, Seq<char>>(int_val(k, (a * b) as i128)),
        b == 0 ==> int_op(BinOp::Div, k, a, b) is Err && int_op(BinOp::Rem, k, a, b) is Err,
        b != 0 && int_op(BinOp::Div, k, a, b) is Ok && int_op(BinOp::Rem, k, a, b) is Ok ==> ({
            let q = int_op(BinOp::Div, k, a, b)->Ok_0->Int_bits;
            let r = int_op(BinOp::Rem, k, a, b)->Ok_0->Int_bits;
            &&& a == q * b + r
            &&& abs_int(r as int) < abs_int(b as int)
            &&& (r == 0 || ((r < 0) == (a < 0)))
        }),
{
    if b != 0 {
        let x = abs_int(a as int);
        let d = abs_int(b as int);
        assert(x == d * (x / d) + x % d && 0 <= x % d < d) by (nonlinear_arith)
            requires
                x >= 0,
                d > 0,
        ;
        if int_op(BinOp::Div, k, a, b) is Ok && int_op(BinOp::Rem, k, a, b) is Ok {
            let q = trunc_div(a as int, b as int);
            let r = trunc_rem(a as int, b as int);
            assert(a == q * b + r) by (nonlinear_arith)
                requires
                    x == d * (x / d) + x % d,
                    x == abs_int(a as int),
                    d == abs_int(b as int),
                    q == (if (a < 0) == (b < 0) { x / d } else { -(x / d) }),
                    r == (if a < 0 { -(x % d) } else { x % d }),
            ;
        }
    }
}

proof fn lemma_trunc_div_fits(a: i128, b: i128)
    requires
        b != 0,
    ensures
        a.checked_div(b) == (if i128::MIN <= trunc_div(a as int, b as int) <= i128::MAX {
            Some(trunc_div(a as int, b as int) as i128)
        } else {
            None::<i128>
        }),
{
}

proof fn lemma_trunc_rem_fits(a: i128, b: i128)
    requires
        b != 0,
    ensures
        a == i128::MIN && b == -1 ==> a.checked_rem(b) is None,
        !(a == i128::MIN && b == -1) ==> a.checked_rem(b) == Some(trunc_rem(a as int, b as int) as i128)
            && i128::MIN <= trunc_rem(a as int, b as int) <= i128::MAX,
{
    let x = abs_int(a as int);
    let d = abs_int(b as int);
    assert(0 <= x % d <= x) by (nonlinear_arith)
        requires
            x >= 0,
            d > 0,
    ;
}

/// A one-byte span over the closing `}` of a block span (or empty at the
/// start when the block span is empty at offset 0).
pub open spec fn spec_closing_brace_span(block_span: Span) -> Span {
    Span {
        start: if block_span.end >= 1 {
            (block_span.end - 1) as u32
        } else {
            0
        },
        end: block_span.end,
        file: block_span.file,
    }
}

/// Span of the closing `}` of a block.
pub fn closing_brace_span(block_span: Span) -> (s: Span)
    ensures
        s == spec_closing_brace_span(block_span),
{
    let end = block_span.end;
    let start = end.saturating_sub(1);
    Span::new(start, end, block_span.file)
}

} // verus!
