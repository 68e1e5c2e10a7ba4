# rustviz front end, verified

The front end of a pedagogical interpreter for a small subset of Rust:
source registry and positions, lexing, parsing, name resolution, the type
and value vocabulary the later stages share, the static borrow
tracker, and single steps of the checker and the evaluator (operators,
borrows, assignments, the heap and scope exit), and the front end of the
pipeline through the declaration phase of type checking; checking
function bodies and evaluating whole programs are not included. Every function of the library is verified with Verus against a
contract stated over mathematical models, except the small trusted
wrappers around `indexmap` and two `std` conversions, whose contracts
Verus takes on trust.

## What the contracts say

- `lexer::lex` yields exactly the tokens of the lexical specification
  `lex_from` (or its first error), followed by end of input at the file's
  byte length.
- `parser::parse_tokens` and `parser::parse` yield exactly the program the
  grammar in `grammar.rs` reads from the tokens, or its first error
  (stop at the first error). The grammar is written as one spec function
  per construct, from a token position to the value parsed there and the
  position after it.
- `resolve::resolve` yields exactly the use and declaration tables of the
  resolution specification `r_program` (scopes, shadowing, forward-visible
  functions), or its first error.
- `borrow_tracker::BorrowTracker` keeps, per binding, a stack of active
  borrows that always obeys the aliasing rule: many shared borrows, or one
  mutable borrow.
- `structs::collect_declarations` is the declaration phase of type
  checking: struct schemas (`register_structs`), impl blocks
  (`ImplRegistry::register_impl`) and every function's signature in the
  `TypeMap`, or the first error. `pipeline::front_end` runs parsing,
  resolution and this phase on a registered file and tags the first
  failing stage.
- `typeck::typecheck_binary` gives the type of a binary operation from its
  operands' types, after bringing a literal operand to the other side's
  type (`typeck::try_coerce_to`, `typeck::unify_numeric_operands`), or the
  exact message that rejects it.
- `typeck::take_borrow` / `typeck::check_mut_decl` record a borrow in the
  tracker or give the exact conflict message; `typeck::field_ty` types a
  field access.
- `heap::HeapState` is the evaluator's heap: first-fit allocation that
  splits a larger freed chunk (`alloc_heap`), freeing (`free_heap`), and
  `heap::drop_scope`, which ends a scope's borrows and frees what its
  locals own, `heap::realloc_heap`, which moves a grown buffer, makes its
  owners follow it and reports every borrow left dangling, and
  `HeapState::eval_index` with its bounds check, each with the exact
  events it reports. No address is ever
  live twice or both live and freed (`HeapState::wf`, kept by every
  operation).
- `eval::apply_binary` / `eval::apply_unary` evaluate operators on integer
  and boolean values: exact results with Rust's truncating division, an
  overflow error naming the kind and operation whenever the result leaves
  the kind's range, and the zero-divisor errors.

## Laws proved

- Lexed tokens are non-empty, in source order and within the input
  (`lexer::law_tokens_ordered`).
- Every node of a parsed program with at least one item has a non-empty
  span (an empty program spans `0..0`)
  (`spanned::law_parsed_spans_nonempty`, part of `parse`'s contract).
- Resolution records every identifier use, numbers bindings `0, 1, ..` in
  declaration order, and every use refers to a recorded binding
  (`resolve::law_every_use_recorded`, part of `resolve`'s contract).
- The borrow tracker never holds an aliasing violation, and leaving a scope
  drops exactly the borrows taken at or below it
  (`borrow_tracker::BorrowTracker::law_aliasing_xor_mutability`,
  `borrow_tracker::law_pop_scope_drops_deeper`).
- Integer results always lie in their kind's range
  (`eval::law_int_results_in_range`, `eval::law_negation_in_range`).
- The files `get` finds are exactly the ids `add` handed out
  (`span::law_get_finds_exactly_added`).
- After a successful resolution every function has a function binding of
  its name (`resolve::law_fns_bound`, part of `resolve`'s contract).
- After a buffer moves, no local still owns its old address
  (`heap::law_owners_follow_realloc`).
- A binary operator the checker accepts on integer or boolean operands is
  defined on all values of those types, yields the inferred type, and can
  fail only through integer arithmetic (`eval::law_binary_type_soundness`).

## Layout

- `src/` the verified library (one module per stage; `grammar.rs` and the
  spec half of `resolve.rs` are the specifications the code is held to).
- `tests/` tests of the library on concrete programs.
- `app/` a command-line driver that runs lexing, parsing and resolution on
  sample programs and reports errors as JSON.

Outside crates: `indexmap` for the insertion-ordered tables (reached through
small trusted wrappers whose contracts follow the crate's documentation),
`serde` and `serde_json` in the driver.
