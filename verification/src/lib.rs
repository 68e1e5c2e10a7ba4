//! Front end and type machinery of a pedagogical Rust-subset interpreter:
//! source positions, lexing, the surface syntax tree, value types, the
//! static borrow tracker and the event model the evaluator emits.

pub mod error;
pub mod pipeline;
pub mod span;
pub mod text;
pub mod typeck;
pub mod borrow_tracker;
pub mod resolve;
pub mod token;
pub mod lexer;
pub mod ast;
pub mod grammar;
pub mod parser;
pub mod spanned;
pub mod eval;
pub mod event;
pub mod heap;
pub mod structs;
