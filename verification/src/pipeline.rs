//! Errors surfaced by the compile pipeline, tagged with the stage that
//! produced them.

use vstd::prelude::*;

use crate::ast::{program_v, Program, ProgramV};
use crate::error::ParseError;
use crate::grammar::{p_program, Ctx};
use crate::lexer::lex_from;
use crate::parser::{lexed_tokens, parse};
use crate::resolve::{binding_count, binding_entries, n_program, r_program, resolution_is, resolve, Resolution};
use crate::span::{text_bytes, FileId, SourceMap, Span};
use crate::structs::{collect_declarations, spec_declarations, spec_register_structs, Declarations};
use crate::text::decimal;

verus! {

/// Pipeline stage labels.
#[derive(Debug, Clone, Copy, PartialEq, Eq, Structural)]
pub enum CompileStage {
    /// Lexer / parser.
    Parse,
    /// Name resolution.
    Resolve,
    /// Type checking.
    Typeck,
    /// Evaluation.
    Eval,
}

/// A compile-stage error: the span and message of the underlying
/// [`ParseError`], tagged with the stage that failed.
#[derive(Debug, Clone, PartialEq)]
pub struct CompileError {
    /// Source location of the error.
    pub span: Span,
    /// Which stage produced the error.
    pub stage: CompileStage,
    /// Human-readable message.
    pub message: String,
}

impl CompileError {
    /// Tag a stage error with its stage, keeping its span and message.
    pub fn from_parse_error(err: ParseError, stage: CompileStage) -> (r: CompileError)
        ensures
            r.span == err.span,
            r.stage == stage,
            r.message == err.message,
    {
        CompileError { span: err.span, stage, message: err.message }
    }
}

/// What parsing file `file` of `sm` yields: the program by its view, or
/// the error (a missing file, the first lexical error, or the first
/// syntax error).
pub open spec fn spec_parse(sm: SourceMap, file: FileId) -> Result<ProgramV, (Seq<char>, Span)> {
    if !sm.spec_files().contains_key(file.0) {
        Err(("file id "@ + decimal(file.0 as nat) + " not found in source map"@, Span { start: 0, end: 0, file }))
    } else {
        let b = text_bytes(sm.spec_files()[file.0].spec_src()@);
        match lex_from(b, 0) {
            Err((m, start, end)) => Err((m, Span { start: start as u32, end: end as u32, file })),
            Ok(ts) => p_program(Ctx { t: lexed_tokens(ts, file, b.len()), eof: b.len() as u32, file }),
        }
    }
}

/// The error of the declaration phase for a program and its resolution,
/// if it fails.
pub open spec fn declarations_error(p: Program, res: Resolution) -> Option<(Seq<char>, Span)> {
    match spec_register_structs(p.items@, p.items@.len()) {
        Err(e) => Some(e),
        Ok(sv) => match spec_declarations(sv, binding_entries(res.bindings), p.items@, p.items@.len()) {
            Err(e) => Some(e),
            Ok(_) => None,
        },
    }
}

/// Whether `e` is the error `m` at `sp`, tagged with `stage`.
pub open spec fn error_is(e: CompileError, stage: CompileStage, m: Seq<char>, sp: Span) -> bool {
    e.stage == stage && e.message@ == m && e.span == sp
}

/// The front end of the pipeline on file `file` of `sm`: parsing, name
/// resolution and the declaration phase of type checking. The first
/// failing stage's error comes back tagged with that stage. `None` when the
/// program declares more bindings than 32-bit binding numbers can count.
pub fn front_end(file: FileId, sm: &SourceMap) -> (r: Option<Result<(Program, Resolution, Declarations), CompileError>>)
    ensures
        match spec_parse(*sm, file) {
            Err((m, sp)) => r matches Some(Err(e)) && error_is(e, CompileStage::Parse, m, sp),
            Ok(pv) => if n_program(pv) > u32::MAX {
                r is None
            } else {
                match r_program(pv) {
                    Err((m, sp)) => r matches Some(Err(e)) && error_is(e, CompileStage::Resolve, m, sp),
                    Ok(st) => match r {
                        Some(Ok((p, res, ds))) => program_v(p) == pv && resolution_is(res, st)
                            && declarations_error(p, res) is None,
                        Some(Err(e)) => exists|p: Program, res: Resolution|
                            program_v(p) == pv && resolution_is(res, st) && #[trigger] declarations_error(p, res)
                                == Some((e.message@, e.span)) && e.stage == CompileStage::Typeck,
                        None => false,
                    },
                }
            },
        },
{
    let program = match parse(file, sm) {
        Ok(p) => p,
        Err(e) => return Some(Err(CompileError::from_parse_error(e, CompileStage::Parse))),
    };
    if binding_count(&program) > 0xffff_ffffu64 {
        return None;
    }
    let res = match resolve(&program) {
        Ok(r) => r,
        Err(e) => return Some(Err(CompileError::from_parse_error(e, CompileStage::Resolve))),
    };
    match collect_declarations(&program, &res) {
        Ok(ds) => Some(Ok((program, res, ds))),
        Err(e) => {
            let ce = CompileError::from_parse_error(e, CompileStage::Typeck);
            proof {
                assert(declarations_error(program, res) == Some((ce.message@, ce.span)));
            }
            Some(Err(ce))
        },
    }
}

} // verus!
