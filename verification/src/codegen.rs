//! Code generation: a checked program becomes textual LLVM IR.
use vstd::prelude::*;

use crate::ast::Program;
use crate::codegen::error::{CodegenError, CodegenErrorView};
use crate::codegen::lowering::lowered;
use crate::codegen::registry::Context;
use crate::codegen::state::Emitter;
use crate::collections::views;
use crate::resolve::Resolution;
use crate::types::Typing;

pub mod control;
pub mod emit;
pub mod emit_item;
pub mod emit_stmt;
pub mod error;
pub mod failures;
pub mod instructions;
pub mod irtype;
pub mod laws;
pub mod layout;
pub mod literal;
pub mod lowering;
pub mod meaning;
pub mod registry;
pub mod state;
pub mod values;

verus! {

/// The outcome of code generation as a mathematical value.
pub open spec fn outcome(r: Result<String, Vec<CodegenError>>) -> Result<
    Seq<char>,
    Seq<CodegenErrorView>,
> {
    match r {
        Ok(text) => Ok(text@),
        Err(errors) => Err(views(errors@)),
    }
}

/// Lowers a program to the text of an LLVM module.
///
/// `resolution` and `typing` are what name resolution and type inference found
/// out about the program. `module_name` names the module. On failure every
/// error is given, in source order.
pub fn lower(
    program: &Program,
    resolution: &Resolution,
    typing: &Typing,
    module_name: &str,
) -> (r: Result<String, Vec<CodegenError>>)
    ensures
        outcome(r) == lowered(*program, *resolution, *typing, module_name@),
{
    let cx = Context::collect_automatons(program, resolution, typing);
    let mut emitter = Emitter::new();
    emitter.emit_module(&cx, program, module_name);
    emitter.finish()
}

} // verus!
