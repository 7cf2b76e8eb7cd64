//! Compiled functions.
use crate::bytecode::Instruction;
use vstd::prelude::*;

verus! {

/// A parameter or `let` slot of a function body, by name.
pub struct Local {
    pub name: String,
}

/// A compiled function.
pub struct Function {
    /// Number of parameters.
    pub arity: u16,
    /// The body, ending in `Return`.
    pub bytecode: Vec<Instruction>,
    /// The free variables of the body, each once.
    pub captured: Vec<String>,
    /// The function's position in the function table.
    pub index: u16,
    /// Parameters, then `let` slots, in the order they sit on the stack.
    pub locals: Vec<Local>,
}

/// The names of a sequence of locals.
pub open spec fn local_names(locals: Seq<Local>) -> Seq<Seq<char>> {
    locals.map_values(|l: Local| l.name@)
}

} // verus!
