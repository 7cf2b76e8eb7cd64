//! The instruction set of the virtual machine.
use vstd::prelude::*;

verus! {

/// One instruction. Immediates are indices into the machine's pools, stack
/// slots, counts of instructions to skip, or call arities.
#[derive(Clone, Copy, Debug, PartialEq, Eq, Structural)]
pub enum Instruction {
    Constant(u16),
    True,
    False,
    Add,
    Sub,
    Mul,
    Div,
    Rem,
    Eq,
    Neq,
    Gt,
    Lt,
    Gte,
    Lte,
    And,
    Or,
    Tuple,
    First,
    Second,
    Print,
    GlobalGet(u16),
    GlobalSet(u16),
    /// Stack slot of the local in the current frame, then the identifier index of its name.
    LocalGet(u16, u16),
    If(u32),
    Jump(u32),
    Closure(u16),
    Call(u16),
    TailCall(u16),
    Return(u16),
}

} // verus!
