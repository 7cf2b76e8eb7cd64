//! Activation records of the virtual machine.
use crate::value::Value;
use std::rc::Rc;
use vstd::prelude::*;

verus! {

/// One active call. Its code is the body of the closure's function, or the
/// top-level code when the closure is the placeholder of the outermost frame.
pub struct CallFrame {
    pub closure: Rc<Value>,
    /// Position of the next instruction to run.
    pub instruction_pointer: usize,
    /// Operand-stack position of local slot 0 of this call.
    pub frame_index: usize,
    /// For a call of a unary function on an integer whose result was not
    /// memoized: the function's index and the argument, under which the
    /// result is recorded if the call prints nothing.
    pub memo_key: Option<(u16, i32)>,
    /// How many lines had been printed when the call began; the call printed
    /// nothing, its callees included, while that count is unchanged.
    pub output_mark: usize,
}

} // verus!
