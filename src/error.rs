//! What can go wrong while compiling or running a program.
use vstd::prelude::*;

verus! {

/// Every failure of compilation or evaluation. Evaluation stops at the first.
#[derive(Debug, PartialEq, Eq)]
pub enum Error {
    /// The program holds a term that the front-end could not read.
    Syntax(String),
    /// A program may hold at most 65,535 distinct constants.
    TooManyConstants,
    /// A program may hold at most 65,535 distinct identifiers.
    TooManyIdentifiers,
    /// A program may hold at most 65,535 functions.
    TooManyFunctions,
    /// A function may have at most 65,535 parameters and locals.
    TooManyLocals,
    /// A call may pass at most 65,535 arguments.
    TooManyArguments,
    /// A jump would reach past 2^31 - 1 instructions.
    JumpTooLong,
    /// An operator was applied to values of kinds it does not take.
    InvalidOperands,
    /// Integer division by zero.
    DivisionByZero,
    /// Integer remainder by zero.
    RemainderByZero,
    /// Integer arithmetic left the 32-bit range.
    Overflow,
    /// An `if` condition was not a boolean.
    NotABoolean,
    /// `first` or `second` of a value that is not a tuple.
    NotATuple,
    /// A call of a value that is not a closure.
    NotAFunction,
    /// A call with a number of arguments other than the callee's arity.
    WrongArity,
    /// A variable that is neither captured, local nor global, by name.
    UnknownVariable(String),
    /// The bytecode asked for more operands than the stack holds.
    StackUnderflow,
    /// The bytecode names a constant, identifier, function or instruction
    /// that does not exist, or no call frame is active.
    InvalidBytecode,
    /// Evaluation ran for the whole step budget it was given.
    StepLimit,
}

} // verus!
