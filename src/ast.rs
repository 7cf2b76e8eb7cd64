//! The input tree: terms as a front-end hands them over.
use vstd::prelude::*;

verus! {

/// A span of source text.
pub struct Location {
    pub start: usize,
    pub end: usize,
    pub filename: String,
}

/// A whole program: its name, its root term and where it comes from.
pub struct File {
    pub name: String,
    pub expression: Term,
    pub location: Location,
}

/// The binary operators of the language.
#[derive(Clone, Copy, Debug, PartialEq, Eq, Structural)]
pub enum Operation {
    Add,
    Sub,
    Mul,
    Div,
    Rem,
    Eq,
    Neq,
    Lt,
    Gt,
    Lte,
    Gte,
    And,
    Or,
}

/// A term of the language.
pub enum Term {
    Int(i32),
    Str(String),
    Bool(bool),
    Binary { op: Operation, lhs: Box<Term>, rhs: Box<Term> },
    Let { name: String, value: Box<Term>, next: Box<Term> },
    Var(String),
    Function { parameters: Vec<String>, value: Box<Term> },
    Call { callee: Box<Term>, arguments: Vec<Term> },
    Tuple { first: Box<Term>, second: Box<Term> },
    First(Box<Term>),
    Second(Box<Term>),
    If { condition: Box<Term>, consequent: Box<Term>, otherwise: Box<Term> },
    Print(Box<Term>),
    /// A part of the source that the front-end could not read, with its message.
    Error(String),
}

} // verus!
