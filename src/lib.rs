//! A compiler from the Rinha term language to a small stack bytecode, and the
//! virtual machine that runs that bytecode.

pub mod ast;
pub mod balance;
pub mod bytecode;
pub mod call_frame;
pub mod compiler;
pub mod error;
pub mod execution;
pub mod function;
pub mod laws;
pub mod machine;
pub mod names;
pub mod ops;
pub mod text;
pub mod value;
pub mod vm;
