//! What the binary instructions compute from their two operands.
use crate::bytecode::Instruction;
use crate::error::Error;
use crate::text::{decimal, decimal_string};
use crate::value::{values_equal, Value};
use vstd::prelude::*;

verus! {

/// The instructions that pop two operands and push what `apply_binary` makes of them.
pub open spec fn is_binary(op: Instruction) -> bool {
    match op {
        Instruction::Add | Instruction::Sub | Instruction::Mul | Instruction::Div | Instruction::Rem
        | Instruction::Eq | Instruction::Neq | Instruction::Gt | Instruction::Lt | Instruction::Gte
        | Instruction::Lte | Instruction::And | Instruction::Or => true,
        _ => false,
    }
}

/// Integer arithmetic: the result, or `Overflow` when it leaves the 32-bit range.
pub open spec fn checked(r: Option<i32>) -> Result<Value, Error> {
    match r {
        Some(v) => Ok(Value::Integer(v)),
        None => Err(Error::Overflow),
    }
}

/// Whether `out` is what the binary instruction `op` makes of `l` and `r`.
/// `Add` joins strings, an integer in base 10; the other arithmetic takes two
/// integers; comparisons of order take two integers, `And` and `Or` two
/// booleans; `Eq` and `Neq` take any two values. Integer arithmetic is
/// checked: a result outside the 32-bit range is an `Overflow` error, and
/// division and remainder truncate toward zero.
pub open spec fn binary_outcome(op: Instruction, l: Value, r: Value, out: Result<Value, Error>) -> bool {
    match op {
        Instruction::Add => match (l, r) {
            (Value::Integer(a), Value::Integer(b)) => out == checked(a.checked_add(b)),
            (Value::String(a), Value::Integer(b)) => out matches Ok(Value::String(s)) && s@ == a@ + decimal(b as int),
            (Value::Integer(a), Value::String(b)) => out matches Ok(Value::String(s)) && s@ == decimal(a as int) + b@,
            (Value::String(a), Value::String(b)) => out matches Ok(Value::String(s)) && s@ == a@ + b@,
            _ => out == Err::<Value, Error>(Error::InvalidOperands),
        },
        Instruction::Sub => match (l, r) {
            (Value::Integer(a), Value::Integer(b)) => out == checked(a.checked_sub(b)),
            _ => out == Err::<Value, Error>(Error::InvalidOperands),
        },
        Instruction::Mul => match (l, r) {
            (Value::Integer(a), Value::Integer(b)) => out == checked(a.checked_mul(b)),
            _ => out == Err::<Value, Error>(Error::InvalidOperands),
        },
        Instruction::Div => match (l, r) {
            (Value::Integer(a), Value::Integer(b)) => if b == 0 {
                out == Err::<Value, Error>(Error::DivisionByZero)
            } else {
                out == checked(a.checked_div(b))
            },
            _ => out == Err::<Value, Error>(Error::InvalidOperands),
        },
        Instruction::Rem => match (l, r) {
            (Value::Integer(a), Value::Integer(b)) => if b == 0 {
                out == Err::<Value, Error>(Error::RemainderByZero)
            } else {
                out == checked(a.checked_rem(b))
            },
            _ => out == Err::<Value, Error>(Error::InvalidOperands),
        },
        Instruction::Eq => out == Ok::<Value, Error>(Value::Bool(values_equal(l, r))),
        Instruction::Neq => out == Ok::<Value, Error>(Value::Bool(!values_equal(l, r))),
        Instruction::Gt | Instruction::Lt | Instruction::Gte | Instruction::Lte => match (l, r) {
            (Value::Integer(a), Value::Integer(b)) => out == Ok::<Value, Error>(Value::Bool(
                match op {
                    Instruction::Gt => a > b,
                    Instruction::Lt => a < b,
                    Instruction::Gte => a >= b,
                    _ => a <= b,
                },
            )),
            _ => out == Err::<Value, Error>(Error::InvalidOperands),
        },
        Instruction::And | Instruction::Or => match (l, r) {
            (Value::Bool(a), Value::Bool(b)) => out == Ok::<Value, Error>(Value::Bool(
                if op == Instruction::And { a && b } else { a || b },
            )),
            _ => out == Err::<Value, Error>(Error::InvalidOperands),
        },
        _ => false,
    }
}

fn checked_value(r: Option<i32>) -> (out: Result<Value, Error>)
    ensures
        out == checked(r),
{
    match r {
        Some(v) => Ok(Value::Integer(v)),
        None => Err(Error::Overflow),
    }
}

/// Applies the binary instruction `op` to `l` and `r`.
pub fn apply_binary(op: Instruction, l: &Value, r: &Value) -> (out: Result<Value, Error>)
    requires
        is_binary(op),
    ensures
        binary_outcome(op, *l, *r, out),
{
    match op {
        Instruction::Add => match (l, r) {
            (Value::Integer(a), Value::Integer(b)) => checked_value(a.checked_add(*b)),
            (Value::String(a), Value::Integer(b)) => {
                let mut s = a.clone();
                s.append(decimal_string(*b).as_str());
                Ok(Value::String(s))
            },
            (Value::Integer(a), Value::String(b)) => {
                let mut s = decimal_string(*a);
                s.append(b.as_str());
                Ok(Value::String(s))
            },
            (Value::String(a), Value::String(b)) => {
                let mut s = a.clone();
                s.append(b.as_str());
                Ok(Value::String(s))
            },
            _ => Err(Error::InvalidOperands),
        },
        Instruction::Sub => match (l, r) {
            (Value::Integer(a), Value::Integer(b)) => checked_value(a.checked_sub(*b)),
            _ => Err(Error::InvalidOperands),
        },
        Instruction::Mul => match (l, r) {
            (Value::Integer(a), Value::Integer(b)) => checked_value(a.checked_mul(*b)),
            _ => Err(Error::InvalidOperands),
        },
        Instruction::Div => match (l, r) {
            (Value::Integer(a), Value::Integer(b)) => if *b == 0 {
                Err(Error::DivisionByZero)
            } else {
                checked_value(a.checked_div(*b))
            },
            _ => Err(Error::InvalidOperands),
        },
        Instruction::Rem => match (l, r) {
            (Value::Integer(a), Value::Integer(b)) => if *b == 0 {
                Err(Error::RemainderByZero)
            } else {
                checked_value(a.checked_rem(*b))
            },
            _ => Err(Error::InvalidOperands),
        },
        Instruction::Eq => Ok(Value::Bool(*l == *r)),
        Instruction::Neq => Ok(Value::Bool(!(*l == *r))),
        Instruction::Gt | Instruction::Lt | Instruction::Gte | Instruction::Lte => match (l, r) {
            (Value::Integer(a), Value::Integer(b)) => Ok(Value::Bool(
                match op {
                    Instruction::Gt => *a > *b,
                    Instruction::Lt => *a < *b,
                    Instruction::Gte => *a >= *b,
                    _ => *a <= *b,
                },
            )),
            _ => Err(Error::InvalidOperands),
        },
        Instruction::And | Instruction::Or => match (l, r) {
            (Value::Bool(a), Value::Bool(b)) => Ok(Value::Bool(
                if op == Instruction::And { *a && *b } else { *a || *b },
            )),
            _ => Err(Error::InvalidOperands),
        },
        _ => Err(Error::InvalidBytecode),
    }
}

} // verus!
