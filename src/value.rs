//! Runtime values and the form in which a result leaves the machine.
use crate::text::{decimal, decimal_string};
use std::rc::Rc;
use vstd::prelude::*;

verus! {

/// A value on the operand stack.
pub enum Value {
    Bool(bool),
    Integer(i32),
    String(String),
    Tuple(Rc<Value>, Rc<Value>),
    /// A compiled function, by its index in the function table, with the
    /// values it captured, each under its name, in capture order.
    Closure(u16, Vec<(String, Rc<Value>)>),
}

/// Structural equality: equal kinds with equal contents. A closure equals nothing.
pub open spec fn values_equal(a: Value, b: Value) -> bool
    decreases a,
{
    match a {
        Value::Bool(x) => match b {
            Value::Bool(y) => x == y,
            _ => false,
        },
        Value::Integer(x) => match b {
            Value::Integer(y) => x == y,
            _ => false,
        },
        Value::String(x) => match b {
            Value::String(y) => x@ == y@,
            _ => false,
        },
        Value::Tuple(a1, a2) => match b {
            Value::Tuple(b1, b2) => values_equal(*a1, *b1) && values_equal(*a2, *b2),
            _ => false,
        },
        Value::Closure(..) => false,
    }
}

/// The text that `print` writes for a value.
pub open spec fn display(v: Value) -> Seq<char>
    decreases v,
{
    match v {
        Value::Bool(b) => if b { "true"@ } else { "false"@ },
        Value::Integer(i) => decimal(i as int),
        Value::String(s) => s@,
        Value::Tuple(a, b) => "("@ + display(*a) + ", "@ + display(*b) + ")"@,
        Value::Closure(..) => "<#closure>"@,
    }
}

/// The final result of a program: a value with closures made opaque.
#[derive(Debug, PartialEq, Eq)]
pub enum FinalValue {
    Bool(bool),
    Integer(i32),
    String(String),
    Tuple(Box<FinalValue>, Box<FinalValue>),
    Closure,
}

/// The exported form of a value.
pub open spec fn export(v: Value) -> FinalValue
    decreases v,
{
    match v {
        Value::Bool(b) => FinalValue::Bool(b),
        Value::Integer(i) => FinalValue::Integer(i),
        Value::String(s) => FinalValue::String(s),
        Value::Tuple(a, b) => FinalValue::Tuple(Box::new(export(*a)), Box::new(export(*b))),
        Value::Closure(..) => FinalValue::Closure,
    }
}

fn equal_values(a: &Value, b: &Value) -> (r: bool)
    ensures
        r == values_equal(*a, *b),
    decreases a,
{
    match a {
        Value::Bool(x) => match b {
            Value::Bool(y) => *x == *y,
            _ => false,
        },
        Value::Integer(x) => match b {
            Value::Integer(y) => *x == *y,
            _ => false,
        },
        Value::String(x) => match b {
            Value::String(y) => *x == *y,
            _ => false,
        },
        Value::Tuple(a1, a2) => match b {
            Value::Tuple(b1, b2) => equal_values(a1, b1) && equal_values(a2, b2),
            _ => false,
        },
        Value::Closure(..) => false,
    }
}

impl PartialEq for Value {
    fn eq(&self, other: &Value) -> (r: bool) {
        equal_values(self, other)
    }
}

impl vstd::std_specs::cmp::PartialEqSpecImpl for Value {
    open spec fn obeys_eq_spec() -> bool {
        true
    }

    open spec fn eq_spec(&self, other: &Value) -> bool {
        values_equal(*self, *other)
    }
}

impl Value {
    /// The text that `print` writes for this value.
    pub fn display_string(&self) -> (r: String)
        ensures
            r@ == display(*self),
        decreases self,
    {
        match self {
            Value::Bool(b) => if *b {
                String::from_str("true")
            } else {
                String::from_str("false")
            },
            Value::Integer(i) => decimal_string(*i),
            Value::String(s) => s.clone(),
            Value::Tuple(a, b) => {
                let mut r = String::from_str("(");
                r.append(a.display_string().as_str());
                r.append(", ");
                r.append(b.display_string().as_str());
                r.append(")");
                r
            },
            Value::Closure(..) => String::from_str("<#closure>"),
        }
    }
}

fn export_value(v: &Value) -> (r: FinalValue)
    ensures
        r == export(*v),
    decreases v,
{
    match v {
        Value::Bool(b) => FinalValue::Bool(*b),
        Value::Integer(i) => FinalValue::Integer(*i),
        Value::String(s) => FinalValue::String(s.clone()),
        Value::Tuple(a, b) => FinalValue::Tuple(
            Box::new(export_value(a)),
            Box::new(export_value(b)),
        ),
        Value::Closure(..) => FinalValue::Closure,
    }
}

impl<'a> From<&'a Value> for FinalValue {
    fn from(value: &'a Value) -> (r: FinalValue) {
        export_value(value)
    }
}

impl<'a> vstd::std_specs::convert::FromSpecImpl<&'a Value> for FinalValue {
    open spec fn obeys_from_spec() -> bool {
        true
    }

    open spec fn from_spec(value: &'a Value) -> FinalValue {
        export(*value)
    }
}

} // verus!
