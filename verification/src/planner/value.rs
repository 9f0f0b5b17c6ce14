//! Property values, as far as the planner reads them.
use vstd::prelude::*;

use crate::quantity::Quantity;

verus! {

/// A property value that a scan looks for.
#[derive(Debug)]
pub enum PropertyValue {
    Null,
    Bool(bool),
    Int(i64),
    Double(Quantity),
    String(String),
    /// Any other value, carried by the tag of its type and by its text.
    Other { tag: u8, text: String },
}

/// The mathematical model of a property value.
pub enum Value {
    Null,
    Bool(bool),
    Int(i64),
    Double(Quantity),
    Text(Seq<char>),
    Other(u8, Seq<char>),
}

impl View for PropertyValue {
    type V = Value;

    open spec fn view(&self) -> Value {
        match *self {
            PropertyValue::Null => Value::Null,
            PropertyValue::Bool(b) => Value::Bool(b),
            PropertyValue::Int(n) => Value::Int(n),
            PropertyValue::Double(q) => Value::Double(q),
            PropertyValue::String(s) => Value::Text(s@),
            PropertyValue::Other { tag, text } => Value::Other(tag, text@),
        }
    }
}

impl Clone for PropertyValue {
    fn clone(&self) -> (r: Self)
        ensures
            r@ == self@,
    {
        match self {
            PropertyValue::Null => PropertyValue::Null,
            PropertyValue::Bool(b) => PropertyValue::Bool(*b),
            PropertyValue::Int(n) => PropertyValue::Int(*n),
            PropertyValue::Double(q) => PropertyValue::Double(q.clone()),
            PropertyValue::String(s) => PropertyValue::String(s.clone()),
            PropertyValue::Other { tag, text } => PropertyValue::Other { tag: *tag, text: text.clone() },
        }
    }
}

} // verus!
