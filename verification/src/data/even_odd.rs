//! The even/odd marker stored as a number.
use vstd::prelude::*;

verus! {

/// The numbers that stand for each marker.
#[derive(Clone, Copy, Debug, PartialEq, Eq, Structural)]
pub enum Value {
    NONE,
    EVEN,
    ODD,
}

pub open spec fn value_code(v: Value) -> i32 {
    match v {
        Value::NONE => 0,
        Value::EVEN => 1,
        Value::ODD => 2,
    }
}

impl Value {
    /// The number this marker is stored as: 0, 1 or 2.
    pub fn code(&self) -> (c: i32)
        ensures
            c == value_code(*self),
    {
        match self {
            Value::NONE => 0,
            Value::EVEN => 1,
            Value::ODD => 2,
        }
    }
}

/// An even/odd marker held as its number.
#[derive(Clone, Copy, Debug, PartialEq, Eq, Structural)]
pub struct EvenOdd {
    pub value: i32,
}

} // verus!
