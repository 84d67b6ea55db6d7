use vstd::prelude::*;
use vstd::string::StringExecFns;
use crate::ast::{int_string, int_text, Program};

verus! {

/// A runtime value.
#[derive(Debug, Clone, Copy, PartialEq, Eq, Structural)]
pub enum Object {
    Integer(i64),
    Boolean(bool),
    Null,
}

impl Object {
    /// The printed form of the value.
    pub fn to_string(&self) -> (r: String)
        ensures
            r@ == match *self {
                Object::Integer(i) => int_text(i as int),
                Object::Boolean(b) => if b {
                    "true"@
                } else {
                    "false"@
                },
                Object::Null => "null"@,
            },
    {
        match self {
            Object::Integer(i) => int_string(*i),
            Object::Boolean(b) => if *b {
                String::from_str("true")
            } else {
                String::from_str("false")
            },
            Object::Null => String::from_str("null"),
        }
    }
}

/// Evaluates a program. No evaluation rules are defined yet, so every program evaluates to
/// `Null`.
pub fn eval(program: &Program) -> (r: Object)
    ensures
        r == Object::Null,
{
    Object::Null
}

} // verus!
