//! The values that evaluation produces.

use vstd::prelude::*;
use crate::text::{bool_text, bool_to_string, decimal, i32_to_string};

verus! {

/// A value of the language: an integer or a boolean.
#[derive(Debug, Clone, Copy, PartialEq, Eq, Structural)]
pub enum IntBool {
    Integer(i32),
    Boolean(bool),
}

impl IntBool {
    /// The text of a value: a decimal numeral, or `true` or `false`.
    pub open spec fn text(self) -> Seq<char> {
        match self {
            IntBool::Integer(i) => decimal(i as int),
            IntBool::Boolean(b) => bool_text(b),
        }
    }

    pub fn to_string(&self) -> (r: String)
        ensures
            r@ == self.text(),
    {
        match *self {
            IntBool::Integer(i) => i32_to_string(i),
            IntBool::Boolean(b) => bool_to_string(b),
        }
    }
}

} // verus!
