//! The operator alphabet of the expression grammar, as the syntax layer
//! names it.

use vstd::prelude::*;

verus! {

#[derive(Debug, Clone, Copy, PartialEq, Eq, Structural)]
pub enum Operator {
    Add,
    Subtract,
    Multiply,
    Divide,
    Pow,
    Mod,
    And,
    Or,
    BitAnd,
    BitOr,
    BitXor,
    FieldAccess,
    Eq,
    Neq,
    Greater,
    Lesser,
    GreaterEq,
    LesserEq,
    Inc,
    Dec,
    Not,
    BitNot,
    Assign,
    Comma,
}

} // verus!
