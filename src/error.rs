use vstd::prelude::*;

use crate::lexer::Token;

verus! {

/// Why a line of text could not be turned into an expression tree.
#[derive(Clone, Copy, Debug, PartialEq, Eq, Structural)]
pub enum ParseError {
    /// A character that is neither whitespace, an atom character nor an operator.
    InvalidCharacter(char),
    /// A token where the grammar does not allow it.
    UnexpectedToken(Token),
    /// An operator character without a binding quantity.
    UnknownOperator(char),
}

/// Why an expression tree could not be evaluated or assigned.
#[derive(Debug, PartialEq, Eq)]
pub enum EvalError {
    /// An atom that names no variable and is not a number.
    MalformedNumber(String),
    /// An operator that has no arithmetic meaning.
    UnknownOperator(char),
    /// A variable that has no value yet.
    UnassignedVariable(char),
    /// The left side of `=` is not a single non-digit character.
    InvalidAssignmentTarget,
    /// An assignment was asked of a tree whose root is not `=`.
    NotAnAssignment,
}

} // verus!
