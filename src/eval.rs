use vstd::prelude::*;
use vstd::string::*;

use crate::error::EvalError;
use crate::parser::{Expression, Term};

verus! {

/// How an atom is read by the evaluator.
#[derive(Clone, Copy, Debug, PartialEq, Eq, Structural)]
pub enum AtomKind {
    /// A numeric literal, to be read as a number.
    Number,
    /// A reference to the variable with this one-character name.
    Variable(char),
}

/// The arithmetic function of an operator.
#[derive(Clone, Copy, Debug, PartialEq, Eq, Structural)]
pub enum Arith {
    Add,
    Sub,
    Mul,
    Div,
    Pow,
}

pub open spec fn is_digit(c: char) -> bool {
    '0' <= c && c <= '9'
}

/// Exactly one character that is not a digit names a variable; every other
/// atom is a numeric literal.
pub open spec fn kind_of(text: Seq<char>) -> AtomKind {
    if text.len() == 1 && !is_digit(text[0]) {
        AtomKind::Variable(text[0])
    } else {
        AtomKind::Number
    }
}

pub open spec fn arith_of(op: char) -> Option<Arith> {
    if op == '+' {
        Some(Arith::Add)
    } else if op == '-' {
        Some(Arith::Sub)
    } else if op == '*' {
        Some(Arith::Mul)
    } else if op == '/' {
        Some(Arith::Div)
    } else if op == '^' {
        Some(Arith::Pow)
    } else {
        None
    }
}

/// The variable that an assignment tree binds, or why it binds none.
pub open spec fn target_of(t: Term) -> Result<char, EvalError> {
    match t {
        Term::Atom(_) => Err(EvalError::InvalidAssignmentTarget),
        Term::Op(op, left, _) => if op != '=' {
            Err(EvalError::NotAnAssignment)
        } else {
            match *left {
                Term::Atom(name) => match kind_of(name) {
                    AtomKind::Variable(c) => Ok(c),
                    AtomKind::Number => Err(EvalError::InvalidAssignmentTarget),
                },
                Term::Op(..) => Err(EvalError::InvalidAssignmentTarget),
            }
        },
    }
}

/// Classifies the text of an atom as a literal or a variable reference.
pub fn atom_kind(text: &String) -> (r: AtomKind)
    ensures
        r == kind_of(text@),
{
    let s = text.as_str();
    if s.unicode_len() == 1 {
        let c = s.get_char(0);
        if !('0' <= c && c <= '9') {
            return AtomKind::Variable(c);
        }
    }
    AtomKind::Number
}

/// The arithmetic function of a binary operator; `=` and any other
/// character have none.
pub fn arithmetic_of(op: char) -> (r: Result<Arith, EvalError>)
    ensures
        match arith_of(op) {
            Some(a) => r == Ok::<Arith, EvalError>(a),
            None => r == Err::<Arith, EvalError>(EvalError::UnknownOperator(op)),
        },
{
    match op {
        '+' => Ok(Arith::Add),
        '-' => Ok(Arith::Sub),
        '*' => Ok(Arith::Mul),
        '/' => Ok(Arith::Div),
        '^' => Ok(Arith::Pow),
        _ => Err(EvalError::UnknownOperator(op)),
    }
}

impl Expression {
    /// The variable that this assignment binds; its value is the right
    /// subtree. Fails unless the root is `=` and its left side is an atom of
    /// exactly one non-digit character.
    pub fn assignment_target(&self) -> (r: Result<char, EvalError>)
        ensures
            r == target_of(self@),
    {
        match self {
            Expression::Atom(_) => Err(EvalError::InvalidAssignmentTarget),
            Expression::Op(op, operands) => {
                if *op != '=' {
                    return Err(EvalError::NotAnAssignment);
                }
                match &operands.0 {
                    Expression::Op(_, _) => {
                        assert(operands.0@ is Op);
                        Err(EvalError::InvalidAssignmentTarget)
                    },
                    Expression::Atom(it) => match atom_kind(it) {
                        AtomKind::Variable(c) => Ok(c),
                        AtomKind::Number => Err(EvalError::InvalidAssignmentTarget),
                    },
                }
            },
        }
    }

    /// The right subtree of an operator node: the value side of an
    /// assignment.
    pub fn right(&self) -> (r: Option<&Expression>)
        ensures
            match self {
                Expression::Op(_, operands) => r == Some(&operands.1),
                Expression::Atom(_) => r is None,
            },
    {
        match self {
            Expression::Op(_, operands) => Some(&operands.1),
            Expression::Atom(_) => None,
        }
    }
}

} // verus!
