use operator_precedence_parser::env::Environment;
use operator_precedence_parser::error::EvalError;
use operator_precedence_parser::eval::{arithmetic_of, atom_kind, Arith, AtomKind};
use operator_precedence_parser::parser::Expression;

#[test]
fn atoms_are_literals_or_variables() {
    assert_eq!(atom_kind(&"12".to_string()), AtomKind::Number);
    assert_eq!(atom_kind(&"7".to_string()), AtomKind::Number);
    assert_eq!(atom_kind(&"1.5".to_string()), AtomKind::Number);
    assert_eq!(atom_kind(&"ab".to_string()), AtomKind::Number);
    assert_eq!(atom_kind(&"-1".to_string()), AtomKind::Number);
    assert_eq!(atom_kind(&"x".to_string()), AtomKind::Variable('x'));
    assert_eq!(atom_kind(&".".to_string()), AtomKind::Variable('.'));
}

#[test]
fn operators_and_their_arithmetic() {
    assert_eq!(arithmetic_of('+'), Ok(Arith::Add));
    assert_eq!(arithmetic_of('-'), Ok(Arith::Sub));
    assert_eq!(arithmetic_of('*'), Ok(Arith::Mul));
    assert_eq!(arithmetic_of('/'), Ok(Arith::Div));
    assert_eq!(arithmetic_of('^'), Ok(Arith::Pow));
    assert_eq!(arithmetic_of('='), Err(EvalError::UnknownOperator('=')));
}

#[test]
fn assignment_targets() {
    let e = Expression::from_str("a=5").unwrap();
    assert_eq!(e.assignment_target(), Ok('a'));
    match e.right() {
        Some(Expression::Atom(text)) => assert_eq!(text, "5"),
        _ => panic!("the value side of a=5 is the atom 5"),
    }
    assert_eq!(
        Expression::from_str("ab=1").unwrap().assignment_target(),
        Err(EvalError::InvalidAssignmentTarget)
    );
    assert_eq!(
        Expression::from_str("1=2").unwrap().assignment_target(),
        Err(EvalError::InvalidAssignmentTarget)
    );
    assert_eq!(
        Expression::from_str("a").unwrap().assignment_target(),
        Err(EvalError::InvalidAssignmentTarget)
    );
    assert_eq!(
        Expression::from_str("a+1").unwrap().assignment_target(),
        Err(EvalError::NotAnAssignment)
    );
}

#[test]
fn unassigned_variable_is_reported() {
    let env: Environment<f64> = Environment::new();
    assert_eq!(env.get('b').err(), Some(EvalError::UnassignedVariable('b')));
}

#[test]
fn assigned_value_is_read_back() {
    let e = Expression::from_str("a=5").unwrap();
    let mut env: Environment<f64> = Environment::new();
    env.insert(e.assignment_target().unwrap(), 5.0);
    assert_eq!(env.get('a'), Ok(&5.0));
    assert_eq!(env.get('b').err(), Some(EvalError::UnassignedVariable('b')));
}

#[test]
fn self_referential_update() {
    let e = Expression::from_str("a=a+1").unwrap();
    let mut env: Environment<f64> = Environment::new();
    env.insert('a', 5.0);
    let target = e.assignment_target().unwrap();
    let sum = match e.right() {
        Some(Expression::Op(op, operands)) => {
            assert_eq!(arithmetic_of(*op), Ok(Arith::Add));
            let left = match &operands.0 {
                Expression::Atom(t) => match atom_kind(t) {
                    AtomKind::Variable(c) => *env.get(c).unwrap(),
                    AtomKind::Number => panic!("a is a variable"),
                },
                _ => panic!("left operand is an atom"),
            };
            let right = match &operands.1 {
                Expression::Atom(t) => {
                    assert_eq!(atom_kind(t), AtomKind::Number);
                    t.parse::<f64>().unwrap()
                }
                _ => panic!("right operand is an atom"),
            };
            left + right
        }
        _ => panic!("the value side is a sum"),
    };
    env.insert(target, sum);
    assert_eq!(env.get('a'), Ok(&6.0));
}

#[test]
fn insert_replaces_and_keeps_others() {
    let mut env: Environment<i64> = Environment::new();
    env.insert('x', 1);
    env.insert('y', 2);
    env.insert('x', 3);
    assert_eq!(env.get('x'), Ok(&3));
    assert_eq!(env.get('y'), Ok(&2));
    assert_eq!(env.get('z').err(), Some(EvalError::UnassignedVariable('z')));
}
