use operator_precedence_parser::error::ParseError;
use operator_precedence_parser::lexer::Token;
use operator_precedence_parser::parser::Expression;

fn test_pattern(input: &str, expected: &str) {
    let expected = expected.to_string();
    let result = Expression::from_str(input).unwrap().to_string();
    assert_eq!(result, expected)
}

#[test]
fn test_1() {
    test_pattern("1", "1");
}

#[test]
fn test_2() {
    test_pattern("-1", "-1");
}

#[test]
fn test_3() {
    test_pattern("1+2", "(+(1 2))");
}

#[test]
fn test_4() {
    test_pattern("1+2*4+3^3", "(+((+(1 (*(2 4)))) (^(3 3))))");
}

#[test]
fn test_5() {
    test_pattern("-1--2*4+-3", "(+((-(-1 (*(-2 4)))) -3))");
}

#[test]
fn test_6() {
    test_pattern("1.1", "1.1");
}

#[test]
fn test_7() {
    test_pattern("111", "111");
}

#[test]
fn test_8() {
    test_pattern("a=1+4+9", "(=(a (+((+(1 4)) 9))))");
}

#[test]
fn test_9() {
    test_pattern("a", "a");
}

#[test]
fn same_precedence_chain_nests_on_the_left() {
    test_pattern("1+2+3", "(+((+(1 2)) 3))");
    test_pattern("2^3^2", "(^((^(2 3)) 2))");
}

#[test]
fn leading_sign_is_part_of_the_atom() {
    match Expression::from_str("-1").unwrap() {
        Expression::Atom(text) => assert_eq!(text, "-1"),
        Expression::Op(..) => panic!("a sign must not make an operator node"),
    }
    test_pattern("+7", "+7");
}

#[test]
fn whitespace_is_dropped_inside_and_between_atoms() {
    test_pattern(" 1 + 2 ", "(+(1 2))");
    test_pattern("1 2", "12");
    test_pattern("a\t=\u{A0}3", "(=(a 3))");
}

#[test]
fn invalid_character_is_reported() {
    assert_eq!(
        Expression::from_str("1+2$").err(),
        Some(ParseError::InvalidCharacter('$'))
    );
    assert_eq!(
        Expression::from_str("(1)").err(),
        Some(ParseError::InvalidCharacter('('))
    );
}

#[test]
fn unexpected_tokens_are_reported() {
    assert_eq!(
        Expression::from_str("").err(),
        Some(ParseError::UnexpectedToken(Token::Eof))
    );
    assert_eq!(
        Expression::from_str("*1").err(),
        Some(ParseError::UnexpectedToken(Token::Op('*')))
    );
    assert_eq!(
        Expression::from_str("1+").err(),
        Some(ParseError::UnexpectedToken(Token::Eof))
    );
    assert_eq!(
        Expression::from_str("1+*2").err(),
        Some(ParseError::UnexpectedToken(Token::Op('*')))
    );
    assert_eq!(
        Expression::from_str("1--").err(),
        Some(ParseError::UnexpectedToken(Token::Eof))
    );
    assert_eq!(
        Expression::from_str("1+-*2").err(),
        Some(ParseError::UnexpectedToken(Token::Op('*')))
    );
}

#[test]
fn parsing_twice_gives_the_same_tree() {
    let text = "x=3*y-2^4/z";
    let a = Expression::from_str(text).unwrap().to_string();
    let b = Expression::from_str(text).unwrap().to_string();
    assert_eq!(a, b);
    assert_eq!(a, "(=(x (-((*(3 y)) (/((^(2 4)) z))))))");
}

#[test]
fn digit_text_parses_to_itself() {
    for n in ["0", "7", "42", "1234567890"] {
        match Expression::from_str(n).unwrap() {
            Expression::Atom(text) => assert_eq!(text, n),
            Expression::Op(..) => panic!("digits must make one atom"),
        }
    }
}

#[test]
fn assignment_is_recognised_at_the_root() {
    assert!(Expression::from_str("a=1").unwrap().is_assignment());
    assert!(Expression::from_str("a=b=1").unwrap().is_assignment());
    assert!(!Expression::from_str("1+2").unwrap().is_assignment());
    assert!(!Expression::from_str("a").unwrap().is_assignment());
}
