use mathshell::error::ParseError;
use mathshell::parser::{Expression, ExpressionParser};
use mathshell::scanner::TokenScanner;
use mathshell::tokens::{Operator, Token};

fn value(e: &Expression) -> f32 {
    match e {
        Expression::Number(text) => text.iter().collect::<String>().parse().unwrap(),
        Expression::Binary(op, left, right) => {
            let (a, b) = (value(left), value(right));
            match op {
                Operator::Plus => a + b,
                Operator::Minus => a - b,
                Operator::Star => a * b,
                Operator::Slash => a / b,
                _ => panic!("not an arithmetic operator"),
            }
        }
    }
}

fn parse(line: &str) -> Result<Expression, ParseError> {
    let tokens = TokenScanner::new(line.chars().collect())
        .scan_tokens()
        .unwrap();
    ExpressionParser::new(tokens).parse()
}

fn eval(line: &str) -> Result<f32, ParseError> {
    parse(line).map(|e| value(&e))
}

fn num(text: &str) -> Token {
    Token::Number(text.chars().collect())
}

#[test]
fn multiplication_binds_tighter_on_the_right() {
    assert_eq!(eval("2+3*4"), Ok(14.0));
}

#[test]
fn multiplication_binds_tighter_on_the_left() {
    assert_eq!(eval("2*3+4"), Ok(10.0));
}

#[test]
fn parentheses_group_first() {
    assert_eq!(eval("(2+3)*4"), Ok(20.0));
}

#[test]
fn subtraction_folds_left() {
    assert_eq!(eval("2-3-4"), Ok(-5.0));
    assert_eq!(eval("8/4/2"), Ok(1.0));
}

#[test]
fn tree_shape_follows_precedence() {
    match parse("2+3*4").unwrap() {
        Expression::Binary(Operator::Plus, left, right) => {
            assert!(matches!(*left, Expression::Number(_)));
            assert!(matches!(*right, Expression::Binary(Operator::Star, _, _)));
        }
        _ => panic!("expected a sum at the root"),
    }
}

#[test]
fn one_fold_before_a_lower_operator() {
    assert_eq!(eval("1-2*3+4"), Ok(-9.0));
}

#[test]
fn signed_operands() {
    assert_eq!(eval("-3+4"), Ok(1.0));
    assert_eq!(eval("(-3)*2"), Ok(-6.0));
    assert_eq!(eval("3--4"), Ok(7.0));
    assert_eq!(eval("1.5*-2"), Ok(-3.0));
}

#[test]
fn closing_paren_alone_has_no_operator() {
    assert_eq!(eval(")").unwrap_err(), ParseError::NoOperator);
}

#[test]
fn extra_closing_paren_has_no_operator() {
    assert_eq!(eval("(1))").unwrap_err(), ParseError::NoOperator);
    assert_eq!(eval("(1+2))*3").unwrap_err(), ParseError::NoOperator);
}

#[test]
fn two_numbers_without_operator() {
    assert_eq!(eval("1 2").unwrap_err(), ParseError::StackNotEmpty);
    assert_eq!(eval("1(2)").unwrap_err(), ParseError::StackNotEmpty);
}

#[test]
fn trailing_operator_has_no_number() {
    assert_eq!(eval("1+").unwrap_err(), ParseError::NoNumber);
    assert_eq!(eval("+1").unwrap_err(), ParseError::NoNumber);
    assert_eq!(eval("1+)").unwrap_err(), ParseError::NoNumber);
}

#[test]
fn empty_input_has_no_number() {
    assert_eq!(eval("").unwrap_err(), ParseError::NoNumber);
    assert_eq!(eval("()").unwrap_err(), ParseError::NoNumber);
}

#[test]
fn unclosed_paren() {
    assert_eq!(eval("(1").unwrap_err(), ParseError::NoNumber);
    assert_eq!(eval("1+(2").unwrap_err(), ParseError::IncorrectOperator);
}

#[test]
fn exponentiation_is_not_evaluated() {
    let tokens = vec![num("2"), Token::Op(Operator::Exponentiation), num("3")];
    assert_eq!(
        ExpressionParser::new(tokens).parse().unwrap_err(),
        ParseError::IncorrectOperator
    );
}

#[test]
fn division_by_zero_is_infinite() {
    let r = eval("1/0").unwrap();
    assert!(r.is_infinite() && r > 0.0);
}
