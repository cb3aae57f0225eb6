use mathshell::error::TokenScanError;
use mathshell::scanner::TokenScanner;
use mathshell::tokens::{Operator, Token};

fn scan(line: &str) -> Result<Vec<Token>, TokenScanError> {
    TokenScanner::new(line.chars().collect()).scan_tokens()
}

fn num(text: &str) -> Token {
    Token::Number(text.chars().collect())
}

fn op(o: Operator) -> Token {
    Token::Op(o)
}

#[test]
fn integer_literal_alone() {
    assert_eq!(scan("42").unwrap(), vec![num("42")]);
}

#[test]
fn signed_fraction_literal_alone() {
    assert_eq!(scan("-3.25").unwrap(), vec![num("-3.25")]);
    assert_eq!(scan("0.5").unwrap(), vec![num("0.5")]);
}

#[test]
fn literal_value_parses_as_float() {
    let tokens = scan("-12.75").unwrap();
    match &tokens[0] {
        Token::Number(text) => {
            let value: f32 = text.iter().collect::<String>().parse().unwrap();
            assert_eq!(value, -12.75);
        }
        Token::Op(_) => panic!("expected a number"),
    }
}

#[test]
fn dot_without_digit_is_invalid_number() {
    assert_eq!(scan("1.").unwrap_err(), TokenScanError::InvalidNumberLiteral);
    assert_eq!(scan("1.a").unwrap_err(), TokenScanError::InvalidNumberLiteral);
    assert_eq!(scan("2+13. ").unwrap_err(), TokenScanError::InvalidNumberLiteral);
}

#[test]
fn lone_minus_is_invalid_number() {
    assert_eq!(scan("-").unwrap_err(), TokenScanError::InvalidNumberLiteral);
    assert_eq!(scan("- 3").unwrap_err(), TokenScanError::InvalidNumberLiteral);
    assert_eq!(scan("(-)").unwrap_err(), TokenScanError::InvalidNumberLiteral);
}

#[test]
fn unknown_character_is_invalid() {
    assert_eq!(scan("a").unwrap_err(), TokenScanError::InvalidCharacter);
    assert_eq!(scan("1 + x").unwrap_err(), TokenScanError::InvalidCharacter);
    assert_eq!(scan("2^3").unwrap_err(), TokenScanError::InvalidCharacter);
    assert_eq!(scan(".5").unwrap_err(), TokenScanError::InvalidCharacter);
}

#[test]
fn minus_at_start_is_sign() {
    assert_eq!(
        scan("-3+4").unwrap(),
        vec![num("-3"), op(Operator::Plus), num("4")]
    );
}

#[test]
fn minus_after_number_is_operator() {
    assert_eq!(
        scan("3-4").unwrap(),
        vec![num("3"), op(Operator::Minus), num("4")]
    );
}

#[test]
fn minus_after_paren_is_sign() {
    assert_eq!(
        scan("(-3)").unwrap(),
        vec![op(Operator::LParen), num("-3"), op(Operator::RParen)]
    );
}

#[test]
fn minus_after_minus_is_sign() {
    assert_eq!(
        scan("3--4").unwrap(),
        vec![num("3"), op(Operator::Minus), num("-4")]
    );
}

#[test]
fn minus_after_spaced_number_is_operator() {
    assert_eq!(
        scan("3 - 4").unwrap(),
        vec![num("3"), op(Operator::Minus), num("4")]
    );
}

#[test]
fn every_operator_character() {
    assert_eq!(
        scan("(1+2)*3/4").unwrap(),
        vec![
            op(Operator::LParen),
            num("1"),
            op(Operator::Plus),
            num("2"),
            op(Operator::RParen),
            op(Operator::Star),
            num("3"),
            op(Operator::Slash),
            num("4"),
        ]
    );
}

#[test]
fn white_space_is_skipped() {
    assert_eq!(
        scan(" 1 \t+\n2\u{3000}").unwrap(),
        vec![num("1"), op(Operator::Plus), num("2")]
    );
    assert_eq!(scan("").unwrap(), vec![]);
    assert_eq!(scan("   ").unwrap(), vec![]);
}

#[test]
fn scanning_twice_gives_equal_tokens() {
    let line = "(-1.5 + 2) * 3 - 4 / 5";
    let first = scan(line).unwrap();
    let second = scan(line).unwrap();
    assert_eq!(first.len(), second.len());
    for (a, b) in first.iter().zip(second.iter()) {
        assert!(a == b);
    }
}

#[test]
fn operator_weights() {
    assert_eq!(Operator::LParen.weight(), 0);
    assert_eq!(Operator::RParen.weight(), 0);
    assert_eq!(Operator::Plus.weight(), 1);
    assert_eq!(Operator::Minus.weight(), 1);
    assert_eq!(Operator::Star.weight(), 2);
    assert_eq!(Operator::Slash.weight(), 2);
    assert_eq!(Operator::Exponentiation.weight(), 3);
}

#[test]
fn operators_order_by_weight() {
    assert!(Operator::Plus < Operator::Star);
    assert!(Operator::LParen < Operator::Minus);
    assert!(!(Operator::Minus < Operator::Plus));
    assert!(!(Operator::Slash < Operator::Star));
    assert_eq!(
        Operator::Plus.partial_cmp(&Operator::Minus),
        Some(std::cmp::Ordering::Equal)
    );
    assert_eq!(
        Operator::Exponentiation.partial_cmp(&Operator::Star),
        Some(std::cmp::Ordering::Greater)
    );
}
