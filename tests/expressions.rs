use calculator::{ParseError, Rational, parse_expression};

fn ratio(n: i128, d: i128) -> Rational {
    Rational::ratio(n, d).unwrap()
}

#[test]
fn numbers_and_operators() {
    assert_eq!(parse_expression("2 + 3 * 4"), Ok(ratio(14, 1)));
    assert_eq!(parse_expression("(2 + 3) * 4"), Ok(ratio(20, 1)));
    assert_eq!(parse_expression("10 - 4 - 3"), Ok(ratio(3, 1)));
    assert_eq!(parse_expression("8 / 4 / 2"), Ok(ratio(1, 1)));
    assert_eq!(parse_expression("1 / 3 + 1 / 6"), Ok(ratio(1, 2)));
    assert_eq!(parse_expression("2 - 5"), Ok(ratio(-3, 1)));
}

#[test]
fn numerals_with_points() {
    assert_eq!(parse_expression("1.5"), Ok(ratio(3, 2)));
    assert_eq!(parse_expression(".5"), Ok(ratio(1, 2)));
    assert_eq!(parse_expression("2."), Ok(ratio(2, 1)));
    assert_eq!(parse_expression("0.1 + 0.2"), Ok(ratio(3, 10)));
    assert_eq!(parse_expression("1.2.3"), Err(ParseError::SyntaxError));
    assert_eq!(parse_expression("."), Err(ParseError::SyntaxError));
}

#[test]
fn spaces_between_tokens() {
    assert_eq!(parse_expression("  ( 1+2 )*3  "), Ok(ratio(9, 1)));
    assert_eq!(parse_expression("1 2"), Err(ParseError::SyntaxError));
}

#[test]
fn syntax_errors() {
    assert_eq!(parse_expression(""), Err(ParseError::SyntaxError));
    assert_eq!(parse_expression("3 3"), Err(ParseError::SyntaxError));
    assert_eq!(parse_expression("-3"), Err(ParseError::SyntaxError));
    assert_eq!(parse_expression("(1 + 2"), Err(ParseError::SyntaxError));
    assert_eq!(parse_expression("1 + 2)"), Err(ParseError::SyntaxError));
    assert_eq!(parse_expression("1 +"), Err(ParseError::SyntaxError));
    assert_eq!(parse_expression("a"), Err(ParseError::SyntaxError));
    assert_eq!(parse_expression("2 × 3"), Err(ParseError::SyntaxError));
}

#[test]
fn division_by_zero() {
    assert_eq!(parse_expression("5 / 0"), Err(ParseError::DivisionByZero));
    assert_eq!(parse_expression("5 / (2 - 2)"), Err(ParseError::DivisionByZero));
    assert_eq!(parse_expression("0 / 5"), Ok(ratio(0, 1)));
}

#[test]
fn overflow() {
    assert_eq!(
        parse_expression("999999999999999999999999999999999999999999"),
        Err(ParseError::Overflow)
    );
    assert_eq!(
        parse_expression("99999999999999999999 * 99999999999999999999"),
        Err(ParseError::Overflow)
    );
    assert_eq!(
        parse_expression("170141183460469231731687303715884105727"),
        Ok(ratio(i128::MAX, 1))
    );
}
