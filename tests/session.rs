use calculator::{Calculator, Function, Number, Rational};

fn exact(n: i128, d: i128) -> Number {
    Number::Exact(Rational::ratio(n, d).unwrap())
}

#[test]
fn evaluates_precedence() {
    let mut c = Calculator::new();
    c.evaluate_expression("2 + 3 * 4");
    assert_eq!(c.get_value(), "14");
    assert_eq!(c.get_number(), exact(14, 1));
}

#[test]
fn evaluates_parentheses() {
    let mut c = Calculator::new();
    c.evaluate_expression("(2 + 3) * 4");
    assert_eq!(c.get_value(), "20");
}

#[test]
fn division_by_zero_shows_error() {
    let mut c = Calculator::new();
    c.evaluate_expression("5 / 0");
    assert_eq!(c.get_value(), "Error");
    c.evaluate_expression("1 + (2 / (3 - 3))");
    assert_eq!(c.get_value(), "Error");
}

#[test]
fn trailing_garbage_shows_error() {
    let mut c = Calculator::new();
    c.evaluate_expression("3 3");
    assert_eq!(c.get_value(), "Error");
}

#[test]
fn evaluate_keeps_pending_and_trace() {
    let mut c = Calculator::new();
    c.input_digit(7);
    c.perform_operation("+");
    c.evaluate_expression("10 / 4");
    assert_eq!(c.get_value(), "2.5");
    assert_eq!(c.get_expression(), "7 + ");
    c.calculate();
    assert_eq!(c.get_value(), "9.5");
}

#[test]
fn chained_operations_resolve_left_to_right() {
    let mut c = Calculator::new();
    c.input_digit(4);
    c.perform_operation("+");
    c.input_digit(5);
    c.perform_operation("*");
    c.input_digit(2);
    c.calculate();
    assert_eq!(c.get_number(), exact(18, 1));
    assert_eq!(c.get_value(), "18");
    assert_eq!(c.get_expression(), "4 + 5 * 2");
}

#[test]
fn decimal_digits_accumulate() {
    let mut c = Calculator::new();
    c.input_digit(1);
    c.input_decimal();
    c.input_digit(5);
    assert_eq!(c.get_number(), exact(3, 2));
    assert_eq!(c.get_value(), "1.5");
    assert_eq!(c.get_expression(), "1.5");
}

#[test]
fn second_point_is_ignored() {
    let mut c = Calculator::new();
    c.input_digit(2);
    c.input_decimal();
    c.input_decimal();
    c.input_digit(2);
    c.input_digit(5);
    assert_eq!(c.get_number(), exact(9, 4));
    assert_eq!(c.get_expression(), "2.25");
}

#[test]
fn digits_above_nine_count_as_nine() {
    let mut c = Calculator::new();
    c.input_digit(12);
    c.input_digit(0);
    assert_eq!(c.get_number(), exact(90, 1));
    assert_eq!(c.get_expression(), "90");
}

#[test]
fn value_is_rounded_to_typed_places() {
    let mut c = Calculator::new();
    c.input_digit(1);
    c.input_decimal();
    c.input_digit(5);
    c.percent();
    assert_eq!(c.get_number(), exact(3, 200));
    assert_eq!(c.get_value(), "0");
    c.clear();
    c.input_digit(2);
    c.input_decimal();
    c.input_digit(5);
    c.perform_operation("square");
    assert_eq!(c.get_number(), exact(25, 4));
    assert_eq!(c.get_value(), "6.3");
}

#[test]
fn clear_twice_equals_clear_once() {
    let mut c = Calculator::new();
    c.input_digit(3);
    c.perform_operation("-");
    c.input_decimal();
    c.clear();
    let once = (c.get_number(), c.get_value(), c.get_expression());
    c.clear();
    let twice = (c.get_number(), c.get_value(), c.get_expression());
    assert_eq!(once, twice);
    assert_eq!(once, (exact(0, 1), "0".to_string(), String::new()));
    c.input_digit(2);
    c.calculate();
    assert_eq!(c.get_value(), "2");
}

#[test]
fn calculate_without_pending_changes_nothing() {
    let mut c = Calculator::new();
    c.input_digit(6);
    c.input_decimal();
    c.input_digit(2);
    let before = (c.get_number(), c.get_value(), c.get_expression());
    c.calculate();
    let after = (c.get_number(), c.get_value(), c.get_expression());
    assert_eq!(before, after);
    c.input_digit(5);
    assert_eq!(c.get_number(), exact(625, 100));
}

#[test]
fn toggle_sign_twice_restores_value() {
    let mut c = Calculator::new();
    c.input_digit(5);
    c.toggle_sign();
    assert_eq!(c.get_number(), exact(-5, 1));
    assert_eq!(c.get_value(), "-5");
    assert_eq!(c.get_expression(), "(-5)");
    c.toggle_sign();
    assert_eq!(c.get_number(), exact(5, 1));
    assert_eq!(c.get_expression(), "(-(-5))");
}

#[test]
fn percent_divides_by_hundred() {
    let mut c = Calculator::new();
    c.input_digit(5);
    c.input_digit(0);
    c.percent();
    assert_eq!(c.get_number(), exact(1, 2));
    assert_eq!(c.get_value(), "0.5");
    assert_eq!(c.get_expression(), "50%");
}

#[test]
fn equals_collapses_the_trace() {
    let mut c = Calculator::new();
    c.input_digit(1);
    c.perform_operation("/");
    c.input_digit(3);
    assert_eq!(c.perform_operation("="), None);
    assert_eq!(c.get_number(), exact(1, 3));
    assert_eq!(c.get_expression(), "0.3333333333333333");
    assert_eq!(c.get_value(), "0.3333333333333333");
}

#[test]
fn division_by_zero_on_buttons() {
    let mut c = Calculator::new();
    c.input_digit(8);
    c.perform_operation("/");
    c.input_digit(0);
    c.perform_operation("=");
    assert_eq!(c.get_number(), Number::Error);
    assert_eq!(c.get_value(), "Error");
    assert_eq!(c.get_expression(), "Error");
    c.perform_operation("+");
    c.input_digit(1);
    c.calculate();
    assert_eq!(c.get_value(), "Error");
}

#[test]
fn subtraction_and_unknown_operator() {
    let mut c = Calculator::new();
    c.input_digit(3);
    c.perform_operation("-");
    c.input_digit(8);
    c.calculate();
    assert_eq!(c.get_value(), "-5");
    c.perform_operation("^");
    c.input_digit(2);
    c.calculate();
    assert_eq!(c.get_value(), "2");
    assert_eq!(c.get_expression(), "3 - 8 ^ 2");
}

#[test]
fn square_wraps_the_trace() {
    let mut c = Calculator::new();
    c.input_digit(1);
    c.input_digit(2);
    assert_eq!(c.perform_operation("square"), None);
    assert_eq!(c.get_number(), exact(144, 1));
    assert_eq!(c.get_expression(), "(12)²");
}

#[test]
fn mod_uses_the_stored_value() {
    let mut c = Calculator::new();
    c.input_digit(7);
    c.perform_operation("+");
    c.input_digit(3);
    c.perform_operation("mod");
    assert_eq!(c.get_number(), exact(1, 1));
    c.calculate();
    assert_eq!(c.get_number(), exact(1, 1));
    c.clear();
    c.input_digit(7);
    c.perform_operation("mod");
    assert_eq!(c.get_number(), exact(7, 1));
    assert_eq!(c.get_expression(), "7");
}

#[test]
fn mod_keeps_the_dividend_sign_and_rejects_zero() {
    let mut c = Calculator::new();
    c.input_digit(7);
    c.toggle_sign();
    c.perform_operation("*");
    c.input_digit(3);
    c.perform_operation("mod");
    assert_eq!(c.get_number(), exact(-1, 1));
    c.clear();
    c.input_digit(7);
    c.perform_operation("*");
    c.input_digit(0);
    c.perform_operation("mod");
    assert_eq!(c.get_value(), "Error");
}

#[test]
fn functions_are_handed_to_the_caller() {
    let mut c = Calculator::new();
    c.input_digit(9);
    assert_eq!(c.perform_operation("sqrt"), Some(Function::Sqrt));
    assert_eq!(c.get_number(), exact(9, 1));
    assert_eq!(c.get_expression(), "9");
    c.apply_function(Function::Sqrt, exact(3, 1));
    assert_eq!(c.get_value(), "3");
    assert_eq!(c.get_expression(), "√(9)");
    assert_eq!(c.perform_operation("exp"), Some(Function::Exp));
    assert_eq!(c.perform_operation("ln"), Some(Function::Ln));
    assert_eq!(c.perform_operation("log"), Some(Function::Log));
    c.apply_function(Function::Log, Number::Error);
    assert_eq!(c.get_value(), "Error");
    assert_eq!(c.get_expression(), "log(√(9))");
    c.apply_function(Function::Ln, exact(0, 1));
    c.apply_function(Function::Exp, exact(1, 1));
    assert_eq!(c.get_expression(), "e^(ln(log(√(9))))");
}

#[test]
fn fibonacci_numbers() {
    let c = Calculator::new();
    assert_eq!(c.fib_recursive(0), 0);
    assert_eq!(c.fib_recursive(1), 1);
    assert_eq!(c.fib_recursive(10), 55);
    assert_eq!(c.fib_recursive(20), 6765);
}

#[test]
fn values_render_as_plain_decimals() {
    let mut c = Calculator::new();
    c.evaluate_expression("2 / 3");
    assert_eq!(c.get_value(), "0.6666666666666666");
    c.evaluate_expression("1 - 9 / 8");
    assert_eq!(c.get_value(), "-0.125");
    c.evaluate_expression("1 / 100000000000000000");
    assert_eq!(c.get_value(), "0");
    c.evaluate_expression("123456789 * 1000");
    assert_eq!(c.get_value(), "123456789000");
}
