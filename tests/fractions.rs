use calculator::Rational;

fn ratio(n: i128, d: i128) -> Rational {
    Rational::ratio(n, d).unwrap()
}

#[test]
fn ratio_reduces_and_moves_sign() {
    let r = ratio(6, -4);
    assert_eq!((r.num, r.den), (-3, 2));
    assert_eq!(ratio(0, 7), Rational::integer(0));
    assert_eq!(Rational::ratio(1, 0), None);
    assert_eq!(Rational::ratio(i128::MIN, -1), None);
}

#[test]
fn field_operations() {
    let a = ratio(1, 2);
    let b = ratio(1, 3);
    assert_eq!(a.add(&b), Some(ratio(5, 6)));
    assert_eq!(a.sub(&b), Some(ratio(1, 6)));
    assert_eq!(a.mul(&b), Some(ratio(1, 6)));
    assert_eq!(a.div(&b), Some(ratio(3, 2)));
    assert_eq!(a.div(&ratio(-1, 4)), Some(ratio(-2, 1)));
    assert_eq!(a.neg(), Some(ratio(-1, 2)));
    assert!(ratio(0, 3).is_zero());
}

#[test]
fn truncated_remainder() {
    assert_eq!(ratio(7, 1).rem(&ratio(3, 1)), Some(ratio(1, 1)));
    assert_eq!(ratio(-7, 1).rem(&ratio(3, 1)), Some(ratio(-1, 1)));
    assert_eq!(ratio(7, 1).rem(&ratio(-3, 1)), Some(ratio(1, 1)));
    assert_eq!(ratio(5, 2).rem(&ratio(1, 1)), Some(ratio(1, 2)));
}

#[test]
fn rounding_to_places() {
    assert_eq!(ratio(5, 4).round_to(1), Some(ratio(13, 10)));
    assert_eq!(ratio(-5, 4).round_to(1), Some(ratio(-13, 10)));
    assert_eq!(ratio(1, 3).round_to(2), Some(ratio(33, 100)));
    assert_eq!(ratio(1, 3).round_to(0), Some(ratio(0, 1)));
    assert_eq!(ratio(1, 3).round_to(40), None);
}

#[test]
fn overflow_is_reported() {
    let big = Rational::integer(i128::MAX);
    assert_eq!(big.add(&Rational::integer(1)), None);
    assert_eq!(big.mul(&Rational::integer(2)), None);
    assert_eq!(Rational::integer(i128::MIN).neg(), None);
    assert_eq!(big.sub(&big), Some(Rational::integer(0)));
}
