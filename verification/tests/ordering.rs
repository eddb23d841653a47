use stylecore::common::{Op, QuoteKind};
use stylecore::number::Number;
use stylecore::span::Span;
use stylecore::unit::Unit;
use stylecore::value::Value;

fn num(n: u64) -> Value {
    Value::Dimension(Number::from_u64(n), Unit::NoUnit)
}

fn dim(n: u64, u: Unit) -> Value {
    Value::Dimension(Number::from_u64(n), u)
}

fn cmp(l: &Value, op: Op, r: &Value) -> bool {
    match l.compare(op, r, Span::new(0, 1)).unwrap() {
        Value::True => true,
        Value::False => false,
        _ => panic!("expected a boolean value"),
    }
}

#[test]
fn two_greater_than_or_equal_one() {
    assert!(cmp(&num(2), Op::GreaterThanEqual, &num(1)));
}

#[test]
fn one_greater_than_or_equal_one() {
    assert!(cmp(&num(1), Op::GreaterThanEqual, &num(1)));
}

#[test]
fn zero_greater_than_or_equal_one() {
    assert!(!cmp(&num(0), Op::GreaterThanEqual, &num(1)));
}

#[test]
fn two_greater_than_one() {
    assert!(cmp(&num(2), Op::GreaterThan, &num(1)));
}

#[test]
fn one_greater_than_one() {
    assert!(!cmp(&num(1), Op::GreaterThan, &num(1)));
}

#[test]
fn zero_greater_than_one() {
    assert!(!cmp(&num(0), Op::GreaterThan, &num(1)));
}

#[test]
fn two_less_than_or_equal_one() {
    assert!(!cmp(&num(2), Op::LessThanEqual, &num(1)));
}

#[test]
fn one_less_than_or_equal_one() {
    assert!(cmp(&num(1), Op::LessThanEqual, &num(1)));
}

#[test]
fn zero_less_than_or_equal_one() {
    assert!(cmp(&num(0), Op::LessThanEqual, &num(1)));
}

#[test]
fn two_less_than_one() {
    assert!(!cmp(&num(2), Op::LessThan, &num(1)));
}

#[test]
fn one_less_than_one() {
    assert!(!cmp(&num(1), Op::LessThan, &num(1)));
}

#[test]
fn zero_less_than_one() {
    assert!(cmp(&num(0), Op::LessThan, &num(1)));
}

#[test]
fn ord_the_same_as_partial_ord() {
    // 2in > 1cm: an inch is longer than a centimeter once both are
    // carried to the canonical length unit
    assert!(cmp(&dim(2, Unit::In), Op::GreaterThan, &dim(1, Unit::Cm)));
}

#[test]
fn one_cm_not_greater_than_two_in() {
    assert!(!cmp(&dim(1, Unit::Cm), Op::GreaterThan, &dim(2, Unit::In)));
}

#[test]
fn milliseconds_compare_with_seconds() {
    assert!(cmp(&dim(1, Unit::S), Op::GreaterThan, &dim(999, Unit::Ms)));
    assert!(!cmp(&dim(1, Unit::S), Op::GreaterThan, &dim(1000, Unit::Ms)));
}

#[test]
fn strings_not_comparable() {
    let a = Value::Ident("a".to_string(), QuoteKind::Unquoted);
    let b = Value::Ident("b".to_string(), QuoteKind::Unquoted);
    let e = a.compare(Op::GreaterThan, &b, Span::new(0, 1)).unwrap_err();
    assert_eq!(e.message, "Undefined operation \"a > b\".");
}

#[test]
fn number_and_string_not_comparable() {
    let one = num(1);
    let b = Value::Ident("b".to_string(), QuoteKind::Unquoted);
    let e = one.compare(Op::GreaterThan, &b, Span::new(0, 1)).unwrap_err();
    assert_eq!(e.message, "Undefined operation \"1 > b\".");
}

#[test]
fn different_families_not_comparable() {
    let px = dim(1, Unit::Px);
    let s = dim(1, Unit::S);
    let e = px.compare(Op::LessThan, &s, Span::new(0, 1)).unwrap_err();
    assert_eq!(e.message, "Undefined operation \"1px < 1s\".");
}

#[test]
fn unitless_does_not_compare_with_length() {
    let one = num(1);
    let px = dim(1, Unit::Px);
    assert!(one.compare(Op::LessThan, &px, Span::new(0, 1)).is_err());
}

#[test]
fn number_rendering() {
    assert_eq!(Number::from_u64(3).to_css_string(), "3");
    assert_eq!(Number::from_frac(3, 2).to_css_string(), "1.5");
    assert_eq!(Number::from_frac(1, 2).neg().to_css_string(), "-0.5");
    assert_eq!(Number::from_frac(10, 10).to_css_string(), "1");
    assert_eq!(Number::from_frac(1, 3).to_css_string(), "0.3333333333");
}

#[test]
fn number_queries() {
    assert!(Number::from_frac(3, 2).is_decimal());
    assert!(!Number::from_frac(10, 5).is_decimal());
    assert!(Number::from_u64(0).is_zero());
    assert!(Number::from_u64(1).is_positive());
    assert!(Number::from_u64(1).neg().is_negative());
    assert_eq!(Number::from_u64(7).to_usize(), Some(7));
    assert_eq!(Number::from_frac(3, 2).to_usize(), None);
    assert_eq!(Number::from_u64(7).neg().to_usize(), None);
}
