use bigdecimal::num_bigint::BigInt;
use bigdecimal::BigDecimal;
use calq::decimal::{Decimal, MAX_SCALE};
use calq::div::{CheckedDiv, DivisionByZero};

fn dec(text: &str) -> BigDecimal {
    text.parse().unwrap()
}

fn parts(d: &Decimal) -> (BigInt, i64) {
    d.to_raw().into_bigint_and_exponent()
}

#[test]
fn decimal_new_keeps_digits_and_scale() {
    let d = Decimal::new(dec("12.340")).unwrap();
    assert_eq!(parts(&d), (BigInt::from(12340), 3));
}

#[test]
fn decimal_new_checks_the_scale() {
    let one = BigInt::from(1);
    assert!(Decimal::new(BigDecimal::new(one.clone(), MAX_SCALE)).is_some());
    assert!(Decimal::new(BigDecimal::new(one.clone(), -MAX_SCALE)).is_some());
    assert!(Decimal::new(BigDecimal::new(one.clone(), MAX_SCALE + 1)).is_none());
    assert!(Decimal::new(BigDecimal::new(one, -MAX_SCALE - 1)).is_none());
}

#[test]
fn decimal_rounded_drops_digits_half_to_even() {
    assert_eq!(parts(&Decimal::rounded(&dec("0.33333"), 3).unwrap()), (BigInt::from(333), 3));
    assert_eq!(parts(&Decimal::rounded(&dec("0.66666"), 3).unwrap()), (BigInt::from(667), 3));
    assert_eq!(parts(&Decimal::rounded(&dec("2.5"), 1).unwrap()), (BigInt::from(2), 0));
    assert_eq!(parts(&Decimal::rounded(&dec("3.5"), 1).unwrap()), (BigInt::from(4), 0));
    assert_eq!(parts(&Decimal::rounded(&dec("-3.5"), 1).unwrap()), (BigInt::from(-4), 0));
    assert_eq!(parts(&Decimal::rounded(&dec("2.51"), 1).unwrap()), (BigInt::from(3), 0));
}

#[test]
fn decimal_rounded_pads_to_the_precision() {
    assert_eq!(parts(&Decimal::rounded(&dec("5"), 4).unwrap()), (BigInt::from(5000), 3));
    assert_eq!(parts(&Decimal::rounded(&dec("1e3"), 2).unwrap()), (BigInt::from(10), -2));
}

#[test]
fn decimal_rounded_refuses_zero_digits_and_wide_scales() {
    assert!(Decimal::rounded(&dec("5"), 0).is_none());
    let one = BigInt::from(1);
    assert!(Decimal::rounded(&BigDecimal::new(one.clone(), 100_000_001), 4).is_none());
    assert!(Decimal::rounded(&BigDecimal::new(one.clone(), 2_000_000), 4).is_none());
    assert!(Decimal::rounded(&BigDecimal::new(one, 999_000), 4).is_some());
}

#[test]
fn decimal_sign_and_zero() {
    let z = Decimal::new(dec("0.000")).unwrap();
    let n = Decimal::new(dec("-0.5")).unwrap();
    let p = Decimal::new(dec("0.5")).unwrap();
    assert!(z.is_zero() && !z.is_negative());
    assert!(!n.is_zero() && n.is_negative());
    assert!(!p.is_zero() && !p.is_negative());
}

#[test]
fn decimal_neg_changes_the_sign_only() {
    let n = Decimal::new(dec("-0.50")).unwrap();
    assert_eq!(parts(&n.neg()), (BigInt::from(50), 2));
    assert_eq!(parts(&n.neg().neg()), (BigInt::from(-50), 2));
}

#[test]
fn decimal_checked_div() {
    let one = Decimal::new(dec("1")).unwrap();
    let four = Decimal::new(dec("4")).unwrap();
    assert_eq!(one.checked_div(four).unwrap(), dec("0.25"));
    let one = Decimal::new(dec("1")).unwrap();
    let zero = Decimal::new(dec("0.00")).unwrap();
    assert_eq!(one.checked_div(zero).unwrap_err(), DivisionByZero);
    let zero = Decimal::new(dec("0.00")).unwrap();
    let three = Decimal::new(dec("3")).unwrap();
    assert_eq!(
        zero.checked_div(three).unwrap().into_bigint_and_exponent(),
        (BigInt::from(0), 2)
    );
}

#[test]
fn decimal_checked_div_rounds_to_one_hundred_digits() {
    let one = Decimal::new(dec("1")).unwrap();
    let three = Decimal::new(dec("3")).unwrap();
    let q = one.checked_div(three).unwrap();
    let (digits, scale) = q.into_bigint_and_exponent();
    assert_eq!(digits.to_string(), "3".repeat(100));
    assert_eq!(scale, 100);
}
