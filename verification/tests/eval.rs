use bigdecimal::num_bigint::BigInt;
use bigdecimal::BigDecimal;
use calq::decimal::Decimal;
use calq::expr::{perform_op, BinaryOp, EvalError, Evaluator, Expr, PrecisionMode, Round, Value};
use calq::parse::expr_parser;
use calq::rational::Rational;

fn dec(text: &str) -> BigDecimal {
    text.parse().unwrap()
}

fn run(text: &str) -> Result<Expr, EvalError> {
    let mut evaluator = Evaluator::default();
    let expr = expr_parser(&evaluator, text).unwrap();
    evaluator.eval(expr)
}

fn exact(r: Result<Expr, EvalError>) -> (BigInt, BigInt) {
    match r {
        Ok(Expr::Value(Value::Exact(q))) => (q.numer(), q.denom()),
        other => panic!("not an exact value: {other:?}"),
    }
}

fn decimal(r: Result<Expr, EvalError>) -> BigDecimal {
    match r {
        Ok(Expr::Value(Value::Decimal(d))) => d.to_raw(),
        other => panic!("not a decimal value: {other:?}"),
    }
}

fn failure(r: Result<Expr, EvalError>) -> EvalError {
    match r {
        Err(e) => e,
        Ok(v) => panic!("not a failure: {v:?}"),
    }
}

fn pair(n: i64, d: i64) -> (BigInt, BigInt) {
    (BigInt::from(n), BigInt::from(d))
}

fn ratio(n: i64, d: i64) -> Rational {
    Rational::new(BigInt::from(n), BigInt::from(d)).unwrap()
}

#[test]
fn scenario_sum_of_fractions_is_exact() {
    assert_eq!(exact(run("1/2 + 1/3")), pair(5, 6));
}

#[test]
fn scenario_division_by_zero() {
    assert_eq!(failure(run("1/0")), EvalError::DivisionByZero);
}

#[test]
fn scenario_decimal_times_exact_is_decimal() {
    assert_eq!(decimal(run("2.5 * 2")), dec("5"));
}

#[test]
fn scenario_sin_of_decimal_zero_is_decimal_zero() {
    let v = decimal(run("sin(0.0)"));
    assert_eq!(v.into_bigint_and_exponent().0, BigInt::from(0));
}

#[test]
fn scenario_sin_of_exact_zero_is_not_implemented() {
    assert_eq!(failure(run("sin(0)")), EvalError::NotImplemented);
}

#[test]
fn scenario_negated_sum_is_exact() {
    assert_eq!(exact(run("-(3+4)")), pair(-7, 1));
}

#[test]
fn scenario_unbound_function_is_not_implemented() {
    assert_eq!(failure(run("foo(1,2)")), EvalError::NotImplemented);
}

#[test]
fn exact_division_is_in_lowest_terms() {
    assert_eq!(exact(run("6/4")), pair(3, 2));
    assert_eq!(exact(run("-6/4")), pair(-3, 2));
    assert_eq!(exact(run("6/-4")), pair(-3, 2));
    assert_eq!(exact(run("0/7")), pair(0, 1));
    assert_eq!(exact(run("(1/3)/(2/9)")), pair(3, 2));
    assert_eq!(failure(run("(1/3)/(0/9)")), EvalError::DivisionByZero);
}

#[test]
fn exact_arithmetic_follows_precedence() {
    assert_eq!(exact(run("1+2*3")), pair(7, 1));
    assert_eq!(exact(run("(1+2)*3")), pair(9, 1));
    assert_eq!(exact(run("1 - 2 - 3")), pair(-4, 1));
    assert_eq!(exact(run("8/4/2")), pair(1, 1));
    assert_eq!(exact(run("2*-3")), pair(-6, 1));
    assert_eq!(exact(run("--3")), pair(3, 1));
    assert_eq!(exact(run("-2*3")), pair(-6, 1));
}

#[test]
fn leaves_are_returned_unchanged() {
    match run("foo") {
        Ok(Expr::Symbol(s)) => assert_eq!(s, "foo"),
        other => panic!("{other:?}"),
    }
    assert_eq!(exact(run("42")), pair(42, 1));
}

#[test]
fn symbols_leave_the_node_in_place() {
    assert_eq!(run("x + 2*3").unwrap().to_display_string(), "x+6");
    assert_eq!(run("2*3 + x").unwrap().to_display_string(), "6+x");
    assert_eq!(run("x/0").unwrap().to_display_string(), "x/0");
    assert_eq!(run("-x").unwrap().to_display_string(), "-x");
    assert_eq!(run("-(x*(1+1))").unwrap().to_display_string(), "-(x*2)");
    assert_eq!(run("(1+2)*x - 4/2").unwrap().to_display_string(), "3*x-2");
}

#[test]
fn the_first_failure_is_the_result() {
    assert_eq!(failure(run("1/0 + foo(1)")), EvalError::DivisionByZero);
    assert_eq!(failure(run("foo(1) + 1/0")), EvalError::NotImplemented);
    assert_eq!(failure(run("x + 1/0")), EvalError::DivisionByZero);
    assert_eq!(failure(run("-(1/0)")), EvalError::DivisionByZero);
    assert_eq!(failure(run("sin(1/0)")), EvalError::DivisionByZero);
    assert_eq!(failure(run("(1/0)(2)")), EvalError::DivisionByZero);
}

#[test]
fn applications_other_than_sin_of_one_decimal_fail() {
    assert_eq!(failure(run("sin(x)")), EvalError::NotImplemented);
    assert_eq!(failure(run("sin(1/2)")), EvalError::NotImplemented);
    assert_eq!(failure(run("sin(1.0, 2.0)")), EvalError::NotImplemented);
    assert_eq!(failure(run("sin()")), EvalError::NotImplemented);
    assert_eq!(failure(run("cos(1.0)")), EvalError::NotImplemented);
    assert_eq!(failure(run("2(1.0)")), EvalError::NotImplemented);
    assert_eq!(failure(run("(a+b)(1.0)")), EvalError::NotImplemented);
    assert_eq!(failure(run("foo(1/0)")), EvalError::NotImplemented);
}

#[test]
fn sin_is_applied_to_a_decimal() {
    let v = decimal(run("sin(0.5)"));
    assert!((v.clone() - dec("0.479425538604203000")).abs() < dec("0.0000000000000001"));
    assert_eq!(v.digits(), 100);
    let w = decimal(run("(sin)(1.0 + 1)"));
    assert!((w - dec("0.909297426825681695")).abs() < dec("0.0000000000000001"));
    let n = decimal(run("sin(-0.5)"));
    assert_eq!(n, -v);
}

#[test]
fn decimal_infects_the_result() {
    assert_eq!(decimal(run("0.5 + 1/2")), dec("1"));
    assert_eq!(decimal(run("1/2 + 0.5")), dec("1"));
    assert_eq!(decimal(run("1/2 - 0.25")), dec("0.25"));
    assert_eq!(decimal(run("3 / 1.5")), dec("2"));
    assert_eq!(decimal(run("1.5 * 1.5")), dec("2.25"));
    assert_eq!(decimal(run("-1.5")), dec("-1.5"));
}

#[test]
fn decimal_results_carry_one_hundred_digits() {
    let third = decimal(run("1.0 / 3"));
    let (digits, scale) = third.into_bigint_and_exponent();
    assert_eq!(digits.to_string(), "3".repeat(100));
    assert_eq!(scale, 100);
    let five = decimal(run("2.5 * 2"));
    assert_eq!(five.digits(), 100);
}

#[test]
fn decimal_zero_divisor_is_refused() {
    assert_eq!(failure(run("1.0/0.0")), EvalError::DivisionByZero);
    assert_eq!(failure(run("1.0/0")), EvalError::DivisionByZero);
    assert_eq!(failure(run("1/0.0")), EvalError::DivisionByZero);
    assert_eq!(failure(run("0.0/0.0")), EvalError::DivisionByZero);
    assert_eq!(decimal(run("0.0/2.0")), dec("0"));
}

#[test]
fn a_zero_divisor_is_refused_before_the_dividend_is_promoted() {
    let evaluator = Evaluator::default();
    let huge = || Value::Exact(Rational::from_integer(BigInt::from(10).pow(1_100_000u32)));
    let zero = || Value::Decimal(Decimal::new(dec("0.0")).unwrap());
    let half = || Value::Decimal(Decimal::new(dec("0.5")).unwrap());
    let power = Rational::from_integer(BigInt::from(10).pow(1_100_000u32));
    assert!(evaluator.promote(&power).is_none());
    match huge().div(zero(), &evaluator) {
        Err(e) => assert_eq!(e, EvalError::DivisionByZero),
        other => panic!("{other:?}"),
    }
    match huge().div(half(), &evaluator) {
        Err(e) => assert_eq!(e, EvalError::OutOfRange),
        other => panic!("{other:?}"),
    }
    match huge().add(zero(), &evaluator) {
        Err(e) => assert_eq!(e, EvalError::OutOfRange),
        other => panic!("{other:?}"),
    }
    match half().div(Value::Exact(ratio(0, 1)), &evaluator) {
        Err(e) => assert_eq!(e, EvalError::DivisionByZero),
        other => panic!("{other:?}"),
    }
    assert!(zero().is_zero());
    assert!(!half().is_zero());
    assert!(Value::Exact(ratio(0, 1)).is_zero());
    assert!(!Value::Exact(ratio(1, 2)).is_zero());
}

#[test]
fn an_integer_is_promoted_as_it_is() {
    let evaluator = Evaluator::default();
    let five = evaluator.promote(&ratio(5, 1)).unwrap().to_raw();
    let (digits, scale) = five.into_bigint_and_exponent();
    assert_eq!(digits.to_string(), format!("5{}", "0".repeat(99)));
    assert_eq!(scale, 99);
    let minus = evaluator.promote(&ratio(-12, 1)).unwrap().to_raw();
    let (digits, scale) = minus.into_bigint_and_exponent();
    assert_eq!(digits.to_string(), format!("-12{}", "0".repeat(98)));
    assert_eq!(scale, 98);
    let product = decimal(run("2.5 * 2"));
    let (digits, scale) = product.into_bigint_and_exponent();
    assert_eq!(digits.to_string(), format!("5{}", "0".repeat(99)));
    assert_eq!(scale, 99);
}

#[test]
fn scale_out_of_range_is_refused() {
    assert_eq!(failure(run("1e900000 * 1e900000")), EvalError::OutOfRange);
    assert_eq!(failure(run("1 / 1e900000 / 1e900000")), EvalError::OutOfRange);
    assert_eq!(decimal(run("1e900000 / 1e900000")), dec("1"));
}

#[test]
fn promotion_is_consistent() {
    let evaluator = Evaluator::default();
    for (n, d) in [(1, 3), (-2, 7), (5, 1), (0, 1), (22, 7)] {
        for text in ["0.25", "-17.5", "0.0", "123456789.125"] {
            for op in [BinaryOp::Add, BinaryOp::Sub, BinaryOp::Mul, BinaryOp::Div] {
                let left = Value::Decimal(Decimal::new(dec(text)).unwrap());
                let mixed = perform_op(left, Value::Exact(ratio(n, d)), op, &evaluator);
                let left = Value::Decimal(Decimal::new(dec(text)).unwrap());
                let promoted = evaluator.promote(&ratio(n, d)).unwrap();
                let plain = perform_op(left, Value::Decimal(promoted), op, &evaluator);
                match (mixed, plain) {
                    (Ok(Value::Decimal(a)), Ok(Value::Decimal(b))) => assert_eq!(
                        a.to_raw().into_bigint_and_exponent(),
                        b.to_raw().into_bigint_and_exponent()
                    ),
                    (Err(a), Err(b)) => assert_eq!(a, b),
                    other => panic!("{other:?}"),
                }
            }
        }
    }
}

#[test]
fn promotion_rounds_to_the_precision() {
    let evaluator = Evaluator::default();
    let third = evaluator.promote(&ratio(1, 3)).unwrap().to_raw();
    let (digits, scale) = third.into_bigint_and_exponent();
    assert_eq!(digits.to_string(), "3".repeat(100));
    assert_eq!(scale, 100);
    let two_thirds = evaluator.promote(&ratio(2, 3)).unwrap().to_raw();
    let (digits, _) = two_thirds.into_bigint_and_exponent();
    assert_eq!(digits.to_string(), format!("{}7", "6".repeat(99)));
}

#[test]
fn value_operations() {
    let e = Evaluator::default();
    let half = || Value::Exact(ratio(1, 2));
    let quarter = || Value::Decimal(Decimal::new(dec("0.25")).unwrap());
    match half().add(half(), &e) {
        Ok(Value::Exact(q)) => assert_eq!((q.numer(), q.denom()), pair(1, 1)),
        other => panic!("{other:?}"),
    }
    match half().sub(quarter(), &e) {
        Ok(Value::Decimal(d)) => assert_eq!(d.to_raw(), dec("0.25")),
        other => panic!("{other:?}"),
    }
    match quarter().mul(half(), &e) {
        Ok(Value::Decimal(d)) => assert_eq!(d.to_raw(), dec("0.125")),
        other => panic!("{other:?}"),
    }
    match half().div(Value::Exact(ratio(0, 1)), &e) {
        Err(err) => assert_eq!(err, EvalError::DivisionByZero),
        other => panic!("{other:?}"),
    }
    match half().neg() {
        Value::Exact(q) => assert_eq!((q.numer(), q.denom()), pair(-1, 2)),
        other => panic!("{other:?}"),
    }
    match quarter().neg() {
        Value::Decimal(d) => assert_eq!(d.to_raw(), dec("-0.25")),
        other => panic!("{other:?}"),
    }
}

#[test]
fn evaluator_configuration() {
    let mut e = Evaluator::default();
    assert_eq!(e.precision(), 100);
    assert_eq!(e.round(), Round::Nearest);
    assert_eq!(PrecisionMode::Decent.precision(), 100);
    let expr = expr_parser(&e, "1/3 + 0.5").unwrap();
    assert!(e.eval(expr).is_ok());
    assert_eq!(e.precision(), 100);
    let rounded = e.complete(&dec("2.5")).unwrap().to_raw();
    assert_eq!(rounded.digits(), 100);
    assert_eq!(rounded, dec("2.5"));
}

#[test]
fn error_messages() {
    assert_eq!(EvalError::DivisionByZero.message(), "disivion by zero");
    assert_eq!(EvalError::NotImplemented.message(), "not implemented");
    assert_eq!(EvalError::OutOfRange.message(), "decimal out of range");
}
