use bigdecimal::num_bigint::BigInt;
use bigdecimal::BigDecimal;
use calq::decimal::Decimal;
use calq::expr::{BinaryOp, Evaluator, Expr, PrecedenceContext, Value};
use calq::parse::expr_parser;
use calq::print::Printer;
use calq::rational::Rational;

fn sym(name: &str) -> Expr {
    Expr::Symbol(name.to_string())
}

fn num(n: i64) -> Expr {
    Expr::Value(Value::Exact(Rational::from_integer(BigInt::from(n))))
}

fn decimal(text: &str) -> Decimal {
    Decimal::new(text.parse::<BigDecimal>().unwrap()).unwrap()
}

fn add(a: Expr, b: Expr) -> Expr {
    Expr::Add(Box::new((a, b)))
}

fn sub(a: Expr, b: Expr) -> Expr {
    Expr::Sub(Box::new((a, b)))
}

fn mul(a: Expr, b: Expr) -> Expr {
    Expr::Mul(Box::new((a, b)))
}

fn div(a: Expr, b: Expr) -> Expr {
    Expr::Div(Box::new((a, b)))
}

fn neg(a: Expr) -> Expr {
    Expr::Neg(Box::new(a))
}

fn shown(text: &str) -> String {
    Value::Decimal(decimal(text)).to_display_string()
}

fn shown_with(text: &str, digits: u32) -> String {
    let mut p = Printer::with_digits(digits).unwrap();
    p.print(&Expr::Value(Value::Decimal(decimal(text))));
    p.into_inner()
}

#[test]
fn sum_under_product_is_wrapped() {
    assert_eq!(mul(add(sym("a"), sym("b")), sym("c")).to_display_string(), "(a+b)*c");
    assert_eq!(mul(sym("c"), sub(sym("a"), sym("b"))).to_display_string(), "c*(a-b)");
    assert_eq!(div(add(num(1), num(2)), num(3)).to_display_string(), "(1+2)/3");
}

#[test]
fn product_under_sum_is_not_wrapped() {
    assert_eq!(add(mul(sym("a"), sym("b")), sym("c")).to_display_string(), "a*b+c");
    assert_eq!(sub(sym("c"), div(sym("a"), sym("b"))).to_display_string(), "c-a/b");
}

#[test]
fn equal_precedence_is_not_wrapped() {
    assert_eq!(sub(sym("a"), sub(sym("b"), sym("c"))).to_display_string(), "a-b-c");
    assert_eq!(add(add(sym("a"), sym("b")), sym("c")).to_display_string(), "a+b+c");
    assert_eq!(div(sym("a"), mul(sym("b"), sym("c"))).to_display_string(), "a/b*c");
}

#[test]
fn negation_wraps_sums_and_products() {
    assert_eq!(neg(sym("x")).to_display_string(), "-x");
    assert_eq!(neg(neg(sym("x"))).to_display_string(), "--x");
    assert_eq!(neg(add(sym("a"), sym("b"))).to_display_string(), "-(a+b)");
    assert_eq!(neg(mul(sym("a"), sym("b"))).to_display_string(), "-(a*b)");
    assert_eq!(mul(neg(sym("a")), sym("b")).to_display_string(), "-a*b");
    assert_eq!(add(sym("a"), neg(sym("b"))).to_display_string(), "a+-b");
}

#[test]
fn applications_quote_the_callee() {
    let call = Expr::Apply(Box::new(sym("f")), vec![num(1), add(sym("x"), sym("y"))]);
    assert_eq!(call.to_display_string(), "\"f\"(1,x+y)");
    let none = Expr::Apply(Box::new(sym("f")), vec![]);
    assert_eq!(none.to_display_string(), "\"f\"()");
    let one = Expr::Apply(Box::new(add(sym("a"), sym("b"))), vec![sym("c")]);
    assert_eq!(one.to_display_string(), "\"a+b\"(c)");
    let inner = mul(Expr::Apply(Box::new(sym("g")), vec![sym("x")]), sym("c"));
    assert_eq!(inner.to_display_string(), "\"g\"(x)*c");
    let three = Expr::Apply(Box::new(sym("h")), vec![num(1), num(2), num(3)]);
    assert_eq!(three.to_display_string(), "\"h\"(1,2,3)");
}

#[test]
fn exact_values_print_as_fractions() {
    let q = Expr::Value(Value::Exact(
        Rational::new(BigInt::from(10), BigInt::from(12)).unwrap(),
    ));
    assert_eq!(q.to_display_string(), "5/6");
    assert_eq!(num(-7).to_display_string(), "-7");
    assert_eq!(num(0).to_display_string(), "0");
    let v = Value::Exact(Rational::new(BigInt::from(-3), BigInt::from(6)).unwrap());
    assert_eq!(v.to_display_string(), "-1/2");
}

#[test]
fn decimal_with_exponent_zero() {
    assert_eq!(shown("5"), "5.0000000");
    assert_eq!(shown("2.5"), "2.5000000");
    assert_eq!(shown("-2.5"), "-2.5000000");
    assert_eq!(shown("9.87654321"), "9.8765432");
    assert_eq!(shown("1.23456785"), "1.2345678");
    assert_eq!(shown("1.23456775"), "1.2345678");
}

#[test]
fn decimal_with_small_negative_exponent() {
    assert_eq!(shown("0.5"), "0.50000000");
    assert_eq!(shown("0.05"), "0.050000000");
    assert_eq!(shown("0.001"), "0.0010000000");
    assert_eq!(shown("-0.0012345678"), "-0.0012345678");
    assert_eq!(shown("0.33333333333"), "0.33333333");
    assert_eq!(shown("0.66666666666"), "0.66666667");
}

#[test]
fn decimal_in_scientific_notation() {
    assert_eq!(shown("0.0001"), "1.0000000e-4");
    assert_eq!(shown("0.00001"), "1.0000000e-5");
    assert_eq!(shown("-0.000012345"), "-1.2345000e-5");
    assert_eq!(shown("1.5e-30"), "1.5000000e-30");
}

#[test]
fn decimal_with_positive_exponent() {
    assert_eq!(shown("25"), "25.000000");
    assert_eq!(shown("1e3"), "1000.0000");
    assert_eq!(shown("-12345678"), "-12345678");
    assert_eq!(shown("1234567.8"), "1234567.8");
    assert_eq!(shown("12345678.9"), "12345679");
    assert_eq!(shown("1234567890"), "1234567900");
    assert_eq!(shown("-123456789012"), "-123456790000");
    assert_eq!(shown("1e20"), "100000000000000000000");
}

#[test]
fn decimal_zero_prints_as_zero() {
    assert_eq!(shown("0"), "0");
    assert_eq!(shown("0.000"), "0");
    assert_eq!(shown("-0.0"), "0");
}

#[test]
fn decimal_rounding_may_carry() {
    assert_eq!(shown("0.999999999"), "1.00000000");
    assert_eq!(shown("9.99999995"), "10.0000000");
    assert_eq!(shown("99999999.5"), "100000000");
    assert_eq!(shown("0.0999999999"), "0.100000000");
}

#[test]
fn decimal_with_other_digit_counts() {
    assert_eq!(shown_with("2.5", 3), "2.50");
    assert_eq!(shown_with("2.5", 1), "2.");
    assert_eq!(shown_with("0.00012345", 2), "1.2e-4");
    assert_eq!(shown_with("3.14159", 4), "3.142");
    assert_eq!(shown_with("3.14159", 12), "3.14159000000");
    assert_eq!(shown_with("25", 1), "20");
    assert_eq!(shown_with("35", 1), "40");
    assert_eq!(shown_with("1234", 2), "1200");
    assert_eq!(shown_with("1234", 4), "1234");
    assert_eq!(shown_with("1234", 5), "1234.0");
}

#[test]
fn value_display_uses_eight_digits() {
    assert_eq!(Value::Decimal(decimal("2.5")).to_display_string(), "2.5000000");
}

#[test]
fn printer_appends_to_what_is_written() {
    let mut p = Printer::new();
    p.print(&add(sym("a"), sym("b")));
    p.print(&sym("c"));
    assert_eq!(p.into_inner(), "a+bc");
}

#[test]
fn printer_with_precedence() {
    let e = add(sym("a"), sym("b"));
    let mut p = Printer::new();
    p.print_with_precedence(&e, PrecedenceContext::Product);
    assert_eq!(p.into_inner(), "(a+b)");
    let mut p = Printer::new();
    p.print_with_precedence(&e, PrecedenceContext::Sum);
    assert_eq!(p.into_inner(), "a+b");
    let mut p = Printer::new();
    p.print_with_precedence(&e, PrecedenceContext::NoPrecedence);
    assert_eq!(p.into_inner(), "a+b");
    let m = mul(sym("a"), sym("b"));
    let mut p = Printer::new();
    p.print_with_precedence(&m, PrecedenceContext::FunctionOrFactorial);
    assert_eq!(p.into_inner(), "(a*b)");
    let mut p = Printer::new();
    p.print_with_precedence(&neg(sym("a")), PrecedenceContext::FunctionOrFactorial);
    assert_eq!(p.into_inner(), "-a");
}

#[test]
fn printer_with_digits() {
    assert!(Printer::with_digits(0).is_none());
    assert!(Printer::with_digits(1_000_001).is_none());
    assert!(Printer::with_digits(1_000_000).is_some());
    let mut p = Printer::with_digits(3).unwrap();
    let two = Expr::Value(Value::Decimal(decimal("2.5")));
    let call = Expr::Apply(
        Box::new(Expr::Value(Value::Decimal(decimal("2.5")))),
        vec![Expr::Value(Value::Decimal(decimal("2.5")))],
    );
    p.print(&two);
    p.print(&sym(" "));
    p.print(&call);
    assert_eq!(p.into_inner(), "2.50 \"2.5000000\"(2.50)");
}

#[test]
fn maybe_enter_parens_wraps_on_demand() {
    let mut p = Printer::new();
    p.maybe_enter_parens(|| "x".to_string(), true);
    p.maybe_enter_parens(|| "y".to_string(), false);
    p.maybe_enter_parens(|| String::new(), true);
    assert_eq!(p.into_inner(), "(x)y()");
}

#[test]
fn precedence_of_each_node() {
    assert_eq!(num(1).precedence(), PrecedenceContext::NoPrecedence);
    assert_eq!(sym("x").precedence(), PrecedenceContext::NoPrecedence);
    assert_eq!(add(num(1), num(2)).precedence(), PrecedenceContext::Sum);
    assert_eq!(sub(num(1), num(2)).precedence(), PrecedenceContext::Sum);
    assert_eq!(mul(num(1), num(2)).precedence(), PrecedenceContext::Product);
    assert_eq!(div(num(1), num(2)).precedence(), PrecedenceContext::Product);
    assert_eq!(neg(num(1)).precedence(), PrecedenceContext::Neg);
    assert_eq!(
        Expr::Apply(Box::new(sym("f")), vec![]).precedence(),
        PrecedenceContext::FunctionOrFactorial
    );
    assert_eq!(Expr::binary(BinaryOp::Mul, num(1), num(2)).precedence(), PrecedenceContext::Product);
}

#[test]
fn precedence_levels_are_ordered() {
    let levels = [
        PrecedenceContext::NoPrecedence,
        PrecedenceContext::Sum,
        PrecedenceContext::Product,
        PrecedenceContext::Neg,
        PrecedenceContext::FunctionOrFactorial,
    ];
    for (i, a) in levels.iter().enumerate() {
        assert_eq!(a.level() as usize, i);
        for (j, b) in levels.iter().enumerate() {
            assert_eq!(a.below(*b), i < j);
            assert_eq!(*a < *b, i < j);
        }
    }
}

#[test]
fn printed_exact_results_read_back_as_the_same_value() {
    for text in ["6/4", "-6/4", "3-10", "0/5", "2*3+4", "7", "-(1/3)*(3/7)", "1/3-1/3", "100/7/3"] {
        let mut evaluator = Evaluator::default();
        let first = evaluator.eval(expr_parser(&evaluator, text).unwrap()).unwrap();
        let printed = first.to_display_string();
        let second = evaluator.eval(expr_parser(&evaluator, &printed).unwrap()).unwrap();
        match (first, second) {
            (Expr::Value(Value::Exact(a)), Expr::Value(Value::Exact(b))) => {
                assert_eq!((a.numer(), a.denom()), (b.numer(), b.denom()), "{text}");
            }
            other => panic!("{other:?}"),
        }
    }
}
