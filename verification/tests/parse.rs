use bigdecimal::num_bigint::BigInt;
use bigdecimal::BigDecimal;
use calq::expr::{Evaluator, Expr, Value};
use calq::parse::{expr_parser, ParseError};

fn read(text: &str) -> Result<Expr, ParseError> {
    expr_parser(&Evaluator::default(), text)
}

fn text_of(text: &str) -> String {
    read(text).unwrap().to_display_string()
}

fn refused(text: &str) -> bool {
    match read(text) {
        Err(e) => e.position <= text.chars().count(),
        Ok(_) => false,
    }
}

fn refused_at(text: &str) -> usize {
    match read(text) {
        Err(e) => e.position,
        Ok(v) => panic!("{text:?} reads as {v:?}"),
    }
}

#[test]
fn integers_are_exact() {
    match read("42").unwrap() {
        Expr::Value(Value::Exact(q)) => {
            assert_eq!((q.numer(), q.denom()), (BigInt::from(42), BigInt::from(1)))
        }
        other => panic!("{other:?}"),
    }
    match read("0").unwrap() {
        Expr::Value(Value::Exact(q)) => assert!(q.is_zero()),
        other => panic!("{other:?}"),
    }
    match read("123456789012345678901234567890").unwrap() {
        Expr::Value(Value::Exact(q)) => {
            assert_eq!(q.numer().to_string(), "123456789012345678901234567890")
        }
        other => panic!("{other:?}"),
    }
}

#[test]
fn a_fraction_or_an_exponent_makes_a_decimal() {
    for (text, value) in [
        ("1.5", "1.5"),
        ("1.", "1"),
        ("0.001", "0.001"),
        ("1e3", "1000"),
        ("1.5e3", "1500"),
        ("12.345e1", "123.45"),
        ("1.e2", "100"),
        ("0e0", "0"),
        ("10.0", "10"),
    ] {
        match read(text).unwrap() {
            Expr::Value(Value::Decimal(d)) => {
                assert_eq!(d.to_raw(), value.parse::<BigDecimal>().unwrap(), "{text}");
                assert_eq!(d.to_raw().digits(), if d.is_zero() { 1 } else { 100 }, "{text}");
            }
            other => panic!("{text}: {other:?}"),
        }
    }
}

#[test]
fn decimal_literals_are_rounded_to_the_precision() {
    let long = format!("0.{}", "6".repeat(150));
    match read(&long).unwrap() {
        Expr::Value(Value::Decimal(d)) => {
            let (digits, scale) = d.to_raw().into_bigint_and_exponent();
            assert_eq!(digits.to_string(), format!("{}7", "6".repeat(99)));
            assert_eq!(scale, 100);
        }
        other => panic!("{other:?}"),
    }
}

#[test]
fn identifiers_are_symbols() {
    for name in ["x", "foo", "_a1", "A_b_9", "e", "sin"] {
        match read(name).unwrap() {
            Expr::Symbol(s) => assert_eq!(s, name),
            other => panic!("{other:?}"),
        }
    }
}

#[test]
fn operators_group_by_precedence_and_to_the_left() {
    assert_eq!(text_of("a+b*c"), "a+b*c");
    assert_eq!(text_of("(a+b)*c"), "(a+b)*c");
    assert_eq!(text_of("a*(b+c)"), "a*(b+c)");
    assert_eq!(text_of("a-(b-c)"), "a-b-c");
    assert_eq!(text_of("-a*b"), "-a*b");
    assert_eq!(text_of("-(a*b)"), "-(a*b)");
    assert_eq!(text_of("a--b"), "a--b");
    assert_eq!(text_of("a*-b"), "a*-b");
    assert_eq!(text_of("((a))"), "a");
    match read("a-b-c").unwrap() {
        Expr::Sub(outer) => match *outer {
            (Expr::Sub(_), Expr::Symbol(c)) => assert_eq!(c, "c"),
            other => panic!("{other:?}"),
        },
        other => panic!("{other:?}"),
    }
    match read("a/b*c").unwrap() {
        Expr::Mul(outer) => match *outer {
            (Expr::Div(_), Expr::Symbol(c)) => assert_eq!(c, "c"),
            other => panic!("{other:?}"),
        },
        other => panic!("{other:?}"),
    }
    match read("-a*b").unwrap() {
        Expr::Mul(outer) => match *outer {
            (Expr::Neg(_), Expr::Symbol(b)) => assert_eq!(b, "b"),
            other => panic!("{other:?}"),
        },
        other => panic!("{other:?}"),
    }
}

#[test]
fn spaces_may_stand_around_tokens() {
    assert_eq!(text_of("  1 +\t2 *\n( x - 3 )\r "), "1+2*(x-3)");
    assert_eq!(text_of("f ( 1 , 2 )"), "\"f\"(1,2)");
    assert_eq!(text_of(" - x"), "-x");
}

#[test]
fn applications() {
    assert_eq!(text_of("f(1,2)"), "\"f\"(1,2)");
    assert_eq!(text_of("f(1,2,)"), "\"f\"(1,2)");
    assert_eq!(text_of("f()"), "\"f\"()");
    assert_eq!(text_of("f( )"), "\"f\"()");
    assert_eq!(text_of("f(a+b, -c)"), "\"f\"(a+b,-c)");
    assert_eq!(text_of("f(g(x))"), "\"f\"(\"g\"(x))");
    assert_eq!(text_of("(f)(x)"), "\"f\"(x)");
    assert_eq!(text_of("2(x)"), "\"2\"(x)");
    assert_eq!(text_of("-f(x)*2"), "-\"f\"(x)*2");
    match read("f(1,2,)").unwrap() {
        Expr::Apply(callee, args) => {
            assert!(matches!(*callee, Expr::Symbol(_)));
            assert_eq!(args.len(), 2);
        }
        other => panic!("{other:?}"),
    }
}

#[test]
fn malformed_texts_are_refused() {
    for text in [
        "", "   ", "+", "1 +", "* 2", "1 2", "(1", "1)", "()", "f(,)", "f(1,,2)", "f(1", "f(1)(2)",
        "1..2", ".5", "1 .5", "007", "1e", "1e-5", "1e+5", "1e05", "1.5.2", "a b", "a $ b", "é",
        "1,2", "f(1;2)", "1 + (2 * )", "--", "1e99999999999999999999999999999999999999",
    ] {
        assert!(refused(text), "{text:?}");
    }
}

#[test]
fn decimal_literals_out_of_range_are_refused() {
    assert!(refused("1e2000000"));
    assert!(refused("1e100000001"));
    assert!(read("1e900000").is_ok());
    assert!(read("1e1000000").is_ok());
}

#[test]
fn errors_give_the_position_of_the_first_token_out_of_place() {
    assert_eq!(read("1 + * 2").unwrap_err(), ParseError { position: 4 });
    assert_eq!(refused_at("1 2"), 2);
    assert_eq!(refused_at("1)"), 1);
    assert_eq!(refused_at("a $ b"), 2);
    assert_eq!(refused_at("  $"), 2);
    assert_eq!(refused_at("\u{e9}"), 0);
    assert_eq!(refused_at("x + \u{e9}"), 4);
    assert_eq!(refused_at("f(,)"), 2);
    assert_eq!(refused_at("f(1,,2)"), 4);
    assert_eq!(refused_at("f(1;2)"), 3);
    assert_eq!(refused_at("f(1)(2)"), 4);
    assert_eq!(refused_at("(1 2)"), 3);
    assert_eq!(refused_at("1,2"), 1);
    assert_eq!(refused_at("* 2"), 0);
}

#[test]
fn errors_at_the_end_give_the_length_of_the_text() {
    assert_eq!(refused_at(""), 0);
    assert_eq!(refused_at("   "), 3);
    assert_eq!(refused_at("1 +"), 3);
    assert_eq!(refused_at("1 + "), 4);
    assert_eq!(refused_at("(1"), 2);
    assert_eq!(refused_at("f(1"), 3);
    assert_eq!(refused_at("f(1, "), 5);
    assert_eq!(refused_at("--"), 2);
    assert_eq!(refused_at("1 + (2 * )"), 9);
}

#[test]
fn errors_in_numbers_give_the_position_where_reading_stops() {
    assert_eq!(refused_at("007"), 1);
    assert_eq!(refused_at("1e-5"), 1);
    assert_eq!(refused_at("1e"), 1);
    assert_eq!(refused_at("1.5.2"), 3);
    assert_eq!(refused_at(".5"), 0);
    assert_eq!(refused_at("1 .5"), 2);
    assert_eq!(refused_at("2 + 1e2000000"), 4);
    assert_eq!(refused_at("1e99999999999999999999999999999999999999"), 0);
}
