//! Laws that relate the evaluator, the numeric tower and the printer.
use crate::decimal::Dec;
use crate::expr::{
    evaluated, exact_result, number_is_zero, number_result, precedence_of, promoted, BinaryOp,
    EvalError, Number, PrecedenceContext, Tree,
};
use crate::integer::{digit_char, int_text, nat_text};
use crate::parse::{
    at_end, atom_at, call_at, digit_of, digits_end, digits_value, fraction_end, has_exponent,
    int_end, is_digit, number_value, parsed, product_at, product_rest, skip_spaces, sum_at,
    sum_rest, token_at, unary_at, Lexeme,
};
use crate::print::{expr_text, wrapped};
use crate::rational::{
    abs, gcd, in_lowest_terms, lemma_reduced, lemma_reduced_fixed, ratio_div, ratio_text, reduced,
    Ratio,
};
use vstd::prelude::*;

verus! {

/// The quotient node of two exact values.
pub open spec fn exact_quotient(a: Ratio, b: Ratio) -> Tree {
    Tree::Binary(
        BinaryOp::Div,
        Box::new(Tree::Value(Number::Exact(a))),
        Box::new(Tree::Value(Number::Exact(b))),
    )
}

/// Evaluating the quotient of two exact values yields an exact value in
/// lowest terms that equals the quotient, unless the divisor is zero; then
/// it fails as a division by zero.
pub proof fn lemma_exact_division(a: Ratio, b: Ratio, precision: int)
    requires
        in_lowest_terms(a),
        in_lowest_terms(b),
    ensures
        b.num == 0 ==> evaluated(exact_quotient(a, b), precision) == Err::<Tree, EvalError>(
            EvalError::DivisionByZero,
        ),
        b.num != 0 ==> evaluated(exact_quotient(a, b), precision) == Ok::<Tree, EvalError>(
            Tree::Value(Number::Exact(ratio_div(a, b))),
        ),
        b.num != 0 ==> in_lowest_terms(ratio_div(a, b)),
        b.num != 0 ==> ratio_div(a, b).num * (a.den * b.num) == (a.num * b.den) * ratio_div(
            a,
            b,
        ).den,
{
    reveal_with_fuel(evaluated, 2);
    if b.num != 0 {
        assert(a.den * b.num != 0) by (nonlinear_arith)
            requires
                a.den > 0,
                b.num != 0,
        ;
        lemma_reduced(a.num * b.den, a.den * b.num);
    }
}

/// The numerator and denominator of `a op b` before they are reduced.
pub open spec fn unreduced(op: BinaryOp, a: Ratio, b: Ratio) -> Ratio {
    match op {
        BinaryOp::Add => Ratio { num: a.num * b.den + b.num * a.den, den: a.den * b.den },
        BinaryOp::Sub => Ratio { num: a.num * b.den - b.num * a.den, den: a.den * b.den },
        BinaryOp::Mul => Ratio { num: a.num * b.num, den: a.den * b.den },
        BinaryOp::Div => Ratio { num: a.num * b.den, den: a.den * b.num },
    }
}

/// Exact arithmetic loses nothing: the result of an operation on two exact
/// values is in lowest terms and equals the fraction that the operation
/// forms; only a division by zero has no result.
pub proof fn lemma_exact_arithmetic_lossless(op: BinaryOp, a: Ratio, b: Ratio)
    requires
        in_lowest_terms(a),
        in_lowest_terms(b),
    ensures
        exact_result(op, a, b) is Err <==> op == BinaryOp::Div && b.num == 0,
        exact_result(op, a, b) matches Ok(q) ==> in_lowest_terms(q) && q.num * unreduced(
            op,
            a,
            b,
        ).den == unreduced(op, a, b).num * q.den,
{
    let u = unreduced(op, a, b);
    if !(op == BinaryOp::Div && b.num == 0) {
        assert(u.den != 0) by (nonlinear_arith)
            requires
                a.den > 0,
                b.den > 0,
                u.den == a.den * b.den || (u.den == a.den * b.num && b.num != 0),
        ;
        lemma_reduced(u.num, u.den);
    }
}

/// A division by zero fails as such, whatever the dividend and whatever
/// the representations of the two.
pub proof fn lemma_division_by_zero(a: Number, b: Number, precision: int)
    requires
        number_is_zero(b),
    ensures
        number_result(BinaryOp::Div, a, b, precision) == Err::<Number, EvalError>(
            EvalError::DivisionByZero,
        ),
        evaluated(
            Tree::Binary(BinaryOp::Div, Box::new(Tree::Value(a)), Box::new(Tree::Value(b))),
            precision,
        ) == Err::<Tree, EvalError>(EvalError::DivisionByZero),
{
    reveal_with_fuel(evaluated, 2);
}

/// The result of an operation on a decimal and an exact value, on either
/// side, is the result of the operation on the decimal and the promoted
/// exact value; where the promotion is out of range, so is the result.
/// Only a division by zero is refused before the promotion.
pub proof fn lemma_promotion_consistent(op: BinaryOp, d: Dec, e: Ratio, precision: int)
    ensures
        !(op == BinaryOp::Div && e.num == 0) ==> number_result(
            op,
            Number::Decimal(d),
            Number::Exact(e),
            precision,
        ) == match promoted(e, precision) {
            Some(c) => number_result(op, Number::Decimal(d), Number::Decimal(c), precision),
            None => Err(EvalError::OutOfRange),
        },
        !(op == BinaryOp::Div && d.digits == 0) ==> number_result(
            op,
            Number::Exact(e),
            Number::Decimal(d),
            precision,
        ) == match promoted(e, precision) {
            Some(c) => number_result(op, Number::Decimal(c), Number::Decimal(d), precision),
            None => Err(EvalError::OutOfRange),
        },
{
}

/// Evaluating a decimal plus an exact value gives what evaluating the
/// decimal plus the promoted exact value gives, and no exact value.
pub proof fn lemma_promotion_consistent_evaluated(
    op: BinaryOp,
    d: Dec,
    e: Ratio,
    precision: int,
)
    requires
        !(op == BinaryOp::Div && e.num == 0),
    ensures
        evaluated(
            Tree::Binary(
                op,
                Box::new(Tree::Value(Number::Decimal(d))),
                Box::new(Tree::Value(Number::Exact(e))),
            ),
            precision,
        ) == match promoted(e, precision) {
            Some(c) => evaluated(
                Tree::Binary(
                    op,
                    Box::new(Tree::Value(Number::Decimal(d))),
                    Box::new(Tree::Value(Number::Decimal(c))),
                ),
                precision,
            ),
            None => Err(EvalError::OutOfRange),
        },
        evaluated(
            Tree::Binary(
                op,
                Box::new(Tree::Value(Number::Decimal(d))),
                Box::new(Tree::Value(Number::Exact(e))),
            ),
            precision,
        ) matches Ok(t) ==> t is Value && t->Value_0 is Decimal,
{
    reveal_with_fuel(evaluated, 2);
    lemma_promotion_consistent(op, d, e, precision);
}

/// A sum under a product is printed between parentheses.
pub proof fn lemma_sum_in_product_wrapped(
    a: Tree,
    b: Tree,
    c: Tree,
    p: PrecedenceContext,
    digits: int,
)
    ensures
        expr_text(
            Tree::Binary(
                BinaryOp::Mul,
                Box::new(Tree::Binary(BinaryOp::Add, Box::new(a), Box::new(b))),
                Box::new(c),
            ),
            p,
            digits,
        ) == wrapped(
            "("@ + (expr_text(a, PrecedenceContext::Sum, digits) + "+"@ + expr_text(
                b,
                PrecedenceContext::Sum,
                digits,
            )) + ")"@ + "*"@ + expr_text(c, PrecedenceContext::Product, digits),
            PrecedenceContext::Product.rank() < p.rank(),
        ),
{
    reveal_with_fuel(expr_text, 2);
}

/// A product under a sum is printed without parentheses.
pub proof fn lemma_product_in_sum_bare(
    a: Tree,
    b: Tree,
    c: Tree,
    p: PrecedenceContext,
    digits: int,
)
    ensures
        expr_text(
            Tree::Binary(
                BinaryOp::Add,
                Box::new(Tree::Binary(BinaryOp::Mul, Box::new(a), Box::new(b))),
                Box::new(c),
            ),
            p,
            digits,
        ) == wrapped(
            expr_text(a, PrecedenceContext::Product, digits) + "*"@ + expr_text(
                b,
                PrecedenceContext::Product,
                digits,
            ) + "+"@ + expr_text(c, PrecedenceContext::Sum, digits),
            PrecedenceContext::Sum.rank() < p.rank(),
        ),
{
    reveal_with_fuel(expr_text, 2);
}

/// A binary node is wrapped in parentheses exactly when its own precedence
/// is strictly lower than the one its position requires.
pub proof fn lemma_parentheses_minimal(
    op: BinaryOp,
    a: Tree,
    b: Tree,
    p: PrecedenceContext,
    digits: int,
)
    ensures
        ({
            let e = Tree::Binary(op, Box::new(a), Box::new(b));
            let own = precedence_of(e);
            expr_text(e, p, digits) == wrapped(expr_text(e, own, digits), own.rank() < p.rank())
        }),
{
}

/// An expression of integers, the four operators and negation.
pub open spec fn integer_only(e: Tree) -> bool
    decreases e,
{
    match e {
        Tree::Value(Number::Exact(q)) => q.den == 1,
        Tree::Binary(_, a, b) => integer_only(*a) && integer_only(*b),
        Tree::Neg(a) => integer_only(*a),
        _ => false,
    }
}

/// The exact value `n / 1`.
pub open spec fn whole(n: int) -> Tree {
    Tree::Value(Number::Exact(Ratio { num: n, den: 1 }))
}

proof fn lemma_whole_lowest_terms(n: int)
    ensures
        in_lowest_terms(Ratio { num: n, den: 1 }),
{
    let a = abs(n) as nat;
    assert(a % 1 == 0);
    assert(gcd(1, 0) == 1);
    assert(gcd(a, 1) == gcd(1, a % 1));
}

/// An expression of integers evaluates to an exact value in lowest terms,
/// or fails as a division by zero.
pub proof fn lemma_integer_only_exact(e: Tree, precision: int)
    requires
        integer_only(e),
    ensures
        match evaluated(e, precision) {
            Ok(Tree::Value(Number::Exact(q))) => in_lowest_terms(q),
            Ok(_) => false,
            Err(err) => err == EvalError::DivisionByZero,
        },
    decreases e,
{
    match e {
        Tree::Value(Number::Exact(q)) => {
            lemma_whole_lowest_terms(q.num);
        },
        Tree::Binary(op, a, b) => {
            lemma_integer_only_exact(*a, precision);
            lemma_integer_only_exact(*b, precision);
            if evaluated(*a, precision) is Ok && evaluated(*b, precision) is Ok {
                let x = evaluated(*a, precision)->Ok_0->Value_0->Exact_0;
                let y = evaluated(*b, precision)->Ok_0->Value_0->Exact_0;
                assert(x.den * y.den != 0) by (nonlinear_arith)
                    requires
                        x.den > 0,
                        y.den > 0,
                ;
                lemma_reduced(x.num * y.den + y.num * x.den, x.den * y.den);
                lemma_reduced(x.num * y.den - y.num * x.den, x.den * y.den);
                lemma_reduced(x.num * y.num, x.den * y.den);
                if y.num != 0 {
                    assert(x.den * y.num != 0) by (nonlinear_arith)
                        requires
                            x.den > 0,
                            y.num != 0,
                    ;
                    lemma_reduced(x.num * y.den, x.den * y.num);
                }
            }
        },
        Tree::Neg(a) => {
            lemma_integer_only_exact(*a, precision);
        },
        _ => {},
    }
}

proof fn lemma_digit_char(d: int)
    requires
        0 <= d <= 9,
    ensures
        is_digit(digit_char(d)),
        digit_of(digit_char(d)) == d,
        digit_char(d) == '0' <==> d == 0,
{
}

/// The digits of a natural number: all digits, no leading zero, and they
/// spell the number.
proof fn lemma_nat_text(n: nat)
    ensures
        nat_text(n).len() >= 1,
        forall|i: int| 0 <= i < nat_text(n).len() ==> is_digit(#[trigger] nat_text(n)[i]),
        n == 0 ==> nat_text(n).len() == 1,
        nat_text(n)[0] == '0' <==> n == 0,
        digits_value(nat_text(n)) == n,
    decreases n,
{
    if n < 10 {
        lemma_digit_char(n as int);
        let t = nat_text(n);
        assert(t.drop_last() =~= Seq::<char>::empty());
        assert(digits_value(t.drop_last()) == 0);
        assert(t.last() == digit_char(n as int));
    } else {
        lemma_nat_text(n / 10);
        lemma_digit_char((n % 10) as int);
        let t = nat_text(n);
        assert(t.drop_last() =~= nat_text(n / 10));
        assert(t.last() == digit_char((n % 10) as int));
        assert(t[0] == nat_text(n / 10)[0]);
        assert forall|i: int| 0 <= i < t.len() implies is_digit(#[trigger] t[i]) by {
            if i < t.len() - 1 {
                assert(t[i] == nat_text(n / 10)[i]);
            }
        }
    }
}

proof fn lemma_digits_end(s: Seq<char>, pos: int, k: int)
    requires
        0 <= pos <= k <= s.len(),
        forall|i: int| pos <= i < k ==> is_digit(#[trigger] s[i]),
        k == s.len() || !is_digit(s[k]),
    ensures
        digits_end(s, pos) == k,
    decreases k - pos,
{
    if pos < k {
        lemma_digits_end(s, pos + 1, k);
    }
}

/// The text `s` holds the digits of `n` from `pos`, and after them ends
/// or goes on with a slash.
pub open spec fn holds_number(s: Seq<char>, pos: int, n: nat) -> bool {
    let k = pos + nat_text(n).len();
    &&& 0 <= pos
    &&& k <= s.len()
    &&& s.subrange(pos, k) == nat_text(n)
    &&& (k == s.len() || s[k] == '/')
}

proof fn lemma_token_number(s: Seq<char>, pos: int, n: nat, precision: int)
    requires
        holds_number(s, pos, n),
    ensures
        token_at(s, pos, precision) == Ok::<(Lexeme, int), int>(
            (
                Lexeme::Number(Number::Exact(Ratio { num: n as int, den: 1 })),
                pos + nat_text(n).len(),
            ),
        ),
{
    let t = nat_text(n);
    let k = pos + t.len();
    lemma_nat_text(n);
    assert forall|i: int| pos <= i < k implies is_digit(#[trigger] s[i]) by {
        assert(s[i] == s.subrange(pos, k)[i - pos]);
    }
    assert(s[pos] == t[0]) by {
        assert(s[pos] == s.subrange(pos, k)[0]);
    }
    assert(is_digit(s[pos]));
    assert(skip_spaces(s, pos) == pos);
    if s[pos] == '0' {
        assert(k == pos + 1);
    } else {
        lemma_digits_end(s, pos + 1, k);
    }
    assert(int_end(s, pos) == Some(k));
    assert(fraction_end(s, k) == k);
    assert(!has_exponent(s, k));
    assert(number_value(s, pos, k, precision) == Some(
        (Number::Exact(Ratio { num: n as int, den: 1 }), k),
    ));
}

proof fn lemma_token_at_end(s: Seq<char>, precision: int)
    ensures
        token_at(s, s.len() as int, precision) is Err,
        at_end(s, s.len() as int),
{
}

proof fn lemma_token_slash(s: Seq<char>, k: int, precision: int)
    requires
        0 <= k < s.len(),
        s[k] == '/',
    ensures
        token_at(s, k, precision) == Ok::<(Lexeme, int), int>((Lexeme::Slash, k + 1)),
{
    assert(skip_spaces(s, k) == k);
}

proof fn lemma_unary_number(s: Seq<char>, pos: int, n: nat, precision: int)
    requires
        holds_number(s, pos, n),
    ensures
        unary_at(s, pos, precision) == Ok::<(Tree, int), int>(
            (whole(n as int), pos + nat_text(n).len()),
        ),
{
    let k = pos + nat_text(n).len();
    lemma_token_number(s, pos, n, precision);
    if k == s.len() {
        lemma_token_at_end(s, precision);
    } else {
        lemma_token_slash(s, k, precision);
    }
    assert(atom_at(s, pos, precision) == Ok::<(Tree, int), int>((whole(n as int), k)));
    assert(call_at(s, pos, precision) == Ok::<(Tree, int), int>((whole(n as int), k)));
}

/// The operand that a sign and a magnitude spell.
pub open spec fn signed_whole(negative: bool, a: nat) -> Tree {
    if negative {
        Tree::Neg(Box::new(whole(a as int)))
    } else {
        whole(a as int)
    }
}

/// Where the digits of the numerator start and end in the text of `q`.
pub open spec fn numerator_start(q: Ratio) -> int {
    if q.num < 0 {
        1
    } else {
        0
    }
}

/// Where the digits of the numerator end in the text of `q`.
pub open spec fn numerator_end(q: Ratio) -> int {
    numerator_start(q) + nat_text(abs(q.num) as nat).len()
}

/// The shape of the text of a fraction in lowest terms: a minus sign for a
/// negative, the digits of the numerator, and for a denominator other
/// than one a slash and its digits.
proof fn lemma_text_shape(q: Ratio)
    requires
        in_lowest_terms(q),
    ensures
        q.num < 0 ==> ratio_text(q)[0] == '-',
        holds_number(ratio_text(q), numerator_start(q), abs(q.num) as nat),
        q.den == 1 ==> numerator_end(q) == ratio_text(q).len(),
        q.den != 1 ==> numerator_end(q) < ratio_text(q).len() && ratio_text(q)[numerator_end(q)]
            == '/' && holds_number(ratio_text(q), numerator_end(q) + 1, q.den as nat)
            && numerator_end(q) + 1 + nat_text(q.den as nat).len() == ratio_text(q).len(),
{
    reveal_strlit("/");
    let s = ratio_text(q);
    let a = abs(q.num) as nat;
    let d = q.den as nat;
    let first = numerator_start(q);
    let k = numerator_end(q);
    lemma_nat_text(a);
    lemma_nat_text(d);
    let head = int_text(q.num);
    assert(head.len() == k);
    assert(head.subrange(first, k) =~= nat_text(a));
    if d == 1 {
        assert(s == head);
    } else {
        assert("/"@ =~= seq!['/']);
        assert(s =~= head + seq!['/'] + nat_text(d));
        assert(s[k] == '/');
        assert(s.subrange(k + 1, s.len() as int) =~= nat_text(d));
    }
    assert(s.subrange(first, k) =~= nat_text(a));
}

proof fn lemma_parse_operand(s: Seq<char>, negative: bool, a: nat, precision: int)
    requires
        holds_number(s, if negative { 1int } else { 0int }, a),
        negative ==> s[0] == '-',
    ensures
        unary_at(s, 0, precision) == Ok::<(Tree, int), int>(
            (signed_whole(negative, a), (if negative { 1int } else { 0int }) + nat_text(a).len()),
        ),
{
    if negative {
        lemma_unary_number(s, 1, a, precision);
        assert(skip_spaces(s, 0) == 0);
        assert(token_at(s, 0, precision) == Ok::<(Lexeme, int), int>((Lexeme::Minus, 1int)));
    } else {
        lemma_token_number(s, 0, a, precision);
        lemma_unary_number(s, 0, a, precision);
    }
}

proof fn lemma_parse_whole(s: Seq<char>, operand: Tree, precision: int)
    requires
        unary_at(s, 0, precision) == Ok::<(Tree, int), int>((operand, s.len() as int)),
    ensures
        parsed(s, precision) == Ok::<Tree, int>(operand),
{
    let k = s.len() as int;
    lemma_token_at_end(s, precision);
    assert(product_rest(s, k, operand, precision) == Ok::<(Tree, int), int>((operand, k)));
    assert(product_at(s, 0, precision) == Ok::<(Tree, int), int>((operand, k)));
    assert(sum_rest(s, k, operand, precision) == Ok::<(Tree, int), int>((operand, k)));
    assert(sum_at(s, 0, precision) == Ok::<(Tree, int), int>((operand, k)));
}

proof fn lemma_parse_quotient(s: Seq<char>, operand: Tree, k: int, d: nat, precision: int)
    requires
        unary_at(s, 0, precision) == Ok::<(Tree, int), int>((operand, k)),
        0 <= k < s.len(),
        s[k] == '/',
        holds_number(s, k + 1, d),
        k + 1 + nat_text(d).len() == s.len(),
    ensures
        parsed(s, precision) == Ok::<Tree, int>(
            Tree::Binary(BinaryOp::Div, Box::new(operand), Box::new(whole(d as int))),
        ),
{
    let end = s.len() as int;
    let tree = Tree::Binary(BinaryOp::Div, Box::new(operand), Box::new(whole(d as int)));
    lemma_token_at_end(s, precision);
    lemma_token_slash(s, k, precision);
    lemma_unary_number(s, k + 1, d, precision);
    assert(product_rest(s, end, tree, precision) == Ok::<(Tree, int), int>((tree, end)));
    assert(product_rest(s, k, operand, precision) == Ok::<(Tree, int), int>((tree, end)));
    assert(product_at(s, 0, precision) == Ok::<(Tree, int), int>((tree, end)));
    assert(sum_rest(s, end, tree, precision) == Ok::<(Tree, int), int>((tree, end)));
    assert(sum_at(s, 0, precision) == Ok::<(Tree, int), int>((tree, end)));
}

proof fn lemma_operand_value(negative: bool, a: nat, precision: int)
    ensures
        evaluated(signed_whole(negative, a), precision) == Ok::<Tree, EvalError>(
            whole(if negative { -(a as int) } else { a as int }),
        ),
{
    reveal_with_fuel(evaluated, 2);
}

proof fn lemma_quotient_value(q: Ratio, operand: Tree, precision: int)
    requires
        in_lowest_terms(q),
        q.den != 1,
        evaluated(operand, precision) == Ok::<Tree, EvalError>(whole(q.num)),
    ensures
        evaluated(
            Tree::Binary(BinaryOp::Div, Box::new(operand), Box::new(whole(q.den))),
            precision,
        ) == Ok::<Tree, EvalError>(Tree::Value(Number::Exact(q))),
{
    reveal_with_fuel(evaluated, 2);
    lemma_reduced_fixed(q);
    assert(q.num * 1 == q.num);
    assert(1 * q.den == q.den);
    assert(ratio_div(Ratio { num: q.num, den: 1 }, Ratio { num: q.den, den: 1 }) == reduced(
        q.num,
        q.den,
    ));
    assert(evaluated(whole(q.den), precision) == Ok::<Tree, EvalError>(whole(q.den)));
}

/// The text of an exact value reads back as an expression that evaluates
/// to that value.
pub proof fn lemma_exact_text_reads_back(q: Ratio, precision: int)
    requires
        in_lowest_terms(q),
    ensures
        parsed(ratio_text(q), precision) matches Ok(t) && evaluated(t, precision) == Ok::<
            Tree,
            EvalError,
        >(Tree::Value(Number::Exact(q))),
{
    let s = ratio_text(q);
    let a = abs(q.num) as nat;
    let negative = q.num < 0;
    let operand = signed_whole(negative, a);
    lemma_text_shape(q);
    lemma_parse_operand(s, negative, a, precision);
    lemma_operand_value(negative, a, precision);
    if q.den == 1 {
        lemma_parse_whole(s, operand, precision);
    } else {
        lemma_parse_quotient(s, operand, numerator_end(q), q.den as nat, precision);
        lemma_quotient_value(q, operand, precision);
    }
}

/// The printed result of an expression of integers reads back as an
/// expression that evaluates to the same value.
pub proof fn lemma_printed_result_reads_back(e: Tree, precision: int, digits: int)
    requires
        integer_only(e),
        evaluated(e, precision) is Ok,
    ensures
        ({
            let v = evaluated(e, precision)->Ok_0;
            let text = expr_text(v, PrecedenceContext::NoPrecedence, digits);
            parsed(text, precision) matches Ok(t) && evaluated(t, precision) == Ok::<
                Tree,
                EvalError,
            >(v)
        }),
{
    lemma_integer_only_exact(e, precision);
    let q = evaluated(e, precision)->Ok_0->Value_0->Exact_0;
    lemma_exact_text_reads_back(q, precision);
}

} // verus!
