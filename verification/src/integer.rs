//! Arbitrary-precision integers: the outside type, its mathematical value,
//! and the operations the rest of the library performs on it.
use bigdecimal::num_bigint::BigInt;
use bigdecimal::{Signed, Zero};
use vstd::prelude::*;

verus! {

#[verifier::external_type_specification]
#[verifier::external_body]
pub struct ExBigInt(BigInt);

/// The mathematical integer that a `BigInt` holds.
pub uninterp spec fn int_value(x: BigInt) -> int;

/// Quotient rounded toward zero, for a positive divisor.
pub open spec fn trunc_div(a: int, b: int) -> int {
    if a >= 0 {
        a / b
    } else {
        -((-a) / b)
    }
}

/// Remainder that carries the sign of the dividend, for a positive divisor.
pub open spec fn trunc_rem(a: int, b: int) -> int {
    if a >= 0 {
        a % b
    } else {
        -((-a) % b)
    }
}

/// The character of one decimal digit.
pub open spec fn digit_char(d: int) -> char {
    if d == 0 {
        '0'
    } else if d == 1 {
        '1'
    } else if d == 2 {
        '2'
    } else if d == 3 {
        '3'
    } else if d == 4 {
        '4'
    } else if d == 5 {
        '5'
    } else if d == 6 {
        '6'
    } else if d == 7 {
        '7'
    } else if d == 8 {
        '8'
    } else {
        '9'
    }
}

/// Decimal digits of a natural number, most significant first, without leading zeros.
pub open spec fn nat_text(n: nat) -> Seq<char>
    decreases n,
{
    if n < 10 {
        seq![digit_char(n as int)]
    } else {
        nat_text(n / 10).push(digit_char((n % 10) as int))
    }
}

/// Decimal text of an integer: a minus sign for negatives, then the digits.
pub open spec fn int_text(v: int) -> Seq<char> {
    if v < 0 {
        seq!['-'] + nat_text((-v) as nat)
    } else {
        nat_text(v as nat)
    }
}

/// The text of a natural number has at least one digit.
pub proof fn lemma_nat_text_len(n: nat)
    ensures
        nat_text(n).len() >= 1,
    decreases n,
{
    if n >= 10 {
        lemma_nat_text_len(n / 10);
    }
}

/// `BigInt::from` on an `i128`: the result holds the same integer.
#[verifier::external_body]
pub(crate) fn int_from_i128(v: i128) -> (r: BigInt)
    ensures
        int_value(r) == v,
{
    BigInt::from(v)
}

/// `Clone::clone` of a `BigInt`: the copy holds the same integer.
pub assume_specification[ <BigInt as Clone>::clone ](a: &BigInt) -> (r: BigInt)
    ensures
        int_value(r) == int_value(*a),
;

/// `&BigInt + &BigInt`: the exact sum.
#[verifier::external_body]
pub(crate) fn int_add(a: &BigInt, b: &BigInt) -> (r: BigInt)
    ensures
        int_value(r) == int_value(*a) + int_value(*b),
{
    a + b
}

/// `&BigInt - &BigInt`: the exact difference.
#[verifier::external_body]
pub(crate) fn int_sub(a: &BigInt, b: &BigInt) -> (r: BigInt)
    ensures
        int_value(r) == int_value(*a) - int_value(*b),
{
    a - b
}

/// `&BigInt * &BigInt`: the exact product.
#[verifier::external_body]
pub(crate) fn int_mul(a: &BigInt, b: &BigInt) -> (r: BigInt)
    ensures
        int_value(r) == int_value(*a) * int_value(*b),
{
    a * b
}

/// `-BigInt`: the exact negation.
#[verifier::external_body]
pub(crate) fn int_neg(a: BigInt) -> (r: BigInt)
    ensures
        int_value(r) == -int_value(a),
{
    -a
}

/// `&BigInt / &BigInt`, which rounds toward zero and panics on a zero
/// divisor; stated for positive divisors only.
#[verifier::external_body]
pub(crate) fn int_div(a: &BigInt, b: &BigInt) -> (r: BigInt)
    requires
        int_value(*b) > 0,
    ensures
        int_value(r) == trunc_div(int_value(*a), int_value(*b)),
{
    a / b
}

/// `&BigInt % &BigInt`, whose result has the sign of the dividend and which
/// panics on a zero divisor; stated for positive divisors only.
#[verifier::external_body]
pub(crate) fn int_rem(a: &BigInt, b: &BigInt) -> (r: BigInt)
    requires
        int_value(*b) > 0,
    ensures
        int_value(r) == trunc_rem(int_value(*a), int_value(*b)),
{
    a % b
}

/// `Zero::is_zero` of a `BigInt`.
#[verifier::external_body]
pub(crate) fn int_is_zero(a: &BigInt) -> (r: bool)
    ensures
        r == (int_value(*a) == 0),
{
    a.is_zero()
}

/// `Signed::is_negative` of a `BigInt`.
#[verifier::external_body]
pub(crate) fn int_is_negative(a: &BigInt) -> (r: bool)
    ensures
        r == (int_value(*a) < 0),
{
    a.is_negative()
}

/// `ToString::to_string` of a `BigInt`: its decimal text.
#[verifier::external_body]
pub(crate) fn int_to_text(a: &BigInt) -> (r: String)
    ensures
        r@ == int_text(int_value(*a)),
{
    a.to_string()
}

} // verus!
