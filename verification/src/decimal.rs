//! Arbitrary-precision decimal numbers: the outside type, its model as an
//! integer of digits with a decimal scale, and the operations performed on it.
//!
//! The decimal crate keeps the scale in a machine integer and allocates
//! digits to bring two numbers to one scale, so the operations are stated
//! for scales of magnitude up to `WORK_SCALE` only. A `Decimal` that the
//! library stores has a scale of magnitude up to `MAX_SCALE`, which leaves
//! room for the products and powers that the arithmetic forms.
use crate::integer::{int_is_negative, int_is_zero, int_value, nat_text, trunc_div};
use crate::rational::abs;
use bigdecimal::num_bigint::BigInt;
use bigdecimal::{BigDecimal, RoundingMode};
use std::num::NonZeroU64;
use vstd::arithmetic::div_mod::{lemma_fundamental_div_mod, lemma_mod_pos_bound};
use vstd::arithmetic::power::pow;
use vstd::prelude::*;

verus! {

#[verifier::external_type_specification]
#[verifier::external_body]
pub struct ExBigDecimal(BigDecimal);

/// The model of a decimal: the number `digits * 10^(-scale)`.
pub struct Dec {
    pub digits: int,
    pub scale: int,
}

/// The digits and scale that a `BigDecimal` holds.
pub uninterp spec fn dec_repr(x: BigDecimal) -> Dec;

/// The result of dividing a non-zero decimal by another, as the decimal
/// crate computes it at its default precision, which is fixed at one
/// hundred digits when that crate is built.
pub uninterp spec fn dec_quotient(a: Dec, b: Dec) -> Dec;

/// The quotient `a / b` for `b` other than zero: a zero dividend comes back
/// as it is, anything else as the decimal crate rounds it.
pub open spec fn quotient(a: Dec, b: Dec) -> Dec {
    if a.digits == 0 {
        a
    } else {
        dec_quotient(a, b)
    }
}

/// Largest magnitude of scale that a stored `Decimal` may have.
pub const MAX_SCALE: i64 = 1_000_000;

/// Largest magnitude of scale on which the arithmetic is carried out.
pub const WORK_SCALE: i64 = 100_000_000;

/// Largest number of significant digits that a decimal is rounded to.
pub const MAX_DIGITS: u32 = 1_000_000;

/// Whether the scale of `d` has magnitude at most `bound`.
pub open spec fn within(d: Dec, bound: int) -> bool {
    -bound <= d.scale <= bound
}

/// The larger of two integers.
pub open spec fn max(a: int, b: int) -> int {
    if a >= b {
        a
    } else {
        b
    }
}

/// The digits of `d` when it is written at the finer scale `s >= d.scale`.
pub open spec fn scaled(d: Dec, s: int) -> int {
    d.digits * pow(10, (s - d.scale) as nat)
}

/// Numeric order: `a < b`.
pub open spec fn less_than(a: Dec, b: Dec) -> bool {
    scaled(a, max(a.scale, b.scale)) < scaled(b, max(a.scale, b.scale))
}

/// The sum, written at the finer of the two scales.
pub open spec fn exact_sum(a: Dec, b: Dec) -> Dec {
    let m = max(a.scale, b.scale);
    Dec { digits: scaled(a, m) + scaled(b, m), scale: m }
}

/// The difference: an operand is returned as it is (negated on the right)
/// when the other is zero, else the result is written at the finer scale.
pub open spec fn exact_difference(a: Dec, b: Dec) -> Dec {
    let m = max(a.scale, b.scale);
    if b.digits == 0 {
        a
    } else if a.digits == 0 {
        Dec { digits: -b.digits, scale: b.scale }
    } else {
        Dec { digits: scaled(a, m) - scaled(b, m), scale: m }
    }
}

/// The product with nothing rounded away.
pub open spec fn exact_product(a: Dec, b: Dec) -> Dec {
    Dec { digits: a.digits * b.digits, scale: a.scale + b.scale }
}

/// The decimal with the opposite sign and the same scale.
pub open spec fn negated(a: Dec) -> Dec {
    Dec { digits: -a.digits, scale: a.scale }
}

/// The integer part of the number, rounded toward zero.
pub open spec fn integer_part(a: Dec) -> int {
    if a.scale <= 0 {
        a.digits * pow(10, (-a.scale) as nat)
    } else {
        trunc_div(a.digits, pow(10, a.scale as nat))
    }
}

/// The number of decimal digits of an integer, its sign left aside; zero
/// has one digit.
pub open spec fn digit_count(d: int) -> nat {
    nat_text(abs(d) as nat).len()
}

/// The integer nearest to `d / unit` for a positive `unit`; of two equally
/// near the even one.
pub open spec fn half_even(d: int, unit: int) -> int {
    let whole = abs(d) / unit;
    let rest = abs(d) % unit;
    let nearest = if 2 * rest > unit || (2 * rest == unit && whole % 2 == 1) {
        whole + 1
    } else {
        whole
    };
    if d < 0 {
        -nearest
    } else {
        nearest
    }
}

/// The decimal rounded to `precision` significant digits, half to even.
///
/// The scale moves by the difference between the precision and the number
/// of digits: digits beyond the precision are rounded away, and zeros fill
/// what is missing. Where rounding carries into a new leading digit the
/// result has one digit more than the precision.
pub open spec fn rounded(a: Dec, precision: int) -> Dec {
    let scale = a.scale + precision - digit_count(a.digits);
    if scale >= a.scale {
        Dec { digits: a.digits * pow(10, (scale - a.scale) as nat), scale }
    } else {
        Dec { digits: half_even(a.digits, pow(10, (a.scale - scale) as nat)), scale }
    }
}

/// Rounding half to even moves a number by at most half a unit.
pub proof fn lemma_half_even_nearest(d: int, unit: int)
    requires
        unit > 0,
    ensures
        2 * abs(d - half_even(d, unit) * unit) <= unit,
{
    let a = abs(d);
    let whole = a / unit;
    let rest = a % unit;
    lemma_fundamental_div_mod(a, unit);
    lemma_mod_pos_bound(a, unit);
    let up = 2 * rest > unit || (2 * rest == unit && whole % 2 == 1);
    let nearest = if up {
        whole + 1
    } else {
        whole
    };
    let moved = a - nearest * unit;
    assert(moved == if up {
        rest - unit
    } else {
        rest
    }) by (nonlinear_arith)
        requires
            moved == a - nearest * unit,
            a == unit * whole + rest,
            nearest == if up {
                whole + 1
            } else {
                whole
            },
    ;
    assert(2 * abs(moved) <= unit);
    let rounded = half_even(d, unit);
    assert(d - rounded * unit == if d < 0 {
        -moved
    } else {
        moved
    }) by (nonlinear_arith)
        requires
            moved == a - nearest * unit,
            a == if d < 0 {
                -d
            } else {
                d
            },
            rounded == if d < 0 {
                -nearest
            } else {
                nearest
            },
    ;
}

/// `BigDecimal::new`: the decimal with the given digits and scale.
#[verifier::external_body]
pub(crate) fn dec_new(digits: BigInt, scale: i64) -> (r: BigDecimal)
    ensures
        dec_repr(r) == (Dec { digits: int_value(digits), scale: scale as int }),
{
    BigDecimal::new(digits, scale)
}

/// `BigDecimal::as_bigint_and_exponent`: copies of the digits and the scale.
#[verifier::external_body]
pub(crate) fn dec_parts(a: &BigDecimal) -> (r: (BigInt, i64))
    ensures
        int_value(r.0) == dec_repr(*a).digits,
        r.1 == dec_repr(*a).scale,
{
    a.as_bigint_and_exponent()
}

/// `Clone::clone` of a `BigDecimal`: the same digits and scale.
pub assume_specification[ <BigDecimal as Clone>::clone ](a: &BigDecimal) -> (r: BigDecimal)
    ensures
        dec_repr(r) == dec_repr(*a),
;

/// Whether the digits of `a` are zero.
pub(crate) fn dec_is_zero(a: &BigDecimal) -> (r: bool)
    ensures
        r == (dec_repr(*a).digits == 0),
{
    let (digits, _) = dec_parts(a);
    int_is_zero(&digits)
}

/// Whether the digits of `a` are negative.
pub(crate) fn dec_is_negative(a: &BigDecimal) -> (r: bool)
    ensures
        r == (dec_repr(*a).digits < 0),
{
    let (digits, _) = dec_parts(a);
    int_is_negative(&digits)
}

/// `Neg::neg` of a `BigDecimal`: the digits change sign, the scale stays.
#[verifier::external_body]
pub(crate) fn dec_neg(a: BigDecimal) -> (r: BigDecimal)
    ensures
        dec_repr(r) == negated(dec_repr(a)),
{
    -a
}

/// `BigDecimal + BigDecimal`: both operands are brought to the finer scale
/// and their digits added.
#[verifier::external_body]
pub(crate) fn dec_add(a: BigDecimal, b: BigDecimal) -> (r: BigDecimal)
    requires
        within(dec_repr(a), WORK_SCALE as int),
        within(dec_repr(b), WORK_SCALE as int),
    ensures
        dec_repr(r) == exact_sum(dec_repr(a), dec_repr(b)),
{
    a + b
}

/// `BigDecimal - BigDecimal`: a zero operand leaves the other as it is
/// (negated on the right); else both are brought to the finer scale and
/// their digits subtracted.
#[verifier::external_body]
pub(crate) fn dec_sub(a: BigDecimal, b: BigDecimal) -> (r: BigDecimal)
    requires
        within(dec_repr(a), WORK_SCALE as int),
        within(dec_repr(b), WORK_SCALE as int),
    ensures
        dec_repr(r) == exact_difference(dec_repr(a), dec_repr(b)),
{
    a - b
}

/// `BigDecimal *= &BigDecimal`: the digits are multiplied and the scales added.
#[verifier::external_body]
pub(crate) fn dec_mul(a: BigDecimal, b: &BigDecimal) -> (r: BigDecimal)
    requires
        within(dec_repr(a), WORK_SCALE as int),
        within(dec_repr(*b), WORK_SCALE as int),
    ensures
        dec_repr(r) == exact_product(dec_repr(a), dec_repr(*b)),
{
    let mut r = a;
    r *= b;
    r
}

/// `&BigDecimal / &BigDecimal`, which panics on a zero divisor and rounds to
/// the crate's default precision of one hundred digits; a zero dividend is
/// returned as it is. The division starts at the difference of the scales
/// and raises the scale by one for each digit that it shifts the dividend
/// to reach the divisor, which are no more than the divisor has, and for
/// each further digit of the quotient, which are fewer than the precision.
#[verifier::external_body]
pub(crate) fn dec_div(a: &BigDecimal, b: &BigDecimal) -> (r: BigDecimal)
    requires
        dec_repr(*b).digits != 0,
        within(dec_repr(*a), WORK_SCALE as int),
        within(dec_repr(*b), WORK_SCALE as int),
    ensures
        dec_repr(r) == (if dec_repr(*a).digits == 0 {
            dec_repr(*a)
        } else {
            dec_quotient(dec_repr(*a), dec_repr(*b))
        }),
        dec_repr(*a).digits != 0 ==> dec_repr(*a).scale - dec_repr(*b).scale <= dec_repr(r).scale
            <= dec_repr(*a).scale - dec_repr(*b).scale + digit_count(dec_repr(*b).digits) + 100,
{
    a / b
}

/// `PartialOrd::gt` of two `BigDecimal`s: numeric order.
#[verifier::external_body]
pub(crate) fn dec_gt(a: &BigDecimal, b: &BigDecimal) -> (r: bool)
    requires
        within(dec_repr(*a), WORK_SCALE as int),
        within(dec_repr(*b), WORK_SCALE as int),
    ensures
        r == less_than(dec_repr(*b), dec_repr(*a)),
{
    a > b
}

/// `BigDecimal::with_scale_round` to scale zero with `RoundingMode::Down`:
/// the integer part, at scale zero.
#[verifier::external_body]
pub(crate) fn dec_trunc(a: &BigDecimal) -> (r: BigDecimal)
    requires
        within(dec_repr(*a), WORK_SCALE as int),
    ensures
        dec_repr(r) == (Dec { digits: integer_part(dec_repr(*a)), scale: 0 }),
{
    a.with_scale_round(0, RoundingMode::Down)
}

/// `BigDecimal::with_precision_round` with `RoundingMode::HalfEven`, which
/// panics where the new scale does not fit: the scale is moved by the
/// precision less the number of digits, and the digits are rounded half to
/// even or filled with zeros.
#[verifier::external_body]
pub(crate) fn dec_round(a: &BigDecimal, precision: u32) -> (r: BigDecimal)
    requires
        1 <= precision <= MAX_DIGITS,
        within(dec_repr(*a), WORK_SCALE as int),
    ensures
        dec_repr(r) == rounded(dec_repr(*a), precision as int),
{
    a.with_precision_round(NonZeroU64::new(precision as u64).unwrap(), RoundingMode::HalfEven)
}

/// Whether the scale of `a` has magnitude at most `bound`.
pub(crate) fn scale_within(a: &BigDecimal, bound: i64) -> (r: bool)
    requires
        bound >= 0,
    ensures
        r == within(dec_repr(*a), bound as int),
{
    let (_, scale) = dec_parts(a);
    -bound <= scale && scale <= bound
}

/// What `Decimal::rounded` stores for a raw result: the raw decimal rounded
/// to the precision, where the precision, the raw scale and the rounded
/// scale are in range.
pub open spec fn stored(raw: Dec, precision: int) -> Option<Dec> {
    if 1 <= precision <= MAX_DIGITS && within(raw, WORK_SCALE as int) && within(
        rounded(raw, precision),
        MAX_SCALE as int,
    ) {
        Some(rounded(raw, precision))
    } else {
        None
    }
}

/// A decimal number whose scale is within `MAX_SCALE`.
#[derive(Debug)]
pub struct Decimal {
    inner: BigDecimal,
}

impl Decimal {
    #[verifier::type_invariant]
    spec fn in_range(self) -> bool {
        within(dec_repr(self.inner), MAX_SCALE as int)
    }

    /// The digits and scale of this decimal.
    pub closed spec fn view(&self) -> Dec {
        dec_repr(self.inner)
    }

    /// Takes a decimal as it is; `None` exactly when its scale is out of range.
    pub fn new(raw: BigDecimal) -> (r: Option<Decimal>)
        ensures
            r is Some <==> within(dec_repr(raw), MAX_SCALE as int),
            r matches Some(d) ==> d@ == dec_repr(raw),
    {
        if scale_within(&raw, MAX_SCALE) {
            Some(Decimal { inner: raw })
        } else {
            None
        }
    }

    /// Rounds a raw result to `precision` significant digits, half to even;
    /// `None` where the precision is zero or above `MAX_DIGITS`, or the raw
    /// or the rounded scale is out of range.
    pub fn rounded(raw: &BigDecimal, precision: u32) -> (r: Option<Decimal>)
        ensures
            match r {
                Some(d) => stored(dec_repr(*raw), precision as int) == Some(d@),
                None => stored(dec_repr(*raw), precision as int) is None,
            },
    {
        if precision < 1 || precision > MAX_DIGITS || !scale_within(raw, WORK_SCALE) {
            return None;
        }
        let r = dec_round(raw, precision);
        Decimal::new(r)
    }

    /// A copy of the number as the decimal crate holds it.
    pub fn to_raw(&self) -> (r: BigDecimal)
        ensures
            dec_repr(r) == self@,
            within(self@, MAX_SCALE as int),
    {
        proof {
            use_type_invariant(self);
        }
        self.inner.clone()
    }

    /// Whether this decimal is zero, at whatever scale.
    pub fn is_zero(&self) -> (r: bool)
        ensures
            r == (self@.digits == 0),
    {
        dec_is_zero(&self.inner)
    }

    /// Whether this decimal is below zero.
    pub fn is_negative(&self) -> (r: bool)
        ensures
            r == (self@.digits < 0),
    {
        dec_is_negative(&self.inner)
    }

    /// The decimal with the opposite sign and the same scale.
    pub fn neg(&self) -> (r: Decimal)
        ensures
            r@ == negated(self@),
    {
        proof {
            use_type_invariant(self);
        }
        Decimal { inner: dec_neg(self.inner.clone()) }
    }
}

} // verus!
