//! Division that reports a zero divisor instead of failing.
use crate::decimal::{dec_div, dec_repr, quotient, Decimal};
use crate::rational::{in_lowest_terms, ratio_div, Rational};
use bigdecimal::BigDecimal;
use vstd::prelude::*;
use vstd::string::StringExecFns;

verus! {

/// The error of a division whose divisor is zero.
#[derive(Debug, Default, Clone, Copy, PartialEq, Eq, Structural)]
pub struct DivisionByZero;

impl DivisionByZero {
    /// The message of this error.
    pub fn message(&self) -> (r: String)
        ensures
            r@ == "disivion by zero"@,
    {
        String::from_str("disivion by zero")
    }
}

/// Division that fails on a zero divisor, and only on one.
pub trait CheckedDiv<T = Self>: Sized {
    type Target;

    /// Whether `other` is the zero of its representation.
    spec fn zero_divisor(other: &T) -> bool;

    /// The quotient `self / other`, or `DivisionByZero` exactly when
    /// `other` is zero.
    fn checked_div(self, other: T) -> (r: Result<Self::Target, DivisionByZero>)
        ensures
            r is Err <==> Self::zero_divisor(&other),
    ;
}

impl CheckedDiv for Rational {
    type Target = Rational;

    open spec fn zero_divisor(other: &Rational) -> bool {
        other@.num == 0
    }

    /// The exact quotient in lowest terms.
    fn checked_div(self, other: Rational) -> (r: Result<Rational, DivisionByZero>)
        ensures
            r matches Ok(q) ==> q@ == ratio_div(self@, other@) && in_lowest_terms(q@),
    {
        match self.div(&other) {
            Some(q) => Ok(q),
            None => Err(DivisionByZero),
        }
    }
}

impl CheckedDiv for Decimal {
    type Target = BigDecimal;

    open spec fn zero_divisor(other: &Decimal) -> bool {
        other@.digits == 0
    }

    /// The quotient as the decimal crate rounds it, not yet brought to any
    /// precision of the caller's.
    fn checked_div(self, other: Decimal) -> (r: Result<BigDecimal, DivisionByZero>)
        ensures
            r matches Ok(q) ==> dec_repr(q) == quotient(self@, other@),
    {
        if other.is_zero() {
            Err(DivisionByZero)
        } else {
            let a = self.to_raw();
            let b = other.to_raw();
            Ok(dec_div(&a, &b))
        }
    }
}

} // verus!
