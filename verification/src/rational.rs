//! Exact rational numbers, always kept in lowest terms with a positive
//! denominator.
use crate::integer::{
    int_add, int_div, int_from_i128, int_is_negative, int_is_zero, int_mul, int_neg, int_rem,
    int_sub, int_text, int_to_text, int_value, trunc_div,
};
use bigdecimal::num_bigint::BigInt;
use vstd::arithmetic::div_mod::*;
use vstd::arithmetic::mul::*;
use vstd::prelude::*;

verus! {

/// The mathematical model of a fraction: numerator over denominator.
pub struct Ratio {
    pub num: int,
    pub den: int,
}

/// The magnitude of an integer.
pub open spec fn abs(x: int) -> int {
    if x < 0 {
        -x
    } else {
        x
    }
}

/// Greatest common divisor of two naturals; `gcd(0, 0)` is `0`.
pub open spec fn gcd(a: nat, b: nat) -> nat
    decreases b,
{
    if b == 0 {
        a
    } else {
        gcd(b, a % b)
    }
}

/// A fraction is in lowest terms when its denominator is positive and
/// shares no factor with its numerator.
pub open spec fn in_lowest_terms(r: Ratio) -> bool {
    r.den > 0 && gcd(abs(r.num) as nat, r.den as nat) == 1
}

/// The fraction `n / d` (with `d != 0`) brought to lowest terms.
pub open spec fn reduced(n: int, d: int) -> Ratio {
    let g = gcd(abs(n) as nat, abs(d) as nat) as int;
    if d > 0 {
        Ratio { num: trunc_div(n, g), den: d / g }
    } else {
        Ratio { num: trunc_div(-n, g), den: (-d) / g }
    }
}

/// The sum `a + b` in lowest terms.
pub open spec fn ratio_add(a: Ratio, b: Ratio) -> Ratio {
    reduced(a.num * b.den + b.num * a.den, a.den * b.den)
}

/// The difference `a - b` in lowest terms.
pub open spec fn ratio_sub(a: Ratio, b: Ratio) -> Ratio {
    reduced(a.num * b.den - b.num * a.den, a.den * b.den)
}

/// The product `a * b` in lowest terms.
pub open spec fn ratio_mul(a: Ratio, b: Ratio) -> Ratio {
    reduced(a.num * b.num, a.den * b.den)
}

/// The quotient `a / b`, meaningful when `b.num != 0`.
pub open spec fn ratio_div(a: Ratio, b: Ratio) -> Ratio {
    reduced(a.num * b.den, a.den * b.num)
}

/// The negation: the numerator changes sign.
pub open spec fn ratio_neg(a: Ratio) -> Ratio {
    Ratio { num: -a.num, den: a.den }
}

/// The gcd of two numbers that are not both zero is positive.
pub proof fn lemma_gcd_positive(a: nat, b: nat)
    requires
        a > 0 || b > 0,
    ensures
        gcd(a, b) > 0,
    decreases b,
{
    if b != 0 {
        lemma_gcd_positive(b, a % b);
    }
}

/// The gcd divides both of its arguments.
pub proof fn lemma_gcd_divides(a: nat, b: nat)
    requires
        a > 0 || b > 0,
    ensures
        gcd(a, b) > 0,
        (a as int) % (gcd(a, b) as int) == 0,
        (b as int) % (gcd(a, b) as int) == 0,
    decreases b,
{
    lemma_gcd_positive(a, b);
    let g = gcd(a, b) as int;
    if b == 0 {
        lemma_mod_self_0(a as int);
        assert(0int % g == 0) by {
            lemma_small_mod(0, g as nat);
        }
    } else {
        let r = a % b;
        lemma_gcd_divides(b, r);
        let q = (a as int) / (b as int);
        let x = (b as int) / g;
        let y = (r as int) / g;
        lemma_fundamental_div_mod(a as int, b as int);
        lemma_fundamental_div_mod(b as int, g);
        lemma_fundamental_div_mod(r as int, g);
        assert(b as int == g * x);
        assert(r as int == g * y);
        assert(a as int == (x * q + y) * g) by (nonlinear_arith)
            requires
                a as int == (b as int) * q + (r as int),
                b as int == g * x,
                r as int == g * y,
        ;
        lemma_mod_multiples_basic(x * q + y, g);
    }
}

/// Scaling both arguments scales the gcd.
pub proof fn lemma_gcd_scale(k: nat, a: nat, b: nat)
    requires
        k > 0,
    ensures
        gcd(k * a, k * b) == k * gcd(a, b),
    decreases b,
{
    if b == 0 {
        assert(k * b == 0) by (nonlinear_arith)
            requires
                b == 0,
        ;
    } else {
        lemma_truncate_middle(a as int, k as int, b as int);
        assert(k * b > 0);
        assert(((k * a) % (k * b)) as int == (k * (a % b)) as int);
        lemma_gcd_scale(k, b, a % b);
    }
}

/// Dividing two numbers by their gcd leaves them without a common factor.
pub proof fn lemma_gcd_quotients_coprime(a: nat, b: nat)
    requires
        a > 0 || b > 0,
    ensures
        gcd(a, b) > 0,
        gcd(a / gcd(a, b), b / gcd(a, b)) == 1,
        a == gcd(a, b) * (a / gcd(a, b)),
        b == gcd(a, b) * (b / gcd(a, b)),
{
    lemma_gcd_divides(a, b);
    let g = gcd(a, b);
    lemma_fundamental_div_mod(a as int, g as int);
    lemma_fundamental_div_mod(b as int, g as int);
    let x = a / g;
    let y = b / g;
    assert(a == g * x);
    assert(b == g * y);
    lemma_gcd_scale(g, x, y);
    assert(g * gcd(x, y) == g);
    assert(gcd(x, y) == 1) by (nonlinear_arith)
        requires
            g * gcd(x, y) == g,
            g > 0,
    ;
}

/// What `reduced` yields: a fraction in lowest terms that equals `n / d`.
pub proof fn lemma_reduced(n: int, d: int)
    requires
        d != 0,
    ensures
        in_lowest_terms(reduced(n, d)),
        reduced(n, d).num * d == n * reduced(n, d).den,
{
    let a = abs(n) as nat;
    let b = abs(d) as nat;
    lemma_gcd_quotients_coprime(a, b);
    let g = gcd(a, b) as int;
    let x = (a / (g as nat)) as int;
    let y = (b / (g as nat)) as int;
    let r = reduced(n, d);
    let m = if d > 0 { n } else { -n };
    assert(abs(m) == a);
    assert(r.den == y);
    assert(r.num == trunc_div(m, g));
    assert(y > 0) by (nonlinear_arith)
        requires
            b as int == g * y,
            b > 0,
            g > 0,
    ;
    if m >= 0 {
        assert(r.num == x);
    } else {
        assert(r.num == -x);
    }
    assert(abs(r.num) == x);
    assert(m == g * r.num) by (nonlinear_arith)
        requires
            a as int == g * x,
            (m >= 0 && m == a as int && r.num == x) || (m < 0 && m == -(a as int) && r.num == -x),
    ;
    assert(r.num * d == n * r.den) by (nonlinear_arith)
        requires
            m == g * r.num,
            abs(d) == g * r.den,
            (d > 0 && m == n) || (d < 0 && m == -n),
    ;
}

/// A fraction already in lowest terms is its own reduction.
pub proof fn lemma_reduced_fixed(r: Ratio)
    requires
        in_lowest_terms(r),
    ensures
        reduced(r.num, r.den) == r,
{
    assert(r.den / 1 == r.den);
    assert(abs(r.num) / 1 == abs(r.num));
}

/// An exact rational number.
#[derive(Debug)]
pub struct Rational {
    num: BigInt,
    den: BigInt,
}

/// Greatest common divisor of two non-negative integers, by Euclid's algorithm.
fn gcd_of(a: BigInt, b: BigInt) -> (g: BigInt)
    requires
        int_value(a) >= 0,
        int_value(b) >= 0,
    ensures
        int_value(g) == gcd(int_value(a) as nat, int_value(b) as nat),
{
    let mut x = a;
    let mut y = b;
    while !int_is_zero(&y)
        invariant
            int_value(x) >= 0,
            int_value(y) >= 0,
            gcd(int_value(x) as nat, int_value(y) as nat) == gcd(
                int_value(a) as nat,
                int_value(b) as nat,
            ),
        decreases int_value(y),
    {
        let r = int_rem(&x, &y);
        proof {
            lemma_mod_pos_bound(int_value(x), int_value(y));
        }
        x = y;
        y = r;
    }
    x
}

impl Rational {
    #[verifier::type_invariant]
    spec fn well_formed(self) -> bool {
        in_lowest_terms(self@)
    }

    /// The fraction this value stands for.
    pub closed spec fn view(&self) -> Ratio {
        Ratio { num: int_value(self.num), den: int_value(self.den) }
    }

    /// The fraction `num / den` in lowest terms; `None` exactly when `den` is zero.
    pub fn new(num: BigInt, den: BigInt) -> (r: Option<Rational>)
        ensures
            r is Some <==> int_value(den) != 0,
            r matches Some(q) ==> q@ == reduced(int_value(num), int_value(den)) && in_lowest_terms(
                q@,
            ),
    {
        if int_is_zero(&den) {
            return None;
        }
        let negative = int_is_negative(&den);
        let n = if negative { int_neg(num) } else { num };
        let d = if negative { int_neg(den) } else { den };
        let n_abs = if int_is_negative(&n) { int_neg(n.clone()) } else { n.clone() };
        let g = gcd_of(n_abs, d.clone());
        proof {
            lemma_gcd_positive(abs(int_value(num)) as nat, abs(int_value(den)) as nat);
            lemma_reduced(int_value(num), int_value(den));
        }
        let rn = int_div(&n, &g);
        let rd = int_div(&d, &g);
        Some(Rational { num: rn, den: rd })
    }

    /// The integer `n` as a fraction with denominator one.
    pub fn from_integer(n: BigInt) -> (r: Rational)
        ensures
            r@ == (Ratio { num: int_value(n), den: 1 }),
            in_lowest_terms(r@),
    {
        let one = int_from_i128(1);
        proof {
            let a = abs(int_value(n)) as nat;
            assert(a % 1 == 0);
            assert(gcd(1, 0) == 1);
            assert(gcd(a, 1) == gcd(1, a % 1));
        }
        Rational { num: n, den: one }
    }

    /// A copy of the numerator.
    pub fn numer(&self) -> (r: BigInt)
        ensures
            int_value(r) == self@.num,
            in_lowest_terms(self@),
    {
        proof {
            use_type_invariant(self);
        }
        self.num.clone()
    }

    /// A copy of the denominator.
    pub fn denom(&self) -> (r: BigInt)
        ensures
            int_value(r) == self@.den,
            in_lowest_terms(self@),
    {
        proof {
            use_type_invariant(self);
        }
        self.den.clone()
    }

    /// Whether this value is zero.
    pub fn is_zero(&self) -> (r: bool)
        ensures
            r == (self@.num == 0),
    {
        int_is_zero(&self.num)
    }

    /// Whether the denominator is one.
    pub fn is_integer(&self) -> (r: bool)
        ensures
            r == (self@.den == 1),
    {
        let one = int_from_i128(1);
        int_is_zero(&int_sub(&self.den, &one))
    }

    /// The sum, in lowest terms.
    pub fn add(&self, other: &Rational) -> (r: Rational)
        ensures
            r@ == ratio_add(self@, other@),
            in_lowest_terms(r@),
    {
        proof {
            use_type_invariant(self);
            use_type_invariant(other);
            lemma_mul_strictly_positive(self@.den, other@.den);
        }
        let left = int_mul(&self.num, &other.den);
        let right = int_mul(&other.num, &self.den);
        let n = int_add(&left, &right);
        let d = int_mul(&self.den, &other.den);
        match Rational::new(n, d) {
            Some(r) => r,
            None => Rational::from_integer(int_from_i128(0)),
        }
    }

    /// The difference, in lowest terms.
    pub fn sub(&self, other: &Rational) -> (r: Rational)
        ensures
            r@ == ratio_sub(self@, other@),
            in_lowest_terms(r@),
    {
        proof {
            use_type_invariant(self);
            use_type_invariant(other);
            lemma_mul_strictly_positive(self@.den, other@.den);
        }
        let left = int_mul(&self.num, &other.den);
        let right = int_mul(&other.num, &self.den);
        let n = int_sub(&left, &right);
        let d = int_mul(&self.den, &other.den);
        match Rational::new(n, d) {
            Some(r) => r,
            None => Rational::from_integer(int_from_i128(0)),
        }
    }

    /// The product, in lowest terms.
    pub fn mul(&self, other: &Rational) -> (r: Rational)
        ensures
            r@ == ratio_mul(self@, other@),
            in_lowest_terms(r@),
    {
        proof {
            use_type_invariant(self);
            use_type_invariant(other);
            lemma_mul_strictly_positive(self@.den, other@.den);
        }
        let n = int_mul(&self.num, &other.num);
        let d = int_mul(&self.den, &other.den);
        match Rational::new(n, d) {
            Some(r) => r,
            None => Rational::from_integer(int_from_i128(0)),
        }
    }

    /// The quotient `self / other`; `None` exactly when `other` is zero.
    pub fn div(&self, other: &Rational) -> (r: Option<Rational>)
        ensures
            r is Some <==> other@.num != 0,
            r matches Some(q) ==> q@ == ratio_div(self@, other@) && in_lowest_terms(q@),
    {
        proof {
            use_type_invariant(self);
            use_type_invariant(other);
            if other@.num != 0 {
                assert(self@.den * other@.num != 0) by (nonlinear_arith)
                    requires
                        self@.den > 0,
                        other@.num != 0,
                ;
            } else {
                assert(self@.den * other@.num == 0) by (nonlinear_arith)
                    requires
                        other@.num == 0,
                ;
            }
        }
        let n = int_mul(&self.num, &other.den);
        let d = int_mul(&self.den, &other.num);
        Rational::new(n, d)
    }

    /// The negation: the numerator changes sign.
    pub fn neg(&self) -> (r: Rational)
        ensures
            r@ == ratio_neg(self@),
            in_lowest_terms(r@),
    {
        proof {
            use_type_invariant(self);
        }
        Rational { num: int_neg(self.num.clone()), den: self.den.clone() }
    }

    /// The text of the fraction: `n` for an integer, else `n/d`.
    pub fn to_text(&self) -> (r: String)
        ensures
            r@ == ratio_text(self@),
    {
        let mut out = int_to_text(&self.num);
        if !self.is_integer() {
            out.append("/");
            let d = int_to_text(&self.den);
            out.append(d.as_str());
        }
        out
    }
}

/// How a fraction is written: the bare numerator when the denominator is one,
/// else numerator, a slash, denominator.
pub open spec fn ratio_text(r: Ratio) -> Seq<char> {
    if r.den == 1 {
        int_text(r.num)
    } else {
        int_text(r.num) + "/"@ + int_text(r.den)
    }
}

} // verus!
