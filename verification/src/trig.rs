//! The sine of a decimal, by range reduction and two fixed polynomials.
//!
//! The polynomials have a fixed number of terms, so the accuracy of the
//! result is bounded by them (about twenty digits) however many digits the
//! argument carries.
use crate::decimal::{
    dec_add, dec_div, dec_gt, dec_is_negative, dec_mul, dec_neg, dec_new, dec_parts,
    dec_repr, dec_sub, dec_trunc, digit_count, exact_difference, exact_product, exact_sum,
    integer_part, less_than, max, negated, quotient, scale_within, scaled, within, Dec,
    MAX_SCALE, WORK_SCALE,
};
use crate::integer::{int_add, int_from_i128, int_is_zero, int_mul, int_rem, int_value, nat_text};
use bigdecimal::num_bigint::BigInt;
use bigdecimal::BigDecimal;
use vstd::arithmetic::power::{lemma_pow0, lemma_pow1, lemma_pow_adds, lemma_pow_positive, pow};
use vstd::prelude::*;

verus! {

/// Pi to one hundred significant digits.
pub open spec fn pi() -> Dec {
    Dec {
        digits: 3141592653589793238462643383279502884197169399375105820974944592307816406286208998628034825342117068int,
        scale: 99,
    }
}

/// Pi over two to one hundred significant digits.
pub open spec fn half_pi() -> Dec {
    Dec {
        digits: 1570796326794896619231321691639751442098584699687552910487472296153908203143104499314017412671058534int,
        scale: 99,
    }
}

/// Pi over four to one hundred significant digits.
pub open spec fn quarter_pi() -> Dec {
    Dec {
        digits: 7853981633974483096156608458198757210492923498437764552437361480769541015715522496570087063355292670int,
        scale: 100,
    }
}

/// Coefficients of the sine polynomial for `x^3, x^5, ..`; that of `x` is one.
pub open spec fn sin_coefficients() -> Seq<Dec> {
    seq![
        Dec { digits: -16666666666666666667, scale: 20 },
        Dec { digits: 83333333333333333330, scale: 22 },
        Dec { digits: -19841269841269840864, scale: 23 },
        Dec { digits: 27557319223985653805, scale: 25 },
        Dec { digits: -25052108385359014909, scale: 27 },
        Dec { digits: 16059043818789573688, scale: 29 },
        Dec { digits: -76471612574465163742, scale: 32 },
        Dec { digits: 28112496468372364173, scale: 34 },
        Dec { digits: -81233245813335029845, scale: 37 },
    ]
}

/// Coefficients of the cosine polynomial for `x^2, x^4, ..`; the constant term is one.
pub open spec fn cos_coefficients() -> Seq<Dec> {
    seq![
        Dec { digits: -50000000000000000000, scale: 20 },
        Dec { digits: 41666666666666666667, scale: 21 },
        Dec { digits: -13888888888888888888, scale: 22 },
        Dec { digits: 24801587301587301080, scale: 24 },
        Dec { digits: -27557319223985653805, scale: 26 },
        Dec { digits: 20876756987799179091, scale: 28 },
        Dec { digits: -11470745584849695492, scale: 30 },
        Dec { digits: 47794757859040727339, scale: 33 },
        Dec { digits: -15618053593540202318, scale: 35 },
        Dec { digits: 40616622906667514923, scale: 38 },
    ]
}

/// The running sum of a polynomial in `x^2`: each coefficient in turn
/// multiplies the next power, and the term is added to the sum.
pub open spec fn series(square: Dec, power: Dec, sum: Dec, coefficients: Seq<Dec>) -> Dec
    decreases coefficients.len(),
{
    if coefficients.len() == 0 {
        sum
    } else {
        let next = exact_product(power, square);
        series(
            square,
            next,
            exact_sum(sum, exact_product(coefficients[0], next)),
            coefficients.drop_first(),
        )
    }
}

/// The sine polynomial at `x`: `x - x^3/6 + ..` with the fixed coefficients.
pub open spec fn sin_polynomial(x: Dec) -> Dec {
    series(exact_product(x, x), x, x, sin_coefficients())
}

/// The cosine polynomial at `x`: `1 - x^2/2 + ..` with the fixed coefficients.
pub open spec fn cos_polynomial(x: Dec) -> Dec {
    let one = Dec { digits: 1, scale: 0 };
    series(exact_product(x, x), one, one, cos_coefficients())
}

/// The argument reduced by whole multiples of pi, for a non-negative `x`
/// and the integer part `k` of `x / pi`.
pub open spec fn reduced_argument(x: Dec, k: int) -> Dec {
    exact_difference(x, exact_product(pi(), Dec { digits: k, scale: 0 }))
}

/// The value of the sine on `[0, pi]`: the upper half folds onto the lower,
/// which is split at pi over four between the two polynomials.
pub open spec fn sin_on_half_turn(r: Dec) -> Dec {
    let folded = if less_than(half_pi(), r) {
        exact_difference(pi(), r)
    } else {
        r
    };
    if less_than(quarter_pi(), folded) {
        cos_polynomial(exact_difference(half_pi(), folded))
    } else {
        sin_polynomial(folded)
    }
}

/// The sine of a number of magnitude `magnitude`, negative or not, whose
/// quotient by pi is `turns`: `None` where the scale of `turns` is out of
/// range; else the polynomial value of the magnitude less the whole
/// multiples of pi, with the sign that the sign of the number and the
/// parity of the multiple give.
pub open spec fn sin_given_turns_model(magnitude: Dec, negative: bool, turns: Dec) -> Option<Dec> {
    if !within(turns, WORK_SCALE as int) {
        None
    } else {
        let k = integer_part(turns);
        let value = sin_on_half_turn(reduced_argument(magnitude, k));
        if negative != (k % 2 != 0) {
            Some(negated(value))
        } else {
            Some(value)
        }
    }
}

/// What `sin` computes: `None` where the argument's scale, or that of its
/// quotient by pi, is out of range; else the sine of its magnitude and
/// sign, given the quotient of the magnitude by pi.
pub open spec fn sin_model(x: Dec) -> Option<Dec> {
    let negative = x.digits < 0;
    let magnitude = if negative {
        negated(x)
    } else {
        x
    };
    if !within(x, MAX_SCALE as int) {
        None
    } else {
        sin_given_turns_model(magnitude, negative, quotient(magnitude, pi()))
    }
}

/// A polynomial whose running power and sum are zero stays zero.
pub proof fn lemma_series_zero(square: Dec, power: Dec, sum: Dec, coefficients: Seq<Dec>)
    requires
        power.digits == 0,
        sum.digits == 0,
    ensures
        series(square, power, sum, coefficients).digits == 0,
    decreases coefficients.len(),
{
    if coefficients.len() > 0 {
        let next = exact_product(power, square);
        assert(next.digits == 0) by (nonlinear_arith)
            requires
                next.digits == power.digits * square.digits,
                power.digits == 0,
        ;
        let term = exact_product(coefficients[0], next);
        assert(term.digits == 0) by (nonlinear_arith)
            requires
                term.digits == coefficients[0].digits * next.digits,
                next.digits == 0,
        ;
        let total = exact_sum(sum, term);
        let m = max(sum.scale, term.scale);
        assert(total.digits == 0) by (nonlinear_arith)
            requires
                total.digits == sum.digits * pow(10, (m - sum.scale) as nat) + term.digits * pow(
                    10,
                    (m - term.scale) as nat,
                ),
                sum.digits == 0,
                term.digits == 0,
        ;
        lemma_series_zero(square, next, total, coefficients.drop_first());
    }
}

/// A positive number is not below zero: no zero is greater than it.
proof fn lemma_zero_not_greater(a: Dec, z: Dec)
    requires
        a.digits > 0,
        z.digits == 0,
    ensures
        !less_than(a, z),
{
    let m = max(a.scale, z.scale);
    lemma_pow_positive(10, (m - a.scale) as nat);
    let pa = pow(10, (m - a.scale) as nat);
    let pz = pow(10, (m - z.scale) as nat);
    assert(scaled(a, m) > 0) by (nonlinear_arith)
        requires
            scaled(a, m) == a.digits * pa,
            a.digits > 0,
            pa > 0,
    ;
    assert(scaled(z, m) == 0) by (nonlinear_arith)
        requires
            scaled(z, m) == z.digits * pz,
            z.digits == 0,
    ;
}

/// The sine of zero is zero, exactly.
pub proof fn lemma_sin_zero(x: Dec)
    requires
        x.digits == 0,
        within(x, MAX_SCALE as int),
    ensures
        sin_model(x) matches Some(v) && v.digits == 0,
{
    assert(quotient(x, pi()) == x);
    assert(integer_part(x) == 0) by {
        if x.scale <= 0 {
            assert(x.digits * pow(10, (-x.scale) as nat) == 0) by (nonlinear_arith)
                requires
                    x.digits == 0,
            ;
        } else {
            lemma_pow_positive(10, x.scale as nat);
            vstd::arithmetic::div_mod::lemma_div_of0(pow(10, x.scale as nat));
        }
    }
    let shift = exact_product(pi(), Dec { digits: 0, scale: 0 });
    assert(shift.digits == 0) by (nonlinear_arith)
        requires
            shift.digits == pi().digits * 0,
    ;
    assert(reduced_argument(x, 0) == x);
    lemma_zero_not_greater(half_pi(), x);
    lemma_zero_not_greater(quarter_pi(), x);
    let square = exact_product(x, x);
    lemma_series_zero(square, x, x, sin_coefficients());
    assert(sin_on_half_turn(x) == sin_polynomial(x));
}

/// The sine is odd: negating the argument negates the result, exactly.
pub proof fn lemma_sin_odd(x: Dec)
    ensures
        sin_model(negated(x)) == match sin_model(x) {
            Some(v) => Some(negated(v)),
            None => None,
        },
{
    if x.digits == 0 {
        assert(negated(x) == x);
        if within(x, MAX_SCALE as int) {
            lemma_sin_zero(x);
            let v = sin_model(x)->Some_0;
            assert(negated(v) == v);
        }
    } else {
        assert(negated(negated(x)) == x);
        let magnitude = if x.digits < 0 {
            negated(x)
        } else {
            x
        };
        let turns = quotient(magnitude, pi());
        if within(x, MAX_SCALE as int) && within(turns, WORK_SCALE as int) {
            let k = integer_part(turns);
            let value = sin_on_half_turn(reduced_argument(magnitude, k));
            assert(negated(negated(value)) == value);
        }
    }
}

/// A decimal that denotes the number one: a power of ten at the scale of
/// the same power.
pub open spec fn denotes_one(d: Dec) -> bool {
    d.scale >= 0 && d.digits == pow(10, d.scale as nat)
}

/// A polynomial in the square zero is its constant term: a running sum
/// that denotes one goes on denoting one.
pub proof fn lemma_series_of_zero_square(
    square: Dec,
    power: Dec,
    sum: Dec,
    coefficients: Seq<Dec>,
)
    requires
        square.digits == 0,
        denotes_one(sum),
    ensures
        denotes_one(series(square, power, sum, coefficients)),
    decreases coefficients.len(),
{
    if coefficients.len() > 0 {
        let next = exact_product(power, square);
        assert(next.digits == 0) by (nonlinear_arith)
            requires
                next.digits == power.digits * square.digits,
                square.digits == 0,
        ;
        let term = exact_product(coefficients[0], next);
        assert(term.digits == 0) by (nonlinear_arith)
            requires
                term.digits == coefficients[0].digits * next.digits,
                next.digits == 0,
        ;
        let total = exact_sum(sum, term);
        let m = max(sum.scale, term.scale);
        lemma_pow_adds(10, sum.scale as nat, (m - sum.scale) as nat);
        assert(total.digits == pow(10, m as nat)) by (nonlinear_arith)
            requires
                total.digits == sum.digits * pow(10, (m - sum.scale) as nat) + term.digits * pow(
                    10,
                    (m - term.scale) as nat,
                ),
                sum.digits == pow(10, sum.scale as nat),
                term.digits == 0,
                pow(10, m as nat) == pow(10, sum.scale as nat) * pow(10, (m - sum.scale) as nat),
        ;
        lemma_series_of_zero_square(square, next, total, coefficients.drop_first());
    }
}

/// The sine of pi over two, as the table holds it, is one, exactly: given
/// that the integer part of its quotient by pi is zero. Where `turns` is
/// the quotient that the division yields, this is what `sin` returns.
pub proof fn lemma_sin_of_half_pi(turns: Dec)
    requires
        within(turns, WORK_SCALE as int),
        integer_part(turns) == 0,
    ensures
        sin_given_turns_model(half_pi(), false, turns) matches Some(v) && denotes_one(v),
        turns == quotient(half_pi(), pi()) ==> (sin_model(half_pi()) matches Some(v)
            && denotes_one(v)),
{
    let none = exact_product(pi(), Dec { digits: 0, scale: 0 });
    assert(none.digits == 0) by (nonlinear_arith)
        requires
            none.digits == pi().digits * 0,
    ;
    assert(reduced_argument(half_pi(), 0) == half_pi());
    assert(!less_than(half_pi(), half_pi()));
    lemma_pow0(10);
    lemma_pow1(10);
    assert(scaled(quarter_pi(), 100) == quarter_pi().digits * 1);
    assert(scaled(half_pi(), 100) == half_pi().digits * 10);
    assert(less_than(quarter_pi(), half_pi()));
    let rest = exact_difference(half_pi(), half_pi());
    assert(rest.digits == 0);
    let square = exact_product(rest, rest);
    assert(square.digits == 0) by (nonlinear_arith)
        requires
            square.digits == rest.digits * rest.digits,
            rest.digits == 0,
    ;
    let one = Dec { digits: 1, scale: 0 };
    lemma_series_of_zero_square(square, one, one, cos_coefficients());
    assert(sin_on_half_turn(half_pi()) == cos_polynomial(rest));
}

/// The sine of pi, as the table holds it, is zero, exactly: given that
/// the integer part of its quotient by pi is one. Where `turns` is the
/// quotient that the division yields, this is what `sin` returns.
pub proof fn lemma_sin_of_pi(turns: Dec)
    requires
        within(turns, WORK_SCALE as int),
        integer_part(turns) == 1,
    ensures
        sin_given_turns_model(pi(), false, turns) matches Some(v) && v.digits == 0,
        turns == quotient(pi(), pi()) ==> (sin_model(pi()) matches Some(v) && v.digits == 0),
{
    let once = exact_product(pi(), Dec { digits: 1, scale: 0 });
    assert(once == pi()) by {
        assert(pi().digits * 1 == pi().digits);
    }
    lemma_pow0(10);
    let rest = reduced_argument(pi(), 1);
    assert(rest == exact_difference(pi(), pi()));
    assert(rest.digits == 0);
    lemma_zero_not_greater(half_pi(), rest);
    lemma_zero_not_greater(quarter_pi(), rest);
    let square = exact_product(rest, rest);
    lemma_series_zero(square, rest, rest, sin_coefficients());
    assert(sin_on_half_turn(rest) == sin_polynomial(rest));
}

/// A natural number below the `k`-th power of ten has at most `k` digits.
proof fn lemma_digit_count_at_most(n: nat, k: nat)
    requires
        k >= 1,
        n < pow(10, k),
    ensures
        nat_text(n).len() <= k,
    decreases k,
{
    if n >= 10 {
        lemma_pow1(10);
        lemma_pow_adds(10, 1, (k - 1) as nat);
        assert(pow(10, k) == 10 * pow(10, (k - 1) as nat));
        assert(k >= 2);
        lemma_digit_count_at_most(n / 10, (k - 1) as nat);
    }
}

/// Pi, as the table holds it, has no more than one hundred digits.
proof fn lemma_pi_digit_count()
    ensures
        digit_count(pi().digits) <= 100,
{
    lemma_pow1(10);
    let p1 = pow(10, 1);
    let p2 = pow(10, 2);
    let p4 = pow(10, 4);
    let p8 = pow(10, 8);
    let p16 = pow(10, 16);
    let p32 = pow(10, 32);
    let p64 = pow(10, 64);
    let p96 = pow(10, 96);
    let p100 = pow(10, 100);
    lemma_pow_adds(10, 1, 1);
    lemma_pow_adds(10, 2, 2);
    lemma_pow_adds(10, 4, 4);
    lemma_pow_adds(10, 8, 8);
    lemma_pow_adds(10, 16, 16);
    lemma_pow_adds(10, 32, 32);
    lemma_pow_adds(10, 64, 32);
    lemma_pow_adds(10, 96, 4);
    assert(p2 == 100) by (nonlinear_arith)
        requires
            p2 == p1 * p1,
            p1 == 10,
    ;
    assert(p4 == 10000) by (nonlinear_arith)
        requires
            p4 == p2 * p2,
            p2 == 100,
    ;
    assert(p8 == 100000000) by (nonlinear_arith)
        requires
            p8 == p4 * p4,
            p4 == 10000,
    ;
    assert(p16 == 10000000000000000) by (nonlinear_arith)
        requires
            p16 == p8 * p8,
            p8 == 100000000,
    ;
    assert(p32 == 100000000000000000000000000000000) by (nonlinear_arith)
        requires
            p32 == p16 * p16,
            p16 == 10000000000000000,
    ;
    assert(p64 == 10000000000000000000000000000000000000000000000000000000000000000)
        by (nonlinear_arith)
        requires
            p64 == p32 * p32,
            p32 == 100000000000000000000000000000000,
    ;
    assert(p96 == 1000000000000000000000000000000000000000000000000000000000000000000000000000000000000000000000000)
        by (nonlinear_arith)
        requires
            p96 == p64 * p32,
            p64 == 10000000000000000000000000000000000000000000000000000000000000000,
            p32 == 100000000000000000000000000000000,
    ;
    assert(p100 == 10000000000000000000000000000000000000000000000000000000000000000000000000000000000000000000000000000)
        by (nonlinear_arith)
        requires
            p100 == p96 * p4,
            p4 == 10000,
            p96 == 1000000000000000000000000000000000000000000000000000000000000000000000000000000000000000000000000,
    ;
    lemma_digit_count_at_most(pi().digits as nat, 100);
}

/// The constants that a table holds.
pub struct Constants {
    pub pi: Dec,
    pub half_pi: Dec,
    pub quarter_pi: Dec,
    pub sin_coefficients: Seq<Dec>,
    pub cos_coefficients: Seq<Dec>,
}

/// The constants of the sine.
pub open spec fn constants() -> Constants {
    Constants {
        pi: pi(),
        half_pi: half_pi(),
        quarter_pi: quarter_pi(),
        sin_coefficients: sin_coefficients(),
        cos_coefficients: cos_coefficients(),
    }
}

/// Bound on the scales of the polynomial coefficients.
pub open spec fn small_scales(coefficients: Seq<Dec>) -> bool {
    forall|i: int| 0 <= i < coefficients.len() ==> 0 <= (#[trigger] coefficients[i]).scale <= 40
}

/// The constants of the sine: pi, its half and quarter, and the
/// coefficients of the two polynomials.
pub struct TrigTable {
    pi: BigDecimal,
    half_pi: BigDecimal,
    quarter_pi: BigDecimal,
    sin_coefficients: Vec<BigDecimal>,
    cos_coefficients: Vec<BigDecimal>,
}

/// The models of a vector of decimals.
pub open spec fn reprs(v: Seq<BigDecimal>) -> Seq<Dec> {
    Seq::new(v.len(), |i: int| dec_repr(v[i]))
}

/// The integer `((a * 10^30 + b) * 10^30 + c) * 10^10 + d`: one hundred
/// digits from four groups.
fn from_groups(a: i128, b: i128, c: i128, d: i128) -> (r: BigInt)
    ensures
        int_value(r) == ((a * 1000000000000000000000000000000 + b)
            * 1000000000000000000000000000000 + c) * 10000000000 + d,
{
    let thirty = int_from_i128(1000000000000000000000000000000);
    let ten = int_from_i128(10000000000);
    let mut r = int_from_i128(a);
    r = int_mul(&r, &thirty);
    r = int_add(&r, &int_from_i128(b));
    r = int_mul(&r, &thirty);
    r = int_add(&r, &int_from_i128(c));
    r = int_mul(&r, &ten);
    r = int_add(&r, &int_from_i128(d));
    r
}

fn constant(digits: i128, scale: i64) -> (r: BigDecimal)
    ensures
        dec_repr(r) == (Dec { digits: digits as int, scale: scale as int }),
{
    dec_new(int_from_i128(digits), scale)
}

impl TrigTable {
    #[verifier::type_invariant]
    spec fn holds_constants(self) -> bool {
        self@ == constants()
    }

    /// What the table holds.
    pub closed spec fn view(&self) -> Constants {
        Constants {
            pi: dec_repr(self.pi),
            half_pi: dec_repr(self.half_pi),
            quarter_pi: dec_repr(self.quarter_pi),
            sin_coefficients: reprs(self.sin_coefficients@),
            cos_coefficients: reprs(self.cos_coefficients@),
        }
    }

    /// Builds the table.
    pub fn new() -> (r: TrigTable)
        ensures
            r@ == constants(),
    {
        let pi = dec_new(
            from_groups(
                314159265358979323846264338327,
                950288419716939937510582097494,
                459230781640628620899862803482,
                5342117068,
            ),
            99,
        );
        let half_pi = dec_new(
            from_groups(
                157079632679489661923132169163,
                975144209858469968755291048747,
                229615390820314310449931401741,
                2671058534,
            ),
            99,
        );
        let quarter_pi = dec_new(
            from_groups(
                785398163397448309615660845819,
                875721049292349843776455243736,
                148076954101571552249657008706,
                3355292670,
            ),
            100,
        );
        let mut s: Vec<BigDecimal> = Vec::new();
        s.push(constant(-16666666666666666667, 20));
        s.push(constant(83333333333333333330, 22));
        s.push(constant(-19841269841269840864, 23));
        s.push(constant(27557319223985653805, 25));
        s.push(constant(-25052108385359014909, 27));
        s.push(constant(16059043818789573688, 29));
        s.push(constant(-76471612574465163742, 32));
        s.push(constant(28112496468372364173, 34));
        s.push(constant(-81233245813335029845, 37));
        let mut c: Vec<BigDecimal> = Vec::new();
        c.push(constant(-50000000000000000000, 20));
        c.push(constant(41666666666666666667, 21));
        c.push(constant(-13888888888888888888, 22));
        c.push(constant(24801587301587301080, 24));
        c.push(constant(-27557319223985653805, 26));
        c.push(constant(20876756987799179091, 28));
        c.push(constant(-11470745584849695492, 30));
        c.push(constant(47794757859040727339, 33));
        c.push(constant(-15618053593540202318, 35));
        c.push(constant(40616622906667514923, 38));
        assert(reprs(s@) =~= sin_coefficients());
        assert(reprs(c@) =~= cos_coefficients());
        TrigTable { pi, half_pi, quarter_pi, sin_coefficients: s, cos_coefficients: c }
    }

    /// A copy of pi.
    pub fn pi(&self) -> (r: BigDecimal)
        ensures
            dec_repr(r) == pi(),
    {
        proof {
            use_type_invariant(self);
        }
        self.pi.clone()
    }

    /// A copy of pi over two.
    pub fn pi_over_two(&self) -> (r: BigDecimal)
        ensures
            dec_repr(r) == half_pi(),
    {
        proof {
            use_type_invariant(self);
        }
        self.half_pi.clone()
    }

    /// A copy of pi over four.
    pub fn pi_over_four(&self) -> (r: BigDecimal)
        ensures
            dec_repr(r) == quarter_pi(),
    {
        proof {
            use_type_invariant(self);
        }
        self.quarter_pi.clone()
    }
}

/// Adds to `sum` the terms of a polynomial in `square`, starting above `power`.
fn accumulate(
    square: &BigDecimal,
    power: BigDecimal,
    sum: BigDecimal,
    coefficients: &Vec<BigDecimal>,
) -> (r: BigDecimal)
    requires
        within(dec_repr(*square), 2 * MAX_SCALE),
        within(dec_repr(power), MAX_SCALE as int),
        within(dec_repr(sum), MAX_SCALE as int),
        coefficients@.len() <= 10,
        small_scales(reprs(coefficients@)),
    ensures
        dec_repr(r) == series(
            dec_repr(*square),
            dec_repr(power),
            dec_repr(sum),
            reprs(coefficients@),
        ),
{
    let ghost all = reprs(coefficients@);
    let ghost first_power = dec_repr(power);
    let ghost first_sum = dec_repr(sum);
    let mut power = power;
    let mut sum = sum;
    let mut i: usize = 0;
    proof {
        assert(all.subrange(0, all.len() as int) =~= all);
    }
    while i < coefficients.len()
        invariant
            i <= coefficients@.len() <= 10,
            all == reprs(coefficients@),
            small_scales(all),
            within(dec_repr(*square), 2 * MAX_SCALE),
            within(dec_repr(power), (2 * i + 1) * MAX_SCALE),
            within(dec_repr(sum), (2 * i + 1) * MAX_SCALE + 40),
            series(
                dec_repr(*square),
                dec_repr(power),
                dec_repr(sum),
                all.subrange(i as int, all.len() as int),
            ) == series(dec_repr(*square), first_power, first_sum, all),
        decreases coefficients@.len() - i,
    {
        proof {
            let rest = all.subrange(i as int, all.len() as int);
            assert(rest.drop_first() =~= all.subrange(i + 1, all.len() as int));
            assert(rest[0] == all[i as int]);
            assert(all[i as int] == dec_repr(coefficients@[i as int]));
        }
        power = dec_mul(power, square);
        let term = dec_mul(coefficients[i].clone(), &power);
        sum = dec_add(sum, term);
        i = i + 1;
    }
    proof {
        assert(all.subrange(i as int, all.len() as int).len() == 0);
    }
    sum
}

/// The sine polynomial, meant for arguments in `[0, pi/4]`. The scale of
/// `x` must be within `MAX_SCALE`, so that those of its powers stay in the
/// range of the arithmetic.
pub fn sin_restricted(x: BigDecimal, table: &TrigTable) -> (r: BigDecimal)
    requires
        within(dec_repr(x), MAX_SCALE as int),
    ensures
        dec_repr(r) == sin_polynomial(dec_repr(x)),
{
    proof {
        use_type_invariant(table);
        assert(reprs(table.sin_coefficients@).len() == 9);
        assert(small_scales(sin_coefficients()));
    }
    let square = dec_mul(x.clone(), &x);
    let sum = x.clone();
    accumulate(&square, x, sum, &table.sin_coefficients)
}

/// The cosine polynomial, meant for arguments in `[0, pi/4]`. The scale of
/// `x` must be within `MAX_SCALE`, so that those of its powers stay in the
/// range of the arithmetic.
pub fn cos_restricted(x: BigDecimal, table: &TrigTable) -> (r: BigDecimal)
    requires
        within(dec_repr(x), MAX_SCALE as int),
    ensures
        dec_repr(r) == cos_polynomial(dec_repr(x)),
{
    proof {
        use_type_invariant(table);
        assert(reprs(table.cos_coefficients@).len() == 10);
        assert(small_scales(cos_coefficients()));
    }
    let square = dec_mul(x.clone(), &x);
    accumulate(&square, constant(1, 0), constant(1, 0), &table.cos_coefficients)
}

/// The sine of a number given by its magnitude and sign, where `turns` is
/// the quotient of the magnitude by pi.
///
/// The magnitude is reduced by the whole multiples of pi that `turns`
/// holds (an odd multiple flips the sign), the upper half of `[0, pi]` is
/// folded onto the lower, and one of two fixed polynomials gives the value.
/// The scale of the magnitude must be within `MAX_SCALE`; `None` is
/// returned where that of `turns` exceeds `WORK_SCALE`.
pub fn sin_given_turns(
    magnitude: BigDecimal,
    negative: bool,
    turns: &BigDecimal,
    table: &TrigTable,
) -> (r: Option<BigDecimal>)
    requires
        within(dec_repr(magnitude), MAX_SCALE as int),
    ensures
        match r {
            Some(v) => sin_given_turns_model(dec_repr(magnitude), negative, dec_repr(*turns))
                == Some(dec_repr(v)),
            None => sin_given_turns_model(dec_repr(magnitude), negative, dec_repr(*turns))
                is None,
        },
{
    proof {
        use_type_invariant(table);
    }
    if !scale_within(turns, WORK_SCALE) {
        return None;
    }
    let mut negative = negative;
    let whole = dec_trunc(turns);
    let (k, _) = dec_parts(&whole);
    let parity = int_rem(&k, &int_from_i128(2));
    if !int_is_zero(&parity) {
        negative = !negative;
    }
    let shift = dec_mul(table.pi.clone(), &whole);
    let mut reduced = dec_sub(magnitude, shift);
    if dec_gt(&reduced, &table.half_pi) {
        reduced = dec_sub(table.pi.clone(), reduced);
    }
    let value = if dec_gt(&reduced, &table.quarter_pi) {
        cos_restricted(dec_sub(table.half_pi.clone(), reduced), table)
    } else {
        sin_restricted(reduced, table)
    };
    if negative {
        Some(dec_neg(value))
    } else {
        Some(value)
    }
}

/// The sine of `x`.
///
/// The sign is set aside and the magnitude divided by pi; the rest is
/// `sin_given_turns`. `None` is returned exactly where the scale of `x`
/// exceeds `MAX_SCALE` in magnitude. The sine of zero is zero, exactly.
pub fn sin(x: BigDecimal, table: &TrigTable) -> (r: Option<BigDecimal>)
    ensures
        match r {
            Some(v) => sin_model(dec_repr(x)) == Some(dec_repr(v)),
            None => sin_model(dec_repr(x)) is None,
        },
        r is Some <==> within(dec_repr(x), MAX_SCALE as int),
        dec_repr(x).digits == 0 && within(dec_repr(x), MAX_SCALE as int) ==> r is Some
            && dec_repr(r->Some_0).digits == 0,
{
    proof {
        use_type_invariant(table);
        lemma_pi_digit_count();
        if dec_repr(x).digits == 0 && within(dec_repr(x), MAX_SCALE as int) {
            lemma_sin_zero(dec_repr(x));
        }
    }
    if !scale_within(&x, MAX_SCALE) {
        return None;
    }
    let negative = dec_is_negative(&x);
    let magnitude = if negative { dec_neg(x) } else { x };
    let turns = dec_div(&magnitude, &table.pi);
    sin_given_turns(magnitude, negative, &turns, table)
}

} // verus!
