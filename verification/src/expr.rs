//! Values, expressions and the evaluator that reduces them.
use crate::decimal::{
    dec_add, dec_div, dec_mul, dec_new, dec_repr, dec_sub, exact_difference, exact_product,
    exact_sum, negated, quotient, stored, Dec, Decimal, MAX_DIGITS,
};
use crate::div::CheckedDiv;
use crate::rational::{ratio_add, ratio_div, ratio_mul, ratio_neg, ratio_sub, Ratio, Rational};
use crate::trig::{sin, sin_model, TrigTable};
use bigdecimal::BigDecimal;
use vstd::prelude::*;
use vstd::string::StringExecFns;

verus! {

/// A number: an exact rational, or a decimal rounded to the evaluator's precision.
#[derive(Debug)]
pub enum Value {
    Exact(Rational),
    Decimal(Decimal),
}

/// The model of a `Value`.
pub enum Number {
    Exact(Ratio),
    Decimal(Dec),
}

/// Why an evaluation failed.
#[derive(Debug, Clone, Copy, PartialEq, Eq, Structural)]
pub enum EvalError {
    /// The divisor is the zero of its representation.
    DivisionByZero,
    /// An application that has no defined reduction.
    NotImplemented,
    /// A decimal whose scale left the supported range.
    OutOfRange,
}

impl EvalError {
    /// The message of this error.
    pub fn message(&self) -> (r: String)
        ensures
            r@ == match *self {
                EvalError::DivisionByZero => "disivion by zero"@,
                EvalError::NotImplemented => "not implemented"@,
                EvalError::OutOfRange => "decimal out of range"@,
            },
    {
        match self {
            EvalError::DivisionByZero => String::from_str("disivion by zero"),
            EvalError::NotImplemented => String::from_str("not implemented"),
            EvalError::OutOfRange => String::from_str("decimal out of range"),
        }
    }
}

/// The four binary operators.
#[derive(Debug, Clone, Copy, PartialEq, Eq, Structural)]
pub enum BinaryOp {
    Add,
    Sub,
    Mul,
    Div,
}

/// How results are rounded.
#[derive(Debug, Clone, Copy, PartialEq, Eq, Structural)]
pub enum Round {
    /// To the nearest representable decimal, ties to even.
    Nearest,
}

/// How many significant digits decimals carry.
#[derive(Debug, Clone, Copy, PartialEq, Eq, Structural)]
pub enum PrecisionMode {
    Decent,
}

impl PrecisionMode {
    /// The number of significant digits of this mode.
    pub open spec fn digits(self) -> int {
        match self {
            PrecisionMode::Decent => 100,
        }
    }

    /// The number of significant digits of this mode.
    pub fn precision(&self) -> (r: u32)
        ensures
            r == self.digits(),
    {
        match self {
            PrecisionMode::Decent => 100,
        }
    }
}

/// The decimal that stands for an exact value, rounded to the precision:
/// an integer is taken as it is, at scale zero; any other value is its
/// numerator divided by its denominator as decimals.
pub open spec fn promoted(q: Ratio, precision: int) -> Option<Dec> {
    if q.den == 1 {
        stored(Dec { digits: q.num, scale: 0 }, precision)
    } else {
        stored(
            quotient(Dec { digits: q.num, scale: 0 }, Dec { digits: q.den, scale: 0 }),
            precision,
        )
    }
}

/// Whether a number is the zero of its representation.
pub open spec fn number_is_zero(a: Number) -> bool {
    match a {
        Number::Exact(q) => q.num == 0,
        Number::Decimal(d) => d.digits == 0,
    }
}

/// An operation on two exact values: rational arithmetic, with a zero
/// divisor refused.
pub open spec fn exact_result(op: BinaryOp, a: Ratio, b: Ratio) -> Result<Ratio, EvalError> {
    match op {
        BinaryOp::Add => Ok(ratio_add(a, b)),
        BinaryOp::Sub => Ok(ratio_sub(a, b)),
        BinaryOp::Mul => Ok(ratio_mul(a, b)),
        BinaryOp::Div => if b.num == 0 {
            Err(EvalError::DivisionByZero)
        } else {
            Ok(ratio_div(a, b))
        },
    }
}

/// The result of an operation before it is rounded; `None` for a zero divisor.
pub open spec fn raw_decimal_result(op: BinaryOp, a: Dec, b: Dec) -> Option<Dec> {
    match op {
        BinaryOp::Add => Some(exact_sum(a, b)),
        BinaryOp::Sub => Some(exact_difference(a, b)),
        BinaryOp::Mul => Some(exact_product(a, b)),
        BinaryOp::Div => if b.digits == 0 {
            None
        } else {
            Some(quotient(a, b))
        },
    }
}

/// An operation on two decimals: a zero divisor is refused, and the result
/// is rounded to the precision, which fails where its scale is out of range.
pub open spec fn decimal_result(op: BinaryOp, a: Dec, b: Dec, precision: int) -> Result<
    Dec,
    EvalError,
> {
    match raw_decimal_result(op, a, b) {
        None => Err(EvalError::DivisionByZero),
        Some(raw) => match stored(raw, precision) {
            Some(d) => Ok(d),
            None => Err(EvalError::OutOfRange),
        },
    }
}

/// An operation on two numbers whose divisor, if it is a division, is not
/// zero. Two exact operands give an exact result; where either is a decimal
/// the other is promoted first and the result is a decimal.
pub open spec fn promoted_result(op: BinaryOp, a: Number, b: Number, precision: int) -> Result<
    Number,
    EvalError,
> {
    match (a, b) {
        (Number::Exact(x), Number::Exact(y)) => match exact_result(op, x, y) {
            Ok(q) => Ok(Number::Exact(q)),
            Err(e) => Err(e),
        },
        (Number::Decimal(x), Number::Exact(y)) => match promoted(y, precision) {
            Some(c) => match decimal_result(op, x, c, precision) {
                Ok(d) => Ok(Number::Decimal(d)),
                Err(e) => Err(e),
            },
            None => Err(EvalError::OutOfRange),
        },
        (Number::Exact(x), Number::Decimal(y)) => match promoted(x, precision) {
            Some(c) => match decimal_result(op, c, y, precision) {
                Ok(d) => Ok(Number::Decimal(d)),
                Err(e) => Err(e),
            },
            None => Err(EvalError::OutOfRange),
        },
        (Number::Decimal(x), Number::Decimal(y)) => match decimal_result(op, x, y, precision) {
            Ok(d) => Ok(Number::Decimal(d)),
            Err(e) => Err(e),
        },
    }
}

/// An operation on two numbers. A division by the zero of the divisor's
/// own representation is refused before anything else is done; every other
/// operation is carried out exactly on two exact operands, and on decimals
/// after a promotion where either operand is a decimal.
pub open spec fn number_result(op: BinaryOp, a: Number, b: Number, precision: int) -> Result<
    Number,
    EvalError,
> {
    if op == BinaryOp::Div && number_is_zero(b) {
        Err(EvalError::DivisionByZero)
    } else {
        promoted_result(op, a, b, precision)
    }
}

/// Negation keeps the representation.
pub open spec fn number_neg(a: Number) -> Number {
    match a {
        Number::Exact(q) => Number::Exact(ratio_neg(q)),
        Number::Decimal(d) => Number::Decimal(negated(d)),
    }
}

/// The model of a fallible result that holds a `Value`.
pub open spec fn value_outcome(r: Result<Value, EvalError>) -> Result<Number, EvalError> {
    match r {
        Ok(v) => Ok(v@),
        Err(e) => Err(e),
    }
}

/// The active precision and rounding, and the constants of the sine.
pub struct Evaluator {
    precision: PrecisionMode,
    table: TrigTable,
}

impl Default for Evaluator {
    fn default() -> (r: Evaluator)
        ensures
            r.digits() == PrecisionMode::Decent.digits(),
    {
        Evaluator { precision: PrecisionMode::Decent, table: TrigTable::new() }
    }
}

/// An operation on two exact values.
fn exact_op(a: Rational, b: Rational, op: BinaryOp) -> (r: Result<Rational, EvalError>)
    ensures
        match r {
            Ok(q) => exact_result(op, a@, b@) == Ok::<Ratio, EvalError>(q@),
            Err(e) => exact_result(op, a@, b@) == Err::<Ratio, EvalError>(e),
        },
{
    match op {
        BinaryOp::Add => Ok(a.add(&b)),
        BinaryOp::Sub => Ok(a.sub(&b)),
        BinaryOp::Mul => Ok(a.mul(&b)),
        BinaryOp::Div => match a.checked_div(b) {
            Ok(q) => Ok(q),
            Err(_) => Err(EvalError::DivisionByZero),
        },
    }
}

/// An operation on two decimals, rounded by the evaluator.
fn decimal_op(a: Decimal, b: Decimal, op: BinaryOp, evaluator: &Evaluator) -> (r: Result<
    Decimal,
    EvalError,
>)
    ensures
        match r {
            Ok(d) => decimal_result(op, a@, b@, evaluator.digits()) == Ok::<Dec, EvalError>(d@),
            Err(e) => decimal_result(op, a@, b@, evaluator.digits()) == Err::<Dec, EvalError>(e),
        },
{
    let raw = match op {
        BinaryOp::Add => dec_add(a.to_raw(), b.to_raw()),
        BinaryOp::Sub => dec_sub(a.to_raw(), b.to_raw()),
        BinaryOp::Mul => {
            let right = b.to_raw();
            dec_mul(a.to_raw(), &right)
        },
        BinaryOp::Div => match a.checked_div(b) {
            Ok(q) => q,
            Err(_) => {
                return Err(EvalError::DivisionByZero);
            },
        },
    };
    match evaluator.complete(&raw) {
        Some(d) => Ok(d),
        None => Err(EvalError::OutOfRange),
    }
}

/// Applies a binary operator to two values, promoting an exact operand
/// that meets a decimal one.
pub fn perform_op(a: Value, b: Value, op: BinaryOp, evaluator: &Evaluator) -> (r: Result<
    Value,
    EvalError,
>)
    ensures
        value_outcome(r) == number_result(op, a@, b@, evaluator.digits()),
{
    match op {
        BinaryOp::Div => {
            if b.is_zero() {
                return Err(EvalError::DivisionByZero);
            }
        },
        _ => {},
    }
    match (a, b) {
        (Value::Exact(x), Value::Exact(y)) => match exact_op(x, y, op) {
            Ok(q) => Ok(Value::Exact(q)),
            Err(e) => Err(e),
        },
        (Value::Decimal(x), Value::Exact(y)) => match evaluator.promote(&y) {
            Some(c) => match decimal_op(x, c, op, evaluator) {
                Ok(d) => Ok(Value::Decimal(d)),
                Err(e) => Err(e),
            },
            None => Err(EvalError::OutOfRange),
        },
        (Value::Exact(x), Value::Decimal(y)) => match evaluator.promote(&x) {
            Some(c) => match decimal_op(c, y, op, evaluator) {
                Ok(d) => Ok(Value::Decimal(d)),
                Err(e) => Err(e),
            },
            None => Err(EvalError::OutOfRange),
        },
        (Value::Decimal(x), Value::Decimal(y)) => match decimal_op(x, y, op, evaluator) {
            Ok(d) => Ok(Value::Decimal(d)),
            Err(e) => Err(e),
        },
    }
}

impl Value {
    /// The number this value holds.
    pub open spec fn view(&self) -> Number {
        match self {
            Value::Exact(q) => Number::Exact(q@),
            Value::Decimal(d) => Number::Decimal(d@),
        }
    }

    /// Whether this value is the zero of its representation.
    pub fn is_zero(&self) -> (r: bool)
        ensures
            r == number_is_zero(self@),
    {
        match self {
            Value::Exact(q) => q.is_zero(),
            Value::Decimal(d) => d.is_zero(),
        }
    }

    /// The sum of two values.
    pub fn add(self, other: Value, e: &Evaluator) -> (r: Result<Value, EvalError>)
        ensures
            value_outcome(r) == number_result(BinaryOp::Add, self@, other@, e.digits()),
    {
        perform_op(self, other, BinaryOp::Add, e)
    }

    /// The difference of two values.
    pub fn sub(self, other: Value, e: &Evaluator) -> (r: Result<Value, EvalError>)
        ensures
            value_outcome(r) == number_result(BinaryOp::Sub, self@, other@, e.digits()),
    {
        perform_op(self, other, BinaryOp::Sub, e)
    }

    /// The product of two values.
    pub fn mul(self, other: Value, e: &Evaluator) -> (r: Result<Value, EvalError>)
        ensures
            value_outcome(r) == number_result(BinaryOp::Mul, self@, other@, e.digits()),
    {
        perform_op(self, other, BinaryOp::Mul, e)
    }

    /// The quotient of two values; a zero divisor is refused.
    pub fn div(self, other: Value, e: &Evaluator) -> (r: Result<Value, EvalError>)
        ensures
            value_outcome(r) == number_result(BinaryOp::Div, self@, other@, e.digits()),
    {
        perform_op(self, other, BinaryOp::Div, e)
    }

    /// The negation, in the same representation.
    pub fn neg(self) -> (r: Value)
        ensures
            r@ == number_neg(self@),
    {
        match self {
            Value::Exact(q) => Value::Exact(q.neg()),
            Value::Decimal(d) => Value::Decimal(d.neg()),
        }
    }
}

/// An expression: a value, an unbound symbol, an operator applied to
/// expressions, or an application.
#[derive(Debug)]
pub enum Expr {
    Value(Value),
    Symbol(String),
    Add(Box<(Expr, Expr)>),
    Sub(Box<(Expr, Expr)>),
    Mul(Box<(Expr, Expr)>),
    Div(Box<(Expr, Expr)>),
    Neg(Box<Expr>),
    Apply(Box<Expr>, Vec<Expr>),
}

/// The model of an `Expr`.
pub enum Tree {
    Value(Number),
    Symbol(Seq<char>),
    Binary(BinaryOp, Box<Tree>, Box<Tree>),
    Neg(Box<Tree>),
    Apply(Box<Tree>, Seq<Tree>),
}

/// How tightly an expression binds, from loosest to tightest.
#[derive(Debug, Clone, Copy, PartialEq, Eq, PartialOrd, Ord, Structural)]
pub enum PrecedenceContext {
    /// Has no precedence: a literal, a symbol, a function argument.
    NoPrecedence,
    /// A sum or a difference.
    Sum,
    /// A product or a quotient: sums inside it are wrapped in parentheses.
    Product,
    /// A negation.
    Neg,
    /// An application, which binds to what stands immediately left of it.
    FunctionOrFactorial,
}

impl PrecedenceContext {
    /// The place of this level in the order.
    pub open spec fn rank(self) -> int {
        match self {
            PrecedenceContext::NoPrecedence => 0,
            PrecedenceContext::Sum => 1,
            PrecedenceContext::Product => 2,
            PrecedenceContext::Neg => 3,
            PrecedenceContext::FunctionOrFactorial => 4,
        }
    }

    /// The place of this level in the order, as a number.
    pub fn level(&self) -> (r: u8)
        ensures
            r == self.rank(),
    {
        match self {
            PrecedenceContext::NoPrecedence => 0,
            PrecedenceContext::Sum => 1,
            PrecedenceContext::Product => 2,
            PrecedenceContext::Neg => 3,
            PrecedenceContext::FunctionOrFactorial => 4,
        }
    }

    /// Whether this level binds strictly looser than `other`.
    pub fn below(&self, other: PrecedenceContext) -> (r: bool)
        ensures
            r == (self.rank() < other.rank()),
    {
        self.level() < other.level()
    }
}

/// The precedence of the operator at the root of an expression.
pub open spec fn precedence_of(e: Tree) -> PrecedenceContext {
    match e {
        Tree::Value(_) => PrecedenceContext::NoPrecedence,
        Tree::Symbol(_) => PrecedenceContext::NoPrecedence,
        Tree::Binary(op, _, _) => match op {
            BinaryOp::Add => PrecedenceContext::Sum,
            BinaryOp::Sub => PrecedenceContext::Sum,
            BinaryOp::Mul => PrecedenceContext::Product,
            BinaryOp::Div => PrecedenceContext::Product,
        },
        Tree::Neg(_) => PrecedenceContext::Neg,
        Tree::Apply(_, _) => PrecedenceContext::FunctionOrFactorial,
    }
}

/// The models of a sequence of expressions.
pub open spec fn trees(args: Seq<Expr>) -> Seq<Tree> {
    Seq::new(args.len(), |i: int| if 0 <= i < args.len() { args[i]@ } else { arbitrary() })
}

impl Expr {
    /// The tree this expression stands for.
    pub open spec fn view(&self) -> Tree
        decreases self,
    {
        match self {
            Expr::Value(v) => Tree::Value(v@),
            Expr::Symbol(s) => Tree::Symbol(s@),
            Expr::Add(p) => Tree::Binary(BinaryOp::Add, Box::new(p.0@), Box::new(p.1@)),
            Expr::Sub(p) => Tree::Binary(BinaryOp::Sub, Box::new(p.0@), Box::new(p.1@)),
            Expr::Mul(p) => Tree::Binary(BinaryOp::Mul, Box::new(p.0@), Box::new(p.1@)),
            Expr::Div(p) => Tree::Binary(BinaryOp::Div, Box::new(p.0@), Box::new(p.1@)),
            Expr::Neg(e) => Tree::Neg(Box::new(e@)),
            Expr::Apply(f, args) => Tree::Apply(
                Box::new(f@),
                Seq::new(
                    args@.len(),
                    |i: int| if 0 <= i < args@.len() { args@[i]@ } else { arbitrary() },
                ),
            ),
        }
    }

    /// The node of a binary operator over two operands.
    pub fn binary(op: BinaryOp, a: Expr, b: Expr) -> (r: Expr)
        ensures
            r@ == Tree::Binary(op, Box::new(a@), Box::new(b@)),
    {
        match op {
            BinaryOp::Add => Expr::Add(Box::new((a, b))),
            BinaryOp::Sub => Expr::Sub(Box::new((a, b))),
            BinaryOp::Mul => Expr::Mul(Box::new((a, b))),
            BinaryOp::Div => Expr::Div(Box::new((a, b))),
        }
    }

    /// The precedence of the operator at the root of this expression.
    pub fn precedence(&self) -> (r: PrecedenceContext)
        ensures
            r == precedence_of(self@),
    {
        match self {
            Expr::Value(_) | Expr::Symbol(_) => PrecedenceContext::NoPrecedence,
            Expr::Mul(_) | Expr::Div(_) => PrecedenceContext::Product,
            Expr::Add(_) | Expr::Sub(_) => PrecedenceContext::Sum,
            Expr::Neg(_) => PrecedenceContext::Neg,
            Expr::Apply(..) => PrecedenceContext::FunctionOrFactorial,
        }
    }
}

/// The model of a fallible result that holds an `Expr`.
pub open spec fn outcome(r: Result<Expr, EvalError>) -> Result<Tree, EvalError> {
    match r {
        Ok(e) => Ok(e@),
        Err(e) => Err(e),
    }
}

/// The reduction of a binary node whose operands are already reduced: two
/// values are combined, anything else is put back under the operator.
pub open spec fn combined(op: BinaryOp, a: Tree, b: Tree, precision: int) -> Result<
    Tree,
    EvalError,
> {
    match (a, b) {
        (Tree::Value(x), Tree::Value(y)) => match number_result(op, x, y, precision) {
            Ok(v) => Ok(Tree::Value(v)),
            Err(e) => Err(e),
        },
        _ => Ok(Tree::Binary(op, Box::new(a), Box::new(b))),
    }
}

/// The reduction of `sin` applied to one reduced argument: defined for a
/// decimal only.
pub open spec fn sin_applied(arg: Tree, precision: int) -> Result<Tree, EvalError> {
    match arg {
        Tree::Value(Number::Decimal(d)) => match sin_model(d) {
            Some(v) => match stored(v, precision) {
                Some(s) => Ok(Tree::Value(Number::Decimal(s))),
                None => Err(EvalError::OutOfRange),
            },
            None => Err(EvalError::OutOfRange),
        },
        _ => Err(EvalError::NotImplemented),
    }
}

/// What evaluation yields. Leaves stand as they are; operands are reduced
/// left to right and the first failure is the result; an application is
/// reduced only where its callee reduces to the symbol `sin` and it has
/// exactly one argument.
pub open spec fn evaluated(e: Tree, precision: int) -> Result<Tree, EvalError>
    decreases e,
{
    match e {
        Tree::Value(v) => Ok(Tree::Value(v)),
        Tree::Symbol(s) => Ok(Tree::Symbol(s)),
        Tree::Binary(op, a, b) => match evaluated(*a, precision) {
            Err(e) => Err(e),
            Ok(x) => match evaluated(*b, precision) {
                Err(e) => Err(e),
                Ok(y) => combined(op, x, y, precision),
            },
        },
        Tree::Neg(a) => match evaluated(*a, precision) {
            Err(e) => Err(e),
            Ok(Tree::Value(v)) => Ok(Tree::Value(number_neg(v))),
            Ok(other) => Ok(Tree::Neg(Box::new(other))),
        },
        Tree::Apply(f, args) => match evaluated(*f, precision) {
            Err(e) => Err(e),
            Ok(Tree::Symbol(name)) => if name == "sin"@ && args.len() == 1 {
                match evaluated(args[0], precision) {
                    Err(e) => Err(e),
                    Ok(arg) => sin_applied(arg, precision),
                }
            } else {
                Err(EvalError::NotImplemented)
            },
            Ok(_) => Err(EvalError::NotImplemented),
        },
    }
}

impl Evaluator {
    /// The number of significant digits that decimals are rounded to.
    pub closed spec fn digits(&self) -> int {
        self.precision.digits()
    }

    /// The active rounding.
    pub fn round(&self) -> (r: Round)
        ensures
            r == Round::Nearest,
    {
        Round::Nearest
    }

    /// The active precision, in significant digits.
    pub fn precision(&self) -> (r: u32)
        ensures
            r == self.digits(),
            1 <= r <= MAX_DIGITS,
    {
        self.precision.precision()
    }

    /// Rounds a raw decimal to the active precision.
    pub fn complete(&self, raw: &BigDecimal) -> (r: Option<Decimal>)
        ensures
            match r {
                Some(d) => stored(dec_repr(*raw), self.digits()) == Some(d@),
                None => stored(dec_repr(*raw), self.digits()) is None,
            },
    {
        match self.round() {
            Round::Nearest => Decimal::rounded(raw, self.precision()),
        }
    }

    /// The decimal that stands for an exact value at the active precision.
    pub fn promote(&self, q: &Rational) -> (r: Option<Decimal>)
        ensures
            match r {
                Some(d) => promoted(q@, self.digits()) == Some(d@),
                None => promoted(q@, self.digits()) is None,
            },
    {
        let n = dec_new(q.numer(), 0);
        if q.is_integer() {
            self.complete(&n)
        } else {
            let d = dec_new(q.denom(), 0);
            let raw = dec_div(&n, &d);
            self.complete(&raw)
        }
    }

    /// Reduces both operands, then combines them.
    fn eval_binop(&mut self, operands: Box<(Expr, Expr)>, op: BinaryOp) -> (r: Result<
        Expr,
        EvalError,
    >)
        ensures
            *final(self) == *old(self),
            outcome(r) == evaluated(
                Tree::Binary(op, Box::new(operands.0@), Box::new(operands.1@)),
                old(self).digits(),
            ),
        decreases operands, 0int,
    {
        let (a, b) = *operands;
        let x = match self.eval(a) {
            Ok(x) => x,
            Err(e) => {
                return Err(e);
            },
        };
        let y = match self.eval(b) {
            Ok(y) => y,
            Err(e) => {
                return Err(e);
            },
        };
        match (x, y) {
            (Expr::Value(p), Expr::Value(q)) => match perform_op(p, q, op, self) {
                Ok(v) => Ok(Expr::Value(v)),
                Err(e) => Err(e),
            },
            (x, y) => Ok(Expr::binary(op, x, y)),
        }
    }

    /// Reduces an expression as far as its symbols allow.
    pub fn eval(&mut self, e: Expr) -> (r: Result<Expr, EvalError>)
        ensures
            *final(self) == *old(self),
            outcome(r) == evaluated(e@, old(self).digits()),
        decreases e, 1int,
    {
        match e {
            Expr::Value(val) => Ok(Expr::Value(val)),
            Expr::Symbol(s) => Ok(Expr::Symbol(s)),
            Expr::Add(values) => self.eval_binop(values, BinaryOp::Add),
            Expr::Sub(values) => self.eval_binop(values, BinaryOp::Sub),
            Expr::Mul(values) => self.eval_binop(values, BinaryOp::Mul),
            Expr::Div(values) => self.eval_binop(values, BinaryOp::Div),
            Expr::Neg(neg) => match self.eval(*neg) {
                Err(e) => Err(e),
                Ok(Expr::Value(v)) => Ok(Expr::Value(v.neg())),
                Ok(other) => Ok(Expr::Neg(Box::new(other))),
            },
            Expr::Apply(left, args) => match self.eval(*left) {
                Err(e) => Err(e),
                Ok(Expr::Symbol(n)) => {
                    let name = String::from_str("sin");
                    if n == name && args.len() == 1 {
                        let mut args = args;
                        match args.pop() {
                            None => Err(EvalError::NotImplemented),
                            Some(arg) => match self.eval(arg) {
                                Err(e) => Err(e),
                                Ok(Expr::Value(Value::Decimal(d))) => {
                                    match sin(d.to_raw(), &self.table) {
                                        None => Err(EvalError::OutOfRange),
                                        Some(v) => match self.complete(&v) {
                                            Some(s) => Ok(Expr::Value(Value::Decimal(s))),
                                            None => Err(EvalError::OutOfRange),
                                        },
                                    }
                                },
                                Ok(_) => Err(EvalError::NotImplemented),
                            },
                        }
                    } else {
                        Err(EvalError::NotImplemented)
                    }
                },
                Ok(_) => Err(EvalError::NotImplemented),
            },
        }
    }
}

} // verus!
