//! The grammar of expressions: numbers, identifiers, parentheses,
//! applications, unary minus and the four binary operators.
use crate::decimal::{dec_new, stored, Dec, WORK_SCALE};
use crate::expr::{trees, BinaryOp, Evaluator, Expr, Number, Tree, Value};
use crate::integer::{int_add, int_from_i128, int_mul, int_value};
use crate::rational::{Ratio, Rational};
use bigdecimal::num_bigint::BigInt;
use vstd::prelude::*;
use vstd::string::{StrSliceExecFns, StringExecFns};

verus! {

/// The error of a text that is no expression.
#[derive(Debug, Clone, Copy, PartialEq, Eq, Structural)]
pub struct ParseError {
    /// The number of characters before the point where the text stops
    /// being an expression.
    pub position: usize,
}

/// A space, a tab, a line feed or a carriage return.
pub open spec fn is_space(c: char) -> bool {
    c == ' ' || c == '\t' || c == '\n' || c == '\r'
}

/// One of the ten decimal digits.
pub open spec fn is_digit(c: char) -> bool {
    48 <= c as u32 <= 57
}

/// The value of a decimal digit.
pub open spec fn digit_of(c: char) -> int {
    c as u32 - 48
}

/// A letter of the Latin alphabet or an underscore.
pub open spec fn is_ident_start(c: char) -> bool {
    65 <= c as u32 <= 90 || 97 <= c as u32 <= 122 || c == '_'
}

/// A character that may stand inside an identifier.
pub open spec fn is_ident_part(c: char) -> bool {
    is_ident_start(c) || is_digit(c)
}

/// The first position at or after `pos` that holds no space.
pub open spec fn skip_spaces(s: Seq<char>, pos: int) -> int
    decreases s.len() - pos,
{
    if 0 <= pos < s.len() && is_space(s[pos]) {
        skip_spaces(s, pos + 1)
    } else {
        pos
    }
}

/// The first position at or after `pos` that holds no digit.
pub open spec fn digits_end(s: Seq<char>, pos: int) -> int
    decreases s.len() - pos,
{
    if 0 <= pos < s.len() && is_digit(s[pos]) {
        digits_end(s, pos + 1)
    } else {
        pos
    }
}

/// The first position at or after `pos` that cannot continue an identifier.
pub open spec fn ident_end(s: Seq<char>, pos: int) -> int
    decreases s.len() - pos,
{
    if 0 <= pos < s.len() && is_ident_part(s[pos]) {
        ident_end(s, pos + 1)
    } else {
        pos
    }
}

/// The number that a run of decimal digits spells.
pub open spec fn digits_value(s: Seq<char>) -> nat
    decreases s.len(),
{
    if s.len() == 0 {
        0
    } else {
        (digits_value(s.drop_last()) * 10 + digit_of(s.last())) as nat
    }
}

/// Where the integer that starts at `pos` ends: a lone zero, or a digit
/// other than zero and the digits after it.
pub open spec fn int_end(s: Seq<char>, pos: int) -> Option<int> {
    if 0 <= pos < s.len() && is_digit(s[pos]) {
        if s[pos] == '0' {
            Some(pos + 1)
        } else {
            Some(digits_end(s, pos + 1))
        }
    } else {
        None
    }
}

/// The parts of a number that starts at `pos`, where `whole_end` is the end
/// of its integer part: the end of the fraction, the end of the exponent,
/// and the end of the number.
pub open spec fn fraction_end(s: Seq<char>, whole_end: int) -> int {
    if 0 <= whole_end < s.len() && s[whole_end] == '.' {
        digits_end(s, whole_end + 1)
    } else {
        whole_end
    }
}

/// Whether an exponent follows the fraction: an `e` and an integer.
pub open spec fn has_exponent(s: Seq<char>, fraction_end: int) -> bool {
    0 <= fraction_end < s.len() && s[fraction_end] == 'e' && int_end(s, fraction_end + 1) is Some
}

/// The value of the number that stands from `pos` to its end, with its
/// integer part ending at `whole_end`. Without fraction and exponent it is
/// exact; else it is the decimal that the digits and the exponent give,
/// rounded to the precision, and none where that is out of range.
pub open spec fn number_value(s: Seq<char>, pos: int, whole_end: int, precision: int) -> Option<
    (Number, int),
> {
    let f_end = fraction_end(s, whole_end);
    let whole = s.subrange(pos, whole_end);
    if f_end == whole_end && !has_exponent(s, f_end) {
        Some((Number::Exact(Ratio { num: digits_value(whole) as int, den: 1 }), whole_end))
    } else {
        let fraction = if f_end == whole_end {
            Seq::<char>::empty()
        } else {
            s.subrange(whole_end + 1, f_end)
        };
        let (exponent, end) = if has_exponent(s, f_end) {
            (
                digits_value(s.subrange(f_end + 1, int_end(s, f_end + 1)->Some_0)) as int,
                int_end(s, f_end + 1)->Some_0,
            )
        } else {
            (0int, f_end)
        };
        let raw = Dec {
            digits: digits_value(whole + fraction) as int,
            scale: fraction.len() - exponent,
        };
        match stored(raw, precision) {
            Some(d) => Some((Number::Decimal(d), end)),
            None => None,
        }
    }
}

/// The model of a token.
pub enum Lexeme {
    Number(Number),
    Ident(Seq<char>),
    Plus,
    Minus,
    Star,
    Slash,
    Open,
    Close,
    Comma,
}

/// The token that starts at the first position at or after `pos` that is
/// no space, with the position where it ends. At the end of the text, or
/// where no token starts, it is that position that is given as the error.
pub open spec fn token_at(s: Seq<char>, pos: int, precision: int) -> Result<(Lexeme, int), int> {
    let p = skip_spaces(s, pos);
    if !(0 <= pos <= p < s.len()) {
        Err(p)
    } else if s[p] == '+' {
        Ok((Lexeme::Plus, p + 1))
    } else if s[p] == '-' {
        Ok((Lexeme::Minus, p + 1))
    } else if s[p] == '*' {
        Ok((Lexeme::Star, p + 1))
    } else if s[p] == '/' {
        Ok((Lexeme::Slash, p + 1))
    } else if s[p] == '(' {
        Ok((Lexeme::Open, p + 1))
    } else if s[p] == ')' {
        Ok((Lexeme::Close, p + 1))
    } else if s[p] == ',' {
        Ok((Lexeme::Comma, p + 1))
    } else if is_ident_start(s[p]) {
        let end = ident_end(s, p + 1);
        if p < end <= s.len() {
            Ok((Lexeme::Ident(s.subrange(p, end)), end))
        } else {
            Err(p)
        }
    } else if is_digit(s[p]) {
        match number_value(s, p, int_end(s, p)->Some_0, precision) {
            Some((v, end)) => if p < end <= s.len() {
                Ok((Lexeme::Number(v), end))
            } else {
                Err(p)
            },
            None => Err(p),
        }
    } else {
        Err(p)
    }
}

/// Whether only spaces stand at and after `pos`.
pub open spec fn at_end(s: Seq<char>, pos: int) -> bool {
    skip_spaces(s, pos) >= s.len()
}

/// An atom: a number, an identifier, or a sum between parentheses. The
/// error is the position of the token that is none of these, or at which
/// the closing parenthesis is missing.
pub open spec fn atom_at(s: Seq<char>, pos: int, precision: int) -> Result<(Tree, int), int>
    decreases s.len() - pos, 1int,
{
    match token_at(s, pos, precision) {
        Ok((Lexeme::Number(v), end)) => Ok((Tree::Value(v), end)),
        Ok((Lexeme::Ident(name), end)) => Ok((Tree::Symbol(name), end)),
        Ok((Lexeme::Open, end)) => match sum_at(s, end, precision) {
            Ok((inner, after)) => match token_at(s, after, precision) {
                Ok((Lexeme::Close, close)) => Ok((inner, close)),
                _ => Err(skip_spaces(s, after)),
            },
            Err(p) => Err(p),
        },
        _ => Err(skip_spaces(s, pos)),
    }
}

/// The arguments of an application after its opening parenthesis, up to
/// and with the closing one: sums separated by commas, the last of which
/// may be followed by one more comma. `found` holds those read so far. The
/// error is that of the argument that is no sum, or the position after an
/// argument where neither a comma nor the closing parenthesis stands.
pub open spec fn arguments_at(s: Seq<char>, pos: int, found: Seq<Tree>, precision: int) -> Result<
    (Seq<Tree>, int),
    int,
>
    decreases s.len() - pos, 8int,
{
    match token_at(s, pos, precision) {
        Ok((Lexeme::Close, end)) => Ok((found, end)),
        _ => match sum_at(s, pos, precision) {
            Ok((arg, after)) => match token_at(s, after, precision) {
                Ok((Lexeme::Close, end)) => Ok((found.push(arg), end)),
                Ok((Lexeme::Comma, end)) => if pos <= after <= s.len() {
                    arguments_at(s, end, found.push(arg), precision)
                } else {
                    Err(after)
                },
                _ => Err(skip_spaces(s, after)),
            },
            Err(p) => Err(p),
        },
    }
}

/// An atom, or an atom applied to arguments between parentheses.
pub open spec fn call_at(s: Seq<char>, pos: int, precision: int) -> Result<(Tree, int), int>
    decreases s.len() - pos, 2int,
{
    match atom_at(s, pos, precision) {
        Ok((callee, after)) => match token_at(s, after, precision) {
            Ok((Lexeme::Open, open)) => if pos <= after <= s.len() {
                match arguments_at(s, open, Seq::empty(), precision) {
                    Ok((args, end)) => Ok((Tree::Apply(Box::new(callee), args), end)),
                    Err(p) => Err(p),
                }
            } else {
                Err(after)
            },
            _ => Ok((callee, after)),
        },
        Err(p) => Err(p),
    }
}

/// Any number of minus signs before a call.
pub open spec fn unary_at(s: Seq<char>, pos: int, precision: int) -> Result<(Tree, int), int>
    decreases s.len() - pos, 3int,
{
    match token_at(s, pos, precision) {
        Ok((Lexeme::Minus, end)) => match unary_at(s, end, precision) {
            Ok((operand, after)) => Ok((Tree::Neg(Box::new(operand)), after)),
            Err(p) => Err(p),
        },
        _ => call_at(s, pos, precision),
    }
}

/// What follows the left operand `left` of a product: any number of `*`
/// or `/` with an operand each, grouped to the left.
pub open spec fn product_rest(s: Seq<char>, pos: int, left: Tree, precision: int) -> Result<
    (Tree, int),
    int,
>
    decreases s.len() - pos, 4int,
{
    match token_at(s, pos, precision) {
        Ok((Lexeme::Star, end)) => match unary_at(s, end, precision) {
            Ok((right, after)) => if end <= after <= s.len() {
                product_rest(
                    s,
                    after,
                    Tree::Binary(BinaryOp::Mul, Box::new(left), Box::new(right)),
                    precision,
                )
            } else {
                Err(after)
            },
            Err(p) => Err(p),
        },
        Ok((Lexeme::Slash, end)) => match unary_at(s, end, precision) {
            Ok((right, after)) => if end <= after <= s.len() {
                product_rest(
                    s,
                    after,
                    Tree::Binary(BinaryOp::Div, Box::new(left), Box::new(right)),
                    precision,
                )
            } else {
                Err(after)
            },
            Err(p) => Err(p),
        },
        _ => Ok((left, pos)),
    }
}

/// A product: operands under unary minus joined by `*` and `/`.
pub open spec fn product_at(s: Seq<char>, pos: int, precision: int) -> Result<(Tree, int), int>
    decreases s.len() - pos, 5int,
{
    match unary_at(s, pos, precision) {
        Ok((left, after)) => if pos <= after <= s.len() {
            product_rest(s, after, left, precision)
        } else {
            Err(after)
        },
        Err(p) => Err(p),
    }
}

/// What follows the left operand `left` of a sum: any number of `+` or
/// `-` with a product each, grouped to the left.
pub open spec fn sum_rest(s: Seq<char>, pos: int, left: Tree, precision: int) -> Result<
    (Tree, int),
    int,
>
    decreases s.len() - pos, 6int,
{
    match token_at(s, pos, precision) {
        Ok((Lexeme::Plus, end)) => match product_at(s, end, precision) {
            Ok((right, after)) => if end <= after <= s.len() {
                sum_rest(
                    s,
                    after,
                    Tree::Binary(BinaryOp::Add, Box::new(left), Box::new(right)),
                    precision,
                )
            } else {
                Err(after)
            },
            Err(p) => Err(p),
        },
        Ok((Lexeme::Minus, end)) => match product_at(s, end, precision) {
            Ok((right, after)) => if end <= after <= s.len() {
                sum_rest(
                    s,
                    after,
                    Tree::Binary(BinaryOp::Sub, Box::new(left), Box::new(right)),
                    precision,
                )
            } else {
                Err(after)
            },
            Err(p) => Err(p),
        },
        _ => Ok((left, pos)),
    }
}

/// A sum: products joined by `+` and `-`.
pub open spec fn sum_at(s: Seq<char>, pos: int, precision: int) -> Result<(Tree, int), int>
    decreases s.len() - pos, 7int,
{
    match product_at(s, pos, precision) {
        Ok((left, after)) => if pos <= after <= s.len() {
            sum_rest(s, after, left, precision)
        } else {
            Err(after)
        },
        Err(p) => Err(p),
    }
}

/// The expression that a text spells: a sum that the whole text holds,
/// with spaces allowed around every token. Where the text spells none, the
/// error is the position at which it stops being one: that of the first
/// token that cannot stand where it does, or the end of the text where
/// more is expected.
pub open spec fn parsed(s: Seq<char>, precision: int) -> Result<Tree, int> {
    match sum_at(s, 0, precision) {
        Ok((tree, end)) => if at_end(s, end) {
            Ok(tree)
        } else {
            Err(skip_spaces(s, end))
        },
        Err(p) => Err(p),
    }
}

/// A token.
#[derive(Debug)]
pub enum Token {
    Number(Value),
    Ident(String),
    Plus,
    Minus,
    Star,
    Slash,
    Open,
    Close,
    Comma,
}

impl Token {
    /// The model of this token.
    pub open spec fn view(&self) -> Lexeme {
        match self {
            Token::Number(v) => Lexeme::Number(v@),
            Token::Ident(name) => Lexeme::Ident(name@),
            Token::Plus => Lexeme::Plus,
            Token::Minus => Lexeme::Minus,
            Token::Star => Lexeme::Star,
            Token::Slash => Lexeme::Slash,
            Token::Open => Lexeme::Open,
            Token::Close => Lexeme::Close,
            Token::Comma => Lexeme::Comma,
        }
    }
}

/// Largest exponent that is told apart from larger ones.
pub const EXPONENT_CAP: u128 = 1_000_000_000_000_000_000_000_000_000_000;

/// The model of what reading a token yields.
pub open spec fn token_outcome(r: Result<(Token, usize), usize>) -> Result<(Lexeme, int), int> {
    match r {
        Ok((t, end)) => Ok((t@, end as int)),
        Err(p) => Err(p as int),
    }
}

/// The model of what reading a number yields.
pub open spec fn number_outcome(r: Option<(Value, usize)>) -> Option<(Number, int)> {
    match r {
        Some((v, end)) => Some((v@, end as int)),
        None => None,
    }
}

/// The model of what reading an expression yields.
pub open spec fn tree_outcome(r: Result<(Expr, usize), usize>) -> Result<(Tree, int), int> {
    match r {
        Ok((e, end)) => Ok((e@, end as int)),
        Err(p) => Err(p as int),
    }
}

/// The model of what reading a list of arguments yields.
pub open spec fn list_outcome(r: Result<(Vec<Expr>, usize), usize>) -> Result<
    (Seq<Tree>, int),
    int,
> {
    match r {
        Ok((v, end)) => Ok((trees(v@), end as int)),
        Err(p) => Err(p as int),
    }
}

fn space(c: char) -> (r: bool)
    ensures
        r == is_space(c),
{
    c == ' ' || c == '\t' || c == '\n' || c == '\r'
}

fn digit(c: char) -> (r: bool)
    ensures
        r == is_digit(c),
{
    48 <= c as u32 && c as u32 <= 57
}

fn ident_start(c: char) -> (r: bool)
    ensures
        r == is_ident_start(c),
{
    (65 <= c as u32 && c as u32 <= 90) || (97 <= c as u32 && c as u32 <= 122) || c == '_'
}

/// The characters of a text.
fn characters(text: &str) -> (r: Vec<char>)
    ensures
        r@ == text@,
{
    let len = text.unicode_len();
    let mut out: Vec<char> = Vec::new();
    let mut i: usize = 0;
    while i < len
        invariant
            i <= len,
            len == text@.len(),
            out@ == text@.subrange(0, i as int),
        decreases len - i,
    {
        out.push(text.get_char(i));
        i = i + 1;
        assert(out@ =~= text@.subrange(0, i as int));
    }
    assert(text@.subrange(0, len as int) =~= text@);
    out
}

fn scan_spaces(chars: &Vec<char>, pos: usize) -> (r: usize)
    requires
        pos <= chars.len(),
    ensures
        r == skip_spaces(chars@, pos as int),
        pos <= r <= chars.len(),
{
    let mut p = pos;
    while p < chars.len() && space(chars[p])
        invariant
            pos <= p <= chars.len(),
            skip_spaces(chars@, p as int) == skip_spaces(chars@, pos as int),
        decreases chars.len() - p,
    {
        p = p + 1;
    }
    p
}

fn scan_digits(chars: &Vec<char>, pos: usize) -> (r: usize)
    requires
        pos <= chars.len(),
    ensures
        r == digits_end(chars@, pos as int),
        pos <= r <= chars.len(),
        forall|i: int| pos <= i < r ==> is_digit(#[trigger] chars@[i]),
{
    let mut p = pos;
    while p < chars.len() && digit(chars[p])
        invariant
            pos <= p <= chars.len(),
            digits_end(chars@, p as int) == digits_end(chars@, pos as int),
            forall|i: int| pos <= i < p ==> is_digit(#[trigger] chars@[i]),
        decreases chars.len() - p,
    {
        p = p + 1;
    }
    p
}

fn scan_ident(chars: &Vec<char>, pos: usize) -> (r: usize)
    requires
        pos <= chars.len(),
    ensures
        r == ident_end(chars@, pos as int),
        pos <= r <= chars.len(),
{
    let mut p = pos;
    while p < chars.len() && (ident_start(chars[p]) || digit(chars[p]))
        invariant
            pos <= p <= chars.len(),
            ident_end(chars@, p as int) == ident_end(chars@, pos as int),
        decreases chars.len() - p,
    {
        p = p + 1;
    }
    p
}

/// Where the integer that starts with the digit at `pos` ends.
fn scan_int(chars: &Vec<char>, pos: usize) -> (r: usize)
    requires
        pos < chars.len(),
        is_digit(chars@[pos as int]),
    ensures
        int_end(chars@, pos as int) == Some(r as int),
        pos < r <= chars.len(),
        forall|i: int| pos <= i < r ==> is_digit(#[trigger] chars@[i]),
{
    if chars[pos] == '0' {
        pos + 1
    } else {
        scan_digits(chars, pos + 1)
    }
}

/// Appends the digits from `from` to `to` to the number `start`, which
/// spells `prefix`.
fn read_digits(
    chars: &Vec<char>,
    from: usize,
    to: usize,
    start: BigInt,
    Ghost(prefix): Ghost<Seq<char>>,
) -> (r: BigInt)
    requires
        from <= to <= chars.len(),
        int_value(start) == digits_value(prefix),
        forall|i: int| from <= i < to ==> is_digit(#[trigger] chars@[i]),
    ensures
        int_value(r) == digits_value(prefix + chars@.subrange(from as int, to as int)),
{
    let ten = int_from_i128(10);
    let mut value = start;
    let mut i = from;
    assert(prefix + chars@.subrange(from as int, from as int) =~= prefix);
    while i < to
        invariant
            from <= i <= to <= chars.len(),
            int_value(ten) == 10,
            forall|j: int| from <= j < to ==> is_digit(#[trigger] chars@[j]),
            int_value(value) == digits_value(prefix + chars@.subrange(from as int, i as int)),
        decreases to - i,
    {
        let c = chars[i];
        let d = int_from_i128((c as u32 - 48) as i128);
        proof {
            let now = prefix + chars@.subrange(from as int, i + 1);
            assert(now.drop_last() =~= prefix + chars@.subrange(from as int, i as int));
            assert(now.last() == c);
        }
        value = int_add(&int_mul(&value, &ten), &d);
        i = i + 1;
    }
    value
}

/// The exponent `n`, or the cap where it is the cap or more.
pub open spec fn capped(n: int) -> int {
    if n >= EXPONENT_CAP {
        EXPONENT_CAP as int
    } else {
        n
    }
}

/// The number that the digits from `from` to `to` spell, or the cap where
/// it is the cap or more.
fn read_exponent(chars: &Vec<char>, from: usize, to: usize) -> (r: u128)
    requires
        from <= to <= chars.len(),
        forall|i: int| from <= i < to ==> is_digit(#[trigger] chars@[i]),
    ensures
        r == capped(digits_value(chars@.subrange(from as int, to as int)) as int),
{
    let mut value: u128 = 0;
    let mut i = from;
    assert(chars@.subrange(from as int, from as int) =~= Seq::<char>::empty());
    while i < to
        invariant
            from <= i <= to <= chars.len(),
            forall|j: int| from <= j < to ==> is_digit(#[trigger] chars@[j]),
            value == capped(digits_value(chars@.subrange(from as int, i as int)) as int),
        decreases to - i,
    {
        let c = chars[i];
        let d: u128 = (c as u32 - 48) as u128;
        proof {
            let now = chars@.subrange(from as int, i + 1);
            assert(now.drop_last() =~= chars@.subrange(from as int, i as int));
            assert(now.last() == c);
        }
        if value >= EXPONENT_CAP {
            value = EXPONENT_CAP;
        } else {
            value = value * 10 + d;
            if value >= EXPONENT_CAP {
                value = EXPONENT_CAP;
            }
        }
        i = i + 1;
    }
    value
}

/// Reads the number that starts with the digit at `p`.
fn lex_number(chars: &Vec<char>, p: usize, evaluator: &Evaluator) -> (r: Option<(Value, usize)>)
    requires
        p < chars.len(),
        is_digit(chars@[p as int]),
    ensures
        number_outcome(r) == number_value(
            chars@,
            p as int,
            int_end(chars@, p as int)->Some_0,
            evaluator.digits(),
        ),
        r matches Some((_, end)) ==> p < end <= chars.len(),
{
    let len = chars.len();
    let whole_end = scan_int(chars, p);
    let whole = read_digits(chars, p, whole_end, int_from_i128(0), Ghost(Seq::empty()));
    let ghost whole_text = chars@.subrange(p as int, whole_end as int);
    assert(Seq::<char>::empty() + whole_text =~= whole_text);
    let has_fraction = whole_end < len && chars[whole_end] == '.';
    let f_end = if has_fraction { scan_digits(chars, whole_end + 1) } else { whole_end };
    let has_exponent = f_end < len && chars[f_end] == 'e' && f_end + 1 < len && digit(
        chars[f_end + 1],
    );
    if !has_fraction && !has_exponent {
        return Some((Value::Exact(Rational::from_integer(whole)), whole_end));
    }
    let ghost fraction = if has_fraction {
        chars@.subrange(whole_end + 1, f_end as int)
    } else {
        Seq::<char>::empty()
    };
    let digits = if has_fraction {
        read_digits(chars, whole_end + 1, f_end, whole, Ghost(whole_text))
    } else {
        assert(whole_text + fraction =~= whole_text);
        whole
    };
    let fraction_len: usize = if has_fraction { f_end - (whole_end + 1) } else { 0 };
    let (exponent, end) = if has_exponent {
        let e_end = scan_int(chars, f_end + 1);
        (read_exponent(chars, f_end + 1, e_end), e_end)
    } else {
        (0u128, f_end)
    };
    if exponent >= EXPONENT_CAP {
        return None;
    }
    let scale: i128 = fraction_len as i128 - exponent as i128;
    if scale < -(WORK_SCALE as i128) || scale > WORK_SCALE as i128 {
        return None;
    }
    let raw = dec_new(digits, scale as i64);
    match evaluator.complete(&raw) {
        Some(d) => Some((Value::Decimal(d), end)),
        None => None,
    }
}

/// Reads the token that starts at or after `pos`.
fn next_token(text: &str, chars: &Vec<char>, pos: usize, evaluator: &Evaluator) -> (r: Result<
    (Token, usize),
    usize,
>)
    requires
        chars@ == text@,
        pos <= chars.len(),
    ensures
        token_outcome(r) == token_at(chars@, pos as int, evaluator.digits()),
        r matches Ok((_, end)) ==> pos < end <= chars.len(),
        r matches Err(p) ==> p == skip_spaces(chars@, pos as int) && p <= chars.len(),
{
    let p = scan_spaces(chars, pos);
    if p >= chars.len() {
        return Err(p);
    }
    let c = chars[p];
    if c == '+' {
        Ok((Token::Plus, p + 1))
    } else if c == '-' {
        Ok((Token::Minus, p + 1))
    } else if c == '*' {
        Ok((Token::Star, p + 1))
    } else if c == '/' {
        Ok((Token::Slash, p + 1))
    } else if c == '(' {
        Ok((Token::Open, p + 1))
    } else if c == ')' {
        Ok((Token::Close, p + 1))
    } else if c == ',' {
        Ok((Token::Comma, p + 1))
    } else if ident_start(c) {
        let end = scan_ident(chars, p + 1);
        let name = String::from_str(text.substring_char(p, end));
        Ok((Token::Ident(name), end))
    } else if digit(c) {
        match lex_number(chars, p, evaluator) {
            Some((v, end)) => Ok((Token::Number(v), end)),
            None => Err(p),
        }
    } else {
        Err(p)
    }
}

fn parse_atom(text: &str, chars: &Vec<char>, pos: usize, evaluator: &Evaluator) -> (r: Result<
    (Expr, usize),
    usize,
>)
    requires
        chars@ == text@,
        pos <= chars.len(),
    ensures
        tree_outcome(r) == atom_at(chars@, pos as int, evaluator.digits()),
        r matches Ok((_, end)) ==> pos <= end <= chars.len(),
        r matches Err(p) ==> p <= chars.len(),
    decreases chars.len() - pos, 1int,
{
    match next_token(text, chars, pos, evaluator) {
        Ok((Token::Number(v), end)) => Ok((Expr::Value(v), end)),
        Ok((Token::Ident(name), end)) => Ok((Expr::Symbol(name), end)),
        Ok((Token::Open, end)) => match parse_sum(text, chars, end, evaluator) {
            Ok((inner, after)) => match next_token(text, chars, after, evaluator) {
                Ok((Token::Close, close)) => Ok((inner, close)),
                _ => Err(scan_spaces(chars, after)),
            },
            Err(p) => Err(p),
        },
        _ => Err(scan_spaces(chars, pos)),
    }
}

fn parse_arguments(
    text: &str,
    chars: &Vec<char>,
    pos: usize,
    found: Vec<Expr>,
    evaluator: &Evaluator,
) -> (r: Result<(Vec<Expr>, usize), usize>)
    requires
        chars@ == text@,
        pos <= chars.len(),
    ensures
        list_outcome(r) == arguments_at(chars@, pos as int, trees(found@), evaluator.digits()),
        r matches Ok((_, end)) ==> pos <= end <= chars.len(),
        r matches Err(p) ==> p <= chars.len(),
    decreases chars.len() - pos, 8int,
{
    match next_token(text, chars, pos, evaluator) {
        Ok((Token::Close, end)) => {
            return Ok((found, end));
        },
        _ => {},
    }
    match parse_sum(text, chars, pos, evaluator) {
        Ok((arg, after)) => {
            let ghost before = trees(found@);
            let ghost tree = arg@;
            let mut found = found;
            found.push(arg);
            assert(trees(found@) =~= before.push(tree));
            match next_token(text, chars, after, evaluator) {
                Ok((Token::Close, end)) => Ok((found, end)),
                Ok((Token::Comma, end)) => parse_arguments(text, chars, end, found, evaluator),
                _ => Err(scan_spaces(chars, after)),
            }
        },
        Err(p) => Err(p),
    }
}

fn parse_call(text: &str, chars: &Vec<char>, pos: usize, evaluator: &Evaluator) -> (r: Result<
    (Expr, usize),
    usize,
>)
    requires
        chars@ == text@,
        pos <= chars.len(),
    ensures
        tree_outcome(r) == call_at(chars@, pos as int, evaluator.digits()),
        r matches Ok((_, end)) ==> pos <= end <= chars.len(),
        r matches Err(p) ==> p <= chars.len(),
    decreases chars.len() - pos, 2int,
{
    match parse_atom(text, chars, pos, evaluator) {
        Ok((callee, after)) => match next_token(text, chars, after, evaluator) {
            Ok((Token::Open, open)) => {
                let none: Vec<Expr> = Vec::new();
                assert(trees(none@) =~= Seq::<Tree>::empty());
                match parse_arguments(text, chars, open, none, evaluator) {
                    Ok((args, end)) => {
                        let ghost list = trees(args@);
                        let e = Expr::Apply(Box::new(callee), args);
                        assert(e@->Apply_1 =~= list);
                        Ok((e, end))
                    },
                    Err(p) => Err(p),
                }
            },
            _ => Ok((callee, after)),
        },
        Err(p) => Err(p),
    }
}

fn parse_unary(text: &str, chars: &Vec<char>, pos: usize, evaluator: &Evaluator) -> (r: Result<
    (Expr, usize),
    usize,
>)
    requires
        chars@ == text@,
        pos <= chars.len(),
    ensures
        tree_outcome(r) == unary_at(chars@, pos as int, evaluator.digits()),
        r matches Ok((_, end)) ==> pos <= end <= chars.len(),
        r matches Err(p) ==> p <= chars.len(),
    decreases chars.len() - pos, 3int,
{
    match next_token(text, chars, pos, evaluator) {
        Ok((Token::Minus, end)) => match parse_unary(text, chars, end, evaluator) {
            Ok((operand, after)) => Ok((Expr::Neg(Box::new(operand)), after)),
            Err(p) => Err(p),
        },
        _ => parse_call(text, chars, pos, evaluator),
    }
}

fn parse_product_rest(
    text: &str,
    chars: &Vec<char>,
    pos: usize,
    left: Expr,
    evaluator: &Evaluator,
) -> (r: Result<(Expr, usize), usize>)
    requires
        chars@ == text@,
        pos <= chars.len(),
    ensures
        tree_outcome(r) == product_rest(chars@, pos as int, left@, evaluator.digits()),
        r matches Ok((_, end)) ==> pos <= end <= chars.len(),
        r matches Err(p) ==> p <= chars.len(),
    decreases chars.len() - pos, 4int,
{
    match next_token(text, chars, pos, evaluator) {
        Ok((Token::Star, end)) => match parse_unary(text, chars, end, evaluator) {
            Ok((right, after)) => parse_product_rest(
                text,
                chars,
                after,
                Expr::binary(BinaryOp::Mul, left, right),
                evaluator,
            ),
            Err(p) => Err(p),
        },
        Ok((Token::Slash, end)) => match parse_unary(text, chars, end, evaluator) {
            Ok((right, after)) => parse_product_rest(
                text,
                chars,
                after,
                Expr::binary(BinaryOp::Div, left, right),
                evaluator,
            ),
            Err(p) => Err(p),
        },
        _ => Ok((left, pos)),
    }
}

fn parse_product(text: &str, chars: &Vec<char>, pos: usize, evaluator: &Evaluator) -> (r: Result<
    (Expr, usize),
    usize,
>)
    requires
        chars@ == text@,
        pos <= chars.len(),
    ensures
        tree_outcome(r) == product_at(chars@, pos as int, evaluator.digits()),
        r matches Ok((_, end)) ==> pos <= end <= chars.len(),
        r matches Err(p) ==> p <= chars.len(),
    decreases chars.len() - pos, 5int,
{
    match parse_unary(text, chars, pos, evaluator) {
        Ok((left, after)) => parse_product_rest(text, chars, after, left, evaluator),
        Err(p) => Err(p),
    }
}

fn parse_sum_rest(
    text: &str,
    chars: &Vec<char>,
    pos: usize,
    left: Expr,
    evaluator: &Evaluator,
) -> (r: Result<(Expr, usize), usize>)
    requires
        chars@ == text@,
        pos <= chars.len(),
    ensures
        tree_outcome(r) == sum_rest(chars@, pos as int, left@, evaluator.digits()),
        r matches Ok((_, end)) ==> pos <= end <= chars.len(),
        r matches Err(p) ==> p <= chars.len(),
    decreases chars.len() - pos, 6int,
{
    match next_token(text, chars, pos, evaluator) {
        Ok((Token::Plus, end)) => match parse_product(text, chars, end, evaluator) {
            Ok((right, after)) => parse_sum_rest(
                text,
                chars,
                after,
                Expr::binary(BinaryOp::Add, left, right),
                evaluator,
            ),
            Err(p) => Err(p),
        },
        Ok((Token::Minus, end)) => match parse_product(text, chars, end, evaluator) {
            Ok((right, after)) => parse_sum_rest(
                text,
                chars,
                after,
                Expr::binary(BinaryOp::Sub, left, right),
                evaluator,
            ),
            Err(p) => Err(p),
        },
        _ => Ok((left, pos)),
    }
}

fn parse_sum(text: &str, chars: &Vec<char>, pos: usize, evaluator: &Evaluator) -> (r: Result<
    (Expr, usize),
    usize,
>)
    requires
        chars@ == text@,
        pos <= chars.len(),
    ensures
        tree_outcome(r) == sum_at(chars@, pos as int, evaluator.digits()),
        r matches Ok((_, end)) ==> pos <= end <= chars.len(),
        r matches Err(p) ==> p <= chars.len(),
    decreases chars.len() - pos, 7int,
{
    match parse_product(text, chars, pos, evaluator) {
        Ok((left, after)) => parse_sum_rest(text, chars, after, left, evaluator),
        Err(p) => Err(p),
    }
}

/// Reads an expression from a line of text. Decimal literals are rounded
/// to the precision of `e`. Where the line is no expression, the error
/// gives the position, counted in characters, at which it stops being one.
pub fn expr_parser(e: &Evaluator, line: &str) -> (r: Result<Expr, ParseError>)
    ensures
        match r {
            Ok(expr) => parsed(line@, e.digits()) == Ok::<Tree, int>(expr@),
            Err(error) => parsed(line@, e.digits()) == Err::<Tree, int>(error.position as int),
        },
        r matches Err(error) ==> error.position <= line@.len(),
{
    let chars = characters(line);
    match parse_sum(line, &chars, 0, e) {
        Ok((expr, end)) => {
            let rest = scan_spaces(&chars, end);
            if rest >= chars.len() {
                Ok(expr)
            } else {
                Err(ParseError { position: rest })
            }
        },
        Err(position) => Err(ParseError { position }),
    }
}

} // verus!
