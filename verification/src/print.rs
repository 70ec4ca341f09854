//! Rendering of expressions and values as text, with the parentheses that
//! operator precedence asks for and no others.
use crate::decimal::{dec_parts, dec_round, rounded, Dec, Decimal, MAX_DIGITS};
use crate::expr::{
    precedence_of, trees, BinaryOp, Expr, Number, PrecedenceContext, Tree, Value,
};
use crate::integer::{
    int_from_i128, int_is_negative, int_is_zero, int_neg, int_text, int_to_text, int_value,
    lemma_nat_text_len, nat_text,
};
use crate::rational::{abs, ratio_text};
use vstd::prelude::*;
use vstd::string::{StrSliceExecFns, StringExecFns};

verus! {

/// The number of significant digits that decimals are shown with by default.
pub const DISPLAY_DIGITS: u32 = 8;

/// A run of `n` zeros.
pub open spec fn zeros(n: nat) -> Seq<char>
    decreases n,
{
    if n == 0 {
        Seq::empty()
    } else {
        zeros((n - 1) as nat) + "0"@
    }
}

/// The notation for significant digits `text` (most significant first) of a
/// number whose first digit has the decimal exponent `exponent`.
///
/// At most -4: scientific, `d.ddde<exponent>`. From -3 to -1: `0.`, zeros,
/// the digits. Zero: the first digit, a point, the other digits. One and
/// above: the plain numeral, which is the digits with a point after the
/// first `exponent + 1` of them where more digits follow, and else the
/// digits with the zeros that bring the last of them to the units.
pub open spec fn notation(text: Seq<char>, exponent: int) -> Seq<char> {
    if exponent <= -4 {
        text.subrange(0, 1) + "."@ + text.subrange(1, text.len() as int) + "e"@ + int_text(
            exponent,
        )
    } else if exponent <= -1 {
        "0."@ + zeros((-exponent - 1) as nat) + text
    } else if exponent == 0 {
        text.subrange(0, 1) + "."@ + text.subrange(1, text.len() as int)
    } else if exponent < text.len() - 1 {
        text.subrange(0, exponent + 1) + "."@ + text.subrange(exponent + 1, text.len() as int)
    } else {
        text + zeros((exponent - (text.len() - 1)) as nat)
    }
}

/// The text of a decimal rounded to `digits` significant digits: `0` for
/// zero, else a minus sign for a negative and the notation that the
/// exponent of its first digit selects.
pub open spec fn decimal_text(d: Dec, digits: int) -> Seq<char> {
    let shown = rounded(d, digits);
    let text = nat_text(abs(shown.digits) as nat);
    if shown.digits == 0 {
        "0"@
    } else if shown.digits < 0 {
        "-"@ + notation(text, text.len() - 1 - shown.scale)
    } else {
        notation(text, text.len() - 1 - shown.scale)
    }
}

/// The text of a number: a fraction in lowest terms, or a decimal.
pub open spec fn number_text(v: Number, digits: int) -> Seq<char> {
    match v {
        Number::Exact(q) => ratio_text(q),
        Number::Decimal(d) => decimal_text(d, digits),
    }
}

/// The sign of a binary operator.
pub open spec fn operator_text(op: BinaryOp) -> Seq<char> {
    match op {
        BinaryOp::Add => "+"@,
        BinaryOp::Sub => "-"@,
        BinaryOp::Mul => "*"@,
        BinaryOp::Div => "/"@,
    }
}

/// Text between parentheses where `parens` holds, else as it is.
pub open spec fn wrapped(inner: Seq<char>, parens: bool) -> Seq<char> {
    if parens {
        "("@ + inner + ")"@
    } else {
        inner
    }
}

/// The text of an expression that stands where precedence `p` is required.
///
/// A binary node is wrapped in parentheses exactly when its own precedence
/// is strictly lower than `p`; its operands are printed at its own
/// precedence. The callee of an application stands between double quotes
/// and is shown with the default digits.
pub open spec fn expr_text(e: Tree, p: PrecedenceContext, digits: int) -> Seq<char>
    decreases e,
{
    match e {
        Tree::Value(v) => number_text(v, digits),
        Tree::Symbol(s) => s,
        Tree::Neg(a) => "-"@ + expr_text(*a, PrecedenceContext::Neg, digits),
        Tree::Binary(op, a, b) => {
            let own = precedence_of(e);
            wrapped(
                expr_text(*a, own, digits) + operator_text(op) + expr_text(*b, own, digits),
                own.rank() < p.rank(),
            )
        },
        Tree::Apply(f, args) => "\""@ + expr_text(
            *f,
            PrecedenceContext::NoPrecedence,
            DISPLAY_DIGITS as int,
        ) + "\"("@ + list_text(args, digits) + ")"@,
    }
}

/// The texts of arguments, separated by commas.
pub open spec fn list_text(args: Seq<Tree>, digits: int) -> Seq<char>
    decreases args,
{
    if args.len() == 0 {
        Seq::empty()
    } else if args.len() == 1 {
        expr_text(args[0], PrecedenceContext::NoPrecedence, digits)
    } else {
        list_text(args.drop_last(), digits) + ","@ + expr_text(
            args.last(),
            PrecedenceContext::NoPrecedence,
            digits,
        )
    }
}

/// Appends `n` zeros.
fn push_zeros(out: &mut String, n: u128)
    ensures
        final(out)@ == old(out)@ + zeros(n as nat),
{
    let mut i: u128 = 0;
    while i < n
        invariant
            i <= n,
            out@ == old(out)@ + zeros(i as nat),
        decreases n - i,
    {
        out.append("0");
        i = i + 1;
        assert(out@ == old(out)@ + zeros(i as nat)) by {
            assert(zeros(i as nat) == zeros((i - 1) as nat) + "0"@);
            assert(out@ =~= old(out)@ + (zeros((i - 1) as nat) + "0"@));
        }
    }
}

/// Writes significant digits in the notation that their exponent selects.
fn format_digits(text: &str, exponent: i128) -> (r: String)
    requires
        text@.len() >= 1,
        -0x4_0000_0000_0000_0000 <= exponent <= 0x4_0000_0000_0000_0000,
    ensures
        r@ == notation(text@, exponent as int),
{
    let len = text.unicode_len();
    let mut out = String::new();
    if exponent <= -4 {
        out.append(text.substring_char(0, 1));
        out.append(".");
        out.append(text.substring_char(1, len));
        out.append("e");
        let e = int_to_text(&int_from_i128(exponent));
        out.append(e.as_str());
        assert(out@ =~= notation(text@, exponent as int));
    } else if exponent <= -1 {
        out.append("0.");
        push_zeros(&mut out, (-exponent - 1) as u128);
        out.append(text);
        assert(out@ =~= notation(text@, exponent as int));
    } else if exponent == 0 {
        out.append(text.substring_char(0, 1));
        out.append(".");
        out.append(text.substring_char(1, len));
        assert(out@ =~= notation(text@, exponent as int));
    } else if exponent < len as i128 - 1 {
        let point = (exponent + 1) as usize;
        out.append(text.substring_char(0, point));
        out.append(".");
        out.append(text.substring_char(point, len));
        assert(out@ =~= notation(text@, exponent as int));
    } else {
        out.append(text);
        push_zeros(&mut out, (exponent - (len as i128 - 1)) as u128);
        assert(out@ =~= notation(text@, exponent as int));
    }
    out
}

/// The text of a decimal at `digits` significant digits.
pub(crate) fn format_decimal(d: &Decimal, digits: u32) -> (r: String)
    requires
        1 <= digits <= MAX_DIGITS,
    ensures
        r@ == decimal_text(d@, digits as int),
{
    let raw = d.to_raw();
    let shown = dec_round(&raw, digits);
    let (value, scale) = dec_parts(&shown);
    if int_is_zero(&value) {
        return String::from_str("0");
    }
    let negative = int_is_negative(&value);
    let magnitude = if negative { int_neg(value) } else { value };
    let text = int_to_text(&magnitude);
    proof {
        lemma_nat_text_len(int_value(magnitude) as nat);
    }
    let len = text.as_str().unicode_len();
    let exponent: i128 = len as i128 - 1 - scale as i128;
    let body = format_digits(text.as_str(), exponent);
    if negative {
        let mut out = String::from_str("-");
        out.append(body.as_str());
        out
    } else {
        body
    }
}

/// Writes expressions into a buffer of text.
pub struct Printer {
    writer: String,
    round_digits: u32,
}

impl Printer {
    /// A printer shows at least one digit and at most `MAX_DIGITS`.
    pub closed spec fn wf(&self) -> bool {
        1 <= self.round_digits <= MAX_DIGITS
    }

    /// What has been written so far.
    pub closed spec fn written(&self) -> Seq<char> {
        self.writer@
    }

    /// The number of significant digits that decimals are shown with.
    pub closed spec fn digits(&self) -> int {
        self.round_digits as int
    }

    /// An empty printer that shows decimals with the default digits.
    pub fn new() -> (r: Printer)
        ensures
            r.wf(),
            r.written() == Seq::<char>::empty(),
            r.digits() == DISPLAY_DIGITS,
    {
        Printer { writer: String::new(), round_digits: DISPLAY_DIGITS }
    }

    /// An empty printer that shows decimals with `round_digits` digits;
    /// `None` exactly for zero digits or more than `MAX_DIGITS`.
    pub fn with_digits(round_digits: u32) -> (r: Option<Printer>)
        ensures
            r is Some <==> 1 <= round_digits <= MAX_DIGITS,
            r matches Some(p) ==> p.wf() && p.written() == Seq::<char>::empty() && p.digits()
                == round_digits,
    {
        if 1 <= round_digits && round_digits <= MAX_DIGITS {
            Some(Printer { writer: String::new(), round_digits })
        } else {
            None
        }
    }

    /// The text written.
    pub fn into_inner(self) -> (r: String)
        ensures
            r@ == self.written(),
    {
        self.writer
    }

    /// Writes an expression that stands alone.
    pub fn print(&mut self, x: &Expr)
        requires
            old(self).wf(),
        ensures
            final(self).wf(),
            final(self).digits() == old(self).digits(),
            final(self).written() == old(self).written() + expr_text(
                x@,
                PrecedenceContext::NoPrecedence,
                old(self).digits(),
            ),
    {
        self.print_with_precedence(x, PrecedenceContext::NoPrecedence)
    }

    /// Writes what `f` returns, between parentheses where `parens` holds.
    pub fn maybe_enter_parens<F: FnOnce() -> String>(&mut self, f: F, parens: bool)
        requires
            call_requires(f, ()),
        ensures
            final(self).wf() == old(self).wf(),
            final(self).digits() == old(self).digits(),
            exists|inner: String|
                call_ensures(f, (), inner) && final(self).written() == old(self).written()
                    + wrapped(inner@, parens),
    {
        if parens {
            self.writer.append("(");
        }
        let inner = f();
        self.writer.append(inner.as_str());
        if parens {
            self.writer.append(")");
        }
        assert(self.writer@ =~= old(self).writer@ + wrapped(inner@, parens));
    }

    /// Writes an expression that stands where precedence `p` is required.
    pub fn print_with_precedence(&mut self, x: &Expr, p: PrecedenceContext)
        requires
            old(self).wf(),
        ensures
            final(self).wf(),
            final(self).digits() == old(self).digits(),
            final(self).written() == old(self).written() + expr_text(x@, p, old(self).digits()),
        decreases x, 0int,
    {
        let new_ctxt = x.precedence();
        let digits = self.round_digits;
        match x {
            Expr::Value(v) => match v {
                Value::Decimal(dec) => {
                    let text = format_decimal(dec, digits);
                    self.writer.append(text.as_str());
                },
                Value::Exact(e) => {
                    let text = e.to_text();
                    self.writer.append(text.as_str());
                },
            },
            Expr::Symbol(s) => {
                self.writer.append(s.as_str());
            },
            Expr::Neg(inner) => {
                self.writer.append("-");
                self.print_with_precedence(inner, new_ctxt);
                assert(self.writer@ =~= old(self).writer@ + expr_text(x@, p, digits as int));
            },
            Expr::Add(exprs) | Expr::Sub(exprs) | Expr::Mul(exprs) | Expr::Div(exprs) => {
                let ghost op = x@->Binary_0;
                let s = match x {
                    Expr::Add(_) => "+",
                    Expr::Mul(_) => "*",
                    Expr::Div(_) => "/",
                    _ => "-",
                };
                let f = || -> (inner: String)
                    ensures
                        inner@ == expr_text(exprs.0@, new_ctxt, digits as int) + operator_text(op)
                            + expr_text(exprs.1@, new_ctxt, digits as int),
                    {
                        let mut this = Printer { writer: String::new(), round_digits: digits };
                        this.print_with_precedence(&exprs.0, new_ctxt);
                        this.writer.append(s);
                        this.print_with_precedence(&exprs.1, new_ctxt);
                        assert(this.writer@ =~= expr_text(exprs.0@, new_ctxt, digits as int)
                            + operator_text(op) + expr_text(exprs.1@, new_ctxt, digits as int));
                        this.writer
                    };
                self.maybe_enter_parens(f, new_ctxt.below(p));
            },
            Expr::Apply(name, params) => {
                self.writer.append("\"");
                let callee = name.to_display_string();
                self.writer.append(callee.as_str());
                self.writer.append("\"(");
                let ghost base = self.writer@;
                let ghost all = trees(params@);
                let mut n: usize = 0;
                while n < params.len()
                    invariant
                        n <= params@.len(),
                        *x == Expr::Apply(*name, *params),
                        all == trees(params@),
                        self.round_digits == digits,
                        1 <= digits <= MAX_DIGITS,
                        self.writer@ == base + list_text(all.take(n as int), digits as int),
                    decreases params@.len() - n,
                {
                    if n != 0 {
                        self.writer.append(",");
                    }
                    proof {
                        assert(x->Apply_1 == *params);
                        assert(decreases_to!(*x => x->Apply_1));
                        assert(decreases_to!(*params => params[n as int]));
                    }
                    self.print_with_precedence(&params[n], PrecedenceContext::NoPrecedence);
                    proof {
                        let now = all.take(n + 1);
                        assert(now.drop_last() =~= all.take(n as int));
                        assert(now.last() == params@[n as int]@);
                        assert(self.writer@ =~= base + list_text(now, digits as int));
                    }
                    n = n + 1;
                }
                self.writer.append(")");
                proof {
                    assert(all.take(n as int) =~= all);
                    assert(x@->Apply_1 =~= all);
                    assert(self.writer@ =~= old(self).writer@ + expr_text(x@, p, digits as int));
                }
            },
        }
    }
}

impl Expr {
    /// The text of this expression, with decimals at the default digits.
    pub fn to_display_string(&self) -> (r: String)
        ensures
            r@ == expr_text(self@, PrecedenceContext::NoPrecedence, DISPLAY_DIGITS as int),
        decreases self, 1int,
    {
        let mut p = Printer::new();
        p.print_with_precedence(self, PrecedenceContext::NoPrecedence);
        p.into_inner()
    }
}

impl Value {
    /// The text of this value, with a decimal at the default digits.
    pub fn to_display_string(&self) -> (r: String)
        ensures
            r@ == number_text(self@, DISPLAY_DIGITS as int),
    {
        match self {
            Value::Exact(q) => q.to_text(),
            Value::Decimal(d) => format_decimal(d, DISPLAY_DIGITS),
        }
    }
}

} // verus!
