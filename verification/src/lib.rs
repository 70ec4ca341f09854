//! The core of an arbitrary-precision calculator: exact rationals and
//! rounded decimals, a grammar that reads expressions, an evaluator that
//! reduces them, a sine by range reduction and fixed polynomials, and a
//! printer that writes results with the parentheses that precedence asks for.
pub mod decimal;
pub mod div;
pub mod expr;
pub mod integer;
pub mod laws;
pub mod parse;
pub mod print;
pub mod rational;
pub mod trig;
