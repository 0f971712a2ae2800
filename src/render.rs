//! Canonical text of an expression, as a sequence of pieces.
//!
//! The pieces spell the expression fully parenthesised; a number is spelled
//! with a zero part left out. How a single binary64 value is written in
//! decimal is left to whoever joins the pieces into text.
use vstd::prelude::*;
use crate::complex::{Complex, MAGNITUDE_MASK, is_nonzero, is_nonzero_bits};
use crate::expression::{Expression, function_symbol, infix_symbol, prefix_symbol};

verus! {

/// Mask of the sign bit of a binary64 bit pattern.
pub const SIGN_MASK: u64 = 0x8000_0000_0000_0000;

/// One piece of canonical text.
#[derive(Debug)]
pub enum Piece {
    /// Fixed text: a parenthesis, a bracket, an operator, a function name, `pi`.
    Symbol(&'static str),
    /// The name of a memory region.
    Name(String),
    /// A variable: its name after the marker `%`.
    Variable(String),
    /// The index of a memory cell.
    Index(u64),
    /// A binary64 value, by bit pattern, written in decimal.
    Real(u64),
    /// A binary64 value, by bit pattern, written in decimal and followed by `i`.
    Imaginary(u64),
}

/// The part with bit pattern `bits` is above zero.
pub open spec fn is_positive_bits(bits: u64) -> bool {
    bits & SIGN_MASK == 0 && is_nonzero_bits(bits)
}

/// The part with bit pattern `bits` equals zero (either signed zero).
pub open spec fn is_zero_bits(bits: u64) -> bool {
    bits & MAGNITUDE_MASK == 0
}

/// The pieces of a number: the real part alone where the imaginary part is
/// zero, the imaginary part alone where only the real part is zero, and both
/// otherwise, with a `+` between them where the imaginary part is positive.
pub open spec fn number_pieces(c: Complex) -> Seq<Piece> {
    if !is_nonzero_bits(c.im) {
        seq![Piece::Real(c.re)]
    } else if is_zero_bits(c.re) {
        seq![Piece::Imaginary(c.im)]
    } else if is_positive_bits(c.im) {
        seq![Piece::Real(c.re), Piece::Symbol("+"), Piece::Imaginary(c.im)]
    } else {
        seq![Piece::Real(c.re), Piece::Imaginary(c.im)]
    }
}

/// The pieces of the canonical text of `e`.
pub open spec fn pieces_of(e: Expression) -> Seq<Piece>
    decreases e,
{
    match e {
        Expression::Address(m) => seq![
            Piece::Name(m.name),
            Piece::Symbol("["),
            Piece::Index(m.index),
            Piece::Symbol("]"),
        ],
        Expression::FunctionCall { function, expression } => seq![
            Piece::Symbol(function_symbol(function)),
            Piece::Symbol("("),
        ] + pieces_of(*expression) + seq![Piece::Symbol(")")],
        Expression::Infix { left, operator, right } => seq![Piece::Symbol("(")] + pieces_of(*left)
            + seq![Piece::Symbol(infix_symbol(operator))] + pieces_of(*right) + seq![
            Piece::Symbol(")"),
        ],
        Expression::Number(c) => number_pieces(c),
        Expression::PiConstant => seq![Piece::Symbol("pi")],
        Expression::Prefix { operator, expression } => seq![
            Piece::Symbol("("),
            Piece::Symbol(prefix_symbol(operator)),
        ] + pieces_of(*expression) + seq![Piece::Symbol(")")],
        Expression::Variable(v) => seq![Piece::Variable(v)],
    }
}

fn write_number(c: Complex, out: &mut Vec<Piece>)
    ensures
        final(out)@ == old(out)@ + number_pieces(c),
{
    let ghost start = out@;
    if !is_nonzero(c.im) {
        out.push(Piece::Real(c.re));
    } else if c.re & MAGNITUDE_MASK == 0 {
        out.push(Piece::Imaginary(c.im));
    } else if c.im & SIGN_MASK == 0 {
        out.push(Piece::Real(c.re));
        out.push(Piece::Symbol("+"));
        out.push(Piece::Imaginary(c.im));
    } else {
        out.push(Piece::Real(c.re));
        out.push(Piece::Imaginary(c.im));
    }
    assert(out@ =~= start + number_pieces(c));
}

fn write_pieces(e: &Expression, out: &mut Vec<Piece>)
    ensures
        final(out)@ == old(out)@ + pieces_of(*e),
    decreases e,
{
    let ghost start = out@;
    match e {
        Expression::Address(m) => {
            out.push(Piece::Name(m.name.clone()));
            out.push(Piece::Symbol("["));
            out.push(Piece::Index(m.index));
            out.push(Piece::Symbol("]"));
        },
        Expression::FunctionCall { function, expression } => {
            out.push(Piece::Symbol(function.fmt()));
            out.push(Piece::Symbol("("));
            write_pieces(expression, out);
            out.push(Piece::Symbol(")"));
        },
        Expression::Infix { left, operator, right } => {
            out.push(Piece::Symbol("("));
            write_pieces(left, out);
            out.push(Piece::Symbol(operator.fmt()));
            write_pieces(right, out);
            out.push(Piece::Symbol(")"));
        },
        Expression::Number(c) => {
            write_number(*c, out);
        },
        Expression::PiConstant => {
            out.push(Piece::Symbol("pi"));
        },
        Expression::Prefix { operator, expression } => {
            out.push(Piece::Symbol("("));
            out.push(Piece::Symbol(operator.fmt()));
            write_pieces(expression, out);
            out.push(Piece::Symbol(")"));
        },
        Expression::Variable(v) => {
            out.push(Piece::Variable(v.clone()));
        },
    }
    assert(out@ =~= start + pieces_of(*e));
}

impl Expression {
    /// The canonical text of this expression, piece by piece.
    pub fn fmt(&self) -> (r: Vec<Piece>)
        ensures
            r@ == pieces_of(*self),
    {
        let mut out: Vec<Piece> = Vec::new();
        write_pieces(self, &mut out);
        assert(out@ =~= pieces_of(*self));
        out
    }
}

} // verus!
