//! The expression grammar: operator-precedence parsing of a token slice.
//!
//! From loosest to tightest: `+` and `-` (left-associative), `*` and `/`
//! (left-associative), `^` (right-associative), unary `+` and `-`, and the
//! primaries: numbers, `pi`, variables, memory cells `name[index]` (a bare
//! name is cell 0), function calls and parenthesised expressions.
use vstd::prelude::*;
use crate::complex::{Complex, MAGNITUDE_MASK, binary64_of_integer, integer_bits, is_nonzero_bits};
use crate::canonical::{equivalent, key_of};
use crate::render::{Piece, is_positive_bits, is_zero_bits, number_pieces, pieces_of};
use crate::dispatch::Token;
use crate::expression::{
    Expression, ExpressionFunction, InfixOperator, MemoryReference, PrefixOperator,
    function_symbol, infix_symbol, prefix_symbol,
};

verus! {

/// The function that a name calls, if it names one.
pub open spec fn function_named(s: Seq<char>) -> Option<ExpressionFunction> {
    if s == function_symbol(ExpressionFunction::Cis)@ {
        Some(ExpressionFunction::Cis)
    } else if s == function_symbol(ExpressionFunction::Cosine)@ {
        Some(ExpressionFunction::Cosine)
    } else if s == function_symbol(ExpressionFunction::Exponent)@ {
        Some(ExpressionFunction::Exponent)
    } else if s == function_symbol(ExpressionFunction::Sine)@ {
        Some(ExpressionFunction::Sine)
    } else if s == function_symbol(ExpressionFunction::SquareRoot)@ {
        Some(ExpressionFunction::SquareRoot)
    } else {
        None
    }
}

/// Whether the token at `p` is the operator `op`.
pub open spec fn is_operator_at(t: Seq<Token>, p: int, op: InfixOperator) -> bool {
    0 <= p < t.len() && t[p] == Token::Operator(op)
}

/// Whether the token at `p` is a closing parenthesis.
pub open spec fn closes_at(t: Seq<Token>, p: int) -> bool {
    0 <= p < t.len() && t[p] is RParenthesis
}

/// A sum or difference of terms from `p`: the expression and the position after it.
pub open spec fn parse_sum(t: Seq<Token>, p: int) -> Option<(Expression, int)>
    decreases t.len() - p, 4int,
{
    if p < 0 || p > t.len() {
        None
    } else {
        match parse_product(t, p) {
            Some((l, j)) => if p < j <= t.len() {
                parse_sum_rest(t, l, j)
            } else {
                None
            },
            None => None,
        }
    }
}

/// Further `+ term` or `- term` after `acc`, ending at `j`.
pub open spec fn parse_sum_rest(t: Seq<Token>, acc: Expression, j: int) -> Option<(Expression, int)>
    decreases t.len() - j, 5int,
{
    if j < 0 || j > t.len() {
        None
    } else if is_operator_at(t, j, InfixOperator::Plus) || is_operator_at(t, j, InfixOperator::Minus) {
        let op = t[j]->Operator_0;
        match parse_product(t, j + 1) {
            Some((r, k)) => if j < k <= t.len() {
                parse_sum_rest(
                    t,
                    Expression::Infix { left: Box::new(acc), operator: op, right: Box::new(r) },
                    k,
                )
            } else {
                None
            },
            None => None,
        }
    } else {
        Some((acc, j))
    }
}

/// A product or quotient of powers from `p`.
pub open spec fn parse_product(t: Seq<Token>, p: int) -> Option<(Expression, int)>
    decreases t.len() - p, 3int,
{
    if p < 0 || p > t.len() {
        None
    } else {
        match parse_power(t, p) {
            Some((l, j)) => if p < j <= t.len() {
                parse_product_rest(t, l, j)
            } else {
                None
            },
            None => None,
        }
    }
}

/// Further `* power` or `/ power` after `acc`, ending at `j`.
pub open spec fn parse_product_rest(t: Seq<Token>, acc: Expression, j: int) -> Option<
    (Expression, int),
>
    decreases t.len() - j, 3int,
{
    if j < 0 || j > t.len() {
        None
    } else if is_operator_at(t, j, InfixOperator::Star) || is_operator_at(t, j, InfixOperator::Slash) {
        let op = t[j]->Operator_0;
        match parse_power(t, j + 1) {
            Some((r, k)) => if j < k <= t.len() {
                parse_product_rest(
                    t,
                    Expression::Infix { left: Box::new(acc), operator: op, right: Box::new(r) },
                    k,
                )
            } else {
                None
            },
            None => None,
        }
    } else {
        Some((acc, j))
    }
}

/// A unary expression, raised to a power where `^` follows.
pub open spec fn parse_power(t: Seq<Token>, p: int) -> Option<(Expression, int)>
    decreases t.len() - p, 2int,
{
    if p < 0 || p > t.len() {
        None
    } else {
        match parse_unary(t, p) {
            Some((l, j)) => if p < j <= t.len() {
                if is_operator_at(t, j, InfixOperator::Caret) {
                    match parse_power(t, j + 1) {
                        Some((r, k)) => Some(
                            (
                                Expression::Infix {
                                    left: Box::new(l),
                                    operator: InfixOperator::Caret,
                                    right: Box::new(r),
                                },
                                k,
                            ),
                        ),
                        None => None,
                    }
                } else {
                    Some((l, j))
                }
            } else {
                None
            },
            None => None,
        }
    }
}

/// A primary, possibly under unary `+` and `-`.
pub open spec fn parse_unary(t: Seq<Token>, p: int) -> Option<(Expression, int)>
    decreases t.len() - p, 1int,
{
    if p < 0 || p >= t.len() {
        None
    } else if is_operator_at(t, p, InfixOperator::Plus) || is_operator_at(t, p, InfixOperator::Minus) {
        let op = if t[p]->Operator_0 is Plus {
            PrefixOperator::Plus
        } else {
            PrefixOperator::Minus
        };
        match parse_unary(t, p + 1) {
            Some((x, k)) => Some((Expression::Prefix { operator: op, expression: Box::new(x) }, k)),
            None => None,
        }
    } else {
        parse_primary(t, p)
    }
}

/// A number, `pi`, a variable, a memory cell, a function call or a
/// parenthesised expression at `p`.
pub open spec fn parse_primary(t: Seq<Token>, p: int) -> Option<(Expression, int)>
    decreases t.len() - p, 0int,
{
    if p < 0 || p >= t.len() {
        None
    } else {
        match t[p] {
            Token::Float(b) => Some((Expression::Number(Complex { re: b, im: 0 }), p + 1)),
            Token::Integer(n) => Some(
                (Expression::Number(Complex { re: integer_bits(n), im: 0 }), p + 1),
            ),
            Token::Imaginary(b) => Some((Expression::Number(Complex { re: 0, im: b }), p + 1)),
            Token::Variable(v) => Some((Expression::Variable(v), p + 1)),
            Token::LParenthesis => match parse_sum(t, p + 1) {
                Some((x, k)) => if closes_at(t, k) {
                    Some((x, k + 1))
                } else {
                    None
                },
                None => None,
            },
            Token::Identifier(s) => if p + 1 < t.len() && t[p + 1] is LBracket {
                if p + 3 < t.len() && t[p + 2] is Integer && t[p + 3] is RBracket {
                    Some(
                        (
                            Expression::Address(
                                MemoryReference { name: s, index: t[p + 2]->Integer_0 },
                            ),
                            p + 4,
                        ),
                    )
                } else {
                    None
                }
            } else if s@ == "pi"@ {
                Some((Expression::PiConstant, p + 1))
            } else if function_named(s@) is Some && p + 1 < t.len() && t[p + 1] is LParenthesis {
                match parse_sum(t, p + 2) {
                    Some((x, k)) => if closes_at(t, k) {
                        Some(
                            (
                                Expression::FunctionCall {
                                    function: function_named(s@)->Some_0,
                                    expression: Box::new(x),
                                },
                                k + 1,
                            ),
                        )
                    } else {
                        None
                    },
                    None => None,
                }
            } else {
                Some((Expression::Address(MemoryReference { name: s, index: 0 }), p + 1))
            },
            _ => None,
        }
    }
}

/// Why text is not one expression.
#[derive(Debug)]
pub enum ExpressionParseError {
    /// No expression starts the tokens.
    Invalid,
    /// The expression `parsed` was read, but `count` tokens follow it.
    ExtraTokens { parsed: Expression, count: usize },
}

/// The outcome of reading all of `t` as one expression.
pub open spec fn parsed_whole(t: Seq<Token>) -> Result<Expression, ExpressionParseError> {
    match parse_sum(t, 0) {
        Some((e, j)) => if j == t.len() {
            Ok(e)
        } else if j < t.len() {
            Err(ExpressionParseError::ExtraTokens { parsed: e, count: (t.len() - j) as usize })
        } else {
            Err(ExpressionParseError::Invalid)
        },
        None => Err(ExpressionParseError::Invalid),
    }
}

/// A parse result with its position as an integer.
pub open spec fn at_int(r: Option<(Expression, usize)>) -> Option<(Expression, int)> {
    match r {
        Some((e, j)) => Some((e, j as int)),
        None => None,
    }
}

/// Whether `s` spells `lit`.
fn text_equals(s: &String, lit: &str) -> (r: bool)
    ensures
        r == (s@ == lit@),
{
    let a = s.as_str();
    let n = a.unicode_len();
    if n != lit.unicode_len() {
        return false;
    }
    let mut i: usize = 0;
    while i < n
        invariant
            n == a@.len(),
            n == lit@.len(),
            a@ == s@,
            0 <= i <= n,
            forall|j: int| 0 <= j < i ==> a@[j] == lit@[j],
        decreases n - i,
    {
        if a.get_char(i) != lit.get_char(i) {
            return false;
        }
        i = i + 1;
    }
    assert(a@ =~= lit@);
    true
}

fn function_of_name(s: &String) -> (r: Option<ExpressionFunction>)
    ensures
        r == function_named(s@),
{
    if text_equals(s, "cis") {
        Some(ExpressionFunction::Cis)
    } else if text_equals(s, "cos") {
        Some(ExpressionFunction::Cosine)
    } else if text_equals(s, "exp") {
        Some(ExpressionFunction::Exponent)
    } else if text_equals(s, "sin") {
        Some(ExpressionFunction::Sine)
    } else if text_equals(s, "sqrt") {
        Some(ExpressionFunction::SquareRoot)
    } else {
        None
    }
}

fn operator_at(tokens: &Vec<Token>, p: usize) -> (r: Option<InfixOperator>)
    ensures
        match r {
            Some(op) => is_operator_at(tokens@, p as int, op),
            None => forall|op: InfixOperator| !is_operator_at(tokens@, p as int, op),
        },
{
    if p < tokens.len() {
        match &tokens[p] {
            Token::Operator(op) => Some(*op),
            _ => None,
        }
    } else {
        None
    }
}

fn closes(tokens: &Vec<Token>, p: usize) -> (r: bool)
    ensures
        r == closes_at(tokens@, p as int),
{
    p < tokens.len() && match &tokens[p] {
        Token::RParenthesis => true,
        _ => false,
    }
}

fn sum_at(tokens: &Vec<Token>, p: usize) -> (r: Option<(Expression, usize)>)
    ensures
        at_int(r) == parse_sum(tokens@, p as int),
    decreases tokens@.len() - p, 4int,
{
    if p > tokens.len() {
        return None;
    }
    match product_at(tokens, p) {
        Some((l, j)) => if p < j && j <= tokens.len() {
            sum_rest_at(tokens, l, j)
        } else {
            None
        },
        None => None,
    }
}

fn sum_rest_at(tokens: &Vec<Token>, acc: Expression, j: usize) -> (r: Option<(Expression, usize)>)
    ensures
        at_int(r) == parse_sum_rest(tokens@, acc, j as int),
    decreases tokens@.len() - j, 5int,
{
    if j > tokens.len() {
        return None;
    }
    match operator_at(tokens, j) {
        Some(op) if matches!(op, InfixOperator::Plus | InfixOperator::Minus) => {
            match product_at(tokens, j + 1) {
                Some((r, k)) => if j < k && k <= tokens.len() {
                    sum_rest_at(
                        tokens,
                        Expression::Infix { left: Box::new(acc), operator: op, right: Box::new(r) },
                        k,
                    )
                } else {
                    None
                },
                None => None,
            }
        },
        _ => Some((acc, j)),
    }
}

fn product_at(tokens: &Vec<Token>, p: usize) -> (r: Option<(Expression, usize)>)
    ensures
        at_int(r) == parse_product(tokens@, p as int),
    decreases tokens@.len() - p, 3int,
{
    if p > tokens.len() {
        return None;
    }
    match power_at(tokens, p) {
        Some((l, j)) => if p < j && j <= tokens.len() {
            product_rest_at(tokens, l, j)
        } else {
            None
        },
        None => None,
    }
}

fn product_rest_at(tokens: &Vec<Token>, acc: Expression, j: usize) -> (r: Option<
    (Expression, usize),
>)
    ensures
        at_int(r) == parse_product_rest(tokens@, acc, j as int),
    decreases tokens@.len() - j, 3int,
{
    if j > tokens.len() {
        return None;
    }
    match operator_at(tokens, j) {
        Some(op) if matches!(op, InfixOperator::Star | InfixOperator::Slash) => {
            match power_at(tokens, j + 1) {
                Some((r, k)) => if j < k && k <= tokens.len() {
                    product_rest_at(
                        tokens,
                        Expression::Infix { left: Box::new(acc), operator: op, right: Box::new(r) },
                        k,
                    )
                } else {
                    None
                },
                None => None,
            }
        },
        _ => Some((acc, j)),
    }
}

fn power_at(tokens: &Vec<Token>, p: usize) -> (r: Option<(Expression, usize)>)
    ensures
        at_int(r) == parse_power(tokens@, p as int),
    decreases tokens@.len() - p, 2int,
{
    if p > tokens.len() {
        return None;
    }
    match unary_at(tokens, p) {
        Some((l, j)) => if p < j && j <= tokens.len() {
            match operator_at(tokens, j) {
                Some(InfixOperator::Caret) => match power_at(tokens, j + 1) {
                    Some((r, k)) => Some(
                        (
                            Expression::Infix {
                                left: Box::new(l),
                                operator: InfixOperator::Caret,
                                right: Box::new(r),
                            },
                            k,
                        ),
                    ),
                    None => None,
                },
                _ => Some((l, j)),
            }
        } else {
            None
        },
        None => None,
    }
}

fn unary_at(tokens: &Vec<Token>, p: usize) -> (r: Option<(Expression, usize)>)
    ensures
        at_int(r) == parse_unary(tokens@, p as int),
    decreases tokens@.len() - p, 1int,
{
    if p >= tokens.len() {
        return None;
    }
    let op = match operator_at(tokens, p) {
        Some(InfixOperator::Plus) => Some(PrefixOperator::Plus),
        Some(InfixOperator::Minus) => Some(PrefixOperator::Minus),
        _ => None,
    };
    match op {
        Some(op) => match unary_at(tokens, p + 1) {
            Some((x, k)) => Some((Expression::Prefix { operator: op, expression: Box::new(x) }, k)),
            None => None,
        },
        None => primary_at(tokens, p),
    }
}

fn primary_at(tokens: &Vec<Token>, p: usize) -> (r: Option<(Expression, usize)>)
    ensures
        at_int(r) == parse_primary(tokens@, p as int),
    decreases tokens@.len() - p, 0int,
{
    if p >= tokens.len() {
        return None;
    }
    match &tokens[p] {
        Token::Float(b) => Some((Expression::Number(Complex { re: *b, im: 0 }), p + 1)),
        Token::Integer(n) => Some(
            (Expression::Number(Complex { re: binary64_of_integer(*n), im: 0 }), p + 1),
        ),
        Token::Imaginary(b) => Some((Expression::Number(Complex { re: 0, im: *b }), p + 1)),
        Token::Variable(v) => Some((Expression::Variable(v.clone()), p + 1)),
        Token::LParenthesis => match sum_at(tokens, p + 1) {
            Some((x, k)) => if closes(tokens, k) {
                Some((x, k + 1))
            } else {
                None
            },
            None => None,
        },
        Token::Identifier(s) => {
            let bracket = p + 1 < tokens.len() && match &tokens[p + 1] {
                Token::LBracket => true,
                _ => false,
            };
            let paren = p + 1 < tokens.len() && match &tokens[p + 1] {
                Token::LParenthesis => true,
                _ => false,
            };
            if bracket {
                if tokens.len() - p > 3 {
                    match (&tokens[p + 2], &tokens[p + 3]) {
                        (Token::Integer(n), Token::RBracket) => Some(
                            (
                                Expression::Address(MemoryReference { name: s.clone(), index: *n }),
                                p + 4,
                            ),
                        ),
                        _ => None,
                    }
                } else {
                    None
                }
            } else if text_equals(s, "pi") {
                Some((Expression::PiConstant, p + 1))
            } else {
                match function_of_name(s) {
                    Some(f) if paren => match sum_at(tokens, p + 2) {
                        Some((x, k)) => if closes(tokens, k) {
                            Some((Expression::FunctionCall { function: f, expression: Box::new(x) }, k + 1))
                        } else {
                            None
                        },
                        None => None,
                    },
                    _ => Some(
                        (Expression::Address(MemoryReference { name: s.clone(), index: 0 }), p + 1),
                    ),
                }
            }
        },
        _ => None,
    }
}

/// The token that a fixed piece of text reads as: punctuation and operators
/// as themselves, a function name or `pi` as an identifier.
pub open spec fn symbol_lexes_as(s: Seq<char>, t: Token) -> bool {
    if s == "("@ {
        t is LParenthesis
    } else if s == ")"@ {
        t is RParenthesis
    } else if s == "["@ {
        t is LBracket
    } else if s == "]"@ {
        t is RBracket
    } else if s == "^"@ {
        t == Token::Operator(InfixOperator::Caret)
    } else if s == "+"@ {
        t == Token::Operator(InfixOperator::Plus)
    } else if s == "-"@ {
        t == Token::Operator(InfixOperator::Minus)
    } else if s == "/"@ {
        t == Token::Operator(InfixOperator::Slash)
    } else if s == "*"@ {
        t == Token::Operator(InfixOperator::Star)
    } else {
        t is Identifier && t->Identifier_0@ == s
    }
}

/// The token that a piece of canonical text reads as.
pub open spec fn lexes_as(piece: Piece, t: Token) -> bool {
    match piece {
        Piece::Symbol(s) => symbol_lexes_as(s@, t),
        Piece::Name(n) => t is Identifier && t->Identifier_0@ == n@,
        Piece::Variable(v) => t is Variable && t->Variable_0@ == v@,
        Piece::Index(i) => t == Token::Integer(i),
        Piece::Real(b) => t == Token::Float(b),
        Piece::Imaginary(b) => t == Token::Imaginary(b),
    }
}

/// Whether the tokens `t` from `p` on read the pieces one for one.
pub open spec fn lexes_from(pieces: Seq<Piece>, t: Seq<Token>, p: int) -> bool {
    0 <= p && p + pieces.len() <= t.len() && forall|i: int|
        0 <= i < pieces.len() ==> lexes_as(#[trigger] pieces[i], t[p + i])
}

/// How the fixed pieces of canonical text read.
proof fn lemma_symbol_readings()
    ensures
        forall|t: Token| #[trigger] symbol_lexes_as("("@, t) == t is LParenthesis,
        forall|t: Token| #[trigger] symbol_lexes_as(")"@, t) == t is RParenthesis,
        forall|t: Token| #[trigger] symbol_lexes_as("["@, t) == t is LBracket,
        forall|t: Token| #[trigger] symbol_lexes_as("]"@, t) == t is RBracket,
        forall|t: Token, op: InfixOperator| #[trigger]
            symbol_lexes_as(infix_symbol(op)@, t) == (t == Token::Operator(op)),
        forall|t: Token, op: PrefixOperator| #[trigger]
            symbol_lexes_as(prefix_symbol(op)@, t) == (t == Token::Operator(prefix_token(op))),
        forall|t: Token, f: ExpressionFunction| #[trigger]
            symbol_lexes_as(function_symbol(f)@, t) == (t is Identifier && t->Identifier_0@
                == function_symbol(f)@),
        forall|t: Token| #[trigger]
            symbol_lexes_as("pi"@, t) == (t is Identifier && t->Identifier_0@ == "pi"@),
{
    reveal_strlit("(");
    reveal_strlit(")");
    reveal_strlit("[");
    reveal_strlit("]");
    reveal_strlit("^");
    reveal_strlit("+");
    reveal_strlit("-");
    reveal_strlit("/");
    reveal_strlit("*");
    reveal_strlit("pi");
    reveal_strlit("cis");
    reveal_strlit("cos");
    reveal_strlit("exp");
    reveal_strlit("sin");
    reveal_strlit("sqrt");
    assert("("@.len() == 1 && ")"@.len() == 1 && "["@.len() == 1 && "]"@.len() == 1);
    assert("^"@.len() == 1 && "+"@.len() == 1 && "-"@.len() == 1 && "/"@.len() == 1);
    assert("*"@.len() == 1 && "pi"@.len() == 2);
    assert forall|f: ExpressionFunction| #[trigger] function_symbol(f)@.len() >= 3 by {
        match f {
            ExpressionFunction::Cis => {},
            ExpressionFunction::Cosine => {},
            ExpressionFunction::Exponent => {},
            ExpressionFunction::Sine => {},
            ExpressionFunction::SquareRoot => {},
        }
    }
    let singles = seq!["("@, ")"@, "["@, "]"@, "^"@, "+"@, "-"@, "/"@, "*"@];
    assert forall|i: int, j: int| 0 <= i < j < 9 implies #[trigger] singles[i] != #[trigger] singles[j] by {
        assert(singles[i][0] != singles[j][0]);
    }
    assert(singles[0] != singles[1]);
    assert forall|t: Token, op: InfixOperator| #[trigger]
        symbol_lexes_as(infix_symbol(op)@, t) == (t == Token::Operator(op)) by {
        assert(singles[4] != singles[5]);
        assert(singles[5] != singles[6]);
        assert(singles[6] != singles[7]);
        assert(singles[7] != singles[8]);
        assert(singles[0] != singles[4] && singles[1] != singles[4] && singles[2] != singles[4] && singles[3] != singles[4]);
        assert(singles[0] != singles[5] && singles[1] != singles[5] && singles[2] != singles[5] && singles[3] != singles[5]);
        assert(singles[0] != singles[6] && singles[1] != singles[6] && singles[2] != singles[6] && singles[3] != singles[6]);
        assert(singles[0] != singles[7] && singles[1] != singles[7] && singles[2] != singles[7] && singles[3] != singles[7]);
        assert(singles[0] != singles[8] && singles[1] != singles[8] && singles[2] != singles[8] && singles[3] != singles[8]);
        assert(singles[4] != singles[6] && singles[4] != singles[7] && singles[4] != singles[8]);
        assert(singles[5] != singles[7] && singles[5] != singles[8] && singles[6] != singles[8]);
    }
    assert(singles[0] != singles[2] && singles[0] != singles[3] && singles[1] != singles[2]);
    assert(singles[1] != singles[3] && singles[2] != singles[3]);
    assert(singles[0] != singles[5] && singles[1] != singles[5] && singles[2] != singles[5] && singles[3] != singles[5] && singles[4] != singles[5]);
    assert(singles[0] != singles[6] && singles[1] != singles[6] && singles[2] != singles[6] && singles[3] != singles[6] && singles[4] != singles[6] && singles[5] != singles[6]);
}

/// Whether two texts are the same.
fn str_equals(a: &str, b: &str) -> (r: bool)
    ensures
        r == (a@ == b@),
{
    let n = a.unicode_len();
    if n != b.unicode_len() {
        return false;
    }
    let mut i: usize = 0;
    while i < n
        invariant
            n == a@.len(),
            n == b@.len(),
            0 <= i <= n,
            forall|j: int| 0 <= j < i ==> a@[j] == b@[j],
        decreases n - i,
    {
        if a.get_char(i) != b.get_char(i) {
            return false;
        }
        i = i + 1;
    }
    assert(a@ =~= b@);
    true
}

fn token_of_symbol(s: &'static str) -> (t: Token)
    ensures
        symbol_lexes_as(s@, t),
{
    if str_equals(s, "(") {
        Token::LParenthesis
    } else if str_equals(s, ")") {
        Token::RParenthesis
    } else if str_equals(s, "[") {
        Token::LBracket
    } else if str_equals(s, "]") {
        Token::RBracket
    } else if str_equals(s, "^") {
        Token::Operator(InfixOperator::Caret)
    } else if str_equals(s, "+") {
        Token::Operator(InfixOperator::Plus)
    } else if str_equals(s, "-") {
        Token::Operator(InfixOperator::Minus)
    } else if str_equals(s, "/") {
        Token::Operator(InfixOperator::Slash)
    } else if str_equals(s, "*") {
        Token::Operator(InfixOperator::Star)
    } else {
        Token::Identifier(s.to_owned())
    }
}

/// The token that a piece of canonical text reads as.
pub fn token_of_piece(piece: &Piece) -> (t: Token)
    ensures
        lexes_as(*piece, t),
{
    match piece {
        Piece::Symbol(s) => token_of_symbol(s),
        Piece::Name(n) => Token::Identifier(n.clone()),
        Piece::Variable(v) => Token::Variable(v.clone()),
        Piece::Index(i) => Token::Integer(*i),
        Piece::Real(b) => Token::Float(*b),
        Piece::Imaginary(b) => Token::Imaginary(*b),
    }
}

impl Expression {
    /// The tokens of the canonical text of this expression: each piece of
    /// `fmt` read as one token.
    pub fn to_tokens(&self) -> (r: Vec<Token>)
        ensures
            r@.len() == rendered_len(*self),
            lexes_from(pieces_of(*self), r@, 0),
            renders_at(r@, 0, *self),
    {
        let pieces = self.fmt();
        let mut out: Vec<Token> = Vec::new();
        let mut i: usize = 0;
        while i < pieces.len()
            invariant
                pieces@ == pieces_of(*self),
                out@.len() == i,
                i <= pieces@.len(),
                forall|j: int| 0 <= j < i ==> lexes_as(#[trigger] pieces@[j], out@[j]),
            decreases pieces.len() - i,
        {
            let t = token_of_piece(&pieces[i]);
            out.push(t);
            i = i + 1;
        }
        proof {
            assert forall|j: int| 0 <= j < pieces@.len() implies lexes_as(
                #[trigger] pieces@[j],
                out@[0 + j],
            ) by {}
            lemma_lexed_pieces_render(out@, 0, *self);
        }
        out
    }
}

/// Tokens that read the pieces of `e`'s canonical text one for one spell `e`.
pub proof fn lemma_lexed_pieces_render(t: Seq<Token>, p: int, e: Expression)
    requires
        lexes_from(pieces_of(e), t, p),
    ensures
        rendered_len(e) == pieces_of(e).len(),
        renders_at(t, p, e),
    decreases e,
{
    lemma_symbol_readings();
    let ps = pieces_of(e);
    match e {
        Expression::Address(m) => {
            assert(lexes_as(ps[0], t[p + 0]));
            assert(lexes_as(ps[1], t[p + 1]));
            assert(lexes_as(ps[2], t[p + 2]));
            assert(lexes_as(ps[3], t[p + 3]));
        },
        Expression::FunctionCall { function, expression } => {
            let x = *expression;
            let px = pieces_of(x);
            assert(lexes_as(ps[0], t[p + 0]));
            assert(lexes_as(ps[1], t[p + 1]));
            assert forall|i: int| 0 <= i < px.len() implies lexes_as(#[trigger] px[i], t[p + 2 + i]) by {
                assert(ps[2 + i] == px[i]);
                assert(lexes_as(ps[2 + i], t[p + (2 + i)]));
            }
            lemma_lexed_pieces_render(t, p + 2, x);
            assert(ps[2 + px.len() as int] == Piece::Symbol(")"));
            assert(lexes_as(ps[2 + px.len() as int], t[p + (2 + px.len() as int)]));
        },
        Expression::Infix { left, operator, right } => {
            let l = *left;
            let r = *right;
            let pl = pieces_of(l);
            let pr = pieces_of(r);
            assert(lexes_as(ps[0], t[p + 0]));
            assert forall|i: int| 0 <= i < pl.len() implies lexes_as(#[trigger] pl[i], t[p + 1 + i]) by {
                assert(ps[1 + i] == pl[i]);
                assert(lexes_as(ps[1 + i], t[p + (1 + i)]));
            }
            lemma_lexed_pieces_render(t, p + 1, l);
            let k: int = 1 + pl.len() as int;
            assert(ps[k] == Piece::Symbol(infix_symbol(operator)));
            assert(lexes_as(ps[k], t[p + k]));
            assert forall|i: int| 0 <= i < pr.len() implies lexes_as(#[trigger] pr[i], t[p + 2 + pl.len() + i]) by {
                assert(ps[k + 1 + i] == pr[i]);
                assert(lexes_as(ps[k + 1 + i], t[p + (k + 1 + i)]));
            }
            lemma_lexed_pieces_render(t, p + 2 + pl.len(), r);
            let z: int = k + 1 + pr.len() as int;
            assert(ps[z] == Piece::Symbol(")"));
            assert(lexes_as(ps[z], t[p + z]));
        },
        Expression::Number(c) => {
            assert(lexes_as(ps[0], t[p + 0]));
            if ps.len() > 1 {
                assert(lexes_as(ps[1], t[p + 1]));
            }
            if ps.len() > 2 {
                assert(lexes_as(ps[2], t[p + 2]));
                assert(ps[1] == Piece::Symbol(infix_symbol(InfixOperator::Plus)));
                assert(symbol_lexes_as(infix_symbol(InfixOperator::Plus)@, t[p + 1]));
            }
        },
        Expression::PiConstant => {
            assert(lexes_as(ps[0], t[p + 0]));
        },
        Expression::Prefix { operator, expression } => {
            let x = *expression;
            let px = pieces_of(x);
            assert(lexes_as(ps[0], t[p + 0]));
            assert(lexes_as(ps[1], t[p + 1]));
            assert forall|i: int| 0 <= i < px.len() implies lexes_as(#[trigger] px[i], t[p + 2 + i]) by {
                assert(ps[2 + i] == px[i]);
                assert(lexes_as(ps[2 + i], t[p + (2 + i)]));
            }
            lemma_lexed_pieces_render(t, p + 2, x);
            assert(ps[2 + px.len() as int] == Piece::Symbol(")"));
            assert(lexes_as(ps[2 + px.len() as int], t[p + (2 + px.len() as int)]));
        },
        Expression::Variable(v) => {
            assert(lexes_as(ps[0], t[p + 0]));
        },
    }
}

/// Reading the canonical text of an expression, piece for piece, gives back
/// an equal expression, where every number is one literal.
pub proof fn lemma_pieces_round_trip(t: Seq<Token>, e: Expression)
    requires
        lexes_from(pieces_of(e), t, 0),
        t.len() == pieces_of(e).len(),
        single_literals(e),
    ensures
        parsed_whole(t) is Ok,
        equivalent(parsed_whole(t)->Ok_0, e),
{
    lemma_lexed_pieces_render(t, 0, e);
    lemma_round_trip(t, e);
}

/// Reads an expression from `start`: the expression and the position after it.
pub fn parse_expression(tokens: &Vec<Token>, start: usize) -> (r: Option<(Expression, usize)>)
    ensures
        at_int(r) == parse_sum(tokens@, start as int),
{
    sum_at(tokens, start)
}

impl Expression {
    /// Reads all of `tokens` as one expression; tokens left after a complete
    /// expression are an error.
    pub fn from_tokens(tokens: &Vec<Token>) -> (r: Result<Expression, ExpressionParseError>)
        ensures
            r == parsed_whole(tokens@),
    {
        match sum_at(tokens, 0) {
            Some((e, j)) => if j == tokens.len() {
                Ok(e)
            } else if j < tokens.len() {
                Err(ExpressionParseError::ExtraTokens { parsed: e, count: tokens.len() - j })
            } else {
                Err(ExpressionParseError::Invalid)
            },
            None => Err(ExpressionParseError::Invalid),
        }
    }
}

/// The number of tokens in the canonical text of `e`.
pub open spec fn rendered_len(e: Expression) -> nat
    decreases e,
{
    match e {
        Expression::Address(_) => 4,
        Expression::FunctionCall { expression, .. } => 3 + rendered_len(*expression),
        Expression::Infix { left, right, .. } => 3 + rendered_len(*left) + rendered_len(*right),
        Expression::Number(c) => number_pieces(c).len(),
        Expression::PiConstant => 1,
        Expression::Prefix { expression, .. } => 3 + rendered_len(*expression),
        Expression::Variable(_) => 1,
    }
}

/// The operator token that spells a unary operator.
pub open spec fn prefix_token(op: PrefixOperator) -> InfixOperator {
    match op {
        PrefixOperator::Plus => InfixOperator::Plus,
        PrefixOperator::Minus => InfixOperator::Minus,
    }
}

/// The tokens of `t` from `p` on spell the canonical text of `e`: fully
/// parenthesised, a memory cell with its index, and a number as its real
/// literal, its imaginary literal where the real part is zero, or, where both
/// parts are nonzero, the real literal, `+` where the imaginary part is
/// positive, and the imaginary literal.
pub open spec fn renders_at(t: Seq<Token>, p: int, e: Expression) -> bool
    decreases e,
{
    0 <= p && p + rendered_len(e) <= t.len() && match e {
        Expression::Address(m) => t[p] is Identifier && t[p]->Identifier_0@ == m.name@ && t[p
            + 1] is LBracket && t[p + 2] == Token::Integer(m.index) && t[p + 3] is RBracket,
        Expression::FunctionCall { function, expression } => t[p] is Identifier
            && t[p]->Identifier_0@ == function_symbol(function)@ && t[p + 1] is LParenthesis
            && renders_at(t, p + 2, *expression) && t[p + 2 + rendered_len(
            *expression,
        )] is RParenthesis,
        Expression::Infix { left, operator, right } => t[p] is LParenthesis && renders_at(
            t,
            p + 1,
            *left,
        ) && t[p + 1 + rendered_len(*left)] == Token::Operator(operator) && renders_at(
            t,
            p + 2 + rendered_len(*left),
            *right,
        ) && t[p + 2 + rendered_len(*left) + rendered_len(*right)] is RParenthesis,
        Expression::Number(c) => if !is_nonzero_bits(c.im) {
            t[p] == Token::Float(c.re)
        } else if is_zero_bits(c.re) {
            t[p] == Token::Imaginary(c.im)
        } else if is_positive_bits(c.im) {
            t[p] == Token::Float(c.re) && t[p + 1] == Token::Operator(InfixOperator::Plus) && t[p
                + 2] == Token::Imaginary(c.im)
        } else {
            t[p] == Token::Float(c.re) && t[p + 1] == Token::Imaginary(c.im)
        },
        Expression::PiConstant => t[p] is Identifier && t[p]->Identifier_0@ == "pi"@,
        Expression::Prefix { operator, expression } => t[p] is LParenthesis && t[p + 1]
            == Token::Operator(prefix_token(operator)) && renders_at(t, p + 2, *expression) && t[p
            + 2 + rendered_len(*expression)] is RParenthesis,
        Expression::Variable(v) => t[p] is Variable && t[p]->Variable_0@ == v@,
    }
}

/// Whether nothing at `j` would extend a primary: no opening bracket.
pub open spec fn ends_primary_at(t: Seq<Token>, j: int) -> bool {
    !(0 <= j < t.len() && t[j] is LBracket)
}

/// Every number in `e` has a zero part, so its canonical text is one literal;
/// a number with two nonzero parts is written as a sum.
pub open spec fn single_literals(e: Expression) -> bool
    decreases e,
{
    match e {
        Expression::FunctionCall { expression, .. } => single_literals(*expression),
        Expression::Infix { left, right, .. } => single_literals(*left) && single_literals(*right),
        Expression::Number(c) => !is_nonzero_bits(c.im) || is_zero_bits(c.re),
        Expression::Prefix { expression, .. } => single_literals(*expression),
        _ => true,
    }
}

/// Whether no operator stands at `j`.
pub open spec fn no_operator_at(t: Seq<Token>, j: int) -> bool {
    j == t.len() || (0 <= j < t.len() && !(t[j] is Operator))
}

/// The canonical text of `e` at `p` reads back as a primary equal to `e`.
pub proof fn lemma_primary_reads_rendering(t: Seq<Token>, p: int, e: Expression)
    requires
        renders_at(t, p, e),
        single_literals(e),
        ends_primary_at(t, p + rendered_len(e)),
    ensures
        parse_primary(t, p) is Some,
        parse_primary(t, p)->Some_0.1 == p + rendered_len(e),
        equivalent(parse_primary(t, p)->Some_0.0, e),
    decreases e, 3int,
{
    match e {
        Expression::FunctionCall { .. } => lemma_call_reads_rendering(t, p, e),
        Expression::Infix { .. } => lemma_infix_reads_rendering(t, p, e),
        Expression::Number(c) => {
            assert(0u64 & MAGNITUDE_MASK == 0) by (bit_vector);
        },
        Expression::PiConstant => {
            reveal_strlit("pi");
        },
        Expression::Prefix { .. } => lemma_prefix_reads_rendering(t, p, e),
        _ => {},
    }
}

/// The canonical text of a function call reads back as an equal call.
proof fn lemma_call_reads_rendering(t: Seq<Token>, p: int, e: Expression)
    requires
        renders_at(t, p, e),
        single_literals(e),
        ends_primary_at(t, p + rendered_len(e)),
        e is FunctionCall,
    ensures
        parse_primary(t, p) is Some,
        parse_primary(t, p)->Some_0.1 == p + rendered_len(e),
        equivalent(parse_primary(t, p)->Some_0.0, e),
    decreases e, 2int,
{
    let function = e->function;
    let x = *e->FunctionCall_expression;
    lemma_operand_reads_rendering(t, p + 2, x);
    lemma_function_named_by_symbol(function);
    let xp = parse_primary(t, p + 2)->Some_0.0;
    let whole = Expression::FunctionCall { function, expression: Box::new(xp) };
    assert(key_of(whole) == key_of(e));
}

/// Each function is named by its own symbol, which is not `pi`.
proof fn lemma_function_named_by_symbol(f: ExpressionFunction)
    ensures
        function_named(function_symbol(f)@) == Some(f),
        function_symbol(f)@ != "pi"@,
{
    reveal_strlit("pi");
    reveal_strlit("cis");
    reveal_strlit("cos");
    reveal_strlit("exp");
    reveal_strlit("sin");
    reveal_strlit("sqrt");
    match f {
        ExpressionFunction::Cis => {
            assert("cis"@.len() != "pi"@.len());
        },
        ExpressionFunction::Cosine => {
            assert("cos"@[1] != "cis"@[1]);
            assert("cos"@.len() != "pi"@.len());
        },
        ExpressionFunction::Exponent => {
            assert("exp"@[0] != "cis"@[0]);
            assert("exp"@[0] != "cos"@[0]);
            assert("exp"@.len() != "pi"@.len());
        },
        ExpressionFunction::Sine => {
            assert("sin"@[0] != "cis"@[0]);
            assert("sin"@[0] != "cos"@[0]);
            assert("sin"@[0] != "exp"@[0]);
            assert("sin"@.len() != "pi"@.len());
        },
        ExpressionFunction::SquareRoot => {
            assert("sqrt"@.len() != "cis"@.len());
            assert("sqrt"@.len() != "cos"@.len());
            assert("sqrt"@.len() != "exp"@.len());
            assert("sqrt"@.len() != "sin"@.len());
            assert("sqrt"@.len() != "pi"@.len());
        },
    }
}

/// The canonical text of a binary node reads back as an equal node.
#[verifier::rlimit(40)]
proof fn lemma_infix_reads_rendering(t: Seq<Token>, p: int, e: Expression)
    requires
        renders_at(t, p, e),
        single_literals(e),
        ends_primary_at(t, p + rendered_len(e)),
        e is Infix,
    ensures
        parse_primary(t, p) is Some,
        parse_primary(t, p)->Some_0.1 == p + rendered_len(e),
        equivalent(parse_primary(t, p)->Some_0.0, e),
    decreases e, 2int,
{
    let l = *e->left;
    let r = *e->right;
    let operator = e->Infix_operator;
    let q = p + 1;
    let j = q + rendered_len(l);
    let k = j + 1 + rendered_len(r);
    lemma_rendering_starts_without_operator(t, q, l);
    lemma_primary_reads_rendering(t, q, l);
    lemma_operand_reads_rendering(t, j + 1, r);
    let lp = parse_primary(t, q)->Some_0.0;
    let rp = parse_primary(t, j + 1)->Some_0.0;
    assert(parse_unary(t, q) == parse_primary(t, q));
    let whole = Expression::Infix { left: Box::new(lp), operator, right: Box::new(rp) };
    assert(key_of(whole) == key_of(e));
    if operator is Caret {
        assert(parse_power(t, q) == Some((whole, k)));
        assert(parse_product_rest(t, whole, k) == Some((whole, k)));
        assert(parse_product(t, q) == Some((whole, k)));
        assert(parse_sum_rest(t, whole, k) == Some((whole, k)));
        assert(parse_sum(t, q) == Some((whole, k)));
    } else if operator is Star || operator is Slash {
        assert(parse_power(t, q) == Some((lp, j)));
        assert(parse_product_rest(t, whole, k) == Some((whole, k)));
        assert(parse_product_rest(t, lp, j) == Some((whole, k)));
        assert(parse_product(t, q) == Some((whole, k)));
        assert(parse_sum_rest(t, whole, k) == Some((whole, k)));
        assert(parse_sum(t, q) == Some((whole, k)));
    } else {
        assert(parse_power(t, q) == Some((lp, j)));
        assert(parse_product_rest(t, lp, j) == Some((lp, j)));
        assert(parse_product(t, q) == Some((lp, j)));
        assert(parse_sum_rest(t, whole, k) == Some((whole, k)));
        assert(parse_sum_rest(t, lp, j) == Some((whole, k)));
        assert(parse_sum(t, q) == Some((whole, k)));
    }
}

/// The canonical text of a unary node reads back as an equal node.
proof fn lemma_prefix_reads_rendering(t: Seq<Token>, p: int, e: Expression)
    requires
        renders_at(t, p, e),
        single_literals(e),
        ends_primary_at(t, p + rendered_len(e)),
        e is Prefix,
    ensures
        parse_primary(t, p) is Some,
        parse_primary(t, p)->Some_0.1 == p + rendered_len(e),
        equivalent(parse_primary(t, p)->Some_0.0, e),
    decreases e, 2int,
{
    let x = *e->Prefix_expression;
    let operator = e->Prefix_operator;
    let q = p + 1;
    let k = q + 1 + rendered_len(x);
    lemma_rendering_starts_without_operator(t, q + 1, x);
    lemma_primary_reads_rendering(t, q + 1, x);
    let xp = parse_primary(t, q + 1)->Some_0.0;
    assert(parse_unary(t, q + 1) == parse_primary(t, q + 1));
    let whole = Expression::Prefix { operator, expression: Box::new(xp) };
    assert(parse_unary(t, q) == Some((whole, k)));
    assert(parse_power(t, q) == Some((whole, k)));
    assert(parse_product_rest(t, whole, k) == Some((whole, k)));
    assert(parse_product(t, q) == Some((whole, k)));
    assert(parse_sum_rest(t, whole, k) == Some((whole, k)));
    assert(parse_sum(t, q) == Some((whole, k)));
    assert(key_of(whole) == key_of(e));
}

/// No canonical text starts with an operator.
pub proof fn lemma_rendering_starts_without_operator(t: Seq<Token>, p: int, e: Expression)
    requires
        renders_at(t, p, e),
    ensures
        !(t[p] is Operator),
{
}

/// The canonical text of `e` at `p`, where no operator follows it, reads back
/// at every level of the grammar as one expression equal to `e`.
pub proof fn lemma_operand_reads_rendering(t: Seq<Token>, p: int, e: Expression)
    requires
        renders_at(t, p, e),
        single_literals(e),
        no_operator_at(t, p + rendered_len(e)),
        ends_primary_at(t, p + rendered_len(e)),
    ensures
        parse_sum(t, p) == parse_primary(t, p),
        parse_product(t, p) == parse_primary(t, p),
        parse_power(t, p) == parse_primary(t, p),
        parse_primary(t, p) is Some,
        parse_primary(t, p)->Some_0.1 == p + rendered_len(e),
        equivalent(parse_primary(t, p)->Some_0.0, e),
    decreases e, 4int,
{
    lemma_primary_reads_rendering(t, p, e);
    lemma_rendering_starts_without_operator(t, p, e);
    let j = p + rendered_len(e);
    let x = parse_primary(t, p)->Some_0.0;
    assert(parse_unary(t, p) == parse_primary(t, p));
    assert(parse_power(t, p) == Some((x, j)));
    assert(parse_product_rest(t, x, j) == Some((x, j)));
    assert(parse_sum_rest(t, x, j) == Some((x, j)));
}

/// Reading the canonical text of an expression gives back an equal
/// expression, with every token read, where every number is one literal.
pub proof fn lemma_round_trip(t: Seq<Token>, e: Expression)
    requires
        renders_at(t, 0, e),
        single_literals(e),
        t.len() == rendered_len(e),
    ensures
        parsed_whole(t) is Ok,
        equivalent(parsed_whole(t)->Ok_0, e),
{
    lemma_operand_reads_rendering(t, 0, e);
}

} // verus!
