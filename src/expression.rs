//! The expression tree, its canonical key, and the equality and hash built on it.
use vstd::prelude::*;
use crate::complex::Complex;

verus! {

/// Evaluation could not reduce an expression to a single number.
#[derive(Clone, Copy, Debug, PartialEq, Eq, Structural)]
pub enum EvaluationError {
    Incomplete,
}

/// A named cell of classical memory.
#[derive(Debug)]
pub struct MemoryReference {
    pub name: String,
    pub index: u64,
}

/// A function that an expression may call.
#[derive(Clone, Copy, Debug, PartialEq, Eq, Structural, Hash)]
pub enum ExpressionFunction {
    Cis,
    Cosine,
    Exponent,
    Sine,
    SquareRoot,
}

/// A unary operator.
#[derive(Clone, Copy, Debug, PartialEq, Eq, Structural, Hash)]
pub enum PrefixOperator {
    Plus,
    Minus,
}

/// A binary operator.
#[derive(Clone, Copy, Debug, PartialEq, Eq, Structural, Hash)]
pub enum InfixOperator {
    Caret,
    Plus,
    Minus,
    Slash,
    Star,
}

/// A symbolic or numeric expression over complex numbers.
#[derive(Debug)]
pub enum Expression {
    Address(MemoryReference),
    FunctionCall { function: ExpressionFunction, expression: Box<Expression> },
    Infix { left: Box<Expression>, operator: InfixOperator, right: Box<Expression> },
    Number(Complex),
    PiConstant,
    Prefix { operator: PrefixOperator, expression: Box<Expression> },
    Variable(String),
}

/// The canonical spelling of a function name.
pub open spec fn function_symbol(f: ExpressionFunction) -> &'static str {
    match f {
        ExpressionFunction::Cis => "cis",
        ExpressionFunction::Cosine => "cos",
        ExpressionFunction::Exponent => "exp",
        ExpressionFunction::Sine => "sin",
        ExpressionFunction::SquareRoot => "sqrt",
    }
}

/// The canonical spelling of a unary operator.
pub open spec fn prefix_symbol(op: PrefixOperator) -> &'static str {
    match op {
        PrefixOperator::Plus => "+",
        PrefixOperator::Minus => "-",
    }
}

/// The canonical spelling of a binary operator.
pub open spec fn infix_symbol(op: InfixOperator) -> &'static str {
    match op {
        InfixOperator::Caret => "^",
        InfixOperator::Plus => "+",
        InfixOperator::Minus => "-",
        InfixOperator::Slash => "/",
        InfixOperator::Star => "*",
    }
}

impl ExpressionFunction {
    /// The canonical spelling of this function.
    pub fn fmt(&self) -> (r: &'static str)
        ensures
            r == function_symbol(*self),
    {
        match self {
            ExpressionFunction::Cis => "cis",
            ExpressionFunction::Cosine => "cos",
            ExpressionFunction::Exponent => "exp",
            ExpressionFunction::Sine => "sin",
            ExpressionFunction::SquareRoot => "sqrt",
        }
    }
}

impl PrefixOperator {
    /// The canonical spelling of this operator.
    pub fn fmt(&self) -> (r: &'static str)
        ensures
            r == prefix_symbol(*self),
    {
        match self {
            PrefixOperator::Plus => "+",
            PrefixOperator::Minus => "-",
        }
    }
}

impl InfixOperator {
    /// The canonical spelling of this operator.
    pub fn fmt(&self) -> (r: &'static str)
        ensures
            r == infix_symbol(*self),
    {
        match self {
            InfixOperator::Caret => "^",
            InfixOperator::Plus => "+",
            InfixOperator::Minus => "-",
            InfixOperator::Slash => "/",
            InfixOperator::Star => "*",
        }
    }

    /// Whether swapping the operands leaves an expression unchanged.
    pub open spec fn is_commutative(self) -> bool {
        self is Plus || self is Star
    }
}

impl Clone for MemoryReference {
    fn clone(&self) -> (r: Self)
        ensures
            r == *self,
    {
        MemoryReference { name: self.name.clone(), index: self.index }
    }
}

impl Clone for Expression {
    fn clone(&self) -> (r: Self)
        ensures
            r == *self,
        decreases self,
    {
        match self {
            Expression::Address(m) => Expression::Address(m.clone()),
            Expression::FunctionCall { function, expression } => Expression::FunctionCall {
                function: *function,
                expression: Box::new((**expression).clone()),
            },
            Expression::Infix { left, operator, right } => Expression::Infix {
                left: Box::new((**left).clone()),
                operator: *operator,
                right: Box::new((**right).clone()),
            },
            Expression::Number(c) => Expression::Number(*c),
            Expression::PiConstant => Expression::PiConstant,
            Expression::Prefix { operator, expression } => Expression::Prefix {
                operator: *operator,
                expression: Box::new((**expression).clone()),
            },
            Expression::Variable(v) => Expression::Variable(v.clone()),
        }
    }
}

} // verus!
