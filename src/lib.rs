//! Expressions of a quantum-control instruction language and the front of its
//! instruction parser.
//!
//! - `complex`: complex numbers as binary64 bit patterns.
//! - `expression`: the expression tree and the spellings of its operators.
//! - `canonical`: the canonical key, and the equality and hash built on it.
//! - `table`: maps from names to values.
//! - `evaluation`: partial evaluation under variables and memory contents.
//! - `render`: the canonical text of an expression, piece by piece.
//! - `dispatch`: tokens, and which grammar reads each instruction.
//! - `grammar`: operator-precedence reading of an expression from tokens.
pub mod complex;
pub mod expression;
pub mod canonical;
pub mod table;
pub mod evaluation;
pub mod render;
pub mod dispatch;
pub mod grammar;
