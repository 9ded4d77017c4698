//! Evaluation of arithmetic expressions written as text: the four binary
//! operators, parentheses, unary minus on literals and decimal literals.

pub mod eval;
pub mod grammar;
pub mod laws;
pub mod precedence;
pub mod program;
pub mod text;
pub mod trailing;
