//! Front end and evaluator of a small expression language: a character-level
//! lexer, a precedence-climbing parser producing an expression tree, and a
//! tree-walking evaluator over a small dynamically typed value set.

pub mod float;
pub mod lexer;
pub mod parse;
pub mod operations;
pub mod evaluate;
pub mod display;
pub mod roundtrip;
