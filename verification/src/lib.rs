//! Expression evaluation core of a small embedded scripting interpreter.
//!
//! The library resolves whitespace-free infix expression strings into a single
//! runtime [`value::Value`]: a single-pass tokenizer splits the input against a
//! fixed table of operators, each value token resolves against a shared
//! [`context::VmContext`] of named bindings or parses as a literal, and the
//! tokens assemble into a linked [`sub_expression::SubExpression`] chain that
//! evaluates strictly left to right, with no operator precedence.

pub mod context;
pub mod defs;
pub mod expression;
pub mod operators;
pub mod sub_expression;
pub mod value;
