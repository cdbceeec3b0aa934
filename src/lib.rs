//! A single-pass lexical scanner that turns source text into a flat sequence
//! of typed tokens, with its behaviour stated over a mathematical model and
//! proved by Verus.
pub mod lexer;
pub mod model;
pub mod theorems;
pub mod token;
