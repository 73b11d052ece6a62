//! Lexical front end for a small interpreted language: turns raw source text
//! into a flat sequence of typed tokens, collecting lexical errors as
//! diagnostics along the way.

pub mod errors;
pub mod props;
pub mod scanning;
pub mod tokens;
