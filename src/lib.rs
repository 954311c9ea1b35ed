//! Front end for a small dynamically typed scripting language: a scanner
//! that turns source text into tokens, and a recursive-descent parser that
//! builds expression trees walked by visitors.

pub mod error;
pub mod expr;
pub mod grammar;
pub mod laws;
pub mod literal;
pub mod lox;
pub mod parse;
pub mod printer;
pub mod scan_spec;
pub mod scanner;
pub mod text;
pub mod token;
