//! A tree-walking interpreter for a small dynamically typed scripting
//! language: lexical scanner, recursive-descent parser, lexically scoped
//! environments, and an evaluator with first-class functions and closures.

pub mod ast;
pub mod clock;
pub mod diagnostics;
pub mod environment;
pub mod interpreter;
pub mod laws;
pub mod lox;
pub mod numbers;
pub mod text;
pub mod tokens;
pub mod parser;
pub mod scanner;
pub mod values;
