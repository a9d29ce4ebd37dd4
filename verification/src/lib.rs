//! A protocol language with linear resources: lexer, parser, checker,
//! bytecode compiler and a native backend for constant sums.

pub mod acceptance;
pub mod ast;
pub mod bytecode;
pub mod checker;
pub mod consteval;
pub mod error;
pub mod lexer;
pub mod machine;
pub mod names;
pub mod native;
pub mod parser;
pub mod text;
pub mod token;
