//! A small compiler front end and code generator: source text is tokenized,
//! cut into statements, built into a syntax tree and rendered as C text.

pub mod error;
pub mod interpreter;
pub mod lexer;
pub mod nodes;
pub mod parser;
pub mod resolved;
pub mod stack;
pub mod syntax;
pub mod text;
