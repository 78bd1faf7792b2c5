//! The scanner that decodes terminals, and the parser built on it.
pub mod ast;
pub mod lexer;
pub mod parser;
pub mod token;
