//! A scanner that keeps the raw text of each token, quotes included.
pub mod lexer;
pub mod token;
