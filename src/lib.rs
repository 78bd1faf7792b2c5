//! A scanner and a recursive-descent parser for a small EBNF dialect.
pub mod chars;
pub mod ebnf_parser;
pub mod grammar;
