use vstd::prelude::*;

verus! {

/// The kinds of token that the plain scanner tells apart.
#[derive(Clone, Copy, Debug, PartialEq, Eq, Structural)]
pub enum TokenKind {
    NonTerminal,
    Terminal,
    Colon,
    Semicolon,
    Pipe,
    OpenParen,
    CloseParen,
    OpenBracket,
    CloseBracket,
    OpenBrace,
    CloseBrace,
}

/// A token: its kind, the source text it covers, and the byte offset where it starts.
#[derive(Clone, Debug, PartialEq)]
pub struct Token {
    pub kind: TokenKind,
    pub text: String,
    pub pos: usize,
}

} // verus!
