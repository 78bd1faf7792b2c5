use vstd::prelude::*;

verus! {

/// A token as the grammar scanner produces it. `Term` holds the decoded text of a
/// quoted terminal, with its escapes resolved.
#[derive(Clone, Debug, PartialEq)]
pub enum TokenKind {
    Ident(String),
    Term(String),
    LParen,
    RParen,
    LBracket,
    RBracket,
    LBrace,
    RBrace,
    Pipe,
    Colon,
    SemiColon,
}

/// The class of a token, without its text.
#[derive(Clone, Copy, Debug, PartialEq, Eq, Structural)]
pub enum TokenClass {
    Ident,
    Term,
    LParen,
    RParen,
    LBracket,
    RBracket,
    LBrace,
    RBrace,
    Pipe,
    Colon,
    SemiColon,
}

impl View for TokenKind {
    /// The class and, for an identifier or a terminal, its text (else empty).
    type V = (TokenClass, Seq<char>);

    open spec fn view(&self) -> (TokenClass, Seq<char>) {
        match self {
            TokenKind::Ident(s) => (TokenClass::Ident, s@),
            TokenKind::Term(s) => (TokenClass::Term, s@),
            TokenKind::LParen => (TokenClass::LParen, Seq::empty()),
            TokenKind::RParen => (TokenClass::RParen, Seq::empty()),
            TokenKind::LBracket => (TokenClass::LBracket, Seq::empty()),
            TokenKind::RBracket => (TokenClass::RBracket, Seq::empty()),
            TokenKind::LBrace => (TokenClass::LBrace, Seq::empty()),
            TokenKind::RBrace => (TokenClass::RBrace, Seq::empty()),
            TokenKind::Pipe => (TokenClass::Pipe, Seq::empty()),
            TokenKind::Colon => (TokenClass::Colon, Seq::empty()),
            TokenKind::SemiColon => (TokenClass::SemiColon, Seq::empty()),
        }
    }
}

impl TokenKind {
    pub fn class(&self) -> (r: TokenClass)
        ensures
            r == self@.0,
    {
        match self {
            TokenKind::Ident(_) => TokenClass::Ident,
            TokenKind::Term(_) => TokenClass::Term,
            TokenKind::LParen => TokenClass::LParen,
            TokenKind::RParen => TokenClass::RParen,
            TokenKind::LBracket => TokenClass::LBracket,
            TokenKind::RBracket => TokenClass::RBracket,
            TokenKind::LBrace => TokenClass::LBrace,
            TokenKind::RBrace => TokenClass::RBrace,
            TokenKind::Pipe => TokenClass::Pipe,
            TokenKind::Colon => TokenClass::Colon,
            TokenKind::SemiColon => TokenClass::SemiColon,
        }
    }
}

/// A token: its kind, the source text it covers, the byte offset where it starts,
/// and the line and column (both from 1, the column in characters) where it starts.
#[derive(Clone, Debug, PartialEq)]
pub struct Token {
    pub kind: TokenKind,
    pub text: String,
    pub pos: usize,
    pub line: usize,
    pub column: usize,
}

} // verus!
