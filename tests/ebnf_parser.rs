use ebnf::ebnf_parser::lexer::{Lexer, LexerError};
use ebnf::ebnf_parser::token::{Token, TokenKind};

fn tok(kind: TokenKind, text: &str, pos: usize) -> Token {
    Token { kind, text: text.to_string(), pos }
}

#[test]
fn parser_tests_test_lexer() {
    let input = "#comment\na: b;";
    let mut lexer = Lexer::new(input);
    let tokens = [
        tok(TokenKind::NonTerminal, "a", 9),
        tok(TokenKind::Colon, ":", 10),
        tok(TokenKind::NonTerminal, "b", 12),
        tok(TokenKind::Semicolon, ";", 13),
    ];
    for token in tokens.iter() {
        assert_eq!(lexer.next().unwrap().unwrap(), *token);
    }
    assert_eq!(lexer.next(), Ok(None));
}

#[test]
fn parser_tests_test_lexer2() {
    let input = "a:'b'[c];";
    let mut lexer = Lexer::new(input);
    let tokens = [
        tok(TokenKind::NonTerminal, "a", 0),
        tok(TokenKind::Colon, ":", 1),
        tok(TokenKind::Terminal, "'b'", 2),
        tok(TokenKind::OpenBracket, "[", 5),
        tok(TokenKind::NonTerminal, "c", 6),
        tok(TokenKind::CloseBracket, "]", 7),
        tok(TokenKind::Semicolon, ";", 8),
    ];
    for token in tokens.iter() {
        assert_eq!(lexer.next().unwrap().unwrap(), *token);
    }
}

#[test]
fn test_lexer_invalid() {
    let input = "a%";
    let mut lexer = Lexer::new(input);
    assert_eq!(lexer.next(), Ok(Some(tok(TokenKind::NonTerminal, "a", 0))));
    assert_eq!(lexer.next(), Err(LexerError::InvalidCharacter { pos: 1, character: '%' }));
}

#[test]
fn test_lexer_unclosed() {
    let input = "'a";
    let mut lexer = Lexer::new(input);
    assert_eq!(lexer.next(), Err(LexerError::UnclosedTerminal { pos: 0 }));
}

#[test]
fn test_lexer_eof() {
    let input = "";
    let mut lexer = Lexer::new(input);
    assert_eq!(lexer.next(), Ok(None));
}

#[test]
fn lexer_eof_after_trivia() {
    let mut lexer = Lexer::new("  # only a comment");
    assert_eq!(lexer.next(), Ok(None));
    assert_eq!(lexer.next(), Ok(None));
}

#[test]
fn lexer_all_punctuation() {
    let mut lexer = Lexer::new("( ) [ ] { } | : ;");
    let kinds = [
        TokenKind::OpenParen,
        TokenKind::CloseParen,
        TokenKind::OpenBracket,
        TokenKind::CloseBracket,
        TokenKind::OpenBrace,
        TokenKind::CloseBrace,
        TokenKind::Pipe,
        TokenKind::Colon,
        TokenKind::Semicolon,
    ];
    for (i, k) in kinds.iter().enumerate() {
        let t = lexer.next().unwrap().unwrap();
        assert_eq!(t.kind, *k);
        assert_eq!(t.pos, 2 * i);
    }
}

#[test]
fn lexer_byte_offsets_after_multibyte() {
    // 'é' takes two bytes in UTF-8, so the colon starts at byte 3.
    let mut lexer = Lexer::new("ré:");
    assert_eq!(lexer.next(), Ok(Some(tok(TokenKind::NonTerminal, "ré", 0))));
    assert_eq!(lexer.next(), Ok(Some(tok(TokenKind::Colon, ":", 3))));
    assert_eq!(lexer.next(), Ok(None));
}

#[test]
fn lexer_terminal_with_escapes() {
    let mut lexer = Lexer::new(r"'ab\'\n' x");
    assert_eq!(lexer.next(), Ok(Some(tok(TokenKind::Terminal, r"'ab\'\n'", 0))));
    assert_eq!(lexer.next(), Ok(Some(tok(TokenKind::NonTerminal, "x", 9))));
}

#[test]
fn lexer_invalid_escape() {
    let mut lexer = Lexer::new(r"'a\q'");
    assert_eq!(lexer.next(), Err(LexerError::InvalidEscape { pos: 3, character: 'q' }));
}

#[test]
fn lexer_escaped_quote_does_not_close() {
    let mut lexer = Lexer::new(r"'a\'");
    assert_eq!(lexer.next(), Err(LexerError::UnclosedTerminal { pos: 0 }));
}
