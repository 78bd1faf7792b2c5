use ebnf::grammar::ast::{Expression, Grammar, Item, Rule, Sequence};
use ebnf::chars::is_whitespace;
use ebnf::grammar::lexer::{decode_terminal, LexError, Lexer};
use ebnf::grammar::parser::{parse, Expected, ParseError};
use ebnf::grammar::token::{TokenClass, TokenKind};

fn seq(items: Vec<Item>) -> Sequence {
    Sequence { items }
}

fn expr(alternatives: Vec<Sequence>) -> Expression {
    Expression { alternatives }
}

#[test]
fn test_test_lexer() {
    let mut lexer = Lexer::new(r"( 'ab\'' Def ) ;");
    let expected = vec!["(", "'ab\\''", "Def", ")", ";"];
    let mut i = 0;
    while let Some(token) = lexer.next() {
        assert_eq!(token.text, expected[i]);
        i += 1;
    }
    assert_eq!(i, expected.len());
}

#[test]
fn test_test_lexer2() {
    let mut lexer = Lexer::new(r"'ab\'\n'");
    let tok = lexer.next().unwrap();
    match tok.kind {
        TokenKind::Term(s) => assert_eq!(s, "ab'\n"),
        _ => panic!("Expected terminal"),
    }
    assert!(lexer.next().is_none());
}

#[test]
fn scanner_tokens_after_comment() {
    let mut lexer = Lexer::new("#comment\na: b;");
    let t = lexer.next().unwrap();
    assert_eq!(t.kind, TokenKind::Ident("a".to_string()));
    assert_eq!(t.pos, 9);
    let t = lexer.next().unwrap();
    assert_eq!(t.kind, TokenKind::Colon);
    assert_eq!(t.pos, 10);
    let t = lexer.next().unwrap();
    assert_eq!(t.kind, TokenKind::Ident("b".to_string()));
    assert_eq!(t.pos, 12);
    let t = lexer.next().unwrap();
    assert_eq!(t.kind, TokenKind::SemiColon);
    assert_eq!(t.pos, 13);
    assert!(lexer.next().is_none());
}

#[test]
fn scanner_terminal_and_brackets() {
    let mut lexer = Lexer::new("a:'b'[c];");
    let expected = vec![
        (TokenKind::Ident("a".to_string()), 0),
        (TokenKind::Colon, 1),
        (TokenKind::Term("b".to_string()), 2),
        (TokenKind::LBracket, 5),
        (TokenKind::Ident("c".to_string()), 6),
        (TokenKind::RBracket, 7),
        (TokenKind::SemiColon, 8),
    ];
    for (kind, pos) in expected {
        let t = lexer.next().unwrap();
        assert_eq!(t.kind, kind);
        assert_eq!(t.pos, pos);
    }
    assert_eq!(lexer.next_token(), Ok(None));
}

#[test]
fn scanner_unterminated_terminal() {
    let mut lexer = Lexer::new("'a");
    assert_eq!(lexer.next_token(), Err(LexError::UnterminatedTerminal { pos: 0 }));
}

#[test]
fn scanner_backslash_at_end() {
    let mut lexer = Lexer::new("x '\\");
    assert!(lexer.next().is_some());
    assert_eq!(lexer.next_token(), Err(LexError::UnterminatedTerminal { pos: 2 }));
}

#[test]
fn scanner_invalid_character() {
    let mut lexer = Lexer::new("a%");
    let t = lexer.next_token().unwrap().unwrap();
    assert_eq!(t.kind, TokenKind::Ident("a".to_string()));
    assert_eq!(lexer.next_token(), Err(LexError::InvalidCharacter { pos: 1, ch: '%' }));
}

#[test]
fn scanner_invalid_escape() {
    let mut lexer = Lexer::new("'a\\q'");
    assert_eq!(lexer.next_token(), Err(LexError::InvalidEscape { pos: 3, ch: 'q' }));
}

#[test]
fn scanner_all_escapes() {
    let mut lexer = Lexer::new("'\\t\\n\\r\\0\\'\\\\'");
    let t = lexer.next().unwrap();
    assert_eq!(t.kind, TokenKind::Term("\t\n\r\0'\\".to_string()));
}

#[test]
fn scanner_positions_increase() {
    let text = "rule : 'é' { x | ( y ) } [ z ] ; # end\nnext : ;";
    let mut lexer = Lexer::new(text);
    let mut last: Option<usize> = None;
    let mut n = 0;
    while let Some(t) = lexer.next() {
        if let Some(p) = last {
            assert!(t.pos > p);
        }
        assert!(text[t.pos..].starts_with(&t.text));
        last = Some(t.pos);
        n += 1;
    }
    assert_eq!(n, 17);
}

#[test]
fn parse_alternatives() {
    let g = parse("a : 'x' | b ;").unwrap();
    let expected = Grammar {
        rules: vec![Rule {
            name: "a".to_string(),
            body: expr(vec![
                seq(vec![Item::Terminal("x".to_string())]),
                seq(vec![Item::NonTerminal("b".to_string())]),
            ]),
        }],
    };
    assert_eq!(g, expected);
}

#[test]
fn parse_empty_input() {
    assert_eq!(parse(""), Ok(Grammar { rules: vec![] }));
    assert_eq!(parse("  # nothing here\n"), Ok(Grammar { rules: vec![] }));
}

#[test]
fn parse_empty_repetition() {
    let g = parse("a : {} ;").unwrap();
    assert_eq!(g.rules.len(), 1);
    assert_eq!(g.rules[0].body, expr(vec![seq(vec![Item::Repetition(expr(vec![seq(vec![])]))])]));
}

#[test]
fn parse_empty_body_and_optional() {
    let g = parse("a : ; b : [] ;").unwrap();
    assert_eq!(g.rules[0].body, expr(vec![seq(vec![])]));
    assert_eq!(g.rules[1].body, expr(vec![seq(vec![Item::Optional(expr(vec![seq(vec![])]))])]));
}

#[test]
fn parse_nested() {
    let g = parse("r : ( a | 'b' ) [ c ] { d e } ;\ns : r ;").unwrap();
    let body = expr(vec![seq(vec![
        Item::Group(expr(vec![
            seq(vec![Item::NonTerminal("a".to_string())]),
            seq(vec![Item::Terminal("b".to_string())]),
        ])),
        Item::Optional(expr(vec![seq(vec![Item::NonTerminal("c".to_string())])])),
        Item::Repetition(expr(vec![seq(vec![
            Item::NonTerminal("d".to_string()),
            Item::NonTerminal("e".to_string()),
        ])])),
    ])]);
    assert_eq!(g.rules.len(), 2);
    assert_eq!(g.rules[0].name, "r");
    assert_eq!(g.rules[0].body, body);
    assert_eq!(g.rules[1].name, "s");
}

#[test]
fn parse_keeps_rule_order_and_duplicates() {
    let g = parse("b : x ; a : y ; b : z ;").unwrap();
    let names: Vec<&str> = g.rules.iter().map(|r| r.name.as_str()).collect();
    assert_eq!(names, vec!["b", "a", "b"]);
}

#[test]
fn parse_is_deterministic() {
    let text = "g : { r } ; r : i ':' e ';' ; e : s { '|' s } ;";
    assert_eq!(parse(text), parse(text));
}

#[test]
fn parse_unexpected_token() {
    assert_eq!(
        parse("a : b )"),
        Err(ParseError::UnexpectedToken {
            expected: Expected::ItemOr(TokenClass::SemiColon),
            found: TokenClass::RParen,
            pos: 6,
        })
    );
    assert_eq!(
        parse("a b ;"),
        Err(ParseError::UnexpectedToken {
            expected: Expected::Token(TokenClass::Colon),
            found: TokenClass::Ident,
            pos: 2,
        })
    );
    assert_eq!(
        parse(": a ;"),
        Err(ParseError::UnexpectedToken {
            expected: Expected::Token(TokenClass::Ident),
            found: TokenClass::Colon,
            pos: 0,
        })
    );
}

#[test]
fn parse_unexpected_end() {
    assert_eq!(
        parse("a"),
        Err(ParseError::UnexpectedEndOfInput { expected: Expected::Token(TokenClass::Colon), pos: 1 })
    );
    assert_eq!(
        parse("a : [ b }"),
        Err(ParseError::UnexpectedToken {
            expected: Expected::ItemOr(TokenClass::RBracket),
            found: TokenClass::RBrace,
            pos: 8,
        })
    );
    assert_eq!(
        parse("a : ( b"),
        Err(ParseError::UnexpectedEndOfInput { expected: Expected::ItemOr(TokenClass::RParen), pos: 7 })
    );
    assert_eq!(
        parse("a : b"),
        Err(ParseError::UnexpectedEndOfInput { expected: Expected::ItemOr(TokenClass::SemiColon), pos: 5 })
    );
}

#[test]
fn parse_lexical_error() {
    assert_eq!(
        parse("a : b % ;"),
        Err(ParseError::Lexical(LexError::InvalidCharacter { pos: 6, ch: '%' }))
    );
    assert_eq!(
        parse("a : 'x"),
        Err(ParseError::Lexical(LexError::UnterminatedTerminal { pos: 4 }))
    );
}

#[test]
fn parse_reports_syntax_error_before_later_scan_error() {
    assert_eq!(
        parse("a : ) %"),
        Err(ParseError::UnexpectedToken {
            expected: Expected::ItemOr(TokenClass::SemiColon),
            found: TokenClass::RParen,
            pos: 4,
        })
    );
}

#[test]
fn scanner_lines_and_columns() {
    let mut lexer = Lexer::new("#comment\na: b;\n  c");
    let expected = [(2, 1), (2, 2), (2, 4), (2, 5), (3, 3)];
    for (line, column) in expected {
        let t = lexer.next().unwrap();
        assert_eq!((t.line, t.column), (line, column));
    }
    assert!(lexer.next().is_none());
}

#[test]
fn scanner_unicode_classes() {
    // U+3000 is Unicode whitespace; 'é' and 'ß' are alphanumeric.
    let mut lexer = Lexer::new("\u{3000}éß_1");
    let t = lexer.next().unwrap();
    assert_eq!(t.kind, TokenKind::Ident("éß_1".to_string()));
    assert_eq!(t.pos, 3);
    assert_eq!(t.column, 2);
}

#[test]
fn error_messages() {
    let e = parse("a : b )").unwrap_err();
    assert_eq!(e.message(), "expected an item, '|' or ';', found ')' at byte 6");
    let e = parse("a : ( b").unwrap_err();
    assert_eq!(e.message(), "expected an item, '|' or ')', found end of input at byte 7");
    let e = parse("a : 'x\\q' ;").unwrap_err();
    assert_eq!(e.message(), "invalid escape character 'q' at byte 7");
    let e = parse("a b").unwrap_err();
    assert_eq!(e.message(), "expected ':', found identifier at byte 2");
    let e = parse("a%").unwrap_err();
    assert_eq!(e.message(), "invalid character '%' at byte 1");
    let e = parse("a : 'x").unwrap_err();
    assert_eq!(e.message(), "unterminated terminal at byte 4");
    let text = format!("{}%", " ".repeat(1234));
    assert_eq!(parse(&text).unwrap_err().message(), "invalid character '%' at byte 1234");
}

#[test]
fn decoder_on_its_own() {
    let s: Vec<char> = "x '\\tb\\\\' y".chars().collect();
    let (d, end) = decode_terminal(&s, 2, 2);
    assert_eq!(d, Ok("\tb\\".to_string()));
    assert_eq!(end, 9);
    let s: Vec<char> = "'é\\z'".chars().collect();
    let (d, end) = decode_terminal(&s, 0, 0);
    assert_eq!(d, Err(LexError::InvalidEscape { pos: 4, ch: 'z' }));
    assert_eq!(end, 4);
}

#[test]
fn whitespace_agrees_with_std() {
    for u in 0..=0x10ffffu32 {
        if let Some(c) = char::from_u32(u) {
            assert_eq!(is_whitespace(c), c.is_whitespace(), "{:?}", c);
        }
    }
}
