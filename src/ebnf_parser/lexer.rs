use vstd::prelude::*;
use crate::chars::{
    byte_offset, ident_char, in_comment, lemma_trivia_chars, whitespace, ident_end, is_ident_char, lemma_byte_offset_bound,
    lemma_byte_offset_step, lemma_skip_trivia, lemma_span_while, skip_trivia, skip_trivia_exec,
    span_while, string_of, to_chars, utf8_width,
};
use vstd::utf8::encode_utf8;
use super::token::{Token, TokenKind};
use crate::grammar::lexer::{decode, decode_terminal, lemma_decode_end, LexError};

verus! {

/// Why a scan failed. Each position is the byte offset of the offending character
/// (for an unclosed terminal: of its opening quote).
#[derive(Clone, Copy, Debug, PartialEq, Eq, Structural)]
pub enum LexerError {
    InvalidCharacter { pos: usize, character: char },
    UnclosedTerminal { pos: usize },
    InvalidEscape { pos: usize, character: char },
}

/// The error of this scanner for an error of terminal decoding.
pub open spec fn error_of(e: LexError) -> LexerError {
    match e {
        LexError::UnterminatedTerminal { pos } => LexerError::UnclosedTerminal { pos },
        LexError::InvalidEscape { pos, ch } => LexerError::InvalidEscape { pos, character: ch },
        LexError::InvalidCharacter { pos, ch } => LexerError::InvalidCharacter {
            pos,
            character: ch,
        },
    }
}

fn convert_error(e: LexError) -> (r: LexerError)
    ensures
        r == error_of(e),
{
    match e {
        LexError::UnterminatedTerminal { pos } => LexerError::UnclosedTerminal { pos },
        LexError::InvalidEscape { pos, ch } => LexerError::InvalidEscape { pos, character: ch },
        LexError::InvalidCharacter { pos, ch } => LexerError::InvalidCharacter {
            pos,
            character: ch,
        },
    }
}

/// The kind of a one-character token, if `c` is one.
pub open spec fn punct_kind(c: char) -> Option<TokenKind> {
    if c == ':' {
        Some(TokenKind::Colon)
    } else if c == ';' {
        Some(TokenKind::Semicolon)
    } else if c == '|' {
        Some(TokenKind::Pipe)
    } else if c == '(' {
        Some(TokenKind::OpenParen)
    } else if c == ')' {
        Some(TokenKind::CloseParen)
    } else if c == '[' {
        Some(TokenKind::OpenBracket)
    } else if c == ']' {
        Some(TokenKind::CloseBracket)
    } else if c == '{' {
        Some(TokenKind::OpenBrace)
    } else if c == '}' {
        Some(TokenKind::CloseBrace)
    } else {
        None
    }
}

fn punct(c: char) -> (r: Option<TokenKind>)
    ensures
        r == punct_kind(c),
{
    match c {
        ':' => Some(TokenKind::Colon),
        ';' => Some(TokenKind::Semicolon),
        '|' => Some(TokenKind::Pipe),
        '(' => Some(TokenKind::OpenParen),
        ')' => Some(TokenKind::CloseParen),
        '[' => Some(TokenKind::OpenBracket),
        ']' => Some(TokenKind::CloseBracket),
        '{' => Some(TokenKind::OpenBrace),
        '}' => Some(TokenKind::CloseBrace),
        _ => None,
    }
}

/// What one scan from index `i` of `s` yields: the token kind, the end of input
/// (`None`), or the error; the index where the token (or the failing character)
/// starts; and the index where scanning stops. A terminal must close, and each of its
/// escapes must be one of those that the grammar scanner decodes.
pub open spec fn scan(s: Seq<char>, i: int) -> (Result<Option<TokenKind>, LexerError>, int, int) {
    let k = skip_trivia(s, i);
    let at = byte_offset(s, k) as usize;
    if k >= s.len() {
        (Ok(None), k, k)
    } else if punct_kind(s[k]) is Some {
        (Ok(Some(punct_kind(s[k])->0)), k, k + 1)
    } else if s[k] == '\'' {
        let (d, e) = decode(s, at, k + 1, Seq::empty());
        match d {
            Ok(_) => (Ok(Some(TokenKind::Terminal)), k, e),
            Err(x) => (Err(error_of(x)), k, e),
        }
    } else if ident_char(s[k]) {
        (Ok(Some(TokenKind::NonTerminal)), k, span_while(s, k, |c: char| ident_char(c)))
    } else {
        (Err(LexerError::InvalidCharacter { pos: at, character: s[k] }), k, k)
    }
}

/// No character goes unclassified: a scan from `i` passes over whitespace and
/// comment text only, up to the token it returns, which is not empty and covers the
/// characters from its start to where the next scan begins; at the end of input the
/// rest is all whitespace and comments.
pub proof fn lemma_scan_accounts(s: Seq<char>, i: int)
    requires
        0 <= i <= s.len(),
    ensures
        forall|j: int|
            i <= j < scan(s, i).1 ==> whitespace(#[trigger] s[j]) || in_comment(s, i, j),
        scan(s, i).0 matches Ok(Some(_)) ==> i <= scan(s, i).1 < scan(s, i).2 <= s.len(),
        scan(s, i).0 matches Ok(None) ==> scan(s, i).1 == s.len(),
{
    lemma_skip_trivia(s, i);
    lemma_trivia_chars(s, i, i);
    let k = skip_trivia(s, i);
    lemma_span_while(s, k, |c: char| ident_char(c));
    if k + 1 <= s.len() {
        lemma_decode_end(s, byte_offset(s, k) as usize, k + 1, Seq::empty());
    }
}

/// A scanner over a source text that hands out one token per call of `next`.
pub struct Lexer {
    input: Vec<char>,
    idx: usize,
    pos: usize,
}

impl Lexer {
    /// The source text, as characters.
    pub closed spec fn text(&self) -> Seq<char> {
        self.input@
    }

    /// The index of the first character not yet scanned.
    pub closed spec fn index(&self) -> int {
        self.idx as int
    }

    pub closed spec fn wf(&self) -> bool {
        &&& self.idx <= self.input@.len()
        &&& self.pos == byte_offset(self.input@, self.idx as int)
        &&& byte_offset(self.input@, self.input@.len() as int) <= usize::MAX
    }

    pub fn new(input: &str) -> (r: Lexer)
        requires
            byte_offset(input@, input@.len() as int) <= usize::MAX,
        ensures
            r.wf(),
            r.text() == input@,
            r.index() == 0,
    {
        let chars = to_chars(input);
        proof {
            assert(chars@.take(0) =~= Seq::<char>::empty());
            assert(encode_utf8(Seq::<char>::empty()) =~= Seq::<u8>::empty());
        }
        Lexer { input: chars, idx: 0, pos: 0 }
    }

    /// The next character, left in place.
    fn peek_chr(&self) -> (r: Option<char>)
        requires
            self.wf(),
        ensures
            r == (if self.index() < self.text().len() {
                Some(self.text()[self.index()])
            } else {
                None
            }),
    {
        if self.idx < self.input.len() {
            Some(self.input[self.idx])
        } else {
            None
        }
    }

    /// Takes the next character, if any.
    fn next_chr(&mut self) -> (r: Option<char>)
        requires
            old(self).wf(),
        ensures
            final(self).wf(),
            final(self).text() == old(self).text(),
            r == (if old(self).index() < old(self).text().len() {
                Some(old(self).text()[old(self).index()])
            } else {
                None
            }),
            final(self).index() == (if r is Some {
                old(self).index() + 1
            } else {
                old(self).index()
            }),
    {
        if self.idx >= self.input.len() {
            return None;
        }
        let c = self.input[self.idx];
        proof {
            lemma_byte_offset_step(self.input@, self.idx as int);
            lemma_byte_offset_bound(self.input@, self.idx + 1);
            assert(self.input@.take(self.input@.len() as int) =~= self.input@);
        }
        self.pos = self.pos + utf8_width(c);
        self.idx = self.idx + 1;
        Some(c)
    }

    /// Moves the cursor forward to index `j`.
    fn advance_to(&mut self, j: usize)
        requires
            old(self).wf(),
            old(self).index() <= j <= old(self).text().len(),
        ensures
            final(self).wf(),
            final(self).text() == old(self).text(),
            final(self).index() == j,
    {
        while self.idx < j
            invariant
                self.wf(),
                self.text() == old(self).text(),
                self.index() <= j <= self.text().len(),
            decreases j - self.idx,
        {
            self.next_chr();
        }
    }

    /// Skips whitespace and comments.
    fn skip_whitespace(&mut self)
        requires
            old(self).wf(),
        ensures
            final(self).wf(),
            final(self).text() == old(self).text(),
            final(self).index() == skip_trivia(old(self).text(), old(self).index()),
    {
        let k = skip_trivia_exec(&self.input, self.idx);
        proof {
            lemma_skip_trivia(self.input@, self.idx as int);
        }
        self.advance_to(k);
    }

    /// Takes the one-character token under the cursor.
    fn take_char(&mut self, kind: TokenKind) -> (t: Token)
        requires
            old(self).wf(),
            old(self).index() < old(self).text().len(),
        ensures
            final(self).wf(),
            final(self).text() == old(self).text(),
            final(self).index() == old(self).index() + 1,
            t.kind == kind,
            t.pos == byte_offset(old(self).text(), old(self).index()),
            t.text@ == old(self).text().subrange(old(self).index(), old(self).index() + 1),
    {
        let start = self.idx;
        let pos = self.pos;
        self.next_chr();
        Token { kind, text: string_of(&self.input, start, self.idx), pos }
    }

    pub proof fn lemma_wf(&self)
        requires
            self.wf(),
        ensures
            0 <= self.index() <= self.text().len(),
    {
    }

    /// Takes the next token; `Ok(None)` at the end of the input.
    pub fn next(&mut self) -> (r: Result<Option<Token>, LexerError>)
        requires
            old(self).wf(),
        ensures
            final(self).wf(),
            final(self).text() == old(self).text(),
            ({
                let (res, start, end) = scan(old(self).text(), old(self).index());
                &&& final(self).index() == end
                &&& match r {
                    Ok(Some(t)) => {
                        &&& res == Ok::<Option<TokenKind>, LexerError>(Some(t.kind))
                        &&& t.pos == byte_offset(old(self).text(), start)
                        &&& t.text@ == old(self).text().subrange(start, end)
                    },
                    Ok(None) => res == Ok::<Option<TokenKind>, LexerError>(None),
                    Err(e) => res == Err::<Option<TokenKind>, LexerError>(e),
                }
            }),
    {
        self.skip_whitespace();
        let peek = match self.peek_chr() {
            Some(c) => c,
            None => {
                return Ok(None);
            },
        };
        let start = self.idx;
        let pos = self.pos;
        let n = self.input.len();
        assert(start < n);
        match punct(peek) {
            Some(kind) => {
                return Ok(Some(self.take_char(kind)));
            },
            None => {},
        }
        if peek == '\'' {
            let (d, e) = decode_terminal(&self.input, start, pos);
            proof {
                lemma_decode_end(self.input@, pos, start + 1, Seq::empty());
            }
            self.advance_to(e);
            match d {
                Ok(_) => Ok(
                    Some(
                        Token { kind: TokenKind::Terminal, text: string_of(&self.input, start, e), pos },
                    ),
                ),
                Err(x) => Err(convert_error(x)),
            }
        } else if is_ident_char(peek) {
            let e = ident_end(&self.input, start);
            proof {
                lemma_span_while(self.input@, start as int, |c: char| ident_char(c));
            }
            self.advance_to(e);
            Ok(Some(Token { kind: TokenKind::NonTerminal, text: string_of(&self.input, start, e), pos }))
        } else {
            Err(LexerError::InvalidCharacter { pos, character: peek })
        }
    }
}

} // verus!
