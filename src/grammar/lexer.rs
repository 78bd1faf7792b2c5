//! The scanner for grammar files. It hands out these tokens:
//! identifiers (names of rules), quoted terminals, `(`, `)`, `[`, `]`, `{`, `}`,
//! `|`, `:` and `;`. Whitespace and `#` comments between tokens are skipped.
use vstd::prelude::*;
use crate::chars::{
    byte_offset, column_of, ident_char, lemma_byte_offset_at_least, lemma_line_column_bound,
    line_of, ident_end, lemma_byte_offset_bound, lemma_byte_offset_step,
    lemma_skip_trivia, lemma_span_while, push_char, skip_trivia, skip_trivia_exec, span_while,
    string_of, to_chars, utf8_width,
};
use super::token::{Token, TokenClass, TokenKind};
use vstd::utf8::encode_utf8;

verus! {

/// Why a scan failed. Each position is the byte offset of the offending character
/// (for an unterminated terminal: of its opening quote).
#[derive(Clone, Copy, Debug, PartialEq, Eq, Structural)]
pub enum LexError {
    UnterminatedTerminal { pos: usize },
    InvalidEscape { pos: usize, ch: char },
    InvalidCharacter { pos: usize, ch: char },
}

/// The class of a structural token written as the single character `c`.
pub open spec fn literal_class(c: char) -> Option<TokenClass> {
    if c == '(' {
        Some(TokenClass::LParen)
    } else if c == ')' {
        Some(TokenClass::RParen)
    } else if c == '[' {
        Some(TokenClass::LBracket)
    } else if c == ']' {
        Some(TokenClass::RBracket)
    } else if c == '{' {
        Some(TokenClass::LBrace)
    } else if c == '}' {
        Some(TokenClass::RBrace)
    } else if c == '|' {
        Some(TokenClass::Pipe)
    } else if c == ':' {
        Some(TokenClass::Colon)
    } else if c == ';' {
        Some(TokenClass::SemiColon)
    } else {
        None
    }
}

/// The character that the escape `\c` stands for.
pub open spec fn escape_of(c: char) -> Option<char> {
    if c == 't' {
        Some('\t')
    } else if c == 'n' {
        Some('\n')
    } else if c == 'r' {
        Some('\r')
    } else if c == '0' {
        Some('\0')
    } else if c == '\'' {
        Some('\'')
    } else if c == '\\' {
        Some('\\')
    } else {
        None
    }
}

pub fn escape(c: char) -> (r: Option<char>)
    ensures
        r == escape_of(c),
{
    match c {
        't' => Some('\t'),
        'n' => Some('\n'),
        'r' => Some('\r'),
        '0' => Some('\0'),
        '\'' => Some('\''),
        '\\' => Some('\\'),
        _ => None,
    }
}

/// Decodes the body of a terminal from index `j` of `s` on, after `acc` has been
/// decoded already; `at` is the byte offset of the opening quote. Yields the decoded
/// text or the error, and the index where decoding stops.
pub open spec fn decode(s: Seq<char>, at: usize, j: int, acc: Seq<char>) -> (
    Result<Seq<char>, LexError>,
    int,
)
    decreases s.len() - j,
{
    if j < 0 || j >= s.len() {
        (Err(LexError::UnterminatedTerminal { pos: at }), s.len() as int)
    } else if s[j] == '\'' {
        (Ok(acc), j + 1)
    } else if s[j] == '\\' {
        if j + 1 >= s.len() {
            (Err(LexError::UnterminatedTerminal { pos: at }), s.len() as int)
        } else if escape_of(s[j + 1]) is Some {
            decode(s, at, j + 2, acc.push(escape_of(s[j + 1])->0))
        } else {
            (
                Err(LexError::InvalidEscape { pos: byte_offset(s, j + 1) as usize, ch: s[j + 1] }),
                j + 2,
            )
        }
    } else {
        decode(s, at, j + 1, acc.push(s[j]))
    }
}

pub proof fn lemma_decode_end(s: Seq<char>, at: usize, j: int, acc: Seq<char>)
    requires
        0 <= j <= s.len(),
    ensures
        j < decode(s, at, j, acc).1 <= s.len() || (j == s.len() && decode(s, at, j, acc).1
            == s.len()),
    decreases s.len() - j,
{
    if j < s.len() && s[j] != '\'' && s[j] != '\\' {
        lemma_decode_end(s, at, j + 1, acc.push(s[j]));
    } else if j + 1 < s.len() && s[j] == '\\' && escape_of(s[j + 1]) is Some {
        lemma_decode_end(s, at, j + 2, acc.push(escape_of(s[j + 1])->0));
    }
}

/// Decodes the terminal whose opening quote stands at index `k` of `s`, `at` being
/// that quote's byte offset: yields the decoded text or the error, and the index
/// where decoding stops (just past the closing quote on success).
pub fn decode_terminal(s: &Vec<char>, k: usize, at: usize) -> (r: (Result<String, LexError>, usize))
    requires
        k < s@.len(),
        at == byte_offset(s@, k as int),
        byte_offset(s@, s@.len() as int) <= usize::MAX,
    ensures
        ({
            let (d, e) = decode(s@, at, k + 1, Seq::empty());
            &&& r.1 == e
            &&& match r.0 {
                Ok(v) => d == Ok::<Seq<char>, LexError>(v@),
                Err(x) => d == Err::<Seq<char>, LexError>(x),
            }
        }),
{
    let ghost t = s@;
    let n = s.len();
    proof {
        assert(t.take(t.len() as int) =~= t);
        lemma_byte_offset_step(t, k as int);
        lemma_byte_offset_bound(t, k + 1);
    }
    let mut j = k + 1;
    let mut off = at + utf8_width(s[k]);
    let mut id = String::new();
    loop
        invariant
            t == s@,
            n == t.len(),
            k < j <= n,
            off == byte_offset(t, j as int),
            byte_offset(t, t.len() as int) <= usize::MAX,
            t.take(t.len() as int) =~= t,
            decode(t, at, j as int, id@) == decode(t, at, k + 1, Seq::empty()),
        decreases n - j,
    {
        if j >= n {
            return (Err(LexError::UnterminatedTerminal { pos: at }), j);
        }
        let c = s[j];
        proof {
            lemma_byte_offset_step(t, j as int);
            lemma_byte_offset_bound(t, j + 1);
        }
        if c == '\'' {
            return (Ok(id), j + 1);
        } else if c == '\\' {
            if j + 1 >= n {
                return (Err(LexError::UnterminatedTerminal { pos: at }), n);
            }
            let e = s[j + 1];
            proof {
                lemma_byte_offset_step(t, j + 1);
                lemma_byte_offset_bound(t, j + 2);
            }
            match escape(e) {
                Some(d) => {
                    push_char(&mut id, d);
                    off = off + utf8_width(c) + utf8_width(e);
                    j = j + 2;
                },
                None => {
                    return (Err(LexError::InvalidEscape { pos: off + utf8_width(c), ch: e }), j + 2);
                },
            }
        } else {
            push_char(&mut id, c);
            off = off + utf8_width(c);
            j = j + 1;
        }
    }
}

/// What one scan from index `i` of `s` yields: a token (as class and text), the end
/// of input, or an error; the index where the token starts; the index where scanning
/// stops.
pub open spec fn scan(s: Seq<char>, i: int) -> (
    Result<Option<(TokenClass, Seq<char>)>, LexError>,
    int,
    int,
) {
    let k = skip_trivia(s, i);
    let at = byte_offset(s, k) as usize;
    if k >= s.len() {
        (Ok(None), k, k)
    } else if literal_class(s[k]) is Some {
        (Ok(Some((literal_class(s[k])->0, Seq::empty()))), k, k + 1)
    } else if ident_char(s[k]) {
        let e = span_while(s, k, |c: char| ident_char(c));
        (Ok(Some((TokenClass::Ident, s.subrange(k, e)))), k, e)
    } else if s[k] == '\'' {
        let (d, e) = decode(s, at, k + 1, Seq::empty());
        match d {
            Ok(v) => (Ok(Some((TokenClass::Term, v))), k, e),
            Err(x) => (Err(x), k, e),
        }
    } else {
        (Err(LexError::InvalidCharacter { pos: at, ch: s[k] }), k, k)
    }
}

/// `r` is what a scan of `s` from index `i` yields, and scanning stops at `end`.
pub open spec fn scanned(s: Seq<char>, i: int, r: Result<Option<Token>, LexError>, end: int) -> bool {
    let (res, start, stop) = scan(s, i);
    &&& end == stop
    &&& match r {
        Ok(Some(t)) => {
            &&& res == Ok::<Option<(TokenClass, Seq<char>)>, LexError>(Some(t.kind@))
            &&& t.pos == byte_offset(s, start)
            &&& t.line == line_of(s, start)
            &&& t.column == column_of(s, start)
            &&& t.text@ == s.subrange(start, stop)
        },
        Ok(None) => res == Ok::<Option<(TokenClass, Seq<char>)>, LexError>(None),
        Err(e) => res == Err::<Option<(TokenClass, Seq<char>)>, LexError>(e),
    }
}

/// Scanning is a function of the text and the index it starts from: two scans from
/// the same point yield the same token (kind, text and position), both the end of
/// input, or the same error, and stop at the same index.
pub proof fn lemma_scan_deterministic(
    s: Seq<char>,
    i: int,
    r1: Result<Option<Token>, LexError>,
    end1: int,
    r2: Result<Option<Token>, LexError>,
    end2: int,
)
    requires
        scanned(s, i, r1, end1),
        scanned(s, i, r2, end2),
    ensures
        end1 == end2,
        match (r1, r2) {
            (Ok(Some(t1)), Ok(Some(t2))) => {
                &&& t1.kind@ == t2.kind@
                &&& t1.text@ == t2.text@
                &&& t1.pos == t2.pos
                &&& t1.line == t2.line
                &&& t1.column == t2.column
            },
            (Ok(None), Ok(None)) => true,
            (Err(x), Err(y)) => x == y,
            _ => false,
        },
{
}

/// A scanner over a source text that hands out one token per call.
pub struct Lexer {
    text: Vec<char>,
    idx: usize,
    pos: usize,
    line: usize,
    column: usize,
}

impl Lexer {
    /// The source text, as characters.
    pub closed spec fn source(&self) -> Seq<char> {
        self.text@
    }

    /// The index of the first character not yet scanned.
    pub closed spec fn index(&self) -> int {
        self.idx as int
    }

    pub closed spec fn wf(&self) -> bool {
        &&& self.idx <= self.text@.len()
        &&& self.pos == byte_offset(self.text@, self.idx as int)
        &&& self.line == line_of(self.text@, self.idx as int)
        &&& self.column == column_of(self.text@, self.idx as int)
        &&& byte_offset(self.text@, self.text@.len() as int) < usize::MAX
    }

    pub proof fn lemma_wf(&self)
        requires
            self.wf(),
        ensures
            0 <= self.index() <= self.source().len(),
    {
    }

    pub fn new(text: &str) -> (r: Lexer)
        requires
            byte_offset(text@, text@.len() as int) < usize::MAX,
        ensures
            r.wf(),
            r.source() == text@,
            r.index() == 0,
    {
        let chars = to_chars(text);
        proof {
            assert(chars@.take(0) =~= Seq::<char>::empty());
            assert(encode_utf8(Seq::<char>::empty()) =~= Seq::<u8>::empty());
        }
        Lexer { text: chars, idx: 0, pos: 0, line: 1, column: 1 }
    }

    /// Takes the next character, if any.
    fn consume_next(&mut self) -> (r: Option<char>)
        requires
            old(self).wf(),
        ensures
            final(self).wf(),
            final(self).source() == old(self).source(),
            r == (if old(self).index() < old(self).source().len() {
                Some(old(self).source()[old(self).index()])
            } else {
                None
            }),
            final(self).index() == (if r is Some {
                old(self).index() + 1
            } else {
                old(self).index()
            }),
    {
        if self.idx >= self.text.len() {
            return None;
        }
        let c = self.text[self.idx];
        proof {
            lemma_byte_offset_step(self.text@, self.idx as int);
            lemma_byte_offset_bound(self.text@, self.idx + 1);
            assert(self.text@.take(self.text@.len() as int) =~= self.text@);
        }
        proof {
            lemma_byte_offset_at_least(self.text@, self.idx + 1);
            lemma_line_column_bound(self.text@, self.idx as int);
        }
        self.pos = self.pos + utf8_width(c);
        if c == '\n' {
            self.line = self.line + 1;
            self.column = 1;
        } else {
            self.column = self.column + 1;
        }
        self.idx = self.idx + 1;
        Some(c)
    }

    /// Moves the cursor forward to index `j`.
    fn consume_to(&mut self, j: usize)
        requires
            old(self).wf(),
            old(self).index() <= j <= old(self).source().len(),
        ensures
            final(self).wf(),
            final(self).source() == old(self).source(),
            final(self).index() == j,
    {
        while self.idx < j
            invariant
                self.wf(),
                self.source() == old(self).source(),
                self.index() <= j <= self.source().len(),
            decreases j - self.idx,
        {
            self.consume_next();
        }
    }

    /// Skips whitespace and comments.
    fn skip_whitespace(&mut self)
        requires
            old(self).wf(),
        ensures
            final(self).wf(),
            final(self).source() == old(self).source(),
            final(self).index() == skip_trivia(old(self).source(), old(self).index()),
    {
        let k = skip_trivia_exec(&self.text, self.idx);
        proof {
            lemma_skip_trivia(self.text@, self.idx as int);
        }
        self.consume_to(k);
    }

    /// Reads a quoted terminal under the cursor and decodes its escapes; `Ok(None)`,
    /// with nothing consumed, where no quote is under the cursor.
    fn terminal(&mut self) -> (r: Result<Option<String>, LexError>)
        requires
            old(self).wf(),
        ensures
            final(self).wf(),
            final(self).source() == old(self).source(),
            ({
                let s = old(self).source();
                let k = old(self).index();
                if k < s.len() && s[k] == '\'' {
                    let (d, e) = decode(s, byte_offset(s, k) as usize, k + 1, Seq::empty());
                    &&& final(self).index() == e
                    &&& match r {
                        Ok(Some(v)) => d == Ok::<Seq<char>, LexError>(v@),
                        Ok(None) => false,
                        Err(x) => d == Err::<Seq<char>, LexError>(x),
                    }
                } else {
                    r == Ok::<Option<String>, LexError>(None) && final(self).index() == k
                }
            }),
    {
        if self.idx >= self.text.len() || self.text[self.idx] != '\'' {
            return Ok(None);
        }
        let (d, e) = decode_terminal(&self.text, self.idx, self.pos);
        proof {
            lemma_decode_end(self.text@, self.pos, self.idx + 1, Seq::empty());
        }
        self.consume_to(e);
        match d {
            Ok(v) => Ok(Some(v)),
            Err(x) => Err(x),
        }
    }

    /// Scans the next token: `Ok(None)` at the end of the input.
    pub fn next_token(&mut self) -> (r: Result<Option<Token>, LexError>)
        requires
            old(self).wf(),
        ensures
            final(self).wf(),
            final(self).source() == old(self).source(),
            scanned(old(self).source(), old(self).index(), r, final(self).index()),
    {
        self.skip_whitespace();
        if self.idx >= self.text.len() {
            return Ok(None);
        }
        let start = self.idx;
        let pos = self.pos;
        let line = self.line;
        let column = self.column;
        let c = self.text[start];
        match literal(c) {
            Some(kind) => {
                self.consume_next();
                return Ok(Some(Token { kind, text: string_of(&self.text, start, start + 1), pos, line, column }));
            },
            None => {},
        }
        let e = ident_end(&self.text, start);
        proof {
            lemma_span_while(self.text@, start as int, |c: char| ident_char(c));
        }
        if e > start {
            self.consume_to(e);
            let name = string_of(&self.text, start, e);
            return Ok(Some(Token { kind: TokenKind::Ident(name), text: string_of(&self.text, start, e), pos, line, column }));
        }
        if c == '\'' {
            proof {
                lemma_decode_end(self.text@, pos, start + 1, Seq::empty());
            }
            let t = match self.terminal() {
                Ok(Some(t)) => t,
                Ok(None) => {
                    return Err(LexError::InvalidCharacter { pos, ch: c });
                },
                Err(x) => {
                    return Err(x);
                },
            };
            return Ok(Some(Token { kind: TokenKind::Term(t), text: string_of(&self.text, start, self.idx), pos, line, column }));
        }
        Err(LexError::InvalidCharacter { pos, ch: c })
    }

    /// The next token; `None` at the end of the input and after an error.
    pub fn next(&mut self) -> (r: Option<Token>)
        requires
            old(self).wf(),
        ensures
            final(self).wf(),
            final(self).source() == old(self).source(),
            ({
                let (res, start, end) = scan(old(self).source(), old(self).index());
                &&& final(self).index() == end
                &&& match r {
                    Some(t) => {
                        &&& res == Ok::<Option<(TokenClass, Seq<char>)>, LexError>(Some(t.kind@))
                        &&& t.pos == byte_offset(old(self).source(), start)
                        &&& t.line == line_of(old(self).source(), start)
                        &&& t.column == column_of(old(self).source(), start)
                        &&& t.text@ == old(self).source().subrange(start, end)
                    },
                    None => !(res matches Ok(Some(_))),
                }
            }),
    {
        match self.next_token() {
            Ok(t) => t,
            Err(_) => None,
        }
    }
}

fn literal(c: char) -> (r: Option<TokenKind>)
    ensures
        match r {
            Some(k) => literal_class(c) == Some(k@.0) && k@.1 == Seq::<char>::empty(),
            None => literal_class(c) is None,
        },
{
    match c {
        '(' => Some(TokenKind::LParen),
        ')' => Some(TokenKind::RParen),
        '[' => Some(TokenKind::LBracket),
        ']' => Some(TokenKind::RBracket),
        '{' => Some(TokenKind::LBrace),
        '}' => Some(TokenKind::RBrace),
        '|' => Some(TokenKind::Pipe),
        ':' => Some(TokenKind::Colon),
        ';' => Some(TokenKind::SemiColon),
        _ => None,
    }
}

} // verus!
