//! A recursive-descent parser for grammar files, one function per nonterminal of
//!     grammar = { rule } ;
//!     rule    = ident ':' expr ';' ;
//!     expr    = seq { '|' seq } ;
//!     seq     = { item } ;
//!     item    = ident | terminal | '(' expr ')' | '[' expr ']' | '{' expr '}' ;
//! with one token of lookahead. The first error ends the parse.
use vstd::prelude::*;
use crate::chars::{
    byte_offset, decimal, in_comment, lemma_trivia_chars, push_char, push_decimal, push_str,
    whitespace,
};
use super::ast::{
    alts_model, expr_model, item_model, items_model, rules_model, Expression, Grammar, Item,
    ItemM, Rule, RuleM, Sequence,
};
use super::lexer::{scan, LexError, Lexer};
use super::token::{Token, TokenClass, TokenKind};

verus! {

/// What the parser would have taken where it failed.
#[derive(Clone, Copy, Debug, PartialEq, Eq, Structural)]
pub enum Expected {
    /// Only a token of this class.
    Token(TokenClass),
    /// After an expression: the start of another item, `|`, or a token of this class
    /// (the one that closes the expression).
    ItemOr(TokenClass),
}

impl Expected {
    /// The token class that the construct being parsed requires next.
    pub open spec fn required(self) -> TokenClass {
        match self {
            Expected::Token(c) => c,
            Expected::ItemOr(c) => c,
        }
    }

    /// Every token class that the parser would have taken at that point.
    pub open spec fn classes(self) -> Set<TokenClass> {
        match self {
            Expected::Token(c) => set![c],
            Expected::ItemOr(c) => set![
                TokenClass::Ident,
                TokenClass::Term,
                TokenClass::LParen,
                TokenClass::LBracket,
                TokenClass::LBrace,
                TokenClass::Pipe,
                c,
            ],
        }
    }

    fn required_class(self) -> (r: TokenClass)
        ensures
            r == self.required(),
    {
        match self {
            Expected::Token(c) => c,
            Expected::ItemOr(c) => c,
        }
    }
}

/// Why a parse failed.
#[derive(Clone, Copy, Debug, PartialEq, Eq, Structural)]
pub enum ParseError {
    /// The scanner failed.
    Lexical(LexError),
    /// One of the tokens that `expected` describes was needed, and a token of class
    /// `found` stood at byte offset `pos`.
    UnexpectedToken { expected: Expected, found: TokenClass, pos: usize },
    /// One of the tokens that `expected` describes was needed, and the input ended
    /// (at byte offset `pos`).
    UnexpectedEndOfInput { expected: Expected, pos: usize },
}

/// How a token class is named in messages.
pub open spec fn class_name(c: TokenClass) -> Seq<char> {
    match c {
        TokenClass::Ident => "identifier"@,
        TokenClass::Term => "terminal"@,
        TokenClass::LParen => "'('"@,
        TokenClass::RParen => "')'"@,
        TokenClass::LBracket => "'['"@,
        TokenClass::RBracket => "']'"@,
        TokenClass::LBrace => "'{'"@,
        TokenClass::RBrace => "'}'"@,
        TokenClass::Pipe => "'|'"@,
        TokenClass::Colon => "':'"@,
        TokenClass::SemiColon => "';'"@,
    }
}

fn class_str(c: TokenClass) -> (r: &'static str)
    ensures
        r@ == class_name(c),
{
    match c {
        TokenClass::Ident => "identifier",
        TokenClass::Term => "terminal",
        TokenClass::LParen => "'('",
        TokenClass::RParen => "')'",
        TokenClass::LBracket => "'['",
        TokenClass::RBracket => "']'",
        TokenClass::LBrace => "'{'",
        TokenClass::RBrace => "'}'",
        TokenClass::Pipe => "'|'",
        TokenClass::Colon => "':'",
        TokenClass::SemiColon => "';'",
    }
}

/// How what was expected is named in messages.
pub open spec fn expected_name(x: Expected) -> Seq<char> {
    match x {
        Expected::Token(c) => class_name(c),
        Expected::ItemOr(c) => "an item, '|' or "@ + class_name(c),
    }
}

fn push_expected(m: &mut String, x: Expected)
    ensures
        final(m)@ == old(m)@ + expected_name(x),
{
    match x {
        Expected::Token(c) => push_str(m, class_str(c)),
        Expected::ItemOr(c) => {
            push_str(m, "an item, '|' or ");
            push_str(m, class_str(c));
            assert(final(m)@ =~= old(m)@ + expected_name(x));
        },
    }
}

/// The human-readable description of an error, ending with its byte offset.
pub open spec fn message_of(e: ParseError) -> Seq<char> {
    match e {
        ParseError::Lexical(LexError::UnterminatedTerminal { pos }) => "unterminated terminal"@
            + " at byte "@ + decimal(pos as nat),
        ParseError::Lexical(LexError::InvalidEscape { pos, ch }) => "invalid escape character '"@
            + seq![ch] + "'"@ + " at byte "@ + decimal(pos as nat),
        ParseError::Lexical(LexError::InvalidCharacter { pos, ch }) => "invalid character '"@
            + seq![ch] + "'"@ + " at byte "@ + decimal(pos as nat),
        ParseError::UnexpectedToken { expected, found, pos } => "expected "@ + expected_name(
            expected,
        ) + ", found "@ + class_name(found) + " at byte "@ + decimal(pos as nat),
        ParseError::UnexpectedEndOfInput { expected, pos } => "expected "@ + expected_name(
            expected,
        ) + ", found end of input"@ + " at byte "@ + decimal(pos as nat),
    }
}

impl ParseError {
    /// A description of the error for people, with its position.
    pub fn message(&self) -> (r: String)
        ensures
            r@ == message_of(*self),
    {
        let mut m = String::new();
        let pos = match *self {
            ParseError::Lexical(LexError::UnterminatedTerminal { pos }) => {
                push_str(&mut m, "unterminated terminal");
                pos
            },
            ParseError::Lexical(LexError::InvalidEscape { pos, ch }) => {
                push_str(&mut m, "invalid escape character '");
                push_char(&mut m, ch);
                push_str(&mut m, "'");
                pos
            },
            ParseError::Lexical(LexError::InvalidCharacter { pos, ch }) => {
                push_str(&mut m, "invalid character '");
                push_char(&mut m, ch);
                push_str(&mut m, "'");
                pos
            },
            ParseError::UnexpectedToken { expected, found, pos } => {
                push_str(&mut m, "expected ");
                push_expected(&mut m, expected);
                push_str(&mut m, ", found ");
                push_str(&mut m, class_str(found));
                pos
            },
            ParseError::UnexpectedEndOfInput { expected, pos } => {
                push_str(&mut m, "expected ");
                push_expected(&mut m, expected);
                push_str(&mut m, ", found end of input");
                pos
            },
        };
        push_str(&mut m, " at byte ");
        push_decimal(&mut m, pos);
        proof {
            assert(m@ =~= message_of(*self));
        }
        m
    }
}

/// A token as the parser sees it: class, text of an identifier or terminal, position.
pub type TokM = (TokenClass, Seq<char>, usize);

/// What the scanner yields over a whole text: the tokens up to the end or the first
/// error, that error if there is one, and the byte length of the text.
pub struct Input {
    pub toks: Seq<TokM>,
    pub err: Option<LexError>,
    pub end: usize,
}

/// The tokens scanned from index `i` of `s` on, and the error that stopped the scan.
pub open spec fn lex_all(s: Seq<char>, i: int) -> (Seq<TokM>, Option<LexError>)
    decreases s.len() - i,
{
    let (res, start, end) = scan(s, i);
    match res {
        Ok(Some(t)) => if i < end <= s.len() {
            let (rest, err) = lex_all(s, end);
            (seq![(t.0, t.1, byte_offset(s, start) as usize)] + rest, err)
        } else {
            (Seq::empty(), None)
        },
        Ok(None) => (Seq::empty(), None),
        Err(e) => (Seq::empty(), Some(e)),
    }
}

pub open spec fn input_of(s: Seq<char>) -> Input {
    let (toks, err) = lex_all(s, 0);
    Input { toks, err, end: byte_offset(s, s.len() as int) as usize }
}

/// The lookahead at token index `i`: a token, the end of input, or the scan error.
pub open spec fn look(inp: Input, i: int) -> Result<Option<TokM>, ParseError> {
    if 0 <= i < inp.toks.len() {
        Ok(Some(inp.toks[i]))
    } else {
        match inp.err {
            Some(e) => Err(ParseError::Lexical(e)),
            None => Ok(None),
        }
    }
}

/// Requires a token of the class that `x` requires at index `i`; `x` is what the
/// parser would have taken there.
pub open spec fn expect(inp: Input, i: int, x: Expected) -> Result<(), ParseError> {
    match look(inp, i) {
        Err(e) => Err(e),
        Ok(Some(t)) => if t.0 == x.required() {
            Ok(())
        } else {
            Err(ParseError::UnexpectedToken { expected: x, found: t.0, pos: t.2 })
        },
        Ok(None) => Err(ParseError::UnexpectedEndOfInput { expected: x, pos: inp.end }),
    }
}

/// The class that closes a bracket opened by `c`.
pub open spec fn closer(c: TokenClass) -> TokenClass {
    match c {
        TokenClass::LParen => TokenClass::RParen,
        TokenClass::LBracket => TokenClass::RBracket,
        _ => TokenClass::RBrace,
    }
}

pub open spec fn is_opener(c: TokenClass) -> bool {
    c == TokenClass::LParen || c == TokenClass::LBracket || c == TokenClass::LBrace
}

pub open spec fn bracketed(c: TokenClass, e: Seq<Seq<ItemM>>) -> ItemM {
    match c {
        TokenClass::LParen => ItemM::Group(e),
        TokenClass::LBracket => ItemM::Optional(e),
        _ => ItemM::Repetition(e),
    }
}

/// `item` at token index `i`: the item and the index after it, or `None` where no
/// item begins.
pub open spec fn p_item(inp: Input, i: int) -> Result<Option<(ItemM, int)>, ParseError>
    decreases inp.toks.len() - i, 0int,
{
    match look(inp, i) {
        Err(e) => Err(e),
        Ok(None) => Ok(None),
        Ok(Some(t)) => if t.0 == TokenClass::Ident {
            Ok(Some((ItemM::NonTerminal(t.1), i + 1)))
        } else if t.0 == TokenClass::Term {
            Ok(Some((ItemM::Terminal(t.1), i + 1)))
        } else if is_opener(t.0) && 0 <= i {
            match p_expr(inp, i + 1) {
                Err(e) => Err(e),
                Ok((e, j)) => match expect(inp, j, Expected::ItemOr(closer(t.0))) {
                    Err(x) => Err(x),
                    Ok(_) => Ok(Some((bracketed(t.0, e), j + 1))),
                },
            }
        } else {
            Ok(None)
        },
    }
}

/// `seq` at token index `i`: its items and the index after them.
pub open spec fn p_seq(inp: Input, i: int) -> Result<(Seq<ItemM>, int), ParseError>
    decreases inp.toks.len() - i, 1int,
{
    match p_item(inp, i) {
        Err(e) => Err(e),
        Ok(None) => Ok((Seq::empty(), i)),
        Ok(Some((it, j))) => if i < j <= inp.toks.len() {
            match p_seq(inp, j) {
                Err(e) => Err(e),
                Ok((rest, k)) => Ok((seq![it] + rest, k)),
            }
        } else {
            Ok((Seq::empty(), i))
        },
    }
}

/// The alternatives that follow index `i`, each introduced by `|`.
pub open spec fn p_alts(inp: Input, i: int) -> Result<(Seq<Seq<ItemM>>, int), ParseError>
    decreases inp.toks.len() - i, 2int,
{
    match look(inp, i) {
        Err(e) => Err(e),
        Ok(Some(t)) => if t.0 == TokenClass::Pipe && 0 <= i {
            match p_seq(inp, i + 1) {
                Err(e) => Err(e),
                Ok((s, j)) => if i < j <= inp.toks.len() {
                    match p_alts(inp, j) {
                        Err(e) => Err(e),
                        Ok((rest, k)) => Ok((seq![s] + rest, k)),
                    }
                } else {
                    Ok((Seq::empty(), i))
                },
            }
        } else {
            Ok((Seq::empty(), i))
        },
        Ok(None) => Ok((Seq::empty(), i)),
    }
}

/// `expr` at token index `i`: its alternatives and the index after them.
pub open spec fn p_expr(inp: Input, i: int) -> Result<(Seq<Seq<ItemM>>, int), ParseError>
    decreases inp.toks.len() - i, 3int,
{
    match p_seq(inp, i) {
        Err(e) => Err(e),
        Ok((s, j)) => if i <= j <= inp.toks.len() {
            match p_alts(inp, j) {
                Err(e) => Err(e),
                Ok((rest, k)) => Ok((seq![s] + rest, k)),
            }
        } else {
            Ok((seq![s], j))
        },
    }
}

/// `rule` at token index `i`.
pub open spec fn p_rule(inp: Input, i: int) -> Result<(RuleM, int), ParseError> {
    match expect(inp, i, Expected::Token(TokenClass::Ident)) {
        Err(e) => Err(e),
        Ok(_) => match expect(inp, i + 1, Expected::Token(TokenClass::Colon)) {
            Err(e) => Err(e),
            Ok(_) => match p_expr(inp, i + 2) {
                Err(e) => Err(e),
                Ok((body, j)) => match expect(inp, j, Expected::ItemOr(TokenClass::SemiColon)) {
                    Err(e) => Err(e),
                    Ok(_) => Ok(((inp.toks[i].1, body), j + 1)),
                },
            },
        },
    }
}

/// `grammar` from token index `i` on: the rules up to the end of input.
pub open spec fn p_rules(inp: Input, i: int) -> Result<Seq<RuleM>, ParseError>
    decreases inp.toks.len() - i,
{
    match look(inp, i) {
        Err(e) => Err(e),
        Ok(None) => Ok(Seq::empty()),
        Ok(Some(_)) => match p_rule(inp, i) {
            Err(e) => Err(e),
            Ok((r, j)) => if i < j <= inp.toks.len() {
                match p_rules(inp, j) {
                    Err(e) => Err(e),
                    Ok(rest) => Ok(seq![r] + rest),
                }
            } else {
                Ok(seq![r])
            },
        },
    }
}

/// What parsing the text `s` yields: the models of its rules, or the first error.
pub open spec fn parse_spec(s: Seq<char>) -> Result<Seq<RuleM>, ParseError> {
    p_rules(input_of(s), 0)
}

/// Parsing is a function of the text: two parses of the same text, each with the
/// outcome that `parse` promises, agree on the rules or on the error.
pub proof fn lemma_parse_deterministic(
    text: Seq<char>,
    r1: Result<Grammar, ParseError>,
    r2: Result<Grammar, ParseError>,
)
    requires
        parse_outcome(r1) == parse_spec(text),
        parse_outcome(r2) == parse_spec(text),
    ensures
        parse_outcome(r1) == parse_outcome(r2),
        r1 is Ok <==> r2 is Ok,
        r1 is Ok ==> rules_model(r1->Ok_0.rules@) == rules_model(r2->Ok_0.rules@),
        r1 is Err ==> r1 == r2,
{
}

/// Token positions strictly increase along the stream that a text scans to, and
/// none lies before the point where the scan started.
pub proof fn lemma_positions_increase(s: Seq<char>, i: int)
    requires
        0 <= i <= s.len(),
        byte_offset(s, s.len() as int) <= usize::MAX,
    ensures
        forall|a: int|
            0 <= a < lex_all(s, i).0.len() ==> byte_offset(s, i) <= #[trigger] lex_all(
                s,
                i,
            ).0[a].2,
        forall|a: int, b: int|
            0 <= a < b < lex_all(s, i).0.len() ==> #[trigger] lex_all(s, i).0[a].2
                < #[trigger] lex_all(s, i).0[b].2,
    decreases s.len() - i,
{
    let (res, start, end) = scan(s, i);
    if res matches Ok(Some(_)) {
        lemma_scan_advances(s, i);
        lemma_positions_increase(s, end);
        crate::chars::lemma_byte_offset_increases(s, start, end);
        crate::chars::lemma_byte_offset_bound(s, end);
        crate::chars::lemma_byte_offset_bound(s, start);
        assert(s.take(s.len() as int) =~= s);
        if i < start {
            crate::chars::lemma_byte_offset_increases(s, i, start);
        }
        let toks = lex_all(s, i).0;
        let rest = lex_all(s, end).0;
        assert(toks =~= seq![toks[0]] + rest);
        assert forall|a: int, b: int| 0 <= a < b < toks.len() implies toks[a].2 < toks[b].2 by {
            if a > 0 {
                assert(toks[a] == rest[a - 1]);
            }
            assert(toks[b] == rest[b - 1]);
        }
        assert forall|a: int| 0 <= a < toks.len() implies byte_offset(s, i) <= toks[a].2 by {
            if a > 0 {
                assert(toks[a] == rest[a - 1]);
            }
        }
    }
}

/// No character goes unclassified: a scan from `i` passes over whitespace and
/// comment text only, up to the token it returns, which covers the characters from
/// its start to where the next scan begins; at the end of input the rest is all
/// whitespace and comments.
pub proof fn lemma_scan_accounts(s: Seq<char>, i: int)
    requires
        0 <= i <= s.len(),
    ensures
        forall|j: int|
            i <= j < scan(s, i).1 ==> whitespace(#[trigger] s[j]) || in_comment(s, i, j),
        scan(s, i).0 matches Ok(Some(_)) ==> i <= scan(s, i).1 < scan(s, i).2 <= s.len(),
        scan(s, i).0 matches Ok(None) ==> scan(s, i).1 == s.len(),
{
    crate::chars::lemma_skip_trivia(s, i);
    lemma_trivia_chars(s, i, i);
    if scan(s, i).0 matches Ok(Some(_)) {
        lemma_scan_advances(s, i);
    }
}

/// An empty pair of brackets is an item whose body has one empty alternative:
/// `()` a group, `[]` an option, `{}` a repetition.
pub proof fn lemma_empty_brackets(inp: Input, i: int)
    requires
        0 <= i,
        i + 1 < inp.toks.len(),
        is_opener(inp.toks[i].0),
        inp.toks[i + 1].0 == closer(inp.toks[i].0),
    ensures
        p_item(inp, i) == Ok::<Option<(ItemM, int)>, ParseError>(
            Some((bracketed(inp.toks[i].0, seq![Seq::<ItemM>::empty()]), i + 2)),
        ),
{
    assert(p_item(inp, i + 1) == Ok::<Option<(ItemM, int)>, ParseError>(None));
    assert(p_seq(inp, i + 1) == Ok::<(Seq<ItemM>, int), ParseError>((Seq::empty(), i + 1)));
    assert(p_alts(inp, i + 1) == Ok::<(Seq<Seq<ItemM>>, int), ParseError>(
        (Seq::empty(), i + 1),
    ));
    assert(seq![Seq::<ItemM>::empty()] + Seq::<Seq<ItemM>>::empty() =~= seq![
        Seq::<ItemM>::empty(),
    ]);
}

/// A token of class `c` can begin an item.
pub open spec fn starts_item(c: TokenClass) -> bool {
    c == TokenClass::Ident || c == TokenClass::Term || is_opener(c)
}

/// The lookahead at `j` is no token for which `p` holds.
pub open spec fn look_not(inp: Input, j: int, p: spec_fn(TokenClass) -> bool) -> bool {
    look(inp, j) matches Ok(Some(t)) ==> !p(t.0)
}

/// An error that names a found token names one that was not expected.
pub open spec fn error_is_exact(e: ParseError) -> bool {
    match e {
        ParseError::UnexpectedToken { expected, found, pos } => !expected.classes().contains(
            found,
        ),
        _ => true,
    }
}

proof fn lemma_item_exact(inp: Input, i: int)
    requires
        0 <= i <= inp.toks.len(),
    ensures
        p_item(inp, i) matches Err(e) ==> error_is_exact(e),
        p_item(inp, i) matches Ok(Some((_, j))) ==> i < j <= inp.toks.len(),
        p_item(inp, i) matches Ok(None) ==> look_not(inp, i, |c: TokenClass| starts_item(c)),
    decreases inp.toks.len() - i, 0int,
{
    if i < inp.toks.len() {
        let t = inp.toks[i];
        if is_opener(t.0) {
            lemma_expr_exact(inp, i + 1);
        }
    }
}

proof fn lemma_seq_exact(inp: Input, i: int)
    requires
        0 <= i <= inp.toks.len(),
    ensures
        p_seq(inp, i) matches Err(e) ==> error_is_exact(e),
        p_seq(inp, i) matches Ok((_, j)) ==> i <= j <= inp.toks.len() && look_not(
            inp,
            j,
            |c: TokenClass| starts_item(c),
        ),
    decreases inp.toks.len() - i, 1int,
{
    lemma_item_exact(inp, i);
    if let Ok(Some((_, j))) = p_item(inp, i) {
        lemma_seq_exact(inp, j);
    }
}

proof fn lemma_alts_exact(inp: Input, i: int)
    requires
        0 <= i <= inp.toks.len(),
        look_not(inp, i, |c: TokenClass| starts_item(c)),
    ensures
        p_alts(inp, i) matches Err(e) ==> error_is_exact(e),
        p_alts(inp, i) matches Ok((_, j)) ==> i <= j <= inp.toks.len() && look_not(
            inp,
            j,
            |c: TokenClass| starts_item(c) || c == TokenClass::Pipe,
        ),
    decreases inp.toks.len() - i, 2int,
{
    if let Ok(Some(t)) = look(inp, i) {
        if t.0 == TokenClass::Pipe {
            lemma_seq_exact(inp, i + 1);
            if let Ok((_, j)) = p_seq(inp, i + 1) {
                lemma_alts_exact(inp, j);
            }
        }
    }
}

proof fn lemma_expr_exact(inp: Input, i: int)
    requires
        0 <= i <= inp.toks.len(),
    ensures
        p_expr(inp, i) matches Err(e) ==> error_is_exact(e),
        p_expr(inp, i) matches Ok((_, j)) ==> i <= j <= inp.toks.len() && look_not(
            inp,
            j,
            |c: TokenClass| starts_item(c) || c == TokenClass::Pipe,
        ),
    decreases inp.toks.len() - i, 3int,
{
    lemma_seq_exact(inp, i);
    if let Ok((_, j)) = p_seq(inp, i) {
        lemma_alts_exact(inp, j);
    }
}

proof fn lemma_rules_exact(inp: Input, i: int)
    requires
        0 <= i <= inp.toks.len(),
    ensures
        p_rules(inp, i) matches Err(e) ==> error_is_exact(e),
    decreases inp.toks.len() - i,
{
    if i + 2 <= inp.toks.len() {
        lemma_expr_exact(inp, i + 2);
    }
    if let Ok(Some(_)) = look(inp, i) {
        if let Ok((_, j)) = p_rule(inp, i) {
            if i < j <= inp.toks.len() {
                lemma_rules_exact(inp, j);
            }
        }
    }
}

/// A syntax error names exactly what the parser would have taken: the token it
/// found there is never one of them.
pub proof fn lemma_error_is_exact(text: Seq<char>)
    ensures
        parse_spec(text) matches Err(e) ==> error_is_exact(e),
{
    lemma_rules_exact(input_of(text), 0);
}

/// The outcome of a parse, in terms of the model.
pub open spec fn parse_outcome(r: Result<Grammar, ParseError>) -> Result<Seq<RuleM>, ParseError> {
    match r {
        Ok(g) => Ok(rules_model(g.rules@)),
        Err(e) => Err(e),
    }
}

/// `pre` put before the items of a successful result.
pub open spec fn prepend<A>(pre: Seq<A>, r: Result<(Seq<A>, int), ParseError>) -> Result<
    (Seq<A>, int),
    ParseError,
> {
    match r {
        Ok((s, k)) => Ok((pre + s, k)),
        Err(e) => Err(e),
    }
}

pub open spec fn prepend_rules(pre: Seq<RuleM>, r: Result<Seq<RuleM>, ParseError>) -> Result<
    Seq<RuleM>,
    ParseError,
> {
    match r {
        Ok(s) => Ok(pre + s),
        Err(e) => Err(e),
    }
}

/// The scanned tokens of a text, with the error that ended the scan, if any.
pub struct TokenStream {
    toks: Vec<Token>,
    err: Option<LexError>,
    end: usize,
}

pub open spec fn tok_model(t: Token) -> TokM {
    (t.kind@.0, t.kind@.1, t.pos)
}

pub open spec fn toks_model(ts: Seq<Token>) -> Seq<TokM> {
    Seq::new(ts.len(), |k: int| tok_model(ts[k]))
}

impl View for TokenStream {
    type V = Input;

    closed spec fn view(&self) -> Input {
        Input { toks: toks_model(self.toks@), err: self.err, end: self.end }
    }
}

proof fn lemma_scan_advances(s: Seq<char>, i: int)
    requires
        0 <= i <= s.len(),
        scan(s, i).0 matches Ok(Some(_)),
    ensures
        i <= scan(s, i).1 < scan(s, i).2 <= s.len(),
{
    crate::chars::lemma_skip_trivia(s, i);
    let k = crate::chars::skip_trivia(s, i);
    crate::chars::lemma_span_while(s, k, |c: char| crate::chars::ident_char(c));
    if k + 1 <= s.len() {
        super::lexer::lemma_decode_end(s, byte_offset(s, k) as usize, k + 1, Seq::empty());
    }
}

impl TokenStream {
    /// Scans the whole of `text`, up to its end or the first error.
    pub fn new(text: &str) -> (r: TokenStream)
        requires
            byte_offset(text@, text@.len() as int) < usize::MAX,
        ensures
            r@ == input_of(text@),
    {
        let ghost s = text@;
        let end = text.len();
        proof {
            assert(s.take(s.len() as int) =~= s);
        }
        let mut lexer = Lexer::new(text);
        let mut toks: Vec<Token> = Vec::new();
        loop
            invariant
                lexer.wf(),
                lexer.source() == s,
                s == text@,
                0 <= lexer.index() <= s.len(),
                toks_model(toks@) + lex_all(s, lexer.index()).0 == lex_all(s, 0).0,
                lex_all(s, lexer.index()).1 == lex_all(s, 0).1,
                end == byte_offset(s, s.len() as int),
            decreases s.len() - lexer.index(),
        {
            let ghost i = lexer.index();
            let r = lexer.next_token();
            match r {
                Ok(Some(t)) => {
                    proof {
                        lemma_scan_advances(s, i);
                        let (rest, err) = lex_all(s, lexer.index());
                        assert(lex_all(s, i).0 == seq![tok_model(t)] + rest);
                    }
                    let ghost old_toks = toks@;
                    toks.push(t);
                    proof {
                        assert(toks_model(toks@) =~= toks_model(old_toks) + seq![tok_model(t)]);
                        assert(toks_model(toks@) + lex_all(s, lexer.index()).0 =~= toks_model(
                            old_toks,
                        ) + lex_all(s, i).0);
                    }
                },
                Ok(None) => {
                    assert(lex_all(s, i) == (Seq::<TokM>::empty(), None::<LexError>));
                    assert(toks_model(toks@) =~= toks_model(toks@) + lex_all(s, i).0);
                    return TokenStream { toks, err: None, end };
                },
                Err(e) => {
                    assert(lex_all(s, i) == (Seq::<TokM>::empty(), Some(e)));
                    assert(toks_model(toks@) =~= toks_model(toks@) + lex_all(s, i).0);
                    return TokenStream { toks, err: Some(e), end };
                },
            }
        }
    }

    pub closed spec fn len(&self) -> int {
        self.toks@.len() as int
    }

    pub proof fn lemma_len(&self)
        ensures
            self@.toks.len() == self.len(),
    {
    }

    /// The class of the lookahead at index `i`, the end of input, or the scan error.
    fn look(&self, i: usize) -> (r: Result<Option<TokenClass>, ParseError>)
        ensures
            self.len() <= usize::MAX,
            r matches Ok(Some(_)) ==> i < self.len(),
            match look(self@, i as int) {
                Ok(Some(t)) => r == Ok::<Option<TokenClass>, ParseError>(Some(t.0)),
                Ok(None) => r == Ok::<Option<TokenClass>, ParseError>(None),
                Err(e) => r == Err::<Option<TokenClass>, ParseError>(e),
            },
    {
        if i < self.toks.len() {
            Ok(Some(self.toks[i].kind.class()))
        } else {
            match self.err {
                Some(e) => Err(ParseError::Lexical(e)),
                None => Ok(None),
            }
        }
    }

    /// Requires a token of the class that `x` requires at index `i`.
    fn expect(&self, i: usize, x: Expected) -> (r: Result<(), ParseError>)
        ensures
            r == expect(self@, i as int, x),
            r is Ok ==> i < self.len(),
            self.len() <= usize::MAX,
    {
        if i < self.toks.len() {
            let t = &self.toks[i];
            let found = t.kind.class();
            if found == x.required_class() {
                Ok(())
            } else {
                Err(ParseError::UnexpectedToken { expected: x, found, pos: t.pos })
            }
        } else {
            match self.err {
                Some(e) => Err(ParseError::Lexical(e)),
                None => Err(ParseError::UnexpectedEndOfInput { expected: x, pos: self.end }),
            }
        }
    }

    /// The text of the identifier or terminal at index `i`.
    fn text_at(&self, i: usize) -> (r: String)
        requires
            i < self.len(),
        ensures
            r@ == self@.toks[i as int].1,
    {
        match &self.toks[i].kind {
            TokenKind::Ident(s) => s.clone(),
            TokenKind::Term(s) => s.clone(),
            _ => String::new(),
        }
    }
}

fn closer_of(c: TokenClass) -> (r: TokenClass)
    ensures
        r == closer(c),
{
    match c {
        TokenClass::LParen => TokenClass::RParen,
        TokenClass::LBracket => TokenClass::RBracket,
        _ => TokenClass::RBrace,
    }
}

/// Parses an `item` at index `i`; `None` where no item begins.
pub fn parse_item(ts: &TokenStream, i: usize) -> (r: Result<Option<(Item, usize)>, ParseError>)
    requires
        i <= ts.len(),
    ensures
        match r {
            Ok(Some((it, j))) => {
                &&& p_item(ts@, i as int) == Ok::<Option<(ItemM, int)>, ParseError>(
                    Some((item_model(it), j as int)),
                )
                &&& i < j <= ts.len()
            },
            Ok(None) => p_item(ts@, i as int) == Ok::<Option<(ItemM, int)>, ParseError>(None),
            Err(e) => p_item(ts@, i as int) == Err::<Option<(ItemM, int)>, ParseError>(e),
        },
    decreases ts.len() - i, 0int,
{
    let c = match ts.look(i) {
        Err(e) => {
            return Err(e);
        },
        Ok(None) => {
            return Ok(None);
        },
        Ok(Some(c)) => c,
    };
    proof {
        ts.lemma_len();
    }
    if c == TokenClass::Ident {
        Ok(Some((Item::NonTerminal(ts.text_at(i)), i + 1)))
    } else if c == TokenClass::Term {
        Ok(Some((Item::Terminal(ts.text_at(i)), i + 1)))
    } else if c == TokenClass::LParen || c == TokenClass::LBracket || c == TokenClass::LBrace {
        let (e, j) = match parse_expr(ts, i + 1) {
            Err(e) => {
                return Err(e);
            },
            Ok(p) => p,
        };
        match ts.expect(j, Expected::ItemOr(closer_of(c))) {
            Err(x) => {
                return Err(x);
            },
            Ok(_) => {},
        }
        let item = if c == TokenClass::LParen {
            Item::Group(e)
        } else if c == TokenClass::LBracket {
            Item::Optional(e)
        } else {
            Item::Repetition(e)
        };
        Ok(Some((item, j + 1)))
    } else {
        Ok(None)
    }
}

/// Parses a `seq` at index `i`: items for as long as one begins.
pub fn parse_seq(ts: &TokenStream, i: usize) -> (r: Result<(Sequence, usize), ParseError>)
    requires
        i <= ts.len(),
    ensures
        match r {
            Ok((s, j)) => {
                &&& p_seq(ts@, i as int) == Ok::<(Seq<ItemM>, int), ParseError>(
                    (items_model(s.items@), j as int),
                )
                &&& i <= j <= ts.len()
            },
            Err(e) => p_seq(ts@, i as int) == Err::<(Seq<ItemM>, int), ParseError>(e),
        },
    decreases ts.len() - i, 1int,
{
    let mut items: Vec<Item> = Vec::new();
    let mut k = i;
    proof {
        ts.lemma_len();
        assert(p_seq(ts@, i as int) == prepend(items_model(items@), p_seq(ts@, k as int))) by {
            match p_seq(ts@, i as int) {
                Ok((s, j)) => assert(Seq::<ItemM>::empty() + s =~= s),
                Err(_) => {},
            }
        }
    }
    loop
        invariant
            i <= k <= ts.len(),
            ts@.toks.len() == ts.len(),
            p_seq(ts@, i as int) == prepend(items_model(items@), p_seq(ts@, k as int)),
        decreases ts.len() - k,
    {
        match parse_item(ts, k) {
            Err(e) => {
                return Err(e);
            },
            Ok(None) => {
                assert(items_model(items@) + Seq::<ItemM>::empty() =~= items_model(items@));
                return Ok((Sequence { items }, k));
            },
            Ok(Some((it, j))) => {
                let ghost pre = items_model(items@);
                let ghost m = item_model(it);
                let ghost before = items@;
                items.push(it);
                proof {
                    assert(items@.drop_last() =~= before);
                    assert(items_model(items@) == pre.push(m));
                    match p_seq(ts@, j as int) {
                        Ok((rest, q)) => {
                            assert(pre + (seq![m] + rest) =~= pre.push(m) + rest);
                        },
                        Err(_) => {},
                    }
                }
                k = j;
            },
        }
    }
}

/// Parses an `expr` at index `i`: one `seq`, then one more after each `|`.
pub fn parse_expr(ts: &TokenStream, i: usize) -> (r: Result<(Expression, usize), ParseError>)
    requires
        i <= ts.len(),
    ensures
        match r {
            Ok((e, j)) => {
                &&& p_expr(ts@, i as int) == Ok::<(Seq<Seq<ItemM>>, int), ParseError>(
                    (expr_model(e), j as int),
                )
                &&& i <= j <= ts.len()
                &&& e.alternatives@.len() >= 1
            },
            Err(e) => p_expr(ts@, i as int) == Err::<(Seq<Seq<ItemM>>, int), ParseError>(e),
        },
    decreases ts.len() - i, 3int,
{
    proof {
        ts.lemma_len();
    }
    let (first, j) = match parse_seq(ts, i) {
        Err(e) => {
            return Err(e);
        },
        Ok(p) => p,
    };
    let ghost s0 = items_model(first.items@);
    let mut alts: Vec<Sequence> = Vec::new();
    alts.push(first);
    let mut k = j;
    proof {
        assert(alts@.drop_last() =~= Seq::<Sequence>::empty());
        assert(alts_model(Seq::<Sequence>::empty()) =~= Seq::<Seq<ItemM>>::empty());
        assert(alts_model(alts@) =~= seq![s0]);
        match p_alts(ts@, j as int) {
            Ok((rest, z)) => assert(seq![s0] + rest =~= seq![s0] + rest),
            Err(_) => {},
        }
    }
    loop
        invariant
            i <= k <= ts.len(),
            ts@.toks.len() == ts.len(),
            alts@.len() >= 1,
            p_expr(ts@, i as int) == prepend(alts_model(alts@), p_alts(ts@, k as int)),
        decreases ts.len() - k,
    {
        match ts.look(k) {
            Err(e) => {
                return Err(e);
            },
            Ok(Some(TokenClass::Pipe)) => {},
            Ok(_) => {
                assert(alts_model(alts@) + Seq::<Seq<ItemM>>::empty() =~= alts_model(alts@));
                return Ok((Expression { alternatives: alts }, k));
            },
        }
        let (next, q) = match parse_seq(ts, k + 1) {
            Err(e) => {
                return Err(e);
            },
            Ok(p) => p,
        };
        let ghost pre = alts_model(alts@);
        let ghost m = items_model(next.items@);
        let ghost before = alts@;
        alts.push(next);
        proof {
            assert(alts@.drop_last() =~= before);
            assert(alts_model(alts@) == pre.push(m));
            match p_alts(ts@, q as int) {
                Ok((rest, z)) => {
                    assert(pre + (seq![m] + rest) =~= pre.push(m) + rest);
                },
                Err(_) => {},
            }
        }
        k = q;
    }
}

/// Parses a `rule` at index `i`.
pub fn parse_rule(ts: &TokenStream, i: usize) -> (r: Result<(Rule, usize), ParseError>)
    requires
        i <= ts.len(),
    ensures
        match r {
            Ok((rule, j)) => {
                &&& p_rule(ts@, i as int) == Ok::<(RuleM, int), ParseError>(
                    ((rule.name@, expr_model(rule.body)), j as int),
                )
                &&& i < j <= ts.len()
            },
            Err(e) => p_rule(ts@, i as int) == Err::<(RuleM, int), ParseError>(e),
        },
{
    proof {
        ts.lemma_len();
    }
    match ts.expect(i, Expected::Token(TokenClass::Ident)) {
        Err(e) => {
            return Err(e);
        },
        Ok(_) => {},
    }
    let name = ts.text_at(i);
    match ts.expect(i + 1, Expected::Token(TokenClass::Colon)) {
        Err(e) => {
            return Err(e);
        },
        Ok(_) => {},
    }
    let (body, j) = match parse_expr(ts, i + 2) {
        Err(e) => {
            return Err(e);
        },
        Ok(p) => p,
    };
    match ts.expect(j, Expected::ItemOr(TokenClass::SemiColon)) {
        Err(e) => {
            return Err(e);
        },
        Ok(_) => {},
    }
    Ok((Rule { name, body }, j + 1))
}

/// Parses the rules from index 0 up to the end of input.
pub fn parse_rules(ts: &TokenStream) -> (r: Result<Grammar, ParseError>)
    ensures
        match r {
            Ok(g) => p_rules(ts@, 0) == Ok::<Seq<RuleM>, ParseError>(rules_model(g.rules@)),
            Err(e) => p_rules(ts@, 0) == Err::<Seq<RuleM>, ParseError>(e),
        },
{
    proof {
        ts.lemma_len();
    }
    let mut rules: Vec<Rule> = Vec::new();
    let mut k: usize = 0;
    proof {
        match p_rules(ts@, 0) {
            Ok(s) => assert(Seq::<RuleM>::empty() + s =~= s),
            Err(_) => {},
        }
    }
    loop
        invariant
            k <= ts.len(),
            ts@.toks.len() == ts.len(),
            p_rules(ts@, 0) == prepend_rules(rules_model(rules@), p_rules(ts@, k as int)),
        decreases ts.len() - k,
    {
        match ts.look(k) {
            Err(e) => {
                return Err(e);
            },
            Ok(None) => {
                assert(rules_model(rules@) + Seq::<RuleM>::empty() =~= rules_model(rules@));
                return Ok(Grammar { rules });
            },
            Ok(Some(_)) => {},
        }
        let (rule, j) = match parse_rule(ts, k) {
            Err(e) => {
                return Err(e);
            },
            Ok(p) => p,
        };
        let ghost pre = rules_model(rules@);
        let ghost m = (rule.name@, expr_model(rule.body));
        let ghost before = rules@;
        rules.push(rule);
        proof {
            assert(rules@.drop_last() =~= before);
            assert(rules_model(rules@) == pre.push(m));
            match p_rules(ts@, j as int) {
                Ok(rest) => {
                    assert(pre + (seq![m] + rest) =~= pre.push(m) + rest);
                },
                Err(_) => {},
            }
        }
        k = j;
    }
}

/// Parses a grammar file. Scanning stops at the first error, and that error is
/// reported only where the parser reaches it.
pub fn parse(text: &str) -> (r: Result<Grammar, ParseError>)
    requires
        byte_offset(text@, text@.len() as int) < usize::MAX,
    ensures
        parse_outcome(r) == parse_spec(text@),
{
    let ts = TokenStream::new(text);
    parse_rules(&ts)
}

} // verus!
