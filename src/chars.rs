//! Character classes and UTF-8 offsets shared by the scanners.
use vstd::prelude::*;
use vstd::std_specs::iter::IteratorSpec;
use vstd::utf8::*;

verus! {

/// Whether a character has the Unicode `White_Space` property: tab, line feed,
/// vertical tab, form feed, carriage return, space, U+0085, U+00A0, U+1680,
/// U+2000 to U+200A, U+2028, U+2029, U+202F, U+205F and U+3000.
pub open spec fn whitespace(c: char) -> bool {
    let u = c as u32;
    ||| 0x9 <= u <= 0xd
    ||| u == 0x20
    ||| u == 0x85
    ||| u == 0xa0
    ||| u == 0x1680
    ||| 0x2000 <= u <= 0x200a
    ||| u == 0x2028
    ||| u == 0x2029
    ||| u == 0x202f
    ||| u == 0x205f
    ||| u == 0x3000
}

/// An ASCII letter or digit.
pub open spec fn ascii_alphanumeric(c: char) -> bool {
    ('a' <= c && c <= 'z') || ('A' <= c && c <= 'Z') || ('0' <= c && c <= '9')
}

/// Whether a character is alphabetic or numeric in the Unicode sense.
pub uninterp spec fn alphanumeric(c: char) -> bool;

/// A character that may appear in an identifier.
pub open spec fn ident_char(c: char) -> bool {
    alphanumeric(c) || c == '_'
}

pub fn is_whitespace(c: char) -> (r: bool)
    ensures
        r == whitespace(c),
{
    let u = c as u32;
    (0x9 <= u && u <= 0xd) || u == 0x20 || u == 0x85 || u == 0xa0 || u == 0x1680 || (0x2000 <= u
        && u <= 0x200a) || u == 0x2028 || u == 0x2029 || u == 0x202f || u == 0x205f || u == 0x3000
}

/// Relies on `char::is_alphanumeric`: a fixed property of the character, which on
/// ASCII holds of the letters and digits alone.
#[verifier::external_body]
pub(crate) fn is_alphanumeric(c: char) -> (r: bool)
    ensures
        r == alphanumeric(c),
        (c as u32) < 0x80 ==> (r <==> ascii_alphanumeric(c)),
{
    c.is_alphanumeric()
}

pub fn is_ident_char(c: char) -> (r: bool)
    ensures
        r == ident_char(c),
{
    c == '_' || is_alphanumeric(c)
}

/// Relies on `String::push`: appends one character.
#[verifier::external_body]
pub(crate) fn push_char(s: &mut String, c: char)
    ensures
        final(s)@ == old(s)@.push(c),
{
    s.push(c)
}

/// The end of the run of characters from index `i` on that satisfy `p`.
pub open spec fn span_while(s: Seq<char>, i: int, p: spec_fn(char) -> bool) -> int
    decreases s.len() - i,
{
    if 0 <= i < s.len() && p(s[i]) {
        span_while(s, i + 1, p)
    } else {
        i
    }
}

pub proof fn lemma_span_while(s: Seq<char>, i: int, p: spec_fn(char) -> bool)
    requires
        0 <= i <= s.len(),
    ensures
        i <= span_while(s, i, p) <= s.len(),
        span_while(s, i, p) < s.len() ==> !p(s[span_while(s, i, p)]),
        forall|j: int| i <= j < span_while(s, i, p) ==> p(#[trigger] s[j]),
    decreases s.len() - i,
{
    if i < s.len() && p(s[i]) {
        lemma_span_while(s, i + 1, p);
    }
}

/// The first index from `i` on that holds neither whitespace nor a comment.
/// A comment runs from `#` up to the next newline, or to the end.
pub open spec fn skip_trivia(s: Seq<char>, i: int) -> int
    decreases s.len() - i, 0int,
{
    if 0 <= i < s.len() && whitespace(s[i]) {
        skip_trivia(s, i + 1)
    } else if 0 <= i < s.len() && s[i] == '#' {
        skip_comment(s, i + 1)
    } else {
        i
    }
}

/// Where trivia ends when index `i` lies inside a comment.
pub open spec fn skip_comment(s: Seq<char>, i: int) -> int
    decreases s.len() - i, 1int,
{
    if 0 <= i < s.len() && s[i] != '\n' {
        skip_comment(s, i + 1)
    } else {
        skip_trivia(s, i)
    }
}

pub proof fn lemma_skip_trivia(s: Seq<char>, i: int)
    requires
        0 <= i <= s.len(),
    ensures
        i <= skip_trivia(s, i) <= s.len(),
        skip_trivia(s, i) < s.len() ==> !whitespace(s[skip_trivia(s, i)]) && s[skip_trivia(
            s,
            i,
        )] != '#',
    decreases s.len() - i, 0int,
{
    if i < s.len() && whitespace(s[i]) {
        lemma_skip_trivia(s, i + 1);
    } else if i < s.len() && s[i] == '#' {
        lemma_skip_comment(s, i + 1);
    }
}

pub proof fn lemma_skip_comment(s: Seq<char>, i: int)
    requires
        0 <= i <= s.len(),
    ensures
        i <= skip_comment(s, i) <= s.len(),
        skip_comment(s, i) < s.len() ==> !whitespace(s[skip_comment(s, i)]) && s[skip_comment(
            s,
            i,
        )] != '#',
    decreases s.len() - i, 1int,
{
    if i < s.len() && s[i] != '\n' {
        lemma_skip_comment(s, i + 1);
    } else {
        lemma_skip_trivia(s, i);
    }
}

/// Index `j` lies inside a comment that starts at index `lo` or later: a `#` stands
/// at some index from `lo` up to `j`, with no newline after it up to `j`.
pub open spec fn in_comment(s: Seq<char>, lo: int, j: int) -> bool {
    exists|c: int|
        lo <= c <= j && s[c] == '#' && forall|m: int| c < m <= j ==> #[trigger] s[m] != '\n'
}

/// What `skip_trivia` passes over from `i` on is whitespace or comment text.
pub proof fn lemma_trivia_chars(s: Seq<char>, lo: int, i: int)
    requires
        0 <= lo <= i <= s.len(),
    ensures
        forall|j: int|
            i <= j < skip_trivia(s, i) ==> whitespace(#[trigger] s[j]) || in_comment(s, lo, j),
    decreases s.len() - i, 0int,
{
    if i < s.len() && whitespace(s[i]) {
        lemma_trivia_chars(s, lo, i + 1);
    } else if i < s.len() && s[i] == '#' {
        lemma_comment_chars(s, lo, i, i + 1);
        assert(in_comment(s, lo, i));
    }
}

proof fn lemma_comment_chars(s: Seq<char>, lo: int, c: int, i: int)
    requires
        0 <= lo <= c < i <= s.len(),
        s[c] == '#',
        forall|m: int| c < m < i ==> #[trigger] s[m] != '\n',
    ensures
        forall|j: int|
            i <= j < skip_comment(s, i) ==> whitespace(#[trigger] s[j]) || in_comment(s, lo, j),
    decreases s.len() - i, 1int,
{
    if i < s.len() && s[i] != '\n' {
        lemma_comment_chars(s, lo, c, i + 1);
        assert(in_comment(s, lo, i));
    } else {
        lemma_trivia_chars(s, lo, i);
    }
}

/// The line (from 1) of the character at index `k`: one more than the newlines before it.
pub open spec fn line_of(s: Seq<char>, k: int) -> int
    decreases k,
{
    if k <= 0 {
        1
    } else if s[k - 1] == '\n' {
        line_of(s, k - 1) + 1
    } else {
        line_of(s, k - 1)
    }
}

/// The column (from 1, in characters) of the character at index `k`.
pub open spec fn column_of(s: Seq<char>, k: int) -> int
    decreases k,
{
    if k <= 0 {
        1
    } else if s[k - 1] == '\n' {
        1
    } else {
        column_of(s, k - 1) + 1
    }
}

pub proof fn lemma_line_column_bound(s: Seq<char>, k: int)
    requires
        0 <= k,
    ensures
        1 <= line_of(s, k) <= k + 1,
        1 <= column_of(s, k) <= k + 1,
    decreases k,
{
    if k > 0 {
        lemma_line_column_bound(s, k - 1);
    }
}

/// Relies on `String::push_str`: appends `t`.
#[verifier::external_body]
pub(crate) fn push_str(s: &mut String, t: &str)
    ensures
        final(s)@ == old(s)@ + t@,
{
    s.push_str(t)
}

/// The decimal digit for `d`, which is below ten.
pub open spec fn digit(d: nat) -> char {
    if d == 0 {
        '0'
    } else if d == 1 {
        '1'
    } else if d == 2 {
        '2'
    } else if d == 3 {
        '3'
    } else if d == 4 {
        '4'
    } else if d == 5 {
        '5'
    } else if d == 6 {
        '6'
    } else if d == 7 {
        '7'
    } else if d == 8 {
        '8'
    } else {
        '9'
    }
}

/// `n` written in decimal, without leading zeros.
pub open spec fn decimal(n: nat) -> Seq<char>
    decreases n,
{
    if n < 10 {
        seq![digit(n)]
    } else {
        decimal(n / 10).push(digit(n % 10))
    }
}

/// Appends `n` in decimal.
pub fn push_decimal(s: &mut String, n: usize)
    ensures
        final(s)@ == old(s)@ + decimal(n as nat),
    decreases n,
{
    if n >= 10 {
        push_decimal(s, n / 10);
    }
    let d = n % 10;
    let c = if d == 0 {
        '0'
    } else if d == 1 {
        '1'
    } else if d == 2 {
        '2'
    } else if d == 3 {
        '3'
    } else if d == 4 {
        '4'
    } else if d == 5 {
        '5'
    } else if d == 6 {
        '6'
    } else if d == 7 {
        '7'
    } else if d == 8 {
        '8'
    } else {
        '9'
    };
    push_char(s, c);
    proof {
        if n >= 10 {
            assert(old(s)@ + decimal((n / 10) as nat) + seq![c] =~= old(s)@ + decimal(n as nat));
        } else {
            assert(old(s)@ + seq![c] =~= old(s)@ + decimal(n as nat));
        }
    }
}

/// The byte offset in UTF-8 of the character at index `i` of `s`.
pub open spec fn byte_offset(s: Seq<char>, i: int) -> nat {
    encode_utf8(s.take(i)).len()
}

/// The number of bytes that UTF-8 takes for `c`.
pub open spec fn width(c: char) -> nat {
    encode_scalar(c as u32).len()
}

pub fn utf8_width(c: char) -> (r: usize)
    ensures
        r == width(c),
        1 <= r <= 4,
{
    let u = c as u32;
    if u <= 0x7f {
        1
    } else if u <= 0x7ff {
        2
    } else if u <= 0xffff {
        proof {
            char_is_scalar(c);
        }
        3
    } else {
        4
    }
}

pub proof fn lemma_encode_concat(a: Seq<char>, b: Seq<char>)
    ensures
        encode_utf8(a + b) == encode_utf8(a) + encode_utf8(b),
    decreases a.len(),
{
    if a.len() == 0 {
        assert(a + b =~= b);
        assert(encode_utf8(a) =~= Seq::<u8>::empty());
        assert(encode_utf8(a) + encode_utf8(b) =~= encode_utf8(b));
    } else {
        lemma_encode_concat(a.drop_first(), b);
        assert((a + b).drop_first() =~= a.drop_first() + b);
        assert(encode_utf8(a + b) =~= encode_utf8(a) + encode_utf8(b));
    }
}

pub proof fn lemma_byte_offset_step(s: Seq<char>, i: int)
    requires
        0 <= i < s.len(),
    ensures
        byte_offset(s, i + 1) == byte_offset(s, i) + width(s[i]),
{
    assert(s.take(i + 1) =~= s.take(i) + seq![s[i]]);
    lemma_encode_concat(s.take(i), seq![s[i]]);
    assert(seq![s[i]].drop_first() =~= Seq::<char>::empty());
    assert(encode_utf8(Seq::<char>::empty()) =~= Seq::<u8>::empty());
    assert(encode_utf8(seq![s[i]]) =~= encode_scalar(s[i] as u32));
}

pub proof fn lemma_byte_offset_increases(s: Seq<char>, i: int, j: int)
    requires
        0 <= i < j <= s.len(),
    ensures
        byte_offset(s, i) < byte_offset(s, j),
    decreases j - i,
{
    lemma_byte_offset_step(s, j - 1);
    if i < j - 1 {
        lemma_byte_offset_increases(s, i, j - 1);
    }
}

pub proof fn lemma_byte_offset_at_least(s: Seq<char>, i: int)
    requires
        0 <= i <= s.len(),
    ensures
        i <= byte_offset(s, i),
    decreases i,
{
    if i > 0 {
        lemma_byte_offset_at_least(s, i - 1);
        lemma_byte_offset_step(s, i - 1);
    } else {
        assert(s.take(0) =~= Seq::<char>::empty());
        assert(encode_utf8(Seq::<char>::empty()) =~= Seq::<u8>::empty());
    }
}

pub proof fn lemma_byte_offset_bound(s: Seq<char>, i: int)
    requires
        0 <= i <= s.len(),
    ensures
        byte_offset(s, i) <= encode_utf8(s).len(),
{
    assert(s =~= s.take(i) + s.skip(i));
    lemma_encode_concat(s.take(i), s.skip(i));
}

/// The characters of `s`, in order.
pub fn to_chars(s: &str) -> (r: Vec<char>)
    ensures
        r@ == s@,
{
    broadcast use vstd::string::group_string_axioms;
    let mut it = s.chars();
    let mut v: Vec<char> = Vec::new();
    loop
        invariant
            v@ + it.remaining() == s@,
            it.obeys_prophetic_iter_laws(),
            it.decrease() is Some,
        ensures
            v@ == s@,
        decreases it.decrease()->0,
    {
        match it.next() {
            Some(c) => {
                v.push(c);
            },
            None => {
                assert(v@ + it.remaining() =~= v@);
                break;
            },
        }
    }
    v
}

/// Index of the first character from `i` on that is neither whitespace nor in a comment.
pub fn skip_trivia_exec(v: &Vec<char>, i: usize) -> (r: usize)
    requires
        i <= v@.len(),
    ensures
        r == skip_trivia(v@, i as int),
{
    let mut k = i;
    while k < v.len()
        invariant
            i <= k <= v@.len(),
            skip_trivia(v@, k as int) == skip_trivia(v@, i as int),
        ensures
            k == skip_trivia(v@, i as int),
        decreases v@.len() - k,
    {
        if is_whitespace(v[k]) {
            k = k + 1;
        } else if v[k] == '#' {
            let ghost k0 = k;
            k = k + 1;
            while k < v.len() && v[k] != '\n'
                invariant
                    i <= k0 < k <= v@.len(),
                    skip_comment(v@, k as int) == skip_trivia(v@, i as int),
                decreases v@.len() - k,
            {
                k = k + 1;
            }
        } else {
            break;
        }
    }
    k
}

/// End of the run of identifier characters that starts at `i`.
pub fn ident_end(v: &Vec<char>, i: usize) -> (r: usize)
    requires
        i <= v@.len(),
    ensures
        r == span_while(v@, i as int, |c: char| ident_char(c)),
{
    let mut k = i;
    while k < v.len() && is_ident_char(v[k])
        invariant
            i <= k <= v@.len(),
            span_while(v@, k as int, |c: char| ident_char(c)) == span_while(
                v@,
                i as int,
                |c: char| ident_char(c),
            ),
        decreases v@.len() - k,
    {
        k = k + 1;
    }
    k
}

/// The characters of `v` from index `from` up to `to`, as a string.
pub fn string_of(v: &Vec<char>, from: usize, to: usize) -> (r: String)
    requires
        from <= to <= v@.len(),
    ensures
        r@ == v@.subrange(from as int, to as int),
{
    let mut r = String::new();
    let mut i = from;
    while i < to
        invariant
            from <= i <= to <= v@.len(),
            r@ == v@.subrange(from as int, i as int),
        decreases to - i,
    {
        push_char(&mut r, v[i]);
        i = i + 1;
        assert(r@ =~= v@.subrange(from as int, i as int));
    }
    r
}

} // verus!
