//! Tokenizer: classifies runs of source characters into tokens.
//!
//! Classification is purely lexical. Keywords are told apart from identifiers
//! by their text alone; whether a keyword stands in a name position is the
//! parser's business.
use vstd::prelude::*;

verus! {

/// The reserved words of the schema language.
#[derive(Clone, Copy, Debug, PartialEq, Eq, Structural)]
pub enum Keyword {
    Syntax,
    Package,
    Import,
    Option,
    Message,
    Oneof,
    Extend,
    Enum,
    Reserved,
    Extensions,
    Optional,
    Required,
    Repeated,
    MapType,
    Service,
    Rpc,
    Returns,
    Stream,
    To,
    Max,
    True,
    False,
}

/// The spelling of each keyword.
pub open spec fn keyword_text(k: Keyword) -> Seq<char> {
    match k {
        Keyword::Syntax => seq!['s', 'y', 'n', 't', 'a', 'x'],
        Keyword::Package => seq!['p', 'a', 'c', 'k', 'a', 'g', 'e'],
        Keyword::Import => seq!['i', 'm', 'p', 'o', 'r', 't'],
        Keyword::Option => seq!['o', 'p', 't', 'i', 'o', 'n'],
        Keyword::Message => seq!['m', 'e', 's', 's', 'a', 'g', 'e'],
        Keyword::Oneof => seq!['o', 'n', 'e', 'o', 'f'],
        Keyword::Extend => seq!['e', 'x', 't', 'e', 'n', 'd'],
        Keyword::Enum => seq!['e', 'n', 'u', 'm'],
        Keyword::Reserved => seq!['r', 'e', 's', 'e', 'r', 'v', 'e', 'd'],
        Keyword::Extensions => seq!['e', 'x', 't', 'e', 'n', 's', 'i', 'o', 'n', 's'],
        Keyword::Optional => seq!['o', 'p', 't', 'i', 'o', 'n', 'a', 'l'],
        Keyword::Required => seq!['r', 'e', 'q', 'u', 'i', 'r', 'e', 'd'],
        Keyword::Repeated => seq!['r', 'e', 'p', 'e', 'a', 't', 'e', 'd'],
        Keyword::MapType => seq!['m', 'a', 'p'],
        Keyword::Service => seq!['s', 'e', 'r', 'v', 'i', 'c', 'e'],
        Keyword::Rpc => seq!['r', 'p', 'c'],
        Keyword::Returns => seq!['r', 'e', 't', 'u', 'r', 'n', 's'],
        Keyword::Stream => seq!['s', 't', 'r', 'e', 'a', 'm'],
        Keyword::To => seq!['t', 'o'],
        Keyword::Max => seq!['m', 'a', 'x'],
        Keyword::True => seq!['t', 'r', 'u', 'e'],
        Keyword::False => seq!['f', 'a', 'l', 's', 'e'],
    }
}

/// Whether `w` is the spelling of some keyword.
pub open spec fn is_keyword(w: Seq<char>) -> bool {
    exists|k: Keyword| keyword_text(k) == w
}

/// Punctuation that forms a token of its own.
#[derive(Clone, Copy, Debug, PartialEq, Eq, Structural)]
pub enum Punct {
    LBrace,
    RBrace,
    LBracket,
    RBracket,
    LAngle,
    RAngle,
    LParen,
    RParen,
    Semicolon,
    Comma,
    Colon,
    Equals,
}

pub open spec fn punct_of(c: char) -> std::option::Option<Punct> {
    if c == '{' {
        Some(Punct::LBrace)
    } else if c == '}' {
        Some(Punct::RBrace)
    } else if c == '[' {
        Some(Punct::LBracket)
    } else if c == ']' {
        Some(Punct::RBracket)
    } else if c == '<' {
        Some(Punct::LAngle)
    } else if c == '>' {
        Some(Punct::RAngle)
    } else if c == '(' {
        Some(Punct::LParen)
    } else if c == ')' {
        Some(Punct::RParen)
    } else if c == ';' {
        Some(Punct::Semicolon)
    } else if c == ',' {
        Some(Punct::Comma)
    } else if c == ':' {
        Some(Punct::Colon)
    } else if c == '=' {
        Some(Punct::Equals)
    } else {
        None
    }
}

#[derive(Clone, Copy, Debug, PartialEq, Eq, Structural)]
pub enum TokenKind {
    Punct(Punct),
    Keyword(Keyword),
    Ident,
    Integer,
    Str,
    LineComment,
    BlockComment,
}

/// A token: its kind and the character range `[start, end)` it covers.
/// `value` is the number an `Integer` token denotes, and 0 otherwise.
#[derive(Clone, Copy, Debug, PartialEq, Eq, Structural)]
pub struct Token {
    pub kind: TokenKind,
    pub start: usize,
    pub end: usize,
    pub value: i64,
}

#[derive(Clone, Copy, Debug, PartialEq, Eq, Structural)]
pub enum LexicalErrorKind {
    UnrecognizedCharacter,
    UnterminatedString,
    UnterminatedComment,
    IntegerOutOfRange,
}

/// A lexical error, with the character offset at which the offending token starts.
#[derive(Clone, Copy, Debug, PartialEq, Eq, Structural)]
pub struct LexicalError {
    pub kind: LexicalErrorKind,
    pub position: usize,
}

pub open spec fn is_space(c: char) -> bool {
    c == ' ' || c == '\t' || c == '\n' || c == '\r' || c == '\x0B' || c == '\x0C'
}

pub open spec fn is_digit(c: char) -> bool {
    '0' <= c <= '9'
}

pub open spec fn is_word_start(c: char) -> bool {
    ('a' <= c <= 'z') || ('A' <= c <= 'Z') || c == '_' || c == '.'
}

pub open spec fn is_word_char(c: char) -> bool {
    is_word_start(c) || is_digit(c)
}

/// The first index at or after `i` that does not hold whitespace.
pub open spec fn skip_space(s: Seq<char>, i: int) -> int
    decreases s.len() - i,
{
    if 0 <= i < s.len() && is_space(s[i]) {
        skip_space(s, i + 1)
    } else {
        i
    }
}

/// The end of the run of word characters that starts at `i`.
pub open spec fn word_run(s: Seq<char>, i: int) -> int
    decreases s.len() - i,
{
    if 0 <= i < s.len() && is_word_char(s[i]) {
        word_run(s, i + 1)
    } else {
        i
    }
}

/// The end of the run of decimal digits that starts at `i`.
pub open spec fn digit_run(s: Seq<char>, i: int) -> int
    decreases s.len() - i,
{
    if 0 <= i < s.len() && is_digit(s[i]) {
        digit_run(s, i + 1)
    } else {
        i
    }
}

/// The end of the line that holds `i`: the index of the next newline, or the
/// end of input.
pub open spec fn line_run(s: Seq<char>, i: int) -> int
    decreases s.len() - i,
{
    if 0 <= i < s.len() && s[i] != '\n' {
        line_run(s, i + 1)
    } else {
        i
    }
}

/// Scans a quoted string body from `i`: the index of the closing `q`, or -1
/// when the string is not closed before a newline or the end of input.
/// A backslash escapes the character after it.
pub open spec fn string_close(s: Seq<char>, i: int, q: char) -> int
    decreases s.len() + 1 - i,
{
    if i < 0 || i >= s.len() || s[i] == '\n' {
        -1
    } else if s[i] == q {
        i
    } else if s[i] == '\\' {
        string_close(s, i + 2, q)
    } else {
        string_close(s, i + 1, q)
    }
}

/// The index just past the first `*/` at or after `i`, or -1 if there is none.
pub open spec fn block_close(s: Seq<char>, i: int) -> int
    decreases s.len() - i,
{
    if i < 0 || i + 1 >= s.len() {
        -1
    } else if s[i] == '*' && s[i + 1] == '/' {
        i + 2
    } else {
        block_close(s, i + 1)
    }
}

/// The number a run of decimal digits denotes.
pub open spec fn digits_value(d: Seq<char>) -> int
    decreases d.len(),
{
    if d.len() == 0 {
        0
    } else {
        10 * digits_value(d.drop_last()) + (d.last() as int - '0' as int)
    }
}

/// The number an integer literal's text denotes, with an optional leading minus.
pub open spec fn integer_value(t: Seq<char>) -> int {
    if t.len() > 0 && t[0] == '-' {
        -digits_value(t.drop_first())
    } else {
        digits_value(t)
    }
}

pub open spec fn token_text(s: Seq<char>, t: Token) -> Seq<char> {
    s.subrange(t.start as int, t.end as int)
}

/// What the token starting at `p` (a non-space position) is, when `s` holds a
/// well-formed one there.
pub open spec fn token_at(s: Seq<char>, p: int, t: Token) -> bool {
    let c = s[p];
    &&& t.start == p
    &&& p < t.end <= s.len()
    &&& if c == '/' && p + 1 < s.len() && s[p + 1] == '/' {
        t.kind == TokenKind::LineComment && t.end == line_run(s, p)
            && t.value == 0
    } else if c == '/' && p + 1 < s.len() && s[p + 1] == '*' {
        t.kind == TokenKind::BlockComment && t.end == block_close(s, p + 2) && t.value == 0
    } else if c == '"' || c == '\'' {
        t.kind == TokenKind::Str && t.end == string_close(s, p + 1, c) + 1 && t.value == 0
    } else if is_digit(c) || (c == '-' && p + 1 < s.len() && is_digit(s[p + 1])) {
        t.kind == TokenKind::Integer && t.end == digit_run(s, p + 1)
            && t.value == integer_value(token_text(s, t))
    } else if is_word_start(c) {
        &&& t.end == word_run(s, p)
        &&& t.value == 0
        &&& match t.kind {
            TokenKind::Keyword(k) => keyword_text(k) == token_text(s, t),
            TokenKind::Ident => !is_keyword(token_text(s, t)),
            _ => false,
        }
    } else {
        punct_of(c) is Some && t.kind == TokenKind::Punct(punct_of(c)->0) && t.end == p + 1
            && t.value == 0
    }
}

/// Why no token can be read at the non-space position `p`.
pub open spec fn lex_error_at(s: Seq<char>, p: int, k: LexicalErrorKind) -> bool {
    let c = s[p];
    if c == '/' && p + 1 < s.len() && s[p + 1] == '/' {
        false
    } else if c == '/' && p + 1 < s.len() && s[p + 1] == '*' {
        k == LexicalErrorKind::UnterminatedComment && block_close(s, p + 2) == -1
    } else if c == '"' || c == '\'' {
        k == LexicalErrorKind::UnterminatedString && string_close(s, p + 1, c) == -1
    } else if is_digit(c) || (c == '-' && p + 1 < s.len() && is_digit(s[p + 1])) {
        let e = digit_run(s, p + 1);
        k == LexicalErrorKind::IntegerOutOfRange && !(i64::MIN <= integer_value(
            s.subrange(p, e),
        ) <= i64::MAX)
    } else if is_word_start(c) {
        false
    } else {
        k == LexicalErrorKind::UnrecognizedCharacter && punct_of(c) is None
    }
}


/// The spelling of a keyword, as characters.
fn keyword_chars(k: Keyword) -> (r: Vec<char>)
    ensures
        r@ == keyword_text(k),
{
    match k {
        Keyword::Syntax => vec!['s', 'y', 'n', 't', 'a', 'x'],
        Keyword::Package => vec!['p', 'a', 'c', 'k', 'a', 'g', 'e'],
        Keyword::Import => vec!['i', 'm', 'p', 'o', 'r', 't'],
        Keyword::Option => vec!['o', 'p', 't', 'i', 'o', 'n'],
        Keyword::Message => vec!['m', 'e', 's', 's', 'a', 'g', 'e'],
        Keyword::Oneof => vec!['o', 'n', 'e', 'o', 'f'],
        Keyword::Extend => vec!['e', 'x', 't', 'e', 'n', 'd'],
        Keyword::Enum => vec!['e', 'n', 'u', 'm'],
        Keyword::Reserved => vec!['r', 'e', 's', 'e', 'r', 'v', 'e', 'd'],
        Keyword::Extensions => vec!['e', 'x', 't', 'e', 'n', 's', 'i', 'o', 'n', 's'],
        Keyword::Optional => vec!['o', 'p', 't', 'i', 'o', 'n', 'a', 'l'],
        Keyword::Required => vec!['r', 'e', 'q', 'u', 'i', 'r', 'e', 'd'],
        Keyword::Repeated => vec!['r', 'e', 'p', 'e', 'a', 't', 'e', 'd'],
        Keyword::MapType => vec!['m', 'a', 'p'],
        Keyword::Service => vec!['s', 'e', 'r', 'v', 'i', 'c', 'e'],
        Keyword::Rpc => vec!['r', 'p', 'c'],
        Keyword::Returns => vec!['r', 'e', 't', 'u', 'r', 'n', 's'],
        Keyword::Stream => vec!['s', 't', 'r', 'e', 'a', 'm'],
        Keyword::To => vec!['t', 'o'],
        Keyword::Max => vec!['m', 'a', 'x'],
        Keyword::True => vec!['t', 'r', 'u', 'e'],
        Keyword::False => vec!['f', 'a', 'l', 's', 'e'],
    }
}

/// Whether the characters `s[a..b]` spell `w`.
fn spells(s: &Vec<char>, a: usize, b: usize, w: &Vec<char>) -> (r: bool)
    requires
        a <= b <= s.len(),
    ensures
        r == (s@.subrange(a as int, b as int) == w@),
{
    if b - a != w.len() {
        return false;
    }
    let mut i: usize = 0;
    while i < w.len()
        invariant
            a <= b <= s.len(),
            b - a == w.len(),
            i <= w.len(),
            forall|j: int| 0 <= j < i ==> s@[a + j] == w@[j],
        decreases w.len() - i,
    {
        if s[a + i] != w[i] {
            assert(s@.subrange(a as int, b as int)[i as int] != w@[i as int]);
            return false;
        }
        i = i + 1;
    }
    assert(s@.subrange(a as int, b as int) =~= w@);
    true
}

/// The keyword that `s[a..b]` spells, if any.
fn keyword_of(s: &Vec<char>, a: usize, b: usize) -> (r: std::option::Option<Keyword>)
    requires
        a <= b <= s.len(),
    ensures
        match r {
            Some(k) => keyword_text(k) == s@.subrange(a as int, b as int),
            None => !is_keyword(s@.subrange(a as int, b as int)),
        },
{
    let all = [
        Keyword::Syntax,
        Keyword::Package,
        Keyword::Import,
        Keyword::Option,
        Keyword::Message,
        Keyword::Oneof,
        Keyword::Extend,
        Keyword::Enum,
        Keyword::Reserved,
        Keyword::Extensions,
        Keyword::Optional,
        Keyword::Required,
        Keyword::Repeated,
        Keyword::MapType,
        Keyword::Service,
        Keyword::Rpc,
        Keyword::Returns,
        Keyword::Stream,
        Keyword::To,
        Keyword::Max,
        Keyword::True,
        Keyword::False,
    ];
    let mut i: usize = 0;
    while i < 22
        invariant
            a <= b <= s.len(),
            all@.len() == 22,
            i <= 22,
            forall|j: int| 0 <= j < i ==> keyword_text(#[trigger] all@[j]) != s@.subrange(
                a as int,
                b as int,
            ),
        decreases 22 - i,
    {
        let k = all[i];
        if spells(s, a, b, &keyword_chars(k)) {
            return Some(k);
        }
        i = i + 1;
    }
    assert forall|k: Keyword| keyword_text(k) != s@.subrange(a as int, b as int) by {
        assert(exists|j: int| 0 <= j < 22 && #[trigger] all@[j] == k);
    }
    None
}

fn is_space_char(c: char) -> (r: bool)
    ensures
        r == is_space(c),
{
    c == ' ' || c == '\t' || c == '\n' || c == '\r' || c == '\x0B' || c == '\x0C'
}

fn is_digit_char(c: char) -> (r: bool)
    ensures
        r == is_digit(c),
{
    '0' <= c && c <= '9'
}

fn is_word_start_char(c: char) -> (r: bool)
    ensures
        r == is_word_start(c),
{
    ('a' <= c && c <= 'z') || ('A' <= c && c <= 'Z') || c == '_' || c == '.'
}

fn is_word_char_char(c: char) -> (r: bool)
    ensures
        r == is_word_char(c),
{
    is_word_start_char(c) || is_digit_char(c)
}

fn punct_char(c: char) -> (r: std::option::Option<Punct>)
    ensures
        r == punct_of(c),
{
    if c == '{' {
        Some(Punct::LBrace)
    } else if c == '}' {
        Some(Punct::RBrace)
    } else if c == '[' {
        Some(Punct::LBracket)
    } else if c == ']' {
        Some(Punct::RBracket)
    } else if c == '<' {
        Some(Punct::LAngle)
    } else if c == '>' {
        Some(Punct::RAngle)
    } else if c == '(' {
        Some(Punct::LParen)
    } else if c == ')' {
        Some(Punct::RParen)
    } else if c == ';' {
        Some(Punct::Semicolon)
    } else if c == ',' {
        Some(Punct::Comma)
    } else if c == ':' {
        Some(Punct::Colon)
    } else if c == '=' {
        Some(Punct::Equals)
    } else {
        None
    }
}

/// Skips whitespace from `pos`.
pub fn skip_spaces(s: &Vec<char>, pos: usize) -> (r: usize)
    requires
        pos <= s.len(),
    ensures
        r == skip_space(s@, pos as int),
        pos <= r <= s.len(),
{
    let mut i = pos;
    while i < s.len() && is_space_char(s[i])
        invariant
            pos <= i <= s.len(),
            skip_space(s@, i as int) == skip_space(s@, pos as int),
        decreases s.len() - i,
    {
        i = i + 1;
    }
    i
}

fn word_end(s: &Vec<char>, pos: usize) -> (r: usize)
    requires
        pos <= s.len(),
    ensures
        r == word_run(s@, pos as int),
        pos <= r <= s.len(),
{
    let mut i = pos;
    while i < s.len() && is_word_char_char(s[i])
        invariant
            pos <= i <= s.len(),
            word_run(s@, i as int) == word_run(s@, pos as int),
        decreases s.len() - i,
    {
        i = i + 1;
    }
    i
}

fn line_end(s: &Vec<char>, pos: usize) -> (r: usize)
    requires
        pos <= s.len(),
    ensures
        r == line_run(s@, pos as int),
        pos <= r <= s.len(),
{
    let mut i = pos;
    while i < s.len() && s[i] != '\n'
        invariant
            pos <= i <= s.len(),
            line_run(s@, i as int) == line_run(s@, pos as int),
        decreases s.len() - i,
    {
        i = i + 1;
    }
    i
}

fn string_end(s: &Vec<char>, pos: usize, q: char) -> (r: std::option::Option<usize>)
    requires
        pos <= s.len(),
    ensures
        match r {
            Some(e) => e == string_close(s@, pos as int, q) && pos <= e < s.len(),
            None => string_close(s@, pos as int, q) == -1,
        },
{
    let mut i = pos;
    loop
        invariant
            pos <= i <= s.len(),
            string_close(s@, i as int, q) == string_close(s@, pos as int, q),
        decreases s.len() - i,
    {
        if i >= s.len() || s[i] == '\n' {
            return None;
        } else if s[i] == q {
            return Some(i);
        } else if s[i] == '\\' {
            if i + 1 >= s.len() {
                assert(string_close(s@, i + 2, q) == -1);
                return None;
            }
            i = i + 2;
        } else {
            i = i + 1;
        }
    }
}

fn block_end(s: &Vec<char>, pos: usize) -> (r: std::option::Option<usize>)
    requires
        pos <= s.len(),
    ensures
        match r {
            Some(e) => e == block_close(s@, pos as int) && pos + 2 <= e <= s.len(),
            None => block_close(s@, pos as int) == -1,
        },
{
    let mut i = pos;
    loop
        invariant
            pos <= i <= s.len(),
            block_close(s@, i as int) == block_close(s@, pos as int),
        decreases s.len() - i,
    {
        if s.len() - i < 2 {
            return None;
        } else if s[i] == '*' && s[i + 1] == '/' {
            return Some(i + 2);
        }
        i = i + 1;
    }
}

proof fn lemma_digits_prefix(d: Seq<char>, n: int)
    requires
        0 <= n <= d.len(),
        forall|j: int| 0 <= j < d.len() ==> is_digit(#[trigger] d[j]),
    ensures
        0 <= digits_value(d.subrange(0, n)) <= digits_value(d),
    decreases d.len(),
{
    if d.len() > 0 {
        if n == d.len() {
            assert(d.subrange(0, n) =~= d);
            lemma_digits_prefix(d.drop_last(), d.len() - 1);
            assert(d.drop_last().subrange(0, d.len() - 1) =~= d.drop_last());
        } else {
            lemma_digits_prefix(d.drop_last(), n);
            assert(d.drop_last().subrange(0, n) =~= d.subrange(0, n));
            lemma_digits_prefix(d.drop_last(), d.len() - 1);
            assert(d.drop_last().subrange(0, d.len() - 1) =~= d.drop_last());
        }
    } else {
        assert(d.subrange(0, n) =~= d);
    }
}

/// Reads the integer literal at `pos` (digits, after an optional minus).
fn integer_token(s: &Vec<char>, pos: usize, neg: bool) -> (r: Result<Token, LexicalError>)
    requires
        pos + 1 < s.len() || (!neg && pos < s.len()),
        neg ==> s@[pos as int] == '-' && is_digit(s@[pos + 1]),
        !neg ==> is_digit(s@[pos as int]),
    ensures
        ({
            let e = digit_run(s@, pos + 1);
            let v = integer_value(s@.subrange(pos as int, e));
            match r {
                Ok(t) => t.kind == TokenKind::Integer && t.start == pos && t.end == e
                    && pos < e <= s.len() && t.value == v,
                Err(err) => err.position == pos && err.kind == LexicalErrorKind::IntegerOutOfRange
                    && !(i64::MIN <= v <= i64::MAX),
            }
        }),
{
    let first: usize = if neg {
        pos + 1
    } else {
        pos
    };
    let mut i = first;
    let mut v: i128 = 0;
    let mut big = false;
    while i < s.len() && is_digit_char(s[i])
        invariant
            first <= i <= s.len(),
            neg ==> first == pos + 1,
            !neg ==> first == pos,
            neg ==> is_digit(s@[pos + 1]),
            !neg ==> is_digit(s@[pos as int]),
            i >= pos + 1 ==> digit_run(s@, i as int) == digit_run(s@, pos + 1),
            i < pos + 1 ==> i == pos && !neg,
            forall|j: int| first <= j < i ==> is_digit(#[trigger] s@[j]),
            !big ==> v == digits_value(s@.subrange(first as int, i as int)),
            !big ==> 0 <= v <= 9223372036854775808,
            big ==> digits_value(s@.subrange(first as int, i as int)) > 9223372036854775808,
        decreases s.len() - i,
    {
        let ghost d = s@.subrange(first as int, i as int + 1);
        assert(d.drop_last() =~= s@.subrange(first as int, i as int));
        if !big {
            v = v * 10 + (s[i] as u32 - '0' as u32) as i128;
            if v > 9223372036854775808 {
                big = true;
            }
        } else {
            proof {
                assert forall|j: int| 0 <= j < d.len() implies is_digit(#[trigger] d[j]) by {
                    assert(d[j] == s@[first + j]);
                }
                lemma_digits_prefix(d, d.len() - 1);
                assert(d.subrange(0, d.len() - 1) =~= s@.subrange(first as int, i as int));
            }
        }
        i = i + 1;
    }
    let ghost e = digit_run(s@, pos + 1);
    assert(i == e);
    let ghost txt = s@.subrange(pos as int, e);
    if neg {
        assert(txt.drop_first() =~= s@.subrange(first as int, e));
    } else {
        assert(txt =~= s@.subrange(first as int, e));
    }
    if big || (!neg && v > 9223372036854775807) {
        return Err(LexicalError { kind: LexicalErrorKind::IntegerOutOfRange, position: pos });
    }
    let value: i64 = if neg {
        (-v) as i64
    } else {
        v as i64
    };
    Ok(Token { kind: TokenKind::Integer, start: pos, end: i, value })
}

/// Reads the next token at or after `pos`, skipping whitespace first.
/// `Ok(None)` means only whitespace is left.
pub fn next_token(s: &Vec<char>, pos: usize) -> (r: Result<std::option::Option<Token>, LexicalError>)
    requires
        pos <= s.len(),
    ensures
        ({
            let p = skip_space(s@, pos as int);
            match r {
                Ok(None) => p == s.len(),
                Ok(Some(t)) => p < s.len() && token_at(s@, p, t),
                Err(e) => p < s.len() && e.position == p && lex_error_at(s@, p, e.kind),
            }
        }),
{
    let p = skip_spaces(s, pos);
    if p == s.len() {
        return Ok(None);
    }
    let c = s[p];
    if c == '/' && p + 1 < s.len() && s[p + 1] == '/' {
        let e = line_end(s, p + 1);
        Ok(Some(Token { kind: TokenKind::LineComment, start: p, end: e, value: 0 }))
    } else if c == '/' && p + 1 < s.len() && s[p + 1] == '*' {
        match block_end(s, p + 2) {
            Some(e) => Ok(Some(Token { kind: TokenKind::BlockComment, start: p, end: e, value: 0 })),
            None => Err(LexicalError { kind: LexicalErrorKind::UnterminatedComment, position: p }),
        }
    } else if c == '"' || c == '\'' {
        match string_end(s, p + 1, c) {
            Some(e) => Ok(Some(Token { kind: TokenKind::Str, start: p, end: e + 1, value: 0 })),
            None => Err(LexicalError { kind: LexicalErrorKind::UnterminatedString, position: p }),
        }
    } else if is_digit_char(c) {
        match integer_token(s, p, false) {
            Ok(t) => Ok(Some(t)),
            Err(e) => Err(e),
        }
    } else if c == '-' && p + 1 < s.len() && is_digit_char(s[p + 1]) {
        match integer_token(s, p, true) {
            Ok(t) => Ok(Some(t)),
            Err(e) => Err(e),
        }
    } else if is_word_start_char(c) {
        let e = word_end(s, p + 1);
        let kind = match keyword_of(s, p, e) {
            Some(k) => TokenKind::Keyword(k),
            None => TokenKind::Ident,
        };
        Ok(Some(Token { kind, start: p, end: e, value: 0 }))
    } else {
        match punct_char(c) {
            Some(k) => Ok(Some(Token { kind: TokenKind::Punct(k), start: p, end: p + 1, value: 0 })),
            None => Err(LexicalError { kind: LexicalErrorKind::UnrecognizedCharacter, position: p }),
        }
    }
}


/// No two keywords are spelled alike.
pub proof fn lemma_keyword_spelling(k1: Keyword, k2: Keyword)
    requires
        keyword_text(k1) == keyword_text(k2),
    ensures
        k1 == k2,
{
    let (w1, w2) = (keyword_text(k1), keyword_text(k2));
    assert(w1.len() == w2.len());
    assert(w1[0] == w2[0]);
    assert(w1[1] == w2[1]);
    if w1.len() > 2 {
        assert(w1[2] == w2[2]);
    }
}

/// Two tokens read at the same position are the same token.
pub proof fn lemma_token_unique(s: Seq<char>, p: int, a: Token, b: Token)
    requires
        token_at(s, p, a),
        token_at(s, p, b),
    ensures
        a == b,
{
    if let TokenKind::Keyword(k1) = a.kind {
        if let TokenKind::Keyword(k2) = b.kind {
            lemma_keyword_spelling(k1, k2);
        } else {
            assert(keyword_text(k1) == token_text(s, b));
        }
    } else if let TokenKind::Keyword(k2) = b.kind {
        assert(keyword_text(k2) == token_text(s, a));
    }
}

/// No position admits both a token and a lexical error.
pub proof fn lemma_token_or_error(s: Seq<char>, p: int, t: Token, k: LexicalErrorKind)
    requires
        token_at(s, p, t),
    ensures
        !lex_error_at(s, p, k),
{
}

/// A lexical error at a position has one kind.
pub proof fn lemma_error_unique(s: Seq<char>, p: int, k1: LexicalErrorKind, k2: LexicalErrorKind)
    requires
        0 <= p < s.len(),
        lex_error_at(s, p, k1),
        lex_error_at(s, p, k2),
    ensures
        k1 == k2,
{
}

} // verus!
