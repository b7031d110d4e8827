//! Recursive-descent parser over the token sequence.
//!
//! Every statement shape is chosen by its leading token(s), with no
//! backtracking. Keywords are accepted wherever a name is expected.
use vstd::prelude::*;
use crate::ast::{
    stream_mode, trimmed, Comment, CommentType, Enum, EnumEntry, EnumVariant, Extend, ExtendEntry,
    Extensions, Field, FieldModifier, MapEntry, MapValue, Message, MessageEntry, OneOf, OneOfEntry,
    Range, ReservedIdents, ReservedIndices, RootEntry, Rpc, RpcStream, Service, ServiceEntry,
    keys_unique,
};
use crate::lexer::{
    lemma_error_unique, lemma_token_or_error, lemma_token_unique, keyword_text, block_close, line_run, next_token, skip_space, string_close, token_at, token_text,
    lex_error_at, Keyword, LexicalError, Punct, Token, TokenKind,
};

verus! {

/// Why a document was rejected. Positions are character offsets.
#[derive(Clone, Copy, Debug, PartialEq, Eq, Structural)]
pub enum ParseError {
    /// The source could not be split into tokens at this point.
    Lexical(LexicalError),
    /// A token that no statement shape admits where it stands.
    UnexpectedToken { position: usize, found: Token },
    /// The input ended where more was required.
    UnexpectedEof { position: usize },
    /// `N to M` with `M` the largest integer: its exclusive end does not fit.
    RangeOverflow { position: usize },
}

/// A source text with its characters and its tokens up to the first lexical
/// error, which `tail` holds.
pub struct Input<'a> {
    pub text: &'a str,
    pub chars: Vec<char>,
    pub toks: Vec<Token>,
    pub tail: std::option::Option<LexicalError>,
}

/// Where token `i` of a reading starts: past the whitespace that follows
/// token `i - 1`, or that opens the source.
pub open spec fn next_start(s: Seq<char>, toks: Seq<Token>, i: int) -> int {
    if i == 0 {
        skip_space(s, 0)
    } else {
        skip_space(s, toks[i - 1].end as int)
    }
}

/// `toks` is the token sequence of `s`, read from the start, and `tail` is
/// what stopped the reading: nothing at the end of input, or a lexical error.
pub open spec fn tokenizes(
    s: Seq<char>,
    toks: Seq<Token>,
    tail: std::option::Option<LexicalError>,
) -> bool {
    &&& forall|i: int|
        0 <= i < toks.len() ==> #[trigger] toks[i].start == next_start(s, toks, i) && token_at(
            s,
            toks[i].start as int,
            toks[i],
        )
    &&& match tail {
        None => next_start(s, toks, toks.len() as int) == s.len(),
        Some(e) => {
            let p = next_start(s, toks, toks.len() as int);
            p < s.len() && e.position == p && lex_error_at(s, p, e.kind)
        },
    }
}

/// Splits `s` into tokens, stopping at the first lexical error.
pub fn tokenize(s: &Vec<char>) -> (r: (Vec<Token>, std::option::Option<LexicalError>))
    ensures
        tokenizes(s@, r.0@, r.1),
{
    let mut toks: Vec<Token> = Vec::new();
    let mut pos: usize = 0;
    loop
        invariant
            pos <= s.len(),
            forall|i: int|
                0 <= i < toks.len() ==> #[trigger] toks@[i].start == next_start(s@, toks@, i)
                    && token_at(s@, toks@[i].start as int, toks@[i]),
            toks.len() == 0 ==> pos == 0,
            toks.len() > 0 ==> pos == toks@[toks.len() - 1].end,
        decreases s.len() - pos,
    {
        proof {
            lemma_skip_space(s@, pos as int);
        }
        match next_token(s, pos) {
            Ok(None) => {
                return (toks, None);
            },
            Ok(Some(t)) => {
                let ghost old_toks = toks@;
                toks.push(t);
                assert forall|i: int| 0 <= i < toks.len() implies #[trigger] toks@[i].start
                    == next_start(s@, toks@, i) && token_at(s@, toks@[i].start as int, toks@[i]) by {
                    if i < old_toks.len() {
                        assert(toks@[i] == old_toks[i]);
                        if i > 0 {
                            assert(toks@[i - 1] == old_toks[i - 1]);
                        }
                    }
                }
                pos = t.end;
            },
            Err(e) => {
                return (toks, Some(e));
            },
        }
    }
}

proof fn lemma_same_prefix(
    s: Seq<char>,
    t1: Seq<Token>,
    e1: std::option::Option<LexicalError>,
    t2: Seq<Token>,
    e2: std::option::Option<LexicalError>,
    n: int,
)
    requires
        tokenizes(s, t1, e1),
        tokenizes(s, t2, e2),
        0 <= n <= t1.len(),
        n <= t2.len(),
    ensures
        forall|j: int| 0 <= j < n ==> t1[j] == t2[j],
    decreases n,
{
    if n > 0 {
        lemma_same_prefix(s, t1, e1, t2, e2, n - 1);
        assert(t1[n - 1].start == next_start(s, t1, n - 1));
        assert(t2[n - 1].start == next_start(s, t2, n - 1));
        if n > 1 {
            assert(t1[n - 2] == t2[n - 2]);
        }
        lemma_token_unique(s, t1[n - 1].start as int, t1[n - 1], t2[n - 1]);
    }
}

/// Fewer tokens than another reading of the same characters is impossible.
proof fn lemma_no_shorter(
    s: Seq<char>,
    t1: Seq<Token>,
    e1: std::option::Option<LexicalError>,
    t2: Seq<Token>,
    e2: std::option::Option<LexicalError>,
)
    requires
        tokenizes(s, t1, e1),
        tokenizes(s, t2, e2),
    ensures
        t2.len() <= t1.len(),
{
    if t1.len() < t2.len() {
        let n = t1.len() as int;
        lemma_same_prefix(s, t1, e1, t2, e2, n);
        assert(t2[n].start == next_start(s, t2, n));
        if n > 0 {
            assert(t1[n - 1] == t2[n - 1]);
        }
        assert(next_start(s, t1, n) == next_start(s, t2, n));
        match e1 {
            Some(e) => {
                lemma_token_or_error(s, t2[n].start as int, t2[n], e.kind);
            },
            None => {},
        }
    }
}

/// A buffer has one token reading: two readings of the same characters agree
/// token for token, and stop for the same reason.
pub proof fn lemma_tokens_unique(
    s: Seq<char>,
    t1: Seq<Token>,
    e1: std::option::Option<LexicalError>,
    t2: Seq<Token>,
    e2: std::option::Option<LexicalError>,
)
    requires
        tokenizes(s, t1, e1),
        tokenizes(s, t2, e2),
    ensures
        t1 == t2,
        e1 == e2,
{
    lemma_no_shorter(s, t1, e1, t2, e2);
    lemma_no_shorter(s, t2, e2, t1, e1);
    let n = t1.len() as int;
    lemma_same_prefix(s, t1, e1, t2, e2, n);
    assert(t1 =~= t2);
    assert(next_start(s, t1, n) == next_start(s, t2, n));
    if let Some(a) = e1 {
        if let Some(b) = e2 {
            lemma_error_unique(s, next_start(s, t1, n), a.kind, b.kind);
        }
    }
}

/// A keyword where a name is expected is read as the name spelled like the
/// keyword, just as an identifier is read as the name spelled like itself.
pub proof fn lemma_keyword_as_name(inp: &Input, i: int, k: Keyword)
    requires
        inp.wf(),
        inp.is_k(i, k),
    ensures
        inp.is_word(i),
        inp.word(i) == keyword_text(k),
{
    assert(inp.toks@[i].start == next_start(inp.chars@, inp.toks@, i));
}

/// An identifier is read as the name spelled like itself.
pub proof fn lemma_ident_as_name(inp: &Input, i: int)
    requires
        inp.wf(),
        inp.kind(i) == Some(TokenKind::Ident),
    ensures
        inp.is_word(i),
        inp.word(i) == inp.chars@.subrange(inp.toks@[i].start as int, inp.toks@[i].end as int),
{
}

proof fn lemma_skip_space(s: Seq<char>, i: int)
    requires
        0 <= i,
    ensures
        skip_space(s, i) >= i,
    decreases s.len() - i,
{
    if 0 <= i < s.len() && crate::lexer::is_space(s[i]) {
        lemma_skip_space(s, i + 1);
    }
}

proof fn lemma_line_run(s: Seq<char>, i: int)
    requires
        0 <= i,
    ensures
        line_run(s, i) >= i,
    decreases s.len() - i,
{
    if 0 <= i < s.len() && s[i] != '\n' {
        lemma_line_run(s, i + 1);
    }
}

proof fn lemma_block_close(s: Seq<char>, i: int)
    ensures
        block_close(s, i) == -1 || (block_close(s, i) >= i + 2 && block_close(s, i) <= s.len()
            && s[block_close(s, i) - 2] == '*' && s[block_close(s, i) - 1] == '/'),
    decreases s.len() - i,
{
    if !(i < 0 || i + 1 >= s.len()) && !(s[i] == '*' && s[i + 1] == '/') {
        lemma_block_close(s, i + 1);
    }
}

proof fn lemma_string_close(s: Seq<char>, i: int, q: char)
    ensures
        string_close(s, i, q) == -1 || string_close(s, i, q) >= i,
    decreases s.len() + 1 - i,
{
    if !(i < 0 || i >= s.len() || s[i] == '\n') && s[i] != q {
        if s[i] == '\\' {
            lemma_string_close(s, i + 2, q);
        } else {
            lemma_string_close(s, i + 1, q);
        }
    }
}

/// `es` with `e` added: an entry with the same key takes the new value in its
/// place, otherwise `e` goes last.
pub open spec fn insert_entry(es: Seq<MapEntry>, e: MapEntry) -> Seq<MapEntry> {
    if exists|k: int| 0 <= k < es.len() && es[k].key@ == e.key@ {
        es.update(choose|k: int| 0 <= k < es.len() && es[k].key@ == e.key@, e)
    } else {
        es.push(e)
    }
}

/// The entries of an aggregate literal whose pairs are `ps`, in order.
pub open spec fn collect_entries(ps: Seq<MapEntry>) -> Seq<MapEntry>
    decreases ps.len(),
{
    if ps.len() == 0 {
        Seq::empty()
    } else {
        insert_entry(collect_entries(ps.drop_last()), ps.last())
    }
}

/// An aggregate literal whose keys all differ keeps every pair, in the order
/// written.
pub proof fn lemma_distinct_keys_kept(ps: Seq<MapEntry>)
    requires
        keys_unique(ps),
    ensures
        collect_entries(ps) == ps,
    decreases ps.len(),
{
    if ps.len() > 0 {
        let init = ps.drop_last();
        assert forall|a: int, b: int| 0 <= a < b < init.len() implies init[a].key@
            != init[b].key@ by {
            assert(init[a] == ps[a] && init[b] == ps[b]);
        }
        lemma_distinct_keys_kept(init);
        assert forall|k: int| 0 <= k < init.len() implies init[k].key@ != ps.last().key@ by {
            assert(init[k] == ps[k]);
        }
        assert(init.push(ps.last()) =~= ps);
    }
}

/// The field modifier that a token kind stands for, if any.
pub open spec fn modifier_of(k: TokenKind) -> std::option::Option<FieldModifier> {
    match k {
        TokenKind::Keyword(Keyword::Optional) => Some(FieldModifier::Optional),
        TokenKind::Keyword(Keyword::Required) => Some(FieldModifier::Required),
        TokenKind::Keyword(Keyword::Repeated) => Some(FieldModifier::Repeated),
        _ => None,
    }
}

/// The text of a `map<K, V>` field type.
pub open spec fn map_type_text(k: Seq<char>, v: Seq<char>) -> Seq<char> {
    seq!['m', 'a', 'p', '<'] + k + seq![',', ' '] + v + seq!['>']
}

impl<'a> Input<'a> {
    pub open spec fn wf(&self) -> bool {
        &&& self.chars@ == self.text@
        &&& tokenizes(self.chars@, self.toks@, self.tail)
    }

    pub open spec fn kind(&self, i: int) -> std::option::Option<TokenKind> {
        if 0 <= i < self.toks@.len() {
            Some(self.toks@[i].kind)
        } else {
            None
        }
    }

    pub open spec fn is_p(&self, i: int, p: Punct) -> bool {
        self.kind(i) == Some(TokenKind::Punct(p))
    }

    pub open spec fn is_k(&self, i: int, k: Keyword) -> bool {
        self.kind(i) == Some(TokenKind::Keyword(k))
    }

    /// Token `i` is a word: an identifier or a keyword.
    pub open spec fn is_word(&self, i: int) -> bool {
        self.kind(i) == Some(TokenKind::Ident) || (self.kind(i) is Some && self.kind(
            i,
        )->0 is Keyword)
    }

    pub open spec fn word(&self, i: int) -> Seq<char> {
        token_text(self.chars@, self.toks@[i])
    }

    /// What a quoted string token holds between its quotes, escapes kept.
    pub open spec fn content(&self, i: int) -> Seq<char> {
        self.chars@.subrange(self.toks@[i].start + 1, self.toks@[i].end - 1)
    }

    pub open spec fn value(&self, i: int) -> i64 {
        self.toks@[i].value
    }

    /// The error reported when token `i` does not fit, or is missing.
    pub open spec fn error_at(&self, i: int) -> ParseError {
        if 0 <= i < self.toks@.len() {
            ParseError::UnexpectedToken {
                position: self.toks@[i].start,
                found: self.toks@[i],
            }
        } else {
            match self.tail {
                Some(e) => ParseError::Lexical(e),
                None => ParseError::UnexpectedEof { position: self.chars.len() },
            }
        }
    }

    /// An error that this input can give: a lexical one is the one that
    /// stopped tokenizing, an unexpected token is one of the tokens, the end
    /// comes only when tokenizing reached it, and an overflowing range ends at
    /// an integer token holding the largest value.
    pub open spec fn reported(&self, e: ParseError) -> bool {
        match e {
            ParseError::Lexical(l) => self.tail == Some(l),
            ParseError::UnexpectedToken { position, found } => exists|i: int|
                0 <= i < self.toks@.len() && #[trigger] self.toks@[i] == found && position
                    == found.start,
            ParseError::UnexpectedEof { position } => self.tail is None && position
                == self.chars.len(),
            ParseError::RangeOverflow { position } => exists|i: int|
                0 <= i < self.toks@.len() && #[trigger] self.toks@[i].start == position
                    && self.toks@[i].kind == TokenKind::Integer && self.toks@[i].value == i64::MAX,
        }
    }

    /// The key of an option that starts at token `i`: a name, or a
    /// parenthesized name with an optional dotted suffix.
    pub open spec fn key_text(&self, i: int) -> Seq<char> {
        if self.is_word(i) {
            self.word(i)
        } else if self.is_word(i + 3) {
            seq!['('] + self.word(i + 1) + seq![')'] + self.word(i + 3)
        } else {
            seq!['('] + self.word(i + 1) + seq![')']
        }
    }

    /// Token `i` starts an option key: a name, or a name in parentheses.
    pub open spec fn key_ok(&self, i: int) -> bool {
        self.is_word(i) || (self.is_p(i, Punct::LParen) && self.is_word(i + 1) && self.is_p(
            i + 2,
            Punct::RParen,
        ))
    }

    /// Where the key starting at token `i` ends.
    pub open spec fn key_end(&self, i: int) -> int {
        if self.is_word(i) {
            i + 1
        } else if self.is_word(i + 3) {
            i + 4
        } else {
            i + 3
        }
    }

    /// Token `i` starts a `map<K, V>` type.
    pub open spec fn is_map_type(&self, i: int) -> bool {
        self.is_k(i, Keyword::MapType) && self.is_p(i + 1, Punct::LAngle)
    }

    /// The text of a field type starting at token `i`.
    pub open spec fn type_text(&self, i: int) -> Seq<char> {
        if self.is_map_type(i) {
            map_type_text(self.word(i + 2), self.word(i + 4))
        } else {
            self.word(i)
        }
    }

    /// Token `i` starts a field type: a word, or all of `map<K, V>`.
    pub open spec fn type_ok(&self, i: int) -> bool {
        if self.is_map_type(i) {
            self.is_word(i + 2) && self.is_p(i + 3, Punct::Comma) && self.is_word(i + 4) && self.is_p(
                i + 5,
                Punct::RAngle,
            )
        } else {
            self.is_word(i)
        }
    }

    pub open spec fn type_end(&self, i: int) -> int {
        if self.is_map_type(i) {
            i + 6
        } else {
            i + 1
        }
    }

    /// A field that starts at token `i` has a modifier there (a modifier
    /// keyword not itself used as the type, which would put `=` two tokens on).
    pub open spec fn field_modifier(&self, i: int) -> std::option::Option<FieldModifier> {
        if 0 <= i < self.toks@.len() && !self.is_p(i + 2, Punct::Equals) {
            modifier_of(self.toks@[i].kind)
        } else {
            None
        }
    }

    /// An rpc side starting at token `i` is streamed: `stream` followed by a
    /// type rather than by the closing parenthesis.
    pub open spec fn streamed(&self, i: int) -> bool {
        self.is_k(i, Keyword::Stream) && !self.is_p(i + 1, Punct::RParen)
    }

    /// The comment `c`, read from token `i` up to token `z`.
    pub open spec fn comment_head(&self, c: Comment, i: int, z: int) -> bool {
        &&& z == i + 1
        &&& c.source@ == self.word(i)
        &&& {
            ||| self.kind(i) == Some(TokenKind::LineComment) && c.kind == CommentType::SingleLine
                && c.text@ == trimmed(c.source@.subrange(2, c.source@.len() as int))
            ||| self.kind(i) == Some(TokenKind::BlockComment) && c.kind == CommentType::MultiLine
                && c.text@ == trimmed(c.source@.subrange(2, c.source@.len() - 2))
        }
    }

    /// A field read from token `i` up to token `z`:
    /// `[modifier] type name = number [options];`.
    pub open spec fn field_head(&self, f: Field, i: int, z: int) -> bool {
        let o = if f.modifier is Some {
            i + 1
        } else {
            i
        };
        let n = self.type_end(o);
        &&& f.modifier == self.field_modifier(i)
        &&& self.type_ok(o)
        &&& f.typ@ == self.type_text(o)
        &&& f.ident@ == self.word(n)
        &&& self.is_word(n)
        &&& self.is_p(n + 1, Punct::Equals)
        &&& self.kind(n + 2) == Some(TokenKind::Integer)
        &&& f.index == self.value(n + 2)
        &&& self.options_at(f.options@, n + 3, z - 1)
        &&& self.is_p(z - 1, Punct::Semicolon)
    }

    /// An enum value read from token `i` up to token `z`:
    /// `name = number [options];`.
    pub open spec fn variant_head(&self, v: EnumVariant, i: int, z: int) -> bool {
        &&& v.ident@ == self.word(i)
        &&& self.is_word(i)
        &&& self.is_p(i + 1, Punct::Equals)
        &&& self.kind(i + 2) == Some(TokenKind::Integer)
        &&& v.value == self.value(i + 2)
        &&& self.options_at(v.options@, i + 3, z - 1)
        &&& self.is_p(z - 1, Punct::Semicolon)
    }

    /// An rpc read from token `i` up to token `z`; each side is streamed when
    /// `stream` precedes its type. It ends with `;` or with an empty `{}`.
    pub open spec fn rpc_head(&self, c: Rpc, i: int, z: int) -> bool {
        let req = if self.streamed(i + 3) {
            i + 4
        } else {
            i + 3
        };
        let rep = if self.streamed(req + 4) {
            req + 5
        } else {
            req + 4
        };
        &&& self.is_k(i, Keyword::Rpc)
        &&& c.ident@ == self.word(i + 1)
        &&& self.is_word(i + 1)
        &&& self.is_p(i + 2, Punct::LParen)
        &&& c.request@ == self.word(req)
        &&& self.is_word(req)
        &&& self.is_p(req + 1, Punct::RParen)
        &&& self.is_k(req + 2, Keyword::Returns)
        &&& self.is_p(req + 3, Punct::LParen)
        &&& c.reply@ == self.word(rep)
        &&& self.is_word(rep)
        &&& self.is_p(rep + 1, Punct::RParen)
        &&& c.stream == stream_mode(self.streamed(i + 3), self.streamed(req + 4))
        &&& {
            ||| self.is_p(rep + 2, Punct::Semicolon) && z == rep + 3
            ||| self.is_p(rep + 2, Punct::LBrace) && self.is_p(rep + 3, Punct::RBrace) && z == rep + 4
        }
    }

    /// An option statement read from token `i` up to token `z`.
    pub open spec fn option_head(&self, o: crate::ast::Option, i: int, z: int) -> bool {
        self.is_k(i, Keyword::Option) && self.pair_read(o, i + 1, z - 1) && self.is_p(
            z - 1,
            Punct::Semicolon,
        )
    }

    /// A block `keyword name {` read from token `i`, whose name is `n`.
    pub open spec fn block_head(&self, k: Keyword, n: Seq<char>, i: int) -> bool {
        self.is_k(i, k) && n == self.word(i + 1) && self.is_word(i + 1) && self.is_p(
            i + 2,
            Punct::LBrace,
        )
    }

    /// A `reserved` or `extensions` statement from token `i` up to token `z`
    /// whose ranges are `rs`.
    pub open spec fn ranges_statement(&self, k: Keyword, rs: Seq<Range>, i: int, z: int) -> bool {
        self.is_k(i, k) && self.ranges_read(rs, i + 1, z - 1) && self.is_p(z - 1, Punct::Semicolon)
    }

    /// The entry `e` read from token `i` up to token `z`. The blocks nested in
    /// a message are described down to their entries.
    pub open spec fn message_entry_head(&self, e: MessageEntry, i: int, z: int) -> bool
        decreases e,
    {
        match e {
            MessageEntry::Comment(c) => self.comment_head(c, i, z),
            MessageEntry::Option(o) => self.option_head(o, i, z),
            MessageEntry::Field(f) => !self.is_k(i, Keyword::Option) && self.field_head(f, i, z),
            MessageEntry::OneOf(m) => self.block_head(Keyword::Oneof, m.ident@, i)
                && self.oneof_body(m.entries@, i + 3, z - 1) && self.is_p(z - 1, Punct::RBrace),
            MessageEntry::Message(m) => self.block_head(Keyword::Message, m.ident@, i)
                && self.message_body(m.entries@, i + 3, z - 1) && self.is_p(z - 1, Punct::RBrace),
            MessageEntry::Extend(m) => self.block_head(Keyword::Extend, m.typ@, i)
                && self.extend_body(m.entries@, i + 3, z - 1) && self.is_p(z - 1, Punct::RBrace),
            MessageEntry::Enum(m) => self.block_head(Keyword::Enum, m.ident@, i) && self.enum_body(
                m.entries@,
                i + 3,
                z - 1,
            ) && self.is_p(z - 1, Punct::RBrace),
            MessageEntry::ReservedIndices(g) => self.ranges_statement(Keyword::Reserved, g.0@, i, z),
            MessageEntry::ReservedIdents(g) => self.is_k(i, Keyword::Reserved) && self.names_read(
                g.0@,
                i + 1,
            ) && z == i + 2 * g.0@.len() + 1 && self.is_p(z - 1, Punct::Semicolon),
            MessageEntry::Extensions(g) => self.ranges_statement(Keyword::Extensions, g.0@, i, z),
        }
    }

    pub open spec fn oneof_entry_head(&self, e: OneOfEntry, i: int, z: int) -> bool {
        match e {
            OneOfEntry::Comment(c) => self.comment_head(c, i, z),
            OneOfEntry::Option(o) => self.option_head(o, i, z),
            OneOfEntry::Field(f) => !self.is_k(i, Keyword::Option) && self.field_head(f, i, z),
        }
    }

    pub open spec fn extend_entry_head(&self, e: ExtendEntry, i: int, z: int) -> bool {
        match e {
            ExtendEntry::Comment(c) => self.comment_head(c, i, z),
            ExtendEntry::Field(f) => self.field_head(f, i, z),
        }
    }

    pub open spec fn enum_entry_head(&self, e: EnumEntry, i: int, z: int) -> bool {
        match e {
            EnumEntry::Comment(c) => self.comment_head(c, i, z),
            EnumEntry::Option(o) => self.option_head(o, i, z),
            EnumEntry::Variant(v) => self.variant_head(v, i, z),
        }
    }

    pub open spec fn service_entry_head(&self, e: ServiceEntry, i: int, z: int) -> bool {
        match e {
            ServiceEntry::Comment(c) => self.comment_head(c, i, z),
            ServiceEntry::Option(o) => self.option_head(o, i, z),
            ServiceEntry::Rpc(r) => self.rpc_head(r, i, z),
        }
    }

    /// Where the string of an `import` starting at token `i` stands: after an
    /// optional word such as `public`.
    pub open spec fn import_path_at(&self, i: int) -> int {
        if self.is_word(i + 1) {
            i + 2
        } else {
            i + 1
        }
    }

    /// The top-level entry `e` read from token `i` up to token `z`.
    pub open spec fn root_entry_head(&self, e: RootEntry, i: int, z: int) -> bool {
        match e {
            RootEntry::Comment(c) => self.comment_head(c, i, z),
            RootEntry::Syntax(v) => self.is_k(i, Keyword::Syntax) && self.is_p(i + 1, Punct::Equals)
                && self.kind(i + 2) == Some(TokenKind::Str) && v@ == self.content(i + 2) && self.is_p(
                i + 3,
                Punct::Semicolon,
            ) && z == i + 4,
            RootEntry::Package(v) => self.is_k(i, Keyword::Package) && self.is_word(i + 1) && v@
                == self.word(i + 1) && self.is_p(i + 2, Punct::Semicolon) && z == i + 3,
            RootEntry::Import(v) => {
                let p = self.import_path_at(i);
                self.is_k(i, Keyword::Import) && self.kind(p) == Some(TokenKind::Str) && v@
                    == self.content(p) && self.is_p(p + 1, Punct::Semicolon) && z == p + 2
            },
            RootEntry::Option(o) => self.option_head(o, i, z),
            RootEntry::Service(m) => self.block_head(Keyword::Service, m.ident@, i)
                && self.service_body(m.entries@, i + 3, z - 1) && self.is_p(z - 1, Punct::RBrace),
            RootEntry::Message(m) => self.block_head(Keyword::Message, m.ident@, i)
                && self.message_body(m.entries@, i + 3, z - 1) && self.is_p(z - 1, Punct::RBrace),
            RootEntry::Extend(m) => self.block_head(Keyword::Extend, m.typ@, i) && self.extend_body(
                m.entries@,
                i + 3,
                z - 1,
            ) && self.is_p(z - 1, Punct::RBrace),
            RootEntry::Enum(m) => self.block_head(Keyword::Enum, m.ident@, i) && self.enum_body(
                m.entries@,
                i + 3,
                z - 1,
            ) && self.is_p(z - 1, Punct::RBrace),
        }
    }

    /// `es` were read one after another from tokens `a` up to `b`: entry `k`
    /// starts at `bs[k]` and ends where entry `k + 1` starts.
    pub open spec fn tiles(&self, bs: Seq<int>, n: int, a: int, b: int) -> bool {
        &&& bs.len() == n + 1
        &&& bs[0] == a
        &&& bs[n] == b
        &&& forall|k: int| 0 <= k < n ==> #[trigger] bs[k] < bs[k + 1]
    }

    pub open spec fn message_body(&self, es: Seq<MessageEntry>, a: int, b: int) -> bool
        decreases es,
    {
        exists|bs: Seq<int>|
            self.tiles(bs, es.len() as int, a, b) && forall|k: int|
                0 <= k < es.len() ==> self.message_entry_head(#[trigger] es[k], bs[k], bs[k + 1])
    }

    pub open spec fn oneof_body(&self, es: Seq<OneOfEntry>, a: int, b: int) -> bool {
        exists|bs: Seq<int>|
            self.tiles(bs, es.len() as int, a, b) && forall|k: int|
                0 <= k < es.len() ==> self.oneof_entry_head(#[trigger] es[k], bs[k], bs[k + 1])
    }

    pub open spec fn extend_body(&self, es: Seq<ExtendEntry>, a: int, b: int) -> bool {
        exists|bs: Seq<int>|
            self.tiles(bs, es.len() as int, a, b) && forall|k: int|
                0 <= k < es.len() ==> self.extend_entry_head(#[trigger] es[k], bs[k], bs[k + 1])
    }

    pub open spec fn enum_body(&self, es: Seq<EnumEntry>, a: int, b: int) -> bool {
        exists|bs: Seq<int>|
            self.tiles(bs, es.len() as int, a, b) && forall|k: int|
                0 <= k < es.len() ==> self.enum_entry_head(#[trigger] es[k], bs[k], bs[k + 1])
    }

    pub open spec fn service_body(&self, es: Seq<ServiceEntry>, a: int, b: int) -> bool {
        exists|bs: Seq<int>|
            self.tiles(bs, es.len() as int, a, b) && forall|k: int|
                0 <= k < es.len() ==> self.service_entry_head(#[trigger] es[k], bs[k], bs[k + 1])
    }

    pub open spec fn root_body(&self, es: Seq<RootEntry>, a: int, b: int) -> bool {
        exists|bs: Seq<int>|
            self.tiles(bs, es.len() as int, a, b) && forall|k: int|
                0 <= k < es.len() ==> self.root_entry_head(#[trigger] es[k], bs[k], bs[k + 1])
    }

    /// How many tokens the range starting at token `i` takes.
    pub open spec fn range_width(&self, i: int) -> int {
        if self.is_k(i + 1, Keyword::To) {
            3
        } else {
            1
        }
    }

    /// `g` is the range written at token `i`: `N` is `[N, N+1)`, `N to M` is
    /// `[N, M+1)`, and `N to max` has no upper bound.
    pub open spec fn range_read(&self, g: Range, i: int) -> bool {
        &&& self.kind(i) == Some(TokenKind::Integer)
        &&& {
            let a = self.value(i);
            if self.is_k(i + 1, Keyword::To) && self.is_k(i + 2, Keyword::Max) {
                g == Range::From(a)
            } else if self.is_k(i + 1, Keyword::To) {
                self.kind(i + 2) == Some(TokenKind::Integer) && self.value(i + 2) < i64::MAX && g
                    == Range::Default(a, (self.value(i + 2) + 1) as i64)
            } else {
                a < i64::MAX && g == Range::Default(a, (a + 1) as i64)
            }
        }
    }

    /// `rs` is the comma-separated range list written from token `a` up to
    /// `b`, range `k` starting at token `bs[k]`.
    pub open spec fn ranges_at(&self, rs: Seq<Range>, bs: Seq<int>, a: int, b: int) -> bool {
        &&& self.tiles(bs, rs.len() as int, a, b + 1)
        &&& rs.len() > 0
        &&& forall|k: int|
            0 <= k < rs.len() ==> self.range_read(#[trigger] rs[k], bs[k]) && bs[k + 1] == bs[k]
                + self.range_width(bs[k]) + 1 && (k + 1 < rs.len() ==> self.is_p(
                bs[k] + self.range_width(bs[k]),
                Punct::Comma,
            ))
    }

    /// `rs` is the comma-separated range list written from token `a` up to `b`.
    pub open spec fn ranges_read(&self, rs: Seq<Range>, a: int, b: int) -> bool {
        exists|bs: Seq<int>| #[trigger] self.ranges_at(rs, bs, a, b)
    }

    pub open spec fn name_read(&self, n: String, i: int) -> bool {
        self.kind(i) == Some(TokenKind::Str) && n@ == self.content(i)
    }

    /// `ns` are the quoted names written from token `a`, separated by commas.
    pub open spec fn names_read(&self, ns: Seq<String>, a: int) -> bool {
        &&& ns.len() > 0
        &&& forall|k: int|
            #![trigger ns[k]]
            0 <= k < ns.len() ==> self.name_read(ns[k], a + 2 * k) && (k > 0 ==> self.is_p(
                a + 2 * k - 1,
                Punct::Comma,
            ))
    }

    /// `v` is the option value written from token `i` up to token `z`; an
    /// aggregate literal is described no further than by its braces and its
    /// unique keys.
    pub open spec fn scalar_read(&self, v: MapValue, i: int, z: int) -> bool {
        if self.is_k(i, Keyword::True) {
            v == MapValue::Boolean(true) && z == i + 1
        } else if self.is_k(i, Keyword::False) {
            v == MapValue::Boolean(false) && z == i + 1
        } else if self.kind(i) == Some(TokenKind::Integer) {
            v == MapValue::Integer(self.value(i)) && z == i + 1
        } else if self.kind(i) == Some(TokenKind::Str) {
            v is String && v->String_0@ == self.content(i) && z == i + 1
        } else if self.is_word(i) {
            v is Ident && v->Ident_0@ == self.word(i) && z == i + 1
        } else {
            self.is_p(i, Punct::LBrace) && self.is_p(z - 1, Punct::RBrace) && i + 2 <= z && v is Aggregate
                && keys_unique(v->Aggregate_0@)
        }
    }

    /// Where the value of the aggregate pair whose key is token `i` starts;
    /// the colon after the key may be left out.
    pub open spec fn pair_value_at(&self, i: int) -> int {
        if self.is_p(i + 1, Punct::Colon) {
            i + 2
        } else {
            i + 1
        }
    }

    /// Where the value of an aggregate pair ends, when the next pair (or the
    /// closing brace) is at token `t`: before the separator, if there is one.
    pub open spec fn value_stop(&self, t: int) -> int {
        if self.is_p(t - 1, Punct::Comma) || self.is_p(t - 1, Punct::Semicolon) {
            t - 1
        } else {
            t
        }
    }

    /// `es` are the entries of the aggregate literal from token `a` up to
    /// token `z`, whose pairs in source order are `ps`, pair `k` running from
    /// token `bs[k]` to token `bs[k + 1]`. A key given again takes the place
    /// of the earlier pair. Values of the pairs are read as by `scalar_read`.
    pub open spec fn aggregate_at(
        &self,
        es: Seq<MapEntry>,
        ps: Seq<MapEntry>,
        bs: Seq<int>,
        a: int,
        z: int,
    ) -> bool {
        &&& self.tiles(bs, ps.len() as int, a + 1, z - 1)
        &&& self.is_p(a, Punct::LBrace)
        &&& self.is_p(z - 1, Punct::RBrace)
        &&& es == collect_entries(ps)
        &&& forall|k: int|
            0 <= k < ps.len() ==> self.is_word(bs[k]) && (#[trigger] ps[k]).key@ == self.word(bs[k])
                && self.scalar_read(ps[k].value, self.pair_value_at(bs[k]), self.value_stop(bs[k + 1]))
    }

    /// `es` are the entries of the aggregate literal from token `a` up to
    /// token `z`.
    pub open spec fn aggregate_read(&self, es: Seq<MapEntry>, a: int, z: int) -> bool {
        exists|ps: Seq<MapEntry>, bs: Seq<int>| #[trigger] self.aggregate_at(es, ps, bs, a, z)
    }

    /// `v` is the option value written from token `i` up to token `z`; an
    /// aggregate literal is described down to the values of its pairs.
    pub open spec fn value_read(&self, v: MapValue, i: int, z: int) -> bool {
        &&& self.scalar_read(v, i, z)
        &&& v is Aggregate ==> self.aggregate_read(v->Aggregate_0@, i, z)
    }

    /// `o` is the `key = value` pair written from token `i` up to token `z`.
    #[verifier::opaque]
    pub open spec fn pair_read(&self, o: crate::ast::Option, i: int, z: int) -> bool {
        &&& self.key_ok(i)
        &&& o.key@ == self.key_text(i)
        &&& self.is_p(self.key_end(i), Punct::Equals)
        &&& self.value_read(o.value, self.key_end(i) + 1, z)
    }

    /// `os` is the bracketed option list that opens at token `a` and closes
    /// at token `b`: pair `k` runs from `bs[k]` to the comma or bracket at
    /// `bs[k + 1] - 1`.
    pub open spec fn options_read(&self, os: Seq<crate::ast::Option>, a: int, b: int) -> bool {
        exists|bs: Seq<int>|
            #![trigger self.tiles(bs, os.len() as int, a + 1, b + 1)]
            self.tiles(bs, os.len() as int, a + 1, b + 1) && os.len() > 0 && self.is_p(
                a,
                Punct::LBracket,
            ) && self.is_p(b, Punct::RBracket) && forall|k: int|
                0 <= k < os.len() ==> self.pair_read(#[trigger] os[k], bs[k], bs[k + 1] - 1) && (k
                    + 1 < os.len() ==> self.is_p(bs[k + 1] - 1, Punct::Comma))
    }

    /// The options written from token `a` up to token `z`: a bracketed list
    /// there, or none.
    pub open spec fn options_at(&self, os: Seq<crate::ast::Option>, a: int, z: int) -> bool {
        if self.is_p(a, Punct::LBracket) {
            self.options_read(os, a, z - 1)
        } else {
            os.len() == 0 && z == a
        }
    }

    /// The result of a failed step at token `i`.
    pub open spec fn fail_at(&self, i: int) -> Result<int, ParseError> {
        Err(self.error_at(i))
    }

    pub open spec fn scan_name(&self, i: int) -> Result<int, ParseError> {
        if self.is_word(i) {
            Ok(i + 1)
        } else {
            self.fail_at(i)
        }
    }

    pub open spec fn scan_punct(&self, i: int, p: Punct) -> Result<int, ParseError> {
        if self.is_p(i, p) {
            Ok(i + 1)
        } else {
            self.fail_at(i)
        }
    }

    /// How far an option key from token `i` reaches, or where it fails.
    pub open spec fn scan_key(&self, i: int) -> Result<int, ParseError> {
        if self.is_word(i) {
            Ok(i + 1)
        } else if !self.is_p(i, Punct::LParen) {
            self.fail_at(i)
        } else if !self.is_word(i + 1) {
            self.fail_at(i + 1)
        } else if !self.is_p(i + 2, Punct::RParen) {
            self.fail_at(i + 2)
        } else if self.is_word(i + 3) {
            Ok(i + 4)
        } else {
            Ok(i + 3)
        }
    }

    /// How far an option value from token `i` reaches, or where it fails.
    pub open spec fn scan_value(&self, i: int) -> Result<int, ParseError>
        decreases self.toks@.len() - i, 1int,
    {
        match self.kind(i) {
            Some(TokenKind::Integer) | Some(TokenKind::Str) | Some(TokenKind::Ident) | Some(
                TokenKind::Keyword(_),
            ) => Ok(i + 1),
            _ => if !self.is_p(i, Punct::LBrace) {
                self.fail_at(i)
            } else if i + 1 <= self.toks@.len() {
                self.scan_pairs(i + 1)
            } else {
                self.fail_at(i)
            },
        }
    }

    /// How far the pairs of an aggregate literal from token `j`, and its
    /// closing brace, reach, or where they fail.
    pub open spec fn scan_pairs(&self, j: int) -> Result<int, ParseError>
        decreases self.toks@.len() - j, 0int,
    {
        if j > self.toks@.len() {
            self.fail_at(j)
        } else if self.is_p(j, Punct::RBrace) {
            Ok(j + 1)
        } else if !self.is_word(j) {
            self.fail_at(j)
        } else {
            let vs = self.pair_value_at(j);
            match self.scan_value(vs) {
                Err(e) => Err(e),
                Ok(ve) => {
                    let k = if self.is_p(ve, Punct::Comma) || self.is_p(ve, Punct::Semicolon) {
                        ve + 1
                    } else {
                        ve
                    };
                    if j < k <= self.toks@.len() {
                        self.scan_pairs(k)
                    } else {
                        self.fail_at(j)
                    }
                },
            }
        }
    }

    pub open spec fn scan_aggregate(&self, i: int) -> Result<int, ParseError> {
        if !self.is_p(i, Punct::LBrace) {
            self.fail_at(i)
        } else {
            self.scan_pairs(i + 1)
        }
    }

    /// `key = value` from token `i`.
    pub open spec fn scan_pair(&self, i: int) -> Result<int, ParseError> {
        match self.scan_key(i) {
            Err(e) => Err(e),
            Ok(k) => if !self.is_p(k, Punct::Equals) {
                self.fail_at(k)
            } else {
                self.scan_value(k + 1)
            },
        }
    }

    pub open spec fn scan_option_statement(&self, i: int) -> Result<int, ParseError> {
        if !self.is_k(i, Keyword::Option) {
            self.fail_at(i)
        } else {
            match self.scan_pair(i + 1) {
                Err(e) => Err(e),
                Ok(j) => self.scan_punct(j, Punct::Semicolon),
            }
        }
    }

    /// The rest of a bracketed option list after a pair that ended at `j`.
    pub open spec fn scan_more_options(&self, j: int) -> Result<int, ParseError>
        decreases self.toks@.len() - j,
    {
        if self.is_p(j, Punct::Comma) {
            match self.scan_pair(j + 1) {
                Err(e) => Err(e),
                Ok(k) => if j < k <= self.toks@.len() {
                    self.scan_more_options(k)
                } else {
                    self.fail_at(j)
                },
            }
        } else {
            self.scan_punct(j, Punct::RBracket)
        }
    }

    pub open spec fn scan_option_list(&self, i: int) -> Result<int, ParseError> {
        if !self.is_p(i, Punct::LBracket) {
            Ok(i)
        } else {
            match self.scan_pair(i + 1) {
                Err(e) => Err(e),
                Ok(j) => self.scan_more_options(j),
            }
        }
    }

    pub open spec fn scan_field_type(&self, i: int) -> Result<int, ParseError> {
        if !self.is_map_type(i) {
            self.scan_name(i)
        } else if !self.is_word(i + 2) {
            self.fail_at(i + 2)
        } else if !self.is_p(i + 3, Punct::Comma) {
            self.fail_at(i + 3)
        } else if !self.is_word(i + 4) {
            self.fail_at(i + 4)
        } else {
            self.scan_punct(i + 5, Punct::RAngle)
        }
    }

    /// What follows the type of a field or the name of an enum value:
    /// `name = number [options];` from `n` for a field, `= number ...` for a value.
    pub open spec fn scan_number_tail(&self, e: int) -> Result<int, ParseError> {
        if !self.is_p(e, Punct::Equals) {
            self.fail_at(e)
        } else if self.kind(e + 1) != Some(TokenKind::Integer) {
            self.fail_at(e + 1)
        } else {
            match self.scan_option_list(e + 2) {
                Err(x) => Err(x),
                Ok(k) => self.scan_punct(k, Punct::Semicolon),
            }
        }
    }

    pub open spec fn scan_field(&self, i: int) -> Result<int, ParseError> {
        let o = if self.field_modifier(i) is Some {
            i + 1
        } else {
            i
        };
        match self.scan_field_type(o) {
            Err(e) => Err(e),
            Ok(n) => if !self.is_word(n) {
                self.fail_at(n)
            } else {
                self.scan_number_tail(n + 1)
            },
        }
    }

    pub open spec fn scan_variant(&self, i: int) -> Result<int, ParseError> {
        if !self.is_word(i) {
            self.fail_at(i)
        } else {
            self.scan_number_tail(i + 1)
        }
    }

    pub open spec fn scan_range(&self, i: int) -> Result<int, ParseError> {
        if self.kind(i) != Some(TokenKind::Integer) {
            self.fail_at(i)
        } else if self.is_k(i + 1, Keyword::To) {
            if self.is_k(i + 2, Keyword::Max) {
                Ok(i + 3)
            } else if self.kind(i + 2) != Some(TokenKind::Integer) {
                self.fail_at(i + 2)
            } else if self.value(i + 2) == i64::MAX {
                Err(ParseError::RangeOverflow { position: self.toks@[i + 2].start })
            } else {
                Ok(i + 3)
            }
        } else if self.value(i) == i64::MAX {
            Err(ParseError::RangeOverflow { position: self.toks@[i].start })
        } else {
            Ok(i + 1)
        }
    }

    pub open spec fn scan_more_ranges(&self, j: int) -> Result<int, ParseError>
        decreases self.toks@.len() - j,
    {
        if self.is_p(j, Punct::Comma) {
            match self.scan_range(j + 1) {
                Err(e) => Err(e),
                Ok(k) => if j < k <= self.toks@.len() {
                    self.scan_more_ranges(k)
                } else {
                    self.fail_at(j)
                },
            }
        } else {
            Ok(j)
        }
    }

    pub open spec fn scan_ranges(&self, i: int) -> Result<int, ParseError> {
        match self.scan_range(i) {
            Err(e) => Err(e),
            Ok(j) => self.scan_more_ranges(j),
        }
    }

    pub open spec fn scan_string(&self, i: int) -> Result<int, ParseError> {
        if self.kind(i) == Some(TokenKind::Str) {
            Ok(i + 1)
        } else {
            self.fail_at(i)
        }
    }

    pub open spec fn scan_more_names(&self, j: int) -> Result<int, ParseError>
        decreases self.toks@.len() - j,
    {
        if self.is_p(j, Punct::Comma) {
            match self.scan_string(j + 1) {
                Err(e) => Err(e),
                Ok(k) => if j < k <= self.toks@.len() {
                    self.scan_more_names(k)
                } else {
                    self.fail_at(j)
                },
            }
        } else {
            Ok(j)
        }
    }

    pub open spec fn scan_names(&self, i: int) -> Result<int, ParseError> {
        match self.scan_string(i) {
            Err(e) => Err(e),
            Ok(j) => self.scan_more_names(j),
        }
    }

    pub open spec fn scan_reserved(&self, i: int) -> Result<int, ParseError> {
        if !self.is_k(i, Keyword::Reserved) {
            self.fail_at(i)
        } else if self.kind(i + 1) == Some(TokenKind::Str) {
            match self.scan_names(i + 1) {
                Err(e) => Err(e),
                Ok(j) => self.scan_punct(j, Punct::Semicolon),
            }
        } else {
            match self.scan_ranges(i + 1) {
                Err(e) => Err(e),
                Ok(j) => self.scan_punct(j, Punct::Semicolon),
            }
        }
    }

    pub open spec fn scan_extensions(&self, i: int) -> Result<int, ParseError> {
        if !self.is_k(i, Keyword::Extensions) {
            self.fail_at(i)
        } else {
            match self.scan_ranges(i + 1) {
                Err(e) => Err(e),
                Ok(j) => self.scan_punct(j, Punct::Semicolon),
            }
        }
    }

    pub open spec fn scan_rpc(&self, i: int) -> Result<int, ParseError> {
        let req = if self.streamed(i + 3) {
            i + 4
        } else {
            i + 3
        };
        let rep = if self.streamed(req + 4) {
            req + 5
        } else {
            req + 4
        };
        if !self.is_k(i, Keyword::Rpc) {
            self.fail_at(i)
        } else if !self.is_word(i + 1) {
            self.fail_at(i + 1)
        } else if !self.is_p(i + 2, Punct::LParen) {
            self.fail_at(i + 2)
        } else if !self.is_word(req) {
            self.fail_at(req)
        } else if !self.is_p(req + 1, Punct::RParen) {
            self.fail_at(req + 1)
        } else if !self.is_k(req + 2, Keyword::Returns) {
            self.fail_at(req + 2)
        } else if !self.is_p(req + 3, Punct::LParen) {
            self.fail_at(req + 3)
        } else if !self.is_word(rep) {
            self.fail_at(rep)
        } else if !self.is_p(rep + 1, Punct::RParen) {
            self.fail_at(rep + 1)
        } else if self.is_p(rep + 2, Punct::LBrace) {
            self.scan_punct(rep + 3, Punct::RBrace)
        } else {
            self.scan_punct(rep + 2, Punct::Semicolon)
        }
    }

    pub open spec fn is_comment(&self, i: int) -> bool {
        self.kind(i) == Some(TokenKind::LineComment) || self.kind(i) == Some(TokenKind::BlockComment)
    }

    pub open spec fn scan_oneof_entry(&self, i: int) -> Result<int, ParseError> {
        if self.is_comment(i) {
            Ok(i + 1)
        } else if self.is_k(i, Keyword::Option) {
            self.scan_option_statement(i)
        } else {
            self.scan_field(i)
        }
    }

    pub open spec fn scan_extend_entry(&self, i: int) -> Result<int, ParseError> {
        if self.is_comment(i) {
            Ok(i + 1)
        } else {
            self.scan_field(i)
        }
    }

    pub open spec fn scan_enum_entry(&self, i: int) -> Result<int, ParseError> {
        if self.is_comment(i) {
            Ok(i + 1)
        } else if self.is_k(i, Keyword::Option) && !self.is_p(i + 1, Punct::Equals) {
            self.scan_option_statement(i)
        } else {
            self.scan_variant(i)
        }
    }

    pub open spec fn scan_service_entry(&self, i: int) -> Result<int, ParseError> {
        if self.is_comment(i) {
            Ok(i + 1)
        } else if self.is_k(i, Keyword::Option) {
            self.scan_option_statement(i)
        } else {
            self.scan_rpc(i)
        }
    }

    /// A block `keyword name {` from token `i`: where its body starts.
    pub open spec fn scan_block_open(&self, k: Keyword, i: int) -> Result<int, ParseError> {
        if !self.is_k(i, k) {
            self.fail_at(i)
        } else if !self.is_word(i + 1) {
            self.fail_at(i + 1)
        } else {
            self.scan_punct(i + 2, Punct::LBrace)
        }
    }

    pub open spec fn scan_oneof_body(&self, j: int) -> Result<int, ParseError>
        decreases self.toks@.len() - j,
    {
        if self.is_p(j, Punct::RBrace) {
            Ok(j + 1)
        } else {
            match self.scan_oneof_entry(j) {
                Err(e) => Err(e),
                Ok(k) => if j < k <= self.toks@.len() {
                    self.scan_oneof_body(k)
                } else {
                    self.fail_at(j)
                },
            }
        }
    }

    pub open spec fn scan_extend_body(&self, j: int) -> Result<int, ParseError>
        decreases self.toks@.len() - j,
    {
        if self.is_p(j, Punct::RBrace) {
            Ok(j + 1)
        } else {
            match self.scan_extend_entry(j) {
                Err(e) => Err(e),
                Ok(k) => if j < k <= self.toks@.len() {
                    self.scan_extend_body(k)
                } else {
                    self.fail_at(j)
                },
            }
        }
    }

    pub open spec fn scan_enum_body(&self, j: int) -> Result<int, ParseError>
        decreases self.toks@.len() - j,
    {
        if self.is_p(j, Punct::RBrace) {
            Ok(j + 1)
        } else {
            match self.scan_enum_entry(j) {
                Err(e) => Err(e),
                Ok(k) => if j < k <= self.toks@.len() {
                    self.scan_enum_body(k)
                } else {
                    self.fail_at(j)
                },
            }
        }
    }

    pub open spec fn scan_service_body(&self, j: int) -> Result<int, ParseError>
        decreases self.toks@.len() - j,
    {
        if self.is_p(j, Punct::RBrace) {
            Ok(j + 1)
        } else {
            match self.scan_service_entry(j) {
                Err(e) => Err(e),
                Ok(k) => if j < k <= self.toks@.len() {
                    self.scan_service_body(k)
                } else {
                    self.fail_at(j)
                },
            }
        }
    }

    /// A block with the given body scan.
    pub open spec fn scan_block(&self, k: Keyword, i: int) -> Result<int, ParseError> {
        match self.scan_block_open(k, i) {
            Err(e) => Err(e),
            Ok(j) => match k {
                Keyword::Oneof => self.scan_oneof_body(j),
                Keyword::Extend => self.scan_extend_body(j),
                Keyword::Enum => self.scan_enum_body(j),
                _ => self.scan_service_body(j),
            },
        }
    }

    pub open spec fn scan_message(&self, i: int) -> Result<int, ParseError>
        decreases self.toks@.len() - i, 0int,
    {
        match self.scan_block_open(Keyword::Message, i) {
            Err(e) => Err(e),
            Ok(j) => if i < j {
                self.scan_message_body(j)
            } else {
                self.fail_at(i)
            },
        }
    }

    pub open spec fn scan_message_body(&self, j: int) -> Result<int, ParseError>
        decreases self.toks@.len() - j, 2int,
    {
        if self.is_p(j, Punct::RBrace) {
            Ok(j + 1)
        } else if j >= self.toks@.len() {
            self.fail_at(j)
        } else {
            match self.scan_message_entry(j) {
                Err(e) => Err(e),
                Ok(k) => if j < k <= self.toks@.len() {
                    self.scan_message_body(k)
                } else {
                    self.fail_at(j)
                },
            }
        }
    }

    /// In a message, a keyword starts its own statement only when the tokens
    /// after it have that statement's shape; `option` always does.
    pub open spec fn scan_message_entry(&self, i: int) -> Result<int, ParseError>
        decreases self.toks@.len() - i, 1int,
    {
        let brace = self.is_p(i + 2, Punct::LBrace);
        let next = self.kind(i + 1);
        if i < 0 || i >= self.toks@.len() {
            self.fail_at(i)
        } else if self.is_comment(i) {
            Ok(i + 1)
        } else if self.is_k(i, Keyword::Option) {
            self.scan_option_statement(i)
        } else if self.is_k(i, Keyword::Message) && brace {
            self.scan_message(i)
        } else if self.is_k(i, Keyword::Enum) && brace {
            self.scan_block(Keyword::Enum, i)
        } else if self.is_k(i, Keyword::Extend) && brace {
            self.scan_block(Keyword::Extend, i)
        } else if self.is_k(i, Keyword::Oneof) && brace {
            self.scan_block(Keyword::Oneof, i)
        } else if self.is_k(i, Keyword::Reserved) && (next == Some(TokenKind::Integer) || next == Some(
            TokenKind::Str,
        )) {
            self.scan_reserved(i)
        } else if self.is_k(i, Keyword::Extensions) && next == Some(TokenKind::Integer) {
            self.scan_extensions(i)
        } else {
            self.scan_field(i)
        }
    }

    pub open spec fn scan_root_entry(&self, i: int) -> Result<int, ParseError> {
        if self.is_comment(i) {
            Ok(i + 1)
        } else if self.is_k(i, Keyword::Syntax) {
            if !self.is_p(i + 1, Punct::Equals) {
                self.fail_at(i + 1)
            } else if self.kind(i + 2) != Some(TokenKind::Str) {
                self.fail_at(i + 2)
            } else {
                self.scan_punct(i + 3, Punct::Semicolon)
            }
        } else if self.is_k(i, Keyword::Package) {
            if !self.is_word(i + 1) {
                self.fail_at(i + 1)
            } else {
                self.scan_punct(i + 2, Punct::Semicolon)
            }
        } else if self.is_k(i, Keyword::Import) {
            let p = self.import_path_at(i);
            if self.kind(p) != Some(TokenKind::Str) {
                self.fail_at(p)
            } else {
                self.scan_punct(p + 1, Punct::Semicolon)
            }
        } else if self.is_k(i, Keyword::Option) {
            self.scan_option_statement(i)
        } else if self.is_k(i, Keyword::Message) {
            self.scan_message(i)
        } else if self.is_k(i, Keyword::Enum) {
            self.scan_block(Keyword::Enum, i)
        } else if self.is_k(i, Keyword::Extend) {
            self.scan_block(Keyword::Extend, i)
        } else if self.is_k(i, Keyword::Service) {
            self.scan_block(Keyword::Service, i)
        } else {
            self.fail_at(i)
        }
    }

    /// The document from token `j` on: it ends where the tokens end, unless
    /// a statement fails first or tokenizing stopped at a lexical error.
    pub open spec fn scan_root(&self, j: int) -> Result<int, ParseError>
        decreases self.toks@.len() - j,
    {
        if j >= self.toks@.len() {
            match self.tail {
                Some(e) => Err(ParseError::Lexical(e)),
                None => Ok(j),
            }
        } else {
            match self.scan_root_entry(j) {
                Err(e) => Err(e),
                Ok(k) => if j < k <= self.toks@.len() {
                    self.scan_root(k)
                } else {
                    self.fail_at(j)
                },
            }
        }
    }

    proof fn lemma_tiles_push(&self, bs: Seq<int>, n: int, a: int, b: int, c: int)
        requires
            self.tiles(bs, n, a, b),
            b < c,
            0 <= n,
        ensures
            self.tiles(bs.push(c), n + 1, a, c),
            forall|k: int| 0 <= k <= n ==> bs.push(c)[k] == bs[k],
    {
        let t = bs.push(c);
        assert forall|k: int| 0 <= k < n + 1 implies #[trigger] t[k] < t[k + 1] by {
            if k < n {
                assert(t[k] == bs[k] && t[k + 1] == bs[k + 1]);
            }
        }
    }

    fn kind_at(&self, i: usize) -> (r: std::option::Option<TokenKind>)
        ensures
            r == self.kind(i as int),
            r is Some ==> i < self.toks.len(),
    {
        if i < self.toks.len() {
            Some(self.toks[i].kind)
        } else {
            None
        }
    }

    fn punct_at(&self, i: usize, p: Punct) -> (r: bool)
        ensures
            r == self.is_p(i as int, p),
            r ==> i < self.toks.len(),
    {
        match self.kind_at(i) {
            Some(TokenKind::Punct(q)) => q == p,
            _ => false,
        }
    }

    fn keyword_at(&self, i: usize, k: Keyword) -> (r: bool)
        ensures
            r == self.is_k(i as int, k),
            r ==> i < self.toks.len(),
    {
        match self.kind_at(i) {
            Some(TokenKind::Keyword(q)) => q == k,
            _ => false,
        }
    }

    fn word_at(&self, i: usize) -> (r: bool)
        ensures
            r == self.is_word(i as int),
            r ==> i < self.toks.len(),
    {
        match self.kind_at(i) {
            Some(TokenKind::Ident) => true,
            Some(TokenKind::Keyword(_)) => true,
            _ => false,
        }
    }

    fn fail(&self, i: usize) -> (e: ParseError)
        requires
            self.wf(),
        ensures
            e == self.error_at(i as int),
    {
        if i < self.toks.len() {
            ParseError::UnexpectedToken { position: self.toks[i].start, found: self.toks[i] }
        } else {
            match self.tail {
                Some(e) => ParseError::Lexical(e),
                None => ParseError::UnexpectedEof { position: self.chars.len() },
            }
        }
    }

    fn slice(&self, a: usize, b: usize) -> (r: String)
        requires
            self.wf(),
            a <= b <= self.chars.len(),
        ensures
            r@ == self.chars@.subrange(a as int, b as int),
    {
        self.text.substring_char(a, b).to_owned()
    }

    proof fn lemma_token(&self, i: int)
        requires
            self.wf(),
            0 <= i < self.toks@.len(),
        ensures
            self.toks@[i].start < self.toks@[i].end <= self.chars@.len(),
            token_at(self.chars@, self.toks@[i].start as int, self.toks@[i]),
    {
        assert(self.toks@[i].start == next_start(self.chars@, self.toks@, i));
    }

    /// A name: an identifier or a keyword.
    fn name(&self, i: usize) -> (r: Result<(String, usize), ParseError>)
        requires
            self.wf(),
        ensures
            match r {
                Ok((s, j)) => self.is_word(i as int) && s@ == self.word(i as int) && j == i + 1,
                Err(e) => !self.is_word(i as int) && e == self.error_at(i as int),
            },
    {
        if self.word_at(i) {
            proof {
                self.lemma_token(i as int);
            }
            Ok((self.slice(self.toks[i].start, self.toks[i].end), i + 1))
        } else {
            Err(self.fail(i))
        }
    }

    fn expect(&self, i: usize, p: Punct) -> (r: Result<usize, ParseError>)
        requires
            self.wf(),
        ensures
            match r {
                Ok(j) => self.is_p(i as int, p) && j == i + 1,
                Err(e) => !self.is_p(i as int, p) && e == self.error_at(i as int),
            },
    {
        if self.punct_at(i, p) {
            Ok(i + 1)
        } else {
            Err(self.fail(i))
        }
    }

    fn integer(&self, i: usize) -> (r: Result<(i64, usize), ParseError>)
        requires
            self.wf(),
        ensures
            match r {
                Ok((v, j)) => self.kind(i as int) == Some(TokenKind::Integer) && v == self.value(
                    i as int,
                ) && j == i + 1,
                Err(e) => self.kind(i as int) != Some(TokenKind::Integer) && e == self.error_at(
                    i as int,
                ),
            },
    {
        if self.kind_at(i) == Some(TokenKind::Integer) {
            Ok((self.toks[i].value, i + 1))
        } else {
            Err(self.fail(i))
        }
    }

    fn string(&self, i: usize) -> (r: Result<(String, usize), ParseError>)
        requires
            self.wf(),
        ensures
            match r {
                Ok((s, j)) => self.kind(i as int) == Some(TokenKind::Str) && s@ == self.content(
                    i as int,
                ) && j == i + 1,
                Err(e) => self.kind(i as int) != Some(TokenKind::Str) && e == self.error_at(
                    i as int,
                ),
            },
    {
        if self.kind_at(i) == Some(TokenKind::Str) {
            proof {
                self.lemma_token(i as int);
                let t = self.toks@[i as int];
                lemma_string_close(self.chars@, t.start + 1, self.chars@[t.start as int]);
            }
            Ok((self.slice(self.toks[i].start + 1, self.toks[i].end - 1), i + 1))
        } else {
            Err(self.fail(i))
        }
    }

    /// A comment token.
    fn comment(&self, i: usize) -> (r: Result<(Comment, usize), ParseError>)
        requires
            self.wf(),
        ensures
            match r {
                Ok((c, j)) => j == i + 1 && self.comment_head(c, i as int, j as int),
                Err(e) => e == self.error_at(i as int) && !self.is_comment(i as int),
            },
    {
        match self.kind_at(i) {
            Some(TokenKind::LineComment) => {
                proof {
                    self.lemma_token(i as int);
                    let p = self.toks@[i as int].start as int;
                    lemma_line_run(self.chars@, p + 2);
                    assert(line_run(self.chars@, p) == line_run(self.chars@, p + 1));
                    assert(line_run(self.chars@, p + 1) == line_run(self.chars@, p + 2));
                }
                let src = self.slice(self.toks[i].start, self.toks[i].end);
                Ok((Comment::single_line(src.as_str()), i + 1))
            },
            Some(TokenKind::BlockComment) => {
                proof {
                    self.lemma_token(i as int);
                    lemma_block_close(self.chars@, self.toks@[i as int].start + 2);
                }
                let src = self.slice(self.toks[i].start, self.toks[i].end);
                Ok((Comment::multi_line(src.as_str()), i + 1))
            },
            _ => Err(self.fail(i)),
        }
    }
}


impl<'a> Input<'a> {
    /// An option key: `name`, `(name)` or `(name).suffix`.
    fn option_key(&self, i: usize) -> (r: Result<(String, usize), ParseError>)
        requires
            self.wf(),
        ensures
            match r {
                Ok((k, j)) => self.scan_key(i as int) == Ok::<int, ParseError>(j as int) && self.key_ok(i as int) && k@ == self.key_text(i as int) && j == self.key_end(i as int) && j
                    <= self.toks.len(),
                Err(e) => self.scan_key(i as int) == Err::<int, ParseError>(e) && self.reported(e),
            },
    {
        if self.word_at(i) {
            return self.name(i);
        }
        let j = self.expect(i, Punct::LParen)?;
        let (inner, j) = self.name(j)?;
        let j = self.expect(j, Punct::RParen)?;
        let mut key = String::new();
        proof {
            reveal_strlit("(");
            reveal_strlit(")");
            assert("("@ =~= seq!['(']);
            assert(")"@ =~= seq![')']);
        }
        key.append("(");
        key.append(inner.as_str());
        key.append(")");
        if self.word_at(j) {
            let (suffix, j) = self.name(j)?;
            key.append(suffix.as_str());
            Ok((key, j))
        } else {
            Ok((key, j))
        }
    }

    /// An option value: a boolean, an integer, a quoted string, an aggregate
    /// literal in braces, or any other word as an identifier.
    fn option_value(&self, i: usize) -> (r: Result<(MapValue, usize), ParseError>)
        requires
            self.wf(),
        ensures
            match r {
                Ok((v, j)) => self.scan_value(i as int) == Ok::<int, ParseError>(j as int) && i < j <= self.toks.len() && self.value_read(v, i as int, j as int),
                Err(e) => self.scan_value(i as int) == Err::<int, ParseError>(e) && self.reported(e),
            },
        decreases self.toks@.len() - i, 1int,
    {
        match self.kind_at(i) {
            Some(TokenKind::Keyword(Keyword::True)) => Ok((MapValue::Boolean(true), i + 1)),
            Some(TokenKind::Keyword(Keyword::False)) => Ok((MapValue::Boolean(false), i + 1)),
            Some(TokenKind::Integer) => {
                let (v, j) = self.integer(i)?;
                Ok((MapValue::Integer(v), j))
            },
            Some(TokenKind::Str) => {
                let (v, j) = self.string(i)?;
                Ok((MapValue::String(v), j))
            },
            Some(TokenKind::Ident) | Some(TokenKind::Keyword(_)) => {
                let (v, j) = self.name(i)?;
                Ok((MapValue::Ident(v), j))
            },
            _ => {
                let (es, j) = self.aggregate(i)?;
                let v = MapValue::Aggregate(es);
                assert(self.aggregate_read(v->Aggregate_0@, i as int, j as int));
                Ok((v, j))
            },
        }
    }

    /// An aggregate literal `{ key: value ... }`. Pairs may be separated by
    /// `,` or `;`, and the colon may be left out before a nested aggregate.
    /// A key given again replaces the earlier value in its place.
    fn aggregate(&self, i: usize) -> (r: Result<(Vec<MapEntry>, usize), ParseError>)
        requires
            self.wf(),
        ensures
            match r {
                Ok((es, j)) => self.scan_aggregate(i as int) == Ok::<int, ParseError>(j as int) && self.aggregate_read(es@, i as int, j as int) && i < j
                    <= self.toks.len() && keys_unique(es@),
                Err(e) => self.scan_aggregate(i as int) == Err::<int, ParseError>(e) && self.reported(e),
            },
        decreases self.toks@.len() - i, 0int,
    {
        let mut j = self.expect(i, Punct::LBrace)?;
        let mut es: Vec<MapEntry> = Vec::new();
        let ghost mut ps: Seq<MapEntry> = Seq::empty();
        let ghost mut bs: Seq<int> = seq![j as int];
        while !self.punct_at(j, Punct::RBrace)
            invariant
                self.wf(),
                self.scan_pairs(j as int) == self.scan_aggregate(i as int),
                i < j <= self.toks.len(),
                self.is_p(i as int, Punct::LBrace),
                keys_unique(es@),
                es@ == collect_entries(ps),
                self.tiles(bs, ps.len() as int, i + 1, j as int),
                forall|k: int|
                    0 <= k < ps.len() ==> self.is_word(bs[k]) && (#[trigger] ps[k]).key@
                        == self.word(bs[k]) && self.scalar_read(
                        ps[k].value,
                        self.pair_value_at(bs[k]),
                        self.value_stop(bs[k + 1]),
                    ),
            decreases self.toks@.len() - j,
        {
            let (key, k) = self.name(j)?;
            let k = if self.punct_at(k, Punct::Colon) {
                k + 1
            } else {
                k
            };
            let (value, k) = self.option_value(k)?;
            let k = if self.punct_at(k, Punct::Comma) || self.punct_at(k, Punct::Semicolon) {
                k + 1
            } else {
                k
            };
            let mut found: usize = 0;
            while found < es.len() && !(es[found].key == key)
                invariant
                    found <= es.len(),
                    forall|m: int| 0 <= m < found ==> es@[m].key@ != key@,
                decreases es.len() - found,
            {
                found = found + 1;
            }
            let ghost old_es = es@;
            let ghost old_ps = ps;
            let entry = MapEntry { key, value };
            let ghost ge = entry;
            if found < es.len() {
                assert(old_es[found as int].key@ == ge.key@);
                es.set(found, entry);
                assert forall|a: int, b: int| 0 <= a < b < es@.len() implies es@[a].key@
                    != es@[b].key@ by {
                    assert(old_es[a].key@ != old_es[b].key@);
                }
                proof {
                    let c = choose|c: int| 0 <= c < old_es.len() && old_es[c].key@ == ge.key@;
                    assert(c == found as int);
                    assert(es@ =~= insert_entry(old_es, ge));
                }
            } else {
                es.push(entry);
                assert forall|a: int, b: int| 0 <= a < b < es@.len() implies es@[a].key@
                    != es@[b].key@ by {
                    if b < old_es.len() {
                        assert(old_es[a].key@ != old_es[b].key@);
                    }
                }
                assert(es@ =~= insert_entry(old_es, ge));
            }
            proof {
                ps = ps.push(ge);
                assert(ps.drop_last() =~= old_ps);
                bs = bs.push(k as int);
                assert forall|m: int| 0 <= m < ps.len() implies self.is_word(bs[m]) && (
                #[trigger] ps[m]).key@ == self.word(bs[m]) && self.scalar_read(
                    ps[m].value,
                    self.pair_value_at(bs[m]),
                    self.value_stop(bs[m + 1]),
                ) by {
                    if m < old_ps.len() {
                        assert(ps[m] == old_ps[m]);
                    }
                }
            }
            j = k;
        }
        assert(self.aggregate_at(es@, ps, bs, i as int, j + 1));
        Ok((es, j + 1))
    }
}


impl<'a> Input<'a> {
    /// `key = value`, as in an option statement or a bracketed option list.
    fn option_pair(&self, i: usize) -> (r: Result<(crate::ast::Option, usize), ParseError>)
        requires
            self.wf(),
        ensures
            match r {
                Ok((o, j)) => self.scan_pair(i as int) == Ok::<int, ParseError>(j as int) && self.pair_read(o, i as int, j as int) && self.key_end(i as int) + 1 < j
                    <= self.toks.len(),
                Err(e) => self.scan_pair(i as int) == Err::<int, ParseError>(e) && self.reported(e),
            },
    {
        let (key, j) = self.option_key(i)?;
        let j = self.expect(j, Punct::Equals)?;
        let (value, j) = self.option_value(j)?;
        let o = crate::ast::Option { key, value };
        proof {
            reveal(Input::pair_read);
        }
        Ok((o, j))
    }

    /// `option key = value;`
    fn option_statement(&self, i: usize) -> (r: Result<(crate::ast::Option, usize), ParseError>)
        requires
            self.wf(),
        ensures
            match r {
                Ok((o, j)) => self.scan_option_statement(i as int) == Ok::<int, ParseError>(j as int) && self.option_head(o, i as int, j as int) && self.is_p(j - 1, Punct::Semicolon)
                    && i < j <= self.toks.len(),
                Err(e) => self.scan_option_statement(i as int) == Err::<int, ParseError>(e) && self.reported(e),
            },
    {
        if !self.keyword_at(i, Keyword::Option) {
            return Err(self.fail(i));
        }
        let (o, j) = self.option_pair(i + 1)?;
        let j = self.expect(j, Punct::Semicolon)?;
        Ok((o, j))
    }

    /// An optional bracketed option list `[k = v, ...]`; absent, it is empty.
    #[verifier::rlimit(100)]
    fn option_list(&self, i: usize) -> (r: Result<(Vec<crate::ast::Option>, usize), ParseError>)
        requires
            self.wf(),
            i <= self.toks.len(),
        ensures
            match r {
                Ok((os, j)) => self.scan_option_list(i as int) == Ok::<int, ParseError>(j as int) && i <= j <= self.toks.len() && self.options_at(os@, i as int, j as int) && (
                !self.is_p(i as int, Punct::LBracket) ==> j == i) && (self.is_p(
                    i as int,
                    Punct::LBracket,
                ) ==> j > i && self.options_read(os@, i as int, j - 1)),
                Err(e) => self.scan_option_list(i as int) == Err::<int, ParseError>(e) && self.reported(e),
            },
    {
        let mut os: Vec<crate::ast::Option> = Vec::new();
        if !self.punct_at(i, Punct::LBracket) {
            return Ok((os, i));
        }
        let (o, mut j) = self.option_pair(i + 1)?;
        os.push(o);
        let ghost mut bs: Seq<int> = seq![i + 1, j + 1];
        while self.punct_at(j, Punct::Comma)
            invariant
                self.wf(),
                self.scan_more_options(j as int) == self.scan_option_list(i as int),
                i < j <= self.toks.len(),
                self.is_p(i as int, Punct::LBracket),
                os@.len() > 0,
                self.tiles(bs, os@.len() as int, i + 1, j + 1),
                forall|k: int|
                    0 <= k < os@.len() ==> self.pair_read(#[trigger] os@[k], bs[k], bs[k + 1] - 1) && (k + 1
                        < os@.len() ==> self.is_p(bs[k + 1] - 1, Punct::Comma)),
            decreases self.toks@.len() - j,
        {
            let (o, k) = self.option_pair(j + 1)?;
            let ghost old_bs = bs;
            let ghost old_os = os@;
            let ghost go = o;
            proof {
                self.lemma_tiles_push(bs, old_os.len() as int, i + 1, j + 1, k + 1);
                bs = bs.push(k + 1);
            }
            os.push(o);
            assert(os@[old_os.len() as int] == go);
            assert(bs[old_os.len() as int] == j + 1);
            assert(bs[old_os.len() as int + 1] == k + 1);
            assert forall|m: int|
                0 <= m < os@.len() implies self.pair_read(#[trigger] os@[m], bs[m], bs[m + 1] - 1) && (m + 1
                < os@.len() ==> self.is_p(bs[m + 1] - 1, Punct::Comma)) by {
                if m < old_os.len() {
                    assert(os@[m] == old_os[m]);
                    assert(bs[m] == old_bs[m]);
                    assert(bs[m + 1] == old_bs[m + 1]);
                    if m + 1 < old_os.len() {
                        assert(bs[m + 1] == old_bs[m + 1]);
                    }
                }
            }
            assert(self.tiles(bs, os@.len() as int, i + 1, k + 1));
            j = k;
        }
        let j = self.expect(j, Punct::RBracket)?;
        let ghost b = j - 1;
        proof {
            assert(self.tiles(bs, os@.len() as int, i + 1, b + 1));
            assert(self.options_read(os@, i as int, b));
        }
        Ok((os, j))
    }

    /// A field type: a name, or `map<K, V>`.
    fn field_type(&self, i: usize) -> (r: Result<(String, usize), ParseError>)
        requires
            self.wf(),
        ensures
            match r {
                Ok((t, j)) => self.scan_field_type(i as int) == Ok::<int, ParseError>(j as int) && self.type_ok(i as int) && t@ == self.type_text(i as int) && j == self.type_end(i as int) && j
                    <= self.toks.len(),
                Err(e) => self.scan_field_type(i as int) == Err::<int, ParseError>(e) && self.reported(e),
            },
    {
        if !(self.keyword_at(i, Keyword::MapType) && self.punct_at(i + 1, Punct::LAngle)) {
            return self.name(i);
        }
        let (k, j) = self.name(i + 2)?;
        let j = self.expect(j, Punct::Comma)?;
        let (v, j) = self.name(j)?;
        let j = self.expect(j, Punct::RAngle)?;
        let mut t = String::new();
        proof {
            reveal_strlit("map<");
            reveal_strlit(", ");
            reveal_strlit(">");
            assert("map<"@ =~= seq!['m', 'a', 'p', '<']);
            assert(", "@ =~= seq![',', ' ']);
            assert(">"@ =~= seq!['>']);
        }
        t.append("map<");
        t.append(k.as_str());
        t.append(", ");
        t.append(v.as_str());
        t.append(">");
        Ok((t, j))
    }

    /// `[modifier] type name = number [options];`
    fn field(&self, i: usize) -> (r: Result<(Field, usize), ParseError>)
        requires
            self.wf(),
        ensures
            match r {
                Ok((f, j)) => self.scan_field(i as int) == Ok::<int, ParseError>(j as int) && self.field_head(f, i as int, j as int) && self.is_p(j - 1, Punct::Semicolon)
                    && i < j <= self.toks.len(),
                Err(e) => self.scan_field(i as int) == Err::<int, ParseError>(e) && self.reported(e),
            },
    {
        let modifier = if i < self.toks.len() && (i + 1 >= self.toks.len() || !self.punct_at(
            i + 2,
            Punct::Equals,
        )) {
            match self.toks[i].kind {
                TokenKind::Keyword(Keyword::Optional) => Some(FieldModifier::Optional),
                TokenKind::Keyword(Keyword::Required) => Some(FieldModifier::Required),
                TokenKind::Keyword(Keyword::Repeated) => Some(FieldModifier::Repeated),
                _ => None,
            }
        } else {
            None
        };
        let o = if modifier.is_some() {
            i + 1
        } else {
            i
        };
        let (typ, j) = self.field_type(o)?;
        let (ident, j) = self.name(j)?;
        let j = self.expect(j, Punct::Equals)?;
        let (index, j) = self.integer(j)?;
        let (options, j) = self.option_list(j)?;
        let j = self.expect(j, Punct::Semicolon)?;
        Ok((Field { modifier, typ, ident, index, options }, j))
    }

    /// `name = number [options];` inside an enum.
    fn enum_variant(&self, i: usize) -> (r: Result<(EnumVariant, usize), ParseError>)
        requires
            self.wf(),
        ensures
            match r {
                Ok((v, j)) => self.scan_variant(i as int) == Ok::<int, ParseError>(j as int) && self.variant_head(v, i as int, j as int) && self.is_p(j - 1, Punct::Semicolon)
                    && i < j <= self.toks.len(),
                Err(e) => self.scan_variant(i as int) == Err::<int, ParseError>(e) && self.reported(e),
            },
    {
        let (ident, j) = self.name(i)?;
        let j = self.expect(j, Punct::Equals)?;
        let (value, j) = self.integer(j)?;
        let (options, j) = self.option_list(j)?;
        let j = self.expect(j, Punct::Semicolon)?;
        Ok((EnumVariant { ident, value, options }, j))
    }

    /// One range: `N` is `[N, N+1)`, `N to M` is `[N, M+1)` and `N to max`
    /// has no upper bound.
    fn range(&self, i: usize) -> (r: Result<(Range, usize), ParseError>)
        requires
            self.wf(),
        ensures
            match r {
                Ok((g, j)) => self.scan_range(i as int) == Ok::<int, ParseError>(j as int) && self.range_read(g, i as int) && j == i + self.range_width(i as int),
                Err(e) => (self.kind(i as int) == Some(TokenKind::Integer) && self.is_k(
                    i + 1,
                    Keyword::To,
                ) && !self.is_k(i + 2, Keyword::Max) && self.kind(i + 2) == Some(
                    TokenKind::Integer,
                ) ==> e == ParseError::RangeOverflow { position: self.toks@[i + 2].start }) && self.scan_range(i as int) == Err::<int, ParseError>(e) && self.reported(e),
            },
    {
        let (a, j) = self.integer(i)?;
        if self.keyword_at(j, Keyword::To) {
            if self.keyword_at(j + 1, Keyword::Max) {
                return Ok((Range::From(a), j + 2));
            }
            let (b, k) = self.integer(j + 1)?;
            if b == i64::MAX {
                return Err(ParseError::RangeOverflow { position: self.toks[j + 1].start });
            }
            Ok((Range::Default(a, b + 1), k))
        } else {
            if a == i64::MAX {
                return Err(ParseError::RangeOverflow { position: self.toks[i].start });
            }
            Ok((Range::Default(a, a + 1), j))
        }
    }

    /// A comma-separated list of ranges.
    #[verifier::rlimit(100)]
    fn ranges(&self, i: usize) -> (r: Result<(Vec<Range>, usize), ParseError>)
        requires
            self.wf(),
        ensures
            match r {
                Ok((rs, j)) => self.scan_ranges(i as int) == Ok::<int, ParseError>(j as int) && self.ranges_read(rs@, i as int, j as int) && !self.is_p(
                    j as int,
                    Punct::Comma,
                ) && self.kind(i as int) == Some(TokenKind::Integer) && i < j <= self.toks.len(),
                Err(e) => self.scan_ranges(i as int) == Err::<int, ParseError>(e) && self.reported(e),
            },
    {
        let mut rs: Vec<Range> = Vec::new();
        let (g, mut j) = self.range(i)?;
        rs.push(g);
        let ghost mut bs: Seq<int> = seq![i as int, j + 1];
        while self.punct_at(j, Punct::Comma)
            invariant
                self.wf(),
                self.scan_more_ranges(j as int) == self.scan_ranges(i as int),
                i < j <= self.toks.len(),
                rs@.len() > 0,
                self.kind(i as int) == Some(TokenKind::Integer),
                self.tiles(bs, rs@.len() as int, i as int, j + 1),
                forall|k: int|
                    0 <= k < rs@.len() ==> self.range_read(#[trigger] rs@[k], bs[k]) && bs[k + 1]
                        == bs[k] + self.range_width(bs[k]) + 1 && (k + 1 < rs@.len() ==> self.is_p(
                        bs[k] + self.range_width(bs[k]),
                        Punct::Comma,
                    )),
            decreases self.toks@.len() - j,
        {
            let (g, k) = self.range(j + 1)?;
            let ghost old_bs = bs;
            let ghost old_rs = rs@;
            proof {
                bs = bs.push(k + 1);
            }
            rs.push(g);
            assert forall|m: int|
                0 <= m < rs@.len() implies self.range_read(#[trigger] rs@[m], bs[m]) && bs[m + 1]
                    == bs[m] + self.range_width(bs[m]) + 1 && (m + 1 < rs@.len() ==> self.is_p(
                    bs[m] + self.range_width(bs[m]),
                    Punct::Comma,
                )) by {
                if m < old_rs.len() {
                    assert(rs@[m] == old_rs[m]);
                    assert(bs[m] == old_bs[m]);
                    assert(bs[m + 1] == old_bs[m + 1]);
                }
            }
            j = k;
        }
        assert(self.ranges_at(rs@, bs, i as int, j as int));
        Ok((rs, j))
    }

    /// A comma-separated list of quoted names.
    fn quoted_names(&self, i: usize) -> (r: Result<(Vec<String>, usize), ParseError>)
        requires
            self.wf(),
        ensures
            match r {
                Ok((ns, j)) => self.scan_names(i as int) == Ok::<int, ParseError>(j as int) && self.names_read(ns@, i as int) && j == i + 2 * ns@.len() - 1
                    && !self.is_p(j as int, Punct::Comma) && j <= self.toks.len(),
                Err(e) => self.scan_names(i as int) == Err::<int, ParseError>(e) && self.reported(e),
            },
    {
        let mut ns: Vec<String> = Vec::new();
        let (n, mut j) = self.string(i)?;
        ns.push(n);
        while self.punct_at(j, Punct::Comma)
            invariant
                self.wf(),
                self.scan_more_names(j as int) == self.scan_names(i as int),
                i < j <= self.toks.len(),
                j == i + 2 * ns@.len() - 1,
                self.names_read(ns@, i as int),
            decreases self.toks@.len() - j,
        {
            let (n, k) = self.string(j + 1)?;
            let ghost old_ns = ns@;
            ns.push(n);
            assert forall|m: int|
                #![trigger ns@[m]]
                0 <= m < ns@.len() implies self.name_read(ns@[m], i + 2 * m) && (m > 0
                    ==> self.is_p(i + 2 * m - 1, Punct::Comma)) by {
                if m < old_ns.len() {
                    assert(ns@[m] == old_ns[m]);
                } else {
                    assert(i + 2 * m == j + 1);
                }
            }
            assert(self.names_read(ns@, i as int));
            j = k;
        }
        Ok((ns, j))
    }

    /// `reserved` with either quoted names or ranges, never both, then `;`.
    fn reserved(&self, i: usize) -> (r: Result<(MessageEntry, usize), ParseError>)
        requires
            self.wf(),
        ensures
            match r {
                Ok((e, j)) => self.scan_reserved(i as int) == Ok::<int, ParseError>(j as int) && self.message_entry_head(e, i as int, j as int) && (if self.kind(i + 1)
                    == Some(TokenKind::Str) {
                    e is ReservedIdents
                } else {
                    e is ReservedIndices
                }) && i < j <= self.toks.len(),
                Err(e) => self.scan_reserved(i as int) == Err::<int, ParseError>(e) && self.reported(e),
            },
    {
        if !self.keyword_at(i, Keyword::Reserved) {
            return Err(self.fail(i));
        }
        if self.kind_at(i + 1) == Some(TokenKind::Str) {
            let (ns, j) = self.quoted_names(i + 1)?;
            let j = self.expect(j, Punct::Semicolon)?;
            Ok((MessageEntry::ReservedIdents(ReservedIdents(ns)), j))
        } else {
            let (rs, j) = self.ranges(i + 1)?;
            let j = self.expect(j, Punct::Semicolon)?;
            Ok((MessageEntry::ReservedIndices(ReservedIndices(rs)), j))
        }
    }

    /// `extensions` ranges `;`
    fn extensions(&self, i: usize) -> (r: Result<(Extensions, usize), ParseError>)
        requires
            self.wf(),
        ensures
            match r {
                Ok((e, j)) => self.scan_extensions(i as int) == Ok::<int, ParseError>(j as int) && self.ranges_statement(Keyword::Extensions, e.0@, i as int, j as int)
                    && i < j <= self.toks.len(),
                Err(e) => self.scan_extensions(i as int) == Err::<int, ParseError>(e) && self.reported(e),
            },
    {
        if !self.keyword_at(i, Keyword::Extensions) {
            return Err(self.fail(i));
        }
        let (rs, j) = self.ranges(i + 1)?;
        let j = self.expect(j, Punct::Semicolon)?;
        Ok((Extensions(rs), j))
    }
}


impl<'a> Input<'a> {
    /// `oneof name { ... }`: comments, options and fields.
    #[verifier::rlimit(80)]
    fn oneof(&self, i: usize) -> (r: Result<(OneOf, usize), ParseError>)
        requires
            self.wf(),
        ensures
            match r {
                Ok((c, j)) => self.scan_block(Keyword::Oneof, i as int) == Ok::<int, ParseError>(j as int) && self.block_head(Keyword::Oneof, c.ident@, i as int) && self.oneof_body(
                    c.entries@,
                    i + 3,
                    j - 1,
                ) && self.is_p(j - 1, Punct::RBrace) && i + 3 <= j <= self.toks.len(),
                Err(e) => self.scan_block(Keyword::Oneof, i as int) == Err::<int, ParseError>(e) && self.reported(e),
            },
    {
        if !self.keyword_at(i, Keyword::Oneof) {
            return Err(self.fail(i));
        }
        let (ident, j) = self.name(i + 1)?;
        let mut j = self.expect(j, Punct::LBrace)?;
        let mut entries: Vec<OneOfEntry> = Vec::new();
        let ghost mut bs: Seq<int> = seq![j as int];
        while !self.punct_at(j, Punct::RBrace)
            invariant
                self.wf(),
                self.scan_oneof_body(j as int) == self.scan_block(Keyword::Oneof, i as int),
                i + 3 <= j <= self.toks.len(),
                self.tiles(bs, entries@.len() as int, i + 3, j as int),
                forall|k: int|
                    0 <= k < entries@.len() ==> self.oneof_entry_head(
                        #[trigger] entries@[k],
                        bs[k],
                        bs[k + 1],
                    ),
            decreases self.toks@.len() - j,
        {
            let (e, k) = self.oneof_entry(j)?;
            proof {
                bs = bs.push(k as int);
            }
            entries.push(e);
            j = k;
        }
        assert(self.tiles(bs, entries@.len() as int, i + 3, j as int));
        Ok((OneOf { ident, entries }, j + 1))
    }

    /// `extend Type { ... }`: comments and fields.
    #[verifier::rlimit(80)]
    fn extend(&self, i: usize) -> (r: Result<(Extend, usize), ParseError>)
        requires
            self.wf(),
        ensures
            match r {
                Ok((c, j)) => self.scan_block(Keyword::Extend, i as int) == Ok::<int, ParseError>(j as int) && self.block_head(Keyword::Extend, c.typ@, i as int) && self.extend_body(
                    c.entries@,
                    i + 3,
                    j - 1,
                ) && self.is_p(j - 1, Punct::RBrace) && i + 3 <= j <= self.toks.len(),
                Err(e) => self.scan_block(Keyword::Extend, i as int) == Err::<int, ParseError>(e) && self.reported(e),
            },
    {
        if !self.keyword_at(i, Keyword::Extend) {
            return Err(self.fail(i));
        }
        let (typ, j) = self.name(i + 1)?;
        let mut j = self.expect(j, Punct::LBrace)?;
        let mut entries: Vec<ExtendEntry> = Vec::new();
        let ghost mut bs: Seq<int> = seq![j as int];
        while !self.punct_at(j, Punct::RBrace)
            invariant
                self.wf(),
                self.scan_extend_body(j as int) == self.scan_block(Keyword::Extend, i as int),
                i + 3 <= j <= self.toks.len(),
                self.tiles(bs, entries@.len() as int, i + 3, j as int),
                forall|k: int|
                    0 <= k < entries@.len() ==> self.extend_entry_head(
                        #[trigger] entries@[k],
                        bs[k],
                        bs[k + 1],
                    ),
            decreases self.toks@.len() - j,
        {
            let (e, k) = self.extend_entry(j)?;
            proof {
                bs = bs.push(k as int);
            }
            entries.push(e);
            j = k;
        }
        assert(self.tiles(bs, entries@.len() as int, i + 3, j as int));
        Ok((Extend { typ, entries }, j + 1))
    }

    /// `enum name { ... }`: comments, options and values.
    #[verifier::rlimit(80)]
    fn enumeration(&self, i: usize) -> (r: Result<(Enum, usize), ParseError>)
        requires
            self.wf(),
        ensures
            match r {
                Ok((c, j)) => self.scan_block(Keyword::Enum, i as int) == Ok::<int, ParseError>(j as int) && self.block_head(Keyword::Enum, c.ident@, i as int) && self.enum_body(
                    c.entries@,
                    i + 3,
                    j - 1,
                ) && self.is_p(j - 1, Punct::RBrace) && i + 3 <= j <= self.toks.len(),
                Err(e) => self.scan_block(Keyword::Enum, i as int) == Err::<int, ParseError>(e) && self.reported(e),
            },
    {
        if !self.keyword_at(i, Keyword::Enum) {
            return Err(self.fail(i));
        }
        let (ident, j) = self.name(i + 1)?;
        let mut j = self.expect(j, Punct::LBrace)?;
        let mut entries: Vec<EnumEntry> = Vec::new();
        let ghost mut bs: Seq<int> = seq![j as int];
        while !self.punct_at(j, Punct::RBrace)
            invariant
                self.wf(),
                self.scan_enum_body(j as int) == self.scan_block(Keyword::Enum, i as int),
                i + 3 <= j <= self.toks.len(),
                self.tiles(bs, entries@.len() as int, i + 3, j as int),
                forall|k: int|
                    0 <= k < entries@.len() ==> self.enum_entry_head(
                        #[trigger] entries@[k],
                        bs[k],
                        bs[k + 1],
                    ),
            decreases self.toks@.len() - j,
        {
            let (e, k) = self.enum_entry(j)?;
            proof {
                bs = bs.push(k as int);
            }
            entries.push(e);
            j = k;
        }
        assert(self.tiles(bs, entries@.len() as int, i + 3, j as int));
        Ok((Enum { ident, entries }, j + 1))
    }

    /// `service name { ... }`: comments, options and rpcs.
    #[verifier::rlimit(80)]
    fn service(&self, i: usize) -> (r: Result<(Service, usize), ParseError>)
        requires
            self.wf(),
        ensures
            match r {
                Ok((c, j)) => self.scan_block(Keyword::Service, i as int) == Ok::<int, ParseError>(j as int) && self.block_head(Keyword::Service, c.ident@, i as int) && self.service_body(
                    c.entries@,
                    i + 3,
                    j - 1,
                ) && self.is_p(j - 1, Punct::RBrace) && i + 3 <= j <= self.toks.len(),
                Err(e) => self.scan_block(Keyword::Service, i as int) == Err::<int, ParseError>(e) && self.reported(e),
            },
    {
        if !self.keyword_at(i, Keyword::Service) {
            return Err(self.fail(i));
        }
        let (ident, j) = self.name(i + 1)?;
        let mut j = self.expect(j, Punct::LBrace)?;
        let mut entries: Vec<ServiceEntry> = Vec::new();
        let ghost mut bs: Seq<int> = seq![j as int];
        while !self.punct_at(j, Punct::RBrace)
            invariant
                self.wf(),
                self.scan_service_body(j as int) == self.scan_block(Keyword::Service, i as int),
                i + 3 <= j <= self.toks.len(),
                self.tiles(bs, entries@.len() as int, i + 3, j as int),
                forall|k: int|
                    0 <= k < entries@.len() ==> self.service_entry_head(
                        #[trigger] entries@[k],
                        bs[k],
                        bs[k + 1],
                    ),
            decreases self.toks@.len() - j,
        {
            let (e, k) = self.service_entry(j)?;
            proof {
                bs = bs.push(k as int);
            }
            entries.push(e);
            j = k;
        }
        assert(self.tiles(bs, entries@.len() as int, i + 3, j as int));
        Ok((Service { ident, entries }, j + 1))
    }

    /// `message name { ... }`, whose entries may nest to any depth.
    #[verifier::rlimit(80)]
    fn message(&self, i: usize) -> (r: Result<(Message, usize), ParseError>)
        requires
            self.wf(),
        ensures
            match r {
                Ok((c, j)) => self.scan_message(i as int) == Ok::<int, ParseError>(j as int) && self.block_head(Keyword::Message, c.ident@, i as int) && self.message_body(
                    c.entries@,
                    i + 3,
                    j - 1,
                ) && self.is_p(j - 1, Punct::RBrace) && i + 3 <= j <= self.toks.len(),
                Err(e) => self.scan_message(i as int) == Err::<int, ParseError>(e) && self.reported(e),
            },
        decreases self.toks@.len() - i, 0int,
    {
        if !self.keyword_at(i, Keyword::Message) {
            return Err(self.fail(i));
        }
        let (ident, j) = self.name(i + 1)?;
        let mut j = self.expect(j, Punct::LBrace)?;
        let mut entries: Vec<MessageEntry> = Vec::new();
        let ghost mut bs: Seq<int> = seq![j as int];
        while !self.punct_at(j, Punct::RBrace)
            invariant
                self.wf(),
                self.scan_message_body(j as int) == self.scan_message(i as int),
                i + 3 <= j <= self.toks.len(),
                self.tiles(bs, entries@.len() as int, i + 3, j as int),
                forall|k: int|
                    0 <= k < entries@.len() ==> self.message_entry_head(
                        #[trigger] entries@[k],
                        bs[k],
                        bs[k + 1],
                    ),
            decreases self.toks@.len() - j,
        {
            let (e, k) = self.message_entry(j)?;
            proof {
                bs = bs.push(k as int);
            }
            entries.push(e);
            j = k;
        }
        assert(self.tiles(bs, entries@.len() as int, i + 3, j as int));
        Ok((Message { ident, entries }, j + 1))
    }

    fn oneof_entry(&self, i: usize) -> (r: Result<(OneOfEntry, usize), ParseError>)
        requires
            self.wf(),
        ensures
            match r {
                Ok((e, j)) => self.scan_oneof_entry(i as int) == Ok::<int, ParseError>(j as int) && i < j <= self.toks.len() && self.oneof_entry_head(e, i as int, j as int),
                Err(e) => self.scan_oneof_entry(i as int) == Err::<int, ParseError>(e) && self.reported(e),
            },
    {
        match self.kind_at(i) {
            Some(TokenKind::LineComment) | Some(TokenKind::BlockComment) => {
                let (c, j) = self.comment(i)?;
                Ok((OneOfEntry::Comment(c), j))
            },
            Some(TokenKind::Keyword(Keyword::Option)) => {
                let (o, j) = self.option_statement(i)?;
                Ok((OneOfEntry::Option(o), j))
            },
            _ => {
                let (f, j) = self.field(i)?;
                Ok((OneOfEntry::Field(f), j))
            },
        }
    }

    fn extend_entry(&self, i: usize) -> (r: Result<(ExtendEntry, usize), ParseError>)
        requires
            self.wf(),
        ensures
            match r {
                Ok((e, j)) => self.scan_extend_entry(i as int) == Ok::<int, ParseError>(j as int) && i < j <= self.toks.len() && self.extend_entry_head(e, i as int, j as int),
                Err(e) => self.scan_extend_entry(i as int) == Err::<int, ParseError>(e) && self.reported(e),
            },
    {
        match self.kind_at(i) {
            Some(TokenKind::LineComment) | Some(TokenKind::BlockComment) => {
                let (c, j) = self.comment(i)?;
                Ok((ExtendEntry::Comment(c), j))
            },
            _ => {
                let (f, j) = self.field(i)?;
                Ok((ExtendEntry::Field(f), j))
            },
        }
    }

    /// In an enum, `option` starts an option statement unless it names a
    /// value (`option = 1;`).
    fn enum_entry(&self, i: usize) -> (r: Result<(EnumEntry, usize), ParseError>)
        requires
            self.wf(),
        ensures
            match r {
                Ok((e, j)) => self.scan_enum_entry(i as int) == Ok::<int, ParseError>(j as int) && i < j <= self.toks.len() && self.enum_entry_head(e, i as int, j as int) && (
                self.is_k(i as int, Keyword::Option) && !self.is_p(i + 1, Punct::Equals) ==> e is Option),
                Err(e) => self.scan_enum_entry(i as int) == Err::<int, ParseError>(e) && self.reported(e),
            },
    {
        match self.kind_at(i) {
            Some(TokenKind::LineComment) | Some(TokenKind::BlockComment) => {
                let (c, j) = self.comment(i)?;
                Ok((EnumEntry::Comment(c), j))
            },
            Some(TokenKind::Keyword(Keyword::Option)) if !self.punct_at(i + 1, Punct::Equals) => {
                let (o, j) = self.option_statement(i)?;
                Ok((EnumEntry::Option(o), j))
            },
            _ => {
                let (v, j) = self.enum_variant(i)?;
                Ok((EnumEntry::Variant(v), j))
            },
        }
    }

    /// `rpc name ([stream] Request) returns ([stream] Reply)`, then `;` or `{}`.
    #[verifier::rlimit(80)]
    fn rpc(&self, i: usize) -> (r: Result<(Rpc, usize), ParseError>)
        requires
            self.wf(),
        ensures
            match r {
                Ok((c, j)) => self.scan_rpc(i as int) == Ok::<int, ParseError>(j as int) && self.rpc_head(c, i as int, j as int) && i < j <= self.toks.len(),
                Err(e) => self.scan_rpc(i as int) == Err::<int, ParseError>(e) && self.reported(e),
            },
    {
        if !self.keyword_at(i, Keyword::Rpc) {
            return Err(self.fail(i));
        }
        let (ident, j) = self.name(i + 1)?;
        let j = self.expect(j, Punct::LParen)?;
        let server_bound = self.keyword_at(j, Keyword::Stream) && !self.punct_at(
            j + 1,
            Punct::RParen,
        );
        let j = if server_bound {
            j + 1
        } else {
            j
        };
        let (request, j) = self.name(j)?;
        let j = self.expect(j, Punct::RParen)?;
        if !self.keyword_at(j, Keyword::Returns) {
            return Err(self.fail(j));
        }
        let j = self.expect(j + 1, Punct::LParen)?;
        let client_bound = self.keyword_at(j, Keyword::Stream) && !self.punct_at(
            j + 1,
            Punct::RParen,
        );
        let j = if client_bound {
            j + 1
        } else {
            j
        };
        let (reply, j) = self.name(j)?;
        let j = self.expect(j, Punct::RParen)?;
        let j = if self.punct_at(j, Punct::LBrace) {
            self.expect(j + 1, Punct::RBrace)?
        } else {
            self.expect(j, Punct::Semicolon)?
        };
        Ok((Rpc { ident, request, reply, stream: RpcStream::new(server_bound, client_bound) }, j))
    }

    fn service_entry(&self, i: usize) -> (r: Result<(ServiceEntry, usize), ParseError>)
        requires
            self.wf(),
        ensures
            match r {
                Ok((e, j)) => self.scan_service_entry(i as int) == Ok::<int, ParseError>(j as int) && i < j <= self.toks.len() && self.service_entry_head(e, i as int, j as int),
                Err(e) => self.scan_service_entry(i as int) == Err::<int, ParseError>(e) && self.reported(e),
            },
    {
        match self.kind_at(i) {
            Some(TokenKind::LineComment) | Some(TokenKind::BlockComment) => {
                let (c, j) = self.comment(i)?;
                Ok((ServiceEntry::Comment(c), j))
            },
            Some(TokenKind::Keyword(Keyword::Option)) => {
                let (o, j) = self.option_statement(i)?;
                Ok((ServiceEntry::Option(o), j))
            },
            _ => {
                let (c, j) = self.rpc(i)?;
                Ok((ServiceEntry::Rpc(c), j))
            },
        }
    }

    /// An entry of a message. A keyword that could start a statement does so
    /// only when the tokens after it have that statement's shape; otherwise
    /// it is the type of a field.
    #[verifier::rlimit(80)]
    fn message_entry(&self, i: usize) -> (r: Result<(MessageEntry, usize), ParseError>)
        requires
            self.wf(),
        ensures
            match r {
                Ok((e, j)) => self.scan_message_entry(i as int) == Ok::<int, ParseError>(j as int) && i < j <= self.toks.len() && self.message_entry_head(e, i as int, j as int),
                Err(e) => self.scan_message_entry(i as int) == Err::<int, ParseError>(e) && self.reported(e),
            },
        decreases self.toks@.len() - i, 1int,
    {
        if i >= self.toks.len() {
            return Err(self.fail(i));
        }
        let brace = self.toks.len() - i > 2 && self.punct_at(i + 2, Punct::LBrace);
        let next = self.kind_at(i + 1);
        match self.kind_at(i) {
            Some(TokenKind::LineComment) | Some(TokenKind::BlockComment) => {
                let (c, j) = self.comment(i)?;
                Ok((MessageEntry::Comment(c), j))
            },
            Some(TokenKind::Keyword(Keyword::Option)) => {
                let (o, j) = self.option_statement(i)?;
                Ok((MessageEntry::Option(o), j))
            },
            Some(TokenKind::Keyword(Keyword::Message)) if brace => {
                let (m, j) = self.message(i)?;
                let g = MessageEntry::Message(m);
                assert(self.message_body(g->Message_0.entries@, i + 3, j - 1));
                Ok((g, j))
            },
            Some(TokenKind::Keyword(Keyword::Enum)) if brace => {
                let (m, j) = self.enumeration(i)?;
                let g = MessageEntry::Enum(m);
                assert(self.enum_body(g->Enum_0.entries@, i + 3, j - 1));
                Ok((g, j))
            },
            Some(TokenKind::Keyword(Keyword::Extend)) if brace => {
                let (m, j) = self.extend(i)?;
                let g = MessageEntry::Extend(m);
                assert(self.extend_body(g->Extend_0.entries@, i + 3, j - 1));
                Ok((g, j))
            },
            Some(TokenKind::Keyword(Keyword::Oneof)) if brace => {
                let (m, j) = self.oneof(i)?;
                let g = MessageEntry::OneOf(m);
                assert(self.oneof_body(g->OneOf_0.entries@, i + 3, j - 1));
                Ok((g, j))
            },
            Some(TokenKind::Keyword(Keyword::Reserved)) if next == Some(TokenKind::Integer)
                || next == Some(TokenKind::Str) => {
                let (e, j) = self.reserved(i)?;
                Ok((e, j))
            },
            Some(TokenKind::Keyword(Keyword::Extensions)) if next == Some(TokenKind::Integer) => {
                let (m, j) = self.extensions(i)?;
                let g = MessageEntry::Extensions(m);
                assert(self.ranges_statement(Keyword::Extensions, g->Extensions_0.0@, i as int, j as int));
                Ok((g, j))
            },
            _ => {
                let (f, j) = self.field(i)?;
                Ok((MessageEntry::Field(f), j))
            },
        }
    }
}


impl<'a> Input<'a> {
    /// A top-level statement.
    #[verifier::rlimit(80)]
    fn root_entry(&self, i: usize) -> (r: Result<(RootEntry, usize), ParseError>)
        requires
            self.wf(),
        ensures
            match r {
                Ok((e, j)) => self.scan_root_entry(i as int) == Ok::<int, ParseError>(j as int) && i < j <= self.toks.len() && self.root_entry_head(e, i as int, j as int),
                Err(e) => self.scan_root_entry(i as int) == Err::<int, ParseError>(e) && self.reported(e),
            },
    {
        match self.kind_at(i) {
            Some(TokenKind::LineComment) | Some(TokenKind::BlockComment) => {
                let (c, j) = self.comment(i)?;
                Ok((RootEntry::Comment(c), j))
            },
            Some(TokenKind::Keyword(Keyword::Syntax)) => {
                let j = self.expect(i + 1, Punct::Equals)?;
                let (v, j) = self.string(j)?;
                let j = self.expect(j, Punct::Semicolon)?;
                Ok((RootEntry::Syntax(v), j))
            },
            Some(TokenKind::Keyword(Keyword::Package)) => {
                let (v, j) = self.name(i + 1)?;
                let j = self.expect(j, Punct::Semicolon)?;
                Ok((RootEntry::Package(v), j))
            },
            Some(TokenKind::Keyword(Keyword::Import)) => {
                let j = if self.word_at(i + 1) {
                    i + 2
                } else {
                    i + 1
                };
                let (v, j) = self.string(j)?;
                let j = self.expect(j, Punct::Semicolon)?;
                Ok((RootEntry::Import(v), j))
            },
            Some(TokenKind::Keyword(Keyword::Option)) => {
                let (o, j) = self.option_statement(i)?;
                Ok((RootEntry::Option(o), j))
            },
            Some(TokenKind::Keyword(Keyword::Message)) => {
                let (m, j) = self.message(i)?;
                Ok((RootEntry::Message(m), j))
            },
            Some(TokenKind::Keyword(Keyword::Enum)) => {
                let (m, j) = self.enumeration(i)?;
                Ok((RootEntry::Enum(m), j))
            },
            Some(TokenKind::Keyword(Keyword::Extend)) => {
                let (m, j) = self.extend(i)?;
                Ok((RootEntry::Extend(m), j))
            },
            Some(TokenKind::Keyword(Keyword::Service)) => {
                let (m, j) = self.service(i)?;
                Ok((RootEntry::Service(m), j))
            },
            _ => Err(self.fail(i)),
        }
    }

    /// All statements of the document, in source order. A lexical error is
    /// reported only once every token before it has been accepted.
    pub fn root(&self) -> (r: Result<Vec<RootEntry>, ParseError>)
        requires
            self.wf(),
        ensures
            match r {
                Ok(es) => self.scan_root(0) == Ok::<int, ParseError>(self.toks@.len() as int) && self.tail is None && self.root_body(es@, 0, self.toks@.len() as int)
                    && es@.len() <= self.toks@.len(),
                Err(e) => self.scan_root(0) == Err::<int, ParseError>(e) && self.reported(e),
            },
            self.toks@.len() == 0 && self.tail is None ==> r is Ok,
    {
        let mut es: Vec<RootEntry> = Vec::new();
        let mut j: usize = 0;
        let ghost mut bs: Seq<int> = seq![0];
        while j < self.toks.len()
            invariant
                self.wf(),
                self.scan_root(j as int) == self.scan_root(0),
                j <= self.toks.len(),
                self.tiles(bs, es@.len() as int, 0, j as int),
                es@.len() <= j,
                forall|k: int|
                    0 <= k < es@.len() ==> self.root_entry_head(#[trigger] es@[k], bs[k], bs[k + 1]),
            decreases self.toks@.len() - j,
        {
            match self.root_entry(j) {
                Ok((e, k)) => {
                    proof {
                        bs = bs.push(k as int);
                    }
                    es.push(e);
                    j = k;
                },
                Err(e) => {
                    return Err(e);
                },
            }
        }
        assert(self.tiles(bs, es@.len() as int, 0, self.toks@.len() as int));
        match self.tail {
            Some(e) => Err(ParseError::Lexical(e)),
            None => Ok(es),
        }
    }
}

} // verus!
