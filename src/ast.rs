//! The syntax tree of a schema file.
//!
//! Every container keeps its entries in source order, comments included, so
//! that a tree reflects its document statement by statement. Text is held as
//! owned strings, so a tree never depends on the buffer it was read from.
use vstd::prelude::*;
use crate::parser::{collect_entries, insert_entry};

verus! {

/// A `reserved` or `extensions` range of field numbers.
/// `Default(start, end)` is the half-open interval `[start, end)`;
/// `From(start)` has no upper bound (the `to max` form).
#[derive(Clone, Copy, Debug, PartialEq, Eq, Structural)]
pub enum Range {
    Default(i64, i64),
    From(i64),
}

/// Option values and literal constants.
#[derive(Debug, PartialEq)]
pub enum MapValue {
    Boolean(bool),
    Integer(i64),
    Ident(String),
    String(String),
    Aggregate(Vec<MapEntry>),
}

/// One `key: value` pair of an aggregate literal.
#[derive(Debug, PartialEq)]
pub struct MapEntry {
    pub key: String,
    pub value: MapValue,
}

/// Whether no key occurs twice among `es`.
pub open spec fn keys_unique(es: Seq<MapEntry>) -> bool {
    forall|i: int, j: int| 0 <= i < j < es.len() ==> es[i].key@ != es[j].key@
}

/// An `option` statement, or one entry of a bracketed option list.
#[derive(Debug, PartialEq)]
pub struct Option {
    pub key: String,
    pub value: MapValue,
}

impl Option {
    pub fn new(key: &str, value: MapValue) -> (r: Self)
        ensures
            r.key@ == key@,
            r.value == value,
    {
        Option { key: key.to_owned(), value }
    }
}

#[derive(Clone, Copy, Debug, PartialEq, Eq, Structural)]
pub enum CommentType {
    SingleLine,
    MultiLine,
}

/// A character of the Unicode `White_Space` property.
pub open spec fn is_white_space(c: char) -> bool {
    ('\u{9}' <= c <= '\u{D}') || c == ' ' || c == '\u{85}' || c == '\u{A0}' || c == '\u{1680}'
        || ('\u{2000}' <= c <= '\u{200A}') || c == '\u{2028}' || c == '\u{2029}' || c == '\u{202F}'
        || c == '\u{205F}' || c == '\u{3000}'
}

/// `s` with leading and trailing white space removed.
pub open spec fn trimmed(s: Seq<char>) -> Seq<char>
    decreases s.len(),
{
    if s.len() > 0 && is_white_space(s[0]) {
        trimmed(s.drop_first())
    } else if s.len() > 0 && is_white_space(s.last()) {
        trimmed(s.drop_last())
    } else {
        s
    }
}

/// A comment: its form, its source text with delimiters, and that text with
/// delimiters and surrounding whitespace stripped.
#[derive(Debug, PartialEq)]
pub struct Comment {
    pub kind: CommentType,
    pub source: String,
    pub text: String,
}

/// `s[a..b]` with surrounding whitespace stripped.
fn trim_between(s: &str, a: usize, b: usize) -> (r: String)
    requires
        a <= b <= s@.len(),
    ensures
        r@ == trimmed(s@.subrange(a as int, b as int)),
{
    let mut lo = a;
    let mut hi = b;
    while lo < hi && (is_space_at(s, lo) || is_space_at(s, hi - 1))
        invariant
            a <= lo <= hi <= b <= s@.len(),
            trimmed(s@.subrange(lo as int, hi as int)) == trimmed(s@.subrange(a as int, b as int)),
        decreases hi - lo,
    {
        let ghost w = s@.subrange(lo as int, hi as int);
        if is_space_at(s, lo) {
            assert(w.drop_first() =~= s@.subrange(lo + 1, hi as int));
            lo = lo + 1;
        } else {
            assert(w.drop_last() =~= s@.subrange(lo as int, hi - 1));
            hi = hi - 1;
        }
    }
    s.substring_char(lo, hi).to_owned()
}

fn is_space_at(s: &str, i: usize) -> (r: bool)
    requires
        i < s@.len(),
    ensures
        r == is_white_space(s@[i as int]),
{
    let c = s.get_char(i);
    ('\u{9}' <= c && c <= '\u{D}') || c == ' ' || c == '\u{85}' || c == '\u{A0}' || c == '\u{1680}'
        || ('\u{2000}' <= c && c <= '\u{200A}') || c == '\u{2028}' || c == '\u{2029}' || c
        == '\u{202F}' || c == '\u{205F}' || c == '\u{3000}'
}

impl Comment {
    pub fn new(kind: CommentType, source: &str, text: &str) -> (r: Self)
        ensures
            r.kind == kind,
            r.source@ == source@,
            r.text@ == text@,
    {
        Comment { kind, text: text.to_owned(), source: source.to_owned() }
    }

    /// A `//` comment; `text` is what follows the two slashes, trimmed.
    pub fn single_line(source: &str) -> (r: Self)
        requires
            source@.len() >= 2,
            source@[0] == '/' && source@[1] == '/',
        ensures
            r.kind == CommentType::SingleLine,
            r.source@ == source@,
            r.text@ == trimmed(source@.subrange(2, source@.len() as int)),
    {
        let n = source.unicode_len();
        Comment { kind: CommentType::SingleLine, text: trim_between(source, 2, n), source: source.to_owned() }
    }

    /// A `/* */` comment; `text` is what stands between the delimiters, trimmed.
    pub fn multi_line(source: &str) -> (r: Self)
        requires
            source@.len() >= 4,
            source@[0] == '/' && source@[1] == '*',
            source@[source@.len() - 2] == '*' && source@[source@.len() - 1] == '/',
        ensures
            r.kind == CommentType::MultiLine,
            r.source@ == source@,
            r.text@ == trimmed(source@.subrange(2, source@.len() - 2)),
    {
        let n = source.unicode_len();
        Comment { kind: CommentType::MultiLine, text: trim_between(source, 2, n - 2), source: source.to_owned() }
    }
}

/// Top-level entries of a file.
#[derive(Debug, PartialEq)]
pub enum RootEntry {
    Comment(Comment),
    Syntax(String),
    Package(String),
    Import(String),
    Option(Option),
    Service(Service),
    Message(Message),
    Extend(Extend),
    Enum(Enum),
}

/// A `service` definition.
#[derive(Debug, PartialEq)]
pub struct Service {
    pub ident: String,
    pub entries: Vec<ServiceEntry>,
}

impl Service {
    pub fn new(ident: &str, entries: Vec<ServiceEntry>) -> (r: Self)
        ensures
            r.ident@ == ident@,
            r.entries == entries,
    {
        Service { ident: ident.to_owned(), entries }
    }
}

#[derive(Debug, PartialEq)]
pub enum ServiceEntry {
    Comment(Comment),
    Option(Option),
    Rpc(Rpc),
}

/// An `rpc` of a service.
#[derive(Debug, PartialEq)]
pub struct Rpc {
    pub ident: String,
    pub request: String,
    pub reply: String,
    pub stream: RpcStream,
}

impl Rpc {
    pub fn new(ident: &str, request: &str, reply: &str, stream: RpcStream) -> (r: Self)
        ensures
            r.ident@ == ident@,
            r.request@ == request@,
            r.reply@ == reply@,
            r.stream == stream,
    {
        Rpc { ident: ident.to_owned(), request: request.to_owned(), reply: reply.to_owned(), stream }
    }
}

/// Which sides of an rpc are streamed: `Unary` neither, `ServerBound` the request,
/// `ClientBound` the reply, `Bidirectional` both.
#[derive(Clone, Copy, Debug, PartialEq, Eq, Structural)]
pub enum RpcStream {
    Unary,
    ClientBound,
    ServerBound,
    Bidirectional,
}

/// The mode of an rpc whose request is streamed iff `server_bound` and whose
/// reply is streamed iff `client_bound`.
pub open spec fn stream_mode(server_bound: bool, client_bound: bool) -> RpcStream {
    if server_bound && client_bound {
        RpcStream::Bidirectional
    } else if server_bound {
        RpcStream::ServerBound
    } else if client_bound {
        RpcStream::ClientBound
    } else {
        RpcStream::Unary
    }
}

impl RpcStream {
    pub fn new(server_bound: bool, client_bound: bool) -> (r: Self)
        ensures
            r == stream_mode(server_bound, client_bound),
    {
        match (server_bound, client_bound) {
            (true, true) => RpcStream::Bidirectional,
            (true, false) => RpcStream::ServerBound,
            (false, true) => RpcStream::ClientBound,
            _ => RpcStream::Unary,
        }
    }
}

/// A `message` definition.
#[derive(Debug, PartialEq)]
pub struct Message {
    pub ident: String,
    pub entries: Vec<MessageEntry>,
}

impl Message {
    pub fn new(ident: &str, entries: Vec<MessageEntry>) -> (r: Self)
        ensures
            r.ident@ == ident@,
            r.entries == entries,
    {
        Message { ident: ident.to_owned(), entries }
    }

    pub fn empty(ident: &str) -> (r: Self)
        ensures
            r.ident@ == ident@,
            r.entries@.len() == 0,
    {
        Message { ident: ident.to_owned(), entries: Vec::new() }
    }
}

/// The ranges of a `reserved` statement.
#[derive(Debug, PartialEq)]
pub struct ReservedIndices(pub Vec<Range>);

/// The quoted names of a `reserved` statement.
#[derive(Debug, PartialEq)]
pub struct ReservedIdents(pub Vec<String>);

/// The ranges of an `extensions` statement.
#[derive(Debug, PartialEq)]
pub struct Extensions(pub Vec<Range>);

#[derive(Debug, PartialEq)]
pub enum MessageEntry {
    Comment(Comment),
    Option(Option),
    Field(Field),
    OneOf(OneOf),
    Message(Message),
    Extend(Extend),
    Enum(Enum),
    ReservedIndices(ReservedIndices),
    ReservedIdents(ReservedIdents),
    Extensions(Extensions),
}

#[derive(Clone, Copy, Debug, PartialEq, Eq, Structural)]
pub enum FieldModifier {
    Optional,
    Required,
    Repeated,
}

/// A field of a message, oneof or extend block.
#[derive(Debug, PartialEq)]
pub struct Field {
    pub modifier: std::option::Option<FieldModifier>,
    pub typ: String,
    pub ident: String,
    pub index: i64,
    pub options: Vec<Option>,
}

impl Field {
    pub fn new(
        modifier: std::option::Option<FieldModifier>,
        typ: &str,
        ident: &str,
        index: i64,
        options: Vec<Option>,
    ) -> (r: Self)
        ensures
            r.modifier == modifier,
            r.typ@ == typ@,
            r.ident@ == ident@,
            r.index == index,
            r.options == options,
    {
        Field { modifier, typ: typ.to_owned(), ident: ident.to_owned(), index, options }
    }
}

/// A `oneof` block of a message.
#[derive(Debug, PartialEq)]
pub struct OneOf {
    pub ident: String,
    pub entries: Vec<OneOfEntry>,
}

impl OneOf {
    pub fn new(ident: &str, entries: Vec<OneOfEntry>) -> (r: Self)
        ensures
            r.ident@ == ident@,
            r.entries == entries,
    {
        OneOf { ident: ident.to_owned(), entries }
    }
}

#[derive(Debug, PartialEq)]
pub enum OneOfEntry {
    Comment(Comment),
    Option(Option),
    Field(Field),
}

/// An `extend` block.
#[derive(Debug, PartialEq)]
pub struct Extend {
    pub typ: String,
    pub entries: Vec<ExtendEntry>,
}

impl Extend {
    pub fn new(typ: &str, entries: Vec<ExtendEntry>) -> (r: Self)
        ensures
            r.typ@ == typ@,
            r.entries == entries,
    {
        Extend { typ: typ.to_owned(), entries }
    }
}

#[derive(Debug, PartialEq)]
pub enum ExtendEntry {
    Comment(Comment),
    Field(Field),
}

/// An `enum` definition.
#[derive(Debug, PartialEq)]
pub struct Enum {
    pub ident: String,
    pub entries: Vec<EnumEntry>,
}

impl Enum {
    pub fn new(ident: &str, entries: Vec<EnumEntry>) -> (r: Self)
        ensures
            r.ident@ == ident@,
            r.entries == entries,
    {
        Enum { ident: ident.to_owned(), entries }
    }
}

#[derive(Debug, PartialEq)]
pub enum EnumEntry {
    Comment(Comment),
    Option(Option),
    Variant(EnumVariant),
}

/// One value of an enum.
#[derive(Debug, PartialEq)]
pub struct EnumVariant {
    pub ident: String,
    pub value: i64,
    pub options: Vec<Option>,
}

impl EnumVariant {
    pub fn new(ident: &str, value: i64, options: Vec<Option>) -> (r: Self)
        ensures
            r.ident@ == ident@,
            r.value == value,
            r.options == options,
    {
        EnumVariant { ident: ident.to_owned(), value, options }
    }
}

impl From<Comment> for RootEntry {
    fn from(v: Comment) -> Self {
        RootEntry::Comment(v)
    }
}

impl vstd::std_specs::convert::FromSpecImpl<Comment> for RootEntry {
    open spec fn obeys_from_spec() -> bool {
        true
    }

    open spec fn from_spec(v: Comment) -> Self {
        RootEntry::Comment(v)
    }
}

impl From<Option> for RootEntry {
    fn from(v: Option) -> Self {
        RootEntry::Option(v)
    }
}

impl vstd::std_specs::convert::FromSpecImpl<Option> for RootEntry {
    open spec fn obeys_from_spec() -> bool {
        true
    }

    open spec fn from_spec(v: Option) -> Self {
        RootEntry::Option(v)
    }
}

impl From<Service> for RootEntry {
    fn from(v: Service) -> Self {
        RootEntry::Service(v)
    }
}

impl vstd::std_specs::convert::FromSpecImpl<Service> for RootEntry {
    open spec fn obeys_from_spec() -> bool {
        true
    }

    open spec fn from_spec(v: Service) -> Self {
        RootEntry::Service(v)
    }
}

impl From<Message> for RootEntry {
    fn from(v: Message) -> Self {
        RootEntry::Message(v)
    }
}

impl vstd::std_specs::convert::FromSpecImpl<Message> for RootEntry {
    open spec fn obeys_from_spec() -> bool {
        true
    }

    open spec fn from_spec(v: Message) -> Self {
        RootEntry::Message(v)
    }
}

impl From<Extend> for RootEntry {
    fn from(v: Extend) -> Self {
        RootEntry::Extend(v)
    }
}

impl vstd::std_specs::convert::FromSpecImpl<Extend> for RootEntry {
    open spec fn obeys_from_spec() -> bool {
        true
    }

    open spec fn from_spec(v: Extend) -> Self {
        RootEntry::Extend(v)
    }
}

impl From<Enum> for RootEntry {
    fn from(v: Enum) -> Self {
        RootEntry::Enum(v)
    }
}

impl vstd::std_specs::convert::FromSpecImpl<Enum> for RootEntry {
    open spec fn obeys_from_spec() -> bool {
        true
    }

    open spec fn from_spec(v: Enum) -> Self {
        RootEntry::Enum(v)
    }
}

impl From<Comment> for ServiceEntry {
    fn from(v: Comment) -> Self {
        ServiceEntry::Comment(v)
    }
}

impl vstd::std_specs::convert::FromSpecImpl<Comment> for ServiceEntry {
    open spec fn obeys_from_spec() -> bool {
        true
    }

    open spec fn from_spec(v: Comment) -> Self {
        ServiceEntry::Comment(v)
    }
}

impl From<Option> for ServiceEntry {
    fn from(v: Option) -> Self {
        ServiceEntry::Option(v)
    }
}

impl vstd::std_specs::convert::FromSpecImpl<Option> for ServiceEntry {
    open spec fn obeys_from_spec() -> bool {
        true
    }

    open spec fn from_spec(v: Option) -> Self {
        ServiceEntry::Option(v)
    }
}

impl From<Rpc> for ServiceEntry {
    fn from(v: Rpc) -> Self {
        ServiceEntry::Rpc(v)
    }
}

impl vstd::std_specs::convert::FromSpecImpl<Rpc> for ServiceEntry {
    open spec fn obeys_from_spec() -> bool {
        true
    }

    open spec fn from_spec(v: Rpc) -> Self {
        ServiceEntry::Rpc(v)
    }
}

impl From<Comment> for MessageEntry {
    fn from(v: Comment) -> Self {
        MessageEntry::Comment(v)
    }
}

impl vstd::std_specs::convert::FromSpecImpl<Comment> for MessageEntry {
    open spec fn obeys_from_spec() -> bool {
        true
    }

    open spec fn from_spec(v: Comment) -> Self {
        MessageEntry::Comment(v)
    }
}

impl From<Option> for MessageEntry {
    fn from(v: Option) -> Self {
        MessageEntry::Option(v)
    }
}

impl vstd::std_specs::convert::FromSpecImpl<Option> for MessageEntry {
    open spec fn obeys_from_spec() -> bool {
        true
    }

    open spec fn from_spec(v: Option) -> Self {
        MessageEntry::Option(v)
    }
}

impl From<Field> for MessageEntry {
    fn from(v: Field) -> Self {
        MessageEntry::Field(v)
    }
}

impl vstd::std_specs::convert::FromSpecImpl<Field> for MessageEntry {
    open spec fn obeys_from_spec() -> bool {
        true
    }

    open spec fn from_spec(v: Field) -> Self {
        MessageEntry::Field(v)
    }
}

impl From<OneOf> for MessageEntry {
    fn from(v: OneOf) -> Self {
        MessageEntry::OneOf(v)
    }
}

impl vstd::std_specs::convert::FromSpecImpl<OneOf> for MessageEntry {
    open spec fn obeys_from_spec() -> bool {
        true
    }

    open spec fn from_spec(v: OneOf) -> Self {
        MessageEntry::OneOf(v)
    }
}

impl From<Message> for MessageEntry {
    fn from(v: Message) -> Self {
        MessageEntry::Message(v)
    }
}

impl vstd::std_specs::convert::FromSpecImpl<Message> for MessageEntry {
    open spec fn obeys_from_spec() -> bool {
        true
    }

    open spec fn from_spec(v: Message) -> Self {
        MessageEntry::Message(v)
    }
}

impl From<Extend> for MessageEntry {
    fn from(v: Extend) -> Self {
        MessageEntry::Extend(v)
    }
}

impl vstd::std_specs::convert::FromSpecImpl<Extend> for MessageEntry {
    open spec fn obeys_from_spec() -> bool {
        true
    }

    open spec fn from_spec(v: Extend) -> Self {
        MessageEntry::Extend(v)
    }
}

impl From<Enum> for MessageEntry {
    fn from(v: Enum) -> Self {
        MessageEntry::Enum(v)
    }
}

impl vstd::std_specs::convert::FromSpecImpl<Enum> for MessageEntry {
    open spec fn obeys_from_spec() -> bool {
        true
    }

    open spec fn from_spec(v: Enum) -> Self {
        MessageEntry::Enum(v)
    }
}

impl From<ReservedIndices> for MessageEntry {
    fn from(v: ReservedIndices) -> Self {
        MessageEntry::ReservedIndices(v)
    }
}

impl vstd::std_specs::convert::FromSpecImpl<ReservedIndices> for MessageEntry {
    open spec fn obeys_from_spec() -> bool {
        true
    }

    open spec fn from_spec(v: ReservedIndices) -> Self {
        MessageEntry::ReservedIndices(v)
    }
}

impl From<ReservedIdents> for MessageEntry {
    fn from(v: ReservedIdents) -> Self {
        MessageEntry::ReservedIdents(v)
    }
}

impl vstd::std_specs::convert::FromSpecImpl<ReservedIdents> for MessageEntry {
    open spec fn obeys_from_spec() -> bool {
        true
    }

    open spec fn from_spec(v: ReservedIdents) -> Self {
        MessageEntry::ReservedIdents(v)
    }
}

impl From<Extensions> for MessageEntry {
    fn from(v: Extensions) -> Self {
        MessageEntry::Extensions(v)
    }
}

impl vstd::std_specs::convert::FromSpecImpl<Extensions> for MessageEntry {
    open spec fn obeys_from_spec() -> bool {
        true
    }

    open spec fn from_spec(v: Extensions) -> Self {
        MessageEntry::Extensions(v)
    }
}

impl From<Comment> for OneOfEntry {
    fn from(v: Comment) -> Self {
        OneOfEntry::Comment(v)
    }
}

impl vstd::std_specs::convert::FromSpecImpl<Comment> for OneOfEntry {
    open spec fn obeys_from_spec() -> bool {
        true
    }

    open spec fn from_spec(v: Comment) -> Self {
        OneOfEntry::Comment(v)
    }
}

impl From<Option> for OneOfEntry {
    fn from(v: Option) -> Self {
        OneOfEntry::Option(v)
    }
}

impl vstd::std_specs::convert::FromSpecImpl<Option> for OneOfEntry {
    open spec fn obeys_from_spec() -> bool {
        true
    }

    open spec fn from_spec(v: Option) -> Self {
        OneOfEntry::Option(v)
    }
}

impl From<Field> for OneOfEntry {
    fn from(v: Field) -> Self {
        OneOfEntry::Field(v)
    }
}

impl vstd::std_specs::convert::FromSpecImpl<Field> for OneOfEntry {
    open spec fn obeys_from_spec() -> bool {
        true
    }

    open spec fn from_spec(v: Field) -> Self {
        OneOfEntry::Field(v)
    }
}

impl From<Comment> for ExtendEntry {
    fn from(v: Comment) -> Self {
        ExtendEntry::Comment(v)
    }
}

impl vstd::std_specs::convert::FromSpecImpl<Comment> for ExtendEntry {
    open spec fn obeys_from_spec() -> bool {
        true
    }

    open spec fn from_spec(v: Comment) -> Self {
        ExtendEntry::Comment(v)
    }
}

impl From<Field> for ExtendEntry {
    fn from(v: Field) -> Self {
        ExtendEntry::Field(v)
    }
}

impl vstd::std_specs::convert::FromSpecImpl<Field> for ExtendEntry {
    open spec fn obeys_from_spec() -> bool {
        true
    }

    open spec fn from_spec(v: Field) -> Self {
        ExtendEntry::Field(v)
    }
}

impl From<Comment> for EnumEntry {
    fn from(v: Comment) -> Self {
        EnumEntry::Comment(v)
    }
}

impl vstd::std_specs::convert::FromSpecImpl<Comment> for EnumEntry {
    open spec fn obeys_from_spec() -> bool {
        true
    }

    open spec fn from_spec(v: Comment) -> Self {
        EnumEntry::Comment(v)
    }
}

impl From<Option> for EnumEntry {
    fn from(v: Option) -> Self {
        EnumEntry::Option(v)
    }
}

impl vstd::std_specs::convert::FromSpecImpl<Option> for EnumEntry {
    open spec fn obeys_from_spec() -> bool {
        true
    }

    open spec fn from_spec(v: Option) -> Self {
        EnumEntry::Option(v)
    }
}

impl From<EnumVariant> for EnumEntry {
    fn from(v: EnumVariant) -> Self {
        EnumEntry::Variant(v)
    }
}

impl vstd::std_specs::convert::FromSpecImpl<EnumVariant> for EnumEntry {
    open spec fn obeys_from_spec() -> bool {
        true
    }

    open spec fn from_spec(v: EnumVariant) -> Self {
        EnumEntry::Variant(v)
    }
}

impl From<bool> for MapValue {
    fn from(v: bool) -> Self {
        MapValue::Boolean(v)
    }
}

impl vstd::std_specs::convert::FromSpecImpl<bool> for MapValue {
    open spec fn obeys_from_spec() -> bool {
        true
    }

    open spec fn from_spec(v: bool) -> Self {
        MapValue::Boolean(v)
    }
}

impl From<i64> for MapValue {
    fn from(v: i64) -> Self {
        MapValue::Integer(v)
    }
}

impl vstd::std_specs::convert::FromSpecImpl<i64> for MapValue {
    open spec fn obeys_from_spec() -> bool {
        true
    }

    open spec fn from_spec(v: i64) -> Self {
        MapValue::Integer(v)
    }
}

impl From<Vec<MapEntry>> for MapValue {
    fn from(v: Vec<MapEntry>) -> Self {
        MapValue::Aggregate(v)
    }
}

impl vstd::std_specs::convert::FromSpecImpl<Vec<MapEntry>> for MapValue {
    open spec fn obeys_from_spec() -> bool {
        true
    }

    open spec fn from_spec(v: Vec<MapEntry>) -> Self {
        MapValue::Aggregate(v)
    }
}

impl From<Vec<Range>> for ReservedIndices {
    fn from(v: Vec<Range>) -> Self {
        ReservedIndices(v)
    }
}

impl vstd::std_specs::convert::FromSpecImpl<Vec<Range>> for ReservedIndices {
    open spec fn obeys_from_spec() -> bool {
        true
    }

    open spec fn from_spec(v: Vec<Range>) -> Self {
        ReservedIndices(v)
    }
}

impl From<Vec<Range>> for Extensions {
    fn from(v: Vec<Range>) -> Self {
        Extensions(v)
    }
}

impl vstd::std_specs::convert::FromSpecImpl<Vec<Range>> for Extensions {
    open spec fn obeys_from_spec() -> bool {
        true
    }

    open spec fn from_spec(v: Vec<Range>) -> Self {
        Extensions(v)
    }
}

impl From<Vec<String>> for ReservedIdents {
    fn from(v: Vec<String>) -> Self {
        ReservedIdents(v)
    }
}

impl vstd::std_specs::convert::FromSpecImpl<Vec<String>> for ReservedIdents {
    open spec fn obeys_from_spec() -> bool {
        true
    }

    open spec fn from_spec(v: Vec<String>) -> Self {
        ReservedIdents(v)
    }
}


impl From<std::ops::Range<i64>> for Range {
    fn from(v: std::ops::Range<i64>) -> Self {
        Range::Default(v.start, v.end)
    }
}

impl vstd::std_specs::convert::FromSpecImpl<std::ops::Range<i64>> for Range {
    open spec fn obeys_from_spec() -> bool {
        true
    }

    open spec fn from_spec(v: std::ops::Range<i64>) -> Self {
        Range::Default(v.start, v.end)
    }
}


/// The open range `a..` of std, whose one field is its start.
#[verifier::external_type_specification]
#[verifier::reject_recursive_types(Idx)]
pub struct ExRangeFrom<Idx>(std::ops::RangeFrom<Idx>);

impl From<std::ops::RangeFrom<i64>> for Range {
    fn from(v: std::ops::RangeFrom<i64>) -> Self {
        Range::From(v.start)
    }
}

impl vstd::std_specs::convert::FromSpecImpl<std::ops::RangeFrom<i64>> for Range {
    open spec fn obeys_from_spec() -> bool {
        true
    }

    open spec fn from_spec(v: std::ops::RangeFrom<i64>) -> Self {
        Range::From(v.start)
    }
}


/// Adds `e` to `es`, where an entry with the same key takes the new value in
/// its place.
fn insert_entry_into(es: &mut Vec<MapEntry>, e: MapEntry)
    requires
        keys_unique(old(es)@),
    ensures
        keys_unique(final(es)@),
        final(es)@ == insert_entry(old(es)@, e),
{
    let mut found: usize = 0;
    while found < es.len() && !(es[found].key == e.key)
        invariant
            found <= es.len(),
            forall|m: int| 0 <= m < found ==> es@[m].key@ != e.key@,
        decreases es.len() - found,
    {
        found = found + 1;
    }
    let ghost old_es = es@;
    let ghost ge = e;
    if found < es.len() {
        es.set(found, e);
        assert forall|a: int, b: int| 0 <= a < b < es@.len() implies es@[a].key@ != es@[b].key@ by {
            assert(old_es[a].key@ != old_es[b].key@);
        }
        proof {
            let c = choose|c: int| 0 <= c < old_es.len() && old_es[c].key@ == ge.key@;
            assert(c == found as int);
            assert(es@ =~= insert_entry(old_es, ge));
        }
    } else {
        es.push(e);
        assert forall|a: int, b: int| 0 <= a < b < es@.len() implies es@[a].key@ != es@[b].key@ by {
            if b < old_es.len() {
                assert(old_es[a].key@ != old_es[b].key@);
            }
        }
        assert(es@ =~= insert_entry(old_es, ge));
    }
}

impl MapValue {
    /// An aggregate literal from `(key, value)` pairs in order: a key given
    /// again takes the place of the earlier pair.
    pub fn from_borrowed_pairs(pairs: Vec<(&str, MapValue)>) -> (r: MapValue)
        ensures
            r is Aggregate,
            keys_unique(r->Aggregate_0@),
            exists|ps: Seq<MapEntry>|
                #![trigger collect_entries(ps)]
                ps.len() == pairs@.len() && r->Aggregate_0@ == collect_entries(ps) && forall|k: int|
                    0 <= k < ps.len() ==> (#[trigger] ps[k]).key@ == pairs@[k].0@ && ps[k].value
                        == pairs@[k].1,
    {
        let mut rest = pairs;
        let mut es: Vec<MapEntry> = Vec::new();
        let ghost mut ps: Seq<MapEntry> = Seq::empty();
        while rest.len() > 0
            invariant
                keys_unique(es@),
                es@ == collect_entries(ps),
                ps.len() + rest@.len() == pairs@.len(),
                forall|k: int|
                    0 <= k < ps.len() ==> (#[trigger] ps[k]).key@ == pairs@[k].0@ && ps[k].value
                        == pairs@[k].1,
                forall|k: int| 0 <= k < rest@.len() ==> #[trigger] rest@[k] == pairs@[ps.len() + k],
            decreases rest@.len(),
        {
            let (key, value) = rest.remove(0);
            let e = MapEntry { key: key.to_owned(), value };
            let ghost ge = e;
            let ghost old_ps = ps;
            insert_entry_into(&mut es, e);
            proof {
                ps = ps.push(ge);
                assert(ps.drop_last() =~= old_ps);
                assert forall|k: int| 0 <= k < ps.len() implies (#[trigger] ps[k]).key@
                    == pairs@[k].0@ && ps[k].value == pairs@[k].1 by {
                    if k < old_ps.len() {
                        assert(ps[k] == old_ps[k]);
                    }
                }
            }
        }
        MapValue::Aggregate(es)
    }
}


impl ReservedIdents {
    /// The quoted names `names`, in order.
    pub fn from_borrowed(names: Vec<&str>) -> (r: ReservedIdents)
        ensures
            r.0@.len() == names@.len(),
            forall|k: int| 0 <= k < names@.len() ==> (#[trigger] r.0@[k])@ == names@[k]@,
    {
        let mut out: Vec<String> = Vec::new();
        let mut k: usize = 0;
        while k < names.len()
            invariant
                k <= names@.len(),
                out@.len() == k,
                forall|m: int| 0 <= m < k ==> (#[trigger] out@[m])@ == names@[m]@,
            decreases names.len() - k,
        {
            out.push(names[k].to_owned());
            k = k + 1;
        }
        ReservedIdents(out)
    }
}

} // verus!
