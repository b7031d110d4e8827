use protobuf_ast_parser::ast;
use protobuf_ast_parser::lexer::{LexicalError, LexicalErrorKind, TokenKind};
use protobuf_ast_parser::parse;
use protobuf_ast_parser::parser::ParseError;

fn message_entries(data: &str) -> Vec<ast::MessageEntry> {
    match parse(data) {
        Ok(mut root) => match root.pop() {
            Some(ast::RootEntry::Message(m)) => m.entries,
            other => panic!("expected a message, got {:?}", other),
        },
        Err(e) => panic!("{:?}", e),
    }
}

#[test]
fn parsing_twice_gives_equal_trees() {
    let data = "syntax = \"proto3\";\n// note\nmessage A { optional int32 x = 1 [deprecated = true]; message B { enum E { Z = 0; } } }\nservice S { rpc Go (stream A) returns (A); }\n";
    assert_eq!(parse(data), parse(data));
}

#[test]
fn order_kept_with_comments_at_every_level() {
    let entries = message_entries(
        "message M {\n// one\nint32 a = 1;\n/* two */\nmessage N {\n// three\nint32 b = 2;\n// four\n}\n// five\n}\n",
    );
    assert_eq!(entries.len(), 5);
    assert_eq!(entries[0], ast::MessageEntry::Comment(ast::Comment::single_line("// one")));
    assert_eq!(
        entries[1],
        ast::MessageEntry::Field(ast::Field::new(None, "int32", "a", 1, vec![]))
    );
    assert_eq!(entries[2], ast::MessageEntry::Comment(ast::Comment::multi_line("/* two */")));
    assert_eq!(
        entries[3],
        ast::MessageEntry::Message(ast::Message::new(
            "N",
            vec![
                ast::MessageEntry::Comment(ast::Comment::single_line("// three")),
                ast::MessageEntry::Field(ast::Field::new(None, "int32", "b", 2, vec![])),
                ast::MessageEntry::Comment(ast::Comment::single_line("// four")),
            ],
        ))
    );
    assert_eq!(entries[4], ast::MessageEntry::Comment(ast::Comment::single_line("// five")));
    let root = parse("message M {\n// five\n}\n// six\n").unwrap();
    assert_eq!(root[1], ast::RootEntry::Comment(ast::Comment::single_line("// six")));
}

#[test]
fn keyword_names_parse_like_identifiers() {
    let with_keyword = message_entries("message M { message stream { service rpc = 1; } }");
    let with_ident = message_entries("message M { message other { plain name = 1; } }");
    match (&with_keyword[0], &with_ident[0]) {
        (ast::MessageEntry::Message(k), ast::MessageEntry::Message(i)) => {
            assert_eq!(k.ident, "stream");
            assert_eq!(i.ident, "other");
            assert_eq!(
                k.entries,
                vec![ast::MessageEntry::Field(ast::Field::new(None, "service", "rpc", 1, vec![]))]
            );
            assert_eq!(
                i.entries,
                vec![ast::MessageEntry::Field(ast::Field::new(None, "plain", "name", 1, vec![]))]
            );
        }
        _ => panic!("expected nested messages"),
    }
}

#[test]
fn reserved_ranges_are_half_open() {
    let entries = message_entries("message M { reserved 2 to 3, 6 to max; }");
    assert_eq!(
        entries,
        vec![ast::MessageEntry::ReservedIndices(ast::ReservedIndices(vec![
            ast::Range::Default(2, 4),
            ast::Range::From(6),
        ]))]
    );
}

#[test]
fn reserved_names_stay_names() {
    let entries = message_entries("message M { reserved \"sample\"; }");
    assert_eq!(
        entries,
        vec![ast::MessageEntry::ReservedIdents(ast::ReservedIdents(vec!["sample".to_string()]))]
    );
    assert!(parse("message M { reserved \"a\", 3; }").is_err());
}

#[test]
fn negative_enum_value_is_signed() {
    let root = parse("enum E { NEG = -1; LOW = -9223372036854775808; }").unwrap();
    assert_eq!(
        root,
        vec![ast::RootEntry::Enum(ast::Enum::new(
            "E",
            vec![
                ast::EnumEntry::Variant(ast::EnumVariant::new("NEG", -1, vec![])),
                ast::EnumEntry::Variant(ast::EnumVariant::new("LOW", i64::MIN, vec![])),
            ],
        ))]
    );
}

#[test]
fn sibling_aggregates_with_same_key_stay_apart() {
    let root = parse(
        "option edition_defaults = { edition: EDITION_PROTO2, value: \"true\" };\n\
         option edition_defaults = { edition: EDITION_PROTO3 value: \"false\" };\n",
    )
    .unwrap();
    let expect = |edition: &str, value: &str| {
        ast::RootEntry::Option(ast::Option::new(
            "edition_defaults",
            ast::MapValue::Aggregate(vec![
                ast::MapEntry {
                    key: "edition".to_string(),
                    value: ast::MapValue::Ident(edition.to_string()),
                },
                ast::MapEntry {
                    key: "value".to_string(),
                    value: ast::MapValue::String(value.to_string()),
                },
            ]),
        ))
    };
    assert_eq!(root, vec![expect("EDITION_PROTO2", "true"), expect("EDITION_PROTO3", "false")]);
}

#[test]
fn repeated_aggregate_key_keeps_last_value() {
    let root = parse("option o = { a: 1, b: { c: true }, a: 2 };").unwrap();
    assert_eq!(
        root,
        vec![ast::RootEntry::Option(ast::Option::new(
            "o",
            ast::MapValue::Aggregate(vec![
                ast::MapEntry { key: "a".to_string(), value: ast::MapValue::Integer(2) },
                ast::MapEntry {
                    key: "b".to_string(),
                    value: ast::MapValue::Aggregate(vec![ast::MapEntry {
                        key: "c".to_string(),
                        value: ast::MapValue::Boolean(true),
                    }]),
                },
            ]),
        ))]
    );
}

#[test]
fn streaming_modes() {
    assert_eq!(ast::RpcStream::new(true, true), ast::RpcStream::Bidirectional);
    assert_eq!(ast::RpcStream::new(false, false), ast::RpcStream::Unary);
    assert_eq!(ast::RpcStream::new(true, false), ast::RpcStream::ServerBound);
    assert_eq!(ast::RpcStream::new(false, true), ast::RpcStream::ClientBound);
    let root = parse("service S { rpc B (stream Q) returns (stream R); rpc N (stream) returns (R); }").unwrap();
    assert_eq!(
        root,
        vec![ast::RootEntry::Service(ast::Service::new(
            "S",
            vec![
                ast::ServiceEntry::Rpc(ast::Rpc::new("B", "Q", "R", ast::RpcStream::Bidirectional)),
                ast::ServiceEntry::Rpc(ast::Rpc::new("N", "stream", "R", ast::RpcStream::Unary)),
            ],
        ))]
    );
}

#[test]
fn unterminated_string_is_a_lexical_error() {
    assert_eq!(
        parse("syntax = \"proto3;\n"),
        Err(ParseError::Lexical(LexicalError {
            kind: LexicalErrorKind::UnterminatedString,
            position: 9,
        }))
    );
}

#[test]
fn unterminated_comment_is_a_lexical_error() {
    assert_eq!(
        parse("message A {}\n/* open"),
        Err(ParseError::Lexical(LexicalError {
            kind: LexicalErrorKind::UnterminatedComment,
            position: 13,
        }))
    );
}

#[test]
fn unrecognized_character_is_a_lexical_error() {
    assert_eq!(
        parse("message A { # }"),
        Err(ParseError::Lexical(LexicalError {
            kind: LexicalErrorKind::UnrecognizedCharacter,
            position: 12,
        }))
    );
}

#[test]
fn oversized_integer_is_a_lexical_error() {
    assert_eq!(
        parse("enum E { A = 9223372036854775808; }"),
        Err(ParseError::Lexical(LexicalError {
            kind: LexicalErrorKind::IntegerOutOfRange,
            position: 13,
        }))
    );
}

#[test]
fn field_without_equals_is_rejected_at_the_number() {
    match parse("message M { int32 a 1; }") {
        Err(ParseError::UnexpectedToken { position, found }) => {
            assert_eq!(position, 20);
            assert_eq!(found.kind, TokenKind::Integer);
            assert_eq!(found.value, 1);
        }
        other => panic!("unexpected {:?}", other),
    }
}

#[test]
fn parse_error_comes_before_later_lexical_error() {
    match parse("message M { int32 a 1; }\n\"open") {
        Err(ParseError::UnexpectedToken { position, .. }) => assert_eq!(position, 20),
        other => panic!("unexpected {:?}", other),
    }
}

#[test]
fn missing_closing_brace_is_unexpected_end() {
    assert_eq!(parse("message M {"), Err(ParseError::UnexpectedEof { position: 11 }));
}

#[test]
fn largest_bounded_range_end_overflows() {
    assert_eq!(
        parse("message M { reserved 1 to 9223372036854775807; }"),
        Err(ParseError::RangeOverflow { position: 26 })
    );
}

#[test]
fn blank_source_is_an_empty_tree() {
    assert_eq!(parse(""), Ok(vec![]));
    assert_eq!(parse("  \n\t\r\n"), Ok(vec![]));
}

#[test]
fn comment_text_is_trimmed() {
    let c = ast::Comment::single_line("//   hello  ");
    assert_eq!(c.text, "hello");
    assert_eq!(c.source, "//   hello  ");
    assert_eq!(c.kind, ast::CommentType::SingleLine);
    let m = ast::Comment::multi_line("/*\n  a b\n*/");
    assert_eq!(m.text, "a b");
    assert_eq!(m.kind, ast::CommentType::MultiLine);
}

#[test]
fn option_keys_with_extension_suffix() {
    let root = parse("option (my.ext).field = \"v\";").unwrap();
    assert_eq!(
        root,
        vec![ast::RootEntry::Option(ast::Option::new(
            "(my.ext).field",
            ast::MapValue::String("v".to_string()),
        ))]
    );
}

#[test]
fn nested_aggregate_may_omit_colon() {
    let root = parse("option o = { a { b: 1 } c: 'x' };").unwrap();
    assert_eq!(
        root,
        vec![ast::RootEntry::Option(ast::Option::new(
            "o",
            ast::MapValue::Aggregate(vec![
                ast::MapEntry {
                    key: "a".to_string(),
                    value: ast::MapValue::Aggregate(vec![ast::MapEntry {
                        key: "b".to_string(),
                        value: ast::MapValue::Integer(1),
                    }]),
                },
                ast::MapEntry { key: "c".to_string(), value: ast::MapValue::String("x".to_string()) },
            ]),
        ))]
    );
}

#[test]
fn import_with_modifier_and_single_quotes() {
    let root = parse("syntax = 'proto2';\nimport public \"a/b.proto\";\n").unwrap();
    assert_eq!(
        root,
        vec![
            ast::RootEntry::Syntax("proto2".to_string()),
            ast::RootEntry::Import("a/b.proto".to_string()),
        ]
    );
}

#[test]
fn escaped_quote_stays_in_string() {
    let root = parse("option o = \"a\\\"b\";").unwrap();
    assert_eq!(
        root,
        vec![ast::RootEntry::Option(ast::Option::new(
            "o",
            ast::MapValue::String("a\\\"b".to_string()),
        ))]
    );
}

#[test]
fn comment_text_is_trimmed_of_unicode_white_space() {
    let c = ast::Comment::single_line("//a\u{3000}");
    assert_eq!(c.text, "a");
    let m = ast::Comment::multi_line("/*\u{A0}a\u{2003}*/");
    assert_eq!(m.text, "a");
}

#[test]
fn conversions_build_entries() {
    assert_eq!(
        ast::MessageEntry::from(ast::ReservedIndices::from(vec![ast::Range::from(2..3)])),
        ast::MessageEntry::ReservedIndices(ast::ReservedIndices(vec![ast::Range::Default(2, 3)]))
    );
    assert_eq!(ast::MapValue::from(true), ast::MapValue::Boolean(true));
    assert_eq!(ast::MapValue::from(-4i64), ast::MapValue::Integer(-4));
    assert_eq!(
        ast::EnumEntry::from(ast::EnumVariant::new("A", 1, vec![])),
        ast::EnumEntry::Variant(ast::EnumVariant::new("A", 1, vec![]))
    );
}

#[test]
fn mixed_reserved_statement_is_rejected_at_the_name() {
    match parse("message M { reserved 1, \"sample\"; }") {
        Err(ParseError::UnexpectedToken { position, found }) => {
            assert_eq!(position, 24);
            assert_eq!(found.kind, TokenKind::Str);
        }
        other => panic!("unexpected {:?}", other),
    }
}

#[test]
fn aggregate_from_pairs_keeps_last_value_of_a_key() {
    let v = ast::MapValue::from_borrowed_pairs(vec![
        ("a", ast::MapValue::Integer(1)),
        ("b", ast::MapValue::Boolean(false)),
        ("a", ast::MapValue::Integer(3)),
    ]);
    assert_eq!(
        v,
        ast::MapValue::Aggregate(vec![
            ast::MapEntry { key: "a".to_string(), value: ast::MapValue::Integer(3) },
            ast::MapEntry { key: "b".to_string(), value: ast::MapValue::Boolean(false) },
        ])
    );
}

#[test]
fn ranges_and_names_from_std_values() {
    assert_eq!(ast::Range::from(1..5), ast::Range::Default(1, 5));
    assert_eq!(ast::Range::from(10..), ast::Range::From(10));
    assert_eq!(
        ast::ReservedIdents::from_borrowed(vec!["sample", "x"]),
        ast::ReservedIdents(vec!["sample".to_string(), "x".to_string()])
    );
}
