use protobuf_ast_parser::ast;
use protobuf_ast_parser::parse;

fn parse_ast(data: &str) -> Vec<ast::RootEntry> {
    match parse(data) {
        Err(error) => panic!("{:?}", error),
        Ok(ast) => ast,
    }
}

fn s(text: &str) -> String {
    text.to_string()
}

fn field(
    modifier: std::option::Option<ast::FieldModifier>,
    typ: &str,
    ident: &str,
    index: i64,
    options: Vec<ast::Option>,
) -> ast::Field {
    ast::Field::new(modifier, typ, ident, index, options)
}

fn aggregate(pairs: Vec<(&str, ast::MapValue)>) -> ast::MapValue {
    ast::MapValue::Aggregate(
        pairs
            .into_iter()
            .map(|(key, value)| ast::MapEntry { key: s(key), value })
            .collect(),
    )
}

#[test]
fn empty() {
    let ast = parse_ast("");
    assert!(ast.is_empty());
}

#[test]
fn syntax() {
    let ast = parse_ast("syntax = \"proto3\";\n");
    let target_ast = vec![ast::RootEntry::Syntax(s("proto3"))];

    assert_eq!(ast, target_ast);
}

#[test]
fn package_simple() {
    let ast = parse_ast("syntax = \"proto3\";\n\npackage mypkg;\n");
    let target_ast = vec![
        ast::RootEntry::Syntax(s("proto3")),
        ast::RootEntry::Package(s("mypkg")),
    ];

    assert_eq!(ast, target_ast);
}

#[test]
fn package_complex() {
    let ast = parse_ast("syntax = \"proto3\";\n\npackage my.pkg;\n");
    let target_ast = vec![
        ast::RootEntry::Syntax(s("proto3")),
        ast::RootEntry::Package(s("my.pkg")),
    ];

    assert_eq!(ast, target_ast);
}

#[test]
fn import() {
    let ast = parse_ast("syntax = \"proto3\";\n\nimport \"google/protobuf/any.proto\";\n");
    let target_ast = vec![
        ast::RootEntry::Syntax(s("proto3")),
        ast::RootEntry::Import(s("google/protobuf/any.proto")),
    ];

    assert_eq!(ast, target_ast);
}

#[test]
fn message_empty() {
    let ast = parse_ast("syntax = \"proto3\";\n\nmessage Empty {}\n");
    let target_ast = vec![
        ast::RootEntry::Syntax(s("proto3")),
        ast::RootEntry::from(ast::Message::empty("Empty")),
    ];

    assert_eq!(ast, target_ast);
}

#[test]
fn message() {
    let ast = parse_ast(
        "syntax = \"proto3\";\n\
         message Message {\n\
           reserved 2, 6 to max;\n\
           reserved \"sample\";\n\
           bool first = 1;\n\
           optional string third = 3;\n\
           repeated uint64 fourth = 4;\n\
           map<string, string> fifth = 5;\n\
         }\n",
    );
    let target_ast = vec![
        ast::RootEntry::Syntax(s("proto3")),
        ast::RootEntry::Message(ast::Message::new(
            "Message",
            vec![
                ast::MessageEntry::ReservedIndices(ast::ReservedIndices(vec![
                    ast::Range::from(2..3),
                    ast::Range::from(6..),
                ])),
                ast::MessageEntry::ReservedIdents(ast::ReservedIdents(vec![s("sample")])),
                ast::MessageEntry::Field(field(None, "bool", "first", 1, vec![])),
                ast::MessageEntry::Field(field(
                    Some(ast::FieldModifier::Optional),
                    "string",
                    "third",
                    3,
                    vec![],
                )),
                ast::MessageEntry::Field(field(
                    Some(ast::FieldModifier::Repeated),
                    "uint64",
                    "fourth",
                    4,
                    vec![],
                )),
                ast::MessageEntry::Field(field(None, "map<string, string>", "fifth", 5, vec![])),
            ],
        )),
    ];

    assert_eq!(ast, target_ast);
}

#[test]
fn message_inner() {
    let ast = parse_ast(
        "syntax = \"proto3\";\n\
         message Parent {\n\
           message Child {\n\
             bool var = 1;\n\
           }\n\
           Child child = 1;\n\
         }\n",
    );
    let target_ast = vec![
        ast::RootEntry::Syntax(s("proto3")),
        ast::RootEntry::Message(ast::Message::new(
            "Parent",
            vec![
                ast::MessageEntry::Message(ast::Message::new(
                    "Child",
                    vec![ast::MessageEntry::Field(field(None, "bool", "var", 1, vec![]))],
                )),
                ast::MessageEntry::Field(field(None, "Child", "child", 1, vec![])),
            ],
        )),
    ];

    assert_eq!(ast, target_ast);
}

#[test]
fn enum_() {
    let ast = parse_ast(
        "syntax = \"proto3\";\n\
         enum Enum {\n\
           ZERO = 0;\n\
           POSITIVE = 1;\n\
           NEGATIVE = -1;\n\
         }\n",
    );
    let target_ast = vec![
        ast::RootEntry::Syntax(s("proto3")),
        ast::RootEntry::Enum(ast::Enum::new(
            "Enum",
            vec![
                ast::EnumEntry::Variant(ast::EnumVariant::new("ZERO", 0, vec![])),
                ast::EnumEntry::Variant(ast::EnumVariant::new("POSITIVE", 1, vec![])),
                ast::EnumEntry::Variant(ast::EnumVariant::new("NEGATIVE", -1, vec![])),
            ],
        )),
    ];

    assert_eq!(ast, target_ast);
}

#[test]
fn options() {
    let ast = parse_ast(
        "syntax = \"proto3\";\n\
         import \"google/protobuf/descriptor.proto\";\n\
         option java_multiple_files = true;\n\
         option java_package = \"xd.xd\";\n\
         extend google.protobuf.EnumValueOptions {\n\
           optional bool own_enum_value = 2000;\n\
         }\n\
         extend google.protobuf.FieldOptions {\n\
           optional bool own_field_value = 2000 [deprecated = true];\n\
         }\n\
         enum Enum {\n\
           option allow_alias = true;\n\
           FIRST = 0 [deprecated = true];\n\
           SECOND = 0 [(own_enum_value) = true];\n\
         }\n\
         message Message {\n\
           option deprecated = true;\n\
           optional bool var = 1 [\n\
             deprecated = true,\n\
             (own_field_value) = false,\n\
             edition_defaults = { edition: EDITION_PROTO2, value: \"true\" },\n\
             edition_defaults = { edition: EDITION_PROTO3, value: \"false\" }\n\
           ];\n\
         }\n",
    );
    let target_ast = vec![
        ast::RootEntry::Syntax(s("proto3")),
        ast::RootEntry::Import(s("google/protobuf/descriptor.proto")),
        ast::RootEntry::Option(ast::Option::new(
            "java_multiple_files",
            ast::MapValue::Boolean(true),
        )),
        ast::RootEntry::Option(ast::Option::new(
            "java_package",
            ast::MapValue::String(s("xd.xd")),
        )),
        ast::RootEntry::Extend(ast::Extend::new(
            "google.protobuf.EnumValueOptions",
            vec![ast::ExtendEntry::Field(field(
                Some(ast::FieldModifier::Optional),
                "bool",
                "own_enum_value",
                2000,
                vec![],
            ))],
        )),
        ast::RootEntry::Extend(ast::Extend::new(
            "google.protobuf.FieldOptions",
            vec![ast::ExtendEntry::Field(field(
                Some(ast::FieldModifier::Optional),
                "bool",
                "own_field_value",
                2000,
                vec![ast::Option::new("deprecated", ast::MapValue::Boolean(true))],
            ))],
        )),
        ast::RootEntry::Enum(ast::Enum::new(
            "Enum",
            vec![
                ast::EnumEntry::Option(ast::Option::new("allow_alias", ast::MapValue::Boolean(true))),
                ast::EnumEntry::Variant(ast::EnumVariant::new(
                    "FIRST",
                    0,
                    vec![ast::Option::new("deprecated", ast::MapValue::Boolean(true))],
                )),
                ast::EnumEntry::Variant(ast::EnumVariant::new(
                    "SECOND",
                    0,
                    vec![ast::Option::new("(own_enum_value)", ast::MapValue::Boolean(true))],
                )),
            ],
        )),
        ast::RootEntry::Message(ast::Message::new(
            "Message",
            vec![
                ast::MessageEntry::Option(ast::Option::new(
                    "deprecated",
                    ast::MapValue::Boolean(true),
                )),
                ast::MessageEntry::Field(field(
                    Some(ast::FieldModifier::Optional),
                    "bool",
                    "var",
                    1,
                    vec![
                        ast::Option::new("deprecated", ast::MapValue::Boolean(true)),
                        ast::Option::new("(own_field_value)", ast::MapValue::Boolean(false)),
                        ast::Option::new(
                            "edition_defaults",
                            aggregate(vec![
                                ("edition", ast::MapValue::Ident(s("EDITION_PROTO2"))),
                                ("value", ast::MapValue::String(s("true"))),
                            ]),
                        ),
                        ast::Option::new(
                            "edition_defaults",
                            aggregate(vec![
                                ("edition", ast::MapValue::Ident(s("EDITION_PROTO3"))),
                                ("value", ast::MapValue::String(s("false"))),
                            ]),
                        ),
                    ],
                )),
            ],
        )),
    ];

    assert_eq!(ast, target_ast);
}

#[test]
fn comments() {
    let ast = parse_ast(
        "syntax = \"proto3\";\n\
         import \"google/protobuf/descriptor.proto\";\n\
         // single line comment\n\
         // another single line comment\n\
         /* multi\n   line\n   comment */\n\
         message Message {\n\
           // in message\n\
           bool var = 1; // right after entry\n\
           // at the bottom\n\
         }\n\
         enum Enum {\n\
           // in enum\n\
           DEFAULT = 0;\n\
         }\n\
         extend google.protobuf.FieldOptions {\n\
           // in extend\n\
           optional bool var = 1;\n\
         }\n\
         // at the bottom of the file\n",
    );
    let target_ast = vec![
        ast::RootEntry::Syntax(s("proto3")),
        ast::RootEntry::Import(s("google/protobuf/descriptor.proto")),
        ast::RootEntry::Comment(ast::Comment::single_line("// single line comment")),
        ast::RootEntry::Comment(ast::Comment::single_line("// another single line comment")),
        ast::RootEntry::Comment(ast::Comment::multi_line("/* multi\n   line\n   comment */")),
        ast::RootEntry::Message(ast::Message::new(
            "Message",
            vec![
                ast::MessageEntry::Comment(ast::Comment::single_line("// in message")),
                ast::MessageEntry::Field(field(None, "bool", "var", 1, vec![])),
                ast::MessageEntry::Comment(ast::Comment::single_line("// right after entry")),
                ast::MessageEntry::Comment(ast::Comment::single_line("// at the bottom")),
            ],
        )),
        ast::RootEntry::Enum(ast::Enum::new(
            "Enum",
            vec![
                ast::EnumEntry::Comment(ast::Comment::single_line("// in enum")),
                ast::EnumEntry::Variant(ast::EnumVariant::new("DEFAULT", 0, vec![])),
            ],
        )),
        ast::RootEntry::Extend(ast::Extend::new(
            "google.protobuf.FieldOptions",
            vec![
                ast::ExtendEntry::Comment(ast::Comment::single_line("// in extend")),
                ast::ExtendEntry::Field(field(
                    Some(ast::FieldModifier::Optional),
                    "bool",
                    "var",
                    1,
                    vec![],
                )),
            ],
        )),
        ast::RootEntry::Comment(ast::Comment::single_line("// at the bottom of the file")),
    ];

    assert_eq!(ast, target_ast);
}

#[test]
fn extensions() {
    let ast = parse_ast(
        "syntax = \"proto2\";\n\
         message Message {\n\
           extensions 1, 2 to 4, 6 to max;\n\
         }\n",
    );
    let target_ast = vec![
        ast::RootEntry::Syntax(s("proto2")),
        ast::RootEntry::Message(ast::Message::new(
            "Message",
            vec![ast::MessageEntry::Extensions(ast::Extensions(vec![
                ast::Range::from(1..2),
                ast::Range::from(2..5),
                ast::Range::from(6..),
            ]))],
        )),
    ];

    assert_eq!(ast, target_ast);
}

#[test]
fn required() {
    let ast = parse_ast(
        "syntax = \"proto2\";\n\
         message Message {\n\
           required bool var = 1;\n\
         }\n",
    );
    let target_ast = vec![
        ast::RootEntry::Syntax(s("proto2")),
        ast::RootEntry::Message(ast::Message::new(
            "Message",
            vec![ast::MessageEntry::Field(field(
                Some(ast::FieldModifier::Required),
                "bool",
                "var",
                1,
                vec![],
            ))],
        )),
    ];

    assert_eq!(ast, target_ast);
}

#[test]
fn keywords() {
    let ast = parse_ast(
        "syntax = \"proto3\";\n\
         message Ident {}\n\
         message to { message inner {} }\n\
         message max {}\n\
         message syntax {}\n\
         message option {}\n\
         message package {}\n\
         message import {}\n\
         message message {}\n\
         message oneof {}\n\
         message extend {}\n\
         message enum {}\n\
         message reserved {}\n\
         message extensions {}\n\
         message optional {}\n\
         message required {}\n\
         message repeated {}\n\
         message map {}\n\
         message Message {\n\
           bool var1 = 1;\n\
           Ident var2 = 2;\n\
           to var3 = 3;\n\
           to.inner var4 = 4;\n\
           max var5 = 5;\n\
           syntax var6 = 6;\n\
           package var7 = 7;\n\
           import var8 = 8;\n\
         }\n",
    );
    let target_ast = vec![
        ast::RootEntry::Syntax(s("proto3")),
        ast::RootEntry::from(ast::Message::empty("Ident")),
        ast::RootEntry::Message(ast::Message::new(
            "to",
            vec![ast::MessageEntry::Message(ast::Message::empty("inner"))],
        )),
        ast::RootEntry::from(ast::Message::empty("max")),
        ast::RootEntry::from(ast::Message::empty("syntax")),
        ast::RootEntry::from(ast::Message::empty("option")),
        ast::RootEntry::from(ast::Message::empty("package")),
        ast::RootEntry::from(ast::Message::empty("import")),
        ast::RootEntry::from(ast::Message::empty("message")),
        ast::RootEntry::from(ast::Message::empty("oneof")),
        ast::RootEntry::from(ast::Message::empty("extend")),
        ast::RootEntry::from(ast::Message::empty("enum")),
        ast::RootEntry::from(ast::Message::empty("reserved")),
        ast::RootEntry::from(ast::Message::empty("extensions")),
        ast::RootEntry::from(ast::Message::empty("optional")),
        ast::RootEntry::from(ast::Message::empty("required")),
        ast::RootEntry::from(ast::Message::empty("repeated")),
        ast::RootEntry::from(ast::Message::empty("map")),
        ast::RootEntry::Message(ast::Message::new(
            "Message",
            vec![
                ast::MessageEntry::Field(field(None, "bool", "var1", 1, vec![])),
                ast::MessageEntry::Field(field(None, "Ident", "var2", 2, vec![])),
                ast::MessageEntry::Field(field(None, "to", "var3", 3, vec![])),
                ast::MessageEntry::Field(field(None, "to.inner", "var4", 4, vec![])),
                ast::MessageEntry::Field(field(None, "max", "var5", 5, vec![])),
                ast::MessageEntry::Field(field(None, "syntax", "var6", 6, vec![])),
                ast::MessageEntry::Field(field(None, "package", "var7", 7, vec![])),
                ast::MessageEntry::Field(field(None, "import", "var8", 8, vec![])),
            ],
        )),
    ];

    assert_eq!(ast, target_ast);
}

#[test]
fn oneof() {
    let ast = parse_ast(
        "syntax = \"proto3\";\n\
         message Message {\n\
           oneof OneOf {\n\
             option uninterpreted_option = { string_value: \"\" };\n\
             bool oneof_var = 1;\n\
           }\n\
           bool message_var = 2;\n\
         }\n",
    );
    let target_ast = vec![
        ast::RootEntry::Syntax(s("proto3")),
        ast::RootEntry::Message(ast::Message::new(
            "Message",
            vec![
                ast::MessageEntry::OneOf(ast::OneOf::new(
                    "OneOf",
                    vec![
                        ast::OneOfEntry::Option(ast::Option::new(
                            "uninterpreted_option",
                            aggregate(vec![("string_value", ast::MapValue::String(s("")))]),
                        )),
                        ast::OneOfEntry::Field(field(None, "bool", "oneof_var", 1, vec![])),
                    ],
                )),
                ast::MessageEntry::Field(field(None, "bool", "message_var", 2, vec![])),
            ],
        )),
    ];

    assert_eq!(ast, target_ast);
}

#[test]
fn service() {
    let ast = parse_ast(
        "syntax = \"proto3\";\n\
         service Service {\n\
           option uninterpreted_option = { string_value: \"\" };\n\
           rpc RPC1 (Request) returns (Reply);\n\
           rpc RPC2 (stream Request) returns (Reply);\n\
           rpc RPC3 (Request) returns (stream Reply);\n\
           rpc RPC4 (stream Request) returns (stream Reply) {}\n\
         }\n\
         message Request {}\n\
         message Reply {}\n",
    );
    let target_ast = vec![
        ast::RootEntry::Syntax(s("proto3")),
        ast::RootEntry::Service(ast::Service::new(
            "Service",
            vec![
                ast::ServiceEntry::Option(ast::Option::new(
                    "uninterpreted_option",
                    aggregate(vec![("string_value", ast::MapValue::String(s("")))]),
                )),
                ast::ServiceEntry::Rpc(ast::Rpc::new(
                    "RPC1",
                    "Request",
                    "Reply",
                    ast::RpcStream::new(false, false),
                )),
                ast::ServiceEntry::Rpc(ast::Rpc::new(
                    "RPC2",
                    "Request",
                    "Reply",
                    ast::RpcStream::new(true, false),
                )),
                ast::ServiceEntry::Rpc(ast::Rpc::new(
                    "RPC3",
                    "Request",
                    "Reply",
                    ast::RpcStream::new(false, true),
                )),
                ast::ServiceEntry::Rpc(ast::Rpc::new(
                    "RPC4",
                    "Request",
                    "Reply",
                    ast::RpcStream::new(true, true),
                )),
            ],
        )),
        ast::RootEntry::from(ast::Message::empty("Request")),
        ast::RootEntry::from(ast::Message::empty("Reply")),
    ];

    assert_eq!(ast, target_ast);
}
