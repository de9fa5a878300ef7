use synapse::idl::ast::{Item, PrimitiveType, Schema, Type};
use synapse::idl::layout::{
    compute_enum_layout, compute_layout, compute_struct_layout, lay_out, layout_fits, LayoutError,
    SchemaLayout,
};
use synapse::idl::lexer::{Lexer, Token};
use synapse::idl::names::NameMap;
use synapse::idl::parser::{show_token, token_text, Parser};
use synapse::idl::{compile, parse};

#[test]
fn test_basic_tokens() {
    let mut lexer = Lexer::new("struct Foo { x: u32, }");
    let tokens = lexer.tokenize().unwrap();
    let kinds: Vec<_> = tokens.iter().map(|t| &t.token).collect();
    assert_eq!(
        kinds,
        vec![
            &Token::Struct,
            &Token::Ident("Foo".into()),
            &Token::LBrace,
            &Token::Ident("x".into()),
            &Token::Colon,
            &Token::Ident("u32".into()),
            &Token::Comma,
            &Token::RBrace,
            &Token::Eof,
        ]
    );
}

#[test]
fn test_comments() {
    let mut lexer = Lexer::new("// comment\nstruct A {}");
    let tokens = lexer.tokenize().unwrap();
    assert_eq!(tokens[0].token, Token::Struct);
}

#[test]
fn test_array_syntax() {
    let mut lexer = Lexer::new("[u8; 16]");
    let tokens = lexer.tokenize().unwrap();
    let kinds: Vec<_> = tokens.iter().map(|t| &t.token).collect();
    assert_eq!(
        kinds,
        vec![
            &Token::LBracket,
            &Token::Ident("u8".into()),
            &Token::Semicolon,
            &Token::IntLit(16),
            &Token::RBracket,
            &Token::Eof,
        ]
    );
}

#[test]
fn test_namespace() {
    let mut lexer = Lexer::new("namespace game;");
    let tokens = lexer.tokenize().unwrap();
    assert_eq!(tokens[0].token, Token::Namespace);
    assert_eq!(tokens[1].token, Token::Ident("game".into()));
    assert_eq!(tokens[2].token, Token::Semicolon);
}


fn parse_str(input: &str) -> Schema {
    let mut lexer = Lexer::new(input);
    let tokens = lexer.tokenize().unwrap();
    let mut parser = Parser::new(tokens);
    parser.parse().unwrap()
}

#[test]
fn test_parse_struct() {
    let schema = parse_str("struct Vec3f { x: f32, y: f32, z: f32, }");
    assert_eq!(schema.items.len(), 1);
    if let Item::Struct(s) = &schema.items[0] {
        assert_eq!(s.name, "Vec3f");
        assert_eq!(s.fields.len(), 3);
        assert_eq!(s.fields[0].name, "x");
        assert_eq!(s.fields[0].ty, Type::Primitive(PrimitiveType::F32));
    } else {
        panic!("expected struct");
    }
}

#[test]
fn test_parse_enum() {
    let schema = parse_str("enum Command { MoveTo { target_id: u32 }, Idle, }");
    if let Item::Enum(e) = &schema.items[0] {
        assert_eq!(e.name, "Command");
        assert_eq!(e.variants.len(), 2);
        assert_eq!(e.variants[0].name, "MoveTo");
        assert_eq!(e.variants[0].fields.len(), 1);
        assert_eq!(e.variants[1].name, "Idle");
        assert!(e.variants[1].fields.is_empty());
    } else {
        panic!("expected enum");
    }
}

#[test]
fn test_parse_channel() {
    let schema = parse_str(
        "channel game_bridge { host_to_client: GameState, client_to_host: Command, }",
    );
    if let Item::Channel(ch) = &schema.items[0] {
        assert_eq!(ch.name, "game_bridge");
        assert_eq!(ch.entries.len(), 2);
        assert_eq!(ch.entries[0].name, "host_to_client");
        assert_eq!(ch.entries[0].ty, "GameState");
    } else {
        panic!("expected channel");
    }
}

#[test]
fn test_parse_namespace() {
    let schema = parse_str("namespace game;\nstruct A { x: u8, }");
    assert_eq!(schema.namespace, Some("game".to_string()));
}

#[test]
fn test_parse_array_field() {
    let schema = parse_str("struct Buf { data: [u8; 64], }");
    if let Item::Struct(s) = &schema.items[0] {
        assert_eq!(
            s.fields[0].ty,
            Type::Array(Box::new(Type::Primitive(PrimitiveType::U8)), 64)
        );
    } else {
        panic!("expected struct");
    }
}

#[test]
fn test_full_example() {
    let input = r#"
        namespace game;
        struct Vec3f { x: f32, y: f32, z: f32, }
        struct GameState { position: Vec3f, velocity: Vec3f, health: f32, frame_id: u64, }
        enum Command { MoveTo { target: Vec3f }, Attack { target_id: u32 }, Idle, }
        channel game_bridge { host_to_client: GameState, client_to_host: Command, }
    "#;
    let schema = parse_str(input);
    assert_eq!(schema.namespace, Some("game".into()));
    assert_eq!(schema.items.len(), 4);
}


fn layout_from(input: &str) -> SchemaLayout {
    let mut lexer = Lexer::new(input);
    let tokens = lexer.tokenize().unwrap();
    let mut parser = Parser::new(tokens);
    let schema = parser.parse().unwrap();
    compute_layout(&schema).unwrap()
}

#[test]
fn test_vec3f_layout() {
    let layout = layout_from("struct Vec3f { x: f32, y: f32, z: f32, }");
    let s = layout.structs.get("Vec3f").unwrap();
    assert_eq!(s.size, 12); // 3 * 4 bytes, align 4
    assert_eq!(s.align, 4);
    assert_eq!(s.fields[0].offset, 0);
    assert_eq!(s.fields[1].offset, 4);
    assert_eq!(s.fields[2].offset, 8);
}

#[test]
fn test_mixed_alignment() {
    // u8 (1) + padding(3) + u32 (4) = 8, align 4
    let layout = layout_from("struct Mixed { a: u8, b: u32, }");
    let s = layout.structs.get("Mixed").unwrap();
    assert_eq!(s.fields[0].offset, 0);
    assert_eq!(s.fields[1].offset, 4);
    assert_eq!(s.size, 8);
    assert_eq!(s.align, 4);
}

#[test]
fn test_trailing_padding() {
    // u32 (4) + u8 (1) + padding(3) = 8 (padded to align 4)
    let layout = layout_from("struct Padded { a: u32, b: u8, }");
    let s = layout.structs.get("Padded").unwrap();
    assert_eq!(s.fields[0].offset, 0);
    assert_eq!(s.fields[1].offset, 4);
    assert_eq!(s.size, 8); // padded to align(4)
    assert_eq!(s.align, 4);
}

#[test]
fn test_u64_alignment() {
    // u8 (1) + pad(7) + u64 (8) = 16
    let layout = layout_from("struct Big { a: u8, b: u64, }");
    let s = layout.structs.get("Big").unwrap();
    assert_eq!(s.fields[0].offset, 0);
    assert_eq!(s.fields[1].offset, 8);
    assert_eq!(s.size, 16);
    assert_eq!(s.align, 8);
}

#[test]
fn test_nested_struct() {
    let layout = layout_from(
        "struct Vec3f { x: f32, y: f32, z: f32, }\n\
         struct GameState { pos: Vec3f, frame: u64, }",
    );
    let gs = layout.structs.get("GameState").unwrap();
    // Vec3f is 12 bytes, align 4. Then frame: u64 at align 8
    // pos @ 0 (12 bytes), pad to 16, frame @ 16 (8 bytes) = 24
    assert_eq!(gs.fields[0].offset, 0);
    assert_eq!(gs.fields[1].offset, 16);
    assert_eq!(gs.size, 24);
    assert_eq!(gs.align, 8);
}

#[test]
fn test_array_layout() {
    let layout = layout_from("struct Buf { data: [u8; 16], count: u32, }");
    let s = layout.structs.get("Buf").unwrap();
    assert_eq!(s.fields[0].offset, 0);
    assert_eq!(s.fields[0].size, 16);
    assert_eq!(s.fields[1].offset, 16); // u8 array has align 1, u32 at 16 is already aligned
    assert_eq!(s.size, 20);
    assert_eq!(s.align, 4);
}

#[test]
fn test_enum_layout() {
    let layout = layout_from("enum Simple { A { val: u32 }, B, }");
    let e = layout.enums.get("Simple").unwrap();
    // tag: u32 (4), payload: u32 (4), total: 8
    assert_eq!(e.tag_size, 4);
    assert_eq!(e.max_payload_size, 4);
    assert_eq!(e.size, 8);
    assert_eq!(e.align, 4);
}

#[test]
fn test_enum_with_u64_payload() {
    let layout = layout_from("enum Big { A { val: u64 }, B, }");
    let e = layout.enums.get("Big").unwrap();
    // tag: u32 (4), pad to align 8, payload: u64 (8), total: 16
    assert_eq!(e.size, 16);
    assert_eq!(e.align, 8);
}

#[test]
fn token_places() {
    let mut lexer = Lexer::new("ab\n  c: // x\n\t[");
    let tokens = lexer.tokenize().unwrap();
    let places: Vec<(usize, usize)> = tokens.iter().map(|t| (t.line, t.col)).collect();
    assert_eq!(places, vec![(1, 1), (2, 3), (2, 4), (3, 2), (3, 3)]);
    assert_eq!(tokens[1].token, Token::Ident("c".into()));
    assert_eq!(tokens[4].token, Token::Eof);
}

#[test]
fn lexer_errors() {
    assert_eq!(
        Lexer::new("struct A { x: u32; @ }").tokenize().unwrap_err(),
        "1:20: unexpected character '@'"
    );
    assert_eq!(Lexer::new("\n /x").tokenize().unwrap_err(), "2:2: unexpected character '/'");
    // A character of several bytes is seen byte by byte.
    assert_eq!(
        Lexer::new("\u{e9}").tokenize().unwrap_err(),
        "1:1: unexpected character '\u{c3}'"
    );
    assert_eq!(
        Lexer::new("18446744073709551616").tokenize().unwrap_err(),
        "1:21: invalid integer '18446744073709551616'"
    );
    let tokens = Lexer::new("18446744073709551615 007").tokenize().unwrap();
    assert_eq!(tokens[0].token, Token::IntLit(usize::MAX));
    assert_eq!(tokens[1].token, Token::IntLit(7));
}

#[test]
fn keywords_and_identifiers() {
    let tokens = Lexer::new("namespace struct enum channel structs _x9 Enum").tokenize().unwrap();
    let kinds: Vec<Token> = tokens.iter().map(|t| t.token.clone()).collect();
    assert_eq!(
        kinds,
        vec![
            Token::Namespace,
            Token::Struct,
            Token::Enum,
            Token::Channel,
            Token::Ident("structs".into()),
            Token::Ident("_x9".into()),
            Token::Ident("Enum".into()),
            Token::Eof,
        ]
    );
}

fn parse_error(input: &str) -> String {
    let tokens = Lexer::new(input).tokenize().unwrap();
    Parser::new(tokens).parse().unwrap_err()
}

#[test]
fn parser_errors() {
    assert_eq!(
        parse_error("42 struct A {}"),
        "1:1: expected struct, enum, or channel, found IntLit(42)"
    );
    assert_eq!(
        parse_error("struct A { x u32, }"),
        "1:14: expected Colon, found Ident(\"u32\")"
    );
    assert_eq!(parse_error("struct A { x: u32, "), "1:20: expected identifier, found Eof");
    assert_eq!(
        parse_error("struct A { x: [u8; n] }"),
        "1:20: expected array length, found Ident(\"n\")"
    );
    assert_eq!(parse_error("struct { invalid }"), "1:8: expected identifier, found LBrace");
    assert_eq!(parse_error("namespace game\n{"), "2:1: expected Semicolon, found LBrace");
    assert_eq!(
        parse_error("struct A {}\nnamespace x;"),
        "2:1: expected struct, enum, or channel, found Namespace"
    );
    assert_eq!(parse_error("channel c { a: [u8; 1] }"), "1:16: expected identifier, found LBracket");
}

#[test]
fn tokens_in_messages() {
    assert_eq!(token_text(&Token::Ident("a b".into())), "Ident(\"a b\")");
    assert_eq!(token_text(&Token::Ident("a\"\n".into())), "Ident(\"a\\\"\\n\")");
    assert_eq!(show_token(&Token::Ident("x".into()), "<x>"), "Ident(<x>)");
    for token in [Token::Namespace, Token::Comma, Token::IntLit(5), Token::Ident("q".into())] {
        assert_eq!(token_text(&token), format!("{:?}", token));
    }
}

#[test]
fn commas_are_optional() {
    let with = parse_str("struct A { x: u8, y: [[u16; 2]; 3], } enum E { P { q: A, }, R, } channel c { s: A, }");
    let without = parse_str("struct A { x: u8 y: [[u16; 2]; 3] } enum E { P { q: A } R } channel c { s: A }");
    assert_eq!(with, without);
    assert_eq!(with.items.len(), 3);
}

#[test]
fn later_definitions_take_the_place_of_earlier_ones() {
    let layout = layout_from("struct A { x: u8 } struct B { a: A } struct A { x: u64 } struct C { a: A }");
    assert_eq!(layout.structs.get("A").unwrap().size, 8);
    assert_eq!(layout.structs.get("B").unwrap().size, 1);
    assert_eq!(layout.structs.get("C").unwrap().size, 8);
    assert_eq!(layout.structs.entries.len(), 3);
    // A struct hides an enum of the same name.
    let layout = layout_from("enum X { A } struct X { x: u64 } struct Y { x: X }");
    assert_eq!(layout.structs.get("Y").unwrap().size, 8);
    assert!(layout.enums.contains_key("X"));
}

#[test]
fn sizes_that_do_not_fit() {
    let schema = parse_str("struct A { x: [u64; 4611686018427387904] }");
    assert!(!layout_fits(&schema));
    assert!(matches!(lay_out(&schema), Err(LayoutError::TooLarge)));
    let schema = parse_str("struct A { x: [u8; 18446744073709551615] }");
    assert!(!layout_fits(&schema));
    let schema = parse_str("struct A { x: [u8; 18446744073709551614] }");
    assert!(layout_fits(&schema));
    assert_eq!(
        compute_layout(&schema).unwrap().structs.get("A").unwrap().size,
        18446744073709551614
    );
    // An unknown type before the overflow is reported as such.
    let schema = parse_str("struct A { n: No, x: [u64; 4611686018427387904] }");
    assert!(layout_fits(&schema));
    assert_eq!(compute_layout(&schema).unwrap_err(), "unknown type 'No'");
}

#[test]
fn variants_share_the_room_behind_the_tag() {
    let layout = layout_from("enum E { A { x: u64 }, B { a: u32, b: u32, c: u32 }, C { z: u8 } }");
    let e = layout.enums.get("E").unwrap();
    assert_eq!(e.max_payload_size, 12);
    assert_eq!(e.max_payload_align, 8);
    assert_eq!(e.align, 8);
    assert_eq!(e.size, 24);
    assert_eq!(e.variants[1].payload_size, 12);
    assert_eq!(e.variants[2].payload_align, 1);
}

#[test]
fn primitive_sizes() {
    let sizes: Vec<usize> = [
        PrimitiveType::U8,
        PrimitiveType::I16,
        PrimitiveType::F32,
        PrimitiveType::F64,
        PrimitiveType::Bool,
    ]
    .iter()
    .map(|p| p.size())
    .collect();
    assert_eq!(sizes, vec![1, 2, 4, 8, 1]);
    assert_eq!(PrimitiveType::U64.align(), 8);
}

#[test]
fn blanks_between_tokens_do_not_matter() {
    let tokens = [
        "namespace", "game", ";", "struct", "A", "{", "x", ":", "[", "u8", ";", "4", "]", ",", "}",
        "enum", "E", "{", "B", "{", "a", ":", "A", "}", "C", "}",
    ];
    let plain = tokens.join(" ");
    let spread = tokens.join(" // a note: { } ;\n\t\r\n //\n");
    let framed = format!("// first\n{spread} // last\n\n");
    let expected = format!("{:?}", parse(&plain).unwrap());
    assert_eq!(format!("{:?}", parse(&spread).unwrap()), expected);
    assert_eq!(format!("{:?}", parse(&framed).unwrap()), expected);
    // No blank is needed beside punctuation.
    let tight = "namespace game;struct A{x:[u8;4],}enum E{B{a:A}C}";
    assert_eq!(format!("{:?}", parse(tight).unwrap()), expected);
}

#[test]
fn payloads_are_laid_out_as_structs() {
    let (_, layout) = compile(
        "struct S { a: u8, b: u32, c: u8 } enum E { V { a: u8, b: u32, c: u8 }, W { d: u64 } }",
    )
    .unwrap();
    let s = layout.structs.get("S").unwrap();
    let v = &layout.enums.get("E").unwrap().variants[0];
    assert_eq!((v.payload_size, v.payload_align), (s.size, s.align));
    assert_eq!((s.size, s.align), (12, 4));
    for (x, y) in v.fields.iter().zip(s.fields.iter()) {
        assert_eq!((&x.name, x.offset, x.size, x.align), (&y.name, y.offset, y.size, y.align));
    }
}

#[test]
fn payloads_by_the_layout_functions() {
    let schema = parse("struct S { a: u8, b: u64 } enum E { V { a: u8, b: u64 }, W }").unwrap();
    let env = SchemaLayout { structs: NameMap::new(), enums: NameMap::new() };
    let (s, e) = match (&schema.items[0], &schema.items[1]) {
        (Item::Struct(s), Item::Enum(e)) => (
            compute_struct_layout(s, &env).unwrap(),
            compute_enum_layout(e, &env).unwrap(),
        ),
        _ => panic!("expected a struct and an enum"),
    };
    assert_eq!((s.size, s.align), (16, 8));
    assert_eq!((e.variants[0].payload_size, e.variants[0].payload_align), (16, 8));
    assert_eq!(e.variants[0].fields[1].offset, s.fields[1].offset);
    assert_eq!((e.variants[1].payload_size, e.variants[1].payload_align), (0, 1));
    assert_eq!((e.size, e.align), (24, 8));
}
