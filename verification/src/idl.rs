//! Compiler for the .bridge schema language.
pub mod abi;
pub mod ast;
pub mod blanks;
pub mod cli;
pub mod codegen;
pub mod declarations;
pub mod grammar;
pub mod layout;
pub mod lexer;
pub mod lexical;
pub mod names;
pub mod parser;
pub mod source;

use vstd::prelude::*;
use crate::idl::ast::Schema;
use crate::idl::codegen::Target;
use crate::idl::layout::{compute_layout, layout_fits, SchemaLayout};
use crate::idl::lexer::{Lexer, SpannedToken};
use crate::idl::parser::Parser;

verus! {

/// The schema that a source spells, or the message that says why it spells none.
pub open spec fn schema_of(b: Seq<u8>) -> Result<ast::SchemaView, Seq<char>> {
    match lexer::lex_all(b, 0) {
        Ok(all) => match parser::read_schema(source::lexemes(all), 0) {
            Ok((schema, _)) => Ok(schema),
            Err(fault) => Err(parser::fault_text(all, fault)),
        },
        Err(fault) => Err(lexer::fault_text(b, fault)),
    }
}

/// Whether no size or offset is too large in the layout of the schema that a source spells.
pub open spec fn source_fits(b: Seq<u8>) -> bool {
    schema_of(b) matches Ok(schema) ==> layout::layouts(schema.items) != Err::<
        layout::SchemaLayoutView,
        layout::LayoutFault,
    >(layout::LayoutFault::TooLarge)
}

/// The code for the schema that a source spells, or the message that says why there is none.
pub open spec fn code_of(target: Target, b: Seq<u8>) -> Result<Seq<char>, Seq<char>> {
    match schema_of(b) {
        Ok(schema) => match layout::layouts(schema.items) {
            Ok(env) => Ok(codegen::code_text(target, schema, env)),
            Err(layout::LayoutFault::Unknown(name)) => Err("unknown type '"@ + name + "'"@),
            Err(layout::LayoutFault::TooLarge) => Err(Seq::empty()),
        },
        Err(message) => Err(message),
    }
}

/// Parse a .bridge source string into a schema.
pub fn parse(input: &str) -> (r: Result<Schema, String>)
    requires
        vstd::utf8::encode_utf8(input@).len() < usize::MAX,
    ensures
        match schema_of(vstd::utf8::encode_utf8(input@)) {
            Ok(schema) => r matches Ok(found) && found@ == schema,
            Err(message) => r matches Err(found) && found@ == message,
        },
{
    let ghost b = vstd::utf8::encode_utf8(input@);
    let mut lexer: Lexer = Lexer::new(input);
    let tokens: Vec<SpannedToken> = match lexer.tokenize() {
        Ok(tokens) => tokens,
        Err(message) => {
            return Err(message);
        },
    };
    proof {
        let all = tokens@.map_values(|t: SpannedToken| t@);
        source::lemma_lex_all_ends(b, 0);
        assert(all.last() == tokens@.last()@);
        assert(source::lexemes(all) =~= tokens@.map_values(|t: SpannedToken| t.token@));
    }
    let mut parser: Parser = Parser::new(tokens);
    parser.parse()
}

/// Parse and compute layouts for a .bridge source string, in whose layout no size or offset is
/// too large.
pub fn compile(input: &str) -> (r: Result<(Schema, SchemaLayout), String>)
    requires
        vstd::utf8::encode_utf8(input@).len() < usize::MAX,
        source_fits(vstd::utf8::encode_utf8(input@)),
    ensures
        match schema_of(vstd::utf8::encode_utf8(input@)) {
            Ok(schema) => match layout::layouts(schema.items) {
                Ok(env) => r matches Ok((found, layout)) && found@ == schema && layout@ == env
                    && layout.wf(),
                Err(fault) => {
                    &&& fault matches layout::LayoutFault::Unknown(name)
                    &&& r matches Err(message)
                    &&& message@ == "unknown type '"@ + name + "'"@
                },
            },
            Err(message) => r matches Err(found) && found@ == message,
        },
{
    let schema: Schema = match parse(input) {
        Ok(schema) => schema,
        Err(message) => {
            return Err(message);
        },
    };
    match compute_layout(&schema) {
        Ok(layout) => Ok((schema, layout)),
        Err(message) => Err(message),
    }
}

/// Generate Rust code from a .bridge source string, in whose layout no size or offset is too
/// large.
pub fn generate_rust(input: &str) -> (r: Result<String, String>)
    requires
        vstd::utf8::encode_utf8(input@).len() < usize::MAX,
        source_fits(vstd::utf8::encode_utf8(input@)),
    ensures
        match code_of(Target::Rust, vstd::utf8::encode_utf8(input@)) {
            Ok(code) => r matches Ok(found) && found@ == code,
            Err(message) => r matches Err(found) && found@ == message,
        },
{
    let (schema, layout): (Schema, SchemaLayout) = match compile(input) {
        Ok(compiled) => compiled,
        Err(message) => {
            return Err(message);
        },
    };
    proof {
        codegen::lemma_layout_covers(schema@.items);
    }
    Ok(codegen::rust::generate(&schema, &layout))
}

/// Generate Python ctypes code from a .bridge source string, in whose layout no size or offset is
/// too large.
pub fn generate_python(input: &str) -> (r: Result<String, String>)
    requires
        vstd::utf8::encode_utf8(input@).len() < usize::MAX,
        source_fits(vstd::utf8::encode_utf8(input@)),
    ensures
        match code_of(Target::Python, vstd::utf8::encode_utf8(input@)) {
            Ok(code) => r matches Ok(found) && found@ == code,
            Err(message) => r matches Err(found) && found@ == message,
        },
{
    let (schema, layout): (Schema, SchemaLayout) = match compile(input) {
        Ok(compiled) => compiled,
        Err(message) => {
            return Err(message);
        },
    };
    proof {
        codegen::lemma_layout_covers(schema@.items);
    }
    Ok(codegen::python::generate(&schema, &layout))
}

/// Generate C++ code from a .bridge source string, in whose layout no size or offset is too
/// large.
pub fn generate_cpp(input: &str) -> (r: Result<String, String>)
    requires
        vstd::utf8::encode_utf8(input@).len() < usize::MAX,
        source_fits(vstd::utf8::encode_utf8(input@)),
    ensures
        match code_of(Target::Cpp, vstd::utf8::encode_utf8(input@)) {
            Ok(code) => r matches Ok(found) && found@ == code,
            Err(message) => r matches Err(found) && found@ == message,
        },
{
    let (schema, layout): (Schema, SchemaLayout) = match compile(input) {
        Ok(compiled) => compiled,
        Err(message) => {
            return Err(message);
        },
    };
    proof {
        codegen::lemma_layout_covers(schema@.items);
    }
    Ok(codegen::cpp::generate(&schema, &layout))
}

/// Whether no size or offset is too large in the layout of a source's schema, if it has one.
pub fn input_fits(input: &str) -> (r: bool)
    requires
        vstd::utf8::encode_utf8(input@).len() < usize::MAX,
    ensures
        r == source_fits(vstd::utf8::encode_utf8(input@)),
{
    match parse(input) {
        Ok(schema) => layout_fits(&schema),
        Err(_) => true,
    }
}

/// The source that a schema is written as, with commas or without, spells that schema; as long
/// as its names are identifiers and none of its named types has the name of a primitive.
pub proof fn law_source_roundtrip(schema: ast::SchemaView, commas: bool)
    requires
        source::clear_items(schema.items),
        forall|j: int|
            0 <= j < source::schema_tokens(schema, commas).len() ==> source::writable(
                #[trigger] source::schema_tokens(schema, commas)[j],
            ),
    ensures
        schema_of(source::source_bytes(source::schema_tokens(schema, commas))) == Ok::<
            ast::SchemaView,
            Seq<char>,
        >(schema),
{
    source::law_tokens_roundtrip(schema, commas);
    source::law_lexer_roundtrip(source::schema_tokens(schema, commas));
}

/// Sources whose tokens differ only in their places spell the same schema.
pub proof fn law_places_do_not_matter(
    a: Seq<u8>,
    b: Seq<u8>,
    found_a: Seq<lexer::Located>,
    found_b: Seq<lexer::Located>,
)
    requires
        lexer::lex_all(a, 0) == Ok::<Seq<lexer::Located>, lexer::LexFault>(found_a),
        lexer::lex_all(b, 0) == Ok::<Seq<lexer::Located>, lexer::LexFault>(found_b),
        source::lexemes(found_a) == source::lexemes(found_b),
    ensures
        schema_of(a) is Ok <==> schema_of(b) is Ok,
        schema_of(a) is Ok ==> schema_of(a) == schema_of(b),
{
}

/// White space and line comments put in before, between or behind the tokens of a source do not
/// change the schema that it spells.
pub proof fn law_blanks_do_not_matter(b: Seq<u8>, k: int, w: Seq<u8>)
    requires
        0 <= k <= b.len(),
        blanks::is_gap(b, 0, k),
        blanks::is_blank(w),
        schema_of(b) is Ok,
    ensures
        schema_of(blanks::with_inserted(b, k, w)) == schema_of(b),
{
    blanks::law_blanks_change_no_token(b, k, w);
}

/// A source spells exactly the schema whose tokens it is made of, up to the token that marks the
/// end.
pub proof fn law_sources_are_read(
    b: Seq<u8>,
    all: Seq<lexer::Located>,
    toks: Seq<lexer::Lexeme>,
    schema: ast::SchemaView,
)
    requires
        lexer::lex_all(b, 0) == Ok::<Seq<lexer::Located>, lexer::LexFault>(all),
        toks.len() == all.len(),
        forall|i: int| 0 <= i < all.len() ==> (#[trigger] all[i]).token == toks[i],
    ensures
        schema_of(b) == Ok::<ast::SchemaView, Seq<char>>(schema) <==> exists|end: int|
            0 <= end && #[trigger] grammar::is_schema(toks, schema, end) && (end >= toks.len()
                || toks[end] == lexer::Lexeme::Eof),
        parser::read_schema(toks, 0) matches Err(fault) ==> schema_of(b) == Err::<
            ast::SchemaView,
            Seq<char>,
        >(parser::fault_text(all, fault)),
{
    assert(source::lexemes(all) =~= toks);
    if schema_of(b) == Ok::<ast::SchemaView, Seq<char>>(schema) {
        let end = parser::read_schema(toks, 0)->Ok_0.1;
        grammar::law_schemas_are_read(toks, schema, end);
        assert(grammar::is_schema(toks, schema, end));
    }
    if exists|end: int|
        0 <= end && #[trigger] grammar::is_schema(toks, schema, end) && (end >= toks.len()
            || toks[end] == lexer::Lexeme::Eof) {
        let end = choose|end: int|
            0 <= end && #[trigger] grammar::is_schema(toks, schema, end) && (end >= toks.len()
                || toks[end] == lexer::Lexeme::Eof);
        grammar::law_schemas_are_read(toks, schema, end);
    }
}

/// There is code in a language exactly for what spells a schema with a layout; a source with a
/// fault gives the message about that in every language, and one with a type that is not known a
/// message with its name.
pub proof fn law_code_of_sources(target: Target, b: Seq<u8>)
    ensures
        lexer::lex_all(b, 0) matches Err(fault) ==> schema_of(b) == Err::<
            ast::SchemaView,
            Seq<char>,
        >(lexer::fault_text(b, fault)),
        schema_of(b) matches Err(message) ==> code_of(target, b) == Err::<Seq<char>, Seq<char>>(
            message,
        ),
        schema_of(b) matches Ok(schema) ==> {
            &&& layout::layouts(schema.items) matches Ok(env) ==> code_of(target, b) == Ok::<
                Seq<char>,
                Seq<char>,
            >(codegen::code_text(target, schema, env))
            &&& layout::layouts(schema.items) matches Err(
                layout::LayoutFault::Unknown(name),
            ) ==> code_of(target, b) == Err::<Seq<char>, Seq<char>>(
                "unknown type '"@ + name + "'"@,
            )
            &&& source_fits(b) <==> layout::layouts(schema.items) != Err::<
                layout::SchemaLayoutView,
                layout::LayoutFault,
            >(layout::LayoutFault::TooLarge)
        },
        schema_of(b) is Err ==> source_fits(b),
{
}

} // verus!
