//! The source text of a schema, and that parsing it gives the schema back.
use vstd::prelude::*;
use crate::idl::ast;
use crate::idl::ast::PrimitiveType;
use crate::idl::lexer;
use crate::idl::parser;
use crate::text;

verus! {

/// The name of a primitive type.
pub open spec fn primitive_name(p: PrimitiveType) -> Seq<char> {
    match p {
        PrimitiveType::U8 => "u8"@,
        PrimitiveType::U16 => "u16"@,
        PrimitiveType::U32 => "u32"@,
        PrimitiveType::U64 => "u64"@,
        PrimitiveType::I8 => "i8"@,
        PrimitiveType::I16 => "i16"@,
        PrimitiveType::I32 => "i32"@,
        PrimitiveType::I64 => "i64"@,
        PrimitiveType::F32 => "f32"@,
        PrimitiveType::F64 => "f64"@,
        PrimitiveType::Bool => "bool"@,
    }
}

/// A comma, where commas are written.
pub open spec fn comma(commas: bool) -> Seq<lexer::Lexeme> {
    if commas {
        seq![lexer::Lexeme::Comma]
    } else {
        Seq::empty()
    }
}

pub open spec fn type_tokens(ty: ast::TypeView) -> Seq<lexer::Lexeme>
    decreases ty,
{
    match ty {
        ast::TypeView::Primitive(p) => seq![lexer::Lexeme::Ident(primitive_name(p))],
        ast::TypeView::Array(inner, count) => seq![lexer::Lexeme::LBracket] + (type_tokens(*inner)
            + seq![
            lexer::Lexeme::Semicolon,
            lexer::Lexeme::IntLit(count),
            lexer::Lexeme::RBracket,
        ]),
        ast::TypeView::Named(name) => seq![lexer::Lexeme::Ident(name)],
    }
}

pub open spec fn field_tokens(field: ast::FieldView, commas: bool) -> Seq<lexer::Lexeme> {
    seq![lexer::Lexeme::Ident(field.name), lexer::Lexeme::Colon] + (type_tokens(field.ty) + comma(
        commas,
    ))
}

pub open spec fn fields_tokens(fields: Seq<ast::FieldView>, commas: bool) -> Seq<lexer::Lexeme>
    decreases fields.len(),
{
    if fields.len() == 0 {
        Seq::empty()
    } else {
        field_tokens(fields[0], commas) + fields_tokens(fields.drop_first(), commas)
    }
}

/// A variant without fields has no braces.
pub open spec fn variant_tokens(variant: ast::VariantView, commas: bool) -> Seq<lexer::Lexeme> {
    seq![lexer::Lexeme::Ident(variant.name)] + ((if variant.fields.len() == 0 {
        Seq::empty()
    } else {
        seq![lexer::Lexeme::LBrace] + (fields_tokens(variant.fields, commas) + seq![
            lexer::Lexeme::RBrace,
        ])
    }) + comma(commas))
}

pub open spec fn variants_tokens(variants: Seq<ast::VariantView>, commas: bool) -> Seq<
    lexer::Lexeme,
>
    decreases variants.len(),
{
    if variants.len() == 0 {
        Seq::empty()
    } else {
        variant_tokens(variants[0], commas) + variants_tokens(variants.drop_first(), commas)
    }
}

pub open spec fn entries_tokens(entries: Seq<ast::EntryView>, commas: bool) -> Seq<lexer::Lexeme>
    decreases entries.len(),
{
    if entries.len() == 0 {
        Seq::empty()
    } else {
        (seq![
            lexer::Lexeme::Ident(entries[0].name),
            lexer::Lexeme::Colon,
            lexer::Lexeme::Ident(entries[0].ty),
        ] + comma(commas)) + entries_tokens(entries.drop_first(), commas)
    }
}

pub open spec fn item_tokens(item: ast::ItemView, commas: bool) -> Seq<lexer::Lexeme> {
    match item {
        ast::ItemView::Struct(def) => seq![
            lexer::Lexeme::Struct,
            lexer::Lexeme::Ident(def.name),
            lexer::Lexeme::LBrace,
        ] + (fields_tokens(def.fields, commas) + seq![lexer::Lexeme::RBrace]),
        ast::ItemView::Enum(def) => seq![
            lexer::Lexeme::Enum,
            lexer::Lexeme::Ident(def.name),
            lexer::Lexeme::LBrace,
        ] + (variants_tokens(def.variants, commas) + seq![lexer::Lexeme::RBrace]),
        ast::ItemView::Channel(def) => seq![
            lexer::Lexeme::Channel,
            lexer::Lexeme::Ident(def.name),
            lexer::Lexeme::LBrace,
        ] + (entries_tokens(def.entries, commas) + seq![lexer::Lexeme::RBrace]),
    }
}

pub open spec fn items_tokens(items: Seq<ast::ItemView>, commas: bool) -> Seq<lexer::Lexeme>
    decreases items.len(),
{
    if items.len() == 0 {
        Seq::empty()
    } else {
        item_tokens(items[0], commas) + items_tokens(items.drop_first(), commas)
    }
}

/// The tokens of a schema, without the one that marks the end; with a comma behind every field,
/// variant and channel entry, or with none.
pub open spec fn schema_tokens(schema: ast::SchemaView, commas: bool) -> Seq<lexer::Lexeme> {
    (match schema.namespace {
        Some(name) => seq![
            lexer::Lexeme::Namespace,
            lexer::Lexeme::Ident(name),
            lexer::Lexeme::Semicolon,
        ],
        None => Seq::empty(),
    }) + items_tokens(schema.items, commas)
}

/// Whether no named type in a type has the name of a primitive.
pub open spec fn clear_type(ty: ast::TypeView) -> bool
    decreases ty,
{
    match ty {
        ast::TypeView::Primitive(_) => true,
        ast::TypeView::Array(inner, _) => clear_type(*inner),
        ast::TypeView::Named(name) => parser::named_type(name) == ast::TypeView::Named(name),
    }
}

pub open spec fn clear_fields(fields: Seq<ast::FieldView>) -> bool {
    forall|i: int| 0 <= i < fields.len() ==> clear_type((#[trigger] fields[i]).ty)
}

pub open spec fn clear_item(item: ast::ItemView) -> bool {
    match item {
        ast::ItemView::Struct(def) => clear_fields(def.fields),
        ast::ItemView::Enum(def) => forall|j: int|
            0 <= j < def.variants.len() ==> clear_fields((#[trigger] def.variants[j]).fields),
        ast::ItemView::Channel(_) => true,
    }
}

/// Whether no named type in declarations has the name of a primitive.
pub open spec fn clear_items(items: Seq<ast::ItemView>) -> bool {
    forall|i: int| 0 <= i < items.len() ==> clear_item(#[trigger] items[i])
}

/// Whether `part` stands in `all` at `i`.
spec fn stands<T>(all: Seq<T>, i: int, part: Seq<T>) -> bool {
    &&& 0 <= i
    &&& i + part.len() <= all.len()
    &&& forall|j: int| 0 <= j < part.len() ==> all[i + j] == #[trigger] part[j]
}

proof fn lemma_stands<T>(all: Seq<T>, i: int, a: Seq<T>, b: Seq<T>)
    requires
        stands(all, i, a + b),
    ensures
        stands(all, i, a),
        stands(all, i + a.len(), b),
{
    assert forall|j: int| 0 <= j < a.len() implies all[i + j] == #[trigger] a[j] by {
        assert((a + b)[j] == a[j]);
    }
    assert forall|j: int| 0 <= j < b.len() implies all[i + a.len() + j] == #[trigger] b[j] by {
        assert((a + b)[a.len() + j] == b[j]);
    }
}

/// The names of the primitives stand for them.
proof fn lemma_primitive_names(p: PrimitiveType)
    ensures
        parser::named_type(primitive_name(p)) == ast::TypeView::Primitive(p),
{
    reveal_strlit("u8");
    reveal_strlit("u16");
    reveal_strlit("u32");
    reveal_strlit("u64");
    reveal_strlit("i8");
    reveal_strlit("i16");
    reveal_strlit("i32");
    reveal_strlit("i64");
    reveal_strlit("f32");
    reveal_strlit("f64");
    reveal_strlit("bool");
    let name = primitive_name(p);
    assert(name.len() <= 4 && name[0] == name[0] && name[1] == name[1] && name[2] == name[2]);
    assert("u8"@.len() == 2 && "i8"@.len() == 2 && "bool"@.len() == 4);
    assert("u16"@[1] == '1' && "u32"@[1] == '3' && "u64"@[1] == '6');
    assert("i16"@[1] == '1' && "i32"@[1] == '3' && "i64"@[1] == '6');
    assert("f32"@[1] == '3' && "f64"@[1] == '6');
    assert("u16"@[0] == 'u' && "u32"@[0] == 'u' && "u64"@[0] == 'u' && "u8"@[0] == 'u');
    assert("i16"@[0] == 'i' && "i32"@[0] == 'i' && "i64"@[0] == 'i' && "i8"@[0] == 'i');
    assert("f32"@[0] == 'f' && "f64"@[0] == 'f' && "bool"@[0] == 'b');
}

proof fn lemma_read_type(toks: Seq<lexer::Lexeme>, i: int, ty: ast::TypeView)
    requires
        clear_type(ty),
        stands(toks, i, type_tokens(ty)),
    ensures
        parser::read_type(toks, i) == Ok::<(ast::TypeView, int), parser::Fault>(
            (ty, i + type_tokens(ty).len()),
        ),
    decreases ty,
{
    match ty {
        ast::TypeView::Primitive(p) => {
            lemma_primitive_names(p);
            assert(toks[i + 0] == type_tokens(ty)[0]);
        },
        ast::TypeView::Array(inner, count) => {
            let tail = seq![
                lexer::Lexeme::Semicolon,
                lexer::Lexeme::IntLit(count),
                lexer::Lexeme::RBracket,
            ];
            lemma_stands(
                toks,
                i,
                seq![lexer::Lexeme::LBracket],
                type_tokens(*inner) + tail,
            );
            lemma_stands(toks, i + 1, type_tokens(*inner), tail);
            lemma_read_type(toks, i + 1, *inner);
            assert(toks[i + 0] == seq![lexer::Lexeme::LBracket][0]);
            let k = i + 1 + type_tokens(*inner).len();
            assert(toks[k + 0] == tail[0]);
            assert(toks[k + 1] == tail[1]);
            assert(toks[k + 2] == tail[2]);
        },
        ast::TypeView::Named(name) => {
            assert(toks[i + 0] == type_tokens(ty)[0]);
        },
    }
}

/// A comma behind an entry of a list is passed over, if it is there; what follows is none.
proof fn lemma_comma(toks: Seq<lexer::Lexeme>, i: int, commas: bool)
    requires
        stands(toks, i, comma(commas)),
        parser::tok(toks, i + comma(commas).len()) != lexer::Lexeme::Comma,
    ensures
        parser::skip_comma(toks, i) == i + comma(commas).len(),
{
    if commas {
        assert(toks[i + 0] == comma(commas)[0]);
    }
}

proof fn lemma_read_fields(
    toks: Seq<lexer::Lexeme>,
    i: int,
    fields: Seq<ast::FieldView>,
    commas: bool,
)
    requires
        clear_fields(fields),
        stands(toks, i, fields_tokens(fields, commas)),
        parser::tok(toks, i + fields_tokens(fields, commas).len()) == lexer::Lexeme::RBrace,
    ensures
        parser::read_fields(toks, i) == Ok::<(Seq<ast::FieldView>, int), parser::Fault>(
            (fields, i + fields_tokens(fields, commas).len()),
        ),
    decreases fields.len(),
{
    if fields.len() > 0 {
        let field = fields[0];
        let rest = fields.drop_first();
        let head = seq![lexer::Lexeme::Ident(field.name), lexer::Lexeme::Colon];
        let ty = type_tokens(field.ty);
        lemma_stands(toks, i, field_tokens(field, commas), fields_tokens(rest, commas));
        lemma_stands(toks, i, head, ty + comma(commas));
        lemma_stands(toks, i + 2, ty, comma(commas));
        lemma_read_type(toks, i + 2, field.ty);
        assert(toks[i + 0] == head[0]);
        assert(toks[i + 1] == head[1]);
        let j = i + 2 + ty.len();
        let k = j + comma(commas).len();
        if rest.len() > 0 {
            assert(fields_tokens(rest, commas)[0] == lexer::Lexeme::Ident(rest[0].name));
            assert(toks[k + 0] == fields_tokens(rest, commas)[0]);
        }
        lemma_comma(toks, j, commas);
        assert forall|m: int| 0 <= m < rest.len() implies clear_type((#[trigger] rest[m]).ty) by {
            assert(rest[m] == fields[m + 1]);
        }
        lemma_read_fields(toks, k, rest, commas);
        assert(seq![field] + rest =~= fields);
    } else {
        assert(fields =~= Seq::<ast::FieldView>::empty());
    }
}

proof fn lemma_read_variants(
    toks: Seq<lexer::Lexeme>,
    i: int,
    variants: Seq<ast::VariantView>,
    commas: bool,
)
    requires
        forall|j: int|
            0 <= j < variants.len() ==> clear_fields((#[trigger] variants[j]).fields),
        stands(toks, i, variants_tokens(variants, commas)),
        parser::tok(toks, i + variants_tokens(variants, commas).len()) == lexer::Lexeme::RBrace,
    ensures
        parser::read_variants(toks, i) == Ok::<(Seq<ast::VariantView>, int), parser::Fault>(
            (variants, i + variants_tokens(variants, commas).len()),
        ),
    decreases variants.len(),
{
    if variants.len() > 0 {
        let variant = variants[0];
        let rest = variants.drop_first();
        let head = seq![lexer::Lexeme::Ident(variant.name)];
        let open = seq![lexer::Lexeme::LBrace];
        let close = seq![lexer::Lexeme::RBrace];
        let inner = fields_tokens(variant.fields, commas);
        let block = if variant.fields.len() == 0 {
            Seq::empty()
        } else {
            open + (inner + close)
        };
        lemma_stands(toks, i, variant_tokens(variant, commas), variants_tokens(rest, commas));
        lemma_stands(toks, i, head, block + comma(commas));
        lemma_stands(toks, i + 1, block, comma(commas));
        assert(toks[i + 0] == head[0]);
        let j = i + 1 + block.len();
        let k = j + comma(commas).len();
        if rest.len() > 0 {
            assert(variants_tokens(rest, commas)[0] == lexer::Lexeme::Ident(rest[0].name));
            assert(toks[k + 0] == variants_tokens(rest, commas)[0]);
        }
        lemma_comma(toks, j, commas);
        if variant.fields.len() > 0 {
            lemma_stands(toks, i + 1, open, inner + close);
            lemma_stands(toks, i + 2, inner, close);
            assert(toks[i + 1 + 0] == open[0]);
            assert(toks[i + 2 + inner.len() + 0] == close[0]);
            lemma_read_fields(toks, i + 2, variant.fields, commas);
        } else {
            assert(variant.fields =~= Seq::<ast::FieldView>::empty());
            assert(parser::tok(toks, i + 1) != lexer::Lexeme::LBrace) by {
                if commas {
                    assert(toks[i + 1 + 0] == comma(commas)[0]);
                }
            }
        }
        assert(parser::read_variant(toks, i) == Ok::<(ast::VariantView, int), parser::Fault>(
            (variant, j),
        ));
        assert forall|m: int| 0 <= m < rest.len() implies clear_fields(
            (#[trigger] rest[m]).fields,
        ) by {
            assert(rest[m] == variants[m + 1]);
        }
        lemma_read_variants(toks, k, rest, commas);
        assert(seq![variant] + rest =~= variants);
    } else {
        assert(variants =~= Seq::<ast::VariantView>::empty());
    }
}

proof fn lemma_read_entries(
    toks: Seq<lexer::Lexeme>,
    i: int,
    entries: Seq<ast::EntryView>,
    commas: bool,
)
    requires
        stands(toks, i, entries_tokens(entries, commas)),
        parser::tok(toks, i + entries_tokens(entries, commas).len()) == lexer::Lexeme::RBrace,
    ensures
        parser::read_entries(toks, i) == Ok::<(Seq<ast::EntryView>, int), parser::Fault>(
            (entries, i + entries_tokens(entries, commas).len()),
        ),
    decreases entries.len(),
{
    if entries.len() > 0 {
        let entry = entries[0];
        let rest = entries.drop_first();
        let head = seq![
            lexer::Lexeme::Ident(entry.name),
            lexer::Lexeme::Colon,
            lexer::Lexeme::Ident(entry.ty),
        ];
        lemma_stands(toks, i, head + comma(commas), entries_tokens(rest, commas));
        lemma_stands(toks, i, head, comma(commas));
        assert(toks[i + 0] == head[0]);
        assert(toks[i + 1] == head[1]);
        assert(toks[i + 2] == head[2]);
        let k = i + 3 + comma(commas).len();
        if rest.len() > 0 {
            assert(entries_tokens(rest, commas)[0] == lexer::Lexeme::Ident(rest[0].name));
            assert(toks[k + 0] == entries_tokens(rest, commas)[0]);
        }
        lemma_comma(toks, i + 3, commas);
        lemma_read_entries(toks, k, rest, commas);
        assert(seq![entry] + rest =~= entries);
    } else {
        assert(entries =~= Seq::<ast::EntryView>::empty());
    }
}

proof fn lemma_read_item(toks: Seq<lexer::Lexeme>, i: int, item: ast::ItemView, commas: bool)
    requires
        clear_item(item),
        stands(toks, i, item_tokens(item, commas)),
    ensures
        parser::read_item(toks, i) == Ok::<(ast::ItemView, int), parser::Fault>(
            (item, i + item_tokens(item, commas).len()),
        ),
{
    let close = seq![lexer::Lexeme::RBrace];
    match item {
        ast::ItemView::Struct(def) => {
            let head = seq![
                lexer::Lexeme::Struct,
                lexer::Lexeme::Ident(def.name),
                lexer::Lexeme::LBrace,
            ];
            let inner = fields_tokens(def.fields, commas);
            lemma_stands(toks, i, head, inner + close);
            lemma_stands(toks, i + 3, inner, close);
            assert(toks[i + 0] == head[0]);
            assert(toks[i + 1] == head[1]);
            assert(toks[i + 2] == head[2]);
            assert(toks[i + 3 + inner.len() + 0] == close[0]);
            lemma_read_fields(toks, i + 3, def.fields, commas);
        },
        ast::ItemView::Enum(def) => {
            let head = seq![
                lexer::Lexeme::Enum,
                lexer::Lexeme::Ident(def.name),
                lexer::Lexeme::LBrace,
            ];
            let inner = variants_tokens(def.variants, commas);
            lemma_stands(toks, i, head, inner + close);
            lemma_stands(toks, i + 3, inner, close);
            assert(toks[i + 0] == head[0]);
            assert(toks[i + 1] == head[1]);
            assert(toks[i + 2] == head[2]);
            assert(toks[i + 3 + inner.len() + 0] == close[0]);
            lemma_read_variants(toks, i + 3, def.variants, commas);
        },
        ast::ItemView::Channel(def) => {
            let head = seq![
                lexer::Lexeme::Channel,
                lexer::Lexeme::Ident(def.name),
                lexer::Lexeme::LBrace,
            ];
            let inner = entries_tokens(def.entries, commas);
            lemma_stands(toks, i, head, inner + close);
            lemma_stands(toks, i + 3, inner, close);
            assert(toks[i + 0] == head[0]);
            assert(toks[i + 1] == head[1]);
            assert(toks[i + 2] == head[2]);
            assert(toks[i + 3 + inner.len() + 0] == close[0]);
            lemma_read_entries(toks, i + 3, def.entries, commas);
        },
    }
}

proof fn lemma_read_items(
    toks: Seq<lexer::Lexeme>,
    i: int,
    items: Seq<ast::ItemView>,
    commas: bool,
)
    requires
        clear_items(items),
        stands(toks, i, items_tokens(items, commas)),
        parser::tok(toks, i + items_tokens(items, commas).len()) == lexer::Lexeme::Eof,
    ensures
        parser::read_items(toks, i) == Ok::<(Seq<ast::ItemView>, int), parser::Fault>(
            (items, i + items_tokens(items, commas).len()),
        ),
    decreases items.len(),
{
    if items.len() > 0 {
        let item = items[0];
        let rest = items.drop_first();
        lemma_stands(toks, i, item_tokens(item, commas), items_tokens(rest, commas));
        lemma_read_item(toks, i, item, commas);
        assert forall|m: int| 0 <= m < rest.len() implies clear_item(#[trigger] rest[m]) by {
            assert(rest[m] == items[m + 1]);
        }
        lemma_read_items(toks, i + item_tokens(item, commas).len(), rest, commas);
        assert(item_tokens(item, commas).len() >= 3);
        assert(toks[i + 0] == item_tokens(item, commas)[0]);
        assert(seq![item] + rest =~= items);
    } else {
        assert(items =~= Seq::<ast::ItemView>::empty());
    }
}

/// The tokens of a schema, with commas or without, are read as that schema, as long as no named
/// type in it has the name of a primitive.
pub proof fn law_tokens_roundtrip(schema: ast::SchemaView, commas: bool)
    requires
        clear_items(schema.items),
    ensures
        ({
            let toks = schema_tokens(schema, commas).push(lexer::Lexeme::Eof);
            parser::read_schema(toks, 0) == Ok::<(ast::SchemaView, int), parser::Fault>(
                (schema, schema_tokens(schema, commas).len() as int),
            )
        }),
{
    let all = schema_tokens(schema, commas);
    let toks = all.push(lexer::Lexeme::Eof);
    let body = items_tokens(schema.items, commas);
    assert forall|j: int| 0 <= j < all.len() implies toks[0int + j] == #[trigger] all[j] by {}
    assert(stands(toks, 0, all));
    match schema.namespace {
        Some(name) => {
            let head = seq![
                lexer::Lexeme::Namespace,
                lexer::Lexeme::Ident(name),
                lexer::Lexeme::Semicolon,
            ];
            assert(all == head + body);
            lemma_stands(toks, 0, head, body);
            assert(toks[0int + 0] == head[0]);
            assert(toks[0int + 1] == head[1]);
            assert(toks[0int + 2] == head[2]);
            lemma_read_items(toks, 3, schema.items, commas);
        },
        None => {
            assert(all =~= body);
            lemma_first_token(schema.items, commas);
            if body.len() > 0 {
                assert(toks[0int + 0] == body[0]);
            }
            lemma_read_items(toks, 0, schema.items, commas);
        },
    }
}

/// Declarations do not start with a namespace.
proof fn lemma_first_token(items: Seq<ast::ItemView>, commas: bool)
    ensures
        items_tokens(items, commas).len() > 0 ==> items_tokens(items, commas)[0]
            != lexer::Lexeme::Namespace,
{
    if items.len() > 0 {
        let first = item_tokens(items[0], commas);
        assert(first.len() >= 3);
        assert(items_tokens(items, commas)[0] == first[0]);
    }
}

/// The bytes of a name, one for each character.
pub open spec fn name_bytes(name: Seq<char>) -> Seq<u8> {
    name.map_values(|c: char| c as u8)
}

/// The bytes of a token's source.
pub open spec fn lexeme_bytes(t: lexer::Lexeme) -> Seq<u8> {
    match t {
        lexer::Lexeme::Namespace => name_bytes("namespace"@),
        lexer::Lexeme::Struct => name_bytes("struct"@),
        lexer::Lexeme::Enum => name_bytes("enum"@),
        lexer::Lexeme::Channel => name_bytes("channel"@),
        lexer::Lexeme::Ident(name) => name_bytes(name),
        lexer::Lexeme::IntLit(n) => name_bytes(text::decimal(n as nat)),
        lexer::Lexeme::LBrace => seq![123u8],
        lexer::Lexeme::RBrace => seq![125u8],
        lexer::Lexeme::LBracket => seq![91u8],
        lexer::Lexeme::RBracket => seq![93u8],
        lexer::Lexeme::Colon => seq![58u8],
        lexer::Lexeme::Semicolon => seq![59u8],
        lexer::Lexeme::Comma => seq![44u8],
        lexer::Lexeme::Eof => Seq::empty(),
    }
}

/// The source of tokens: each with a space behind it.
pub open spec fn source_bytes(toks: Seq<lexer::Lexeme>) -> Seq<u8>
    decreases toks.len(),
{
    if toks.len() == 0 {
        Seq::empty()
    } else {
        lexeme_bytes(toks[0]).push(32u8) + source_bytes(toks.drop_first())
    }
}

/// Whether a name is an identifier: ASCII letters, digits and underscores, not starting with a
/// digit, and no keyword.
pub open spec fn is_identifier(name: Seq<char>) -> bool {
    &&& is_word_text(name)
    &&& lexer::word_token(name) == lexer::Lexeme::Ident(name)
}

/// Whether a text is one that an identifier or a keyword can have.
pub open spec fn is_word_text(name: Seq<char>) -> bool {
    &&& name.len() > 0
    &&& lexer::is_letter(name[0] as u8)
    &&& forall|i: int|
        0 <= i < name.len() ==> (#[trigger] name[i] as u32) < 128 && lexer::is_word(name[i] as u8)
}

/// Whether a token can be written: its identifier, if it is one, is an identifier.
pub open spec fn writable(t: lexer::Lexeme) -> bool {
    match t {
        lexer::Lexeme::Ident(name) => is_identifier(name),
        lexer::Lexeme::Eof => false,
        _ => true,
    }
}

proof fn lemma_word_run(b: Seq<u8>, i: int, end: int)
    requires
        0 <= i <= end < b.len(),
        forall|j: int| i <= j < end ==> lexer::is_word(#[trigger] b[j]),
        !lexer::is_word(b[end]),
    ensures
        lexer::word_end(b, i) == end,
    decreases end - i,
{
    if i < end {
        lemma_word_run(b, i + 1, end);
    }
}

proof fn lemma_digit_run(b: Seq<u8>, i: int, end: int)
    requires
        0 <= i <= end < b.len(),
        forall|j: int| i <= j < end ==> lexer::is_digit(#[trigger] b[j]),
        !lexer::is_digit(b[end]),
    ensures
        lexer::digits_end(b, i) == end,
    decreases end - i,
{
    if i < end {
        lemma_digit_run(b, i + 1, end);
    }
}

/// A number in decimal is a run of digits that stands for it.
proof fn lemma_decimal_bytes(n: nat)
    ensures
        name_bytes(text::decimal(n)).len() > 0,
        forall|i: int|
            0 <= i < name_bytes(text::decimal(n)).len() ==> lexer::is_digit(
                #[trigger] name_bytes(text::decimal(n))[i],
            ),
        lexer::digits_value(name_bytes(text::decimal(n))) == n,
    decreases n,
{
    let all = name_bytes(text::decimal(n));
    let last = text::digit_char(n % 10) as u8;
    assert(last == 48 + n % 10);
    if n >= 10 {
        let front = name_bytes(text::decimal(n / 10));
        lemma_decimal_bytes(n / 10);
        assert(all =~= front.push(last));
        assert(all.drop_last() =~= front);
    } else {
        assert(all =~= seq![last]);
        assert(all.drop_last() =~= Seq::<u8>::empty());
        assert(lexer::digits_value(Seq::<u8>::empty()) == 0);
    }
}

/// A word is read as the token that it is.
proof fn lemma_lex_word(b: Seq<u8>, i: int, name: Seq<char>)
    requires
        is_word_text(name),
        stands(b, i, name_bytes(name).push(32u8)),
    ensures
        lexer::lex_one(b, i) == Ok::<(lexer::Lexeme, int), lexer::LexFault>(
            (lexer::word_token(name), i + name.len()),
        ),
{
    let bytes = name_bytes(name);
    let end = i + name.len();
    assert forall|j: int| i <= j < end implies lexer::is_word(#[trigger] b[j]) by {
        assert(b[i + (j - i)] == bytes.push(32u8)[j - i]);
    }
    assert(b[i + name.len()] == bytes.push(32u8)[name.len() as int]);
    assert(b[i + 0] == bytes.push(32u8)[0]);
    lemma_word_run(b, i, end);
    let word = lexer::text_of(b.subrange(i, end));
    assert forall|j: int| 0 <= j < name.len() implies word[j] == #[trigger] name[j] by {
        assert(b[i + j] == bytes.push(32u8)[j]);
        vstd::utf8::char_u32_cast(name[j], name[j] as u32);
    }
    assert(word =~= name);
}

proof fn lemma_keywords()
    ensures
        is_word_text("namespace"@),
        is_word_text("struct"@),
        is_word_text("enum"@),
        is_word_text("channel"@),
        lexer::word_token("struct"@) == lexer::Lexeme::Struct,
        lexer::word_token("enum"@) == lexer::Lexeme::Enum,
        lexer::word_token("channel"@) == lexer::Lexeme::Channel,
        lexer::word_token("namespace"@) == lexer::Lexeme::Namespace,
{
    reveal_strlit("namespace");
    reveal_strlit("struct");
    reveal_strlit("enum");
    reveal_strlit("channel");
    assert("namespace"@.len() == 9 && "struct"@.len() == 6 && "enum"@.len() == 4
        && "channel"@.len() == 7);
}

/// A token with a space behind it is read as that token, and does not start like a blank.
proof fn lemma_lex_token(b: Seq<u8>, i: int, t: lexer::Lexeme)
    requires
        writable(t),
        stands(b, i, lexeme_bytes(t).push(32u8)),
    ensures
        lexer::lex_one(b, i) == Ok::<(lexer::Lexeme, int), lexer::LexFault>(
            (t, i + lexeme_bytes(t).len()),
        ),
        i < b.len(),
        !lexer::is_space(b[i]),
        b[i] != 47,
{
    let bytes = lexeme_bytes(t).push(32u8);
    lemma_keywords();
    match t {
        lexer::Lexeme::Namespace => lemma_lex_word(b, i, "namespace"@),
        lexer::Lexeme::Struct => lemma_lex_word(b, i, "struct"@),
        lexer::Lexeme::Enum => lemma_lex_word(b, i, "enum"@),
        lexer::Lexeme::Channel => lemma_lex_word(b, i, "channel"@),
        lexer::Lexeme::Ident(name) => lemma_lex_word(b, i, name),
        lexer::Lexeme::IntLit(n) => {
            let digits = lexeme_bytes(t);
            lemma_decimal_bytes(n as nat);
            let end = i + digits.len();
            assert forall|j: int| i <= j < end implies lexer::is_digit(#[trigger] b[j]) by {
                assert(b[i + (j - i)] == bytes[j - i]);
                assert(lexer::is_digit(digits[j - i]));
            }
            assert(b[i + digits.len()] == bytes[digits.len() as int]);
            lemma_digit_run(b, i, end);
            assert forall|j: int| 0 <= j < digits.len() implies b.subrange(i, end)[j]
                == #[trigger] digits[j] by {
                assert(b[i + j] == bytes[j]);
            }
            assert(b.subrange(i, end) =~= digits);
            assert(lexer::is_digit(b[i]));
        },
        _ => {},
    }
    assert(b[i + 0] == bytes[0]);
}

/// The tokens of a source, without their places.
pub open spec fn lexemes(all: Seq<lexer::Located>) -> Seq<lexer::Lexeme> {
    all.map_values(|t: lexer::Located| t.token)
}

proof fn lemma_lex_source(b: Seq<u8>, i: int, toks: Seq<lexer::Lexeme>)
    requires
        forall|j: int| 0 <= j < toks.len() ==> writable(#[trigger] toks[j]),
        stands(b, i, source_bytes(toks)),
        i + source_bytes(toks).len() == b.len(),
    ensures
        lexer::lex_all(b, i) matches Ok(all) && lexemes(all) == toks.push(lexer::Lexeme::Eof),
    decreases toks.len(),
{
    if toks.len() == 0 {
        let all = lexer::lex_all(b, i)->Ok_0;
        assert(lexemes(all) =~= toks.push(lexer::Lexeme::Eof));
    } else {
        let t = toks[0];
        let rest = toks.drop_first();
        let first = lexeme_bytes(t).push(32u8);
        lemma_stands(b, i, first, source_bytes(rest));
        lemma_lex_token(b, i, t);
        assert(lexer::skip_blank(b, i) == i);
        let end = i + lexeme_bytes(t).len();
        assert(b[i + lexeme_bytes(t).len()] == first[lexeme_bytes(t).len() as int]);
        assert forall|j: int| 0 <= j < rest.len() implies writable(#[trigger] rest[j]) by {
            assert(rest[j] == toks[j + 1]);
        }
        lemma_lex_source(b, end + 1, rest);
        lemma_skip_space(b, end);
        let all = lexer::lex_all(b, i)->Ok_0;
        let tail = lexer::lex_all(b, end)->Ok_0;
        assert(lexemes(all) =~= seq![t] + lexemes(tail));
        assert(lexemes(all) =~= toks.push(lexer::Lexeme::Eof));
    }
}

/// A space in front changes nothing.
proof fn lemma_skip_space(b: Seq<u8>, i: int)
    requires
        0 <= i < b.len(),
        b[i] == 32,
    ensures
        lexer::lex_all(b, i) == lexer::lex_all(b, i + 1),
{
    assert(lexer::skip_blank(b, i) == lexer::skip_blank(b, i + 1));
}

/// Writable tokens, each followed by a space, are read back as those tokens.
pub proof fn law_lexer_roundtrip(toks: Seq<lexer::Lexeme>)
    requires
        forall|j: int| 0 <= j < toks.len() ==> writable(#[trigger] toks[j]),
    ensures
        lexer::lex_all(source_bytes(toks), 0) matches Ok(all) && lexemes(all) == toks.push(
            lexer::Lexeme::Eof,
        ),
{
    let b = source_bytes(toks);
    assert(stands(b, 0, b)) by {
        assert forall|j: int| 0 <= j < b.len() implies b[0 + j] == #[trigger] b[j] by {}
    }
    lemma_lex_source(b, 0, toks);
}

/// The tokens of a readable source end with the mark of its end, which stands nowhere else.
pub proof fn lemma_lex_all_ends(b: Seq<u8>, i: int)
    requires
        0 <= i <= b.len(),
    ensures
        lexer::lex_all(b, i) matches Ok(all) ==> all.len() > 0 && all.last().token
            == lexer::Lexeme::Eof,
    decreases b.len() - i,
{
    lexer::lemma_skip_blank(b, i);
    let p = lexer::skip_blank(b, i);
    if p < b.len() {
        lexer::lemma_lex_one(b, p);
        if let Ok((_, end)) = lexer::lex_one(b, p) {
            lemma_lex_all_ends(b, end);
        }
    }
}

} // verus!
