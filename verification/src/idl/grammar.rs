//! The grammar of the .bridge format: which tokens spell which syntax tree.
use vstd::prelude::*;
use crate::idl::ast;
use crate::idl::ast::PrimitiveType;
use crate::idl::lexer;
use crate::idl::parser;
use crate::idl::parser::{Fault, Wanted};
use crate::text;

verus! {

/// Whether the token `t` stands at `i`.
pub open spec fn at(toks: Seq<lexer::Lexeme>, i: int, t: lexer::Lexeme) -> bool {
    0 <= i < toks.len() && toks[i] == t
}

/// Whether an identifier stands at `i`.
pub open spec fn name_at(toks: Seq<lexer::Lexeme>, i: int) -> bool {
    0 <= i < toks.len() && toks[i] is Ident
}

/// Whether a type of no brackets is written as this name: the eleven primitives have their names,
/// and any other name is that of a struct or enum.
pub open spec fn is_named(name: Seq<char>, ty: ast::TypeView) -> bool {
    match ty {
        ast::TypeView::Primitive(_) => {
            ||| name == "u8"@ && ty == ast::TypeView::Primitive(PrimitiveType::U8)
            ||| name == "u16"@ && ty == ast::TypeView::Primitive(PrimitiveType::U16)
            ||| name == "u32"@ && ty == ast::TypeView::Primitive(PrimitiveType::U32)
            ||| name == "u64"@ && ty == ast::TypeView::Primitive(PrimitiveType::U64)
            ||| name == "i8"@ && ty == ast::TypeView::Primitive(PrimitiveType::I8)
            ||| name == "i16"@ && ty == ast::TypeView::Primitive(PrimitiveType::I16)
            ||| name == "i32"@ && ty == ast::TypeView::Primitive(PrimitiveType::I32)
            ||| name == "i64"@ && ty == ast::TypeView::Primitive(PrimitiveType::I64)
            ||| name == "f32"@ && ty == ast::TypeView::Primitive(PrimitiveType::F32)
            ||| name == "f64"@ && ty == ast::TypeView::Primitive(PrimitiveType::F64)
            ||| name == "bool"@ && ty == ast::TypeView::Primitive(PrimitiveType::Bool)
        },
        ast::TypeView::Named(other) => {
            &&& name == other
            &&& name != "u8"@
            &&& name != "u16"@
            &&& name != "u32"@
            &&& name != "u64"@
            &&& name != "i8"@
            &&& name != "i16"@
            &&& name != "i32"@
            &&& name != "i64"@
            &&& name != "f32"@
            &&& name != "f64"@
            &&& name != "bool"@
        },
        ast::TypeView::Array(_, _) => false,
    }
}

/// A name stands for the one type that is written so.
pub proof fn law_type_names(name: Seq<char>, ty: ast::TypeView)
    ensures
        is_named(name, ty) <==> parser::named_type(name) == ty,
{
    reveal_strlit("u8");
    assert(name == "u8"@ ==> name.len() == 2 && name[0] == 'u' && name[1] == '8');
    reveal_strlit("u16");
    assert(name == "u16"@ ==> name.len() == 3 && name[0] == 'u' && name[1] == '1'
        && name[2] == '6');
    reveal_strlit("u32");
    assert(name == "u32"@ ==> name.len() == 3 && name[0] == 'u' && name[1] == '3'
        && name[2] == '2');
    reveal_strlit("u64");
    assert(name == "u64"@ ==> name.len() == 3 && name[0] == 'u' && name[1] == '6'
        && name[2] == '4');
    reveal_strlit("i8");
    assert(name == "i8"@ ==> name.len() == 2 && name[0] == 'i' && name[1] == '8');
    reveal_strlit("i16");
    assert(name == "i16"@ ==> name.len() == 3 && name[0] == 'i' && name[1] == '1'
        && name[2] == '6');
    reveal_strlit("i32");
    assert(name == "i32"@ ==> name.len() == 3 && name[0] == 'i' && name[1] == '3'
        && name[2] == '2');
    reveal_strlit("i64");
    assert(name == "i64"@ ==> name.len() == 3 && name[0] == 'i' && name[1] == '6'
        && name[2] == '4');
    reveal_strlit("f32");
    assert(name == "f32"@ ==> name.len() == 3 && name[0] == 'f' && name[1] == '3'
        && name[2] == '2');
    reveal_strlit("f64");
    assert(name == "f64"@ ==> name.len() == 3 && name[0] == 'f' && name[1] == '6'
        && name[2] == '4');
    reveal_strlit("bool");
    assert(name == "bool"@ ==> name.len() == 4 && name[0] == 'b' && name[1] == 'o'
        && name[2] == 'o' && name[3] == 'l');
}

/// How many tokens a type is written with.
pub open spec fn type_width(ty: ast::TypeView) -> int
    decreases ty,
{
    match ty {
        ast::TypeView::Array(element, _) => type_width(*element) + 4,
        _ => 1,
    }
}

/// Whether a type stands at `i`: a name, or `[`, the element's type, `;`, the length and `]`.
pub open spec fn is_type_at(toks: Seq<lexer::Lexeme>, i: int, ty: ast::TypeView) -> bool
    decreases ty,
{
    match ty {
        ast::TypeView::Array(element, count) => {
            let j = i + 1 + type_width(*element);
            &&& at(toks, i, lexer::Lexeme::LBracket)
            &&& is_type_at(toks, i + 1, *element)
            &&& at(toks, j, lexer::Lexeme::Semicolon)
            &&& at(toks, j + 1, lexer::Lexeme::IntLit(count))
            &&& at(toks, j + 2, lexer::Lexeme::RBracket)
        },
        _ => name_at(toks, i) && is_named(toks[i]->Ident_0, ty),
    }
}

/// Where to go on behind a field, a variant or an entry: one comma there is passed over.
pub open spec fn behind(toks: Seq<lexer::Lexeme>, i: int) -> int {
    if at(toks, i, lexer::Lexeme::Comma) {
        i + 1
    } else {
        i
    }
}

/// Whether fields stand from `i` to `end`: of each the name, `:` and the type, and perhaps a comma.
pub open spec fn are_fields_at(
    toks: Seq<lexer::Lexeme>,
    i: int,
    fields: Seq<ast::FieldView>,
    end: int,
) -> bool
    decreases fields.len(),
{
    if fields.len() == 0 {
        i == end
    } else {
        let field = fields[0];
        &&& at(toks, i, lexer::Lexeme::Ident(field.name))
        &&& at(toks, i + 1, lexer::Lexeme::Colon)
        &&& is_type_at(toks, i + 2, field.ty)
        &&& are_fields_at(
            toks,
            behind(toks, i + 2 + type_width(field.ty)),
            fields.drop_first(),
            end,
        )
    }
}

/// Whether a variant stands from `i` to `end`: its name, and its fields in braces if an opening
/// brace comes next.
pub open spec fn is_variant_at(
    toks: Seq<lexer::Lexeme>,
    i: int,
    variant: ast::VariantView,
    end: int,
) -> bool {
    &&& at(toks, i, lexer::Lexeme::Ident(variant.name))
    &&& if at(toks, i + 1, lexer::Lexeme::LBrace) {
        &&& are_fields_at(toks, i + 2, variant.fields, end - 1)
        &&& at(toks, end - 1, lexer::Lexeme::RBrace)
    } else {
        &&& variant.fields.len() == 0
        &&& end == i + 1
    }
}

/// Whether variants stand from `i` to `end`, each with perhaps a comma behind it.
pub open spec fn are_variants_at(
    toks: Seq<lexer::Lexeme>,
    i: int,
    variants: Seq<ast::VariantView>,
    end: int,
) -> bool
    decreases variants.len(),
{
    if variants.len() == 0 {
        i == end
    } else {
        exists|j: int|
            #[trigger] is_variant_at(toks, i, variants[0], j) && are_variants_at(
                toks,
                behind(toks, j),
                variants.drop_first(),
                end,
            )
    }
}

/// Whether entries stand from `i` to `end`: of each the name, `:` and the name of the type, and
/// perhaps a comma.
pub open spec fn are_entries_at(
    toks: Seq<lexer::Lexeme>,
    i: int,
    entries: Seq<ast::EntryView>,
    end: int,
) -> bool
    decreases entries.len(),
{
    if entries.len() == 0 {
        i == end
    } else {
        &&& at(toks, i, lexer::Lexeme::Ident(entries[0].name))
        &&& at(toks, i + 1, lexer::Lexeme::Colon)
        &&& at(toks, i + 2, lexer::Lexeme::Ident(entries[0].ty))
        &&& are_entries_at(toks, behind(toks, i + 3), entries.drop_first(), end)
    }
}

/// Whether a declaration stands from `i` to `end`: its keyword, its name, and in braces its fields,
/// variants or entries.
pub open spec fn is_item_at(
    toks: Seq<lexer::Lexeme>,
    i: int,
    item: ast::ItemView,
    end: int,
) -> bool {
    &&& at(toks, i + 2, lexer::Lexeme::LBrace)
    &&& at(toks, end - 1, lexer::Lexeme::RBrace)
    &&& match item {
        ast::ItemView::Struct(def) => {
            &&& at(toks, i, lexer::Lexeme::Struct)
            &&& at(toks, i + 1, lexer::Lexeme::Ident(def.name))
            &&& are_fields_at(toks, i + 3, def.fields, end - 1)
        },
        ast::ItemView::Enum(def) => {
            &&& at(toks, i, lexer::Lexeme::Enum)
            &&& at(toks, i + 1, lexer::Lexeme::Ident(def.name))
            &&& are_variants_at(toks, i + 3, def.variants, end - 1)
        },
        ast::ItemView::Channel(def) => {
            &&& at(toks, i, lexer::Lexeme::Channel)
            &&& at(toks, i + 1, lexer::Lexeme::Ident(def.name))
            &&& are_entries_at(toks, i + 3, def.entries, end - 1)
        },
    }
}

/// Whether declarations stand from `i` to `end`, one behind the other.
pub open spec fn are_items_at(
    toks: Seq<lexer::Lexeme>,
    i: int,
    items: Seq<ast::ItemView>,
    end: int,
) -> bool
    decreases items.len(),
{
    if items.len() == 0 {
        i == end
    } else {
        exists|j: int|
            #[trigger] is_item_at(toks, i, items[0], j) && are_items_at(
                toks,
                j,
                items.drop_first(),
                end,
            )
    }
}

/// Whether the tokens up to `end` spell a schema: `namespace`, its name and `;`, or nothing, and
/// then the declarations.
pub open spec fn is_schema(toks: Seq<lexer::Lexeme>, schema: ast::SchemaView, end: int) -> bool {
    match schema.namespace {
        Some(name) => {
            &&& at(toks, 0, lexer::Lexeme::Namespace)
            &&& at(toks, 1, lexer::Lexeme::Ident(name))
            &&& at(toks, 2, lexer::Lexeme::Semicolon)
            &&& are_items_at(toks, 3, schema.items, end)
        },
        None => are_items_at(toks, 0, schema.items, end),
    }
}

/// A type is read where it stands, and only there.
pub proof fn law_types_are_read(toks: Seq<lexer::Lexeme>, i: int, ty: ast::TypeView, end: int)
    requires
        0 <= i,
    ensures
        is_type_at(toks, i, ty) && end == i + type_width(ty) <==> parser::read_type(toks, i)
            == Ok::<(ast::TypeView, int), Fault>((ty, end)),
{
    if is_type_at(toks, i, ty) {
        lemma_type_read(toks, i, ty);
    }
    lemma_read_type(toks, i);
}

proof fn lemma_type_read(toks: Seq<lexer::Lexeme>, i: int, ty: ast::TypeView)
    requires
        0 <= i,
        is_type_at(toks, i, ty),
    ensures
        parser::read_type(toks, i) == Ok::<(ast::TypeView, int), Fault>((ty, i + type_width(ty))),
    decreases ty,
{
    match ty {
        ast::TypeView::Array(element, _) => {
            lemma_type_read(toks, i + 1, *element);
        },
        _ => {
            law_type_names(toks[i]->Ident_0, ty);
        },
    }
}

proof fn lemma_read_type(toks: Seq<lexer::Lexeme>, i: int)
    requires
        0 <= i,
    ensures
        parser::read_type(toks, i) matches Ok((ty, end)) ==> is_type_at(toks, i, ty) && end == i
            + type_width(ty) && end > i,
    decreases toks.len() - i,
{
    if parser::tok(toks, i) == lexer::Lexeme::LBracket {
        lemma_read_type(toks, i + 1);
    } else if parser::read_type(toks, i) is Ok {
        let name = toks[i]->Ident_0;
        law_type_names(name, parser::named_type(name));
    }
}

/// Fields are read up to the first closing brace that stands in the place of a field.
pub proof fn law_fields_are_read(
    toks: Seq<lexer::Lexeme>,
    i: int,
    fields: Seq<ast::FieldView>,
    end: int,
)
    requires
        0 <= i,
    ensures
        are_fields_at(toks, i, fields, end) && at(toks, end, lexer::Lexeme::RBrace)
            <==> parser::read_fields(toks, i) == Ok::<(Seq<ast::FieldView>, int), Fault>(
            (fields, end),
        ),
{
    if are_fields_at(toks, i, fields, end) && at(toks, end, lexer::Lexeme::RBrace) {
        lemma_fields_read(toks, i, fields, end);
    }
    lemma_read_fields(toks, i);
}

proof fn lemma_fields_read(
    toks: Seq<lexer::Lexeme>,
    i: int,
    fields: Seq<ast::FieldView>,
    end: int,
)
    requires
        0 <= i,
        are_fields_at(toks, i, fields, end),
        at(toks, end, lexer::Lexeme::RBrace),
    ensures
        parser::read_fields(toks, i) == Ok::<(Seq<ast::FieldView>, int), Fault>((fields, end)),
    decreases fields.len(),
{
    if fields.len() == 0 {
        assert(fields =~= Seq::empty());
    } else {
        let field = fields[0];
        lemma_type_read(toks, i + 2, field.ty);
        lemma_read_type(toks, i + 2);
        let j = i + 2 + type_width(field.ty);
        lemma_fields_read(toks, behind(toks, j), fields.drop_first(), end);
        assert(parser::skip_comma(toks, j) == behind(toks, j));
        assert(seq![field] + fields.drop_first() =~= fields);
    }
}

proof fn lemma_read_fields(toks: Seq<lexer::Lexeme>, i: int)
    requires
        0 <= i,
    ensures
        parser::read_fields(toks, i) matches Ok((fields, end)) ==> are_fields_at(
            toks,
            i,
            fields,
            end,
        ) && at(toks, end, lexer::Lexeme::RBrace) && i <= end,
    decreases toks.len() - i,
{
    if parser::tok(toks, i) == lexer::Lexeme::RBrace {
    } else if let Ok((field, j)) = parser::read_field(toks, i) {
        parser::lemma_field(toks, i);
        lemma_read_type(toks, i + 2);
        lemma_read_fields(toks, parser::skip_comma(toks, j));
        assert(parser::skip_comma(toks, j) == behind(toks, j));
        if let Ok((rest, _)) = parser::read_fields(toks, parser::skip_comma(toks, j)) {
            assert((seq![field] + rest).drop_first() =~= rest);
        }
    }
}

proof fn lemma_variant_read(
    toks: Seq<lexer::Lexeme>,
    i: int,
    variant: ast::VariantView,
    end: int,
)
    requires
        0 <= i,
    ensures
        is_variant_at(toks, i, variant, end) <==> parser::read_variant(toks, i) == Ok::<
            (ast::VariantView, int),
            Fault,
        >((variant, end)),
        is_variant_at(toks, i, variant, end) ==> end > i,
{
    parser::lemma_variant(toks, i);
    if at(toks, i + 1, lexer::Lexeme::LBrace) {
        law_fields_are_read(toks, i + 2, variant.fields, end - 1);
    } else if variant.fields.len() == 0 {
        assert(variant.fields =~= Seq::empty());
    }
}

/// Variants are read up to the closing brace that stands in the place of one.
pub proof fn law_variants_are_read(
    toks: Seq<lexer::Lexeme>,
    i: int,
    variants: Seq<ast::VariantView>,
    end: int,
)
    requires
        0 <= i,
    ensures
        are_variants_at(toks, i, variants, end) && at(toks, end, lexer::Lexeme::RBrace)
            <==> parser::read_variants(toks, i) == Ok::<(Seq<ast::VariantView>, int), Fault>(
            (variants, end),
        ),
{
    if are_variants_at(toks, i, variants, end) && at(toks, end, lexer::Lexeme::RBrace) {
        lemma_variants_read(toks, i, variants, end);
    }
    lemma_read_variants(toks, i);
}

proof fn lemma_variants_read(
    toks: Seq<lexer::Lexeme>,
    i: int,
    variants: Seq<ast::VariantView>,
    end: int,
)
    requires
        0 <= i,
        are_variants_at(toks, i, variants, end),
        at(toks, end, lexer::Lexeme::RBrace),
    ensures
        parser::read_variants(toks, i) == Ok::<(Seq<ast::VariantView>, int), Fault>(
            (variants, end),
        ),
    decreases variants.len(),
{
    if variants.len() == 0 {
        assert(variants =~= Seq::empty());
    } else {
        let j = choose|j: int|
            #[trigger] is_variant_at(toks, i, variants[0], j) && are_variants_at(
                toks,
                behind(toks, j),
                variants.drop_first(),
                end,
            );
        lemma_variant_read(toks, i, variants[0], j);
        lemma_variants_read(toks, behind(toks, j), variants.drop_first(), end);
        assert(parser::skip_comma(toks, j) == behind(toks, j));
        assert(seq![variants[0]] + variants.drop_first() =~= variants);
    }
}

proof fn lemma_read_variants(toks: Seq<lexer::Lexeme>, i: int)
    requires
        0 <= i,
    ensures
        parser::read_variants(toks, i) matches Ok((variants, end)) ==> are_variants_at(
            toks,
            i,
            variants,
            end,
        ) && at(toks, end, lexer::Lexeme::RBrace),
    decreases toks.len() - i,
{
    if parser::tok(toks, i) == lexer::Lexeme::RBrace {
    } else if let Ok((variant, j)) = parser::read_variant(toks, i) {
        parser::lemma_variant(toks, i);
        lemma_variant_read(toks, i, variant, j);
        lemma_read_variants(toks, parser::skip_comma(toks, j));
        assert(parser::skip_comma(toks, j) == behind(toks, j));
        if let Ok((rest, _)) = parser::read_variants(toks, parser::skip_comma(toks, j)) {
            let all = seq![variant] + rest;
            assert(all.drop_first() =~= rest);
            assert(is_variant_at(toks, i, all[0], j));
        }
    }
}

/// Entries are read up to the closing brace that stands in the place of one.
pub proof fn law_entries_are_read(
    toks: Seq<lexer::Lexeme>,
    i: int,
    entries: Seq<ast::EntryView>,
    end: int,
)
    requires
        0 <= i,
    ensures
        are_entries_at(toks, i, entries, end) && at(toks, end, lexer::Lexeme::RBrace)
            <==> parser::read_entries(toks, i) == Ok::<(Seq<ast::EntryView>, int), Fault>(
            (entries, end),
        ),
{
    if are_entries_at(toks, i, entries, end) && at(toks, end, lexer::Lexeme::RBrace) {
        lemma_entries_read(toks, i, entries, end);
    }
    lemma_read_entries(toks, i);
}

proof fn lemma_entries_read(
    toks: Seq<lexer::Lexeme>,
    i: int,
    entries: Seq<ast::EntryView>,
    end: int,
)
    requires
        0 <= i,
        are_entries_at(toks, i, entries, end),
        at(toks, end, lexer::Lexeme::RBrace),
    ensures
        parser::read_entries(toks, i) == Ok::<(Seq<ast::EntryView>, int), Fault>((entries, end)),
    decreases entries.len(),
{
    if entries.len() == 0 {
        assert(entries =~= Seq::empty());
    } else {
        lemma_entries_read(toks, behind(toks, i + 3), entries.drop_first(), end);
        assert(parser::skip_comma(toks, i + 3) == behind(toks, i + 3));
        assert(seq![entries[0]] + entries.drop_first() =~= entries);
    }
}

proof fn lemma_read_entries(toks: Seq<lexer::Lexeme>, i: int)
    requires
        0 <= i,
    ensures
        parser::read_entries(toks, i) matches Ok((entries, end)) ==> are_entries_at(
            toks,
            i,
            entries,
            end,
        ) && at(toks, end, lexer::Lexeme::RBrace),
    decreases toks.len() - i,
{
    if parser::tok(toks, i) == lexer::Lexeme::RBrace {
    } else if let Ok((entry, j)) = parser::read_entry(toks, i) {
        lemma_read_entries(toks, parser::skip_comma(toks, j));
        assert(parser::skip_comma(toks, j) == behind(toks, j));
        if let Ok((rest, _)) = parser::read_entries(toks, parser::skip_comma(toks, j)) {
            assert((seq![entry] + rest).drop_first() =~= rest);
        }
    }
}

/// A declaration is read where it stands, and only there.
pub proof fn law_declarations_are_read(
    toks: Seq<lexer::Lexeme>,
    i: int,
    item: ast::ItemView,
    end: int,
)
    requires
        0 <= i,
    ensures
        is_item_at(toks, i, item, end) <==> parser::read_item(toks, i) == Ok::<
            (ast::ItemView, int),
            Fault,
        >((item, end)),
{
    match item {
        ast::ItemView::Struct(def) => {
            law_fields_are_read(toks, i + 3, def.fields, end - 1);
        },
        ast::ItemView::Enum(def) => {
            law_variants_are_read(toks, i + 3, def.variants, end - 1);
        },
        ast::ItemView::Channel(def) => {
            law_entries_are_read(toks, i + 3, def.entries, end - 1);
        },
    }
}

proof fn lemma_items_read(
    toks: Seq<lexer::Lexeme>,
    i: int,
    items: Seq<ast::ItemView>,
    end: int,
)
    requires
        0 <= i,
        are_items_at(toks, i, items, end),
        end >= toks.len() || toks[end] == lexer::Lexeme::Eof,
    ensures
        parser::read_items(toks, i) == Ok::<(Seq<ast::ItemView>, int), Fault>((items, end)),
    decreases items.len(),
{
    if items.len() == 0 {
        assert(items =~= Seq::empty());
    } else {
        let j = choose|j: int|
            #[trigger] is_item_at(toks, i, items[0], j) && are_items_at(
                toks,
                j,
                items.drop_first(),
                end,
            );
        law_declarations_are_read(toks, i, items[0], j);
        parser::lemma_item(toks, i);
        lemma_items_read(toks, j, items.drop_first(), end);
        assert(seq![items[0]] + items.drop_first() =~= items);
    }
}

proof fn lemma_read_items(toks: Seq<lexer::Lexeme>, i: int)
    requires
        0 <= i,
    ensures
        parser::read_items(toks, i) matches Ok((items, end)) ==> are_items_at(toks, i, items, end)
            && end >= i && (end >= toks.len() || toks[end] == lexer::Lexeme::Eof),
    decreases toks.len() - i,
{
    if parser::tok(toks, i) == lexer::Lexeme::Eof {
    } else if let Ok((item, j)) = parser::read_item(toks, i) {
        parser::lemma_item(toks, i);
        law_declarations_are_read(toks, i, item, j);
        lemma_read_items(toks, j);
        if let Ok((rest, _)) = parser::read_items(toks, j) {
            let all = seq![item] + rest;
            assert(all.drop_first() =~= rest);
            assert(is_item_at(toks, i, all[0], j));
        }
    }
}

/// A schema is read from the tokens that spell it, if the end comes behind them, and from no
/// others.
pub proof fn law_schemas_are_read(
    toks: Seq<lexer::Lexeme>,
    schema: ast::SchemaView,
    end: int,
)
    ensures
        is_schema(toks, schema, end) && 0 <= end && (end >= toks.len() || toks[end]
            == lexer::Lexeme::Eof) <==> parser::read_schema(toks, 0) == Ok::<
            (ast::SchemaView, int),
            Fault,
        >((schema, end)),
{
    let start: int = if schema.namespace is Some {
        3
    } else {
        0
    };
    if is_schema(toks, schema, end) && 0 <= end && (end >= toks.len() || toks[end]
        == lexer::Lexeme::Eof) {
        lemma_items_read(toks, start, schema.items, end);
        if schema.namespace is None && at(toks, 0, lexer::Lexeme::Namespace) {
            assert(!(parser::read_item(toks, 0) is Ok));
        }
    }
    lemma_read_items(toks, 0);
    lemma_read_items(toks, 3);
}

/// Whether reading failed at the token `i`, for want of this.
pub open spec fn fails<T>(r: Result<T, Fault>, i: int, wanted: Wanted) -> bool {
    r == Err::<T, Fault>(Fault { at: i, wanted })
}

/// What is no type is refused at the first token that does not belong: where a name or `[` is
/// wanted, or behind the element's type `;`, then a length, then `]`.
pub proof fn law_type_faults(toks: Seq<lexer::Lexeme>, i: int, element: ast::TypeView)
    requires
        0 <= i,
    ensures
        !name_at(toks, i) && !at(toks, i, lexer::Lexeme::LBracket) ==> fails(
            parser::read_type(toks, i),
            i,
            Wanted::Identifier,
        ),
        at(toks, i, lexer::Lexeme::LBracket) ==> {
            let j = i + 1 + type_width(element);
            let r = parser::read_type(toks, i);
            &&& parser::read_type(toks, i + 1) matches Err(fault) ==> r == Err::<
                (ast::TypeView, int),
                Fault,
            >(fault)
            &&& is_type_at(toks, i + 1, element) ==> {
                &&& !at(toks, j, lexer::Lexeme::Semicolon) ==> fails(
                    r,
                    j,
                    Wanted::Token(lexer::Lexeme::Semicolon),
                )
                &&& at(toks, j, lexer::Lexeme::Semicolon) && !(j + 1 < toks.len() && toks[j
                    + 1] is IntLit) ==> fails(r, j + 1, Wanted::ArrayLength)
                &&& at(toks, j, lexer::Lexeme::Semicolon) && j + 1 < toks.len() && toks[j
                    + 1] is IntLit && !at(toks, j + 2, lexer::Lexeme::RBracket) ==> fails(
                    r,
                    j + 2,
                    Wanted::Token(lexer::Lexeme::RBracket),
                )
            }
        },
{
    if is_type_at(toks, i + 1, element) {
        lemma_type_read(toks, i + 1, element);
        lemma_read_type(toks, i + 1);
    }
}

/// What is no field is refused at the first token that does not belong: a name, `:` and a type are
/// wanted.
pub proof fn law_field_faults(toks: Seq<lexer::Lexeme>, i: int)
    requires
        0 <= i,
    ensures
        !name_at(toks, i) ==> fails(parser::read_field(toks, i), i, Wanted::Identifier),
        name_at(toks, i) && !at(toks, i + 1, lexer::Lexeme::Colon) ==> fails(
            parser::read_field(toks, i),
            i + 1,
            Wanted::Token(lexer::Lexeme::Colon),
        ),
        name_at(toks, i) && at(toks, i + 1, lexer::Lexeme::Colon) ==> (parser::read_type(
            toks,
            i + 2,
        ) matches Err(fault) ==> parser::read_field(toks, i) == Err::<
            (ast::FieldView, int),
            Fault,
        >(fault)),
{
}

/// The fault of a list is that of its first field that is none.
pub proof fn law_field_list_faults(
    toks: Seq<lexer::Lexeme>,
    i: int,
    fields: Seq<ast::FieldView>,
    j: int,
    fault: Fault,
)
    requires
        0 <= i,
        are_fields_at(toks, i, fields, j),
        !at(toks, j, lexer::Lexeme::RBrace),
        parser::read_field(toks, j) == Err::<(ast::FieldView, int), Fault>(fault),
    ensures
        parser::read_fields(toks, i) == Err::<(Seq<ast::FieldView>, int), Fault>(fault),
    decreases fields.len(),
{
    if fields.len() > 0 {
        lemma_type_read(toks, i + 2, fields[0].ty);
        lemma_read_type(toks, i + 2);
        let k = i + 2 + type_width(fields[0].ty);
        law_field_list_faults(toks, behind(toks, k), fields.drop_first(), j, fault);
        assert(parser::skip_comma(toks, k) == behind(toks, k));
    }
}

/// What is no variant is refused at the first token that does not belong: a name is wanted, and
/// behind an opening brace fields.
pub proof fn law_variant_faults(toks: Seq<lexer::Lexeme>, i: int)
    requires
        0 <= i,
    ensures
        !name_at(toks, i) ==> fails(parser::read_variant(toks, i), i, Wanted::Identifier),
        name_at(toks, i) && at(toks, i + 1, lexer::Lexeme::LBrace) ==> (parser::read_fields(
            toks,
            i + 2,
        ) matches Err(fault) ==> parser::read_variant(toks, i) == Err::<
            (ast::VariantView, int),
            Fault,
        >(fault)),
{
}

/// The fault of a list is that of its first variant that is none.
pub proof fn law_variant_list_faults(
    toks: Seq<lexer::Lexeme>,
    i: int,
    variants: Seq<ast::VariantView>,
    j: int,
    fault: Fault,
)
    requires
        0 <= i,
        are_variants_at(toks, i, variants, j),
        !at(toks, j, lexer::Lexeme::RBrace),
        parser::read_variant(toks, j) == Err::<(ast::VariantView, int), Fault>(fault),
    ensures
        parser::read_variants(toks, i) == Err::<(Seq<ast::VariantView>, int), Fault>(fault),
    decreases variants.len(),
{
    if variants.len() > 0 {
        let k = choose|k: int|
            #[trigger] is_variant_at(toks, i, variants[0], k) && are_variants_at(
                toks,
                behind(toks, k),
                variants.drop_first(),
                j,
            );
        lemma_variant_read(toks, i, variants[0], k);
        law_variant_list_faults(toks, behind(toks, k), variants.drop_first(), j, fault);
        assert(parser::skip_comma(toks, k) == behind(toks, k));
    }
}

/// What is no entry is refused at the first token that does not belong: a name, `:` and a name are
/// wanted.
pub proof fn law_entry_faults(toks: Seq<lexer::Lexeme>, i: int)
    requires
        0 <= i,
    ensures
        !name_at(toks, i) ==> fails(parser::read_entry(toks, i), i, Wanted::Identifier),
        name_at(toks, i) && !at(toks, i + 1, lexer::Lexeme::Colon) ==> fails(
            parser::read_entry(toks, i),
            i + 1,
            Wanted::Token(lexer::Lexeme::Colon),
        ),
        name_at(toks, i) && at(toks, i + 1, lexer::Lexeme::Colon) && !name_at(toks, i + 2) ==> fails(
            parser::read_entry(toks, i),
            i + 2,
            Wanted::Identifier,
        ),
{
}

/// The fault of a list is that of its first entry that is none.
pub proof fn law_entry_list_faults(
    toks: Seq<lexer::Lexeme>,
    i: int,
    entries: Seq<ast::EntryView>,
    j: int,
    fault: Fault,
)
    requires
        0 <= i,
        are_entries_at(toks, i, entries, j),
        !at(toks, j, lexer::Lexeme::RBrace),
        parser::read_entry(toks, j) == Err::<(ast::EntryView, int), Fault>(fault),
    ensures
        parser::read_entries(toks, i) == Err::<(Seq<ast::EntryView>, int), Fault>(fault),
    decreases entries.len(),
{
    if entries.len() > 0 {
        law_entry_list_faults(toks, behind(toks, i + 3), entries.drop_first(), j, fault);
        assert(parser::skip_comma(toks, i + 3) == behind(toks, i + 3));
    }
}

/// What is no declaration is refused at the first token that does not belong: a keyword, a name and
/// an opening brace are wanted, and then what the keyword announces.
pub proof fn law_declaration_faults(toks: Seq<lexer::Lexeme>, i: int)
    requires
        0 <= i,
    ensures
        ({
            let r = parser::read_item(toks, i);
            let keyword = at(toks, i, lexer::Lexeme::Struct) || at(toks, i, lexer::Lexeme::Enum)
                || at(toks, i, lexer::Lexeme::Channel);
            let head = keyword && name_at(toks, i + 1) && at(toks, i + 2, lexer::Lexeme::LBrace);
            &&& !keyword ==> fails(r, i, Wanted::Declaration)
            &&& keyword && !name_at(toks, i + 1) ==> fails(r, i + 1, Wanted::Identifier)
            &&& keyword && name_at(toks, i + 1) && !at(toks, i + 2, lexer::Lexeme::LBrace)
                ==> fails(r, i + 2, Wanted::Token(lexer::Lexeme::LBrace))
            &&& head && at(toks, i, lexer::Lexeme::Struct) ==> (parser::read_fields(
                toks,
                i + 3,
            ) matches Err(fault) ==> r == Err::<(ast::ItemView, int), Fault>(fault))
            &&& head && at(toks, i, lexer::Lexeme::Enum) ==> (parser::read_variants(
                toks,
                i + 3,
            ) matches Err(fault) ==> r == Err::<(ast::ItemView, int), Fault>(fault))
            &&& head && at(toks, i, lexer::Lexeme::Channel) ==> (parser::read_entries(
                toks,
                i + 3,
            ) matches Err(fault) ==> r == Err::<(ast::ItemView, int), Fault>(fault))
        }),
{
}

/// The fault of a list of declarations is that of the first that is none.
pub proof fn law_declaration_list_faults(
    toks: Seq<lexer::Lexeme>,
    i: int,
    items: Seq<ast::ItemView>,
    j: int,
    fault: Fault,
)
    requires
        0 <= i,
        are_items_at(toks, i, items, j),
        j < toks.len(),
        toks[j] != lexer::Lexeme::Eof,
        parser::read_item(toks, j) == Err::<(ast::ItemView, int), Fault>(fault),
    ensures
        parser::read_items(toks, i) == Err::<(Seq<ast::ItemView>, int), Fault>(fault),
    decreases items.len(),
{
    if items.len() > 0 {
        let k = choose|k: int|
            #[trigger] is_item_at(toks, i, items[0], k) && are_items_at(
                toks,
                k,
                items.drop_first(),
                j,
            );
        law_declarations_are_read(toks, i, items[0], k);
        parser::lemma_item(toks, i);
        law_declaration_list_faults(toks, k, items.drop_first(), j, fault);
    }
}

/// What is no schema is refused where its namespace lacks its name or its semicolon, or else where
/// its declarations fail.
pub proof fn law_schema_faults(toks: Seq<lexer::Lexeme>)
    ensures
        ({
            let r = parser::read_schema(toks, 0);
            let spaced = at(toks, 0, lexer::Lexeme::Namespace);
            &&& spaced && !name_at(toks, 1) ==> fails(r, 1, Wanted::Identifier)
            &&& spaced && name_at(toks, 1) && !at(toks, 2, lexer::Lexeme::Semicolon) ==> fails(
                r,
                2,
                Wanted::Token(lexer::Lexeme::Semicolon),
            )
            &&& spaced && name_at(toks, 1) && at(toks, 2, lexer::Lexeme::Semicolon) ==> (
            parser::read_items(toks, 3) matches Err(fault) ==> r == Err::<
                (ast::SchemaView, int),
                Fault,
            >(fault))
            &&& !spaced ==> (parser::read_items(toks, 0) matches Err(fault) ==> r == Err::<
                (ast::SchemaView, int),
                Fault,
            >(fault))
        }),
{
}

/// A message gives line and column of the token where reading failed, says what was wanted there,
/// and names the token that was found.
pub proof fn law_parser_messages(
    all: Seq<lexer::Located>,
    fault: Fault,
    t: lexer::Lexeme,
    q: Seq<char>,
)
    ensures
        ({
            let place = text::decimal(all[fault.at].line) + ":"@ + text::decimal(
                all[fault.at].col,
            ) + ": "@;
            let found = parser::lexeme_text(all[fault.at].token);
            let message = parser::fault_text(all, fault);
            match fault.wanted {
                Wanted::Token(t) => message == place + ("expected "@ + parser::lexeme_text(t)
                    + ", found "@) + found,
                Wanted::Identifier => message == place + "expected identifier, found "@ + found,
                Wanted::ArrayLength => message == place + "expected array length, found "@ + found,
                Wanted::Declaration => message == place
                    + "expected struct, enum, or channel, found "@ + found,
            }
        }),
        match t {
            lexer::Lexeme::Namespace => parser::shown(t, q) == "Namespace"@,
            lexer::Lexeme::Struct => parser::shown(t, q) == "Struct"@,
            lexer::Lexeme::Enum => parser::shown(t, q) == "Enum"@,
            lexer::Lexeme::Channel => parser::shown(t, q) == "Channel"@,
            lexer::Lexeme::Ident(_) => parser::shown(t, q) == "Ident("@ + q + ")"@,
            lexer::Lexeme::IntLit(n) => parser::shown(t, q) == "IntLit("@ + text::decimal(n as nat)
                + ")"@,
            lexer::Lexeme::LBrace => parser::shown(t, q) == "LBrace"@,
            lexer::Lexeme::RBrace => parser::shown(t, q) == "RBrace"@,
            lexer::Lexeme::LBracket => parser::shown(t, q) == "LBracket"@,
            lexer::Lexeme::RBracket => parser::shown(t, q) == "RBracket"@,
            lexer::Lexeme::Colon => parser::shown(t, q) == "Colon"@,
            lexer::Lexeme::Semicolon => parser::shown(t, q) == "Semicolon"@,
            lexer::Lexeme::Comma => parser::shown(t, q) == "Comma"@,
            lexer::Lexeme::Eof => parser::shown(t, q) == "Eof"@,
        },
        parser::lexeme_text(t) == parser::shown(
            t,
            if t is Ident {
                parser::str_debug(t->Ident_0)
            } else {
                Seq::empty()
            },
        ),
{
}

} // verus!
