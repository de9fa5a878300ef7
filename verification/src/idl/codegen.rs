//! Code generation for the types of a schema.
//!
//! The three target languages get the same declarations in the same order: structs with their
//! fields, enums as tag constants, a struct for each payload, and a struct of tag and payload
//! bytes. Channels become comments.
pub mod cpp;
pub mod python;
pub mod rust;

use vstd::prelude::*;
use crate::idl::ast;
use crate::idl::ast::{
    ChannelDef, ChannelEntry, EnumDef, Field, Item, PrimitiveType, Schema, StructDef, Type, Variant,
};
use crate::idl::layout;
use crate::idl::layout::{EnumLayout, SchemaLayout, StructLayout};
use crate::text;
use crate::text::push_decimal;

verus! {

/// A language to generate code in.
#[derive(Debug, Clone, Copy, PartialEq, Eq, Structural)]
pub enum Target {
    Rust,
    Python,
    Cpp,
}

pub open spec fn is_upper(c: char) -> bool {
    'A' <= c <= 'Z'
}

pub open spec fn is_lower(c: char) -> bool {
    'a' <= c <= 'z'
}

/// An ASCII letter in upper or lower case; any other character as it is.
pub open spec fn in_case(c: char, upper: bool) -> char {
    if upper && is_lower(c) {
        (c as u32 - 32) as char
    } else if !upper && is_upper(c) {
        (c as u32 + 32) as char
    } else {
        c
    }
}

/// A name in upper or lower case, with an underscore in front of each capital but the first
/// character: `MoveTo` becomes `MOVE_TO` or `move_to`.
pub open spec fn snake(name: Seq<char>, upper: bool) -> Seq<char>
    decreases name.len(),
{
    if name.len() == 0 {
        Seq::empty()
    } else {
        let front = snake(name.drop_last(), upper);
        let last = name.last();
        if is_upper(last) && name.len() > 1 {
            front.push('_').push(in_case(last, upper))
        } else {
            front.push(in_case(last, upper))
        }
    }
}

pub open spec fn primitive_text(target: Target, p: PrimitiveType) -> Seq<char> {
    match target {
        Target::Rust => match p {
            PrimitiveType::U8 => "u8"@,
            PrimitiveType::U16 => "u16"@,
            PrimitiveType::U32 => "u32"@,
            PrimitiveType::U64 => "u64"@,
            PrimitiveType::I8 => "i8"@,
            PrimitiveType::I16 => "i16"@,
            PrimitiveType::I32 => "i32"@,
            PrimitiveType::I64 => "i64"@,
            PrimitiveType::F32 => "f32"@,
            PrimitiveType::F64 => "f64"@,
            PrimitiveType::Bool => "bool"@,
        },
        Target::Python => match p {
            PrimitiveType::U8 => "ctypes.c_uint8"@,
            PrimitiveType::U16 => "ctypes.c_uint16"@,
            PrimitiveType::U32 => "ctypes.c_uint32"@,
            PrimitiveType::U64 => "ctypes.c_uint64"@,
            PrimitiveType::I8 => "ctypes.c_int8"@,
            PrimitiveType::I16 => "ctypes.c_int16"@,
            PrimitiveType::I32 => "ctypes.c_int32"@,
            PrimitiveType::I64 => "ctypes.c_int64"@,
            PrimitiveType::F32 => "ctypes.c_float"@,
            PrimitiveType::F64 => "ctypes.c_double"@,
            PrimitiveType::Bool => "ctypes.c_bool"@,
        },
        Target::Cpp => match p {
            PrimitiveType::U8 => "uint8_t"@,
            PrimitiveType::U16 => "uint16_t"@,
            PrimitiveType::U32 => "uint32_t"@,
            PrimitiveType::U64 => "uint64_t"@,
            PrimitiveType::I8 => "int8_t"@,
            PrimitiveType::I16 => "int16_t"@,
            PrimitiveType::I32 => "int32_t"@,
            PrimitiveType::I64 => "int64_t"@,
            PrimitiveType::F32 => "float"@,
            PrimitiveType::F64 => "double"@,
            PrimitiveType::Bool => "bool"@,
        },
    }
}

/// A type, without the dimensions that C++ writes behind the name.
pub open spec fn type_text(target: Target, ty: ast::TypeView) -> Seq<char>
    decreases ty,
{
    match ty {
        ast::TypeView::Primitive(p) => primitive_text(target, p),
        ast::TypeView::Array(inner, count) => match target {
            Target::Rust => "["@ + type_text(target, *inner) + "; "@ + text::decimal(count as nat)
                + "]"@,
            Target::Python => "("@ + type_text(target, *inner) + " * "@ + text::decimal(
                count as nat,
            ) + ")"@,
            Target::Cpp => type_text(target, *inner),
        },
        ast::TypeView::Named(name) => name,
    }
}

/// The dimensions that C++ writes behind the name.
pub open spec fn dims_text(ty: ast::TypeView) -> Seq<char>
    decreases ty,
{
    match ty {
        ast::TypeView::Array(inner, count) => "["@ + text::decimal(count as nat) + "]"@
            + dims_text(*inner),
        _ => Seq::empty(),
    }
}

#[verifier::opaque]
pub open spec fn field_text(target: Target, field: ast::FieldView) -> Seq<char> {
    match target {
        Target::Rust => "    pub "@ + field.name + ": "@ + type_text(target, field.ty) + ",\n"@,
        Target::Python => "        (\""@ + field.name + "\", "@ + type_text(target, field.ty)
            + "),\n"@,
        Target::Cpp => "    "@ + type_text(target, field.ty) + " "@ + field.name + dims_text(
            field.ty,
        ) + ";\n"@,
    }
}

pub open spec fn fields_text(target: Target, fields: Seq<ast::FieldView>) -> Seq<char>
    decreases fields.len(),
{
    if fields.len() == 0 {
        Seq::empty()
    } else {
        fields_text(target, fields.drop_last()) + field_text(target, fields.last())
    }
}

/// What stands in front of a struct's fields.
#[verifier::opaque]
pub open spec fn open_text(target: Target, name: Seq<char>, note: Seq<char>) -> Seq<char> {
    match target {
        Target::Rust => note + "#[repr(C)]\n#[derive(Debug, Clone, Copy)]\npub struct "@ + name
            + " {\n"@,
        Target::Python => "class "@ + name + "(ctypes.Structure):\n"@ + note
            + "    _fields_ = [\n"@,
        Target::Cpp => "struct "@ + name + " {\n"@,
    }
}

/// What stands behind a struct's fields.
#[verifier::opaque]
pub open spec fn close_text(target: Target) -> Seq<char> {
    match target {
        Target::Rust => "}\n"@,
        Target::Python => "    ]\n"@,
        Target::Cpp => "};\n"@,
    }
}

/// A comment with size and alignment; in C++ the assertions say them.
#[verifier::opaque]
pub open spec fn note_text(target: Target, size: nat, align: nat) -> Seq<char> {
    match target {
        Target::Rust => "/// Size: "@ + text::decimal(size) + " bytes, Align: "@ + text::decimal(
            align,
        ) + " bytes\n"@,
        Target::Python => "    # size="@ + text::decimal(size) + ", align="@ + text::decimal(align)
            + "\n"@,
        Target::Cpp => Seq::empty(),
    }
}

/// The assertions that C++ makes of size and alignment. A struct of size zero gets none: C++ has
/// no such struct.
#[verifier::opaque]
pub open spec fn assert_text(target: Target, name: Seq<char>, size: nat, align: nat) -> Seq<char> {
    if target == Target::Cpp && size > 0 {
        "static_assert(sizeof("@ + name + ") == "@ + text::decimal(size) + ", \""@ + name
            + " size mismatch\");\n"@ + "static_assert(alignof("@ + name + ") == "@
            + text::decimal(align) + ", \""@ + name + " align mismatch\");\n"@
    } else {
        Seq::empty()
    }
}

#[verifier::opaque]
pub open spec fn struct_text(
    target: Target,
    def: ast::StructView,
    size: nat,
    align: nat,
) -> Seq<char> {
    open_text(target, def.name, note_text(target, size, align)) + fields_text(target, def.fields)
        + close_text(target) + assert_text(target, def.name, size, align) + "\n"@
}

/// The constant of one tag.
#[verifier::opaque]
pub open spec fn tag_text(
    target: Target,
    enum_name: Seq<char>,
    name: Seq<char>,
    index: nat,
) -> Seq<char> {
    match target {
        Target::Rust => "    pub const "@ + snake(name, true) + ": u32 = "@ + text::decimal(index)
            + ";\n"@,
        Target::Python => snake(enum_name, true) + "_"@ + snake(name, true) + " = "@
            + text::decimal(index) + "\n"@,
        Target::Cpp => "    "@ + name + " = "@ + text::decimal(index) + ",\n"@,
    }
}

/// The constants of the first variants.
pub open spec fn tags_text(
    target: Target,
    enum_name: Seq<char>,
    variants: Seq<ast::VariantView>,
) -> Seq<char>
    decreases variants.len(),
{
    if variants.len() == 0 {
        Seq::empty()
    } else {
        tags_text(target, enum_name, variants.drop_last()) + tag_text(
            target,
            enum_name,
            variants.last().name,
            (variants.len() - 1) as nat,
        )
    }
}

/// What stands in front of the tag constants.
#[verifier::opaque]
pub open spec fn tags_open_text(target: Target, name: Seq<char>, note: Seq<char>) -> Seq<char> {
    match target {
        Target::Rust => note + "pub mod "@ + snake(name, false) + "_variants {\n"@,
        Target::Python => Seq::empty(),
        Target::Cpp => "enum class "@ + name + "Tag : uint32_t {\n"@,
    }
}

/// What stands behind the tag constants.
#[verifier::opaque]
pub open spec fn tags_close_text(target: Target) -> Seq<char> {
    match target {
        Target::Rust => "}\n\n"@,
        Target::Python => "\n"@,
        Target::Cpp => "};\n\n"@,
    }
}

/// The struct of a variant's payload; a variant without fields has none.
#[verifier::opaque]
pub open spec fn payload_text(
    target: Target,
    enum_name: Seq<char>,
    variant: ast::VariantView,
) -> Seq<char> {
    if variant.fields.len() == 0 {
        Seq::empty()
    } else {
        open_text(target, enum_name + variant.name + "Payload"@, Seq::empty()) + fields_text(
            target,
            variant.fields,
        ) + close_text(target) + "\n"@
    }
}

pub open spec fn payloads_text(
    target: Target,
    enum_name: Seq<char>,
    variants: Seq<ast::VariantView>,
) -> Seq<char>
    decreases variants.len(),
{
    if variants.len() == 0 {
        Seq::empty()
    } else {
        payloads_text(target, enum_name, variants.drop_last()) + payload_text(
            target,
            enum_name,
            variants.last(),
        )
    }
}

/// What stands in front of the room for the payload: the name and the tag.
#[verifier::opaque]
pub open spec fn enum_open_text(target: Target, name: Seq<char>, note: Seq<char>) -> Seq<char> {
    match target {
        Target::Rust => "#[repr(C)]\n#[derive(Clone, Copy)]\npub struct "@ + name
            + " {\n    pub tag: u32,\n"@,
        Target::Python => "class "@ + name + "(ctypes.Structure):\n"@ + note
            + "    _fields_ = [\n        (\"tag\", ctypes.c_uint32),\n"@,
        Target::Cpp => "struct "@ + name + " {\n    uint32_t tag;\n"@,
    }
}

/// What is declared behind an enum's tag: `pad` bytes, and then `count` numbers of `unit` bytes
/// each as the room for the payload.
pub struct Room {
    pub pad: nat,
    pub unit: nat,
    pub count: nat,
}

/// The room for the payload: what is left behind the tag, as bytes. Where the enum has an
/// alignment of eight, there is padding behind the tag, and the room is made of eight-byte
/// numbers, which give the struct that alignment.
pub open spec fn enum_room(size: nat, align: nat) -> Room {
    if align == 8 {
        Room { pad: 4, unit: 8, count: ((size - 8) / 8) as nat }
    } else if size > 4 {
        Room { pad: 0, unit: 1, count: (size - 4) as nat }
    } else {
        Room { pad: 0, unit: 1, count: 0 }
    }
}

/// The declaration of the padding and of the room for the payload; room for nothing is not
/// declared where it is made of bytes.
#[verifier::opaque]
pub open spec fn room_text(target: Target, room: Room) -> Seq<char> {
    let pad = text::decimal(room.pad);
    let count = text::decimal(room.count);
    if room.unit == 8 {
        match target {
            Target::Rust => "    pub _pad: [u8; "@ + pad + "],\n    pub payload: [u64; "@ + count
                + "],\n"@,
            Target::Python => "        (\"_pad\", ctypes.c_uint8 * "@ + pad
                + "),\n        (\"payload\", ctypes.c_uint64 * "@ + count + "),\n"@,
            Target::Cpp => "    uint8_t _pad["@ + pad + "];\n    uint64_t payload["@ + count
                + "];\n"@,
        }
    } else if room.count > 0 {
        match target {
            Target::Rust => "    pub payload: [u8; "@ + count + "],\n"@,
            Target::Python => "        (\"payload\", ctypes.c_uint8 * "@ + count + "),\n"@,
            Target::Cpp => "    uint8_t payload["@ + count + "];\n"@,
        }
    } else {
        Seq::empty()
    }
}

/// The struct of tag, padding and room for the payload.
#[verifier::opaque]
pub open spec fn enum_struct_text(
    target: Target,
    name: Seq<char>,
    note: Seq<char>,
    room: Room,
) -> Seq<char> {
    enum_open_text(target, name, note) + room_text(target, room) + close_text(target)
}

#[verifier::opaque]
pub open spec fn enum_text(target: Target, def: ast::EnumView, size: nat, align: nat) -> Seq<char> {
    let note = note_text(target, size, align);
    tags_open_text(target, def.name, note) + tags_text(target, def.name, def.variants)
        + tags_close_text(target) + payloads_text(target, def.name, def.variants)
        + enum_struct_text(target, def.name, note, enum_room(size, align)) + assert_text(
        target,
        def.name,
        size,
        align,
    ) + "\n"@
}

/// What a comment starts with.
#[verifier::opaque]
pub open spec fn comment_text(target: Target) -> Seq<char> {
    match target {
        Target::Python => "# "@,
        _ => "// "@,
    }
}

pub open spec fn entries_text(target: Target, entries: Seq<ast::EntryView>) -> Seq<char>
    decreases entries.len(),
{
    if entries.len() == 0 {
        Seq::empty()
    } else {
        entries_text(target, entries.drop_last()) + (comment_text(target) + "  "@
            + entries.last().name + ": "@ + entries.last().ty + "\n"@)
    }
}

#[verifier::opaque]
pub open spec fn channel_text(target: Target, def: ast::ChannelView) -> Seq<char> {
    comment_text(target) + "Channel: "@ + def.name + "\n"@ + entries_text(target, def.entries)
        + "\n"@
}

pub open spec fn item_text(
    target: Target,
    item: ast::ItemView,
    env: layout::SchemaLayoutView,
) -> Seq<char> {
    match item {
        ast::ItemView::Struct(def) => struct_text(
            target,
            def,
            env.structs[def.name].size,
            env.structs[def.name].align,
        ),
        ast::ItemView::Enum(def) => enum_text(
            target,
            def,
            env.enums[def.name].size,
            env.enums[def.name].align,
        ),
        ast::ItemView::Channel(def) => channel_text(target, def),
    }
}

pub open spec fn items_text(
    target: Target,
    items: Seq<ast::ItemView>,
    env: layout::SchemaLayoutView,
) -> Seq<char>
    decreases items.len(),
{
    if items.len() == 0 {
        Seq::empty()
    } else {
        items_text(target, items.drop_last(), env) + item_text(target, items.last(), env)
    }
}

/// What a generated file starts with.
#[verifier::opaque]
pub open spec fn header_text(target: Target, namespace: Option<Seq<char>>) -> Seq<char> {
    match target {
        Target::Rust => "// Auto-generated by synapse-idl. Do not edit.\n"@ + (match namespace {
            Some(name) => "// Namespace: "@ + name + "\n\n"@,
            None => "\n"@,
        }),
        Target::Python => "# Auto-generated by synapse-idl. Do not edit.\n"@ + (match namespace {
            Some(name) => "# Namespace: "@ + name + "\nimport ctypes\n\n"@,
            None => "import ctypes\n\n"@,
        }),
        Target::Cpp =>
            "// Auto-generated by synapse-idl. Do not edit.\n#pragma once\n#include <cstdint>\n#include <cassert>\n\n"@ + (
        match namespace {
            Some(name) => "namespace "@ + name + " {\n\n"@,
            None => Seq::empty(),
        }),
    }
}

/// What a generated file ends with: in C++ the end of the namespace, if there is one.
#[verifier::opaque]
pub open spec fn footer_text(target: Target, namespace: Option<Seq<char>>) -> Seq<char> {
    match namespace {
        Some(name) => if target == Target::Cpp {
            "} // namespace "@ + name + "\n"@
        } else {
            Seq::empty()
        },
        None => Seq::empty(),
    }
}

/// The code for a schema with its layout.
pub open spec fn code_text(
    target: Target,
    schema: ast::SchemaView,
    env: layout::SchemaLayoutView,
) -> Seq<char> {
    header_text(target, schema.namespace) + items_text(target, schema.items, env) + footer_text(
        target,
        schema.namespace,
    )
}

/// Whether a layout has every type of a list of declarations.
pub open spec fn covers(env: layout::SchemaLayoutView, items: Seq<ast::ItemView>) -> bool {
    forall|i: int|
        0 <= i < items.len() ==> match #[trigger] items[i] {
            ast::ItemView::Struct(def) => env.structs.contains_key(def.name),
            ast::ItemView::Enum(def) => {
                &&& env.enums.contains_key(def.name)
                &&& env.enums[def.name].size >= env.enums[def.name].align
            },
            ast::ItemView::Channel(_) => true,
        }
}

fn push_snake(out: &mut String, name: &str, upper: bool)
    ensures
        final(out)@ == old(out)@ + snake(name@, upper),
{
    let n: usize = name.unicode_len();
    let mut i: usize = 0;
    let ghost before = out@;
    assert(before + snake(name@.take(0), upper) =~= before);
    while i < n
        invariant
            i <= n,
            n == name@.len(),
            out@ == before + snake(name@.take(i as int), upper),
        decreases n - i,
    {
        let c: char = name.get_char(i);
        proof {
            assert(name@.take(i + 1).drop_last() =~= name@.take(i as int));
        }
        let code: u32 = c as u32;
        if 65 <= code && code <= 90 {
            if i > 0 {
                out.push('_');
            }
            if upper {
                out.push(c);
            } else {
                out.push((code + 32) as u8 as char);
            }
        } else if upper && 97 <= code && code <= 122 {
            out.push((code - 32) as u8 as char);
        } else {
            out.push(c);
        }
        i = i + 1;
        assert(out@ =~= before + snake(name@.take(i as int), upper));
    }
    assert(name@.take(n as int) =~= name@);
}

fn primitive_name(target: Target, p: PrimitiveType) -> (name: &'static str)
    ensures
        name@ == primitive_text(target, p),
{
    match target {
        Target::Rust => match p {
            PrimitiveType::U8 => "u8",
            PrimitiveType::U16 => "u16",
            PrimitiveType::U32 => "u32",
            PrimitiveType::U64 => "u64",
            PrimitiveType::I8 => "i8",
            PrimitiveType::I16 => "i16",
            PrimitiveType::I32 => "i32",
            PrimitiveType::I64 => "i64",
            PrimitiveType::F32 => "f32",
            PrimitiveType::F64 => "f64",
            PrimitiveType::Bool => "bool",
        },
        Target::Python => match p {
            PrimitiveType::U8 => "ctypes.c_uint8",
            PrimitiveType::U16 => "ctypes.c_uint16",
            PrimitiveType::U32 => "ctypes.c_uint32",
            PrimitiveType::U64 => "ctypes.c_uint64",
            PrimitiveType::I8 => "ctypes.c_int8",
            PrimitiveType::I16 => "ctypes.c_int16",
            PrimitiveType::I32 => "ctypes.c_int32",
            PrimitiveType::I64 => "ctypes.c_int64",
            PrimitiveType::F32 => "ctypes.c_float",
            PrimitiveType::F64 => "ctypes.c_double",
            PrimitiveType::Bool => "ctypes.c_bool",
        },
        Target::Cpp => match p {
            PrimitiveType::U8 => "uint8_t",
            PrimitiveType::U16 => "uint16_t",
            PrimitiveType::U32 => "uint32_t",
            PrimitiveType::U64 => "uint64_t",
            PrimitiveType::I8 => "int8_t",
            PrimitiveType::I16 => "int16_t",
            PrimitiveType::I32 => "int32_t",
            PrimitiveType::I64 => "int64_t",
            PrimitiveType::F32 => "float",
            PrimitiveType::F64 => "double",
            PrimitiveType::Bool => "bool",
        },
    }
}

fn push_type(out: &mut String, target: Target, ty: &Type)
    ensures
        final(out)@ == old(out)@ + type_text(target, ty@),
    decreases ty,
{
    let ghost before = out@;
    match ty {
        Type::Primitive(p) => out.append(primitive_name(target, *p)),
        Type::Array(inner, count) => match target {
            Target::Rust => {
                out.append("[");
                push_type(out, target, &**inner);
                out.append("; ");
                push_decimal(out, *count as u64);
                out.append("]");
                assert(out@ =~= before + type_text(target, ty@));
            },
            Target::Python => {
                out.append("(");
                push_type(out, target, &**inner);
                out.append(" * ");
                push_decimal(out, *count as u64);
                out.append(")");
                assert(out@ =~= before + type_text(target, ty@));
            },
            Target::Cpp => push_type(out, target, &**inner),
        },
        Type::Named(name) => out.append(name.as_str()),
    }
}

fn push_dims(out: &mut String, ty: &Type)
    ensures
        final(out)@ == old(out)@ + dims_text(ty@),
    decreases ty,
{
    let ghost before = out@;
    match ty {
        Type::Array(inner, count) => {
            out.append("[");
            push_decimal(out, *count as u64);
            out.append("]");
            push_dims(out, &**inner);
        },
        _ => {},
    }
    assert(out@ =~= before + dims_text(ty@));
}

fn push_field(out: &mut String, target: Target, field: &Field)
    ensures
        final(out)@ == old(out)@ + field_text(target, field@),
{
    proof {
        reveal(field_text);
    }
    let ghost before = out@;
    match target {
        Target::Rust => {
            out.append("    pub ");
            out.append(field.name.as_str());
            out.append(": ");
            push_type(out, target, &field.ty);
            out.append(",\n");
        },
        Target::Python => {
            out.append("        (\"");
            out.append(field.name.as_str());
            out.append("\", ");
            push_type(out, target, &field.ty);
            out.append("),\n");
        },
        Target::Cpp => {
            out.append("    ");
            push_type(out, target, &field.ty);
            out.append(" ");
            out.append(field.name.as_str());
            push_dims(out, &field.ty);
            out.append(";\n");
        },
    }
    assert(out@ =~= before + field_text(target, field@));
}

fn push_fields(out: &mut String, target: Target, fields: &Vec<Field>)
    ensures
        final(out)@ == old(out)@ + fields_text(target, ast::fields_view(fields@)),
{
    let ghost before = out@;
    let ghost all = ast::fields_view(fields@);
    let mut i: usize = 0;
    assert(before + fields_text(target, all.take(0)) =~= before);
    while i < fields.len()
        invariant
            i <= fields@.len(),
            all == ast::fields_view(fields@),
            out@ == before + fields_text(target, all.take(i as int)),
        decreases fields@.len() - i,
    {
        push_field(out, target, &fields[i]);
        i = i + 1;
        proof {
            assert(all.take(i as int).drop_last() =~= all.take(i - 1));
            assert(all.take(i as int).last() == fields@[i - 1]@);
            assert(out@ =~= before + fields_text(target, all.take(i as int)));
        }
    }
    assert(all.take(i as int) =~= all);
}

fn push_note(out: &mut String, target: Target, size: usize, align: usize)
    ensures
        final(out)@ == old(out)@ + note_text(target, size as nat, align as nat),
{
    proof {
        reveal(note_text);
    }
    let ghost before = out@;
    match target {
        Target::Rust => {
            out.append("/// Size: ");
            push_decimal(out, size as u64);
            out.append(" bytes, Align: ");
            push_decimal(out, align as u64);
            out.append(" bytes\n");
        },
        Target::Python => {
            out.append("    # size=");
            push_decimal(out, size as u64);
            out.append(", align=");
            push_decimal(out, align as u64);
            out.append("\n");
        },
        Target::Cpp => {},
    }
    assert(out@ =~= before + note_text(target, size as nat, align as nat));
}

fn push_open(out: &mut String, target: Target, name: &str, note: &str)
    ensures
        final(out)@ == old(out)@ + open_text(target, name@, note@),
{
    proof {
        reveal(open_text);
    }
    let ghost before = out@;
    match target {
        Target::Rust => {
            out.append(note);
            out.append("#[repr(C)]\n#[derive(Debug, Clone, Copy)]\npub struct ");
            out.append(name);
            out.append(" {\n");
        },
        Target::Python => {
            out.append("class ");
            out.append(name);
            out.append("(ctypes.Structure):\n");
            out.append(note);
            out.append("    _fields_ = [\n");
        },
        Target::Cpp => {
            out.append("struct ");
            out.append(name);
            out.append(" {\n");
        },
    }
    assert(out@ =~= before + open_text(target, name@, note@));
}

fn push_close(out: &mut String, target: Target)
    ensures
        final(out)@ == old(out)@ + close_text(target),
{
    proof {
        reveal(close_text);
    }
    match target {
        Target::Rust => out.append("}\n"),
        Target::Python => out.append("    ]\n"),
        Target::Cpp => out.append("};\n"),
    }
}

fn push_assert(out: &mut String, target: Target, name: &str, size: usize, align: usize)
    ensures
        final(out)@ == old(out)@ + assert_text(target, name@, size as nat, align as nat),
{
    proof {
        reveal(assert_text);
    }
    let ghost before = out@;
    if target == Target::Cpp && size > 0 {
        out.append("static_assert(sizeof(");
        out.append(name);
        out.append(") == ");
        push_decimal(out, size as u64);
        out.append(", \"");
        out.append(name);
        out.append(" size mismatch\");\n");
        out.append("static_assert(alignof(");
        out.append(name);
        out.append(") == ");
        push_decimal(out, align as u64);
        out.append(", \"");
        out.append(name);
        out.append(" align mismatch\");\n");
    }
    assert(out@ =~= before + assert_text(target, name@, size as nat, align as nat));
}

fn push_struct(out: &mut String, target: Target, def: &StructDef, layout: &StructLayout)
    ensures
        final(out)@ == old(out)@ + struct_text(
            target,
            def@,
            layout.size as nat,
            layout.align as nat,
        ),
{
    proof {
        reveal(struct_text);
    }
    let ghost before = out@;
    let mut note: String = String::new();
    push_note(&mut note, target, layout.size, layout.align);
    assert(note@ =~= note_text(target, layout.size as nat, layout.align as nat));
    push_open(out, target, def.name.as_str(), note.as_str());
    push_fields(out, target, &def.fields);
    push_close(out, target);
    push_assert(out, target, def.name.as_str(), layout.size, layout.align);
    out.append("\n");
    assert(out@ =~= before + struct_text(target, def@, layout.size as nat, layout.align as nat));
}

fn push_tag(out: &mut String, target: Target, enum_name: &str, name: &str, index: usize)
    ensures
        final(out)@ == old(out)@ + tag_text(target, enum_name@, name@, index as nat),
{
    proof {
        reveal(tag_text);
    }
    let ghost before = out@;
    match target {
        Target::Rust => {
            out.append("    pub const ");
            push_snake(out, name, true);
            out.append(": u32 = ");
            push_decimal(out, index as u64);
            out.append(";\n");
        },
        Target::Python => {
            push_snake(out, enum_name, true);
            out.append("_");
            push_snake(out, name, true);
            out.append(" = ");
            push_decimal(out, index as u64);
            out.append("\n");
        },
        Target::Cpp => {
            out.append("    ");
            out.append(name);
            out.append(" = ");
            push_decimal(out, index as u64);
            out.append(",\n");
        },
    }
    assert(out@ =~= before + tag_text(target, enum_name@, name@, index as nat));
}

fn push_tags(out: &mut String, target: Target, def: &EnumDef, note: &str)
    ensures
        final(out)@ == old(out)@ + tags_open_text(target, def@.name, note@) + tags_text(
            target,
            def@.name,
            def@.variants,
        ) + tags_close_text(target),
{
    proof {
        reveal(tags_open_text);
        reveal(tags_close_text);
    }
    let ghost start = out@;
    match target {
        Target::Rust => {
            out.append(note);
            out.append("pub mod ");
            push_snake(out, def.name.as_str(), false);
            out.append("_variants {\n");
        },
        Target::Python => {},
        Target::Cpp => {
            out.append("enum class ");
            out.append(def.name.as_str());
            out.append("Tag : uint32_t {\n");
        },
    }
    let ghost before = start + tags_open_text(target, def@.name, note@);
    assert(out@ =~= before);
    let ghost all = def@.variants;
    let mut i: usize = 0;
    assert(before + tags_text(target, def@.name, all.take(0)) =~= before);
    while i < def.variants.len()
        invariant
            i <= def.variants@.len(),
            all == def@.variants,
            out@ == before + tags_text(target, def@.name, all.take(i as int)),
        decreases def.variants@.len() - i,
    {
        push_tag(out, target, def.name.as_str(), def.variants[i].name.as_str(), i);
        i = i + 1;
        proof {
            assert(all.take(i as int).drop_last() =~= all.take(i - 1));
            assert(all.take(i as int).last() == def.variants@[i - 1]@);
            assert(out@ =~= before + tags_text(target, def@.name, all.take(i as int)));
        }
    }
    assert(all.take(i as int) =~= all);
    match target {
        Target::Rust => out.append("}\n\n"),
        Target::Python => out.append("\n"),
        Target::Cpp => out.append("};\n\n"),
    }
}

fn push_payload(out: &mut String, target: Target, enum_name: &str, variant: &Variant)
    ensures
        final(out)@ == old(out)@ + payload_text(target, enum_name@, variant@),
{
    proof {
        reveal(payload_text);
    }
    let ghost before = out@;
    if variant.fields.len() > 0 {
        let mut name: String = String::new();
        name.append(enum_name);
        name.append(variant.name.as_str());
        name.append("Payload");
        proof {
            assert(name@ =~= enum_name@ + variant.name@ + "Payload"@);
            reveal_strlit("");
            assert(""@ =~= Seq::<char>::empty());
        }
        push_open(out, target, name.as_str(), "");
        push_fields(out, target, &variant.fields);
        push_close(out, target);
        out.append("\n");
    }
    assert(out@ =~= before + payload_text(target, enum_name@, variant@));
}

fn push_payloads(out: &mut String, target: Target, def: &EnumDef)
    ensures
        final(out)@ == old(out)@ + payloads_text(target, def@.name, def@.variants),
{
    let ghost before = out@;
    let ghost all = def@.variants;
    let mut i: usize = 0;
    assert(before + payloads_text(target, def@.name, all.take(0)) =~= before);
    while i < def.variants.len()
        invariant
            i <= def.variants@.len(),
            all == def@.variants,
            out@ == before + payloads_text(target, def@.name, all.take(i as int)),
        decreases def.variants@.len() - i,
    {
        push_payload(out, target, def.name.as_str(), &def.variants[i]);
        i = i + 1;
        proof {
            assert(all.take(i as int).drop_last() =~= all.take(i - 1));
            assert(all.take(i as int).last() == def.variants@[i - 1]@);
            assert(out@ =~= before + payloads_text(target, def@.name, all.take(i as int)));
        }
    }
    assert(all.take(i as int) =~= all);
}

fn push_enum_open(out: &mut String, target: Target, name: &str, note: &str)
    ensures
        final(out)@ == old(out)@ + enum_open_text(target, name@, note@),
{
    proof {
        reveal(enum_open_text);
    }
    let ghost before = out@;
    match target {
        Target::Rust => {
            out.append("#[repr(C)]\n#[derive(Clone, Copy)]\npub struct ");
            out.append(name);
            out.append(" {\n    pub tag: u32,\n");
        },
        Target::Python => {
            out.append("class ");
            out.append(name);
            out.append("(ctypes.Structure):\n");
            out.append(note);
            out.append("    _fields_ = [\n        (\"tag\", ctypes.c_uint32),\n");
        },
        Target::Cpp => {
            out.append("struct ");
            out.append(name);
            out.append(" {\n    uint32_t tag;\n");
        },
    }
    assert(out@ =~= before + enum_open_text(target, name@, note@));
}

fn push_room(out: &mut String, target: Target, size: usize, align: usize)
    requires
        align == 8 ==> size >= 8,
    ensures
        final(out)@ == old(out)@ + room_text(target, enum_room(size as nat, align as nat)),
{
    proof {
        reveal(room_text);
    }
    let ghost before = out@;
    if align == 8 {
        let pad: u64 = 4;
        let count: u64 = ((size - 8) / 8) as u64;
        match target {
            Target::Rust => {
                out.append("    pub _pad: [u8; ");
                push_decimal(out, pad);
                out.append("],\n    pub payload: [u64; ");
                push_decimal(out, count);
                out.append("],\n");
            },
            Target::Python => {
                out.append("        (\"_pad\", ctypes.c_uint8 * ");
                push_decimal(out, pad);
                out.append("),\n        (\"payload\", ctypes.c_uint64 * ");
                push_decimal(out, count);
                out.append("),\n");
            },
            Target::Cpp => {
                out.append("    uint8_t _pad[");
                push_decimal(out, pad);
                out.append("];\n    uint64_t payload[");
                push_decimal(out, count);
                out.append("];\n");
            },
        }
    } else if size > 4 {
        let count: u64 = (size - 4) as u64;
        match target {
            Target::Rust => {
                out.append("    pub payload: [u8; ");
                push_decimal(out, count);
                out.append("],\n");
            },
            Target::Python => {
                out.append("        (\"payload\", ctypes.c_uint8 * ");
                push_decimal(out, count);
                out.append("),\n");
            },
            Target::Cpp => {
                out.append("    uint8_t payload[");
                push_decimal(out, count);
                out.append("];\n");
            },
        }
    }
    assert(out@ =~= before + room_text(target, enum_room(size as nat, align as nat)));
}

fn push_enum(out: &mut String, target: Target, def: &EnumDef, layout: &EnumLayout)
    requires
        layout.size >= layout.align,
    ensures
        final(out)@ == old(out)@ + enum_text(
            target,
            def@,
            layout.size as nat,
            layout.align as nat,
        ),
{
    proof {
        reveal(enum_text);
        reveal(enum_struct_text);
    }
    let ghost before = out@;
    let mut note: String = String::new();
    push_note(&mut note, target, layout.size, layout.align);
    assert(note@ =~= note_text(target, layout.size as nat, layout.align as nat));
    push_tags(out, target, def, note.as_str());
    push_payloads(out, target, def);
    push_enum_open(out, target, def.name.as_str(), note.as_str());
    push_room(out, target, layout.size, layout.align);
    push_close(out, target);
    push_assert(out, target, def.name.as_str(), layout.size, layout.align);
    out.append("\n");
    assert(out@ =~= before + enum_text(target, def@, layout.size as nat, layout.align as nat));
}

fn comment(target: Target) -> (mark: &'static str)
    ensures
        mark@ == comment_text(target),
{
    proof {
        reveal(comment_text);
    }
    match target {
        Target::Python => "# ",
        _ => "// ",
    }
}

fn push_channel(out: &mut String, target: Target, def: &ChannelDef)
    ensures
        final(out)@ == old(out)@ + channel_text(target, def@),
{
    proof {
        reveal(channel_text);
    }
    let ghost start = out@;
    out.append(comment(target));
    out.append("Channel: ");
    out.append(def.name.as_str());
    out.append("\n");
    let ghost before = out@;
    let ghost all = def@.entries;
    let mut i: usize = 0;
    assert(before + entries_text(target, all.take(0)) =~= before);
    while i < def.entries.len()
        invariant
            i <= def.entries@.len(),
            all == def@.entries,
            out@ == before + entries_text(target, all.take(i as int)),
        decreases def.entries@.len() - i,
    {
        let entry: &ChannelEntry = &def.entries[i];
        out.append(comment(target));
        out.append("  ");
        out.append(entry.name.as_str());
        out.append(": ");
        out.append(entry.ty.as_str());
        out.append("\n");
        i = i + 1;
        proof {
            assert(all.take(i as int).drop_last() =~= all.take(i - 1));
            assert(all.take(i as int).last() == entry@);
            assert(out@ =~= before + entries_text(target, all.take(i as int)));
        }
    }
    assert(all.take(i as int) =~= all);
    out.append("\n");
    assert(out@ =~= start + channel_text(target, def@));
}

fn push_header(out: &mut String, target: Target, namespace: &Option<String>)
    ensures
        final(out)@ == old(out)@ + header_text(
            target,
            match *namespace {
                Some(name) => Some(name@),
                None => None,
            },
        ),
{
    proof {
        reveal(header_text);
    }
    let ghost before = out@;
    match target {
        Target::Rust => {
            out.append("// Auto-generated by synapse-idl. Do not edit.\n");
            match namespace {
                Some(name) => {
                    out.append("// Namespace: ");
                    out.append(name.as_str());
                    out.append("\n\n");
                },
                None => out.append("\n"),
            }
        },
        Target::Python => {
            out.append("# Auto-generated by synapse-idl. Do not edit.\n");
            match namespace {
                Some(name) => {
                    out.append("# Namespace: ");
                    out.append(name.as_str());
                    out.append("\nimport ctypes\n\n");
                },
                None => out.append("import ctypes\n\n"),
            }
        },
        Target::Cpp => {
            out.append(
                "// Auto-generated by synapse-idl. Do not edit.\n#pragma once\n#include <cstdint>\n#include <cassert>\n\n",
            );
            match namespace {
                Some(name) => {
                    out.append("namespace ");
                    out.append(name.as_str());
                    out.append(" {\n\n");
                },
                None => {},
            }
        },
    }
    assert(out@ =~= before + header_text(
        target,
        match *namespace {
            Some(name) => Some(name@),
            None => None,
        },
    ));
}

fn push_footer(out: &mut String, target: Target, namespace: &Option<String>)
    ensures
        final(out)@ == old(out)@ + footer_text(
            target,
            match *namespace {
                Some(name) => Some(name@),
                None => None,
            },
        ),
{
    proof {
        reveal(footer_text);
    }
    let ghost before = out@;
    match namespace {
        Some(name) => {
            if target == Target::Cpp {
                out.append("} // namespace ");
                out.append(name.as_str());
                out.append("\n");
            }
        },
        None => {},
    }
    assert(out@ =~= before + footer_text(
        target,
        match *namespace {
            Some(name) => Some(name@),
            None => None,
        },
    ));
}

/// Generates the code for a schema whose types all have a layout.
pub fn generate(target: Target, schema: &Schema, layout: &SchemaLayout) -> (code: String)
    requires
        layout.wf(),
        covers(layout@, schema@.items),
    ensures
        code@ == code_text(target, schema@, layout@),
{
    let mut out: String = String::new();
    push_header(&mut out, target, &schema.namespace);
    let ghost before = out@;
    let ghost all = schema@.items;
    let mut i: usize = 0;
    assert(before =~= header_text(target, schema@.namespace));
    assert(before + items_text(target, all.take(0), layout@) =~= before);
    while i < schema.items.len()
        invariant
            i <= schema.items@.len(),
            all == schema@.items,
            layout.wf(),
            covers(layout@, all),
            out@ == before + items_text(target, all.take(i as int), layout@),
        decreases schema.items@.len() - i,
    {
        assert(all[i as int] == schema.items@[i as int]@);
        match &schema.items[i] {
            Item::Struct(def) => {
                match layout.structs.get(def.name.as_str()) {
                    Some(found) => push_struct(&mut out, target, def, found),
                    None => {},
                }
            },
            Item::Enum(def) => {
                match layout.enums.get(def.name.as_str()) {
                    Some(found) => push_enum(&mut out, target, def, found),
                    None => {},
                }
            },
            Item::Channel(def) => push_channel(&mut out, target, def),
        }
        i = i + 1;
        proof {
            assert(all.take(i as int).drop_last() =~= all.take(i - 1));
            assert(all.take(i as int).last() == all[i - 1]);
            assert(out@ =~= before + items_text(target, all.take(i as int), layout@));
        }
    }
    assert(all.take(i as int) =~= all);
    push_footer(&mut out, target, &schema.namespace);
    out
}

/// The layout of a schema has every type of it.
pub proof fn lemma_layout_covers(items: Seq<ast::ItemView>)
    ensures
        layout::layouts(items) matches Ok(env) ==> covers(env, items) && forall|name: Seq<char>|
            #[trigger] env.enums.contains_key(name) ==> env.enums[name].size
                >= env.enums[name].align,
    decreases items.len(),
{
    if items.len() > 0 {
        let front = items.drop_last();
        lemma_layout_covers(front);
        layout::law_schema_layout(front);
        if let Ok(before) = layout::layouts(front) {
            if let Ok(env) = layout::layouts(items) {
                if let ast::ItemView::Enum(def) = items.last() {
                    layout::law_enum_layout(def, before);
                }
                assert forall|i: int| 0 <= i < items.len() implies match #[trigger] items[i] {
                    ast::ItemView::Struct(def) => env.structs.contains_key(def.name),
                    ast::ItemView::Enum(def) => {
                        &&& env.enums.contains_key(def.name)
                        &&& env.enums[def.name].size >= env.enums[def.name].align
                    },
                    ast::ItemView::Channel(_) => true,
                } by {
                    if i < items.len() - 1 {
                        assert(items[i] == front[i]);
                    }
                }
            }
        }
    }
}

/// Whether `part` occurs in `whole`.
pub open spec fn occurs(part: Seq<char>, whole: Seq<char>) -> bool {
    exists|i: int|
        0 <= i && i + part.len() <= whole.len() && #[trigger] whole.subrange(i, i + part.len())
            == part
}

proof fn lemma_occurs_between(a: Seq<char>, part: Seq<char>, b: Seq<char>)
    ensures
        occurs(part, a + part + b),
{
    let i = a.len() as int;
    assert((a + part + b).subrange(i, i + part.len()) =~= part);
}

proof fn lemma_occurs_inside(part: Seq<char>, middle: Seq<char>, whole: Seq<char>)
    requires
        occurs(part, middle),
        occurs(middle, whole),
    ensures
        occurs(part, whole),
{
    let i = choose|i: int|
        0 <= i && i + part.len() <= middle.len() && #[trigger] middle.subrange(i, i + part.len())
            == part;
    let j = choose|j: int|
        0 <= j && j + middle.len() <= whole.len() && #[trigger] whole.subrange(j, j + middle.len())
            == middle;
    assert(whole.subrange(j + i, j + i + part.len()) =~= middle.subrange(i, i + part.len())) by {
        assert(middle == whole.subrange(j, j + middle.len()));
    }
}

proof fn lemma_item_occurs(
    target: Target,
    items: Seq<ast::ItemView>,
    env: layout::SchemaLayoutView,
    i: int,
)
    requires
        0 <= i < items.len(),
    ensures
        occurs(item_text(target, items[i], env), items_text(target, items, env)),
    decreases items.len(),
{
    let front = items_text(target, items.drop_last(), env);
    let last = item_text(target, items.last(), env);
    if i == items.len() - 1 {
        lemma_occurs_between(front, last, Seq::empty());
        assert(front + last + Seq::<char>::empty() =~= front + last);
    } else {
        lemma_item_occurs(target, items.drop_last(), env, i);
        lemma_occurs_between(Seq::empty(), front, last);
        assert(Seq::<char>::empty() + front + last =~= front + last);
        lemma_occurs_inside(item_text(target, items[i], env), front, front + last);
    }
}

proof fn lemma_struct_occurs(target: Target, def: ast::StructView, size: nat, align: nat)
    ensures
        target != Target::Cpp ==> occurs(
            note_text(target, size, align),
            struct_text(target, def, size, align),
        ),
        occurs(assert_text(target, def.name, size, align), struct_text(target, def, size, align)),
{
    reveal(struct_text);
    let note = note_text(target, size, align);
    let open = open_text(target, def.name, note);
    let fields = fields_text(target, def.fields);
    let close = close_text(target);
    let checks = assert_text(target, def.name, size, align);
    lemma_occurs_between(open + fields + close, checks, "\n"@);
    if target != Target::Cpp {
        assert(occurs(note, open)) by {
            reveal(open_text);
            if target == Target::Rust {
                let tail = "#[repr(C)]\n#[derive(Debug, Clone, Copy)]\npub struct "@ + def.name
                    + " {\n"@;
                lemma_occurs_between(Seq::empty(), note, tail);
                assert(Seq::<char>::empty() + note + tail =~= open);
            } else {
                lemma_occurs_between(
                    "class "@ + def.name + "(ctypes.Structure):\n"@,
                    note,
                    "    _fields_ = [\n"@,
                );
            }
        }
        let tail = fields + close + checks + "\n"@;
        lemma_occurs_between(Seq::empty(), open, tail);
        assert(Seq::<char>::empty() + open + tail =~= struct_text(target, def, size, align));
        lemma_occurs_inside(note, open, struct_text(target, def, size, align));
    }
}

/// The code in all three languages states the same size and alignment of every struct: in Rust
/// and Python in a comment, in C++ in assertions.
pub proof fn law_layouts_are_stated(
    schema: ast::SchemaView,
    env: layout::SchemaLayoutView,
    i: int,
    def: ast::StructView,
)
    requires
        0 <= i < schema.items.len(),
        schema.items[i] == ast::ItemView::Struct(def),
    ensures
        ({
            let size = env.structs[def.name].size;
            let align = env.structs[def.name].align;
            &&& occurs(
                note_text(Target::Rust, size, align),
                code_text(Target::Rust, schema, env),
            )
            &&& occurs(
                note_text(Target::Python, size, align),
                code_text(Target::Python, schema, env),
            )
            &&& occurs(
                assert_text(Target::Cpp, def.name, size, align),
                code_text(Target::Cpp, schema, env),
            )
        }),
{
    let size = env.structs[def.name].size;
    let align = env.structs[def.name].align;
    lemma_stated(Target::Rust, schema, env, i, note_text(Target::Rust, size, align), def);
    lemma_stated(Target::Python, schema, env, i, note_text(Target::Python, size, align), def);
    lemma_stated(
        Target::Cpp,
        schema,
        env,
        i,
        assert_text(Target::Cpp, def.name, size, align),
        def,
    );
}

proof fn lemma_stated(
    target: Target,
    schema: ast::SchemaView,
    env: layout::SchemaLayoutView,
    i: int,
    part: Seq<char>,
    def: ast::StructView,
)
    requires
        0 <= i < schema.items.len(),
        schema.items[i] == ast::ItemView::Struct(def),
        ({
            let size = env.structs[def.name].size;
            let align = env.structs[def.name].align;
            ||| target != Target::Cpp && part == note_text(target, size, align)
            ||| part == assert_text(target, def.name, size, align)
        }),
    ensures
        occurs(part, code_text(target, schema, env)),
{
    let size = env.structs[def.name].size;
    let align = env.structs[def.name].align;
    lemma_struct_occurs(target, def, size, align);
    lemma_item_in_code(target, schema, env, i, part);
}

/// What the layout of an enum keeps to, whatever its variants are.
pub open spec fn is_enum_layout(l: layout::EnumLayoutView) -> bool {
    &&& layout::is_align(l.max_payload_align)
    &&& l.align == layout::larger(4, l.max_payload_align)
    &&& l.size % l.align == 0
    &&& l.size >= layout::align_up(4, l.max_payload_align) + l.max_payload_size
}

proof fn lemma_enum_layouts(items: Seq<ast::ItemView>)
    ensures
        layout::layouts(items) matches Ok(env) ==> forall|name: Seq<char>| #[trigger]
            env.enums.contains_key(name) ==> is_enum_layout(env.enums[name]),
    decreases items.len(),
{
    if items.len() > 0 {
        let front = items.drop_last();
        lemma_enum_layouts(front);
        layout::law_schema_layout(front);
        if let Ok(before) = layout::layouts(front) {
            if let ast::ItemView::Enum(def) = items.last() {
                layout::law_enum_layout(def, before);
                layout::lemma_enum_size(def, before);
            }
        }
    }
}

proof fn lemma_enum_occurs(target: Target, def: ast::EnumView, size: nat, align: nat)
    ensures
        ({
            let whole = enum_text(target, def, size, align);
            let note = note_text(target, size, align);
            &&& target != Target::Cpp ==> occurs(note, whole)
            &&& occurs(enum_struct_text(target, def.name, note, enum_room(size, align)), whole)
            &&& occurs(assert_text(target, def.name, size, align), whole)
        }),
{
    reveal(enum_text);
    let whole = enum_text(target, def, size, align);
    let note = note_text(target, size, align);
    let open = tags_open_text(target, def.name, note);
    let tags = tags_text(target, def.name, def.variants) + tags_close_text(target) + payloads_text(
        target,
        def.name,
        def.variants,
    );
    let declared = enum_struct_text(target, def.name, note, enum_room(size, align));
    let checks = assert_text(target, def.name, size, align);
    lemma_occurs_between(open + tags + declared, checks, "\n"@);
    assert(open + tags + declared + checks + "\n"@ =~= whole);
    lemma_occurs_between(open + tags, declared, checks + "\n"@);
    assert(open + tags + declared + (checks + "\n"@) =~= whole);
    if target == Target::Rust {
        let tail = "pub mod "@ + snake(def.name, false) + "_variants {\n"@;
        lemma_occurs_between(Seq::empty(), note, tail);
        assert(Seq::<char>::empty() + note + tail =~= open) by {
            reveal(tags_open_text);
        }
        let behind = tags + declared + checks + "\n"@;
        lemma_occurs_between(Seq::empty(), open, behind);
        assert(Seq::<char>::empty() + open + behind =~= whole);
        lemma_occurs_inside(note, open, whole);
    } else if target == Target::Python {
        let head = "class "@ + def.name + "(ctypes.Structure):\n"@;
        let tail = "    _fields_ = [\n        (\"tag\", ctypes.c_uint32),\n"@ + room_text(
            target,
            enum_room(size, align),
        ) + close_text(target);
        lemma_occurs_between(head, note, tail);
        assert(head + note + tail =~= declared) by {
            reveal(enum_open_text);
            reveal(enum_struct_text);
        }
        lemma_occurs_inside(note, declared, whole);
    }
}

/// The code for a declaration is part of the code for the schema.
proof fn lemma_item_in_code(
    target: Target,
    schema: ast::SchemaView,
    env: layout::SchemaLayoutView,
    i: int,
    part: Seq<char>,
)
    requires
        0 <= i < schema.items.len(),
        occurs(part, item_text(target, schema.items[i], env)),
    ensures
        occurs(part, code_text(target, schema, env)),
{
    let items = items_text(target, schema.items, env);
    lemma_item_occurs(target, schema.items, env, i);
    lemma_occurs_inside(part, item_text(target, schema.items[i], env), items);
    lemma_occurs_between(
        header_text(target, schema.namespace),
        items,
        footer_text(target, schema.namespace),
    );
    lemma_occurs_inside(part, items, code_text(target, schema, env));
}

/// The code in all three languages declares every enum with the same tag, padding and room for
/// the payload, and these make up the computed layout: the tag's four bytes, the padding and the
/// room are the whole size; the alignment is that of the tag or of the room, whichever is
/// larger; the room lies at a multiple of its alignment, where the payloads belong, and holds the
/// largest of them. Rust and Python state size and alignment in a comment, C++ in assertions.
pub proof fn law_enums_are_stated(
    schema: ast::SchemaView,
    env: layout::SchemaLayoutView,
    i: int,
    def: ast::EnumView,
    target: Target,
)
    requires
        layout::layouts(schema.items) == Ok::<layout::SchemaLayoutView, layout::LayoutFault>(env),
        0 <= i < schema.items.len(),
        schema.items[i] == ast::ItemView::Enum(def),
    ensures
        ({
            let l = env.enums[def.name];
            let room = enum_room(l.size, l.align);
            let note = note_text(target, l.size, l.align);
            let code = code_text(target, schema, env);
            &&& occurs(enum_struct_text(target, def.name, note, room), code)
            &&& target != Target::Cpp ==> occurs(note, code)
            &&& occurs(assert_text(target, def.name, l.size, l.align), code)
            &&& l.size == 4 + room.pad + room.unit * room.count
            &&& l.align == layout::larger(4, room.unit)
            &&& l.size % l.align == 0
            &&& (4 + room.pad) % room.unit == 0
            &&& 4 + room.pad == layout::align_up(4, l.max_payload_align)
            &&& l.max_payload_size <= room.unit * room.count
        }),
{
    lemma_layout_covers(schema.items);
    lemma_enum_layouts(schema.items);
    let l = env.enums[def.name];
    let note = note_text(target, l.size, l.align);
    assert(env.enums.contains_key(def.name));
    assert(is_enum_layout(l));
    lemma_enum_occurs(target, def, l.size, l.align);
    lemma_item_in_code(target, schema, env, i, enum_struct_text(
        target,
        def.name,
        note,
        enum_room(l.size, l.align),
    ));
    lemma_item_in_code(target, schema, env, i, assert_text(target, def.name, l.size, l.align));
    if target != Target::Cpp {
        lemma_item_in_code(target, schema, env, i, note);
    }
    lemma_room(l);
}

proof fn lemma_room(l: layout::EnumLayoutView)
    requires
        is_enum_layout(l),
    ensures
        ({
            let room = enum_room(l.size, l.align);
            &&& l.size == 4 + room.pad + room.unit * room.count
            &&& l.align == layout::larger(4, room.unit)
            &&& (4 + room.pad) % room.unit == 0
            &&& 4 + room.pad == layout::align_up(4, l.max_payload_align)
            &&& l.max_payload_size <= room.unit * room.count
        }),
{
    assert(layout::align_up(4, 1) == 4);
    assert(layout::align_up(4, 2) == 4);
    assert(layout::align_up(4, 4) == 4);
    assert(layout::align_up(4, 8) == 8);
    if l.align == 8 {
        assert(l.size % 8 == 0);
        assert(l.size >= 8);
        let count = ((l.size - 8) / 8) as nat;
        assert(enum_room(l.size, l.align) == (Room { pad: 4, unit: 8, count }));
        assert(l.size == 8 + 8 * count);
        assert(8nat * count == 8 * count);
        assert(8nat % 8nat == 0);
    } else {
        assert(l.align == 4);
        assert(l.size >= 4);
        let count = (l.size - 4) as nat;
        assert(enum_room(l.size, l.align) == (Room { pad: 0, unit: 1, count }));
        assert(1nat * count == count);
        assert(4nat % 1nat == 0);
    }
}

} // verus!
