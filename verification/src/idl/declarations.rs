//! What generated code declares, by what the types of each language are.
use vstd::prelude::*;
use crate::idl::abi;
use crate::idl::ast;
use crate::idl::ast::PrimitiveType;
use crate::idl::codegen;
use crate::idl::codegen::Target;
use crate::idl::layout;
use crate::text;

verus! {

/// What a value of a primitive type is.
pub enum Kind {
    Unsigned,
    Signed,
    Float,
    Truth,
}

/// Whether a language has a built-in type of this name, and its values are of this kind and take
/// this many bytes.
pub open spec fn is_type(target: Target, text: Seq<char>, kind: Kind, bytes: nat) -> bool {
    match target {
        Target::Rust => {
            ||| text == "u8"@ && kind == Kind::Unsigned && bytes == 1
            ||| text == "u16"@ && kind == Kind::Unsigned && bytes == 2
            ||| text == "u32"@ && kind == Kind::Unsigned && bytes == 4
            ||| text == "u64"@ && kind == Kind::Unsigned && bytes == 8
            ||| text == "i8"@ && kind == Kind::Signed && bytes == 1
            ||| text == "i16"@ && kind == Kind::Signed && bytes == 2
            ||| text == "i32"@ && kind == Kind::Signed && bytes == 4
            ||| text == "i64"@ && kind == Kind::Signed && bytes == 8
            ||| text == "f32"@ && kind == Kind::Float && bytes == 4
            ||| text == "f64"@ && kind == Kind::Float && bytes == 8
            ||| text == "bool"@ && kind == Kind::Truth && bytes == 1
        },
        Target::Python => {
            ||| text == "ctypes.c_uint8"@ && kind == Kind::Unsigned && bytes == 1
            ||| text == "ctypes.c_uint16"@ && kind == Kind::Unsigned && bytes == 2
            ||| text == "ctypes.c_uint32"@ && kind == Kind::Unsigned && bytes == 4
            ||| text == "ctypes.c_uint64"@ && kind == Kind::Unsigned && bytes == 8
            ||| text == "ctypes.c_int8"@ && kind == Kind::Signed && bytes == 1
            ||| text == "ctypes.c_int16"@ && kind == Kind::Signed && bytes == 2
            ||| text == "ctypes.c_int32"@ && kind == Kind::Signed && bytes == 4
            ||| text == "ctypes.c_int64"@ && kind == Kind::Signed && bytes == 8
            ||| text == "ctypes.c_float"@ && kind == Kind::Float && bytes == 4
            ||| text == "ctypes.c_double"@ && kind == Kind::Float && bytes == 8
            ||| text == "ctypes.c_bool"@ && kind == Kind::Truth && bytes == 1
        },
        Target::Cpp => {
            ||| text == "uint8_t"@ && kind == Kind::Unsigned && bytes == 1
            ||| text == "uint16_t"@ && kind == Kind::Unsigned && bytes == 2
            ||| text == "uint32_t"@ && kind == Kind::Unsigned && bytes == 4
            ||| text == "uint64_t"@ && kind == Kind::Unsigned && bytes == 8
            ||| text == "int8_t"@ && kind == Kind::Signed && bytes == 1
            ||| text == "int16_t"@ && kind == Kind::Signed && bytes == 2
            ||| text == "int32_t"@ && kind == Kind::Signed && bytes == 4
            ||| text == "int64_t"@ && kind == Kind::Signed && bytes == 8
            ||| text == "float"@ && kind == Kind::Float && bytes == 4
            ||| text == "double"@ && kind == Kind::Float && bytes == 8
            ||| text == "bool"@ && kind == Kind::Truth && bytes == 1
        },
    }
}

/// What a value of a primitive is.
pub open spec fn kind_of(p: PrimitiveType) -> Kind {
    match p {
        PrimitiveType::U8 | PrimitiveType::U16 | PrimitiveType::U32
        | PrimitiveType::U64 => Kind::Unsigned,
        PrimitiveType::I8 | PrimitiveType::I16 | PrimitiveType::I32
        | PrimitiveType::I64 => Kind::Signed,
        PrimitiveType::F32 | PrimitiveType::F64 => Kind::Float,
        PrimitiveType::Bool => Kind::Truth,
    }
}

/// A name of a built-in type stands for one kind and one size.
pub proof fn law_types_are_distinct(
    target: Target,
    text: Seq<char>,
    kind: Kind,
    bytes: nat,
    other_kind: Kind,
    other_bytes: nat,
)
    requires
        is_type(target, text, kind, bytes),
        is_type(target, text, other_kind, other_bytes),
    ensures
        kind == other_kind,
        bytes == other_bytes,
{
    reveal_strlit("u8");
    assert(text == "u8"@ ==> text.len() == 2 && text[0] == 'u' && text[1] == '8');
    reveal_strlit("u16");
    assert(text == "u16"@ ==> text.len() == 3 && text[0] == 'u' && text[1] == '1'
        && text[2] == '6');
    reveal_strlit("u32");
    assert(text == "u32"@ ==> text.len() == 3 && text[0] == 'u' && text[1] == '3'
        && text[2] == '2');
    reveal_strlit("u64");
    assert(text == "u64"@ ==> text.len() == 3 && text[0] == 'u' && text[1] == '6'
        && text[2] == '4');
    reveal_strlit("i8");
    assert(text == "i8"@ ==> text.len() == 2 && text[0] == 'i' && text[1] == '8');
    reveal_strlit("i16");
    assert(text == "i16"@ ==> text.len() == 3 && text[0] == 'i' && text[1] == '1'
        && text[2] == '6');
    reveal_strlit("i32");
    assert(text == "i32"@ ==> text.len() == 3 && text[0] == 'i' && text[1] == '3'
        && text[2] == '2');
    reveal_strlit("i64");
    assert(text == "i64"@ ==> text.len() == 3 && text[0] == 'i' && text[1] == '6'
        && text[2] == '4');
    reveal_strlit("f32");
    assert(text == "f32"@ ==> text.len() == 3 && text[0] == 'f' && text[1] == '3'
        && text[2] == '2');
    reveal_strlit("f64");
    assert(text == "f64"@ ==> text.len() == 3 && text[0] == 'f' && text[1] == '6'
        && text[2] == '4');
    reveal_strlit("bool");
    assert(text == "bool"@ ==> text.len() == 4 && text[0] == 'b' && text[1] == 'o'
        && text[2] == 'o' && text[3] == 'l');
    reveal_strlit("ctypes.c_uint8");
    assert(text == "ctypes.c_uint8"@ ==> text.len() == 14 && text[0] == 'c' && text[1] == 't'
        && text[2] == 'y' && text[3] == 'p' && text[4] == 'e' && text[5] == 's' && text[6] == '.'
        && text[7] == 'c' && text[8] == '_' && text[9] == 'u' && text[10] == 'i'
        && text[11] == 'n' && text[12] == 't' && text[13] == '8');
    reveal_strlit("ctypes.c_uint16");
    assert(text == "ctypes.c_uint16"@ ==> text.len() == 15 && text[0] == 'c' && text[1] == 't'
        && text[2] == 'y' && text[3] == 'p' && text[4] == 'e' && text[5] == 's' && text[6] == '.'
        && text[7] == 'c' && text[8] == '_' && text[9] == 'u' && text[10] == 'i'
        && text[11] == 'n' && text[12] == 't' && text[13] == '1' && text[14] == '6');
    reveal_strlit("ctypes.c_uint32");
    assert(text == "ctypes.c_uint32"@ ==> text.len() == 15 && text[0] == 'c' && text[1] == 't'
        && text[2] == 'y' && text[3] == 'p' && text[4] == 'e' && text[5] == 's' && text[6] == '.'
        && text[7] == 'c' && text[8] == '_' && text[9] == 'u' && text[10] == 'i'
        && text[11] == 'n' && text[12] == 't' && text[13] == '3' && text[14] == '2');
    reveal_strlit("ctypes.c_uint64");
    assert(text == "ctypes.c_uint64"@ ==> text.len() == 15 && text[0] == 'c' && text[1] == 't'
        && text[2] == 'y' && text[3] == 'p' && text[4] == 'e' && text[5] == 's' && text[6] == '.'
        && text[7] == 'c' && text[8] == '_' && text[9] == 'u' && text[10] == 'i'
        && text[11] == 'n' && text[12] == 't' && text[13] == '6' && text[14] == '4');
    reveal_strlit("ctypes.c_int8");
    assert(text == "ctypes.c_int8"@ ==> text.len() == 13 && text[0] == 'c' && text[1] == 't'
        && text[2] == 'y' && text[3] == 'p' && text[4] == 'e' && text[5] == 's' && text[6] == '.'
        && text[7] == 'c' && text[8] == '_' && text[9] == 'i' && text[10] == 'n'
        && text[11] == 't' && text[12] == '8');
    reveal_strlit("ctypes.c_int16");
    assert(text == "ctypes.c_int16"@ ==> text.len() == 14 && text[0] == 'c' && text[1] == 't'
        && text[2] == 'y' && text[3] == 'p' && text[4] == 'e' && text[5] == 's' && text[6] == '.'
        && text[7] == 'c' && text[8] == '_' && text[9] == 'i' && text[10] == 'n'
        && text[11] == 't' && text[12] == '1' && text[13] == '6');
    reveal_strlit("ctypes.c_int32");
    assert(text == "ctypes.c_int32"@ ==> text.len() == 14 && text[0] == 'c' && text[1] == 't'
        && text[2] == 'y' && text[3] == 'p' && text[4] == 'e' && text[5] == 's' && text[6] == '.'
        && text[7] == 'c' && text[8] == '_' && text[9] == 'i' && text[10] == 'n'
        && text[11] == 't' && text[12] == '3' && text[13] == '2');
    reveal_strlit("ctypes.c_int64");
    assert(text == "ctypes.c_int64"@ ==> text.len() == 14 && text[0] == 'c' && text[1] == 't'
        && text[2] == 'y' && text[3] == 'p' && text[4] == 'e' && text[5] == 's' && text[6] == '.'
        && text[7] == 'c' && text[8] == '_' && text[9] == 'i' && text[10] == 'n'
        && text[11] == 't' && text[12] == '6' && text[13] == '4');
    reveal_strlit("ctypes.c_float");
    assert(text == "ctypes.c_float"@ ==> text.len() == 14 && text[0] == 'c' && text[1] == 't'
        && text[2] == 'y' && text[3] == 'p' && text[4] == 'e' && text[5] == 's' && text[6] == '.'
        && text[7] == 'c' && text[8] == '_' && text[9] == 'f' && text[10] == 'l'
        && text[11] == 'o' && text[12] == 'a' && text[13] == 't');
    reveal_strlit("ctypes.c_double");
    assert(text == "ctypes.c_double"@ ==> text.len() == 15 && text[0] == 'c' && text[1] == 't'
        && text[2] == 'y' && text[3] == 'p' && text[4] == 'e' && text[5] == 's' && text[6] == '.'
        && text[7] == 'c' && text[8] == '_' && text[9] == 'd' && text[10] == 'o'
        && text[11] == 'u' && text[12] == 'b' && text[13] == 'l' && text[14] == 'e');
    reveal_strlit("ctypes.c_bool");
    assert(text == "ctypes.c_bool"@ ==> text.len() == 13 && text[0] == 'c' && text[1] == 't'
        && text[2] == 'y' && text[3] == 'p' && text[4] == 'e' && text[5] == 's' && text[6] == '.'
        && text[7] == 'c' && text[8] == '_' && text[9] == 'b' && text[10] == 'o'
        && text[11] == 'o' && text[12] == 'l');
    reveal_strlit("uint8_t");
    assert(text == "uint8_t"@ ==> text.len() == 7 && text[0] == 'u' && text[1] == 'i'
        && text[2] == 'n' && text[3] == 't' && text[4] == '8' && text[5] == '_'
        && text[6] == 't');
    reveal_strlit("uint16_t");
    assert(text == "uint16_t"@ ==> text.len() == 8 && text[0] == 'u' && text[1] == 'i'
        && text[2] == 'n' && text[3] == 't' && text[4] == '1' && text[5] == '6' && text[6] == '_'
        && text[7] == 't');
    reveal_strlit("uint32_t");
    assert(text == "uint32_t"@ ==> text.len() == 8 && text[0] == 'u' && text[1] == 'i'
        && text[2] == 'n' && text[3] == 't' && text[4] == '3' && text[5] == '2' && text[6] == '_'
        && text[7] == 't');
    reveal_strlit("uint64_t");
    assert(text == "uint64_t"@ ==> text.len() == 8 && text[0] == 'u' && text[1] == 'i'
        && text[2] == 'n' && text[3] == 't' && text[4] == '6' && text[5] == '4' && text[6] == '_'
        && text[7] == 't');
    reveal_strlit("int8_t");
    assert(text == "int8_t"@ ==> text.len() == 6 && text[0] == 'i' && text[1] == 'n'
        && text[2] == 't' && text[3] == '8' && text[4] == '_' && text[5] == 't');
    reveal_strlit("int16_t");
    assert(text == "int16_t"@ ==> text.len() == 7 && text[0] == 'i' && text[1] == 'n'
        && text[2] == 't' && text[3] == '1' && text[4] == '6' && text[5] == '_'
        && text[6] == 't');
    reveal_strlit("int32_t");
    assert(text == "int32_t"@ ==> text.len() == 7 && text[0] == 'i' && text[1] == 'n'
        && text[2] == 't' && text[3] == '3' && text[4] == '2' && text[5] == '_'
        && text[6] == 't');
    reveal_strlit("int64_t");
    assert(text == "int64_t"@ ==> text.len() == 7 && text[0] == 'i' && text[1] == 'n'
        && text[2] == 't' && text[3] == '6' && text[4] == '4' && text[5] == '_'
        && text[6] == 't');
    reveal_strlit("float");
    assert(text == "float"@ ==> text.len() == 5 && text[0] == 'f' && text[1] == 'l'
        && text[2] == 'o' && text[3] == 'a' && text[4] == 't');
    reveal_strlit("double");
    assert(text == "double"@ ==> text.len() == 6 && text[0] == 'd' && text[1] == 'o'
        && text[2] == 'u' && text[3] == 'b' && text[4] == 'l' && text[5] == 'e');
}

/// A primitive is written, in each language, as a type of its kind and of its size in the layout.
pub proof fn law_primitives_keep_kind_and_size(
    target: Target,
    p: PrimitiveType,
    env: layout::SchemaLayoutView,
)
    ensures
        is_type(
            target,
            codegen::primitive_text(target, p),
            kind_of(p),
            abi::c_size(ast::TypeView::Primitive(p), env),
        ),
        codegen::type_text(target, ast::TypeView::Primitive(p)) == codegen::primitive_text(
            target,
            p,
        ),
        p.bytes() == abi::c_size(ast::TypeView::Primitive(p), env),
{
}

/// How a language writes an array of `count` elements: what it writes as the type, and what behind
/// the declared name.
pub open spec fn array_of(target: Target, element: Seq<char>, behind: Seq<char>, count: nat) -> (
    Seq<char>,
    Seq<char>,
) {
    match target {
        Target::Rust => ("["@ + element + "; "@ + text::decimal(count) + "]"@, behind),
        Target::Python => ("("@ + element + " * "@ + text::decimal(count) + ")"@, behind),
        Target::Cpp => (element, "["@ + text::decimal(count) + "]"@ + behind),
    }
}

/// What `count` elements of `one` bytes each take together.
pub open spec fn bytes_of(one: nat, count: nat) -> nat {
    one * count
}

/// Whether what is declared with `ty` as its type, and `behind` behind its name, takes `size` bytes
/// at multiples of `align`: a built-in type of that size, a declared type with that layout, or an
/// array of arrays, `depth` deep, of one of these.
pub open spec fn declares(
    target: Target,
    ty: Seq<char>,
    behind: Seq<char>,
    size: nat,
    align: nat,
    env: layout::SchemaLayoutView,
    depth: nat,
) -> bool
    decreases depth,
{
    if depth == 0 {
        &&& behind.len() == 0
        &&& {
            ||| align == size && exists|kind: Kind| is_type(target, ty, kind, size)
            ||| env.structs.contains_key(ty) && env.structs[ty].size == size
                && env.structs[ty].align == align
            ||| !env.structs.contains_key(ty) && env.enums.contains_key(ty) && env.enums[ty].size
                == size && env.enums[ty].align == align
        }
    } else {
        exists|element: Seq<char>, inner: Seq<char>, one: nat, count: nat|
            {
                &&& #[trigger] array_of(target, element, inner, count) == (ty, behind)
                &&& declares(
                    target,
                    element,
                    inner,
                    one,
                    align,
                    env,
                    (depth - 1) as nat,
                )
                &&& size == #[trigger] bytes_of(one, count)
            }
    }
}

/// How many arrays stand in one another.
pub open spec fn depth(ty: ast::TypeView) -> nat
    decreases ty,
{
    match ty {
        ast::TypeView::Array(element, _) => depth(*element) + 1,
        _ => 0,
    }
}

/// What is written behind the name of a field.
pub open spec fn behind_name(target: Target, ty: ast::TypeView) -> Seq<char> {
    if target == Target::Cpp {
        codegen::dims_text(ty)
    } else {
        Seq::empty()
    }
}

/// What a field is declared as has, in each language, the size and the alignment of its type.
pub proof fn law_declared_types_keep_size(
    target: Target,
    ty: ast::TypeView,
    env: layout::SchemaLayoutView,
)
    requires
        abi::is_known(ty, env),
    ensures
        declares(
            target,
            codegen::type_text(target, ty),
            behind_name(target, ty),
            abi::c_size(ty, env),
            abi::c_align(ty, env),
            env,
            depth(ty),
        ),
    decreases ty,
{
    match ty {
        ast::TypeView::Primitive(p) => {
            law_primitives_keep_kind_and_size(target, p, env);
            assert(is_type(
                target,
                codegen::type_text(target, ty),
                kind_of(p),
                abi::c_size(ty, env),
            ));
        },
        ast::TypeView::Array(element, count) => {
            law_declared_types_keep_size(target, *element, env);
            let whole = (codegen::type_text(target, ty), behind_name(target, ty));
            let made = array_of(
                target,
                codegen::type_text(target, *element),
                behind_name(target, *element),
                count as nat,
            );
            assert(made.0 =~= whole.0);
            assert(made.1 =~= whole.1);
            assert(made == whole);
            assert(abi::c_size(ty, env) == bytes_of(abi::c_size(*element, env), count as nat));
            assert(array_of(
                target,
                codegen::type_text(target, *element),
                behind_name(target, *element),
                count as nat,
            ) == (codegen::type_text(target, ty), behind_name(target, ty)));
            assert((depth(ty) - 1) as nat == depth(*element));
            assert(declares(
                target,
                codegen::type_text(target, *element),
                behind_name(target, *element),
                abi::c_size(*element, env),
                abi::c_align(ty, env),
                env,
                (depth(ty) - 1) as nat,
            ));
        },
        ast::TypeView::Named(_) => {},
    }
}

/// A field is one line, with its name and what it is declared as.
pub proof fn law_field_lines(target: Target, field: ast::FieldView)
    ensures
        ({
            let ty = codegen::type_text(target, field.ty);
            let line = codegen::field_text(target, field);
            match target {
                Target::Rust => line == "    pub "@ + field.name + ": "@ + ty + ",\n"@,
                Target::Python => line == "        (\""@ + field.name + "\", "@ + ty + "),\n"@,
                Target::Cpp => line == "    "@ + ty + " "@ + field.name + behind_name(
                    target,
                    field.ty,
                ) + ";\n"@,
            }
        }),
{
    reveal(codegen::field_text);
}

/// Fields stand in their order, each once: what comes of two lists is what comes of the one, and
/// then of the other.
pub proof fn law_fields_in_order(
    target: Target,
    first: Seq<ast::FieldView>,
    rest: Seq<ast::FieldView>,
    field: ast::FieldView,
)
    ensures
        codegen::fields_text(target, first + rest) == codegen::fields_text(target, first)
            + codegen::fields_text(target, rest),
        codegen::fields_text(target, seq![field]) == codegen::field_text(target, field),
        codegen::fields_text(target, Seq::empty()) == Seq::<char>::empty(),
    decreases rest.len(),
{
    assert(seq![field].drop_last() =~= Seq::empty());
    assert(codegen::fields_text(target, Seq::empty()) =~= Seq::<char>::empty());
    assert(codegen::fields_text(target, seq![field]) =~= codegen::field_text(target, field));
    if rest.len() == 0 {
        assert(first + rest =~= first);
        assert(codegen::fields_text(target, first) + codegen::fields_text(target, rest)
            =~= codegen::fields_text(target, first));
    } else {
        law_fields_in_order(target, first, rest.drop_last(), field);
        assert((first + rest).drop_last() =~= first + rest.drop_last());
        assert((first + rest).last() == rest.last());
        assert(codegen::fields_text(target, first) + codegen::fields_text(target, rest)
            =~= codegen::fields_text(target, first + rest.drop_last()) + codegen::field_text(
            target,
            rest.last(),
        ));
    }
}

/// A struct is declared under its name with its fields and nothing else: in Rust with C's layout,
/// with its size and alignment in a comment; in Python as a `ctypes` structure, likewise; in C++
/// with assertions of its size and alignment, but for one of no size, which C++ does not have.
pub proof fn law_struct_forms(target: Target, def: ast::StructView, size: nat, align: nat)
    ensures
        ({
            let fields = codegen::fields_text(target, def.fields);
            let s = text::decimal(size);
            let a = text::decimal(align);
            let code = codegen::struct_text(target, def, size, align);
            match target {
                Target::Rust => code == "/// Size: "@ + s + " bytes, Align: "@ + a + " bytes\n"@
                    + "#[repr(C)]\n#[derive(Debug, Clone, Copy)]\npub struct "@ + def.name
                    + " {\n"@ + fields + "}\n"@ + "\n"@,
                Target::Python => code == "class "@ + def.name + "(ctypes.Structure):\n"@
                    + "    # size="@ + s + ", align="@ + a + "\n"@ + "    _fields_ = [\n"@ + fields
                    + "    ]\n"@ + "\n"@,
                Target::Cpp => if size == 0 {
                    code == "struct "@ + def.name + " {\n"@ + fields + "};\n"@ + "\n"@
                } else {
                    code == "struct "@ + def.name + " {\n"@ + fields + "};\n"@
                        + "static_assert(sizeof("@ + def.name + ") == "@ + s + ", \""@ + def.name
                        + " size mismatch\");\n"@ + "static_assert(alignof("@ + def.name
                        + ") == "@ + a + ", \""@ + def.name + " align mismatch\");\n"@ + "\n"@
                },
            }
        }),
{
    reveal(codegen::struct_text);
    reveal(codegen::open_text);
    reveal(codegen::close_text);
    reveal(codegen::note_text);
    reveal(codegen::assert_text);
    let fields = codegen::fields_text(target, def.fields);
    let s = text::decimal(size);
    let a = text::decimal(align);
    let code = codegen::struct_text(target, def, size, align);
    match target {
        Target::Rust => {
            assert(code =~= "/// Size: "@ + s + " bytes, Align: "@ + a + " bytes\n"@
                + "#[repr(C)]\n#[derive(Debug, Clone, Copy)]\npub struct "@ + def.name + " {\n"@
                + fields + "}\n"@ + "\n"@);
        },
        Target::Python => {
            assert(code =~= "class "@ + def.name + "(ctypes.Structure):\n"@ + "    # size="@ + s
                + ", align="@ + a + "\n"@ + "    _fields_ = [\n"@ + fields + "    ]\n"@ + "\n"@);
        },
        Target::Cpp => {
            if size == 0 {
                assert(code =~= "struct "@ + def.name + " {\n"@ + fields + "};\n"@ + "\n"@);
            } else {
                assert(code =~= "struct "@ + def.name + " {\n"@ + fields + "};\n"@
                    + "static_assert(sizeof("@ + def.name + ") == "@ + s + ", \""@ + def.name
                    + " size mismatch\");\n"@ + "static_assert(alignof("@ + def.name + ") == "@ + a
                    + ", \""@ + def.name + " align mismatch\");\n"@ + "\n"@);
            }
        },
    }
}

/// Names change their case a character at a time: a capital is written as itself or, in lower case,
/// as the letter 32 places on, with an underscore in front unless it comes first; a small letter
/// as itself or, in upper case, as the letter 32 places before; any other character as itself.
pub proof fn law_snake(front: Seq<char>, c: char, upper: bool)
    ensures
        ({
            let code = c as u32;
            let before = codegen::snake(front, upper);
            let whole = codegen::snake(front.push(c), upper);
            let written = whole[whole.len() - 1] as u32;
            &&& whole.len() > 0
            &&& 65 <= code <= 90 ==> written == if upper {
                code as int
            } else {
                code + 32
            }
            &&& 97 <= code <= 122 ==> written == if upper {
                code - 32
            } else {
                code as int
            }
            &&& !(65 <= code <= 90) && !(97 <= code <= 122) ==> written == code
            &&& 65 <= code <= 90 && front.len() > 0 ==> whole.drop_last() == before.push('_')
            &&& !(65 <= code <= 90 && front.len() > 0) ==> whole.drop_last() == before
        }),
        codegen::snake(Seq::empty(), upper) == Seq::<char>::empty(),
{
    assert(front.push(c).drop_last() =~= front);
    let before = codegen::snake(front, upper);
    let whole = codegen::snake(front.push(c), upper);
    if 65 <= c as u32 <= 90 && front.len() > 0 {
        assert(whole.drop_last() =~= before.push('_'));
    } else {
        assert(whole.drop_last() =~= before);
    }
}

/// Tags are numbered from nought in the order of the variants: one more variant adds one constant,
/// whose number is how many variants there were before.
pub proof fn law_tags_count_up(
    target: Target,
    enum_name: Seq<char>,
    variants: Seq<ast::VariantView>,
    variant: ast::VariantView,
)
    ensures
        ({
            let number = text::decimal(variants.len());
            let before = codegen::tags_text(target, enum_name, variants);
            let after = codegen::tags_text(target, enum_name, variants.push(variant));
            match target {
                Target::Rust => after == before + ("    pub const "@ + codegen::snake(
                    variant.name,
                    true,
                ) + ": u32 = "@ + number + ";\n"@),
                Target::Python => after == before + (codegen::snake(enum_name, true) + "_"@
                    + codegen::snake(variant.name, true) + " = "@ + number + "\n"@),
                Target::Cpp => after == before + ("    "@ + variant.name + " = "@ + number
                    + ",\n"@),
            }
        }),
        codegen::tags_text(target, enum_name, Seq::empty()) == Seq::<char>::empty(),
{
    reveal(codegen::tag_text);
    assert(variants.push(variant).drop_last() =~= variants);
}

/// Each variant with fields gets a struct of these fields, named after the enum and the variant; a
/// variant without fields gets none.
pub proof fn law_payloads(
    target: Target,
    enum_name: Seq<char>,
    variants: Seq<ast::VariantView>,
    variant: ast::VariantView,
)
    ensures
        ({
            let name = enum_name + variant.name + "Payload"@;
            let fields = codegen::fields_text(target, variant.fields);
            let before = codegen::payloads_text(target, enum_name, variants);
            let after = codegen::payloads_text(target, enum_name, variants.push(variant));
            if variant.fields.len() == 0 {
                after == before
            } else {
                match target {
                    Target::Rust => after == before
                        + "#[repr(C)]\n#[derive(Debug, Clone, Copy)]\npub struct "@ + name
                        + " {\n"@ + fields + "}\n"@ + "\n"@,
                    Target::Python => after == before + "class "@ + name
                        + "(ctypes.Structure):\n"@ + "    _fields_ = [\n"@ + fields + "    ]\n"@
                        + "\n"@,
                    Target::Cpp => after == before + "struct "@ + name + " {\n"@ + fields
                        + "};\n"@ + "\n"@,
                }
            }
        }),
        codegen::payloads_text(target, enum_name, Seq::empty()) == Seq::<char>::empty(),
{
    reveal(codegen::payload_text);
    reveal(codegen::open_text);
    reveal(codegen::close_text);
    assert(variants.push(variant).drop_last() =~= variants);
    let name = enum_name + variant.name + "Payload"@;
    let fields = codegen::fields_text(target, variant.fields);
    let before = codegen::payloads_text(target, enum_name, variants);
    let after = codegen::payloads_text(target, enum_name, variants.push(variant));
    if variant.fields.len() == 0 {
        assert(after =~= before);
    } else {
        match target {
            Target::Rust => {
                assert(after =~= before + "#[repr(C)]\n#[derive(Debug, Clone, Copy)]\npub struct "@
                    + name + " {\n"@ + fields + "}\n"@ + "\n"@);
            },
            Target::Python => {
                assert(after =~= before + "class "@ + name + "(ctypes.Structure):\n"@
                    + "    _fields_ = [\n"@ + fields + "    ]\n"@ + "\n"@);
            },
            Target::Cpp => {
                assert(after =~= before + "struct "@ + name + " {\n"@ + fields + "};\n"@ + "\n"@);
            },
        }
    }
}

/// Behind the tag, an enum of alignment eight declares four bytes of padding and its payload as
/// eight-byte numbers; any other declares the rest of its size as bytes, or nothing if nothing is
/// left: in every case tag, padding and payload fill the whole size.
pub proof fn law_rooms(target: Target, size: nat, align: nat)
    requires
        align == 4 || align == 8 && size > 0,
        size % align == 0,
        size >= 4,
    ensures
        ({
            let code = codegen::room_text(target, codegen::enum_room(size, align));
            let eights = text::decimal(((size - 8) / 8) as nat);
            let ones = text::decimal((size - 4) as nat);
            let four = text::decimal(4);
            match target {
                Target::Rust => if align == 8 {
                    code == "    pub _pad: [u8; "@ + four + "],\n    pub payload: [u64; "@ + eights
                        + "],\n"@
                } else if size > 4 {
                    code == "    pub payload: [u8; "@ + ones + "],\n"@
                } else {
                    code == Seq::<char>::empty()
                },
                Target::Python => if align == 8 {
                    code == "        (\"_pad\", ctypes.c_uint8 * "@ + four
                        + "),\n        (\"payload\", ctypes.c_uint64 * "@ + eights + "),\n"@
                } else if size > 4 {
                    code == "        (\"payload\", ctypes.c_uint8 * "@ + ones + "),\n"@
                } else {
                    code == Seq::<char>::empty()
                },
                Target::Cpp => if align == 8 {
                    code == "    uint8_t _pad["@ + four + "];\n    uint64_t payload["@ + eights
                        + "];\n"@
                } else if size > 4 {
                    code == "    uint8_t payload["@ + ones + "];\n"@
                } else {
                    code == Seq::<char>::empty()
                },
            }
        }),
        align == 8 ==> size == 4 + 4 + 8 * ((size - 8) / 8),
{
    reveal(codegen::room_text);
}

/// An enum is declared as its tags, the structs of its payloads, and a struct of a four-byte tag
/// and the room for a payload, with its size and alignment as for a struct.
pub proof fn law_enum_forms(target: Target, def: ast::EnumView, size: nat, align: nat)
    requires
        size > 0,
    ensures
        ({
            let tags = codegen::tags_text(target, def.name, def.variants);
            let payloads = codegen::payloads_text(target, def.name, def.variants);
            let room = codegen::room_text(target, codegen::enum_room(size, align));
            let s = text::decimal(size);
            let a = text::decimal(align);
            let code = codegen::enum_text(target, def, size, align);
            match target {
                Target::Rust => code == "/// Size: "@ + s + " bytes, Align: "@ + a + " bytes\n"@
                    + "pub mod "@ + codegen::snake(def.name, false) + "_variants {\n"@ + tags
                    + "}\n\n"@ + payloads + ("#[repr(C)]\n#[derive(Clone, Copy)]\npub struct "@
                    + def.name + " {\n    pub tag: u32,\n"@ + room + "}\n"@) + "\n"@,
                Target::Python => code == tags + "\n"@ + payloads + ("class "@ + def.name
                    + "(ctypes.Structure):\n"@ + ("    # size="@ + s + ", align="@ + a + "\n"@)
                    + "    _fields_ = [\n        (\"tag\", ctypes.c_uint32),\n"@ + room
                    + "    ]\n"@) + "\n"@,
                Target::Cpp => code == "enum class "@ + def.name + "Tag : uint32_t {\n"@ + tags
                    + "};\n\n"@ + payloads + ("struct "@ + def.name + " {\n    uint32_t tag;\n"@
                    + room + "};\n"@) + ("static_assert(sizeof("@ + def.name + ") == "@ + s
                    + ", \""@ + def.name + " size mismatch\");\n"@ + "static_assert(alignof("@
                    + def.name + ") == "@ + a + ", \""@ + def.name + " align mismatch\");\n"@)
                    + "\n"@,
            }
        }),
{
    reveal(codegen::enum_text);
    reveal(codegen::tags_open_text);
    reveal(codegen::tags_close_text);
    reveal(codegen::enum_struct_text);
    reveal(codegen::enum_open_text);
    reveal(codegen::close_text);
    reveal(codegen::note_text);
    reveal(codegen::assert_text);
    let tags = codegen::tags_text(target, def.name, def.variants);
    let payloads = codegen::payloads_text(target, def.name, def.variants);
    let note = codegen::note_text(target, size, align);
    let front = codegen::tags_open_text(target, def.name, note) + tags + codegen::tags_close_text(
        target,
    ) + payloads + codegen::enum_struct_text(
        target,
        def.name,
        note,
        codegen::enum_room(size, align),
    );
    lemma_nothing(tags);
    lemma_nothing(front);
}

proof fn lemma_nothing(s: Seq<char>)
    ensures
        s + Seq::<char>::empty() == s,
        Seq::<char>::empty() + s == s,
{
    assert(s + Seq::<char>::empty() =~= s);
    assert(Seq::<char>::empty() + s =~= s);
}

/// A channel is a comment: a line with its name, a line for each entry, and an empty line.
pub proof fn law_channel_forms(
    target: Target,
    def: ast::ChannelView,
    entries: Seq<ast::EntryView>,
    entry: ast::EntryView,
)
    ensures
        ({
            let mark = if target == Target::Python {
                "# "@
            } else {
                "// "@
            };
            &&& codegen::channel_text(target, def) == mark + "Channel: "@ + def.name + "\n"@
                + codegen::entries_text(target, def.entries) + "\n"@
            &&& codegen::entries_text(target, entries.push(entry)) == codegen::entries_text(
                target,
                entries,
            ) + (mark + "  "@ + entry.name + ": "@ + entry.ty + "\n"@)
            &&& codegen::entries_text(target, Seq::empty()) == Seq::<char>::empty()
        }),
{
    reveal(codegen::comment_text);
    reveal(codegen::channel_text);
    assert(entries.push(entry).drop_last() =~= entries);
}

/// The code for a schema is the header, then the declarations in their order, each by the layout
/// of its name, and in C++ the end of the namespace; one more declaration adds its own code.
pub proof fn law_code_forms(
    target: Target,
    namespace: Option<Seq<char>>,
    items: Seq<ast::ItemView>,
    item: ast::ItemView,
    env: layout::SchemaLayoutView,
)
    ensures
        ({
            let all = codegen::items_text(target, items, env);
            let code = codegen::code_text(target, ast::SchemaView { namespace, items }, env);
            &&& match target {
                Target::Rust => {
                    &&& namespace matches Some(name) ==> code
                        == "// Auto-generated by synapse-idl. Do not edit.\n"@ + "// Namespace: "@
                        + name + "\n\n"@ + all
                    &&& namespace is None ==> code
                        == "// Auto-generated by synapse-idl. Do not edit.\n"@ + "\n"@ + all
                },
                Target::Python => {
                    &&& namespace matches Some(name) ==> code
                        == "# Auto-generated by synapse-idl. Do not edit.\n"@ + "# Namespace: "@
                        + name + "\nimport ctypes\n\n"@ + all
                    &&& namespace is None ==> code
                        == "# Auto-generated by synapse-idl. Do not edit.\n"@
                        + "import ctypes\n\n"@ + all
                },
                Target::Cpp => {
                    let top =
                        "// Auto-generated by synapse-idl. Do not edit.\n#pragma once\n#include <cstdint>\n#include <cassert>\n\n"@;
                    &&& namespace matches Some(name) ==> code == top + "namespace "@ + name
                        + " {\n\n"@ + all + "} // namespace "@ + name + "\n"@
                    &&& namespace is None ==> code == top + all
                },
            }
        }),
        codegen::items_text(target, Seq::empty(), env) == Seq::<char>::empty(),
        codegen::items_text(target, items.push(item), env) == codegen::items_text(
            target,
            items,
            env,
        ) + (match item {
            ast::ItemView::Struct(def) => codegen::struct_text(
                target,
                def,
                env.structs[def.name].size,
                env.structs[def.name].align,
            ),
            ast::ItemView::Enum(def) => codegen::enum_text(
                target,
                def,
                env.enums[def.name].size,
                env.enums[def.name].align,
            ),
            ast::ItemView::Channel(def) => codegen::channel_text(target, def),
        }),
{
    reveal(codegen::header_text);
    reveal(codegen::footer_text);
    assert(items.push(item).drop_last() =~= items);
}

} // verus!
