//! The C ABI: what size, alignment and place the parts of a schema must have.
use vstd::prelude::*;
use crate::idl::ast;
use crate::idl::ast::PrimitiveType;
use crate::idl::layout;
use crate::idl::layout::LayoutFault;

verus! {

/// Bytes that a value takes, however large: one, two, four or eight for a primitive, as its name
/// says; for an array those of its elements; for a struct or an enum those of its layout.
pub open spec fn c_size(ty: ast::TypeView, env: layout::SchemaLayoutView) -> nat
    decreases ty,
{
    match ty {
        ast::TypeView::Primitive(PrimitiveType::U8) => 1,
        ast::TypeView::Primitive(PrimitiveType::I8) => 1,
        ast::TypeView::Primitive(PrimitiveType::Bool) => 1,
        ast::TypeView::Primitive(PrimitiveType::U16) => 2,
        ast::TypeView::Primitive(PrimitiveType::I16) => 2,
        ast::TypeView::Primitive(PrimitiveType::U32) => 4,
        ast::TypeView::Primitive(PrimitiveType::I32) => 4,
        ast::TypeView::Primitive(PrimitiveType::F32) => 4,
        ast::TypeView::Primitive(PrimitiveType::U64) => 8,
        ast::TypeView::Primitive(PrimitiveType::I64) => 8,
        ast::TypeView::Primitive(PrimitiveType::F64) => 8,
        ast::TypeView::Array(element, count) => c_size(*element, env) * (count as nat),
        ast::TypeView::Named(name) => if env.structs.contains_key(name) {
            env.structs[name].size
        } else {
            env.enums[name].size
        },
    }
}

/// The alignment of a type: that of a primitive is its size, that of an array its element's.
pub open spec fn c_align(ty: ast::TypeView, env: layout::SchemaLayoutView) -> nat
    decreases ty,
{
    match ty {
        ast::TypeView::Primitive(_) => c_size(ty, env),
        ast::TypeView::Array(element, _) => c_align(*element, env),
        ast::TypeView::Named(name) => if env.structs.contains_key(name) {
            env.structs[name].align
        } else {
            env.enums[name].align
        },
    }
}

/// Whether the structs and enums in a type are known.
pub open spec fn is_known(ty: ast::TypeView, env: layout::SchemaLayoutView) -> bool
    decreases ty,
{
    match ty {
        ast::TypeView::Primitive(_) => true,
        ast::TypeView::Array(element, _) => is_known(*element, env),
        ast::TypeView::Named(name) => env.structs.contains_key(name) || env.enums.contains_key(
            name,
        ),
    }
}

/// Whether the size of a type, and of each array in it, is a `usize`.
pub open spec fn is_countable(ty: ast::TypeView, env: layout::SchemaLayoutView) -> bool
    decreases ty,
{
    match ty {
        ast::TypeView::Array(element, _) => is_countable(*element, env) && c_size(ty, env)
            <= usize::MAX,
        _ => true,
    }
}

/// The name of the struct or enum in a type, if it is not known.
pub open spec fn unknown_in(ty: ast::TypeView, env: layout::SchemaLayoutView) -> Option<Seq<char>>
    decreases ty,
{
    match ty {
        ast::TypeView::Array(element, _) => unknown_in(*element, env),
        ast::TypeView::Named(name) => if is_known(ty, env) {
            None
        } else {
            Some(name)
        },
        _ => None,
    }
}

/// A type of known parts and countable size has its size and alignment; one of unknown parts is
/// refused by that name, unless it is too large.
pub proof fn law_extents(ty: ast::TypeView, env: layout::SchemaLayoutView)
    ensures
        is_known(ty, env) && is_countable(ty, env) ==> layout::extent(ty, env) == Ok::<
            (nat, nat),
            LayoutFault,
        >((c_size(ty, env), c_align(ty, env))),
        is_known(ty, env) && !is_countable(ty, env) ==> layout::extent(ty, env) == Err::<
            (nat, nat),
            LayoutFault,
        >(LayoutFault::TooLarge),
        unknown_in(ty, env) matches Some(name) ==> layout::extent(ty, env) == Err::<
            (nat, nat),
            LayoutFault,
        >(LayoutFault::Unknown(name)),
        is_known(ty, env) <==> unknown_in(ty, env) is None,
    decreases ty,
{
    if let ast::TypeView::Array(element, _) = ty {
        law_extents(*element, env);
    }
}

/// Where a field could start at the earliest: where the one before it ends.
pub open spec fn end_before(fields: Seq<layout::FieldLayoutView>, i: int) -> nat {
    if i <= 0 {
        0
    } else {
        fields[i - 1].offset + fields[i - 1].size
    }
}

/// Whether `x` is the first multiple of `align` that is not below `from`.
pub open spec fn is_first_multiple(x: nat, align: nat, from: nat) -> bool {
    align > 0 && x % align == 0 && from <= x < from + align
}

/// Whether fields lie as in C: each has the size and alignment of its type, and starts at the first
/// multiple of its alignment behind the one before it; the alignment of all is the largest of
/// theirs, and their size the first multiple of that behind the last of them.
pub open spec fn is_c_layout(
    declared: Seq<ast::FieldView>,
    fields: Seq<layout::FieldLayoutView>,
    size: nat,
    align: nat,
    env: layout::SchemaLayoutView,
) -> bool {
    &&& fields.len() == declared.len()
    &&& forall|i: int|
        0 <= i < fields.len() ==> {
            let f = #[trigger] fields[i];
            &&& f.name == declared[i].name
            &&& f.ty == declared[i].ty
            &&& is_known(f.ty, env)
            &&& f.size == c_size(f.ty, env)
            &&& f.align == c_align(f.ty, env)
            &&& is_first_multiple(f.offset, f.align, end_before(fields, i))
            &&& f.align <= align
        }
    &&& align == 1 || exists|i: int| 0 <= i < fields.len() && #[trigger] fields[i].align == align
    &&& is_first_multiple(size, align, end_before(fields, fields.len() as int))
}

/// What holds of fields in their places.
proof fn lemma_placed(declared: Seq<ast::FieldView>, env: layout::SchemaLayoutView)
    requires
        layout::well_laid(env),
    ensures
        layout::place(declared, env) matches Ok(p) ==> {
            &&& p.fields.len() == declared.len()
            &&& p.end == end_before(p.fields, p.fields.len() as int)
            &&& layout::is_align(p.align)
            &&& forall|i: int|
                0 <= i < p.fields.len() ==> {
                    let f = #[trigger] p.fields[i];
                    &&& f.name == declared[i].name
                    &&& f.ty == declared[i].ty
                    &&& is_known(f.ty, env)
                    &&& f.size == c_size(f.ty, env)
                    &&& f.align == c_align(f.ty, env)
                    &&& is_first_multiple(f.offset, f.align, end_before(p.fields, i))
                    &&& f.align <= p.align
                }
            &&& p.align == 1 || exists|i: int|
                0 <= i < p.fields.len() && #[trigger] p.fields[i].align == p.align
        },
    decreases declared.len(),
{
    if declared.len() > 0 {
        let field = declared.last();
        lemma_placed(declared.drop_last(), env);
        law_extents(field.ty, env);
        layout::lemma_extent(field.ty, env);
        if let Ok(p) = layout::place(declared.drop_last(), env) {
            if let Ok(q) = layout::place_one(p, field, env) {
                let n = p.fields.len() as int;
                layout::lemma_align_up(p.end, q.fields[n].align);
                assert(end_before(q.fields, n) == p.end);
                assert forall|i: int| 0 <= i < q.fields.len() implies {
                    let f = #[trigger] q.fields[i];
                    &&& f.name == declared[i].name
                    &&& f.ty == declared[i].ty
                    &&& is_known(f.ty, env)
                    &&& f.size == c_size(f.ty, env)
                    &&& f.align == c_align(f.ty, env)
                    &&& is_first_multiple(f.offset, f.align, end_before(q.fields, i))
                    &&& f.align <= q.align
                } by {
                    if i < n {
                        assert(q.fields[i] == p.fields[i]);
                        assert(declared.drop_last()[i] == declared[i]);
                        assert(end_before(q.fields, i) == end_before(p.fields, i));
                    }
                }
                if q.align == q.fields[n].align {
                    assert(q.fields[n].align == q.align);
                } else if p.align != 1 {
                    let i = choose|i: int|
                        0 <= i < p.fields.len() && #[trigger] p.fields[i].align == p.align;
                    assert(q.fields[i].align == q.align);
                }
            }
        }
    }
}

/// A struct is laid out as in C.
pub proof fn law_struct_is_c(def: ast::StructView, env: layout::SchemaLayoutView)
    requires
        layout::well_laid(env),
    ensures
        layout::struct_layout(def, env) matches Ok(l) ==> {
            &&& l.name == def.name
            &&& is_c_layout(def.fields, l.fields, l.size, l.align, env)
        },
{
    lemma_placed(def.fields, env);
    if let Ok(p) = layout::place(def.fields, env) {
        layout::lemma_align_up(p.end, p.align);
    }
}

/// The largest of some numbers, or the least allowed where there is none that large.
pub open spec fn is_largest(x: nat, least: nat, all: Seq<nat>) -> bool {
    &&& x >= least
    &&& forall|i: int| 0 <= i < all.len() ==> #[trigger] all[i] <= x
    &&& x == least || exists|i: int| 0 <= i < all.len() && #[trigger] all[i] == x
}

proof fn lemma_max_size(variants: Seq<layout::VariantLayoutView>)
    ensures
        is_largest(
            layout::max_size(variants),
            0,
            variants.map_values(|v: layout::VariantLayoutView| v.payload_size),
        ),
    decreases variants.len(),
{
    let all = variants.map_values(|v: layout::VariantLayoutView| v.payload_size);
    if variants.len() > 0 {
        let front = variants.drop_last();
        let before = front.map_values(|v: layout::VariantLayoutView| v.payload_size);
        lemma_max_size(front);
        let x = layout::max_size(variants);
        let n = before.len() as int;
        assert(all[n] == variants.last().payload_size);
        assert forall|i: int| 0 <= i < all.len() implies #[trigger] all[i] <= x by {
            if i < n {
                assert(all[i] == before[i]);
            }
        }
        if x != 0 && x != all[n] {
            let i = choose|i: int|
                0 <= i < before.len() && #[trigger] before[i] == layout::max_size(front);
            assert(all[i] == x);
        }
    }
}

proof fn lemma_max_align(variants: Seq<layout::VariantLayoutView>)
    ensures
        is_largest(
            layout::max_align(variants),
            1,
            variants.map_values(|v: layout::VariantLayoutView| v.payload_align),
        ),
    decreases variants.len(),
{
    let all = variants.map_values(|v: layout::VariantLayoutView| v.payload_align);
    if variants.len() > 0 {
        let front = variants.drop_last();
        let before = front.map_values(|v: layout::VariantLayoutView| v.payload_align);
        lemma_max_align(front);
        let x = layout::max_align(variants);
        let n = before.len() as int;
        assert(all[n] == variants.last().payload_align);
        assert forall|i: int| 0 <= i < all.len() implies #[trigger] all[i] <= x by {
            if i < n {
                assert(all[i] == before[i]);
            }
        }
        if x != 1 && x != all[n] {
            let i = choose|i: int|
                0 <= i < before.len() && #[trigger] before[i] == layout::max_align(front);
            assert(all[i] == x);
        }
    }
}

/// An enum has a tag of four bytes; its payloads are laid out as in C; they start at the first
/// multiple of their largest alignment behind the tag; the enum has that alignment, or the tag's
/// if that is larger, and for a size the first multiple of it behind the largest payload.
pub proof fn law_enum_is_c(def: ast::EnumView, env: layout::SchemaLayoutView, start: nat)
    requires
        layout::well_laid(env),
        layout::enum_layout(def, env) is Ok,
        is_first_multiple(start, layout::enum_layout(def, env)->Ok_0.max_payload_align, 4),
    ensures
        ({
            let l = layout::enum_layout(def, env)->Ok_0;
            &&& l.name == def.name
            &&& l.tag_size == 4
            &&& l.tag_align == 4
            &&& l.variants.len() == def.variants.len()
            &&& forall|i: int|
                0 <= i < l.variants.len() ==> {
                    let v = #[trigger] l.variants[i];
                    &&& v.name == def.variants[i].name
                    &&& is_c_layout(
                        def.variants[i].fields,
                        v.fields,
                        v.payload_size,
                        v.payload_align,
                        env,
                    )
                }
            &&& is_largest(
                l.max_payload_size,
                0,
                l.variants.map_values(|v: layout::VariantLayoutView| v.payload_size),
            )
            &&& is_largest(
                l.max_payload_align,
                1,
                l.variants.map_values(|v: layout::VariantLayoutView| v.payload_align),
            )
            &&& l.align == if l.max_payload_align > 4 {
                l.max_payload_align
            } else {
                4
            }
            &&& is_first_multiple(l.size, l.align, start + l.max_payload_size)
        }),
{
    let l = layout::enum_layout(def, env)->Ok_0;
    layout::law_enum_layout(def, env);
    lemma_max_size(l.variants);
    lemma_max_align(l.variants);
    assert forall|i: int| 0 <= i < l.variants.len() implies {
        let v = #[trigger] l.variants[i];
        &&& v.name == def.variants[i].name
        &&& is_c_layout(def.variants[i].fields, v.fields, v.payload_size, v.payload_align, env)
    } by {
        layout::law_payload_is_a_struct(def, env, i);
        let name = def.variants[i].name;
        let as_struct = ast::StructView { name, fields: def.variants[i].fields };
        law_struct_is_c(as_struct, env);
        assert(layout::struct_layout(as_struct, env) is Ok);
    }
    let a = l.max_payload_align;
    let first = layout::align_up(4, a);
    layout::lemma_align_up(4, a);
    lemma_one_multiple(start, first, a, 4);
    layout::lemma_align_up(first + l.max_payload_size, l.align);
}

/// There is one first multiple.
proof fn lemma_one_multiple(x: nat, y: nat, align: nat, from: nat)
    requires
        is_first_multiple(x, align, from),
        is_first_multiple(y, align, from),
    ensures
        x == y,
{
    vstd::arithmetic::div_mod::lemma_fundamental_div_mod(x as int, align as int);
    vstd::arithmetic::div_mod::lemma_fundamental_div_mod(y as int, align as int);
    let a = align as int;
    let p = x as int / a;
    let q = y as int / a;
    assert(p == q) by (nonlinear_arith)
        requires
            a > 0,
            x == a * p,
            y == a * q,
            -a < x - y < a,
    ;
}

/// Room that fields take at most: each its size and, in front of it, less than its alignment.
pub open spec fn room(declared: Seq<ast::FieldView>, env: layout::SchemaLayoutView) -> nat
    decreases declared.len(),
{
    if declared.len() == 0 {
        0
    } else {
        room(declared.drop_last(), env) + c_align(declared.last().ty, env) + c_size(
            declared.last().ty,
            env,
        )
    }
}

proof fn lemma_room(declared: Seq<ast::FieldView>, env: layout::SchemaLayoutView)
    requires
        layout::well_laid(env),
        room(declared, env) <= usize::MAX,
        forall|i: int|
            0 <= i < declared.len() ==> is_known((#[trigger] declared[i]).ty, env) && is_countable(
                declared[i].ty,
                env,
            ),
    ensures
        layout::place(declared, env) matches Ok(p) && p.end <= room(declared, env) && p.align <= 8,
    decreases declared.len(),
{
    if declared.len() > 0 {
        let front = declared.drop_last();
        let field = declared.last();
        assert forall|i: int| 0 <= i < front.len() implies is_known((#[trigger] front[i]).ty, env)
            && is_countable(front[i].ty, env) by {
            assert(front[i] == declared[i]);
        }
        assert(field == declared[declared.len() - 1]);
        lemma_room(front, env);
        law_extents(field.ty, env);
        layout::lemma_extent(field.ty, env);
        let p = layout::place(front, env)->Ok_0;
        layout::lemma_align_up(p.end, c_align(field.ty, env));
    }
}

/// A struct of known and countable fields has a layout, unless it takes about as many bytes as a
/// `usize` can count.
pub proof fn law_structs_have_layouts(def: ast::StructView, env: layout::SchemaLayoutView)
    requires
        layout::well_laid(env),
        room(def.fields, env) + 8 <= usize::MAX,
        forall|i: int|
            0 <= i < def.fields.len() ==> is_known((#[trigger] def.fields[i]).ty, env)
                && is_countable(def.fields[i].ty, env),
    ensures
        layout::struct_layout(def, env) is Ok,
{
    lemma_room(def.fields, env);
}

/// A struct is refused for a type that is not known exactly if that is the first of its fields that
/// is not known, and none before it is too large; in particular, of a field that is not known
/// there is no layout.
pub proof fn law_unknown_types(def: ast::StructView, env: layout::SchemaLayoutView)
    requires
        layout::well_laid(env),
    ensures
        layout::struct_layout(def, env) matches Err(LayoutFault::Unknown(name)) ==> exists|i: int|
            0 <= i < def.fields.len() && unknown_in((#[trigger] def.fields[i]).ty, env) == Some(
                name,
            ) && forall|j: int| 0 <= j < i ==> is_known((#[trigger] def.fields[j]).ty, env),
        layout::struct_layout(def, env) is Ok ==> forall|i: int|
            0 <= i < def.fields.len() ==> is_known((#[trigger] def.fields[i]).ty, env),
{
    lemma_unknown(def.fields, env);
    lemma_placed(def.fields, env);
    if let Ok(p) = layout::place(def.fields, env) {
        assert forall|i: int| 0 <= i < def.fields.len() implies is_known(
            (#[trigger] def.fields[i]).ty,
            env,
        ) by {
            assert(p.fields[i].ty == def.fields[i].ty);
        }
    }
}

proof fn lemma_unknown(declared: Seq<ast::FieldView>, env: layout::SchemaLayoutView)
    requires
        layout::well_laid(env),
    ensures
        layout::place(declared, env) matches Err(LayoutFault::Unknown(name)) ==> exists|i: int|
            0 <= i < declared.len() && unknown_in((#[trigger] declared[i]).ty, env) == Some(name)
                && forall|j: int| 0 <= j < i ==> is_known((#[trigger] declared[j]).ty, env),
    decreases declared.len(),
{
    if declared.len() > 0 {
        let front = declared.drop_last();
        let n = front.len() as int;
        lemma_unknown(front, env);
        if let Err(LayoutFault::Unknown(name)) = layout::place(declared, env) {
            match layout::place(front, env) {
                Ok(p) => {
                    law_extents(declared[n].ty, env);
                    lemma_placed(front, env);
                    assert(unknown_in(declared[n].ty, env) == Some(name));
                    assert forall|j: int| 0 <= j < n implies is_known(
                        (#[trigger] declared[j]).ty,
                        env,
                    ) by {
                        assert(p.fields[j].ty == front[j].ty);
                    }
                },
                Err(_) => {
                    let i = choose|i: int|
                        0 <= i < front.len() && unknown_in((#[trigger] front[i]).ty, env) == Some(
                            name,
                        ) && forall|j: int|
                            0 <= j < i ==> is_known((#[trigger] front[j]).ty, env);
                    assert(unknown_in(declared[i].ty, env) == Some(name));
                    assert forall|j: int| 0 <= j < i implies is_known(
                        (#[trigger] declared[j]).ty,
                        env,
                    ) by {
                        assert(front[j] == declared[j]);
                    }
                },
            }
        }
    }
}

/// An enum has a layout if a struct with the fields of each of its variants has one, unless it
/// takes about as many bytes as a `usize` can count.
pub proof fn law_enums_have_layouts(def: ast::EnumView, env: layout::SchemaLayoutView, most: nat)
    requires
        layout::well_laid(env),
        most + 24 <= usize::MAX,
        forall|i: int|
            0 <= i < def.variants.len() ==> (layout::struct_layout(
                ast::StructView {
                    name: (#[trigger] def.variants[i]).name,
                    fields: def.variants[i].fields,
                },
                env,
            ) matches Ok(l) && l.size <= most),
    ensures
        layout::enum_layout(def, env) is Ok,
{
    lemma_variants_have_layouts(def.variants, env, most);
    let variants = layout::variant_layouts(def.variants, env)->Ok_0;
    let a = layout::max_align(variants);
    layout::lemma_align_up(4, a);
}

proof fn lemma_variants_have_layouts(
    variants: Seq<ast::VariantView>,
    env: layout::SchemaLayoutView,
    most: nat,
)
    requires
        layout::well_laid(env),
        forall|i: int|
            0 <= i < variants.len() ==> (layout::struct_layout(
                ast::StructView {
                    name: (#[trigger] variants[i]).name,
                    fields: variants[i].fields,
                },
                env,
            ) matches Ok(l) && l.size <= most),
    ensures
        layout::variant_layouts(variants, env) matches Ok(all) && layout::max_size(all) <= most
            && layout::is_align(layout::max_align(all)),
    decreases variants.len(),
{
    if variants.len() > 0 {
        let front = variants.drop_last();
        let last = variants[variants.len() - 1];
        assert forall|i: int| 0 <= i < front.len() implies (layout::struct_layout(
            ast::StructView { name: (#[trigger] front[i]).name, fields: front[i].fields },
            env,
        ) matches Ok(l) && l.size <= most) by {
            assert(front[i] == variants[i]);
        }
        lemma_variants_have_layouts(front, env, most);
        layout::law_struct_layout(ast::StructView { name: last.name, fields: last.fields }, env);
        let before = layout::variant_layouts(front, env)->Ok_0;
        let all = layout::variant_layouts(variants, env)->Ok_0;
        assert(all.drop_last() =~= before);
    }
}

/// Declarations are laid out one after the other, each by what was declared before it: a struct or
/// enum comes under its name, in place of one of the same kind, and the others stay; a channel
/// changes nothing; and what cannot be laid out has the whole schema refused.
pub proof fn law_one_more_declaration(
    items: Seq<ast::ItemView>,
    item: ast::ItemView,
    name: Seq<char>,
)
    ensures
        layout::layouts(items) is Err ==> layout::layouts(items.push(item))
            == layout::layouts(items),
        layout::layouts(Seq::empty()) matches Ok(env) && env.structs == Map::<
            Seq<char>,
            layout::StructLayoutView,
        >::empty() && env.enums == Map::<Seq<char>, layout::EnumLayoutView>::empty(),
        layout::layouts(items) matches Ok(env) ==> match item {
            ast::ItemView::Struct(def) => {
                &&& layout::layouts(items.push(item)) is Ok <==> layout::struct_layout(def, env)
                    is Ok
                &&& layout::layouts(items.push(item)) matches Ok(after) ==> {
                    &&& layout::struct_layout(def, env) == Ok::<
                        layout::StructLayoutView,
                        LayoutFault,
                    >(after.structs[def.name])
                    &&& after.structs.contains_key(name) <==> name == def.name
                        || env.structs.contains_key(name)
                    &&& name != def.name && env.structs.contains_key(name) ==> after.structs[name]
                        == env.structs[name]
                    &&& after.enums == env.enums
                }
            },
            ast::ItemView::Enum(def) => {
                &&& layout::layouts(items.push(item)) is Ok <==> layout::enum_layout(def, env) is Ok
                &&& layout::layouts(items.push(item)) matches Ok(after) ==> {
                    &&& layout::enum_layout(def, env) == Ok::<
                        layout::EnumLayoutView,
                        LayoutFault,
                    >(after.enums[def.name])
                    &&& after.enums.contains_key(name) <==> name == def.name
                        || env.enums.contains_key(name)
                    &&& name != def.name && env.enums.contains_key(name) ==> after.enums[name]
                        == env.enums[name]
                    &&& after.structs == env.structs
                }
            },
            ast::ItemView::Channel(_) => layout::layouts(items.push(item)) == layout::layouts(
                items,
            ),
        },
{
    assert(items.push(item).drop_last() =~= items);
}

/// In a schema that ends with a struct, the struct is laid out as in C, its fields of other types
/// by the layouts of the types declared before it.
pub proof fn law_struct_in_schema(items: Seq<ast::ItemView>, def: ast::StructView)
    ensures
        layout::layouts(items.push(ast::ItemView::Struct(def))) matches Ok(after) ==> {
            &&& layout::layouts(items) matches Ok(env)
            &&& after.structs.contains_key(def.name)
            &&& is_c_layout(
                def.fields,
                after.structs[def.name].fields,
                after.structs[def.name].size,
                after.structs[def.name].align,
                layout::layouts(items)->Ok_0,
            )
        },
{
    law_one_more_declaration(items, ast::ItemView::Struct(def), def.name);
    layout::law_schema_layout(items);
    if let Ok(env) = layout::layouts(items) {
        law_struct_is_c(def, env);
    }
}

/// In a schema that ends with an enum, the payloads of its variants are laid out as in C, their
/// fields of other types by the layouts of the types declared before it.
pub proof fn law_enum_in_schema(items: Seq<ast::ItemView>, def: ast::EnumView, i: int)
    requires
        0 <= i < def.variants.len(),
    ensures
        layout::layouts(items.push(ast::ItemView::Enum(def))) matches Ok(after) ==> {
            &&& layout::layouts(items) matches Ok(env)
            &&& after.enums.contains_key(def.name)
            &&& after.enums[def.name].variants.len() == def.variants.len()
            &&& after.enums[def.name].variants[i].name == def.variants[i].name
            &&& is_c_layout(
                def.variants[i].fields,
                after.enums[def.name].variants[i].fields,
                after.enums[def.name].variants[i].payload_size,
                after.enums[def.name].variants[i].payload_align,
                layout::layouts(items)->Ok_0,
            )
        },
{
    law_one_more_declaration(items, ast::ItemView::Enum(def), def.name);
    layout::law_schema_layout(items);
    if let Ok(env) = layout::layouts(items) {
        if let Ok(l) = layout::enum_layout(def, env) {
            layout::law_enum_layout(def, env);
            layout::law_payload_is_a_struct(def, env, i);
            law_struct_is_c(
                ast::StructView { name: def.variants[i].name, fields: def.variants[i].fields },
                env,
            );
        }
    }
}

/// A layout says the numbers that it holds, of each of its fields and variants in their places.
pub proof fn law_layout_parts(
    s: layout::StructLayout,
    e: layout::EnumLayout,
    v: layout::VariantLayout,
    i: int,
)
    ensures
        s@.name == s.name@ && s@.size == s.size && s@.align == s.align,
        s@.fields.len() == s.fields@.len(),
        0 <= i < s.fields@.len() ==> {
            let f = s.fields@[i];
            let said = s@.fields[i];
            &&& said.name == f.name@
            &&& said.ty == f.ty@
            &&& said.offset == f.offset
            &&& said.size == f.size
            &&& said.align == f.align
        },
        v@.name == v.name@ && v@.payload_size == v.payload_size && v@.payload_align
            == v.payload_align,
        v@.fields.len() == v.fields@.len(),
        0 <= i < v.fields@.len() ==> v@.fields[i] == v.fields@[i]@,
        e@.name == e.name@ && e@.size == e.size && e@.align == e.align,
        e@.tag_size == e.tag_size && e@.tag_align == e.tag_align,
        e@.max_payload_size == e.max_payload_size && e@.max_payload_align == e.max_payload_align,
        e@.variants.len() == e.variants@.len(),
        0 <= i < e.variants@.len() ==> e@.variants[i] == e.variants@[i]@,
{
}

/// One more field of a known and countable type is placed behind the others exactly if a `usize`
/// can count the room for its alignment and the place where it ends; and all fields together make
/// a struct exactly if a `usize` can count the room for their alignment behind them.
pub proof fn law_room_for_a_field(
    def: ast::StructView,
    field: ast::FieldView,
    env: layout::SchemaLayoutView,
    start: nat,
)
    requires
        layout::well_laid(env),
        layout::place(def.fields, env) is Ok,
        is_known(field.ty, env),
        is_countable(field.ty, env),
        is_first_multiple(
            start,
            c_align(field.ty, env),
            layout::place(def.fields, env)->Ok_0.end,
        ),
    ensures
        ({
            let p = layout::place(def.fields, env)->Ok_0;
            let q = layout::place(def.fields.push(field), env);
            &&& q is Ok <==> p.end + c_align(field.ty, env) <= usize::MAX && start + c_size(
                field.ty,
                env,
            ) <= usize::MAX
            &&& q is Err ==> q->Err_0 is TooLarge
            &&& q is Ok ==> q->Ok_0.end == start + c_size(field.ty, env)
            &&& layout::struct_layout(def, env) is Ok <==> p.end + p.align <= usize::MAX
            &&& layout::struct_layout(def, env) is Err ==> layout::struct_layout(
                def,
                env,
            )->Err_0 is TooLarge
        }),
{
    let p = layout::place(def.fields, env)->Ok_0;
    let a = c_align(field.ty, env);
    assert(def.fields.push(field).drop_last() =~= def.fields);
    law_extents(field.ty, env);
    layout::lemma_extent(field.ty, env);
    layout::lemma_align_up(p.end, a);
    lemma_one_multiple(start, layout::align_up(p.end, a), a, p.end);
}

/// An enum whose variants can be laid out has a layout exactly if a `usize` can count the end of
/// its largest payload and the room for its alignment behind that.
pub proof fn law_room_for_payloads(def: ast::EnumView, env: layout::SchemaLayoutView, start: nat)
    requires
        layout::well_laid(env),
        layout::variant_layouts(def.variants, env) is Ok,
        is_first_multiple(
            start,
            layout::max_align(layout::variant_layouts(def.variants, env)->Ok_0),
            4,
        ),
    ensures
        ({
            let variants = layout::variant_layouts(def.variants, env)->Ok_0;
            let a = layout::max_align(variants);
            let end = start + layout::max_size(variants);
            layout::enum_layout(def, env) is Ok <==> 4 + a <= usize::MAX && end + (if a > 4 {
                a
            } else {
                4
            }) <= usize::MAX
        }),
{
    let a = layout::max_align(layout::variant_layouts(def.variants, env)->Ok_0);
    layout::lemma_variants(def.variants, env);
    layout::lemma_align_up(4, a);
    lemma_one_multiple(start, layout::align_up(4, a), a, 4);
}

} // verus!
