//! Layout computation for .bridge types using C ABI alignment rules.
//!
//! Rules:
//! - Each field is aligned to its natural alignment
//! - Struct alignment is the max alignment of its fields
//! - Struct size is padded to a multiple of its alignment
//! - Arrays: element alignment, total size = element size * count
//! - Enums: tag (u32) + largest variant payload, padded to max alignment
use vstd::prelude::*;
use crate::idl::ast;
use crate::idl::ast::{EnumDef, Field, Item, Schema, StructDef, Type, Variant};
use crate::idl::names::NameMap;

verus! {

/// Computed layout for a single field within a struct.
#[derive(Debug, Clone)]
pub struct FieldLayout {
    pub name: String,
    pub offset: usize,
    pub size: usize,
    pub align: usize,
    pub ty: Type,
}

/// Computed layout for a struct.
#[derive(Debug, Clone)]
pub struct StructLayout {
    pub name: String,
    pub fields: Vec<FieldLayout>,
    pub size: usize,
    pub align: usize,
}

/// Computed layout for an enum variant's payload.
#[derive(Debug, Clone)]
pub struct VariantLayout {
    pub name: String,
    pub fields: Vec<FieldLayout>,
    pub payload_size: usize,
    pub payload_align: usize,
}

/// Computed layout for an enum.
#[derive(Debug, Clone)]
pub struct EnumLayout {
    pub name: String,
    pub tag_size: usize,
    pub tag_align: usize,
    pub variants: Vec<VariantLayout>,
    pub max_payload_size: usize,
    pub max_payload_align: usize,
    pub size: usize,
    pub align: usize,
}

/// Computed layout for an entire schema.
#[derive(Debug, Clone)]
pub struct SchemaLayout {
    pub structs: NameMap<StructLayout>,
    pub enums: NameMap<EnumLayout>,
}

/// Why a schema has no layout.
#[derive(Debug, Clone)]
pub enum LayoutError {
    /// A field has a type that was not defined before.
    Unknown(String),
    /// A size or an offset is too large to be a `usize`.
    TooLarge,
}

pub struct FieldLayoutView {
    pub name: Seq<char>,
    pub offset: nat,
    pub size: nat,
    pub align: nat,
    pub ty: ast::TypeView,
}

pub struct StructLayoutView {
    pub name: Seq<char>,
    pub fields: Seq<FieldLayoutView>,
    pub size: nat,
    pub align: nat,
}

pub struct VariantLayoutView {
    pub name: Seq<char>,
    pub fields: Seq<FieldLayoutView>,
    pub payload_size: nat,
    pub payload_align: nat,
}

pub struct EnumLayoutView {
    pub name: Seq<char>,
    pub tag_size: nat,
    pub tag_align: nat,
    pub variants: Seq<VariantLayoutView>,
    pub max_payload_size: nat,
    pub max_payload_align: nat,
    pub size: nat,
    pub align: nat,
}

pub struct SchemaLayoutView {
    pub structs: Map<Seq<char>, StructLayoutView>,
    pub enums: Map<Seq<char>, EnumLayoutView>,
}

pub enum LayoutFault {
    Unknown(Seq<char>),
    TooLarge,
}

impl View for FieldLayout {
    type V = FieldLayoutView;

    open spec fn view(&self) -> FieldLayoutView {
        FieldLayoutView {
            name: self.name@,
            offset: self.offset as nat,
            size: self.size as nat,
            align: self.align as nat,
            ty: self.ty@,
        }
    }
}

impl View for StructLayout {
    type V = StructLayoutView;

    open spec fn view(&self) -> StructLayoutView {
        StructLayoutView {
            name: self.name@,
            fields: self.fields@.map_values(|f: FieldLayout| f@),
            size: self.size as nat,
            align: self.align as nat,
        }
    }
}

impl View for VariantLayout {
    type V = VariantLayoutView;

    open spec fn view(&self) -> VariantLayoutView {
        VariantLayoutView {
            name: self.name@,
            fields: self.fields@.map_values(|f: FieldLayout| f@),
            payload_size: self.payload_size as nat,
            payload_align: self.payload_align as nat,
        }
    }
}

impl View for EnumLayout {
    type V = EnumLayoutView;

    open spec fn view(&self) -> EnumLayoutView {
        EnumLayoutView {
            name: self.name@,
            tag_size: self.tag_size as nat,
            tag_align: self.tag_align as nat,
            variants: self.variants@.map_values(|v: VariantLayout| v@),
            max_payload_size: self.max_payload_size as nat,
            max_payload_align: self.max_payload_align as nat,
            size: self.size as nat,
            align: self.align as nat,
        }
    }
}

impl View for SchemaLayout {
    type V = SchemaLayoutView;

    open spec fn view(&self) -> SchemaLayoutView {
        SchemaLayoutView { structs: self.structs@, enums: self.enums@ }
    }
}

impl View for LayoutError {
    type V = LayoutFault;

    open spec fn view(&self) -> LayoutFault {
        match self {
            LayoutError::Unknown(name) => LayoutFault::Unknown(name@),
            LayoutError::TooLarge => LayoutFault::TooLarge,
        }
    }
}

/// The larger of two numbers.
pub open spec fn larger(a: nat, b: nat) -> nat {
    if a >= b {
        a
    } else {
        b
    }
}

/// The first multiple of `align` from `offset` on.
pub open spec fn align_up(offset: nat, align: nat) -> nat {
    ((offset + align - 1) / align as int * align) as nat
}

/// The first multiple of `align` from `offset` on, if the sum of both is a `usize`.
pub open spec fn aligned(offset: nat, align: nat) -> Result<nat, LayoutFault> {
    if offset + align <= usize::MAX {
        Ok(align_up(offset, align))
    } else {
        Err(LayoutFault::TooLarge)
    }
}

/// Size and alignment of a type, given the layouts of the types defined before.
pub open spec fn extent(ty: ast::TypeView, env: SchemaLayoutView) -> Result<
    (nat, nat),
    LayoutFault,
>
    decreases ty,
{
    match ty {
        ast::TypeView::Primitive(p) => Ok((p.bytes(), p.bytes())),
        ast::TypeView::Array(inner, count) => match extent(*inner, env) {
            Ok((size, align)) => if size * (count as nat) <= usize::MAX {
                Ok((size * (count as nat), align))
            } else {
                Err(LayoutFault::TooLarge)
            },
            Err(fault) => Err(fault),
        },
        ast::TypeView::Named(name) => if env.structs.contains_key(name) {
            Ok((env.structs[name].size, env.structs[name].align))
        } else if env.enums.contains_key(name) {
            Ok((env.enums[name].size, env.enums[name].align))
        } else {
            Err(LayoutFault::Unknown(name))
        },
    }
}

/// Fields in their places, one behind the other.
pub struct Placement {
    pub fields: Seq<FieldLayoutView>,
    /// Where the last field ends.
    pub end: nat,
    /// The largest alignment of the fields, at least one.
    pub align: nat,
}

/// Puts a field at the first multiple of its alignment behind the others.
pub open spec fn place_one(
    p: Placement,
    field: ast::FieldView,
    env: SchemaLayoutView,
) -> Result<Placement, LayoutFault> {
    match extent(field.ty, env) {
        Ok((size, align)) => match aligned(p.end, align) {
            Ok(offset) => if offset + size <= usize::MAX {
                Ok(
                    Placement {
                        fields: p.fields.push(
                            FieldLayoutView { name: field.name, offset, size, align, ty: field.ty },
                        ),
                        end: offset + size,
                        align: larger(p.align, align),
                    },
                )
            } else {
                Err(LayoutFault::TooLarge)
            },
            Err(fault) => Err(fault),
        },
        Err(fault) => Err(fault),
    }
}

/// Puts fields in their places, in order.
pub open spec fn place(fields: Seq<ast::FieldView>, env: SchemaLayoutView) -> Result<
    Placement,
    LayoutFault,
>
    decreases fields.len(),
{
    if fields.len() == 0 {
        Ok(Placement { fields: Seq::empty(), end: 0, align: 1 })
    } else {
        match place(fields.drop_last(), env) {
            Ok(p) => place_one(p, fields.last(), env),
            Err(fault) => Err(fault),
        }
    }
}

/// The layout of a struct: its fields in their places, padded to a multiple of its alignment.
pub open spec fn struct_layout(def: ast::StructView, env: SchemaLayoutView) -> Result<
    StructLayoutView,
    LayoutFault,
> {
    match place(def.fields, env) {
        Ok(p) => match aligned(p.end, p.align) {
            Ok(size) => Ok(
                StructLayoutView { name: def.name, fields: p.fields, size, align: p.align },
            ),
            Err(fault) => Err(fault),
        },
        Err(fault) => Err(fault),
    }
}

/// The layout of a variant's payload, which is that of a struct with its fields.
pub open spec fn variant_layout(variant: ast::VariantView, env: SchemaLayoutView) -> Result<
    VariantLayoutView,
    LayoutFault,
> {
    match place(variant.fields, env) {
        Ok(p) => match aligned(p.end, p.align) {
            Ok(size) => Ok(
                VariantLayoutView {
                    name: variant.name,
                    fields: p.fields,
                    payload_size: size,
                    payload_align: p.align,
                },
            ),
            Err(fault) => Err(fault),
        },
        Err(fault) => Err(fault),
    }
}

/// Whether a variant's payload is laid out as structs with the variant's fields are.
pub open spec fn is_struct_payload(
    payload: VariantLayoutView,
    variant: ast::VariantView,
    env: SchemaLayoutView,
) -> bool {
    &&& payload.name == variant.name
    &&& forall|name: Seq<char>|
        #[trigger] struct_layout(ast::StructView { name, fields: variant.fields }, env) == Ok::<
            StructLayoutView,
            LayoutFault,
        >(
            StructLayoutView {
                name,
                fields: payload.fields,
                size: payload.payload_size,
                align: payload.payload_align,
            },
        )
}

/// The layouts of variants, in order.
pub open spec fn variant_layouts(
    variants: Seq<ast::VariantView>,
    env: SchemaLayoutView,
) -> Result<Seq<VariantLayoutView>, LayoutFault>
    decreases variants.len(),
{
    if variants.len() == 0 {
        Ok(Seq::empty())
    } else {
        match variant_layouts(variants.drop_last(), env) {
            Ok(before) => match variant_layout(variants.last(), env) {
                Ok(last) => Ok(before.push(last)),
                Err(fault) => Err(fault),
            },
            Err(fault) => Err(fault),
        }
    }
}

/// The size of the largest payload.
pub open spec fn max_size(variants: Seq<VariantLayoutView>) -> nat
    decreases variants.len(),
{
    if variants.len() == 0 {
        0
    } else {
        larger(max_size(variants.drop_last()), variants.last().payload_size)
    }
}

/// The largest alignment of a payload, at least one.
pub open spec fn max_align(variants: Seq<VariantLayoutView>) -> nat
    decreases variants.len(),
{
    if variants.len() == 0 {
        1
    } else {
        larger(max_align(variants.drop_last()), variants.last().payload_align)
    }
}

/// The layout of an enum: a four-byte tag, padding, room for the largest payload, padding.
pub open spec fn enum_layout(def: ast::EnumView, env: SchemaLayoutView) -> Result<
    EnumLayoutView,
    LayoutFault,
> {
    match variant_layouts(def.variants, env) {
        Ok(variants) => {
            let align = larger(4, max_align(variants));
            match aligned(4, max_align(variants)) {
                Ok(payload_offset) => if payload_offset + max_size(variants) <= usize::MAX {
                    match aligned(payload_offset + max_size(variants), align) {
                        Ok(size) => Ok(
                            EnumLayoutView {
                                name: def.name,
                                tag_size: 4,
                                tag_align: 4,
                                variants,
                                max_payload_size: max_size(variants),
                                max_payload_align: max_align(variants),
                                size,
                                align,
                            },
                        ),
                        Err(fault) => Err(fault),
                    }
                } else {
                    Err(LayoutFault::TooLarge)
                },
                Err(fault) => Err(fault),
            }
        },
        Err(fault) => Err(fault),
    }
}

/// The layouts of declarations, each given those before it. A later declaration takes the place
/// of an earlier one of the same kind and name.
pub open spec fn layouts(items: Seq<ast::ItemView>) -> Result<SchemaLayoutView, LayoutFault>
    decreases items.len(),
{
    if items.len() == 0 {
        Ok(SchemaLayoutView { structs: Map::empty(), enums: Map::empty() })
    } else {
        match layouts(items.drop_last()) {
            Ok(env) => match items.last() {
                ast::ItemView::Struct(def) => match struct_layout(def, env) {
                    Ok(layout) => Ok(
                        SchemaLayoutView { structs: env.structs.insert(def.name, layout), ..env },
                    ),
                    Err(fault) => Err(fault),
                },
                ast::ItemView::Enum(def) => match enum_layout(def, env) {
                    Ok(layout) => Ok(
                        SchemaLayoutView { enums: env.enums.insert(def.name, layout), ..env },
                    ),
                    Err(fault) => Err(fault),
                },
                ast::ItemView::Channel(_) => Ok(env),
            },
            Err(fault) => Err(fault),
        }
    }
}

/// An alignment that occurs.
pub open spec fn is_align(a: nat) -> bool {
    a == 1 || a == 2 || a == 4 || a == 8
}

/// Whether all types have an alignment that occurs and a size that is a multiple of it.
pub open spec fn well_laid(env: SchemaLayoutView) -> bool {
    &&& forall|name: Seq<char>| #[trigger]
        env.structs.contains_key(name) ==> is_align(env.structs[name].align)
            && env.structs[name].size % env.structs[name].align == 0
    &&& forall|name: Seq<char>| #[trigger]
        env.enums.contains_key(name) ==> is_align(env.enums[name].align) && env.enums[name].size
            % env.enums[name].align == 0
}

pub proof fn lemma_align_up(offset: nat, align: nat)
    requires
        is_align(align),
    ensures
        offset <= align_up(offset, align) < offset + align,
        align_up(offset, align) % align == 0,
{
    if align == 1 {
        assert(align_up(offset, 1) == offset);
    } else if align == 2 {
        assert(align_up(offset, 2) == (offset + 1) / 2 * 2);
    } else if align == 4 {
        assert(align_up(offset, 4) == (offset + 3) / 4 * 4);
    } else {
        assert(align_up(offset, 8) == (offset + 7) / 8 * 8);
    }
}

/// A multiple of an alignment is a multiple of every smaller one.
proof fn lemma_divides(x: nat, a: nat, b: nat)
    requires
        is_align(a),
        is_align(b),
        b <= a,
        x % a == 0,
    ensures
        x % b == 0,
        a % b == 0,
{
    if b == 1 {
        assert(x % 1 == 0 && a % 1 == 0);
    } else if b == 2 {
        if a == 2 {
            assert(x % 2 == 0);
        } else if a == 4 {
            assert(x % 4 == 0);
            assert(x % 2 == 0);
        } else {
            assert(x % 8 == 0);
            assert(x % 2 == 0);
        }
    } else if b == 4 {
        if a == 4 {
            assert(x % 4 == 0);
        } else {
            assert(x % 8 == 0);
            assert(x % 4 == 0);
        }
    } else {
        assert(a == 8);
        assert(8nat % 8 == 0);
    }
}

/// The size of a type is a multiple of its alignment, so the elements of an array are aligned.
pub proof fn lemma_extent(ty: ast::TypeView, env: SchemaLayoutView)
    requires
        well_laid(env),
    ensures
        extent(ty, env) matches Ok((size, align)) ==> is_align(align) && size % align == 0,
    decreases ty,
{
    if let ast::TypeView::Array(inner, count) = ty {
        lemma_extent(*inner, env);
        if let Ok((size, align)) = extent(*inner, env) {
            let n = count as nat;
            vstd::arithmetic::div_mod::lemma_fundamental_div_mod(size as int, align as int);
            let q = (size / align) as int;
            assert(size * n == (q * n) * align) by (nonlinear_arith)
                requires
                    size == align * q,
            ;
            vstd::arithmetic::div_mod::lemma_mod_multiples_basic(q * n, align as int);
        }
    }
}

/// A fault in the first fields is the fault of all.
proof fn lemma_place_prefix(fields: Seq<ast::FieldView>, k: int, env: SchemaLayoutView)
    requires
        0 <= k <= fields.len(),
    ensures
        place(fields.take(k), env) is Err ==> place(fields, env) == place(fields.take(k), env),
    decreases fields.len() - k,
{
    if k < fields.len() {
        assert(fields.take(k + 1).drop_last() =~= fields.take(k));
        lemma_place_prefix(fields, k + 1, env);
    } else {
        assert(fields.take(k) =~= fields);
    }
}

proof fn lemma_variants_prefix(variants: Seq<ast::VariantView>, k: int, env: SchemaLayoutView)
    requires
        0 <= k <= variants.len(),
    ensures
        variant_layouts(variants.take(k), env) is Err ==> variant_layouts(variants, env)
            == variant_layouts(variants.take(k), env),
    decreases variants.len() - k,
{
    if k < variants.len() {
        assert(variants.take(k + 1).drop_last() =~= variants.take(k));
        lemma_variants_prefix(variants, k + 1, env);
    } else {
        assert(variants.take(k) =~= variants);
    }
}

proof fn lemma_layouts_prefix(items: Seq<ast::ItemView>, k: int)
    requires
        0 <= k <= items.len(),
    ensures
        layouts(items.take(k)) is Err ==> layouts(items) == layouts(items.take(k)),
    decreases items.len() - k,
{
    if k < items.len() {
        assert(items.take(k + 1).drop_last() =~= items.take(k));
        lemma_layouts_prefix(items, k + 1);
    } else {
        assert(items.take(k) =~= items);
    }
}

/// What holds of fields in their places.
proof fn lemma_place(fields: Seq<ast::FieldView>, env: SchemaLayoutView)
    requires
        well_laid(env),
    ensures
        place(fields, env) matches Ok(p) ==> {
            &&& is_align(p.align)
            &&& p.fields.len() == fields.len()
            &&& p.end <= usize::MAX
            &&& forall|i: int|
                0 <= i < fields.len() ==> {
                    let f = #[trigger] p.fields[i];
                    &&& f.name == fields[i].name
                    &&& f.ty == fields[i].ty
                    &&& extent(f.ty, env) == Ok::<(nat, nat), LayoutFault>((f.size, f.align))
                    &&& is_align(f.align)
                    &&& f.offset % f.align == 0
                    &&& f.align <= p.align
                    &&& f.offset + f.size <= p.end
                }
            &&& forall|i: int, j: int|
                0 <= i < j < fields.len() ==> (#[trigger] p.fields[i]).offset + p.fields[i].size
                    <= (#[trigger] p.fields[j]).offset
        },
    decreases fields.len(),
{
    if fields.len() > 0 {
        lemma_place(fields.drop_last(), env);
        if let Ok(p) = place(fields.drop_last(), env) {
            let field = fields.last();
            lemma_extent(field.ty, env);
            if let Ok((size, align)) = extent(field.ty, env) {
                lemma_align_up(p.end, align);
                if let Ok(q) = place_one(p, field, env) {
                    assert forall|i: int| 0 <= i < fields.len() implies {
                        let f = #[trigger] q.fields[i];
                        &&& f.name == fields[i].name
                        &&& f.ty == fields[i].ty
                        &&& extent(f.ty, env) == Ok::<(nat, nat), LayoutFault>((f.size, f.align))
                        &&& is_align(f.align)
                        &&& f.offset % f.align == 0
                        &&& f.align <= q.align
                        &&& f.offset + f.size <= q.end
                    } by {
                        if i < fields.len() - 1 {
                            assert(q.fields[i] == p.fields[i]);
                            assert(fields.drop_last()[i] == fields[i]);
                        }
                    }
                    assert forall|i: int, j: int| 0 <= i < j < fields.len() implies (
                    #[trigger] q.fields[i]).offset + q.fields[i].size <= (
                    #[trigger] q.fields[j]).offset by {
                        assert(q.fields[i] == p.fields[i]);
                        if j < fields.len() - 1 {
                            assert(q.fields[j] == p.fields[j]);
                        }
                    }
                }
            }
        }
    }
}

pub proof fn lemma_variants(variants: Seq<ast::VariantView>, env: SchemaLayoutView)
    requires
        well_laid(env),
    ensures
        variant_layouts(variants, env) matches Ok(all) ==> {
            &&& is_align(max_align(all))
            &&& max_size(all) <= usize::MAX
            &&& all.len() == variants.len()
            &&& forall|i: int|
                0 <= i < variants.len() ==> {
                    let v = #[trigger] all[i];
                    &&& variant_layout(variants[i], env) == Ok::<VariantLayoutView, LayoutFault>(v)
                    &&& is_align(v.payload_align)
                    &&& v.payload_align <= max_align(all)
                    &&& v.payload_size <= max_size(all)
                }
        },
    decreases variants.len(),
{
    if variants.len() > 0 {
        lemma_variants(variants.drop_last(), env);
        lemma_place(variants.last().fields, env);
        if let Ok(before) = variant_layouts(variants.drop_last(), env) {
            if let Ok(last) = variant_layout(variants.last(), env) {
                let all = before.push(last);
                let p = place(variants.last().fields, env)->Ok_0;
                lemma_align_up(p.end, p.align);
                assert(all.drop_last() =~= before);
                assert forall|i: int| 0 <= i < variants.len() implies {
                    let v = #[trigger] all[i];
                    &&& variant_layout(variants[i], env) == Ok::<VariantLayoutView, LayoutFault>(v)
                    &&& is_align(v.payload_align)
                    &&& v.payload_align <= max_align(all)
                    &&& v.payload_size <= max_size(all)
                } by {
                    if i < variants.len() - 1 {
                        assert(all[i] == before[i]);
                        assert(variants.drop_last()[i] == variants[i]);
                    }
                }
            }
        }
    }
}

/// Compute layouts for all types in a schema.
///
/// Types must be defined before they are used. No size or offset may be too large.
pub fn compute_layout(schema: &Schema) -> (r: Result<SchemaLayout, String>)
    requires
        layouts(schema@.items) != Err::<SchemaLayoutView, LayoutFault>(LayoutFault::TooLarge),
    ensures
        match layouts(schema@.items) {
            Ok(env) => r matches Ok(layout) && layout@ == env && layout.wf(),
            Err(fault) => {
                &&& fault matches LayoutFault::Unknown(name)
                &&& r matches Err(message)
                &&& message@ == "unknown type '"@ + name + "'"@
            },
        },
{
    match lay_out(schema) {
        Ok(layout) => Ok(layout),
        Err(LayoutError::Unknown(name)) => {
            let mut message: String = String::new();
            message.append("unknown type '");
            message.append(name.as_str());
            message.append("'");
            assert(message@ =~= "unknown type '"@ + name@ + "'"@);
            Err(message)
        },
        Err(LayoutError::TooLarge) => {
            assert(false);
            Err(String::new())
        },
    }
}

/// Whether no size or offset in a schema's layout is too large, up to the first type that is
/// not known.
pub fn layout_fits(schema: &Schema) -> (r: bool)
    ensures
        r == (layouts(schema@.items) != Err::<SchemaLayoutView, LayoutFault>(
            LayoutFault::TooLarge,
        )),
{
    match lay_out(schema) {
        Err(LayoutError::TooLarge) => false,
        _ => true,
    }
}

impl SchemaLayout {
    /// Whether the maps hold no name twice.
    pub open spec fn wf(self) -> bool {
        self.structs.wf() && self.enums.wf()
    }
}

/// Computes layouts for all types in a schema, or says why there are none.
pub fn lay_out(schema: &Schema) -> (r: Result<SchemaLayout, LayoutError>)
    ensures
        match r {
            Ok(layout) => {
                &&& layouts(schema@.items) == Ok::<SchemaLayoutView, LayoutFault>(layout@)
                &&& layout.wf()
                &&& well_laid(layout@)
            },
            Err(error) => layouts(schema@.items) == Err::<SchemaLayoutView, LayoutFault>(error@),
        },
{
    let ghost items = schema@.items;
    let mut env: SchemaLayout = SchemaLayout { structs: NameMap::new(), enums: NameMap::new() };
    let mut i: usize = 0;
    assert(items.take(0) =~= Seq::<ast::ItemView>::empty());
    while i < schema.items.len()
        invariant
            items == schema@.items,
            i <= schema.items@.len(),
            env.wf(),
            well_laid(env@),
            layouts(items.take(i as int)) == Ok::<SchemaLayoutView, LayoutFault>(env@),
        decreases schema.items@.len() - i,
    {
        proof {
            assert(items.take(i + 1).drop_last() =~= items.take(i as int));
            assert(items.take(i + 1).last() == schema.items@[i as int]@);
            lemma_layouts_prefix(items, i + 1);
        }
        let ghost before = env@;
        match &schema.items[i] {
            Item::Struct(def) => {
                proof {
                    law_struct_layout(def@, before);
                }
                let layout: StructLayout = match compute_struct_layout(def, &env) {
                    Ok(layout) => layout,
                    Err(error) => {
                        return Err(error);
                    },
                };
                let ghost new = layout@;
                env.structs.insert(def.name.clone(), layout);
                assert(well_laid(env@)) by {
                    assert(env@.structs == before.structs.insert(def@.name, new));
                    assert(env@.enums == before.enums);
                }
            },
            Item::Enum(def) => {
                proof {
                    law_enum_layout(def@, before);
                }
                let layout: EnumLayout = match compute_enum_layout(def, &env) {
                    Ok(layout) => layout,
                    Err(error) => {
                        return Err(error);
                    },
                };
                let ghost new = layout@;
                env.enums.insert(def.name.clone(), layout);
                assert(well_laid(env@)) by {
                    assert(env@.enums == before.enums.insert(def@.name, new));
                    assert(env@.structs == before.structs);
                }
            },
            Item::Channel(_) => {},
        }
        i = i + 1;
    }
    assert(items.take(i as int) =~= items);
    Ok(env)
}

fn type_size_align(ty: &Type, env: &SchemaLayout) -> (r: Result<(usize, usize), LayoutError>)
    requires
        env.wf(),
    ensures
        match r {
            Ok((size, align)) => extent(ty@, env@) == Ok::<(nat, nat), LayoutFault>(
                (size as nat, align as nat),
            ),
            Err(error) => extent(ty@, env@) == Err::<(nat, nat), LayoutFault>(error@),
        },
    decreases ty,
{
    match ty {
        Type::Primitive(p) => Ok((p.size(), p.align())),
        Type::Array(inner, count) => {
            let (elem_size, elem_align): (usize, usize) = type_size_align(&**inner, env)?;
            match elem_size.checked_mul(*count) {
                Some(size) => Ok((size, elem_align)),
                None => Err(LayoutError::TooLarge),
            }
        },
        Type::Named(name) => match env.structs.get(name.as_str()) {
            Some(layout) => Ok((layout.size, layout.align)),
            None => match env.enums.get(name.as_str()) {
                Some(layout) => Ok((layout.size, layout.align)),
                None => Err(LayoutError::Unknown(name.clone())),
            },
        },
    }
}

/// Puts fields in their places: the layouts, where the last one ends, and the largest alignment.
fn place_fields(fields: &Vec<Field>, env: &SchemaLayout) -> (r: Result<
    (Vec<FieldLayout>, usize, usize),
    LayoutError,
>)
    requires
        env.wf(),
        well_laid(env@),
    ensures
        match r {
            Ok((placed, end, align)) => place(ast::fields_view(fields@), env@) == Ok::<
                Placement,
                LayoutFault,
            >(
                Placement {
                    fields: placed@.map_values(|f: FieldLayout| f@),
                    end: end as nat,
                    align: align as nat,
                },
            ),
            Err(error) => place(ast::fields_view(fields@), env@) == Err::<Placement, LayoutFault>(
                error@,
            ),
        },
{
    let ghost all = ast::fields_view(fields@);
    let mut placed: Vec<FieldLayout> = Vec::new();
    let mut end: usize = 0;
    let mut max_align: usize = 1;
    let mut i: usize = 0;
    proof {
        assert(all.take(0) =~= Seq::<ast::FieldView>::empty());
        assert(placed@.map_values(|f: FieldLayout| f@) =~= Seq::<FieldLayoutView>::empty());
    }
    while i < fields.len()
        invariant
            env.wf(),
            well_laid(env@),
            all == ast::fields_view(fields@),
            i <= fields@.len(),
            place(all.take(i as int), env@) == Ok::<Placement, LayoutFault>(
                Placement {
                    fields: placed@.map_values(|f: FieldLayout| f@),
                    end: end as nat,
                    align: max_align as nat,
                },
            ),
        decreases fields@.len() - i,
    {
        let ghost before = placed@.map_values(|f: FieldLayout| f@);
        let field: &Field = &fields[i];
        proof {
            assert(all.take(i + 1).drop_last() =~= all.take(i as int));
            assert(all.take(i + 1).last() == field@);
            lemma_place_prefix(all, i + 1, env@);
            lemma_extent(field.ty@, env@);
        }
        let (size, align): (usize, usize) = type_size_align(&field.ty, env)?;
        let offset: usize = match checked_align_up(end, align) {
            Some(offset) => offset,
            None => {
                return Err(LayoutError::TooLarge);
            },
        };
        end = match offset.checked_add(size) {
            Some(next) => next,
            None => {
                return Err(LayoutError::TooLarge);
            },
        };
        if align > max_align {
            max_align = align;
        }
        placed.push(
            FieldLayout {
                name: field.name.clone(),
                offset,
                size,
                align,
                ty: field.ty.clone(),
            },
        );
        assert(placed@.map_values(|f: FieldLayout| f@) =~= before.push(placed@.last()@));
        i = i + 1;
    }
    assert(all.take(i as int) =~= all);
    Ok((placed, end, max_align))
}

/// Computes the layout of a struct, given the layouts of the types defined before.
pub fn compute_struct_layout(def: &StructDef, env: &SchemaLayout) -> (r: Result<
    StructLayout,
    LayoutError,
>)
    requires
        env.wf(),
        well_laid(env@),
    ensures
        match r {
            Ok(layout) => struct_layout(def@, env@) == Ok::<StructLayoutView, LayoutFault>(layout@),
            Err(error) => struct_layout(def@, env@) == Err::<StructLayoutView, LayoutFault>(error@),
        },
{
    proof {
        lemma_place(def@.fields, env@);
    }
    let (fields, end, align): (Vec<FieldLayout>, usize, usize) = place_fields(&def.fields, env)?;
    match checked_align_up(end, align) {
        Some(size) => Ok(StructLayout { name: def.name.clone(), fields, size, align }),
        None => Err(LayoutError::TooLarge),
    }
}

fn compute_variant_layout(variant: &Variant, env: &SchemaLayout) -> (r: Result<
    VariantLayout,
    LayoutError,
>)
    requires
        env.wf(),
        well_laid(env@),
    ensures
        match r {
            Ok(layout) => variant_layout(variant@, env@) == Ok::<VariantLayoutView, LayoutFault>(
                layout@,
            ),
            Err(error) => variant_layout(variant@, env@) == Err::<VariantLayoutView, LayoutFault>(
                error@,
            ),
        },
{
    proof {
        lemma_place(variant@.fields, env@);
    }
    let (fields, end, align): (Vec<FieldLayout>, usize, usize) = place_fields(
        &variant.fields,
        env,
    )?;
    match checked_align_up(end, align) {
        Some(size) => Ok(
            VariantLayout {
                name: variant.name.clone(),
                fields,
                payload_size: size,
                payload_align: align,
            },
        ),
        None => Err(LayoutError::TooLarge),
    }
}

/// Computes the layout of an enum, given the layouts of the types defined before. The payload of
/// each variant is laid out as a struct with the same fields.
pub fn compute_enum_layout(def: &EnumDef, env: &SchemaLayout) -> (r: Result<
    EnumLayout,
    LayoutError,
>)
    requires
        env.wf(),
        well_laid(env@),
    ensures
        match r {
            Ok(layout) => {
                &&& enum_layout(def@, env@) == Ok::<EnumLayoutView, LayoutFault>(layout@)
                &&& layout@.variants.len() == def@.variants.len()
                &&& forall|i: int|
                    0 <= i < def@.variants.len() ==> is_struct_payload(
                        #[trigger] layout@.variants[i],
                        def@.variants[i],
                        env@,
                    )
            },
            Err(error) => enum_layout(def@, env@) == Err::<EnumLayoutView, LayoutFault>(error@),
        },
{
    let tag_size: usize = 4;
    let tag_align: usize = 4;
    let ghost all = def@.variants;
    let mut variants: Vec<VariantLayout> = Vec::new();
    let mut max_payload_size: usize = 0;
    let mut max_payload_align: usize = 1;
    let mut i: usize = 0;
    proof {
        assert(all.take(0) =~= Seq::<ast::VariantView>::empty());
        assert(variants@.map_values(|v: VariantLayout| v@) =~= Seq::<VariantLayoutView>::empty());
    }
    while i < def.variants.len()
        invariant
            env.wf(),
            well_laid(env@),
            all == def@.variants,
            i <= def.variants@.len(),
            variant_layouts(all.take(i as int), env@) == Ok::<Seq<VariantLayoutView>, LayoutFault>(
                variants@.map_values(|v: VariantLayout| v@),
            ),
            max_payload_size == max_size(variants@.map_values(|v: VariantLayout| v@)),
            max_payload_align == max_align(variants@.map_values(|v: VariantLayout| v@)),
        decreases def.variants@.len() - i,
    {
        let ghost before = variants@.map_values(|v: VariantLayout| v@);
        let variant: &Variant = &def.variants[i];
        proof {
            assert(all.take(i + 1).drop_last() =~= all.take(i as int));
            assert(all.take(i + 1).last() == variant@);
            lemma_variants_prefix(all, i + 1, env@);
        }
        let layout: VariantLayout = compute_variant_layout(variant, env)?;
        if layout.payload_size > max_payload_size {
            max_payload_size = layout.payload_size;
        }
        if layout.payload_align > max_payload_align {
            max_payload_align = layout.payload_align;
        }
        variants.push(layout);
        proof {
            let after = variants@.map_values(|v: VariantLayout| v@);
            assert(after =~= before.push(variants@.last()@));
            assert(after.drop_last() =~= before);
        }
        i = i + 1;
    }
    assert(all.take(i as int) =~= all);
    proof {
        lemma_variants(all, env@);
    }
    let mut align: usize = tag_align;
    if max_payload_align > align {
        align = max_payload_align;
    }
    let payload_offset: usize = match checked_align_up(tag_size, max_payload_align) {
        Some(offset) => offset,
        None => {
            return Err(LayoutError::TooLarge);
        },
    };
    let end: usize = match payload_offset.checked_add(max_payload_size) {
        Some(end) => end,
        None => {
            return Err(LayoutError::TooLarge);
        },
    };
    match checked_align_up(end, align) {
        Some(size) => {
            let layout: EnumLayout = EnumLayout {
                name: def.name.clone(),
                tag_size,
                tag_align,
                variants,
                max_payload_size,
                max_payload_align,
                size,
                align,
            };
            proof {
                assert forall|i: int| 0 <= i < def@.variants.len() implies is_struct_payload(
                    #[trigger] layout@.variants[i],
                    def@.variants[i],
                    env@,
                ) by {
                    law_payload_is_a_struct(def@, env@, i);
                }
            }
            Ok(layout)
        },
        None => Err(LayoutError::TooLarge),
    }
}

/// The first multiple of `align` from `offset` on, if the sum of both is a `usize`.
fn checked_align_up(offset: usize, align: usize) -> (r: Option<usize>)
    requires
        is_align(align as nat),
    ensures
        match r {
            Some(up) => aligned(offset as nat, align as nat) == Ok::<nat, LayoutFault>(up as nat),
            None => aligned(offset as nat, align as nat) == Err::<nat, LayoutFault>(
                LayoutFault::TooLarge,
            ),
        },
{
    proof {
        lemma_align_up(offset as nat, align as nat);
    }
    match offset.checked_add(align) {
        Some(sum) => {
            let up: usize = (sum - 1) / align * align;
            Some(up)
        },
        None => None,
    }
}

/// The fields of a struct lie at multiples of their alignments, in order, without overlap and
/// inside the struct, whose alignment is at least each of theirs, and whose size is a multiple
/// of its alignment.
pub proof fn law_struct_layout(def: ast::StructView, env: SchemaLayoutView)
    requires
        well_laid(env),
    ensures
        struct_layout(def, env) matches Ok(l) ==> {
            &&& is_align(l.align)
            &&& l.size % l.align == 0
            &&& l.name == def.name
            &&& l.fields.len() == def.fields.len()
            &&& forall|i: int|
                0 <= i < def.fields.len() ==> {
                    let f = #[trigger] l.fields[i];
                    &&& f.name == def.fields[i].name
                    &&& f.ty == def.fields[i].ty
                    &&& extent(f.ty, env) == Ok::<(nat, nat), LayoutFault>((f.size, f.align))
                    &&& f.offset % f.align == 0
                    &&& f.align <= l.align
                    &&& l.align % f.align == 0
                    &&& f.offset + f.size <= l.size
                }
            &&& forall|i: int, j: int|
                0 <= i < j < def.fields.len() ==> (#[trigger] l.fields[i]).offset
                    + l.fields[i].size <= (#[trigger] l.fields[j]).offset
        },
{
    lemma_place(def.fields, env);
    if let Ok(p) = place(def.fields, env) {
        lemma_align_up(p.end, p.align);
        assert forall|i: int| 0 <= i < def.fields.len() implies p.align % (
        #[trigger] p.fields[i]).align == 0 by {
            lemma_divides(0, p.align, p.fields[i].align);
        }
    }
}

/// An enum has a four-byte tag at its start; every payload fits behind it, at a multiple of its
/// alignment; and the size is a multiple of the alignment, which is at least the tag's.
pub proof fn law_enum_layout(def: ast::EnumView, env: SchemaLayoutView)
    requires
        well_laid(env),
    ensures
        enum_layout(def, env) matches Ok(l) ==> {
            &&& is_align(l.align)
            &&& l.size % l.align == 0
            &&& l.name == def.name
            &&& l.tag_size == 4
            &&& l.tag_align == 4
            &&& l.size >= l.align
            &&& is_align(l.max_payload_align)
            &&& l.align == larger(4, l.max_payload_align)
            &&& l.variants.len() == def.variants.len()
            &&& align_up(4, l.max_payload_align) >= 4
            &&& align_up(4, l.max_payload_align) % l.max_payload_align == 0
            &&& forall|i: int|
                0 <= i < def.variants.len() ==> {
                    let v = #[trigger] l.variants[i];
                    &&& v.name == def.variants[i].name
                    &&& v.payload_align <= l.max_payload_align
                    &&& align_up(4, l.max_payload_align) % v.payload_align == 0
                    &&& align_up(4, l.max_payload_align) + v.payload_size <= l.size
                }
        },
{
    lemma_variants(def.variants, env);
    if let Ok(variants) = variant_layouts(def.variants, env) {
        let a = max_align(variants);
        lemma_align_up(4, a);
        lemma_align_up(align_up(4, a) + max_size(variants), larger(4, a));
        assert(a == 8 ==> align_up(4, a) == 8);
        assert forall|i: int| 0 <= i < def.variants.len() implies align_up(4, a) % (
        #[trigger] variants[i]).payload_align == 0 by {
            lemma_divides(align_up(4, a), a, variants[i].payload_align);
        }
    }
}

/// An enum has room for its largest payload behind the tag.
pub proof fn lemma_enum_size(def: ast::EnumView, env: SchemaLayoutView)
    requires
        well_laid(env),
    ensures
        enum_layout(def, env) matches Ok(l) ==> align_up(4, l.max_payload_align)
            + l.max_payload_size <= l.size,
{
    lemma_variants(def.variants, env);
    if let Ok(variants) = variant_layouts(def.variants, env) {
        let a = max_align(variants);
        lemma_align_up(4, a);
        lemma_align_up(align_up(4, a) + max_size(variants), larger(4, a));
    }
}

/// The payload of every variant, in the order of declaration, is laid out as a struct with the
/// same fields: they have the same offsets, sizes and alignments, and so have the whole ones.
pub proof fn law_payload_is_a_struct(def: ast::EnumView, env: SchemaLayoutView, i: int)
    requires
        well_laid(env),
        0 <= i < def.variants.len(),
        enum_layout(def, env) is Ok,
    ensures
        enum_layout(def, env)->Ok_0.variants.len() == def.variants.len(),
        is_struct_payload(enum_layout(def, env)->Ok_0.variants[i], def.variants[i], env),
{
    lemma_variants(def.variants, env);
    let l = enum_layout(def, env)->Ok_0;
    assert(variant_layout(def.variants[i], env) == Ok::<VariantLayoutView, LayoutFault>(
        l.variants[i],
    ));
}

/// In the layout of a schema every type has one of the alignments that occur, and a size that is
/// a multiple of it.
pub proof fn law_schema_layout(items: Seq<ast::ItemView>)
    ensures
        layouts(items) matches Ok(env) ==> well_laid(env),
    decreases items.len(),
{
    if items.len() > 0 {
        law_schema_layout(items.drop_last());
        if let Ok(env) = layouts(items.drop_last()) {
            match items.last() {
                ast::ItemView::Struct(def) => law_struct_layout(def, env),
                ast::ItemView::Enum(def) => law_enum_layout(def, env),
                ast::ItemView::Channel(_) => {},
            }
        }
    }
}

} // verus!
