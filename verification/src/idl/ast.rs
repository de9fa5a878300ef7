//! Syntax tree of the .bridge schema language.
//!
//! Each type of the tree has a mathematical counterpart with the suffix `View`, in which names
//! are sequences of characters.
use vstd::prelude::*;

verus! {

/// A complete parsed .bridge schema file.
#[derive(Debug, Clone, PartialEq)]
pub struct Schema {
    pub namespace: Option<String>,
    pub items: Vec<Item>,
}

/// A top-level declaration.
#[derive(Debug, Clone, PartialEq)]
pub enum Item {
    Struct(StructDef),
    Enum(EnumDef),
    Channel(ChannelDef),
}

/// A struct definition: `struct Foo { field: Type, ... }`
#[derive(Debug, Clone, PartialEq)]
pub struct StructDef {
    pub name: String,
    pub fields: Vec<Field>,
}

/// A struct field: `name: Type`
#[derive(Debug, Clone, PartialEq)]
pub struct Field {
    pub name: String,
    pub ty: Type,
}

/// An enum definition with variants that can optionally carry fields.
#[derive(Debug, Clone, PartialEq)]
pub struct EnumDef {
    pub name: String,
    pub variants: Vec<Variant>,
}

/// An enum variant: `Name` or `Name { fields... }`
#[derive(Debug, Clone, PartialEq)]
pub struct Variant {
    pub name: String,
    pub fields: Vec<Field>,
}

/// A channel definition binding named directional channels to types.
#[derive(Debug, Clone, PartialEq)]
pub struct ChannelDef {
    pub name: String,
    pub entries: Vec<ChannelEntry>,
}

/// A single channel direction entry: `name: Type`
#[derive(Debug, Clone, PartialEq)]
pub struct ChannelEntry {
    pub name: String,
    pub ty: String,
}

/// A type reference.
#[derive(Debug, PartialEq)]
pub enum Type {
    /// Primitive types: u8, u16, u32, u64, i8, i16, i32, i64, f32, f64, bool
    Primitive(PrimitiveType),
    /// Fixed-size array: `[T; N]`
    Array(Box<Type>, usize),
    /// Named type reference (struct or enum name)
    Named(String),
}

/// Primitive scalar types matching the C ABI.
#[derive(Debug, Clone, Copy, PartialEq, Eq, Structural)]
pub enum PrimitiveType {
    U8,
    U16,
    U32,
    U64,
    I8,
    I16,
    I32,
    I64,
    F32,
    F64,
    Bool,
}

impl PrimitiveType {
    /// Size in bytes.
    pub open spec fn bytes(self) -> nat {
        match self {
            PrimitiveType::U8 | PrimitiveType::I8 | PrimitiveType::Bool => 1,
            PrimitiveType::U16 | PrimitiveType::I16 => 2,
            PrimitiveType::U32 | PrimitiveType::I32 | PrimitiveType::F32 => 4,
            PrimitiveType::U64 | PrimitiveType::I64 | PrimitiveType::F64 => 8,
        }
    }

    /// Size in bytes.
    pub fn size(self) -> (n: usize)
        ensures
            n == self.bytes(),
    {
        match self {
            PrimitiveType::U8 | PrimitiveType::I8 | PrimitiveType::Bool => 1,
            PrimitiveType::U16 | PrimitiveType::I16 => 2,
            PrimitiveType::U32 | PrimitiveType::I32 | PrimitiveType::F32 => 4,
            PrimitiveType::U64 | PrimitiveType::I64 | PrimitiveType::F64 => 8,
        }
    }

    /// Alignment in bytes (matches the size for all primitives).
    pub fn align(self) -> (n: usize)
        ensures
            n == self.bytes(),
    {
        self.size()
    }
}

pub struct SchemaView {
    pub namespace: Option<Seq<char>>,
    pub items: Seq<ItemView>,
}

pub enum ItemView {
    Struct(StructView),
    Enum(EnumView),
    Channel(ChannelView),
}

pub struct StructView {
    pub name: Seq<char>,
    pub fields: Seq<FieldView>,
}

pub struct FieldView {
    pub name: Seq<char>,
    pub ty: TypeView,
}

pub struct EnumView {
    pub name: Seq<char>,
    pub variants: Seq<VariantView>,
}

pub struct VariantView {
    pub name: Seq<char>,
    pub fields: Seq<FieldView>,
}

pub struct ChannelView {
    pub name: Seq<char>,
    pub entries: Seq<EntryView>,
}

pub struct EntryView {
    pub name: Seq<char>,
    pub ty: Seq<char>,
}

pub enum TypeView {
    Primitive(PrimitiveType),
    Array(Box<TypeView>, usize),
    Named(Seq<char>),
}

/// What a type reference says.
pub open spec fn type_view(ty: Type) -> TypeView
    decreases ty,
{
    match ty {
        Type::Primitive(p) => TypeView::Primitive(p),
        Type::Array(inner, count) => TypeView::Array(Box::new(type_view(*inner)), count),
        Type::Named(name) => TypeView::Named(name@),
    }
}

/// What a list of fields says.
pub open spec fn fields_view(fields: Seq<Field>) -> Seq<FieldView> {
    fields.map_values(|f: Field| f@)
}

impl View for Type {
    type V = TypeView;

    open spec fn view(&self) -> TypeView {
        type_view(*self)
    }
}

impl View for Field {
    type V = FieldView;

    open spec fn view(&self) -> FieldView {
        FieldView { name: self.name@, ty: self.ty@ }
    }
}

impl View for StructDef {
    type V = StructView;

    open spec fn view(&self) -> StructView {
        StructView { name: self.name@, fields: fields_view(self.fields@) }
    }
}

impl View for Variant {
    type V = VariantView;

    open spec fn view(&self) -> VariantView {
        VariantView { name: self.name@, fields: fields_view(self.fields@) }
    }
}

impl View for EnumDef {
    type V = EnumView;

    open spec fn view(&self) -> EnumView {
        EnumView { name: self.name@, variants: self.variants@.map_values(|v: Variant| v@) }
    }
}

impl View for ChannelEntry {
    type V = EntryView;

    open spec fn view(&self) -> EntryView {
        EntryView { name: self.name@, ty: self.ty@ }
    }
}

impl View for ChannelDef {
    type V = ChannelView;

    open spec fn view(&self) -> ChannelView {
        ChannelView { name: self.name@, entries: self.entries@.map_values(|e: ChannelEntry| e@) }
    }
}

impl View for Item {
    type V = ItemView;

    open spec fn view(&self) -> ItemView {
        match self {
            Item::Struct(def) => ItemView::Struct(def@),
            Item::Enum(def) => ItemView::Enum(def@),
            Item::Channel(def) => ItemView::Channel(def@),
        }
    }
}

impl View for Schema {
    type V = SchemaView;

    open spec fn view(&self) -> SchemaView {
        SchemaView {
            namespace: match self.namespace {
                Some(name) => Some(name@),
                None => None,
            },
            items: self.items@.map_values(|i: Item| i@),
        }
    }
}

impl Clone for Type {
    /// A type reference that says the same.
    fn clone(&self) -> (out: Type)
        ensures
            out@ == self@,
        decreases self,
    {
        match self {
            Type::Primitive(p) => Type::Primitive(*p),
            Type::Array(inner, count) => Type::Array(Box::new((&**inner).clone()), *count),
            Type::Named(name) => Type::Named(name.clone()),
        }
    }
}

/// A schema says what its parts say: its namespace, and each declaration in its place.
pub proof fn law_schema_parts(schema: Schema, i: int)
    requires
        0 <= i < schema.items@.len(),
    ensures
        schema.namespace matches Some(name) ==> schema@.namespace == Some(name@),
        schema.namespace is None ==> schema@.namespace is None,
        schema@.items.len() == schema.items@.len(),
        match schema.items@[i] {
            Item::Struct(def) => schema@.items[i] == ItemView::Struct(def@),
            Item::Enum(def) => schema@.items[i] == ItemView::Enum(def@),
            Item::Channel(def) => schema@.items[i] == ItemView::Channel(def@),
        },
{
}

/// A declaration says what its parts say: its name, and its fields, variants or entries in their
/// places, each with its own name and type.
pub proof fn law_declaration_parts(
    fields: Vec<Field>,
    name: String,
    variants: Vec<Variant>,
    entries: Vec<ChannelEntry>,
    i: int,
)
    ensures
        ({
            let s = StructDef { name, fields };
            let v = Variant { name, fields };
            &&& s@.name == name@
            &&& v@.name == name@
            &&& s@.fields.len() == fields@.len()
            &&& v@.fields == s@.fields
            &&& 0 <= i < fields@.len() ==> s@.fields[i].name == fields@[i].name@ && s@.fields[i].ty
                == fields@[i].ty@
        }),
        ({
            let e = EnumDef { name, variants };
            &&& e@.name == name@
            &&& e@.variants.len() == variants@.len()
            &&& 0 <= i < variants@.len() ==> e@.variants[i] == variants@[i]@
        }),
        ({
            let c = ChannelDef { name, entries };
            &&& c@.name == name@
            &&& c@.entries.len() == entries@.len()
            &&& 0 <= i < entries@.len() ==> c@.entries[i].name == entries@[i].name@
                && c@.entries[i].ty == entries@[i].ty@
        }),
{
}

/// A type says what it is: a primitive, an array of a type and a length, or a name.
pub proof fn law_type_parts(ty: Type)
    ensures
        match ty {
            Type::Primitive(p) => ty@ == TypeView::Primitive(p),
            Type::Array(element, count) => ty@ matches TypeView::Array(e, n) && *e == element@
                && n == count,
            Type::Named(name) => ty@ == TypeView::Named(name@),
        },
{
}

} // verus!
