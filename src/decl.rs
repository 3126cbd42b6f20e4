use vstd::prelude::*;

verus! {

/// The fields of a struct declaration.
pub enum StructFields {
    /// Fields with names, in declaration order.
    Named(Vec<String>),
    /// Positional fields; only their number is kept.
    Unnamed(usize),
    /// No fields at all.
    Unit,
}

/// A struct declaration: its name and its fields.
pub struct StructDecl {
    pub name: String,
    pub fields: StructFields,
}

/// The data carried by one enum variant.
pub enum VariantFields {
    /// No data.
    Unit,
    /// Positional fields, each given by the declaration of its type.
    Unnamed(Vec<StructDecl>),
    /// Named fields, in declaration order.
    Named(Vec<String>),
}

/// One variant of an enum declaration.
pub struct Variant {
    pub name: String,
    pub fields: VariantFields,
}

/// A type declaration as the generators see it.
pub enum TypeDecl {
    Struct(StructDecl),
    Enum { name: String, variants: Vec<Variant> },
    Union { name: String },
}

/// Why a declaration cannot be rendered: its shape is not one that the
/// generator supports.
#[derive(Clone, Copy, Debug, PartialEq, Eq, Structural)]
pub enum UnsupportedShape {
    /// A function was asked for a type that is not a struct.
    NotAStruct,
    /// A function was asked for a struct whose fields have no names.
    FieldsNotNamed,
    /// A library was asked for a type that is not an enum.
    NotAnEnum,
    /// A library variant carries named fields.
    NamedVariant,
}

/// The names in a list of strings, as character sequences.
pub open spec fn names_of(v: Seq<String>) -> Seq<Seq<char>> {
    v.map_values(|s: String| s@)
}

} // verus!
